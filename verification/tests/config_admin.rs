use kfcli::admin::{
    handle_topic_result, parse_config_overrides, validate_create_topic,
    validate_partition_increase, KafkaError,
};
use kfcli::assignment::{encode_assignment, TopicAssignment, TopicEntry};
use kfcli::config::{
    activate_environment, get_active_environment, upsert_environment, ConfigError,
    EnvironmentConfig,
};
use kfcli::metadata::{
    get_broker_detail, get_consumer_groups, member_assignment_rows, partition_rows,
    topic_overview, topic_ownership_row, BrokerInfo, GroupInfo, MemberInfo, PartitionSummary,
};
use kfcli::numfmt::{i32_to_string, i64_to_string, join_partitions};

#[test]
fn test_parse_config_overrides_success() {
    let overrides = vec![
        "cleanup.policy=compact".to_string(),
        "retention.ms=60000".to_string(),
    ];
    let parsed = parse_config_overrides(&overrides).unwrap();
    assert_eq!(parsed.len(), 2);
    assert_eq!(parsed[0].0, "cleanup.policy");
    assert_eq!(parsed[0].1, "compact");
    assert_eq!(parsed[1].0, "retention.ms");
    assert_eq!(parsed[1].1, "60000");
}

#[test]
fn test_parse_config_overrides_invalid() {
    let overrides = vec!["cleanup.policy".to_string()];
    let err = parse_config_overrides(&overrides).unwrap_err();
    assert!(matches!(err, KafkaError::InvalidArgument(_)));
}

#[test]
fn test_parse_config_overrides_trims_and_messages() {
    let parsed = parse_config_overrides(&vec!["  a  =  b  ".to_string()]).unwrap();
    assert_eq!(parsed[0].0, "a");
    assert_eq!(parsed[0].1, "b");
    let err = parse_config_overrides(&vec!["key= ".to_string()]).unwrap_err();
    if let KafkaError::InvalidArgument(m) = err {
        assert_eq!(m, "Invalid config override 'key= '. Expected key=value");
    } else {
        panic!("expected InvalidArgument");
    }
}

#[test]
fn test_handle_topic_result_success() {
    let result = handle_topic_result("create", "test-topic", Some(Ok("test-topic".to_string())));
    assert!(result.is_ok());
}

#[test]
fn test_handle_topic_result_failure() {
    let result = handle_topic_result(
        "create",
        "test-topic",
        Some(Err(("test-topic".to_string(), "TopicAlreadyExists".to_string()))),
    );
    assert!(matches!(result, Err(KafkaError::Generic(_))));
}

#[test]
fn test_handle_topic_result_no_response() {
    let result = handle_topic_result("delete", "test-topic", None);
    if let Err(KafkaError::Generic(m)) = result {
        assert_eq!(
            m,
            "Kafka returned no response while attempting to delete topic 'test-topic'"
        );
    } else {
        panic!("expected Generic error");
    }
}

#[test]
fn test_validate_admin_arguments() {
    assert!(validate_create_topic(1, 1).is_ok());
    assert!(matches!(validate_create_topic(0, 1), Err(KafkaError::InvalidArgument(_))));
    assert!(matches!(validate_create_topic(2, -1), Err(KafkaError::InvalidArgument(_))));
    assert!(validate_partition_increase(4).is_ok());
    assert!(matches!(validate_partition_increase(0), Err(KafkaError::InvalidArgument(_))));
}

fn sample_environments() -> Vec<(String, EnvironmentConfig)> {
    vec![
        (
            "dev".to_string(),
            EnvironmentConfig { brokers: "localhost:9092".to_string(), is_default: false },
        ),
        (
            "prod".to_string(),
            EnvironmentConfig { brokers: "prodhost:9092".to_string(), is_default: false },
        ),
    ]
}

#[test]
fn test_activate_not_found_environment() {
    let environments = sample_environments();
    let result = activate_environment(environments, "test");
    assert!(result.is_err());
    let error = result.unwrap_err();
    if let ConfigError::EnvironmentNotFound(e) = error {
        assert_eq!(e, "Environment test not found");
    } else {
        panic!("Expected EnvironmentNotFound error");
    }
}

#[test]
fn test_activate_environment() {
    let environments = sample_environments();
    let result = activate_environment(environments, "dev");
    assert!(result.is_ok());

    let environments = result.unwrap();
    let dev = &environments.iter().find(|e| e.0 == "dev").unwrap().1;
    assert!(dev.is_default);
    let prod = &environments.iter().find(|e| e.0 == "prod").unwrap().1;
    assert!(!prod.is_default);
}

#[test]
fn test_get_active_environment() {
    let mut environments = sample_environments();
    environments[0].1.is_default = true;
    let active_env = get_active_environment(&environments).unwrap();
    assert_eq!(active_env.brokers, "localhost:9092");
}

#[test]
fn test_get_active_environment_none() {
    let environments = sample_environments();
    let err = get_active_environment(&environments).unwrap_err();
    assert!(matches!(err, ConfigError::NoActiveEnvironment(_)));
}

#[test]
fn test_upsert_environment_replaces() {
    let environments = sample_environments();
    let updated = upsert_environment(
        environments,
        &"dev".to_string(),
        EnvironmentConfig { brokers: "newhost:9092".to_string(), is_default: false },
    );
    assert_eq!(updated.len(), 2);
    assert_eq!(updated[0].0, "prod");
    assert_eq!(updated[1].0, "dev");
    assert_eq!(updated[1].1.brokers, "newhost:9092");
}

#[test]
fn test_number_rendering() {
    assert_eq!(i32_to_string(0), "0");
    assert_eq!(i32_to_string(-5), "-5");
    assert_eq!(i64_to_string(1234567890123), "1234567890123");
    assert_eq!(i64_to_string(-42), "-42");
    assert_eq!(join_partitions(&vec![0, 1, 2]), "0, 1, 2");
    assert_eq!(join_partitions(&Vec::new()), "");
}

#[test]
fn test_partition_summary_and_overview() {
    let summaries = vec![
        PartitionSummary { id: 0, leader: 1, low_watermark: 10, high_watermark: 30 },
        PartitionSummary { id: 1, leader: 2, low_watermark: 50, high_watermark: 20 },
    ];
    assert_eq!(summaries[0].latest_offset(), 30);
    assert_eq!(summaries[0].message_count(), 20);
    // A truncated or reset partition never reports a negative count.
    assert_eq!(summaries[1].message_count(), 0);
    let overview = topic_overview(&summaries);
    assert_eq!(overview.partition_count, "2");
    assert_eq!(overview.partition_ids, "0, 1");
    assert_eq!(overview.total_messages, "20");
    let rows = partition_rows(&summaries);
    assert_eq!(rows.len(), 2);
    assert_eq!(rows[0].id, "0");
    assert_eq!(rows[0].leader, "1");
    assert_eq!(rows[0].latest_offset, "30");
}

#[test]
fn test_broker_and_group_rows() {
    let brokers = vec![BrokerInfo { id: 1, host: "b1.example".to_string(), port: 9092 }];
    let rows = get_broker_detail(&brokers);
    assert_eq!(rows.len(), 1);
    assert_eq!(rows[0].id, "1");
    assert_eq!(rows[0].host, "b1.example");
    assert_eq!(rows[0].port, "9092");

    let groups = vec![GroupInfo {
        name: "g1".to_string(),
        state: "Stable".to_string(),
        protocol_type: "consumer".to_string(),
        protocol: "range".to_string(),
    }];
    let group_rows = get_consumer_groups(&groups);
    assert_eq!(group_rows.len(), 1);
    assert_eq!(group_rows[0].name, "g1");
    assert_eq!(group_rows[0].state, "Stable");
    assert_eq!(group_rows[0].protocol_type, "consumer");
    assert_eq!(group_rows[0].protocol, "range");
}

fn encoded(name: &str, partitions: Vec<i32>) -> Vec<u8> {
    encode_assignment(
        0,
        &TopicAssignment {
            entries: vec![TopicEntry { name: name.to_string(), partitions }],
        },
    )
}

#[test]
fn test_topic_ownership_row() {
    let group = GroupInfo {
        name: "g1".to_string(),
        state: "Stable".to_string(),
        protocol_type: "consumer".to_string(),
        protocol: "range".to_string(),
    };
    let members = vec![
        Some(encoded("orders", vec![2, 0])),
        Some(encoded("audit", vec![5])),
        None,
    ];
    let (row, failures) = topic_ownership_row(&group, &members, &"orders".to_string());
    assert!(failures.is_empty());
    let row = row.unwrap();
    assert_eq!(row.group, "g1");
    assert_eq!(row.partitions, vec![0, 2]);
    assert_eq!(row.partition_list, "0, 2");

    let (no_row, _) = topic_ownership_row(&group, &members, &"missing".to_string());
    assert!(no_row.is_none());
}

#[test]
fn test_member_assignment_rows() {
    let absent = MemberInfo {
        id: "m1".to_string(),
        client_id: "c1".to_string(),
        host: "/10.0.0.1".to_string(),
        assignment: None,
    };
    let rows = member_assignment_rows(&absent).unwrap();
    assert_eq!(rows.len(), 1);
    assert_eq!(rows[0].topic, "-");
    assert_eq!(rows[0].partitions, "-");

    let assigned = MemberInfo {
        id: "m2".to_string(),
        client_id: "c2".to_string(),
        host: "/10.0.0.2".to_string(),
        assignment: Some(encoded("orders", vec![1, 0])),
    };
    let rows = member_assignment_rows(&assigned).unwrap();
    assert_eq!(rows.len(), 1);
    assert_eq!(rows[0].member_id, "m2");
    assert_eq!(rows[0].topic, "orders");
    assert_eq!(rows[0].partitions, "1, 0");

    let broken = MemberInfo {
        id: "m3".to_string(),
        client_id: "c3".to_string(),
        host: "/10.0.0.3".to_string(),
        assignment: Some(vec![0, 1, 0]),
    };
    assert!(member_assignment_rows(&broken).is_err());
}
