use kfcli::aggregate::aggregate_assignments;
use kfcli::assignment::{
    deserialize_assignment, encode_assignment, DecodeError, TopicAssignment, TopicEntry,
};

fn entry(name: &str, partitions: Vec<i32>) -> TopicEntry {
    TopicEntry { name: name.to_string(), partitions }
}

#[test]
fn test_error_deserialize_assignment() {
    let data = vec![
        0u8, 1, 0, 0, 0, 1, 0, 9, 116, 111, 45, 111, 110, 101, 0, 0, 0, 3, 0, 0, 0, 0, 0, 0, 0,
        1, 0, 0, 0, 2,
    ];
    let result = deserialize_assignment(&data);
    assert!(result.is_err());
    if let Err(err) = result {
        assert_eq!(err.message(), "Error while reading partition:");
    } else {
        panic!("Error should be Deserialize");
    }
}

#[test]
fn test_deserialize_assignment() {
    let data = vec![
        0u8, 1, 0, 0, 0, 1, 0, 9, 116, 111, 112, 105, 99, 45, 111, 110, 101, 0, 0, 0, 3, 0, 0, 0,
        0, 0, 0, 0, 1, 0, 0, 0, 2, 255, 255, 255, 255,
    ];
    let result = deserialize_assignment(&data);
    assert!(result.is_ok());
    let result = result.unwrap();
    assert_eq!(result.entries.len(), 1);
    assert!(result.find_topic(&"topic-one".to_string()).is_some());
    let partitions = result.find_topic(&"topic-one".to_string()).unwrap();
    assert_eq!(partitions.len(), 3);
    assert_eq!(partitions[0], 0);
    assert_eq!(partitions[1], 1);
    assert_eq!(partitions[2], 2);
}

#[test]
fn test_deserialize_wire_example() {
    let mut data: Vec<u8> = vec![0, 1, 0, 0, 0, 1, 0, 9];
    data.extend_from_slice(b"topic-one");
    data.extend_from_slice(&[0, 0, 0, 3]);
    data.extend_from_slice(&[0, 0, 0, 0, 0, 0, 0, 1, 0, 0, 0, 2]);
    let decoded = deserialize_assignment(&data).unwrap();
    assert_eq!(decoded.entries.len(), 1);
    assert_eq!(decoded.entries[0].name, "topic-one");
    assert_eq!(decoded.entries[0].partitions, vec![0, 1, 2]);
}

#[test]
fn test_encode_decode_round_trip() {
    let assignment = TopicAssignment {
        entries: vec![
            entry("orders", vec![0, 5, 3]),
            entry("payments", vec![]),
            entry("caf\u{e9}", vec![-1, 7]),
        ],
    };
    let bytes = encode_assignment(1, &assignment);
    let decoded = deserialize_assignment(&bytes).unwrap();
    assert_eq!(decoded.entries.len(), 3);
    assert_eq!(decoded.entries[0].name, "orders");
    assert_eq!(decoded.entries[0].partitions, vec![0, 5, 3]);
    assert_eq!(decoded.entries[1].name, "payments");
    assert_eq!(decoded.entries[1].partitions, Vec::<i32>::new());
    assert_eq!(decoded.entries[2].name, "caf\u{e9}");
    assert_eq!(decoded.entries[2].partitions, vec![-1, 7]);
}

#[test]
fn test_truncated_buffers_always_err() {
    let assignment = TopicAssignment {
        entries: vec![entry("orders", vec![0, 1]), entry("audit", vec![2])],
    };
    let bytes = encode_assignment(0, &assignment);
    for cut in 0..bytes.len() {
        let prefix: Vec<u8> = bytes[..cut].to_vec();
        assert!(deserialize_assignment(&prefix).is_err(), "cut at {} decoded", cut);
    }
}

#[test]
fn test_decode_error_variants() {
    // Version: fewer than two bytes.
    assert_eq!(deserialize_assignment(&vec![0u8]).unwrap_err(), DecodeError::Version);
    // TopicCount: header cut short.
    assert_eq!(deserialize_assignment(&vec![0u8, 1, 0, 0]).unwrap_err(), DecodeError::TopicCount);
    // TopicCount: negative count.
    assert_eq!(
        deserialize_assignment(&vec![0u8, 1, 255, 255, 255, 255]).unwrap_err(),
        DecodeError::TopicCount
    );
    // TopicNameLength: name length cut short.
    assert_eq!(
        deserialize_assignment(&vec![0u8, 1, 0, 0, 0, 1, 0]).unwrap_err(),
        DecodeError::TopicNameLength
    );
    // TopicName: negative name length.
    assert_eq!(
        deserialize_assignment(&vec![0u8, 1, 0, 0, 0, 1, 255, 255]).unwrap_err(),
        DecodeError::TopicName
    );
    // TopicName: name runs past the end.
    assert_eq!(
        deserialize_assignment(&vec![0u8, 1, 0, 0, 0, 1, 0, 2, 97]).unwrap_err(),
        DecodeError::TopicName
    );
    // TopicNameEncoding: invalid UTF-8 name bytes.
    assert_eq!(
        deserialize_assignment(&vec![0u8, 1, 0, 0, 0, 1, 0, 1, 0xFF, 0, 0, 0, 0]).unwrap_err(),
        DecodeError::TopicNameEncoding
    );
    // PartitionCount: count cut short.
    assert_eq!(
        deserialize_assignment(&vec![0u8, 1, 0, 0, 0, 1, 0, 1, 97, 0, 0]).unwrap_err(),
        DecodeError::PartitionCount
    );
    // PartitionCount: negative count.
    assert_eq!(
        deserialize_assignment(&vec![0u8, 1, 0, 0, 0, 1, 0, 1, 97, 255, 255, 255, 255])
            .unwrap_err(),
        DecodeError::PartitionCount
    );
    // Partition: partition id cut short.
    assert_eq!(
        deserialize_assignment(&vec![0u8, 1, 0, 0, 0, 1, 0, 1, 97, 0, 0, 0, 1, 0, 0]).unwrap_err(),
        DecodeError::Partition
    );
}

#[test]
fn test_duplicate_topic_overwrites() {
    let assignment = TopicAssignment {
        entries: vec![entry("orders", vec![0, 1])],
    };
    let mut bytes = encode_assignment(0, &assignment);
    // Append a second entry for the same topic and raise the count to two:
    // the later entry's partitions replace the earlier ones.
    bytes[5] = 2;
    bytes.extend_from_slice(&[0, 6]);
    bytes.extend_from_slice(b"orders");
    bytes.extend_from_slice(&[0, 0, 0, 1, 0, 0, 0, 9]);
    let decoded = deserialize_assignment(&bytes).unwrap();
    assert_eq!(decoded.entries.len(), 1);
    assert_eq!(decoded.entries[0].name, "orders");
    assert_eq!(decoded.entries[0].partitions, vec![9]);
}

#[test]
fn test_aggregate_union_and_absent_member() {
    let one = encode_assignment(0, &TopicAssignment { entries: vec![entry("orders", vec![0, 1])] });
    let two = encode_assignment(0, &TopicAssignment { entries: vec![entry("orders", vec![1, 2])] });
    let members = vec![Some(one), None, Some(two)];
    let outcome = aggregate_assignments(&members, None);
    assert!(outcome.failures.is_empty());
    assert_eq!(outcome.map.topics.len(), 1);
    assert_eq!(outcome.map.topics[0].name, "orders");
    assert_eq!(outcome.map.topics[0].partitions, vec![0, 1, 2]);
}

#[test]
fn test_aggregate_topic_filter_and_failures() {
    let good = encode_assignment(
        0,
        &TopicAssignment { entries: vec![entry("orders", vec![3]), entry("audit", vec![0])] },
    );
    let bad = vec![0u8, 1, 0, 0, 0, 1, 0];
    let members = vec![Some(good), Some(bad)];
    let filter = "orders".to_string();
    let outcome = aggregate_assignments(&members, Some(&filter));
    assert_eq!(outcome.map.topics.len(), 1);
    assert_eq!(outcome.map.topics[0].name, "orders");
    assert_eq!(outcome.map.topics[0].partitions, vec![3]);
    assert_eq!(outcome.failures.len(), 1);
    assert_eq!(outcome.failures[0].member, 1);
    assert_eq!(outcome.failures[0].error, DecodeError::TopicNameLength);
}
