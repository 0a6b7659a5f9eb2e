use kfcli::filter::{apply_filter, JsonMember, JsonValue};
use kfcli::lag::{compute_lag, PartitionOffsetPair};
use kfcli::tail::{determine_start_offset, plan_tail_offsets};

fn member(key: &str, value: JsonValue) -> JsonMember {
    JsonMember { key: key.to_string(), value }
}

fn nested_document() -> JsonValue {
    JsonValue::Object(vec![member(
        "data",
        JsonValue::Object(vec![member(
            "attributes",
            JsonValue::Object(vec![
                member("name", JsonValue::Number("19".to_string())),
                member("active", JsonValue::Bool(true)),
            ]),
        )]),
    )])
}

#[test]
fn test_apply_filter_matches_nested_values() {
    let json = nested_document();

    assert!(apply_filter(&json, "data.attributes.name=19"));
    assert!(!apply_filter(&json, "data.attributes.name=20"));
    assert!(!apply_filter(&json, "data.attributes.missing=1"));
    assert!(apply_filter(&json, "data.attributes.active"));
}

#[test]
fn test_apply_filter_scalars_and_paths() {
    let json = nested_document();
    // Existence of an intermediate object.
    assert!(apply_filter(&json, "data.attributes"));
    // A missing root segment never matches, with or without a literal.
    assert!(!apply_filter(&json, "nope"));
    assert!(!apply_filter(&json, "nope=1"));
    // Booleans compare against their rendered form.
    assert!(apply_filter(&json, "data.attributes.active=true"));
    assert!(!apply_filter(&json, "data.attributes.active=false"));
}

#[test]
fn test_apply_filter_first_equals_splits() {
    // Only the first `=` splits: the rest belongs to the literal.
    let json = JsonValue::Object(vec![member("a", JsonValue::Text("b=c".to_string()))]);
    assert!(apply_filter(&json, "a=b=c"));
    assert!(!apply_filter(&json, "a=b"));
}

#[test]
fn test_apply_filter_renders_compounds() {
    let json = JsonValue::Object(vec![member(
        "items",
        JsonValue::Array(vec![
            JsonValue::Number("1".to_string()),
            JsonValue::Text("x".to_string()),
            JsonValue::Null,
        ]),
    )]);
    assert!(apply_filter(&json, "items=[1,x,null]"));
    assert!(apply_filter(&json, "items"));
    assert!(!apply_filter(&json, "items=[1,x]"));
}

#[test]
fn test_determine_start_offset() {
    assert_eq!(determine_start_offset(42, 0), 42);
    assert_eq!(determine_start_offset(42, 10), 32);
    assert_eq!(determine_start_offset(5, 10), 0);
}

#[test]
fn test_plan_start_examples() {
    assert_eq!(determine_start_offset(100, 0), 100);
    assert_eq!(determine_start_offset(100, 150), 0);
    assert_eq!(determine_start_offset(100, 40), 60);
    assert_eq!(determine_start_offset(0, 5), 0);
}

#[test]
fn test_plan_tail_offsets_per_partition() {
    let watermarks = vec![(0, 100i64), (1, 10i64), (2, 0i64)];
    let plan = plan_tail_offsets(&watermarks, 25);
    assert_eq!(plan, vec![(0, 75i64), (1, 0i64), (2, 0i64)]);
}

#[test]
fn test_compute_lag_rows() {
    let pairs = vec![
        PartitionOffsetPair {
            topic: "orders".to_string(),
            partition: 0,
            committed: Some(40),
            high_watermark: 100,
        },
        PartitionOffsetPair {
            topic: "orders".to_string(),
            partition: 1,
            committed: None,
            high_watermark: 7,
        },
        PartitionOffsetPair {
            topic: "audit".to_string(),
            partition: 0,
            committed: Some(50),
            high_watermark: 20,
        },
    ];
    let rows = compute_lag(&pairs);
    assert_eq!(rows.len(), 3);
    assert_eq!(rows[0].topic, "orders");
    assert_eq!(rows[0].partition, 0);
    assert_eq!(rows[0].committed, 40);
    assert_eq!(rows[0].watermark, 100);
    assert_eq!(rows[0].lag, 60);
    // An absent committed offset counts as zero.
    assert_eq!(rows[1].committed, 0);
    assert_eq!(rows[1].lag, 7);
    // A committed offset beyond the watermark clamps to zero lag.
    assert_eq!(rows[2].lag, 0);
}

#[test]
fn test_compute_lag_empty_input() {
    let rows = compute_lag(&Vec::new());
    assert!(rows.is_empty());
}

#[test]
fn test_compute_lag_idempotent_on_own_rows() {
    let pairs = vec![PartitionOffsetPair {
        topic: "orders".to_string(),
        partition: 3,
        committed: Some(120),
        high_watermark: 100,
    }];
    let rows = compute_lag(&pairs);
    let again: Vec<PartitionOffsetPair> = rows
        .iter()
        .map(|r| PartitionOffsetPair {
            topic: r.topic.clone(),
            partition: r.partition,
            committed: Some(r.committed),
            high_watermark: r.watermark,
        })
        .collect();
    let rows2 = compute_lag(&again);
    assert_eq!(rows2.len(), rows.len());
    assert_eq!(rows2[0].topic, rows[0].topic);
    assert_eq!(rows2[0].partition, rows[0].partition);
    assert_eq!(rows2[0].committed, rows[0].committed);
    assert_eq!(rows2[0].watermark, rows[0].watermark);
    assert_eq!(rows2[0].lag, rows[0].lag);
}
