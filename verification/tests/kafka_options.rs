use std::collections::HashMap;

use sail_kafka::error::{KafkaError, ReadError};
use sail_kafka::map::StringMap;
use sail_kafka::options::{
    identifier_of, uuid_v4, KafkaReadOptions, OffsetSpec, TopicSelection, ValueFormat,
};

fn options(pairs: &[(&str, &str)]) -> StringMap<String> {
    StringMap::from_entries(pairs.iter().map(|(k, v)| (k.to_string(), v.to_string())).collect())
}

const BASE: [(&str, &str); 2] = [("kafka.bootstrap.servers", "host:9092"), ("subscribe", "a")];

fn parse(extra: &[(&str, &str)]) -> Result<KafkaReadOptions, ReadError> {
    KafkaReadOptions::from_options(&[options(&BASE), options(extra)])
}

fn config_text(result: Result<KafkaReadOptions, ReadError>) -> String {
    match result {
        Err(ReadError::External(KafkaError::Config(text))) => text,
        other => panic!("unexpected {other:?}"),
    }
}

fn plan_text(result: Result<KafkaReadOptions, ReadError>) -> String {
    match result {
        Err(ReadError::Plan(text)) => text,
        other => panic!("unexpected {other:?}"),
    }
}

fn partition_map(map: &StringMap<HashMap<i32, i64>>, topic: &str) -> HashMap<i32, i64> {
    map.get(topic).expect("topic").clone()
}

#[test]
fn options_have_defaults() {
    let read = parse(&[]).unwrap();
    assert_eq!(read.bootstrap_servers, "host:9092");
    assert!(matches!(&read.topic_selection, TopicSelection::Subscribe(t) if *t == vec!["a"]));
    assert!(matches!(read.starting_offsets, OffsetSpec::Earliest));
    assert!(matches!(read.ending_offsets, OffsetSpec::Latest));
    assert!(read.fail_on_data_loss);
    assert!(!read.include_headers);
    assert_eq!(read.min_partitions, None);
    assert_eq!(read.group_id_prefix, "spark-kafka-relation");
    assert_eq!(read.poll_timeout_ms, 120_000);
    assert_eq!(read.fetch_offset_num_retries, 3);
    assert_eq!(read.fetch_offset_retry_interval_ms, 1000);
    assert_eq!(read.value_format, None);
    assert_eq!(read.schema_registry_url, None);
    assert_eq!(read.value_schema_subject, None);
    assert_eq!(read.kafka_properties.len(), 0);
}

#[test]
fn option_names_ignore_case_and_later_ones_win() {
    let read = parse(&[
        ("FailOnDataLoss", "FALSE"),
        ("includeHeaders", "True"),
        ("minPartitions", "+12"),
        ("groupIdPrefix", "mine"),
        ("kafkaConsumer.pollTimeoutMs", "5"),
        ("fetchOffset.numRetries", "6"),
        ("fetchOffset.retryIntervalMs", "7"),
        ("value.format", "json"),
        ("schema.registry.url", "http://r"),
        ("value.schema.subject", "s"),
        ("KAFKA.Bootstrap.Servers", "other:1"),
        ("Kafka.Security.Protocol", "SSL"),
        ("SUBSCRIBE", " x , y,z "),
    ])
    .unwrap();
    assert_eq!(read.bootstrap_servers, "other:1");
    assert!(
        matches!(&read.topic_selection, TopicSelection::Subscribe(t) if *t == vec!["x", "y", "z"])
    );
    assert!(!read.fail_on_data_loss);
    assert!(read.include_headers);
    assert_eq!(read.min_partitions, Some(12));
    assert_eq!(read.group_id_prefix, "mine");
    assert_eq!(read.poll_timeout_ms, 5);
    assert_eq!(read.fetch_offset_num_retries, 6);
    assert_eq!(read.fetch_offset_retry_interval_ms, 7);
    assert_eq!(read.value_format, Some(ValueFormat::Json));
    assert_eq!(read.schema_registry_url.as_deref(), Some("http://r"));
    assert_eq!(read.value_schema_subject.as_deref(), Some("s"));
    assert_eq!(read.kafka_properties.len(), 1);
    assert_eq!(read.kafka_properties.get("security.protocol").unwrap(), "SSL");
}

#[test]
fn merged_options_have_lower_case_names() {
    let merged = KafkaReadOptions::merge_options_case_insensitive(&[
        options(&[("A", "1"), ("ÀÉ", "2")]),
        options(&[("a", "3")]),
    ]);
    assert_eq!(merged.len(), 2);
    assert_eq!(merged.get("a").unwrap(), "3");
    assert_eq!(merged.get("àé").unwrap(), "2");
}

#[test]
fn servers_are_required_before_all_else() {
    let result = KafkaReadOptions::from_options(&[options(&[("kafka.auto.offset.reset", "x")])]);
    assert_eq!(config_text(result), "kafka.bootstrap.servers is required");
}

#[test]
fn blocked_settings_are_refused() {
    let cases = [
        (
            "auto.offset.reset",
            "Set startingOffsets/endingOffsets to control offsets.",
        ),
        (
            "key.deserializer",
            "Keys are deserialized as byte arrays with ByteArrayDeserializer.",
        ),
        (
            "value.deserializer",
            "Values are deserialized as byte arrays with ByteArrayDeserializer.",
        ),
        ("enable.auto.commit", "Offsets are not committed in batch mode."),
        ("interceptor.classes", "Interceptors are not supported."),
    ];
    for (name, reason) in cases {
        let key = format!("kafka.{name}");
        assert_eq!(
            plan_text(parse(&[(key.as_str(), "x")])),
            format!("Kafka option '{name}' is not supported. {reason}")
        );
    }
}

#[test]
fn topics_are_selected_in_exactly_one_way() {
    let none = KafkaReadOptions::from_options(&[options(&[("kafka.bootstrap.servers", "h")])]);
    assert_eq!(
        plan_text(none),
        "one of 'subscribe', 'subscribePattern', or 'assign' is required"
    );
    assert_eq!(
        plan_text(parse(&[("assign", "{}")])),
        "'subscribe', 'subscribePattern', and 'assign' are mutually exclusive"
    );
    let servers = ("kafka.bootstrap.servers", "h");
    let pattern =
        KafkaReadOptions::from_options(&[options(&[servers, ("subscribePattern", "a.*")])]).unwrap();
    assert!(matches!(&pattern.topic_selection, TopicSelection::SubscribePattern(p) if p == "a.*"));
    let assigned = KafkaReadOptions::from_options(&[options(&[
        servers,
        ("assign", r#"{"t":[0,2],"u":[]}"#),
    ])])
    .unwrap();
    match &assigned.topic_selection {
        TopicSelection::Assign(map) => {
            assert_eq!(map.len(), 2);
            assert_eq!(map.get("t").unwrap(), &vec![0, 2]);
            assert!(map.get("u").unwrap().is_empty());
        }
        other => panic!("unexpected {other:?}"),
    }
    let text =
        config_text(KafkaReadOptions::from_options(&[options(&[servers, ("assign", "[1]")])]));
    assert!(text.starts_with("invalid 'assign' JSON: invalid type"), "{text}");
}

#[test]
fn timestamps_go_before_offsets() {
    let read = parse(&[
        ("startingTimestamp", "-5"),
        ("startingOffsetsByTimestamp", "not read"),
        ("startingOffsets", "latest"),
        ("endingOffsetsByTimestamp", r#"{"t":{"1":20}}"#),
        ("endingOffsets", "earliest"),
    ])
    .unwrap();
    assert!(matches!(read.starting_offsets, OffsetSpec::GlobalTimestamp(-5)));
    match &read.ending_offsets {
        OffsetSpec::ByTimestamp(map) => {
            assert_eq!(partition_map(map, "t"), HashMap::from([(1, 20)]))
        }
        other => panic!("unexpected {other:?}"),
    }
    let read = parse(&[
        ("startingOffsetsByTimestamp", r#"{"t":{"0":7,"1":8}}"#),
        ("endingTimestamp", "9"),
    ])
    .unwrap();
    assert!(matches!(read.ending_offsets, OffsetSpec::GlobalTimestamp(9)));
    match &read.starting_offsets {
        OffsetSpec::ByTimestamp(map) => {
            assert_eq!(partition_map(map, "t"), HashMap::from([(0, 7), (1, 8)]))
        }
        other => panic!("unexpected {other:?}"),
    }
}

#[test]
fn offsets_are_named_or_given() {
    let read = parse(&[("startingOffsets", "EARLIEST"), ("endingOffsets", "Latest")]).unwrap();
    assert!(matches!(read.starting_offsets, OffsetSpec::Earliest));
    assert!(matches!(read.ending_offsets, OffsetSpec::Latest));
    let read = parse(&[("startingOffsets", r#"{"t":{"0":-2,"3":11}}"#)]).unwrap();
    match &read.starting_offsets {
        OffsetSpec::PerPartition(map) => {
            assert_eq!(partition_map(map, "t"), HashMap::from([(0, -2), (3, 11)]))
        }
        other => panic!("unexpected {other:?}"),
    }
    assert_eq!(
        plan_text(parse(&[("startingOffsets", "latest")])),
        "'latest' is not allowed for startingOffsets in batch mode"
    );
    assert_eq!(
        plan_text(parse(&[("endingOffsets", "earliest")])),
        "'earliest' is not allowed for endingOffsets in batch mode"
    );
}

#[test]
fn malformed_offsets_are_refused() {
    assert_eq!(config_text(parse(&[("startingTimestamp", "x")])), "invalid startingTimestamp: x");
    assert_eq!(config_text(parse(&[("endingTimestamp", "")])), "invalid endingTimestamp: ");
    let text = config_text(parse(&[("startingOffsets", "x")]));
    assert!(text.starts_with("invalid offsets JSON: expected value"), "{text}");
    let text = config_text(parse(&[("startingOffsetsByTimestamp", "{")]));
    assert!(text.starts_with("invalid startingOffsetsByTimestamp JSON: EOF"), "{text}");
    let text = config_text(parse(&[("endingOffsetsByTimestamp", "{")]));
    assert!(text.starts_with("invalid endingOffsetsByTimestamp JSON: EOF"), "{text}");
    assert_eq!(
        config_text(parse(&[("endingOffsets", r#"{"t":{"2147483648":1}}"#)])),
        "invalid partition number: 2147483648"
    );
    assert_eq!(
        config_text(parse(&[("endingOffsets", r#"{"t":{" 1":1}}"#)])),
        "invalid partition number:  1"
    );
}

#[test]
fn malformed_numbers_are_refused_in_order() {
    assert_eq!(config_text(parse(&[("minPartitions", "-1")])), "invalid minPartitions value: -1");
    assert_eq!(
        config_text(parse(&[("kafkaConsumer.pollTimeoutMs", "1.5")])),
        "invalid kafkaConsumer.pollTimeoutMs: 1.5"
    );
    assert_eq!(
        config_text(parse(&[("fetchOffset.numRetries", "4294967296")])),
        "invalid fetchOffset.numRetries: 4294967296"
    );
    assert_eq!(
        config_text(parse(&[("fetchOffset.retryIntervalMs", "a")])),
        "invalid fetchOffset.retryIntervalMs: a"
    );
    assert_eq!(
        plan_text(parse(&[("value.format", "Avro")])),
        "unsupported value.format: Avro. Supported: avro, json, raw"
    );
    assert_eq!(
        config_text(parse(&[("value.format", "x"), ("fetchOffset.numRetries", "y")])),
        "invalid fetchOffset.numRetries: y"
    );
}

#[test]
fn partitions_are_numbers() {
    let inner = |pairs: &[(&str, i64)]| {
        StringMap::from_entries(pairs.iter().map(|(k, v)| (k.to_string(), *v)).collect())
    };
    let parsed = StringMap::from_entries(vec![("t".to_string(), inner(&[("-1", 5), ("+2", 6)]))]);
    let read = KafkaReadOptions::convert_partition_map(parsed).unwrap();
    assert_eq!(partition_map(&read, "t"), HashMap::from([(-1, 5), (2, 6)]));
}

#[test]
fn client_settings_lie_over_the_basics() {
    let read = parse(&[
        ("groupIdPrefix", "g"),
        ("kafka.group.id", "fixed"),
        ("kafka.ssl.ca", "file"),
    ])
    .unwrap();
    let config = read.client_config_for("7");
    assert_eq!(config.get("bootstrap.servers"), Some("host:9092"));
    assert_eq!(config.get("enable.auto.commit"), Some("false"));
    let bytes = "org.apache.kafka.common.serialization.ByteArrayDeserializer";
    assert_eq!(config.get("key.deserializer"), Some(bytes));
    assert_eq!(config.get("value.deserializer"), Some(bytes));
    assert_eq!(config.get("group.id"), Some("fixed"));
    assert_eq!(config.get("ssl.ca"), Some("file"));
    assert_eq!(config.config_map().len(), 6);

    let read = parse(&[("groupIdPrefix", "g")]).unwrap();
    assert_eq!(read.client_config_for("7").get("group.id"), Some("g-7"));
    let config = read.to_client_config();
    let group = config.get("group.id").unwrap();
    assert!(group.starts_with("g-"));
    assert_eq!(group.len(), 2 + 32);
}

#[test]
fn identifiers_are_digits_of_a_number() {
    assert_eq!(identifier_of(0xabc), "00000000000000000000000000000abc");
    assert_eq!(identifier_of(u128::MAX), "ffffffffffffffffffffffffffffffff");
    let id = uuid_v4();
    assert_eq!(id.len(), 32);
    assert_ne!(id, identifier_of(0));
    assert!(id.chars().all(|c| c.is_ascii_hexdigit()));
}

#[test]
fn duplicates_hold_the_same() {
    let read = parse(&[("startingOffsets", r#"{"t":{"0":4}}"#), ("kafka.x", "y")]).unwrap();
    let copy = read.duplicate();
    assert_eq!(format!("{read:?}"), format!("{copy:?}"));
}

#[test]
fn duplicates_keep_the_order() {
    let pairs = [
        ("kafka.bootstrap.servers", "h:1"),
        ("assign", r#"{"z":[2,0],"a":[1]}"#),
        ("startingOffsets", r#"{"z":{"0":4},"a":{"1":5}}"#),
    ];
    let read = KafkaReadOptions::from_options(&[options(&pairs)]).unwrap();
    let copy = read.duplicate();
    match (&read.topic_selection, &copy.topic_selection) {
        (TopicSelection::Assign(a), TopicSelection::Assign(b)) => {
            assert_eq!(format!("{a:?}"), format!("{b:?}"));
        }
        _ => panic!(),
    }
    assert_eq!(format!("{:?}", read.starting_offsets), format!("{:?}", copy.starting_offsets));
}

#[test]
fn case_of_ascii_letters_does_not_count_beside_other_letters() {
    let read = |name: &str| {
        let pairs = [("kafka.bootstrap.servers", "h:1"), ("subscribe", "a"), (name, "v")];
        format!("{:?}", KafkaReadOptions::from_options(&[options(&pairs)]).unwrap())
    };
    assert_eq!(read("kafka.\u{c9}tat.\u{3a3}a\u{3a3}"), read("KAFKA.\u{c9}TAT.\u{3a3}A\u{3a3}"));
    assert_ne!(read("kafka.\u{e9}tat"), read("kafka.etat"));
}

#[test]
fn neither_case_nor_order_of_names_counts() {
    let pairs = [
        ("kafka.bootstrap.servers", "h:1"),
        ("subscribe", "a,b"),
        ("failOnDataLoss", "false"),
        ("kafka.Security.Protocol", "SSL"),
        ("minPartitions", "4"),
    ];
    let turned: Vec<(String, &str)> =
        pairs.iter().rev().map(|(name, value)| (name.to_uppercase(), *value)).collect();
    let turned: Vec<(&str, &str)> =
        turned.iter().map(|(name, value)| (name.as_str(), *value)).collect();
    let a = KafkaReadOptions::from_options(&[options(&pairs)]).unwrap();
    let b = KafkaReadOptions::from_options(&[options(&turned)]).unwrap();
    assert_eq!(format!("{a:?}"), format!("{b:?}"));
    assert_eq!(b.min_partitions, Some(4));
}

#[test]
fn options_of_streams_are_ignored() {
    let plain = parse(&[]).unwrap();
    let more = parse(&[
        ("maxOffsetsPerTrigger", "no number"),
        ("MINOFFSETSPERTRIGGER", "10"),
        ("maxTriggerDelay", "15m"),
    ])
    .unwrap();
    assert_eq!(format!("{plain:?}"), format!("{more:?}"));
}
