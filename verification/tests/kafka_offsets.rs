use std::collections::HashMap;

use sail_kafka::error::{KafkaError, ReadError};
use sail_kafka::map::StringMap;
use sail_kafka::offsets::{
    finish_ranges, needs_split, range_sizes, resolve_offset_by_timestamp, resolve_single_offset,
    resolve_topic_partitions, split_ranges, KafkaPartitionRange, OffsetDecision, OffsetResolver,
    ResolverRequest, TimeReply, TopicMetadata,
};
use sail_kafka::options::{KafkaReadOptions, OffsetSpec, TopicSelection};

fn topics() -> Vec<TopicMetadata> {
    vec![
        TopicMetadata { name: "orders".to_string(), partitions: vec![0, 1] },
        TopicMetadata { name: "users".to_string(), partitions: vec![5] },
        TopicMetadata { name: "order-log".to_string(), partitions: vec![] },
    ]
}

fn named(list: &[(&str, i32)]) -> Vec<(String, i32)> {
    list.iter().map(|(t, p)| (t.to_string(), *p)).collect()
}

fn config_text<T: std::fmt::Debug>(result: Result<T, ReadError>) -> String {
    match result {
        Err(ReadError::External(KafkaError::Config(text))) => text,
        other => panic!("unexpected {other:?}"),
    }
}

fn range(topic: &str, partition: i32, start_offset: i64, end_offset: i64) -> KafkaPartitionRange {
    KafkaPartitionRange { topic: topic.to_string(), partition, start_offset, end_offset }
}

fn spans(ranges: &[KafkaPartitionRange]) -> Vec<(i32, i64, i64)> {
    ranges.iter().map(|r| (r.partition, r.start_offset, r.end_offset)).collect()
}

fn per_partition(entries: &[(&str, i32, i64)]) -> StringMap<HashMap<i32, i64>> {
    let mut map: StringMap<HashMap<i32, i64>> = StringMap::new();
    for (topic, partition, n) in entries {
        map.insert(topic.to_string(), HashMap::from([(*partition, *n)]));
    }
    map
}

#[test]
fn subscribed_topics_give_all_their_partitions() {
    let selection = TopicSelection::Subscribe(vec!["users".to_string(), "orders".to_string()]);
    assert_eq!(
        resolve_topic_partitions(&topics(), &selection).unwrap(),
        named(&[("users", 5), ("orders", 0), ("orders", 1)])
    );
    let selection = TopicSelection::Subscribe(vec!["users".to_string(), "none".to_string()]);
    assert_eq!(
        config_text(resolve_topic_partitions(&topics(), &selection)),
        "topic not found: none"
    );
}

#[test]
fn patterns_match_anywhere_in_a_name() {
    let selection = TopicSelection::SubscribePattern("der".to_string());
    assert_eq!(
        resolve_topic_partitions(&topics(), &selection).unwrap(),
        named(&[("orders", 0), ("orders", 1)])
    );
    let selection = TopicSelection::SubscribePattern("^u".to_string());
    assert_eq!(
        resolve_topic_partitions(&topics(), &selection).unwrap(),
        named(&[("users", 5)])
    );
    let selection = TopicSelection::SubscribePattern("(".to_string());
    let text = config_text(resolve_topic_partitions(&topics(), &selection));
    assert!(text.starts_with("invalid subscribePattern regex: regex parse error"), "{text}");
}

#[test]
fn assigned_partitions_are_taken_as_they_are() {
    let selection = TopicSelection::Assign(StringMap::from_entries(vec![
        ("x".to_string(), vec![3, 1]),
        ("y".to_string(), vec![0]),
    ]));
    assert_eq!(
        resolve_topic_partitions(&topics(), &selection).unwrap(),
        named(&[("x", 3), ("x", 1), ("y", 0)])
    );
}

#[test]
fn offsets_are_decided_by_the_specification() {
    let decide = |spec: OffsetSpec, starting: bool| {
        resolve_single_offset(&spec, "t", 1, 10, 20, starting)
    };
    assert_eq!(decide(OffsetSpec::Earliest, false), OffsetDecision::Offset(10));
    assert_eq!(decide(OffsetSpec::Latest, true), OffsetDecision::Offset(20));
    assert_eq!(decide(OffsetSpec::GlobalTimestamp(7), true), OffsetDecision::ByTime(7));
    let given = |n: i64| OffsetSpec::PerPartition(per_partition(&[("t", 1, n)]));
    assert_eq!(decide(given(15), true), OffsetDecision::Offset(15));
    assert_eq!(decide(given(-2), false), OffsetDecision::Offset(10));
    assert_eq!(decide(given(-1), true), OffsetDecision::Offset(20));
    let elsewhere = || per_partition(&[("t", 2, 15)]);
    assert_eq!(decide(OffsetSpec::PerPartition(elsewhere()), true), OffsetDecision::Offset(10));
    assert_eq!(decide(OffsetSpec::PerPartition(elsewhere()), false), OffsetDecision::Offset(20));
    assert_eq!(decide(OffsetSpec::ByTimestamp(elsewhere()), true), OffsetDecision::Offset(10));
    assert_eq!(decide(OffsetSpec::ByTimestamp(elsewhere()), false), OffsetDecision::Offset(20));
    assert_eq!(
        decide(OffsetSpec::ByTimestamp(per_partition(&[("t", 1, 8)])), true),
        OffsetDecision::ByTime(8)
    );
}

#[test]
fn offsets_of_times_may_be_missing() {
    let resolve = |reply: TimeReply, starting: bool| {
        resolve_offset_by_timestamp(reply, "t", 3, 99, starting)
    };
    assert_eq!(resolve(TimeReply::Offset(4), true).unwrap(), Some(4));
    assert_eq!(resolve(TimeReply::End, true).unwrap(), None);
    assert_eq!(resolve(TimeReply::Other, false).unwrap(), None);
    assert_eq!(
        config_text(resolve(TimeReply::Other, true)),
        "no offset found for timestamp 99 on t-3"
    );
    assert_eq!(
        config_text(resolve(TimeReply::Missing, false)),
        "failed to resolve offset for timestamp 99 on t-3"
    );
}

fn options(starting_offsets: OffsetSpec, ending_offsets: OffsetSpec) -> KafkaReadOptions {
    KafkaReadOptions {
        bootstrap_servers: String::new(),
        topic_selection: TopicSelection::Subscribe(vec![]),
        starting_offsets,
        ending_offsets,
        fail_on_data_loss: true,
        include_headers: false,
        min_partitions: None,
        group_id_prefix: String::new(),
        poll_timeout_ms: 0,
        fetch_offset_num_retries: 0,
        fetch_offset_retry_interval_ms: 0,
        value_format: None,
        schema_registry_url: None,
        value_schema_subject: None,
        kafka_properties: StringMap::new(),
    }
}

#[test]
fn resolver_keeps_ranges_that_hold_something() {
    let options = options(OffsetSpec::Earliest, OffsetSpec::Latest);
    let mut resolver = OffsetResolver::new(&options, named(&[("a", 0), ("a", 1), ("b", 0)]));
    for (low, high) in [(0, 5), (7, 7), (2, 3)] {
        assert!(matches!(resolver.request(), ResolverRequest::Watermarks { .. }));
        resolver.watermarks(low, high);
    }
    assert!(matches!(resolver.request(), ResolverRequest::Done));
    assert_eq!(spans(&resolver.ranges), vec![(0, 0, 5), (0, 2, 3)]);
    assert_eq!(resolver.ranges[1].topic, "b");
}

#[test]
fn resolver_asks_for_times_and_latest_offsets() {
    let options = options(OffsetSpec::GlobalTimestamp(50), OffsetSpec::GlobalTimestamp(60));
    let mut resolver = OffsetResolver::new(&options, named(&[("a", 4)]));
    resolver.watermarks(0, 100);
    match resolver.request() {
        ResolverRequest::ByTime { topic, partition, timestamp_ms } => {
            assert_eq!((topic.as_str(), partition, timestamp_ms), ("a", 4, 50))
        }
        other => panic!("unexpected {other:?}"),
    }
    resolver.by_time(TimeReply::Offset(10)).unwrap();
    match resolver.request() {
        ResolverRequest::ByTime { timestamp_ms, .. } => assert_eq!(timestamp_ms, 60),
        other => panic!("unexpected {other:?}"),
    }
    resolver.by_time(TimeReply::Other).unwrap();
    assert!(matches!(resolver.request(), ResolverRequest::Latest { .. }));
    resolver.latest(101);
    assert!(matches!(resolver.request(), ResolverRequest::Done));
    assert_eq!(spans(&resolver.ranges), vec![(4, 10, 101)]);

    let mut resolver = OffsetResolver::new(&options, named(&[("a", 4)]));
    resolver.watermarks(0, 100);
    resolver.by_time(TimeReply::End).unwrap();
    resolver.latest(100);
    resolver.by_time(TimeReply::Offset(100)).unwrap();
    assert!(matches!(resolver.request(), ResolverRequest::Done));
    assert!(resolver.ranges.is_empty());

    let mut resolver = OffsetResolver::new(&options, named(&[("a", 4)]));
    resolver.watermarks(0, 100);
    assert_eq!(
        config_text(resolver.by_time(TimeReply::Other)),
        "no offset found for timestamp 50 on a-4"
    );
}

#[test]
fn ranges_are_cut_into_equal_pieces() {
    let cut = split_ranges(vec![range("t", 0, 100, 110)], &vec![3]);
    assert_eq!(spans(&cut), vec![(0, 100, 103), (0, 103, 106), (0, 106, 110)]);
    let cut = split_ranges(vec![range("t", 0, 0, 2)], &vec![5]);
    assert_eq!(spans(&cut), vec![(0, 0, 2)]);
    let cut = split_ranges(
        vec![range("t", 0, 0, 4), range("t", 1, 0, 1), range("u", 2, 5, 9)],
        &vec![2, 1, 2],
    );
    assert_eq!(
        spans(&cut),
        vec![(0, 0, 2), (0, 2, 4), (1, 0, 1), (2, 5, 7), (2, 7, 9)]
    );
    assert_eq!(cut[4].topic, "u");
    let empty = split_ranges(vec![range("t", 0, 3, 3)], &vec![4]);
    assert_eq!(spans(&empty), vec![(0, 3, 3)]);
    assert!(split_ranges(vec![], &vec![]).is_empty());
}

#[test]
fn ranges_are_cut_where_there_are_too_few() {
    let ranges = || vec![range("t", 0, 0, 4)];
    assert!(needs_split(&ranges(), Some(2)));
    assert!(!needs_split(&ranges(), Some(1)));
    assert!(!needs_split(&ranges(), None));
    assert_eq!(spans(&finish_ranges(ranges(), Some(2), &vec![2])), vec![(0, 0, 2), (0, 2, 4)]);
    assert_eq!(spans(&finish_ranges(ranges(), Some(1), &vec![])), vec![(0, 0, 4)]);
    assert_eq!(spans(&finish_ranges(ranges(), None, &vec![])), vec![(0, 0, 4)]);
}

#[test]
fn sizes_of_ranges_are_summed() {
    let (sizes, total) = range_sizes(&vec![range("t", 0, 2, 5), range("t", 1, 0, 7)]).unwrap();
    assert_eq!(sizes, vec![3, 7]);
    assert_eq!(total, 10);
    assert!(range_sizes(&vec![range("t", 0, i64::MIN, 1)]).is_none());
    assert!(range_sizes(&vec![range("t", 0, 0, i64::MAX), range("t", 1, 0, 1)]).is_none());
}
