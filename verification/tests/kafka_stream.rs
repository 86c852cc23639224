use arrow::array::{
    Array, BinaryArray, Int32Array, Int64Array, RecordBatch, StringArray, TimestampMicrosecondArray,
};

use sail_kafka::batch::is_readable_schema;
use sail_kafka::encoding::{
    build_deserialized_schema, is_readable_encoding, raw_kafka_schema, ValueEncoding,
};
use sail_kafka::error::{KafkaError, ReadError};
use sail_kafka::map::StringMap;
use sail_kafka::offsets::KafkaPartitionRange;
use sail_kafka::options::{KafkaReadOptions, OffsetSpec, TopicSelection};
use sail_kafka::scan_exec::KafkaScanExec;
use sail_kafka::schema::{ColumnField, ColumnType, TableSchema};
use sail_kafka::stream::{
    confluent_frame, is_batch_in_range, is_time_in_range, KafkaMessage, MessagePoll, MessageTime,
    PollReply, PolledMessage, StreamAction, StreamState,
};

fn default_options(topic: &str) -> KafkaReadOptions {
    KafkaReadOptions {
        bootstrap_servers: "localhost:9092".to_string(),
        topic_selection: TopicSelection::Subscribe(vec![topic.to_string()]),
        starting_offsets: OffsetSpec::Earliest,
        ending_offsets: OffsetSpec::Latest,
        fail_on_data_loss: true,
        include_headers: false,
        min_partitions: None,
        group_id_prefix: "test".to_string(),
        poll_timeout_ms: 10_000,
        fetch_offset_num_retries: 3,
        fetch_offset_retry_interval_ms: 500,
        value_format: None,
        schema_registry_url: None,
        value_schema_subject: None,
        kafka_properties: StringMap::new(),
    }
}

fn range(topic: &str, partition: i32, start_offset: i64, end_offset: i64) -> KafkaPartitionRange {
    KafkaPartitionRange { topic: topic.to_string(), partition, start_offset, end_offset }
}

fn message(topic: &str, partition: i32, offset: i64, key: Option<&[u8]>, value: Option<&[u8]>) -> PolledMessage {
    PolledMessage {
        key: key.map(|k| k.to_vec()),
        value: value.map(|v| v.to_vec()),
        topic: topic.to_string(),
        partition,
        offset,
        time: MessageTime::CreateTime(1_700_000_000_000 + offset),
    }
}

/// Reads a range off a log of messages, as a client would that has nothing more afterwards.
fn collect_stream(mut state: StreamState, log: Vec<PolledMessage>) -> Vec<RecordBatch> {
    let mut log = log.into_iter();
    let mut batches = Vec::new();
    loop {
        match state.action() {
            StreamAction::Finish => return batches,
            StreamAction::Start => {
                state.init_consumer(0).expect("start");
            }
            StreamAction::Poll => {
                let mut poll = MessagePoll::new();
                while poll.wants_poll(state.batch_size) {
                    let reply = match log.next() {
                        Some(polled) => PollReply::Message(polled),
                        None => PollReply::Nothing,
                    };
                    poll.polled(reply, state.range.end_offset).expect("poll");
                }
                assert!(is_batch_in_range(&poll.messages));
                if let Some(batch) = state.next_batch(poll).expect("batch") {
                    batches.push(batch.rows);
                }
            }
        }
    }
}

fn read(
    options: KafkaReadOptions,
    range: KafkaPartitionRange,
    encoding: ValueEncoding,
    schema: TableSchema,
    log: Vec<PolledMessage>,
) -> Vec<RecordBatch> {
    collect_stream(StreamState::new(options, range, encoding, schema, 1024), log)
}

#[test]
fn test_raw_mode_read() {
    let topic = "sail_raw_test";
    let log = (0..5)
        .map(|i| {
            message(
                topic,
                0,
                i,
                Some(format!("key-{i}").as_bytes()),
                Some(format!("value-{i}").as_bytes()),
            )
        })
        .collect();
    let batches = read(
        default_options(topic),
        range(topic, 0, 0, 5),
        ValueEncoding::Raw,
        raw_kafka_schema(false),
        log,
    );
    let total_rows: usize = batches.iter().map(|b| b.num_rows()).sum();
    assert_eq!(total_rows, 5, "expected 5 rows, got {total_rows}");

    let batch = &batches[0];
    assert_eq!(batch.schema().fields().len(), 7);
    assert_eq!(batch.schema().field(0).name(), "key");
    assert_eq!(batch.schema().field(1).name(), "value");
    assert_eq!(batch.schema().field(2).name(), "topic");
    assert_eq!(batch.schema().field(3).name(), "partition");
    assert_eq!(batch.schema().field(4).name(), "offset");
    assert_eq!(batch.schema().field(5).name(), "timestamp");
    assert_eq!(batch.schema().field(6).name(), "timestampType");

    let keys = batch
        .column(0)
        .as_any()
        .downcast_ref::<BinaryArray>()
        .expect("key column should be binary");
    assert_eq!(keys.value(0), b"key-0");
    assert_eq!(keys.value(4), b"key-4");

    let values = batch
        .column(1)
        .as_any()
        .downcast_ref::<BinaryArray>()
        .expect("value column should be binary");
    assert_eq!(values.value(0), b"value-0");

    let offsets = batch
        .column(4)
        .as_any()
        .downcast_ref::<Int64Array>()
        .expect("offset column should be Int64");
    for i in 0..5 {
        assert_eq!(offsets.value(i), i as i64);
    }

    let partitions = batch
        .column(3)
        .as_any()
        .downcast_ref::<Int32Array>()
        .expect("partition column should be Int32");
    for i in 0..5 {
        assert_eq!(partitions.value(i), 0);
    }

    let topics = batch.column(2).as_any().downcast_ref::<StringArray>().unwrap();
    assert_eq!(topics.value(3), topic);
    let times = batch.column(5).as_any().downcast_ref::<TimestampMicrosecondArray>().unwrap();
    assert_eq!(times.value(2), 1_700_000_000_002_000);
    let types = batch.column(6).as_any().downcast_ref::<Int32Array>().unwrap();
    assert_eq!(types.value(0), 0);
}

#[test]
fn test_raw_mode_multi_partition() {
    let topic = "sail_multi_part_test";
    let mut total = 0;
    for p in 0..3 {
        let log = (0..4)
            .map(|i| {
                message(
                    topic,
                    p,
                    i,
                    Some(format!("p{p}-key-{i}").as_bytes()),
                    Some(format!("p{p}-value-{i}").as_bytes()),
                )
            })
            .collect();
        let batches = read(
            default_options(topic),
            range(topic, p, 0, 4),
            ValueEncoding::Raw,
            raw_kafka_schema(false),
            log,
        );
        let rows: usize = batches.iter().map(|b| b.num_rows()).sum();
        assert_eq!(rows, 4, "partition {p} expected 4 rows, got {rows}");
        total += rows;
    }
    assert_eq!(total, 12);
}

/// Encode a simple Avro record {id: long, name: string} as binary.
fn encode_avro_record(id: i64, name: &str) -> Vec<u8> {
    let mut buf = Vec::new();
    let zigzag = ((id << 1) ^ (id >> 63)) as u64;
    encode_varint(&mut buf, zigzag);
    let length = name.len() as u64;
    encode_varint(&mut buf, length << 1);
    buf.extend_from_slice(name.as_bytes());
    buf
}

fn encode_varint(buf: &mut Vec<u8>, mut val: u64) {
    loop {
        let mut byte = (val & 0x7F) as u8;
        val >>= 7;
        if val != 0 {
            byte |= 0x80;
        }
        buf.push(byte);
        if val == 0 {
            break;
        }
    }
}

const AVRO_SCHEMA: &str = r#"{"type":"record","name":"TestRecord","fields":[{"name":"id","type":"long"},{"name":"name","type":"string"}]}"#;

fn avro_value_schema() -> TableSchema {
    TableSchema {
        fields: vec![
            ColumnField::new("id", ColumnType::Int64, false),
            ColumnField::new("name", ColumnType::Utf8, false),
        ],
    }
}

#[test]
fn test_avro_confluent_deserialization() {
    let topic = "sail_avro_test";
    let schema_id = 7;
    let records = vec![(1i64, "alice"), (2, "bob"), (3, "charlie")];
    let log = records
        .iter()
        .map(|(id, name)| {
            let value = confluent_frame(schema_id, &Some(encode_avro_record(*id, name)));
            message(topic, 0, *id - 1, Some(format!("key-{id}").as_bytes()), Some(&value))
        })
        .collect();
    let batches = read(
        default_options(topic),
        range(topic, 0, 0, 3),
        ValueEncoding::Avro { reader_schema_json: AVRO_SCHEMA.to_string(), schema_id },
        build_deserialized_schema(&avro_value_schema()),
        log,
    );
    let total_rows: usize = batches.iter().map(|b| b.num_rows()).sum();
    assert_eq!(total_rows, 3, "expected 3 rows, got {total_rows}");

    let batch = &batches[0];
    let id_col = batch
        .column(0)
        .as_any()
        .downcast_ref::<Int64Array>()
        .expect("id column should be Int64");
    assert_eq!(id_col.value(0), 1);
    assert_eq!(id_col.value(1), 2);
    assert_eq!(id_col.value(2), 3);

    let name_col = batch
        .column(1)
        .as_any()
        .downcast_ref::<StringArray>()
        .expect("name column should be Utf8");
    assert_eq!(name_col.value(0), "alice");
    assert_eq!(name_col.value(1), "bob");
    assert_eq!(name_col.value(2), "charlie");

    assert_eq!(batch.schema().field(2).name(), "_kafka_key");
    assert_eq!(batch.schema().field(3).name(), "_kafka_topic");
    assert_eq!(batch.schema().field(4).name(), "_kafka_partition");
    assert_eq!(batch.schema().field(5).name(), "_kafka_offset");
    assert_eq!(batch.schema().field(6).name(), "_kafka_timestamp");
}

#[test]
fn avro_values_without_framing_are_records_too() {
    let topic = "plain";
    let log = vec![message(topic, 0, 0, None, Some(&encode_avro_record(5, "eve")))];
    let batches = read(
        default_options(topic),
        range(topic, 0, 0, 1),
        ValueEncoding::Avro { reader_schema_json: AVRO_SCHEMA.to_string(), schema_id: 1 },
        build_deserialized_schema(&avro_value_schema()),
        log,
    );
    let names = batches[0].column(1).as_any().downcast_ref::<StringArray>().unwrap();
    assert_eq!(names.value(0), "eve");
    assert!(batches[0].column(2).is_null(0));
}

fn avro_state(schema: &str) -> StreamState {
    StreamState::new(
        default_options("t"),
        range("t", 0, 0, 10),
        ValueEncoding::Avro { reader_schema_json: schema.to_string(), schema_id: 3 },
        build_deserialized_schema(&avro_value_schema()),
        10,
    )
}

fn polled(messages: Vec<PolledMessage>) -> MessagePoll {
    let mut poll = MessagePoll::new();
    for message in messages {
        poll.polled(PollReply::Message(message), 10).unwrap();
    }
    poll
}

#[test]
fn avro_arrays_of_items_without_bytes_are_refused() {
    let schema = |items: &str| {
        format!(
            r#"{{"type":"record","name":"r","fields":[{{"name":"a","type":{{"type":"array","items":{items}}}}}]}}"#
        )
    };
    let empty = r#"{"type":"record","name":"e","fields":[]}"#;
    for items in ["\"null\"", empty] {
        let mut state = avro_state(&schema(items));
        let poll = polled(vec![message("t", 0, 0, None, Some(&[0u8]))]);
        match state.next_batch(poll) {
            Err(ReadError::External(KafkaError::Deserialization(text))) => assert_eq!(
                text,
                "Avro arrays of items that may take no bytes are not supported"
            ),
            other => panic!("{other:?}"),
        }
    }
    let named = |part: &str| {
        format!(
            r#"{{"type":"record","name":"r","fields":[{{"name":"p","type":{part}}},{{"name":"a","type":{{"type":"array","items":"Part"}}}}]}}"#
        )
    };
    let refused = |schema: &str, body: &[u8]| {
        let poll = polled(vec![message("t", 0, 0, None, Some(body))]);
        match avro_state(schema).next_batch(poll) {
            Err(ReadError::External(KafkaError::Deserialization(text))) => {
                text.starts_with("Avro arrays")
            }
            _ => false,
        }
    };
    let city = r#"{"type":"record","name":"Part","fields":[{"name":"city","type":"string"}]}"#;
    assert!(!refused(&named(city), &[0, 0]));
    assert!(refused(&named(r#"{"type":"record","name":"Part","fields":[]}"#), &[0]));
    assert!(refused(&named(r#"{"type":"fixed","name":"Part","size":0}"#), &[0]));
    assert!(!refused(&named(r#"{"type":"fixed","name":"Part","size":1}"#), &[7, 0]));
    assert!(!refused(&schema("\"long\""), &[0]));
}

#[test]
fn incomplete_avro_records_are_refused() {
    let whole = encode_avro_record(1, "alice");
    let cut = &whole[..3];
    for bad in [Some(cut), None] {
        let mut state = avro_state(AVRO_SCHEMA);
        let poll = polled(vec![
            message("t", 0, 0, None, Some(&whole)),
            message("t", 0, 1, None, bad),
            message("t", 0, 2, None, Some(&whole)),
        ]);
        match state.next_batch(poll) {
            Err(ReadError::External(KafkaError::Deserialization(text))) => {
                assert_eq!(text, "no complete Avro record in message 1")
            }
            other => panic!("unexpected {other:?}"),
        }
    }
}

#[test]
fn avro_schemas_that_cannot_be_used_are_refused() {
    let mut state = avro_state("no schema");
    let poll = polled(vec![message("t", 0, 0, None, Some(b"x"))]);
    assert!(matches!(state.next_batch(poll), Err(ReadError::Arrow(_))));
}

fn json_value_schema() -> TableSchema {
    TableSchema {
        fields: vec![
            ColumnField::new("user_id", ColumnType::Int64, true),
            ColumnField::new("email", ColumnType::Utf8, true),
            ColumnField::new("active", ColumnType::Boolean, true),
        ],
    }
}

#[test]
fn test_json_deserialization() {
    let topic = "sail_json_test";
    let json_records = vec![
        r#"{"user_id":100,"email":"alice@example.com","active":true}"#,
        r#"{"user_id":200,"email":"bob@example.com","active":false}"#,
        r#"{"user_id":300,"email":"charlie@example.com","active":true}"#,
    ];
    let log = json_records
        .iter()
        .enumerate()
        .map(|(i, record)| {
            message(topic, 0, i as i64, Some(format!("key-{i}").as_bytes()), Some(record.as_bytes()))
        })
        .collect();
    let batches = read(
        default_options(topic),
        range(topic, 0, 0, 3),
        ValueEncoding::Json { schema: json_value_schema() },
        build_deserialized_schema(&json_value_schema()),
        log,
    );
    let total_rows: usize = batches.iter().map(|b| b.num_rows()).sum();
    assert_eq!(total_rows, 3, "expected 3 rows, got {total_rows}");

    let batch = &batches[0];
    let user_ids = batch
        .column(0)
        .as_any()
        .downcast_ref::<Int64Array>()
        .expect("user_id column should be Int64");
    assert_eq!(user_ids.value(0), 100);
    assert_eq!(user_ids.value(1), 200);
    assert_eq!(user_ids.value(2), 300);

    let emails = batch
        .column(1)
        .as_any()
        .downcast_ref::<StringArray>()
        .expect("email column should be Utf8");
    assert_eq!(emails.value(0), "alice@example.com");
    assert_eq!(emails.value(1), "bob@example.com");

    let offsets = batch.column(6).as_any().downcast_ref::<Int64Array>().unwrap();
    assert_eq!(offsets.values().to_vec(), vec![0, 1, 2]);
}

#[test]
fn json_of_many_batches_is_put_together() {
    let topic = "many";
    let log: Vec<PolledMessage> = (0..3000)
        .map(|i| message(topic, 0, i, None, Some(format!("{{\"user_id\":{i}}}").as_bytes())))
        .collect();
    let state = StreamState::new(
        default_options(topic),
        range(topic, 0, 0, 3000),
        ValueEncoding::Json { schema: json_value_schema() },
        build_deserialized_schema(&json_value_schema()),
        8192,
    );
    let batches = collect_stream(state, log);
    assert_eq!(batches.len(), 1);
    let ids = batches[0].column(0).as_any().downcast_ref::<Int64Array>().unwrap();
    assert_eq!(ids.len(), 3000);
    assert_eq!(ids.value(2999), 2999);
}

#[test]
fn required_nulls_in_structures_are_not_put_together() {
    let read = |rows: i64, nullable: bool| {
        let schema = || TableSchema {
            fields: vec![ColumnField::new(
                "s",
                ColumnType::Struct(vec![ColumnField::new("n", ColumnType::Null, nullable)]),
                false,
            )],
        };
        let mut state = StreamState::new(
            default_options("t"),
            range("t", 0, 0, rows),
            ValueEncoding::Json { schema: schema() },
            build_deserialized_schema(&schema()),
            8192,
        );
        let mut poll = MessagePoll::new();
        for i in 0..rows {
            let reply = message("t", 0, i, None, Some(br#"{"s":{"n":null}}"#));
            poll.polled(PollReply::Message(reply), rows + 1).unwrap();
        }
        state.next_batch(poll).map(|batch| batch.unwrap().rows.num_rows())
    };
    assert_eq!(read(1, false).unwrap(), 1);
    assert!(matches!(read(1100, false), Err(ReadError::Arrow(_))));
    assert_eq!(read(1100, true).unwrap(), 1100);
}

fn json_state() -> StreamState {
    StreamState::new(
        default_options("t"),
        range("t", 0, 0, 10),
        ValueEncoding::Json { schema: json_value_schema() },
        build_deserialized_schema(&json_value_schema()),
        10,
    )
}

#[test]
fn malformed_json_is_refused() {
    let poll = polled(vec![message("t", 0, 0, None, Some(b"{\"user_id\":"))]);
    match json_state().next_batch(poll) {
        Err(ReadError::Arrow(text)) => assert!(text.starts_with("Json error"), "{text}"),
        other => panic!("unexpected {other:?}"),
    }
}

#[test]
fn messages_without_values_do_not_fit_a_decoded_schema() {
    let poll = polled(vec![message("t", 0, 0, Some(b"k"), None)]);
    match json_state().next_batch(poll) {
        Err(ReadError::Arrow(text)) => assert!(
            text.contains("number of columns(7) must match number of fields(8)"),
            "{text}"
        ),
        other => panic!("unexpected {other:?}"),
    }
}

#[test]
fn test_fail_on_data_loss_false_skips_missing() {
    let topic = "sail_dataloss_test";
    let log: Vec<PolledMessage> = (0..3)
        .map(|i| message(topic, 0, i, None, Some(format!("msg-{i}").as_bytes())))
        .collect();
    let mut options = default_options(topic);
    options.fail_on_data_loss = false;
    let batches = read(
        options,
        range(topic, 0, 0, 3),
        ValueEncoding::Raw,
        raw_kafka_schema(false),
        log,
    );
    let total: usize = batches.iter().map(|b| b.num_rows()).sum();
    assert_eq!(total, 3);
}

fn raw_state(topic: &str, start: i64, end: i64, fail_on_data_loss: bool) -> StreamState {
    let mut options = default_options(topic);
    options.fail_on_data_loss = fail_on_data_loss;
    StreamState::new(options, range(topic, 4, start, end), ValueEncoding::Raw, raw_kafka_schema(false), 3)
}

#[test]
fn lost_data_is_skipped_or_refused() {
    let mut state = raw_state("t", 5, 9, false);
    assert_eq!(state.init_consumer(7).unwrap(), 7);
    assert_eq!(state.action(), StreamAction::Poll);

    let mut state = raw_state("t", 5, 9, true);
    match state.init_consumer(7) {
        Err(ReadError::External(KafkaError::Config(text))) => assert_eq!(
            text,
            "data loss detected: requested start offset 5 for t-4 but earliest available is 7. \
             Set failOnDataLoss=false to skip missing data."
        ),
        other => panic!("unexpected {other:?}"),
    }
    assert_eq!(state.action(), StreamAction::Start);

    let mut state = raw_state("t", 5, 9, true);
    assert_eq!(state.init_consumer(5).unwrap(), 5);
}

#[test]
fn test_empty_topic() {
    let topic = "sail_empty_test";
    let batches = read(
        default_options(topic),
        range(topic, 0, 0, 0),
        ValueEncoding::Raw,
        raw_kafka_schema(false),
        vec![],
    );
    let total: usize = batches.iter().map(|b| b.num_rows()).sum();
    assert_eq!(total, 0, "empty topic should yield 0 rows");
}

#[test]
fn batches_are_no_larger_than_the_batch_size() {
    let log: Vec<PolledMessage> =
        (0..9).map(|i| message("t", 4, i, None, Some(b"v"))).collect();
    let batches = collect_stream(raw_state("t", 0, 7, true), log);
    let sizes: Vec<usize> = batches.iter().map(|b| b.num_rows()).collect();
    assert_eq!(sizes, vec![3, 3, 1]);
}

#[test]
fn message_past_the_end_ends_the_read() {
    let mut poll = MessagePoll::new();
    poll.polled(PollReply::Message(message("t", 0, 4, None, None)), 5).unwrap();
    poll.polled(PollReply::Message(message("t", 0, 9, None, None)), 5).unwrap();
    assert!(poll.done);
    assert!(!poll.wants_poll(100));
    assert_eq!(poll.messages.len(), 1);
    let mut state = raw_state("t", 0, 5, true);
    assert!(state.next_batch(poll).unwrap().is_some());
    assert_eq!(state.action(), StreamAction::Finish);
}

#[test]
fn polls_without_messages_end_a_batch() {
    let mut poll = MessagePoll::new();
    for _ in 0..2 {
        poll.polled(PollReply::Nothing, 5).unwrap();
        assert!(poll.wants_poll(10));
    }
    poll.polled(PollReply::Nothing, 5).unwrap();
    assert!(!poll.wants_poll(10));
    assert!(!poll.done);

    let mut poll = MessagePoll::new();
    poll.polled(PollReply::Nothing, 5).unwrap();
    poll.polled(PollReply::Message(message("t", 0, 1, None, None)), 5).unwrap();
    assert_eq!(poll.empty_polls, 0);
    poll.polled(PollReply::Nothing, 5).unwrap();
    assert!(!poll.wants_poll(10));
}

#[test]
fn failed_polls_are_reported() {
    let mut poll = MessagePoll::new();
    match poll.polled(PollReply::Failed("broker down".to_string()), 5) {
        Err(ReadError::Client(text)) => assert_eq!(text, "broker down"),
        other => panic!("unexpected {other:?}"),
    }
    assert!(poll.wants_poll(1));
}

#[test]
fn times_are_microseconds_of_a_kind() {
    let of = |time: MessageTime| {
        let mut poll = MessagePoll::new();
        let mut one = message("t", 0, 0, None, None);
        one.time = time;
        poll.polled(PollReply::Message(one), 5).unwrap();
        (poll.messages[0].timestamp_us, poll.messages[0].timestamp_type)
    };
    assert_eq!(of(MessageTime::NotAvailable), (0, -1));
    assert_eq!(of(MessageTime::CreateTime(12)), (12_000, 0));
    assert_eq!(of(MessageTime::CreateTime(-1)), (0, 0));
    assert_eq!(of(MessageTime::LogAppendTime(34)), (34_000, 1));
    assert_eq!(of(MessageTime::LogAppendTime(-1)), (0, 1));
    assert!(is_time_in_range(MessageTime::CreateTime(i64::MAX / 1000)));
    assert!(!is_time_in_range(MessageTime::CreateTime(i64::MAX / 1000 + 1)));
    assert!(is_time_in_range(MessageTime::NotAvailable));
}

#[test]
fn wire_format_is_put_on_and_taken_off() {
    assert_eq!(
        confluent_frame(0x0102_0304, &Some(vec![9, 8])),
        vec![0, 1, 2, 3, 4, 9, 8]
    );
    let framed = confluent_frame(0xff00_00fe, &Some(vec![7]));
    assert_eq!(framed, vec![0, 0xff, 0, 0, 0xfe, 7]);
    assert_eq!(confluent_frame(5, &Some(framed)), vec![0, 0, 0, 0, 5, 7]);
    assert_eq!(confluent_frame(5, &Some(vec![0, 1])), vec![0, 0, 0, 0, 5, 0, 1]);
    assert_eq!(confluent_frame(5, &None), vec![0, 0, 0, 0, 5]);
}

#[test]
fn raw_batches_with_headers_lack_a_column() {
    let state = StreamState::new(
        default_options("t"),
        range("t", 0, 0, 1),
        ValueEncoding::Raw,
        raw_kafka_schema(true),
        1,
    );
    let one = KafkaMessage {
        key: None,
        value: None,
        topic: "t".to_string(),
        partition: 0,
        offset: 0,
        timestamp_us: 0,
        timestamp_type: -1,
    };
    assert!(matches!(state.build_raw_batch(&vec![one]), Err(ReadError::Arrow(_))));
}

#[test]
fn scans_read_one_range_for_each_partition() {
    let scan = KafkaScanExec::new(
        raw_kafka_schema(false),
        ValueEncoding::Raw,
        vec![range("b", 0, 1, 2), range("a", 1, 3, 4), range("b", 2, 5, 6)],
        default_options("b"),
    );
    assert_eq!(scan.partition_count(), 3);
    let state = scan.execute(1).unwrap();
    assert_eq!(state.range.topic, "a");
    assert_eq!(state.range.start_offset, 3);
    assert_eq!(state.batch_size, 8192);
    match scan.execute(3) {
        Err(ReadError::Internal(text)) => {
            assert_eq!(text, "partition index 3 out of range (have 3)")
        }
        other => panic!("unexpected {other:?}"),
    }
    assert_eq!(scan.topics(), vec!["b", "a"]);
    assert_eq!(
        scan.describe(),
        "KafkaScanExec: topics=[\"b\", \"a\"], partitions=3, encoding=\"raw\""
    );
    assert!(scan.with_new_children(0).is_ok());
    match scan.with_new_children(1) {
        Err(ReadError::Internal(text)) => assert_eq!(text, "KafkaScanExec has no children"),
        other => panic!("unexpected {other:?}"),
    }
}

#[test]
fn avro_batches_have_a_row_for_each_message_in_each_column() {
    let frame = |id: i64| {
        let mut value = vec![0, 0, 0, 0, 7];
        value.extend(encode_avro_record(id, "n"));
        value
    };
    let first = frame(1);
    let second = frame(2);
    let batches = read(
        default_options("t"),
        range("t", 0, 0, 2),
        ValueEncoding::Avro {
            reader_schema_json: r#"{"type":"record","name":"R","fields":[
                {"name":"id","type":"long"},{"name":"name","type":"string"}]}"#
                .to_string(),
            schema_id: 7,
        },
        build_deserialized_schema(&avro_value_schema()),
        vec![
            message("t", 0, 0, None, Some(first.as_slice())),
            message("t", 0, 1, None, Some(second.as_slice())),
        ],
    );
    assert_eq!(batches.len(), 1);
    assert_eq!(batches[0].num_columns(), 7);
    for column in batches[0].columns() {
        assert_eq!(column.len(), 2);
    }
}

#[test]
fn bytes_of_a_fixed_number_and_decimals_are_not_read_from_json() {
    let schema = |data_type: ColumnType| TableSchema {
        fields: vec![ColumnField::new("f", data_type, true)],
    };
    assert!(is_readable_schema(&json_value_schema()));
    assert!(is_readable_schema(&schema(ColumnType::Binary)));
    assert!(!is_readable_schema(&schema(ColumnType::FixedSizeBinary(2))));
    assert!(!is_readable_schema(&schema(ColumnType::Decimal128(10, 2))));
    let inner = ColumnField::new("item", ColumnType::FixedSizeBinary(2), true);
    assert!(!is_readable_schema(&schema(ColumnType::List(Box::new(inner)))));
    let part = ColumnField::new("part", ColumnType::FixedSizeBinary(2), true);
    let fine = ColumnField::new("fine", ColumnType::Utf8, true);
    assert!(!is_readable_schema(&schema(ColumnType::Struct(vec![fine, part]))));
    let fine = ColumnField::new("fine", ColumnType::Utf8, true);
    let nested = schema(ColumnType::Struct(vec![fine]));
    assert!(is_readable_encoding(&ValueEncoding::Json { schema: nested }));
    assert!(is_readable_encoding(&ValueEncoding::Raw));
    assert!(!is_readable_encoding(&ValueEncoding::Json {
        schema: schema(ColumnType::FixedSizeBinary(2)),
    }));
}
