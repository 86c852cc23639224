use arrow::datatypes::{DataType, Field, Schema, TimeUnit};
use std::sync::Arc;

use sail_kafka::arrow_schema::to_arrow_schema;
use sail_kafka::avro::{avro_to_arrow_schema, avro_type_to_arrow};
use sail_kafka::encoding::{
    build_deserialized_schema, kafka_metadata_fields, raw_kafka_schema, ValueEncoding,
};
use sail_kafka::error::{KafkaError, ReadError};
use sail_kafka::json::parse_json;
use sail_kafka::json_schema::json_schema_to_arrow;
use sail_kafka::map::StringMap;
use sail_kafka::options::{KafkaReadOptions, OffsetSpec, TopicSelection, ValueFormat};
use sail_kafka::provider::{FilterSupport, KafkaTableProvider};
use sail_kafka::schema::{ColumnField, ColumnType, TableSchema, TimeUnit as ColumnUnit};
use sail_kafka::schema_registry::{
    check_reply, HttpReply, RegisteredSchema, SchemaRegistryClient, SchemaRegistryConfig,
};
use sail_kafka::table_format::{
    get_primary_topic, parse_basic_auth, registry_request, resolve_schema_and_encoding,
    KafkaTableFormat,
};

fn options(selection: TopicSelection) -> KafkaReadOptions {
    KafkaReadOptions {
        bootstrap_servers: "h".to_string(),
        topic_selection: selection,
        starting_offsets: OffsetSpec::Earliest,
        ending_offsets: OffsetSpec::Latest,
        fail_on_data_loss: true,
        include_headers: false,
        min_partitions: None,
        group_id_prefix: "g".to_string(),
        poll_timeout_ms: 1,
        fetch_offset_num_retries: 1,
        fetch_offset_retry_interval_ms: 1,
        value_format: None,
        schema_registry_url: None,
        value_schema_subject: None,
        kafka_properties: StringMap::new(),
    }
}

fn subscribed() -> KafkaReadOptions {
    options(TopicSelection::Subscribe(vec!["t".to_string(), "u".to_string()]))
}

fn avro(json: &str) -> Result<Schema, ReadError> {
    let json = parse_json(json).expect("json");
    avro_to_arrow_schema(&json).map(|schema| to_arrow_schema(&schema))
}

fn field_type(json: &str) -> Result<(DataType, bool), ReadError> {
    let text = format!("{{\"fields\":[{{\"name\":\"f\",\"type\":{json}}}]}}");
    avro(&text).map(|schema| (schema.field(0).data_type().clone(), schema.field(0).is_nullable()))
}

fn plan_text<T: std::fmt::Debug>(result: Result<T, ReadError>) -> String {
    match result {
        Err(ReadError::Plan(text)) => text,
        other => panic!("unexpected {other:?}"),
    }
}

fn registry_text<T: std::fmt::Debug>(result: Result<T, ReadError>) -> String {
    match result {
        Err(ReadError::External(KafkaError::SchemaRegistry(text))) => text,
        other => panic!("unexpected {other:?}"),
    }
}

#[test]
fn raw_schema_is_that_of_spark() {
    let micros = DataType::Timestamp(TimeUnit::Microsecond, None);
    let mut fields = vec![
        Field::new("key", DataType::Binary, true),
        Field::new("value", DataType::Binary, true),
        Field::new("topic", DataType::Utf8, true),
        Field::new("partition", DataType::Int32, true),
        Field::new("offset", DataType::Int64, true),
        Field::new("timestamp", micros, true),
        Field::new("timestampType", DataType::Int32, true),
    ];
    assert_eq!(to_arrow_schema(&raw_kafka_schema(false)), Schema::new(fields.clone()));
    let item = Field::new_struct(
        "item",
        vec![
            Field::new("key", DataType::Utf8, true),
            Field::new("value", DataType::Binary, true),
        ],
        true,
    );
    fields.push(Field::new("headers", DataType::List(Arc::new(item)), true));
    assert_eq!(to_arrow_schema(&raw_kafka_schema(true)), Schema::new(fields));
}

#[test]
fn decoded_schema_ends_with_the_metadata() {
    let value = TableSchema { fields: vec![ColumnField::new("a", ColumnType::Boolean, false)] };
    let schema = to_arrow_schema(&build_deserialized_schema(&value));
    let names: Vec<&str> = schema.fields().iter().map(|f| f.name().as_str()).collect();
    assert_eq!(
        names,
        vec!["a", "_kafka_key", "_kafka_topic", "_kafka_partition", "_kafka_offset", "_kafka_timestamp"]
    );
    assert_eq!(kafka_metadata_fields().len(), 5);
    assert_eq!(schema.field(1), &Field::new("_kafka_key", DataType::Binary, true));
    assert_eq!(schema.field(4), &Field::new("_kafka_offset", DataType::Int64, true));
}

#[test]
fn avro_primitives_become_columns() {
    assert_eq!(field_type("\"null\"").unwrap(), (DataType::Null, true));
    assert_eq!(field_type("\"boolean\"").unwrap(), (DataType::Boolean, false));
    assert_eq!(field_type("\"int\"").unwrap(), (DataType::Int32, false));
    assert_eq!(field_type("\"long\"").unwrap(), (DataType::Int64, false));
    assert_eq!(field_type("\"float\"").unwrap(), (DataType::Float32, false));
    assert_eq!(field_type("\"double\"").unwrap(), (DataType::Float64, false));
    assert_eq!(field_type("\"bytes\"").unwrap(), (DataType::Binary, false));
    assert_eq!(field_type("\"string\"").unwrap(), (DataType::Utf8, false));
    assert_eq!(field_type("{\"type\":\"long\"}").unwrap(), (DataType::Int64, false));
    assert_eq!(plan_text(field_type("\"odd\"")), "unsupported Avro type: odd");
    assert_eq!(plan_text(field_type("{\"type\":\"odd\"}")), "unsupported Avro type: odd");
}

#[test]
fn avro_unions_with_null_are_nullable() {
    assert_eq!(field_type("[\"null\",\"long\"]").unwrap(), (DataType::Int64, true));
    assert_eq!(field_type("[\"long\",\"null\"]").unwrap(), (DataType::Int64, true));
    assert_eq!(field_type("[\"long\"]").unwrap(), (DataType::Int64, false));
    assert_eq!(field_type("[\"long\",\"string\"]").unwrap(), (DataType::Binary, false));
    assert_eq!(field_type("[\"null\",\"long\",\"string\"]").unwrap(), (DataType::Binary, true));
    assert_eq!(field_type("[\"null\"]").unwrap(), (DataType::Binary, true));
    assert_eq!(field_type("[]").unwrap(), (DataType::Binary, false));
    assert_eq!(plan_text(field_type("[\"null\",\"odd\"]")), "unsupported Avro type: odd");
}

#[test]
fn avro_logical_types_go_before_types() {
    let logical = |name: &str| format!("{{\"type\":\"int\",\"logicalType\":\"{name}\"}}");
    assert_eq!(field_type(&logical("date")).unwrap(), (DataType::Date32, false));
    assert_eq!(
        field_type(&logical("timestamp-millis")).unwrap(),
        (DataType::Timestamp(TimeUnit::Millisecond, None), false)
    );
    assert_eq!(
        field_type(&logical("timestamp-micros")).unwrap(),
        (DataType::Timestamp(TimeUnit::Microsecond, None), false)
    );
    assert_eq!(field_type(&logical("uuid")).unwrap(), (DataType::Int32, false));
    assert_eq!(field_type(&logical("decimal")).unwrap(), (DataType::Decimal128(38, 0), false));
    assert_eq!(
        field_type("{\"logicalType\":\"decimal\",\"precision\":10,\"scale\":-2}").unwrap(),
        (DataType::Decimal128(10, -2), false)
    );
    assert_eq!(
        field_type("{\"logicalType\":\"decimal\",\"precision\":266,\"scale\":300}").unwrap(),
        (DataType::Decimal128(10, 44), false)
    );
}

#[test]
fn avro_composites_nest() {
    let record = r#"{"type":"record","fields":[{"name":"a","type":["null","int"]},{"type":"string"}]}"#;
    assert_eq!(
        field_type(record).unwrap(),
        (
            DataType::Struct(
                vec![
                    Field::new("a", DataType::Int32, true),
                    Field::new("unknown", DataType::Utf8, false),
                ]
                .into()
            ),
            false
        )
    );
    assert_eq!(
        field_type(r#"{"type":"array","items":["null","long"]}"#).unwrap(),
        (DataType::List(Arc::new(Field::new("item", DataType::Int64, true))), false)
    );
    let entries = DataType::Struct(
        vec![
            Field::new("key", DataType::Utf8, false),
            Field::new("value", DataType::Float64, false),
        ]
        .into(),
    );
    assert_eq!(
        field_type(r#"{"type":"map","values":"double"}"#).unwrap(),
        (DataType::Map(Arc::new(Field::new("entries", entries, false)), false), false)
    );
    assert_eq!(
        field_type(r#"{"type":"enum","symbols":["A"]}"#).unwrap(),
        (
            DataType::Dictionary(Box::new(DataType::Int32), Box::new(DataType::Utf8)),
            false
        )
    );
    assert_eq!(
        field_type(r#"{"type":"fixed","size":16}"#).unwrap(),
        (DataType::FixedSizeBinary(16), false)
    );
    assert_eq!(field_type(r#"{"type":"fixed"}"#).unwrap(), (DataType::FixedSizeBinary(0), false));
}

#[test]
fn avro_schemas_that_say_too_little_are_refused() {
    assert_eq!(
        plan_text(avro("{}")),
        "Avro schema must be a record type with 'fields'"
    );
    assert_eq!(
        plan_text(avro("\"string\"")),
        "Avro schema must be a record type with 'fields'"
    );
    assert_eq!(plan_text(field_type("{}")), "Avro type object missing 'type' field");
    assert_eq!(
        plan_text(field_type(r#"{"type":"record","fields":1}"#)),
        "Avro record must have 'fields'"
    );
    assert_eq!(plan_text(field_type("true")), "unsupported Avro type value: true");
    assert_eq!(plan_text(field_type("1.50")), "unsupported Avro type value: 1.5");
    assert_eq!(plan_text(field_type("null")), "unsupported Avro type value: null");
    assert_eq!(
        plan_text(avro(r#"{"fields":[{"name":"f"}]}"#)),
        "unsupported Avro type value: null"
    );
    for (json, missing) in [
        (r#"{"type":"record"}"#, "fields"),
        (r#"{"type":"array"}"#, "items"),
        (r#"{"type":"map"}"#, "values"),
    ] {
        match field_type(json) {
            Err(ReadError::MissingKey(key)) => assert_eq!(key, missing),
            other => panic!("unexpected {other:?}"),
        }
    }
    let json = parse_json("\"int\"").unwrap();
    assert!(matches!(avro_type_to_arrow(&json), Ok((ColumnType::Int32, false))));
}

fn json_schema(text: &str) -> Result<Schema, ReadError> {
    let json = parse_json(text).expect("json");
    json_schema_to_arrow(&json).map(|schema| to_arrow_schema(&schema))
}

#[test]
fn json_schemas_become_columns() {
    let schema = json_schema(
        r#"{
            "properties": {
                "a": {"type": "string"},
                "b": {"type": "integer"},
                "c": {"type": "number"},
                "d": {"type": "boolean"},
                "e": {"type": "object", "properties": {"x": {"type": "integer"}}, "required": ["x"]},
                "f": {"type": "array", "items": {"type": "number"}},
                "g": {"type": "array"},
                "h": {"type": ["string", "null"]},
                "i": {}
            },
            "required": ["b", 7, "zz"]
        }"#,
    )
    .unwrap();
    let inner = DataType::Struct(vec![Field::new("x", DataType::Int64, false)].into());
    let list = |t: DataType| DataType::List(Arc::new(Field::new("item", t, true)));
    assert_eq!(
        schema,
        Schema::new(vec![
            Field::new("a", DataType::Utf8, true),
            Field::new("b", DataType::Int64, false),
            Field::new("c", DataType::Float64, true),
            Field::new("d", DataType::Boolean, true),
            Field::new("e", inner, true),
            Field::new("f", list(DataType::Float64), true),
            Field::new("g", list(DataType::Utf8), true),
            Field::new("h", DataType::Utf8, true),
            Field::new("i", DataType::Utf8, true),
        ])
    );
}

#[test]
fn json_schemas_need_properties() {
    let wanted = "JSON Schema must have 'properties' for object type";
    assert_eq!(plan_text(json_schema("{}")), wanted);
    assert_eq!(plan_text(json_schema(r#"{"properties":[]}"#)), wanted);
    assert_eq!(plan_text(json_schema(r#"{"properties":{"a":{"type":"object"}}}"#)), wanted);
}

#[test]
fn primary_topic_is_the_first_named() {
    assert_eq!(get_primary_topic(&subscribed()), "t");
    assert_eq!(get_primary_topic(&options(TopicSelection::Subscribe(vec![]))), "");
    let pattern = options(TopicSelection::SubscribePattern("a.*".to_string()));
    assert_eq!(get_primary_topic(&pattern), "a.*");
    let assigned = options(TopicSelection::Assign(StringMap::from_entries(vec![(
        "x".to_string(),
        vec![1],
    )])));
    assert_eq!(get_primary_topic(&assigned), "x");
    assert_eq!(get_primary_topic(&options(TopicSelection::Assign(StringMap::new()))), "");
}

#[test]
fn basic_auth_is_split_at_the_first_colon() {
    let with = |info: &str| {
        let mut read = subscribed();
        read.kafka_properties
            .insert("schema.registry.basic.auth.user.info".to_string(), info.to_string());
        parse_basic_auth(&read)
    };
    assert_eq!(with("a:b:c"), Some(("a".to_string(), "b:c".to_string())));
    assert_eq!(with(":"), Some((String::new(), String::new())));
    assert_eq!(with("none"), None);
    assert_eq!(parse_basic_auth(&subscribed()), None);
}

#[test]
fn registry_is_asked_for_the_subject() {
    assert!(registry_request(&subscribed()).is_none());
    let mut read = subscribed();
    read.schema_registry_url = Some("http://r/".to_string());
    let (config, subject) = registry_request(&read).unwrap();
    assert_eq!(config.url, "http://r/");
    assert_eq!(config.basic_auth, None);
    assert_eq!(subject, "t-value");
    read.value_schema_subject = Some("mine".to_string());
    assert_eq!(registry_request(&read).unwrap().1, "mine");
}

fn registered(schema_type: &str, schema_json: &str) -> Option<RegisteredSchema> {
    Some(RegisteredSchema {
        schema_id: 9,
        schema_json: schema_json.to_string(),
        schema_type: schema_type.to_string(),
    })
}

fn registry_options(format: Option<ValueFormat>) -> KafkaReadOptions {
    let mut read = subscribed();
    read.schema_registry_url = Some("http://r".to_string());
    read.value_format = format;
    read
}

#[test]
fn encoding_follows_the_registered_schema() {
    let json = r#"{"fields":[{"name":"a","type":"int"}],"properties":{"b":{"type":"number"}}}"#;
    let resolve = |format: Option<ValueFormat>, schema_type: &str| {
        resolve_schema_and_encoding(&registry_options(format), &registered(schema_type, json)).unwrap()
    };
    let (schema, encoding) = resolve(None, "AVRO");
    assert_eq!(schema.fields[0].name, "a");
    assert_eq!(schema.fields.len(), 6);
    match encoding {
        ValueEncoding::Avro { reader_schema_json, schema_id } => {
            assert_eq!(reader_schema_json, json);
            assert_eq!(schema_id, 9);
        }
        other => panic!("unexpected {other:?}"),
    }
    assert_eq!(resolve(None, "protobuf").1.label(), "avro");
    let (schema, encoding) = resolve(None, "Json");
    assert_eq!(schema.fields[0].name, "b");
    assert_eq!(encoding.label(), "json");
    assert_eq!(resolve(Some(ValueFormat::Json), "AVRO").1.label(), "json");
    assert_eq!(resolve(Some(ValueFormat::Avro), "JSON").1.label(), "avro");
    let (schema, encoding) = resolve(Some(ValueFormat::Raw), "JSON");
    assert_eq!(schema.fields.len(), 7);
    assert_eq!(encoding.label(), "raw");
}

#[test]
fn registered_schemas_have_to_be_json() {
    let text = registry_text(resolve_schema_and_encoding(
        &registry_options(None),
        &registered("AVRO", "x"),
    ));
    assert!(text.starts_with("invalid Avro schema JSON: expected value"), "{text}");
    let text = registry_text(resolve_schema_and_encoding(
        &registry_options(None),
        &registered("JSON", "x"),
    ));
    assert!(text.starts_with("invalid JSON schema: expected value"), "{text}");
}

#[test]
fn reads_without_a_registry_are_raw() {
    let mut read = subscribed();
    read.include_headers = true;
    for format in [None, Some(ValueFormat::Json), Some(ValueFormat::Raw)] {
        read.value_format = format;
        let (schema, encoding) = resolve_schema_and_encoding(&read, &None).unwrap();
        assert_eq!(schema.fields.len(), 8);
        assert_eq!(encoding.label(), "raw");
    }
    read.value_format = Some(ValueFormat::Avro);
    assert_eq!(
        plan_text(resolve_schema_and_encoding(&read, &None)),
        "value.format=avro requires schema.registry.url"
    );
}

#[test]
fn kafka_is_only_read() {
    assert_eq!(KafkaTableFormat.name(), "kafka");
    match KafkaTableFormat.create_writer() {
        ReadError::NotImplemented(text) => assert_eq!(text, "writing to Kafka is not supported"),
        other => panic!("unexpected {other:?}"),
    }
}

fn client(url: &str) -> SchemaRegistryClient {
    SchemaRegistryClient::new(SchemaRegistryConfig { url: url.to_string(), basic_auth: None })
}

fn answer(status: u16, text: &str) -> HttpReply {
    HttpReply::Answer { status, text: Ok(text.to_string()) }
}

#[test]
fn registry_urls_have_no_double_slash() {
    let client = client("http://r///");
    assert_eq!(client.latest_version_url("s"), "http://r/subjects/s/versions/latest");
    assert_eq!(client.schema_by_id_url(12), "http://r/schemas/ids/12");
    assert_eq!(client.config().url, "http://r///");
}

#[test]
fn latest_version_is_read_and_kept() {
    let mut client = client("http://r");
    let reply = answer(200, r#"{"id":4294967301,"schema":"S","version":3}"#);
    let schema = client.get_latest_version("s", reply).unwrap();
    assert_eq!(schema.schema_id, 5);
    assert_eq!(schema.schema_json, "S");
    assert_eq!(schema.schema_type, "AVRO");
    assert_eq!(client.cached_schema(5).unwrap().schema_json, "S");
    let again = client.get_schema_by_id(5, HttpReply::Failed("off".to_string())).unwrap();
    assert_eq!(again.schema_json, "S");
}

#[test]
fn schemas_are_fetched_once_by_id() {
    let mut client = client("http://r");
    assert!(client.cached_schema(8).is_none());
    let reply = answer(204, r#"{"schema":"S","schemaType":"JSON"}"#);
    let schema = client.get_schema_by_id(8, reply).unwrap();
    assert_eq!((schema.schema_id, schema.schema_type.as_str()), (8, "JSON"));
    let again = client.get_schema_by_id(8, answer(200, r#"{"schema":"other"}"#)).unwrap();
    assert_eq!(again.schema_json, "S");
    let text = registry_text(client.get_schema_by_id(9, answer(200, "{}")));
    assert_eq!(text, "missing 'schema' in schema registry response");
    assert!(client.cached_schema(9).is_none());
}

#[test]
fn registry_answers_may_be_unusable() {
    let mut client = client("http://r");
    let mut latest = |reply: HttpReply| registry_text(client.get_latest_version("s", reply));
    assert_eq!(
        latest(HttpReply::Failed("timeout".to_string())),
        "HTTP request to schema registry failed: timeout"
    );
    assert_eq!(
        latest(answer(404, "gone")),
        "schema registry returned HTTP 404 Not Found: http://r/subjects/s/versions/latest"
    );
    assert_eq!(
        latest(HttpReply::Answer { status: 200, text: Err("cut off".to_string()) }),
        "failed to read schema registry response: cut off"
    );
    assert!(latest(answer(200, "{")).starts_with("failed to parse schema registry response: EOF"));
    assert_eq!(
        latest(answer(200, r#"{"schema":"S"}"#)),
        "missing 'id' in schema registry response"
    );
    assert_eq!(
        latest(answer(200, r#"{"id":-1,"schema":"S"}"#)),
        "missing 'id' in schema registry response"
    );
    assert_eq!(
        latest(answer(200, r#"{"id":1}"#)),
        "missing 'schema' in schema registry response"
    );
    assert_eq!(check_reply(answer(299, "ok"), "u").unwrap(), "ok");
    assert!(check_reply(answer(300, "ok"), "u").is_err());
    assert!(check_reply(answer(199, "ok"), "u").is_err());
}

#[test]
fn errors_describe_themselves() {
    let text = || "x".to_string();
    assert_eq!(KafkaError::Kafka(text()).message(), "Kafka error: x");
    assert_eq!(KafkaError::Config(text()).message(), "Kafka config error: x");
    assert_eq!(KafkaError::SchemaRegistry(text()).message(), "Schema Registry error: x");
    assert_eq!(KafkaError::Deserialization(text()).message(), "Deserialization error: x");
    assert!(matches!(ReadError::from(KafkaError::Config(text())), ReadError::External(_)));
}

#[test]
fn tables_scan_all_ranges_and_take_no_filters() {
    let table = KafkaTableProvider::new(
        raw_kafka_schema(false),
        ValueEncoding::Raw,
        vec![],
        subscribed(),
    );
    assert_eq!(table.supports_filters_pushdown(2), vec![FilterSupport::Unsupported; 2]);
    let scan = table.scan();
    assert_eq!(scan.schema.fields.len(), 7);
    assert_eq!(scan.partition_count(), 0);
    assert_eq!(scan.options.bootstrap_servers, "h");
}

#[test]
fn columns_of_every_type_have_arrow_types() {
    let types = vec![
        (ColumnType::Int8, DataType::Int8),
        (ColumnType::Int16, DataType::Int16),
        (ColumnType::UInt8, DataType::UInt8),
        (ColumnType::UInt16, DataType::UInt16),
        (ColumnType::UInt32, DataType::UInt32),
        (ColumnType::UInt64, DataType::UInt64),
        (ColumnType::LargeBinary, DataType::LargeBinary),
        (ColumnType::LargeUtf8, DataType::LargeUtf8),
        (
            ColumnType::Timestamp(ColumnUnit::Second),
            DataType::Timestamp(TimeUnit::Second, None),
        ),
        (
            ColumnType::Timestamp(ColumnUnit::Nanosecond),
            DataType::Timestamp(TimeUnit::Nanosecond, None),
        ),
    ];
    let (columns, wanted): (Vec<_>, Vec<_>) = types
        .into_iter()
        .map(|(column, data_type)| {
            (ColumnField::new("c", column, true), Field::new("c", data_type, true))
        })
        .unzip();
    let schema = to_arrow_schema(&TableSchema { fields: columns });
    assert_eq!(schema, Schema::new(wanted));
}

#[test]
fn avro_union_of_one_type_is_that_type() {
    let json = parse_json(r#"["string"]"#).unwrap();
    let (data_type, nullable) = avro_type_to_arrow(&json).unwrap();
    assert_eq!(format!("{data_type:?}"), "Utf8");
    assert!(!nullable);
}
