//! The table format of Kafka: the schema of a read, and how its values are decoded.

use vstd::prelude::*;

use crate::avro::{avro_schema, avro_to_arrow_schema};
use crate::encoding::{
    build_deserialized_schema, metadata_columns, raw_kafka_schema, raw_schema_columns,
    readable_encoding, EncodingTree, ValueEncoding,
};
use crate::error::{
    plan_error, plan_failure, registry_error, registry_failure, Failure, FailureKind, ReadError,
};
use crate::json::{json_of_text, parse_json, Json};
use crate::json_schema::{json_schema, json_schema_to_arrow, law_json_columns_are_readable};
use crate::options::{KafkaReadOptions, TopicSelection, ValueFormat};
use crate::schema::{FieldTree, TableSchema};
use crate::schema_registry::{RegisteredSchema, RegisteredTree, SchemaRegistryConfig};
use crate::text::{halves, joined, law_halves, same_text, split_once, to_uppercase, uppercase};

verus! {

/// The table format of Kafka.
#[derive(Debug, Clone, Copy, PartialEq, Eq, Structural)]
pub struct KafkaTableFormat;

impl KafkaTableFormat {
    /// The name of the format.
    pub fn name(&self) -> (r: &'static str)
        ensures
            r@ == "kafka"@,
    {
        "kafka"
    }

    /// The answer to a request to write: Kafka is only read.
    pub fn create_writer(&self) -> (r: ReadError)
        ensures
            r@ == (Failure {
                kind: FailureKind::NotImplemented,
                text: "writing to Kafka is not supported"@,
            }),
    {
        ReadError::NotImplemented("writing to Kafka is not supported".to_owned())
    }
}

/// The topic by which the schema of a read is looked up: the first that is named, or the pattern
/// itself; an empty text where none is named.
pub open spec fn primary_topic(selection: TopicSelection) -> Seq<char> {
    match selection {
        TopicSelection::Subscribe(topics) => if topics@.len() > 0 {
            topics@[0]@
        } else {
            Seq::empty()
        },
        TopicSelection::SubscribePattern(pattern) => pattern@,
        TopicSelection::Assign(map) => if map.pairs().len() > 0 {
            map.pairs()[0].0
        } else {
            Seq::empty()
        },
    }
}

/// The topic by which the schema of a read is looked up.
pub fn get_primary_topic(options: &KafkaReadOptions) -> (r: String)
    ensures
        r@ == primary_topic(options.topic_selection),
{
    match &options.topic_selection {
        TopicSelection::Subscribe(topics) => {
            if topics.len() > 0 {
                topics[0].clone()
            } else {
                String::new()
            }
        },
        TopicSelection::SubscribePattern(pattern) => pattern.clone(),
        TopicSelection::Assign(map) => {
            if map.len() > 0 {
                map.key_at(0).clone()
            } else {
                String::new()
            }
        },
    }
}

/// The user and the password for a schema registry: before and behind the first colon of the
/// setting.
pub open spec fn basic_auth_of(settings: Map<Seq<char>, Seq<char>>) -> Option<
    (Seq<char>, Seq<char>),
> {
    if settings.contains_key("schema.registry.basic.auth.user.info"@) {
        halves(settings["schema.registry.basic.auth.user.info"@], ':')
    } else {
        None
    }
}

/// What an optional pair of texts stands for.
pub open spec fn pair_text(pair: Option<(String, String)>) -> Option<(Seq<char>, Seq<char>)> {
    match pair {
        Some((a, b)) => Some((a@, b@)),
        None => None,
    }
}

/// The user and the password for a schema registry.
pub fn parse_basic_auth(options: &KafkaReadOptions) -> (r: Option<(String, String)>)
    ensures
        pair_text(r) == basic_auth_of(options.kafka_properties@),
{
    match options.kafka_properties.get("schema.registry.basic.auth.user.info") {
        Some(info) => split_once(info.as_str(), ':'),
        None => None,
    }
}

/// The subject under which the schema of a read is registered.
pub open spec fn schema_subject(options: KafkaReadOptions) -> Seq<char> {
    match options.value_schema_subject {
        Some(subject) => subject@,
        None => primary_topic(options.topic_selection) + "-value"@,
    }
}

/// The registry that a read has to ask, and the subject; nothing where it needs none.
pub fn registry_request(options: &KafkaReadOptions) -> (r: Option<(SchemaRegistryConfig, String)>)
    ensures
        match r {
            Some((config, subject)) => {
                &&& options.schema_registry_url matches Some(url) && url@ == config.url@
                &&& pair_text(config.basic_auth) == basic_auth_of(options.kafka_properties@)
                &&& subject@ == schema_subject(*options)
            },
            None => options.schema_registry_url is None,
        },
{
    match &options.schema_registry_url {
        Some(url) => {
            let config = SchemaRegistryConfig {
                url: url.clone(),
                basic_auth: parse_basic_auth(options),
            };
            let subject: String = match &options.value_schema_subject {
                Some(subject) => subject.clone(),
                None => {
                    let topic: String = get_primary_topic(options);
                    joined(topic.as_str(), "-value")
                },
            };
            Some((config, subject))
        },
        None => None,
    }
}

/// The format of values under a registered schema: the one that was asked for, else that of the
/// schema's type, where all but JSON is Avro.
pub open spec fn format_of(asked: Option<ValueFormat>, schema_type: Seq<char>) -> ValueFormat {
    match asked {
        Some(format) => format,
        None => if uppercase(schema_type) == "JSON"@ {
            ValueFormat::Json
        } else {
            ValueFormat::Avro
        },
    }
}

/// The schema of a read and the encoding of its values.
pub type Resolution = Result<(Seq<FieldTree>, EncodingTree), Failure>;

/// The schema and the encoding of a read whose values are of the format `format` under the schema
/// `registered`.
pub open spec fn registered_resolution(
    format: ValueFormat,
    registered: RegisteredTree,
    include_headers: bool,
) -> Resolution {
    match format {
        ValueFormat::Avro => match json_of_text(registered.schema_json) {
            Err(error) => Err(registry_failure("invalid Avro schema JSON: "@ + error)),
            Ok(json) => match avro_schema(json) {
                Err(failure) => Err(failure),
                Ok(fields) => Ok(
                    (
                        fields + metadata_columns(),
                        EncodingTree::Avro {
                            reader_schema_json: registered.schema_json,
                            schema_id: registered.schema_id,
                        },
                    ),
                ),
            },
        },
        ValueFormat::Json => match json_of_text(registered.schema_json) {
            Err(error) => Err(registry_failure("invalid JSON schema: "@ + error)),
            Ok(json) => match json_schema(json) {
                Err(failure) => Err(failure),
                Ok(fields) => Ok(
                    (fields + metadata_columns(), EncodingTree::Json { schema: fields }),
                ),
            },
        },
        ValueFormat::Raw => Ok((raw_schema_columns(include_headers), EncodingTree::Raw)),
    }
}

/// The schema and the encoding of a read without a registry: Avro needs one, and all else is raw.
pub open spec fn unregistered_resolution(
    asked: Option<ValueFormat>,
    include_headers: bool,
) -> Resolution {
    if asked == Some(ValueFormat::Avro) {
        Err(plan_failure("value.format=avro requires schema.registry.url"@))
    } else {
        Ok((raw_schema_columns(include_headers), EncodingTree::Raw))
    }
}

/// The schema and the encoding of a read.
pub open spec fn resolution(
    options: KafkaReadOptions,
    registered: Option<RegisteredSchema>,
) -> Resolution {
    match registered {
        Some(schema) => registered_resolution(
            format_of(options.value_format, schema.schema_type@),
            schema@,
            options.include_headers,
        ),
        None => unregistered_resolution(options.value_format, options.include_headers),
    }
}

/// The schema and the encoding of values of the format `format` under a registered schema.
pub fn resolve_registered(
    format: ValueFormat,
    registered: &RegisteredSchema,
    include_headers: bool,
) -> (r: Result<(TableSchema, ValueEncoding), ReadError>)
    ensures
        ({
            let wanted = registered_resolution(format, registered@, include_headers);
            match r {
                Ok((schema, encoding)) => wanted == Ok::<_, Failure>((schema@, encoding@))
                    && readable_encoding(encoding@),
                Err(error) => wanted == Err::<(Seq<FieldTree>, EncodingTree), _>(error@),
            }
        }),
{
    match format {
        ValueFormat::Avro => {
            let json: Json = match parse_json(registered.schema_json.as_str()) {
                Ok(json) => json,
                Err(error) => {
                    return Err(
                        registry_error(joined("invalid Avro schema JSON: ", error.as_str())),
                    );
                },
            };
            match avro_to_arrow_schema(&json) {
                Ok(schema) => Ok(
                    (
                        build_deserialized_schema(&schema),
                        ValueEncoding::Avro {
                            reader_schema_json: registered.schema_json.clone(),
                            schema_id: registered.schema_id,
                        },
                    ),
                ),
                Err(error) => Err(error),
            }
        },
        ValueFormat::Json => {
            let json: Json = match parse_json(registered.schema_json.as_str()) {
                Ok(json) => json,
                Err(error) => {
                    return Err(registry_error(joined("invalid JSON schema: ", error.as_str())));
                },
            };
            proof {
                law_json_columns_are_readable(json@);
            }
            match json_schema_to_arrow(&json) {
                Ok(schema) => Ok(
                    (build_deserialized_schema(&schema), ValueEncoding::Json { schema }),
                ),
                Err(error) => Err(error),
            }
        },
        ValueFormat::Raw => Ok((raw_kafka_schema(include_headers), ValueEncoding::Raw)),
    }
}

/// The schema and the encoding of a read. `registered` is what the registry has for the subject,
/// where the read has to ask one.
pub fn resolve_schema_and_encoding(
    options: &KafkaReadOptions,
    registered: &Option<RegisteredSchema>,
) -> (r: Result<(TableSchema, ValueEncoding), ReadError>)
    requires
        registered is Some <==> options.schema_registry_url is Some,
    ensures
        match r {
            Ok((schema, encoding)) => resolution(*options, *registered) == Ok::<_, Failure>(
                (schema@, encoding@),
            ) && readable_encoding(encoding@),
            Err(error) => resolution(*options, *registered) == Err::<
                (Seq<FieldTree>, EncodingTree),
                _,
            >(error@),
        },
{
    match registered {
        Some(schema) => {
            let format: ValueFormat = match options.value_format {
                Some(format) => format,
                None => {
                    let schema_type: String = to_uppercase(schema.schema_type.as_str());
                    if same_text(schema_type.as_str(), "JSON") {
                        ValueFormat::Json
                    } else {
                        ValueFormat::Avro
                    }
                },
            };
            resolve_registered(format, schema, options.include_headers)
        },
        None => match options.value_format {
            Some(ValueFormat::Avro) => Err(
                plan_error("value.format=avro requires schema.registry.url".to_owned()),
            ),
            _ => Ok((raw_kafka_schema(options.include_headers), ValueEncoding::Raw)),
        },
    }
}

/// The columns of a read end with those that accompany decoded values exactly where values are
/// decoded; else they are those of a raw read.
pub proof fn law_schema_goes_with_the_encoding(
    options: KafkaReadOptions,
    registered: Option<RegisteredSchema>,
)
    requires
        resolution(options, registered) is Ok,
    ensures
        ({
            let (fields, encoding) = resolution(options, registered)->Ok_0;
            match encoding {
                EncodingTree::Raw => fields == raw_schema_columns(options.include_headers),
                EncodingTree::Json { schema } => fields == schema + metadata_columns(),
                EncodingTree::Avro { reader_schema_json, .. } => json_of_text(
                    reader_schema_json,
                ) is Ok && avro_schema(json_of_text(reader_schema_json)->Ok_0) is Ok && fields
                    == avro_schema(json_of_text(reader_schema_json)->Ok_0)->Ok_0
                    + metadata_columns(),
            }
        }),
{
}

/// A read is raw where raw values are asked for, and where there is no registry unless Avro is
/// asked for, which is not accepted then. Under a registered schema the format is the one that is
/// asked for, else that of the schema's type.
pub proof fn law_format_decides_the_encoding(
    options: KafkaReadOptions,
    registered: Option<RegisteredSchema>,
)
    ensures
        options.value_format == Some(ValueFormat::Raw) || (registered is None
            && options.value_format != Some(ValueFormat::Avro)) ==> resolution(options, registered)
            == Ok::<_, Failure>((raw_schema_columns(options.include_headers), EncodingTree::Raw)),
        registered is None && options.value_format == Some(ValueFormat::Avro) ==> resolution(
            options,
            registered,
        ) is Err && resolution(options, registered)->Err_0.kind == FailureKind::Plan,
        registered is Some && options.value_format is None ==> {
            let asked = if uppercase(registered->0.schema_type@) == "JSON"@ {
                ValueFormat::Json
            } else {
                ValueFormat::Avro
            };
            resolution(options, registered) == resolution(
                (KafkaReadOptions { value_format: Some(asked), ..options }),
                registered,
            )
        },
{
}

/// Values under a registered schema that are decoded have the columns of that schema, then those
/// that accompany them; Avro values are decoded with the very schema and its identifier. It fails
/// where, and only where, the schema is no JSON or has no columns, and no JSON is the registry's
/// fault.
pub proof fn law_registered_schema_is_used(
    options: KafkaReadOptions,
    registered: RegisteredSchema,
)
    ensures
        ({
            let found = resolution(options, Some(registered));
            let json = json_of_text(registered.schema_json@);
            &&& options.value_format == Some(ValueFormat::Avro) ==> {
                &&& found is Ok <==> json is Ok && avro_schema(json->Ok_0) is Ok
                &&& found is Ok ==> {
                    &&& found->Ok_0.0 == avro_schema(json->Ok_0)->Ok_0 + metadata_columns()
                    &&& found->Ok_0.1 is Avro
                    &&& found->Ok_0.1->reader_schema_json == registered.schema_json@
                    &&& found->Ok_0.1->schema_id == registered.schema_id
                }
                &&& json is Err ==> found->Err_0.kind == FailureKind::SchemaRegistry
                &&& json is Ok && found is Err ==> avro_schema(json->Ok_0) == Err::<
                    Seq<FieldTree>,
                    _,
                >(found->Err_0)
            }
            &&& options.value_format == Some(ValueFormat::Json) ==> {
                &&& found is Ok <==> json is Ok && json_schema(json->Ok_0) is Ok
                &&& found is Ok ==> {
                    &&& found->Ok_0.0 == json_schema(json->Ok_0)->Ok_0 + metadata_columns()
                    &&& found->Ok_0.1 is Json
                    &&& found->Ok_0.1->schema == json_schema(json->Ok_0)->Ok_0
                }
                &&& json is Err ==> found->Err_0.kind == FailureKind::SchemaRegistry
                &&& json is Ok && found is Err ==> json_schema(json->Ok_0) == Err::<
                    Seq<FieldTree>,
                    _,
                >(found->Err_0)
            }
        }),
{
}

/// A schema is looked up under the subject that is asked for, else under the first topic that is
/// named, or the pattern, with `-value` behind it.
pub proof fn law_subject_follows_the_topic(options: KafkaReadOptions)
    ensures
        options.value_schema_subject is Some ==> schema_subject(options)
            == options.value_schema_subject->0@,
        options.value_schema_subject is None ==> match options.topic_selection {
            TopicSelection::Subscribe(topics) => {
                &&& topics@.len() > 0 ==> schema_subject(options) == topics@[0]@ + "-value"@
                &&& topics@.len() == 0 ==> schema_subject(options) == "-value"@
            },
            TopicSelection::SubscribePattern(pattern) => schema_subject(options) == pattern@
                + "-value"@,
            TopicSelection::Assign(map) => {
                &&& map.pairs().len() > 0 ==> schema_subject(options) == map.pairs()[0].0
                    + "-value"@
                &&& map.pairs().len() == 0 ==> schema_subject(options) == "-value"@
            },
        },
{
    assert(Seq::<char>::empty() + "-value"@ =~= "-value"@);
}

/// A user and a password are known where, and only where, the setting with them has a colon: the
/// user stands before the first colon, the password behind it, and together they are the setting.
pub proof fn law_basic_auth_is_split_at_the_colon(settings: Map<Seq<char>, Seq<char>>)
    ensures
        ({
            let name = "schema.registry.basic.auth.user.info"@;
            &&& basic_auth_of(settings) is Some <==> settings.contains_key(name)
                && settings[name].contains(':')
            &&& basic_auth_of(settings) is Some ==> {
                let (user, password) = basic_auth_of(settings)->0;
                &&& settings[name] == user + seq![':'] + password
                &&& !user.contains(':')
            }
        }),
        forall|a: String, b: String| #[trigger] pair_text(Some((a, b))) == Some((a@, b@)),
        pair_text(None) is None,
{
    if settings.contains_key("schema.registry.basic.auth.user.info"@) {
        law_halves(settings["schema.registry.basic.auth.user.info"@], ':');
    }
}

} // verus!
