//! The errors of reading from Kafka.

use vstd::prelude::*;

use crate::text::joined;

verus! {

/// What went wrong with Kafka or the services around it.
#[derive(Debug)]
pub enum KafkaError {
    /// The Kafka client failed.
    Kafka(String),
    /// An option is missing, malformed or cannot be honoured.
    Config(String),
    /// The schema registry failed or answered something unusable.
    SchemaRegistry(String),
    /// A message could not be decoded.
    Deserialization(String),
}

/// The result of an operation on Kafka.
pub type KafkaResult<T> = Result<T, KafkaError>;

/// Why a read could not be planned or carried out.
#[derive(Debug)]
pub enum ReadError {
    /// The request itself is not acceptable.
    Plan(String),
    /// Kafka, the schema registry or their configuration stand in the way.
    External(KafkaError),
    /// The Kafka client failed in the middle of a read.
    Client(String),
    /// Columns cannot be built, combined or decoded.
    Arrow(String),
    /// A state that should not occur.
    Internal(String),
    /// The operation is not offered.
    NotImplemented(String),
    /// A JSON object lacks a key that its meaning rests on.
    MissingKey(String),
}

/// The kinds of failure.
pub enum FailureKind {
    Plan,
    Kafka,
    Config,
    SchemaRegistry,
    Deserialization,
    Client,
    Arrow,
    Internal,
    NotImplemented,
    MissingKey,
}

/// A failure: its kind and the text that goes with it.
pub struct Failure {
    pub kind: FailureKind,
    pub text: Seq<char>,
}

/// The failure of a request that is not acceptable.
pub open spec fn plan_failure(text: Seq<char>) -> Failure {
    Failure { kind: FailureKind::Plan, text }
}

/// The failure of a configuration.
pub open spec fn config_failure(text: Seq<char>) -> Failure {
    Failure { kind: FailureKind::Config, text }
}

/// The failure of a schema registry.
pub open spec fn registry_failure(text: Seq<char>) -> Failure {
    Failure { kind: FailureKind::SchemaRegistry, text }
}

/// The failure of the Kafka client.
pub open spec fn kafka_failure(text: Seq<char>) -> Failure {
    Failure { kind: FailureKind::Kafka, text }
}

/// The failure to decode a message.
pub open spec fn decode_failure(text: Seq<char>) -> Failure {
    Failure { kind: FailureKind::Deserialization, text }
}

/// The failure of the Kafka client in the middle of a read.
pub open spec fn client_failure(text: Seq<char>) -> Failure {
    Failure { kind: FailureKind::Client, text }
}

/// The failure to build, combine or decode columns.
pub open spec fn arrow_failure(text: Seq<char>) -> Failure {
    Failure { kind: FailureKind::Arrow, text }
}

/// The failure of the library itself.
pub open spec fn internal_failure(text: Seq<char>) -> Failure {
    Failure { kind: FailureKind::Internal, text }
}

/// The failure of a JSON object that lacks `key`.
pub open spec fn missing_key_failure(key: Seq<char>) -> Failure {
    Failure { kind: FailureKind::MissingKey, text: key }
}

impl View for KafkaError {
    type V = Failure;

    open spec fn view(&self) -> Failure {
        match self {
            KafkaError::Kafka(text) => kafka_failure(text@),
            KafkaError::Config(text) => config_failure(text@),
            KafkaError::SchemaRegistry(text) => registry_failure(text@),
            KafkaError::Deserialization(text) => decode_failure(text@),
        }
    }
}

impl View for ReadError {
    type V = Failure;

    open spec fn view(&self) -> Failure {
        match self {
            ReadError::Plan(text) => plan_failure(text@),
            ReadError::External(error) => error@,
            ReadError::Client(text) => client_failure(text@),
            ReadError::Arrow(text) => arrow_failure(text@),
            ReadError::Internal(text) => internal_failure(text@),
            ReadError::NotImplemented(text) => Failure {
                kind: FailureKind::NotImplemented,
                text: text@,
            },
            ReadError::MissingKey(key) => missing_key_failure(key@),
        }
    }
}

/// The message that describes a Kafka failure.
pub open spec fn kafka_message(failure: Failure) -> Seq<char> {
    match failure.kind {
        FailureKind::Kafka => "Kafka error: "@ + failure.text,
        FailureKind::Config => "Kafka config error: "@ + failure.text,
        FailureKind::SchemaRegistry => "Schema Registry error: "@ + failure.text,
        FailureKind::Deserialization => "Deserialization error: "@ + failure.text,
        _ => failure.text,
    }
}

impl KafkaError {
    /// The message that describes the error.
    pub fn message(&self) -> (r: String)
        ensures
            r@ == kafka_message(self@),
    {
        match self {
            KafkaError::Kafka(text) => joined("Kafka error: ", text.as_str()),
            KafkaError::Config(text) => joined("Kafka config error: ", text.as_str()),
            KafkaError::SchemaRegistry(text) => joined("Schema Registry error: ", text.as_str()),
            KafkaError::Deserialization(text) => joined("Deserialization error: ", text.as_str()),
        }
    }
}

impl From<KafkaError> for ReadError {
    fn from(error: KafkaError) -> (r: ReadError) {
        ReadError::External(error)
    }
}

impl vstd::std_specs::convert::FromSpecImpl<KafkaError> for ReadError {
    open spec fn obeys_from_spec() -> bool {
        true
    }

    open spec fn from_spec(error: KafkaError) -> ReadError {
        ReadError::External(error)
    }
}

/// A request that is not acceptable, for the reason `text`.
pub fn plan_error(text: String) -> (r: ReadError)
    ensures
        r@ == plan_failure(text@),
{
    ReadError::Plan(text)
}

/// A configuration that cannot be used, for the reason `text`.
pub fn config_error(text: String) -> (r: ReadError)
    ensures
        r@ == config_failure(text@),
{
    ReadError::from(KafkaError::Config(text))
}

/// A schema registry that cannot be used, for the reason `text`.
pub fn registry_error(text: String) -> (r: ReadError)
    ensures
        r@ == registry_failure(text@),
{
    ReadError::from(KafkaError::SchemaRegistry(text))
}

/// A message that cannot be decoded, for the reason `text`.
pub fn decode_error(text: String) -> (r: ReadError)
    ensures
        r@ == decode_failure(text@),
{
    ReadError::from(KafkaError::Deserialization(text))
}

/// An error stands for the failure of its own kind with its own text, one around another for the
/// failure of that.
pub proof fn law_errors_stand_for_their_failures(error: KafkaError, outer: ReadError)
    ensures
        match error {
            KafkaError::Kafka(text) => error@.kind == FailureKind::Kafka && error@.text == text@,
            KafkaError::Config(text) => error@.kind == FailureKind::Config && error@.text == text@,
            KafkaError::SchemaRegistry(text) => error@.kind == FailureKind::SchemaRegistry
                && error@.text == text@,
            KafkaError::Deserialization(text) => error@.kind == FailureKind::Deserialization
                && error@.text == text@,
        },
        match outer {
            ReadError::Plan(text) => outer@.kind == FailureKind::Plan && outer@.text == text@,
            ReadError::External(inner) => outer@ == inner@,
            ReadError::Client(text) => outer@.kind == FailureKind::Client && outer@.text == text@,
            ReadError::Arrow(text) => outer@.kind == FailureKind::Arrow && outer@.text == text@,
            ReadError::Internal(text) => outer@.kind == FailureKind::Internal && outer@.text
                == text@,
            ReadError::NotImplemented(text) => outer@.kind == FailureKind::NotImplemented
                && outer@.text == text@,
            ReadError::MissingKey(key) => outer@.kind == FailureKind::MissingKey && outer@.text
                == key@,
        },
{
}

/// The message of a Kafka error says which of the four it is, and ends with its text.
pub proof fn law_messages_say_what_failed(error: KafkaError)
    ensures
        match error {
            KafkaError::Kafka(text) => kafka_message(error@) == "Kafka error: "@ + text@,
            KafkaError::Config(text) => kafka_message(error@) == "Kafka config error: "@ + text@,
            KafkaError::SchemaRegistry(text) => kafka_message(error@) == "Schema Registry error: "@
                + text@,
            KafkaError::Deserialization(text) => kafka_message(error@)
                == "Deserialization error: "@ + text@,
        },
{
}

/// Each way to make a failure gives one of its own kind, with the text given.
pub proof fn law_failures_are_of_their_kinds(text: Seq<char>)
    ensures
        plan_failure(text).kind == FailureKind::Plan && plan_failure(text).text == text,
        config_failure(text).kind == FailureKind::Config && config_failure(text).text == text,
        registry_failure(text).kind == FailureKind::SchemaRegistry && registry_failure(text).text
            == text,
        kafka_failure(text).kind == FailureKind::Kafka && kafka_failure(text).text == text,
        decode_failure(text).kind == FailureKind::Deserialization && decode_failure(text).text
            == text,
        client_failure(text).kind == FailureKind::Client && client_failure(text).text == text,
        arrow_failure(text).kind == FailureKind::Arrow && arrow_failure(text).text == text,
        internal_failure(text).kind == FailureKind::Internal && internal_failure(text).text == text,
        missing_key_failure(text).kind == FailureKind::MissingKey && missing_key_failure(text).text
            == text,
{
}

} // verus!
