//! The options of a read.

use vstd::prelude::*;

use std::collections::HashMap;

use crate::error::{
    config_error, config_failure, plan_error, plan_failure, Failure, FailureKind, ReadError,
};
use crate::json::{assignment_of_text, offsets_of_text, parse_assignment, parse_offset_map};
use crate::map::{
    distinct_keys, key_position, lemma_key_position, lemma_pairs_map, pairs_map, Duplicate,
    StringMap,
};
use crate::text::{
    ascii_lowercase, ascii_only, eq_ignore_ascii_case, hex_digits, hex_text, integer, joined,
    law_hex_digits_tell_numbers_apart, lowercase, parse_integer, pieces, same_text, split,
    starts_with, suffix_from, texts, to_lowercase, trim, trimmed,
};

verus! {

/// Which topics to read.
#[derive(Debug)]
pub enum TopicSelection {
    /// These topics.
    Subscribe(Vec<String>),
    /// The topics whose names match a pattern.
    SubscribePattern(String),
    /// These partitions of these topics.
    Assign(StringMap<Vec<i32>>),
}

/// What a `TopicSelection` stands for.
pub enum SelectionTree {
    Subscribe(Seq<Seq<char>>),
    SubscribePattern(Seq<char>),
    Assign(Map<Seq<char>, Seq<i32>>),
}

impl View for TopicSelection {
    type V = SelectionTree;

    open spec fn view(&self) -> SelectionTree {
        match self {
            TopicSelection::Subscribe(topics) => SelectionTree::Subscribe(texts(topics@)),
            TopicSelection::SubscribePattern(pattern) => SelectionTree::SubscribePattern(pattern@),
            TopicSelection::Assign(map) => SelectionTree::Assign(map@),
        }
    }
}

/// Where in a partition to start or to end.
#[derive(Debug)]
pub enum OffsetSpec {
    Earliest,
    Latest,
    /// An offset for each partition.
    PerPartition(StringMap<HashMap<i32, i64>>),
    /// A time in milliseconds for each partition.
    ByTimestamp(StringMap<HashMap<i32, i64>>),
    /// A time in milliseconds for all partitions.
    GlobalTimestamp(i64),
}

/// What an `OffsetSpec` stands for.
pub enum OffsetTree {
    Earliest,
    Latest,
    PerPartition(Map<Seq<char>, Map<i32, i64>>),
    ByTimestamp(Map<Seq<char>, Map<i32, i64>>),
    GlobalTimestamp(i64),
}

impl View for OffsetSpec {
    type V = OffsetTree;

    open spec fn view(&self) -> OffsetTree {
        match self {
            OffsetSpec::Earliest => OffsetTree::Earliest,
            OffsetSpec::Latest => OffsetTree::Latest,
            OffsetSpec::PerPartition(map) => OffsetTree::PerPartition(map@),
            OffsetSpec::ByTimestamp(map) => OffsetTree::ByTimestamp(map@),
            OffsetSpec::GlobalTimestamp(ms) => OffsetTree::GlobalTimestamp(*ms),
        }
    }
}

/// The format of message values.
#[derive(Debug, Clone, Copy, PartialEq, Eq, Structural)]
pub enum ValueFormat {
    Avro,
    Json,
    Raw,
}

/// The options of a read.
#[derive(Debug)]
pub struct KafkaReadOptions {
    pub bootstrap_servers: String,
    pub topic_selection: TopicSelection,
    pub starting_offsets: OffsetSpec,
    pub ending_offsets: OffsetSpec,
    pub fail_on_data_loss: bool,
    pub include_headers: bool,
    pub min_partitions: Option<usize>,
    pub group_id_prefix: String,
    pub poll_timeout_ms: u64,
    pub fetch_offset_num_retries: u32,
    pub fetch_offset_retry_interval_ms: u64,
    pub value_format: Option<ValueFormat>,
    pub schema_registry_url: Option<String>,
    pub value_schema_subject: Option<String>,
    pub kafka_properties: StringMap<String>,
}

/// What a `KafkaReadOptions` stands for.
pub struct OptionsTree {
    pub bootstrap_servers: Seq<char>,
    pub topic_selection: SelectionTree,
    pub starting_offsets: OffsetTree,
    pub ending_offsets: OffsetTree,
    pub fail_on_data_loss: bool,
    pub include_headers: bool,
    pub min_partitions: Option<usize>,
    pub group_id_prefix: Seq<char>,
    pub poll_timeout_ms: u64,
    pub fetch_offset_num_retries: u32,
    pub fetch_offset_retry_interval_ms: u64,
    pub value_format: Option<ValueFormat>,
    pub schema_registry_url: Option<Seq<char>>,
    pub value_schema_subject: Option<Seq<char>>,
    pub kafka_properties: Map<Seq<char>, Seq<char>>,
}

/// The text of an optional string.
pub open spec fn optional_text(s: Option<String>) -> Option<Seq<char>> {
    match s {
        Some(s) => Some(s@),
        None => None,
    }
}

impl View for KafkaReadOptions {
    type V = OptionsTree;

    open spec fn view(&self) -> OptionsTree {
        OptionsTree {
            bootstrap_servers: self.bootstrap_servers@,
            topic_selection: self.topic_selection@,
            starting_offsets: self.starting_offsets@,
            ending_offsets: self.ending_offsets@,
            fail_on_data_loss: self.fail_on_data_loss,
            include_headers: self.include_headers,
            min_partitions: self.min_partitions,
            group_id_prefix: self.group_id_prefix@,
            poll_timeout_ms: self.poll_timeout_ms,
            fetch_offset_num_retries: self.fetch_offset_num_retries,
            fetch_offset_retry_interval_ms: self.fetch_offset_retry_interval_ms,
            value_format: self.value_format,
            schema_registry_url: optional_text(self.schema_registry_url),
            value_schema_subject: optional_text(self.value_schema_subject),
            kafka_properties: self.kafka_properties@,
        }
    }
}

fn copy_text(s: &Option<String>) -> (r: Option<String>)
    ensures
        optional_text(r) == optional_text(*s),
{
    match s {
        Some(s) => Some(s.clone()),
        None => None,
    }
}

impl TopicSelection {
    /// The topics of an assignment with their partitions, in order.
    pub open spec fn pairs(&self) -> Seq<(Seq<char>, Seq<i32>)> {
        match self {
            TopicSelection::Assign(map) => map.pairs(),
            _ => Seq::empty(),
        }
    }

    /// A selection with the same contents, in the same order.
    pub fn duplicate(&self) -> (r: TopicSelection)
        ensures
            r@ == self@,
            r.pairs() == self.pairs(),
    {
        match self {
            TopicSelection::Subscribe(topics) => {
                let mut copies: Vec<String> = Vec::new();
                let mut i: usize = 0;
                while i < topics.len()
                    invariant
                        i <= topics.len(),
                        copies@.len() == i,
                        forall|j: int| 0 <= j < i ==> (#[trigger] copies@[j])@ == topics@[j]@,
                    decreases topics.len() - i,
                {
                    copies.push(topics[i].clone());
                    i = i + 1;
                }
                assert(texts(copies@) =~= texts(topics@));
                TopicSelection::Subscribe(copies)
            },
            TopicSelection::SubscribePattern(pattern) => TopicSelection::SubscribePattern(
                pattern.clone(),
            ),
            TopicSelection::Assign(map) => TopicSelection::Assign(map.duplicate()),
        }
    }
}

impl OffsetSpec {
    /// The topics with their numbers by partition, in order.
    pub open spec fn pairs(&self) -> Seq<(Seq<char>, Map<i32, i64>)> {
        match self {
            OffsetSpec::PerPartition(map) => map.pairs(),
            OffsetSpec::ByTimestamp(map) => map.pairs(),
            _ => Seq::empty(),
        }
    }

    /// A specification with the same contents, in the same order.
    pub fn duplicate(&self) -> (r: OffsetSpec)
        ensures
            r@ == self@,
            r.pairs() == self.pairs(),
    {
        match self {
            OffsetSpec::Earliest => OffsetSpec::Earliest,
            OffsetSpec::Latest => OffsetSpec::Latest,
            OffsetSpec::PerPartition(map) => OffsetSpec::PerPartition(map.duplicate()),
            OffsetSpec::ByTimestamp(map) => OffsetSpec::ByTimestamp(map.duplicate()),
            OffsetSpec::GlobalTimestamp(ms) => OffsetSpec::GlobalTimestamp(*ms),
        }
    }
}

impl KafkaReadOptions {
    /// Options with the same contents, in the same order.
    pub fn duplicate(&self) -> (r: KafkaReadOptions)
        ensures
            r@ == self@,
            r.topic_selection.pairs() == self.topic_selection.pairs(),
            r.starting_offsets.pairs() == self.starting_offsets.pairs(),
            r.ending_offsets.pairs() == self.ending_offsets.pairs(),
            r.kafka_properties.pairs() == self.kafka_properties.pairs(),
    {
        KafkaReadOptions {
            bootstrap_servers: self.bootstrap_servers.clone(),
            topic_selection: self.topic_selection.duplicate(),
            starting_offsets: self.starting_offsets.duplicate(),
            ending_offsets: self.ending_offsets.duplicate(),
            fail_on_data_loss: self.fail_on_data_loss,
            include_headers: self.include_headers,
            min_partitions: self.min_partitions,
            group_id_prefix: self.group_id_prefix.clone(),
            poll_timeout_ms: self.poll_timeout_ms,
            fetch_offset_num_retries: self.fetch_offset_num_retries,
            fetch_offset_retry_interval_ms: self.fetch_offset_retry_interval_ms,
            value_format: self.value_format,
            schema_registry_url: copy_text(&self.schema_registry_url),
            value_schema_subject: copy_text(&self.value_schema_subject),
            kafka_properties: self.kafka_properties.duplicate(),
        }
    }
}

/// Options by lower-case names.
pub type MergedOptions = Map<Seq<char>, Seq<char>>;

/// The pairs of all `options` one after the other, the names in lower case.
pub open spec fn merged_pairs(options: Seq<StringMap<String>>) -> Seq<(Seq<char>, Seq<char>)>
    decreases options.len(),
{
    if options.len() == 0 {
        Seq::empty()
    } else {
        merged_pairs(options.drop_last()) + options.last().pairs().map_values(
            |p: (Seq<char>, Seq<char>)| (lowercase(p.0), p.1),
        )
    }
}

/// All `options` with the names in lower case; of two with the same name the later counts.
pub open spec fn merged_options(options: Seq<StringMap<String>>) -> MergedOptions {
    pairs_map(merged_pairs(options))
}

/// Whether all texts that differ from a name in the case of ASCII letters only are that name in
/// lower case.
pub open spec fn ascii_case_ignored(name: Seq<char>) -> bool {
    forall|t: Seq<char>|
        #![trigger lowercase(t)]
        ascii_lowercase(t) == ascii_lowercase(name) ==> lowercase(t) == lowercase(name)
}

/// Whether the case of ASCII letters does not count in any name.
pub open spec fn names_lowered(options: Seq<StringMap<String>>) -> bool {
    forall|i: int, k: Seq<char>|
        0 <= i < options.len() && #[trigger] options[i]@.contains_key(k) ==> ascii_case_ignored(k)
}

/// Whether names of ASCII characters are put in lower case letter by letter.
pub open spec fn ascii_names_lowered(options: Seq<StringMap<String>>) -> bool {
    forall|i: int, k: Seq<char>|
        0 <= i < options.len() && #[trigger] options[i]@.contains_key(k) && ascii_only(k)
            ==> lowercase(k) == ascii_lowercase(k)
}

/// Why the Kafka setting `name` is refused.
pub open spec fn blocked_failure(name: Seq<char>, reason: Seq<char>) -> Failure {
    plan_failure("Kafka option '"@ + name + "' is not supported. "@ + reason)
}

/// The failure of the first Kafka setting that a caller may not make.
pub open spec fn blocked_setting(m: MergedOptions) -> Option<Failure> {
    if m.contains_key("kafka.auto.offset.reset"@) {
        Some(
            blocked_failure(
                "auto.offset.reset"@,
                "Set startingOffsets/endingOffsets to control offsets."@,
            ),
        )
    } else if m.contains_key("kafka.key.deserializer"@) {
        Some(
            blocked_failure(
                "key.deserializer"@,
                "Keys are deserialized as byte arrays with ByteArrayDeserializer."@,
            ),
        )
    } else if m.contains_key("kafka.value.deserializer"@) {
        Some(
            blocked_failure(
                "value.deserializer"@,
                "Values are deserialized as byte arrays with ByteArrayDeserializer."@,
            ),
        )
    } else if m.contains_key("kafka.enable.auto.commit"@) {
        Some(blocked_failure("enable.auto.commit"@, "Offsets are not committed in batch mode."@))
    } else if m.contains_key("kafka.interceptor.classes"@) {
        Some(blocked_failure("interceptor.classes"@, "Interceptors are not supported."@))
    } else {
        None
    }
}

/// One for an option that is there, else zero.
pub open spec fn given(m: MergedOptions, name: Seq<char>) -> int {
    if m.contains_key(name) {
        1
    } else {
        0
    }
}

/// The topics that the options select: exactly one of the three ways must be taken.
pub open spec fn selected_topics(m: MergedOptions) -> Result<SelectionTree, Failure> {
    let count = given(m, "subscribe"@) + given(m, "subscribepattern"@) + given(m, "assign"@);
    if count == 0 {
        Err(plan_failure("one of 'subscribe', 'subscribePattern', or 'assign' is required"@))
    } else if count > 1 {
        Err(plan_failure("'subscribe', 'subscribePattern', and 'assign' are mutually exclusive"@))
    } else if m.contains_key("subscribe"@) {
        Ok(
            SelectionTree::Subscribe(
                pieces(m["subscribe"@], ',').map_values(|t: Seq<char>| trimmed(t)),
            ),
        )
    } else if m.contains_key("subscribepattern"@) {
        Ok(SelectionTree::SubscribePattern(m["subscribepattern"@]))
    } else {
        match assignment_of_text(m["assign"@]) {
            Ok(map) => Ok(SelectionTree::Assign(map)),
            Err(error) => Err(config_failure("invalid 'assign' JSON: "@ + error)),
        }
    }
}

/// The partition that `s` denotes.
pub open spec fn partition_number(s: Seq<char>) -> Option<int> {
    integer(s, i32::MIN as int, i32::MAX as int)
}

/// Whether `read` holds the numbers of `parsed` by the partitions that the keys denote. Where two
/// keys denote one partition, either number may be the one that is kept.
pub open spec fn partitions_read(parsed: Map<Seq<char>, i64>, read: Map<i32, i64>) -> bool {
    &&& forall|p: Seq<char>| #[trigger]
        parsed.contains_key(p) ==> partition_number(p) is Some && read.contains_key(
            partition_number(p)->0 as i32,
        )
    &&& forall|n: i32| #[trigger]
        read.contains_key(n) ==> exists|p: Seq<char>| #[trigger]
            parsed.contains_key(p) && partition_number(p) == Some(n as int) && parsed[p] == read[n]
}

/// Whether reading the keys of `parsed` as partitions may give `outcome`: a map where all keys
/// denote partitions, else the failure of one that does not.
pub open spec fn partition_map_outcome(
    parsed: Map<Seq<char>, Map<Seq<char>, i64>>,
    outcome: Result<Map<Seq<char>, Map<i32, i64>>, Failure>,
) -> bool {
    match outcome {
        Ok(read) => {
            &&& read.dom() == parsed.dom()
            &&& forall|t: Seq<char>| #[trigger]
                parsed.contains_key(t) ==> partitions_read(parsed[t], read[t])
        },
        Err(failure) => exists|t: Seq<char>, p: Seq<char>|
            parsed.contains_key(t) && #[trigger] parsed[t].contains_key(p) && partition_number(
                p,
            ) is None && failure == config_failure("invalid partition number: "@ + p),
    }
}

/// Whether reading `text` as numbers by topic and partition may give `outcome`. `what` begins the
/// message where the text is no such JSON.
pub open spec fn offset_map_outcome(
    text: Seq<char>,
    what: Seq<char>,
    outcome: Result<Map<Seq<char>, Map<i32, i64>>, Failure>,
) -> bool {
    match offsets_of_text(text) {
        Ok(parsed) => partition_map_outcome(parsed, outcome),
        Err(error) => outcome == Err::<Map<Seq<char>, Map<i32, i64>>, Failure>(
            config_failure(what + error),
        ),
    }
}

/// What an option with a time for all partitions gives.
pub open spec fn timestamp_option(text: Seq<char>, what: Seq<char>) -> Result<OffsetTree, Failure> {
    match integer(text, i64::MIN as int, i64::MAX as int) {
        Some(ms) => Ok(OffsetTree::GlobalTimestamp(ms as i64)),
        None => Err(config_failure(what + text)),
    }
}

/// Whether an option with a time for each partition may give `outcome`.
pub open spec fn by_timestamp_outcome(
    text: Seq<char>,
    what: Seq<char>,
    outcome: Result<OffsetTree, Failure>,
) -> bool {
    match outcome {
        Ok(OffsetTree::ByTimestamp(map)) => offset_map_outcome(text, what, Ok(map)),
        Ok(_) => false,
        Err(failure) => offset_map_outcome(text, what, Err(failure)),
    }
}

/// Whether an option with offsets may give `outcome`. Without the option a read starts at the
/// earliest and ends at the latest offset.
pub open spec fn plain_offsets_outcome(
    value: Option<Seq<char>>,
    is_starting: bool,
    outcome: Result<OffsetTree, Failure>,
) -> bool {
    match value {
        None => outcome == Ok::<OffsetTree, Failure>(
            if is_starting {
                OffsetTree::Earliest
            } else {
                OffsetTree::Latest
            },
        ),
        Some(v) => if ascii_lowercase(v) == ascii_lowercase("earliest"@) {
            outcome == if is_starting {
                Ok::<OffsetTree, Failure>(OffsetTree::Earliest)
            } else {
                Err(plan_failure("'earliest' is not allowed for endingOffsets in batch mode"@))
            }
        } else if ascii_lowercase(v) == ascii_lowercase("latest"@) {
            outcome == if is_starting {
                Err(plan_failure("'latest' is not allowed for startingOffsets in batch mode"@))
            } else {
                Ok::<OffsetTree, Failure>(OffsetTree::Latest)
            }
        } else {
            match outcome {
                Ok(OffsetTree::PerPartition(map)) => offset_map_outcome(
                    v,
                    "invalid offsets JSON: "@,
                    Ok(map),
                ),
                Ok(_) => false,
                Err(failure) => offset_map_outcome(v, "invalid offsets JSON: "@, Err(failure)),
            }
        },
    }
}

/// The value of the option `name`.
pub open spec fn option_value(m: MergedOptions, name: Seq<char>) -> Option<Seq<char>> {
    if m.contains_key(name) {
        Some(m[name])
    } else {
        None
    }
}

/// Whether the options may give `outcome` for the start: a time for all partitions goes before
/// times for each, and those before offsets.
pub open spec fn starting_outcome(m: MergedOptions, outcome: Result<OffsetTree, Failure>) -> bool {
    if m.contains_key("startingtimestamp"@) {
        outcome == timestamp_option(m["startingtimestamp"@], "invalid startingTimestamp: "@)
    } else if m.contains_key("startingoffsetsbytimestamp"@) {
        by_timestamp_outcome(
            m["startingoffsetsbytimestamp"@],
            "invalid startingOffsetsByTimestamp JSON: "@,
            outcome,
        )
    } else {
        plain_offsets_outcome(option_value(m, "startingoffsets"@), true, outcome)
    }
}

/// Whether the options may give `outcome` for the end: a time for all partitions goes before
/// times for each, and those before offsets.
pub open spec fn ending_outcome(m: MergedOptions, outcome: Result<OffsetTree, Failure>) -> bool {
    if m.contains_key("endingtimestamp"@) {
        outcome == timestamp_option(m["endingtimestamp"@], "invalid endingTimestamp: "@)
    } else if m.contains_key("endingoffsetsbytimestamp"@) {
        by_timestamp_outcome(
            m["endingoffsetsbytimestamp"@],
            "invalid endingOffsetsByTimestamp JSON: "@,
            outcome,
        )
    } else {
        plain_offsets_outcome(option_value(m, "endingoffsets"@), false, outcome)
    }
}

/// Whether the option `name` says true; `default` where it is not given.
pub open spec fn flag(m: MergedOptions, name: Seq<char>, default: bool) -> bool {
    if m.contains_key(name) {
        ascii_lowercase(m[name]) == ascii_lowercase("true"@)
    } else {
        default
    }
}

/// The number up to `high` that the option `name` gives, where it is given. `what` begins the
/// message where it is none.
pub open spec fn number_option(
    m: MergedOptions,
    name: Seq<char>,
    high: int,
    what: Seq<char>,
) -> Result<Option<int>, Failure> {
    if m.contains_key(name) {
        match integer(m[name], 0, high) {
            Some(n) => Ok(Some(n)),
            None => Err(config_failure(what + m[name])),
        }
    } else {
        Ok(None)
    }
}

/// The number that an option gives, or `default`.
pub open spec fn number_or(n: Option<int>, default: int) -> int {
    match n {
        Some(n) => n,
        None => default,
    }
}

/// The format that the options ask for.
pub open spec fn format_option(m: MergedOptions) -> Result<Option<ValueFormat>, Failure> {
    match option_value(m, "value.format"@) {
        Some(v) => if v == "avro"@ {
            Ok(Some(ValueFormat::Avro))
        } else if v == "json"@ {
            Ok(Some(ValueFormat::Json))
        } else if v == "raw"@ {
            Ok(Some(ValueFormat::Raw))
        } else {
            Err(
                plan_failure(
                    "unsupported value.format: "@ + v + ". Supported: avro, json, raw"@,
                ),
            )
        },
        None => Ok(None),
    }
}

/// The settings that go to Kafka: those under `kafka.` but for the servers, without that prefix.
pub open spec fn kafka_settings(m: MergedOptions) -> Map<Seq<char>, Seq<char>> {
    m.remove("kafka.bootstrap.servers"@).prefixed_entries("kafka."@)
}

/// The options of a read with the given servers, topics, start and end, or the failure of the
/// first remaining option that cannot be read.
pub open spec fn assembled(
    m: MergedOptions,
    topics: SelectionTree,
    start: OffsetTree,
    end: OffsetTree,
) -> Result<OptionsTree, Failure> {
    match (
        number_option(m, "minpartitions"@, usize::MAX as int, "invalid minPartitions value: "@),
        number_option(
            m,
            "kafkaconsumer.polltimeoutms"@,
            u64::MAX as int,
            "invalid kafkaConsumer.pollTimeoutMs: "@,
        ),
        number_option(
            m,
            "fetchoffset.numretries"@,
            u32::MAX as int,
            "invalid fetchOffset.numRetries: "@,
        ),
        number_option(
            m,
            "fetchoffset.retryintervalms"@,
            u64::MAX as int,
            "invalid fetchOffset.retryIntervalMs: "@,
        ),
        format_option(m),
    ) {
        (Err(failure), _, _, _, _) => Err(failure),
        (_, Err(failure), _, _, _) => Err(failure),
        (_, _, Err(failure), _, _) => Err(failure),
        (_, _, _, Err(failure), _) => Err(failure),
        (_, _, _, _, Err(failure)) => Err(failure),
        (Ok(partitions), Ok(timeout), Ok(retries), Ok(interval), Ok(value_format)) => Ok(
            OptionsTree {
                bootstrap_servers: m["kafka.bootstrap.servers"@],
                topic_selection: topics,
                starting_offsets: start,
                ending_offsets: end,
                fail_on_data_loss: flag(m, "failondataloss"@, true),
                include_headers: flag(m, "includeheaders"@, false),
                min_partitions: match partitions {
                    Some(n) => Some(n as usize),
                    None => None,
                },
                group_id_prefix: match option_value(m, "groupidprefix"@) {
                    Some(prefix) => prefix,
                    None => "spark-kafka-relation"@,
                },
                poll_timeout_ms: number_or(timeout, 120_000) as u64,
                fetch_offset_num_retries: number_or(retries, 3) as u32,
                fetch_offset_retry_interval_ms: number_or(interval, 1000) as u64,
                value_format,
                schema_registry_url: option_value(m, "schema.registry.url"@),
                value_schema_subject: option_value(m, "value.schema.subject"@),
                kafka_properties: kafka_settings(m),
            },
        ),
    }
}

/// Whether reading the options may give `outcome`. What comes first is at fault first: the
/// servers, the settings that a caller may not make, the topics, the start, the end, the rest.
pub open spec fn options_outcome(m: MergedOptions, outcome: Result<OptionsTree, Failure>) -> bool {
    if !m.contains_key("kafka.bootstrap.servers"@) {
        outcome == Err::<OptionsTree, Failure>(
            config_failure("kafka.bootstrap.servers is required"@),
        )
    } else if blocked_setting(m) is Some {
        outcome == Err::<OptionsTree, Failure>(blocked_setting(m)->0)
    } else {
        match selected_topics(m) {
            Err(failure) => outcome == Err::<OptionsTree, Failure>(failure),
            Ok(topics) => exists|start: Result<OffsetTree, Failure>| #[trigger]
                starting_outcome(m, start) && match start {
                    Err(failure) => outcome == Err::<OptionsTree, Failure>(failure),
                    Ok(start) => exists|end: Result<OffsetTree, Failure>| #[trigger]
                        ending_outcome(m, end) && match end {
                            Err(failure) => outcome == Err::<OptionsTree, Failure>(failure),
                            Ok(end) => outcome == assembled(m, topics, start, end),
                        },
                },
        }
    }
}

/// A request with the Kafka setting `name`, refused for `reason`.
fn blocked_error(name: &str, reason: &str) -> (r: ReadError)
    ensures
        r@ == blocked_failure(name@, reason@),
{
    let mut text: String = joined("Kafka option '", name);
    text.append("' is not supported. ");
    text.append(reason);
    plan_error(text)
}

/// Whether the option `name` says true; `default` where it is not given.
fn read_flag(merged: &StringMap<String>, name: &str, default: bool) -> (r: bool)
    ensures
        r == flag(merged@, name@, default),
{
    match merged.get(name) {
        Some(v) => eq_ignore_ascii_case(v.as_str(), "true"),
        None => default,
    }
}

/// The number up to `high` that the option `name` gives.
fn read_number(merged: &StringMap<String>, name: &str, high: i128, what: &str) -> (r: Result<
    Option<i128>,
    ReadError,
>)
    requires
        0 <= high <= u64::MAX,
    ensures
        match r {
            Ok(Some(n)) => number_option(merged@, name@, high as int, what@) == Ok::<_, Failure>(
                Some(n as int),
            ) && 0 <= n <= high,
            Ok(None) => number_option(merged@, name@, high as int, what@) == Ok::<_, Failure>(
                None::<int>,
            ),
            Err(error) => number_option(merged@, name@, high as int, what@) == Err::<
                Option<int>,
                _,
            >(error@),
        },
{
    match merged.get(name) {
        Some(v) => match parse_integer(v.as_str(), 0, high) {
            Some(n) => Ok(Some(n)),
            None => Err(config_error(joined(what, v.as_str()))),
        },
        None => Ok(None),
    }
}

/// The value of the option `name`.
fn read_text(merged: &StringMap<String>, name: &str) -> (r: Option<String>)
    ensures
        optional_text(r) == option_value(merged@, name@),
{
    match merged.get(name) {
        Some(v) => Some(v.clone()),
        None => None,
    }
}

/// The format that the options ask for.
fn read_format(merged: &StringMap<String>) -> (r: Result<Option<ValueFormat>, ReadError>)
    ensures
        match r {
            Ok(format) => format_option(merged@) == Ok::<_, Failure>(format),
            Err(error) => format_option(merged@) == Err::<Option<ValueFormat>, _>(error@),
        },
{
    match merged.get("value.format") {
        Some(v) => {
            let s: &str = v.as_str();
            if same_text(s, "avro") {
                Ok(Some(ValueFormat::Avro))
            } else if same_text(s, "json") {
                Ok(Some(ValueFormat::Json))
            } else if same_text(s, "raw") {
                Ok(Some(ValueFormat::Raw))
            } else {
                let mut text: String = joined("unsupported value.format: ", s);
                text.append(". Supported: avro, json, raw");
                Err(plan_error(text))
            }
        },
        None => Ok(None),
    }
}

/// The settings that go to Kafka.
fn read_kafka_settings(merged: &StringMap<String>) -> (r: StringMap<String>)
    ensures
        r@ == kafka_settings(merged@),
{
    let mut r: StringMap<String> = StringMap::new();
    let n: usize = merged.len();
    let ghost all = merged.pairs();
    let ghost prefix = "kafka."@;
    let ghost servers = "kafka.bootstrap.servers"@;
    proof {
        reveal_strlit("kafka.");
        lemma_pairs_map(all);
    }
    let mut i: usize = 0;
    while i < n
        invariant
            i <= n,
            n == all.len(),
            all == merged.pairs(),
            prefix == "kafka."@,
            prefix.len() == 6,
            servers == "kafka.bootstrap.servers"@,
            distinct_keys(all),
            forall|k: Seq<char>| #[trigger]
                r@.contains_key(k) ==> exists|j: int|
                    0 <= j < i && (#[trigger] all[j]).0 == prefix + k && all[j].0 != servers
                        && r@[k] == all[j].1,
            forall|j: int|
                0 <= j < i && prefix.is_prefix_of((#[trigger] all[j]).0) && all[j].0 != servers
                    ==> r@.contains_key(all[j].0.skip(6)) && r@[all[j].0.skip(6)] == all[j].1,
        decreases n - i,
    {
        let key: &str = merged.key_at(i).as_str();
        let ghost before = r@;
        if starts_with(key, "kafka.") && !same_text(key, "kafka.bootstrap.servers") {
            let name: String = suffix_from(key, 6);
            assert(prefix + name@ =~= key@);
            r.insert(name, merged.value_at(i).clone());
            assert forall|k: Seq<char>| #[trigger] r@.contains_key(k) implies exists|j: int|
                0 <= j < i + 1 && (#[trigger] all[j]).0 == prefix + k && all[j].0 != servers && r@[k]
                    == all[j].1 by {
                if k == name@ {
                    assert(all[i as int].0 == prefix + k);
                } else {
                    assert(before.contains_key(k));
                    let j = choose|j: int|
                        0 <= j < i && (#[trigger] all[j]).0 == prefix + k && all[j].0 != servers
                            && before[k] == all[j].1;
                    assert(all[j].0 == prefix + k);
                }
            }
            assert forall|j: int|
                0 <= j < i + 1 && prefix.is_prefix_of((#[trigger] all[j]).0) && all[j].0
                    != servers implies r@.contains_key(all[j].0.skip(6)) && r@[all[j].0.skip(6)]
                == all[j].1 by {
                if j < i {
                    assert(all[j].0 != all[i as int].0);
                    assert(prefix + all[j].0.skip(6) =~= all[j].0);
                    assert(all[j].0.skip(6) != name@);
                }
            }
        }
        i = i + 1;
    }
    let ghost wanted = kafka_settings(merged@);
    proof {
        let rest = merged@.remove(servers);
        assert forall|k: Seq<char>| #[trigger] r@.contains_key(k) <==> wanted.contains_key(k) by {
            if r@.contains_key(k) {
                let j = choose|j: int|
                    0 <= j < n && (#[trigger] all[j]).0 == prefix + k && all[j].0 != servers && r@[k]
                        == all[j].1;
                assert(merged@.contains_key(all[j].0));
            }
            if wanted.contains_key(k) {
                assert(merged@.contains_key(prefix + k));
                let j = key_position(all, prefix + k);
                lemma_key_position(all, prefix + k);
                assert(all[j].0 == prefix + k);
                assert(prefix.is_prefix_of(all[j].0));
                assert(all[j].0.skip(6) =~= k);
            }
        }
        assert forall|k: Seq<char>| r@.contains_key(k) implies #[trigger] r@[k] == wanted[k] by {
            let j = choose|j: int|
                0 <= j < n && (#[trigger] all[j]).0 == prefix + k && all[j].0 != servers && r@[k]
                    == all[j].1;
            assert(merged@.contains_key(all[j].0) && merged@[all[j].0] == all[j].1);
        }
        assert(r@ =~= wanted);
    }
    r
}

/// The numbers of a topic by partition; the error of the first key that denotes none.
fn convert_partitions(parsed: &StringMap<i64>) -> (r: Result<HashMap<i32, i64>, ReadError>)
    ensures
        match r {
            Ok(read) => partitions_read(parsed@, read@),
            Err(error) => exists|p: Seq<char>| #[trigger]
                parsed@.contains_key(p) && partition_number(p) is None && error@
                    == config_failure("invalid partition number: "@ + p),
        },
{
    broadcast use vstd::std_specs::hash::group_hash_axioms;

    let n: usize = parsed.len();
    let ghost all = parsed.pairs();
    proof {
        lemma_pairs_map(all);
    }
    let mut read: HashMap<i32, i64> = HashMap::new();
    let mut i: usize = 0;
    while i < n
        invariant
            i <= n,
            n == all.len(),
            all == parsed.pairs(),
            forall|j: int|
                0 <= j < all.len() ==> parsed@.contains_key((#[trigger] all[j]).0)
                    && parsed@[all[j].0] == all[j].1,
            forall|j: int|
                0 <= j < i ==> partition_number((#[trigger] all[j]).0) is Some
                    && read@.contains_key(partition_number(all[j].0)->0 as i32),
            forall|k: i32| #[trigger]
                read@.contains_key(k) ==> exists|j: int|
                    0 <= j < i && partition_number((#[trigger] all[j]).0) == Some(k as int)
                        && all[j].1 == read@[k],
        decreases n - i,
    {
        let key: &str = parsed.key_at(i).as_str();
        match parse_integer(key, -0x8000_0000, 0x7fff_ffff) {
            Some(p) => {
                let ghost before = read@;
                let partition: i32 = p as i32;
                read.insert(partition, *parsed.value_at(i));
                assert(read@ == before.insert(partition, all[i as int].1));
                assert forall|k: i32| #[trigger] read@.contains_key(k) implies exists|j: int|
                    0 <= j < i + 1 && partition_number((#[trigger] all[j]).0) == Some(k as int)
                        && all[j].1 == read@[k] by {
                    if k == partition {
                        assert(partition_number(all[i as int].0) == Some(k as int));
                    } else {
                        assert(before.contains_key(k));
                        let j = choose|j: int|
                            0 <= j < i && partition_number((#[trigger] all[j]).0) == Some(k as int)
                                && all[j].1 == before[k];
                        assert(all[j].1 == read@[k]);
                    }
                }
            },
            None => {
                assert(parsed@.contains_key(all[i as int].0));
                return Err(config_error(joined("invalid partition number: ", key)));
            },
        }
        i = i + 1;
    }
    proof {
        assert forall|p: Seq<char>| #[trigger] parsed@.contains_key(p) implies partition_number(
            p,
        ) is Some && read@.contains_key(partition_number(p)->0 as i32) by {
            let j = key_position(all, p);
            lemma_key_position(all, p);
            assert(all[j].0 == p);
        }
        assert forall|k: i32| #[trigger] read@.contains_key(k) implies exists|p: Seq<char>|
            #[trigger]
            parsed@.contains_key(p) && partition_number(p) == Some(k as int) && parsed@[p]
                == read@[k] by {
            let j = choose|j: int|
                0 <= j < n && partition_number((#[trigger] all[j]).0) == Some(k as int) && all[j].1
                    == read@[k];
            assert(parsed@.contains_key(all[j].0));
        }
    }
    Ok(read)
}

impl KafkaReadOptions {
    /// The options that `options` give, the names without regard to case.
    pub fn from_options(options: &[StringMap<String>]) -> (r: Result<KafkaReadOptions, ReadError>)
        ensures
            names_lowered(options@),
            ascii_names_lowered(options@),
            match r {
                Ok(read) => options_outcome(merged_options(options@), Ok(read@)),
                Err(error) => options_outcome(merged_options(options@), Err(error@)),
            },
    {
        let merged: StringMap<String> = Self::merge_options_case_insensitive(options);
        let ghost m = merged@;
        let bootstrap_servers: String = match merged.get("kafka.bootstrap.servers") {
            Some(servers) => servers.clone(),
            None => {
                return Err(config_error("kafka.bootstrap.servers is required".to_owned()));
            },
        };
        if let Err(error) = Self::validate_blocked_configs(&merged) {
            return Err(error);
        }
        let topic_selection: TopicSelection = match Self::parse_topic_selection(&merged) {
            Ok(topics) => topics,
            Err(error) => {
                return Err(error);
            },
        };
        let starting_offsets: OffsetSpec = match Self::resolve_starting_offsets(&merged) {
            Ok(start) => start,
            Err(error) => {
                assert(starting_outcome(m, Err(error@)));
                return Err(error);
            },
        };
        assert(starting_outcome(m, Ok(starting_offsets@)));
        let ending_offsets: OffsetSpec = match Self::resolve_ending_offsets(&merged) {
            Ok(end) => end,
            Err(error) => {
                assert(ending_outcome(m, Err(error@)));
                return Err(error);
            },
        };
        assert(ending_outcome(m, Ok(ending_offsets@)));
        let min_partitions: Option<usize> = match read_number(
            &merged,
            "minpartitions",
            usize::MAX as i128,
            "invalid minPartitions value: ",
        ) {
            Ok(Some(n)) => Some(n as usize),
            Ok(None) => None,
            Err(error) => {
                return Err(error);
            },
        };
        let poll_timeout_ms: u64 = match read_number(
            &merged,
            "kafkaconsumer.polltimeoutms",
            u64::MAX as i128,
            "invalid kafkaConsumer.pollTimeoutMs: ",
        ) {
            Ok(Some(n)) => n as u64,
            Ok(None) => 120_000,
            Err(error) => {
                return Err(error);
            },
        };
        let fetch_offset_num_retries: u32 = match read_number(
            &merged,
            "fetchoffset.numretries",
            u32::MAX as i128,
            "invalid fetchOffset.numRetries: ",
        ) {
            Ok(Some(n)) => n as u32,
            Ok(None) => 3,
            Err(error) => {
                return Err(error);
            },
        };
        let fetch_offset_retry_interval_ms: u64 = match read_number(
            &merged,
            "fetchoffset.retryintervalms",
            u64::MAX as i128,
            "invalid fetchOffset.retryIntervalMs: ",
        ) {
            Ok(Some(n)) => n as u64,
            Ok(None) => 1000,
            Err(error) => {
                return Err(error);
            },
        };
        let value_format: Option<ValueFormat> = match read_format(&merged) {
            Ok(format) => format,
            Err(error) => {
                return Err(error);
            },
        };
        let group_id_prefix: String = match read_text(&merged, "groupidprefix") {
            Some(prefix) => prefix,
            None => "spark-kafka-relation".to_owned(),
        };
        Ok(
            KafkaReadOptions {
                bootstrap_servers,
                topic_selection,
                starting_offsets,
                ending_offsets,
                fail_on_data_loss: read_flag(&merged, "failondataloss", true),
                include_headers: read_flag(&merged, "includeheaders", false),
                min_partitions,
                group_id_prefix,
                poll_timeout_ms,
                fetch_offset_num_retries,
                fetch_offset_retry_interval_ms,
                value_format,
                schema_registry_url: read_text(&merged, "schema.registry.url"),
                value_schema_subject: read_text(&merged, "value.schema.subject"),
                kafka_properties: read_kafka_settings(&merged),
            },
        )
    }

    /// All options in one map, the names in lower case; of two with the same name the later
    /// counts.
    pub fn merge_options_case_insensitive(options: &[StringMap<String>]) -> (r: StringMap<String>)
        ensures
            r@ == merged_options(options@),
            names_lowered(options@),
            ascii_names_lowered(options@),
    {
        let mut merged: StringMap<String> = StringMap::new();
        let mut i: usize = 0;
        assert(options@.take(0) =~= Seq::<StringMap<String>>::empty());
        while i < options.len()
            invariant
                i <= options@.len(),
                merged@ == merged_options(options@.take(i as int)),
                forall|a: int, k: Seq<char>|
                    0 <= a < i && #[trigger] options@[a]@.contains_key(k) ==> ascii_case_ignored(k)
                        && (ascii_only(k) ==> lowercase(k) == ascii_lowercase(k)),
            decreases options@.len() - i,
        {
            let map: &StringMap<String> = &options[i];
            let n: usize = map.len();
            let ghost before = merged_pairs(options@.take(i as int));
            let ghost lower = |p: (Seq<char>, Seq<char>)| (lowercase(p.0), p.1);
            let ghost added = map.pairs().map_values(lower);
            let mut j: usize = 0;
            assert(before + added.take(0) =~= before);
            while j < n
                invariant
                    j <= n,
                    n == map.pairs().len(),
                    lower == (|p: (Seq<char>, Seq<char>)| (lowercase(p.0), p.1)),
                    added == map.pairs().map_values(lower),
                    merged@ == pairs_map(before + added.take(j as int)),
                    forall|q: int|
                        0 <= q < j ==> ascii_case_ignored((#[trigger] map.pairs()[q]).0) && (
                        ascii_only(map.pairs()[q].0) ==> lowercase(map.pairs()[q].0)
                            == ascii_lowercase(map.pairs()[q].0)),
                decreases n - j,
            {
                merged.insert(to_lowercase(map.key_at(j).as_str()), map.value_at(j).clone());
                let ghost longer = before + added.take(j + 1);
                assert(longer.drop_last() =~= before + added.take(j as int));
                assert(longer.last() == added[j as int]);
                j = j + 1;
            }
            assert(added.take(n as int) =~= added);
            assert forall|k: Seq<char>| #[trigger] map@.contains_key(k) implies ascii_case_ignored(
                k,
            ) && (ascii_only(k) ==> lowercase(k) == ascii_lowercase(k)) by {
                lemma_pairs_map(map.pairs());
                lemma_key_position(map.pairs(), k);
                assert(map.pairs()[key_position(map.pairs(), k)].0 == k);
            }
            assert(options@.take(i + 1).drop_last() =~= options@.take(i as int));
            assert(options@.take(i + 1).last() == *map);
            i = i + 1;
        }
        assert(options@.take(options@.len() as int) =~= options@);
        merged
    }

    /// Refuses the Kafka settings that a caller may not make.
    fn validate_blocked_configs(merged: &StringMap<String>) -> (r: Result<(), ReadError>)
        ensures
            match r {
                Ok(_) => blocked_setting(merged@) is None,
                Err(error) => blocked_setting(merged@) == Some(error@),
            },
    {
        if merged.contains_key("kafka.auto.offset.reset") {
            return Err(
                blocked_error(
                    "auto.offset.reset",
                    "Set startingOffsets/endingOffsets to control offsets.",
                ),
            );
        }
        if merged.contains_key("kafka.key.deserializer") {
            return Err(
                blocked_error(
                    "key.deserializer",
                    "Keys are deserialized as byte arrays with ByteArrayDeserializer.",
                ),
            );
        }
        if merged.contains_key("kafka.value.deserializer") {
            return Err(
                blocked_error(
                    "value.deserializer",
                    "Values are deserialized as byte arrays with ByteArrayDeserializer.",
                ),
            );
        }
        if merged.contains_key("kafka.enable.auto.commit") {
            return Err(
                blocked_error("enable.auto.commit", "Offsets are not committed in batch mode."),
            );
        }
        if merged.contains_key("kafka.interceptor.classes") {
            return Err(blocked_error("interceptor.classes", "Interceptors are not supported."));
        }
        Ok(())
    }

    /// The topics that the options select.
    fn parse_topic_selection(merged: &StringMap<String>) -> (r: Result<TopicSelection, ReadError>)
        ensures
            match r {
                Ok(topics) => selected_topics(merged@) == Ok::<_, Failure>(topics@),
                Err(error) => selected_topics(merged@) == Err::<SelectionTree, _>(error@),
            },
    {
        match (merged.get("subscribe"), merged.get("subscribepattern"), merged.get("assign")) {
            (None, None, None) => Err(
                plan_error(
                    "one of 'subscribe', 'subscribePattern', or 'assign' is required".to_owned(),
                ),
            ),
            (Some(list), None, None) => {
                let parts: Vec<String> = split(list.as_str(), ',');
                let mut topics: Vec<String> = Vec::new();
                let ghost wanted = pieces(list@, ',').map_values(|t: Seq<char>| trimmed(t));
                let mut i: usize = 0;
                while i < parts.len()
                    invariant
                        i <= parts.len(),
                        texts(parts@) == pieces(list@, ','),
                        wanted == pieces(list@, ',').map_values(|t: Seq<char>| trimmed(t)),
                        wanted.len() == parts@.len(),
                        topics@.len() == i,
                        forall|j: int| 0 <= j < i ==> (#[trigger] topics@[j])@ == wanted[j],
                    decreases parts.len() - i,
                {
                    assert(texts(parts@)[i as int] == parts@[i as int]@);
                    topics.push(trim(parts[i].as_str()));
                    i = i + 1;
                }
                assert(texts(topics@) =~= wanted);
                Ok(TopicSelection::Subscribe(topics))
            },
            (None, Some(pattern), None) => Ok(TopicSelection::SubscribePattern(pattern.clone())),
            (None, None, Some(assign)) => match parse_assignment(assign.as_str()) {
                Ok(map) => Ok(TopicSelection::Assign(map)),
                Err(error) => Err(
                    config_error(joined("invalid 'assign' JSON: ", error.as_str())),
                ),
            },
            _ => Err(
                plan_error(
                    "'subscribe', 'subscribePattern', and 'assign' are mutually exclusive".to_owned(),
                ),
            ),
        }
    }

    /// Where the read starts.
    fn resolve_starting_offsets(merged: &StringMap<String>) -> (r: Result<OffsetSpec, ReadError>)
        ensures
            match r {
                Ok(start) => starting_outcome(merged@, Ok(start@)),
                Err(error) => starting_outcome(merged@, Err(error@)),
            },
    {
        if let Some(text) = merged.get("startingtimestamp") {
            return Self::parse_timestamp(text, "invalid startingTimestamp: ");
        }
        if let Some(text) = merged.get("startingoffsetsbytimestamp") {
            return match Self::parse_partition_map(
                text,
                "invalid startingOffsetsByTimestamp JSON: ",
            ) {
                Ok(map) => Ok(OffsetSpec::ByTimestamp(map)),
                Err(error) => Err(error),
            };
        }
        Self::parse_offsets(merged.get("startingoffsets"), true)
    }

    /// Where the read ends.
    fn resolve_ending_offsets(merged: &StringMap<String>) -> (r: Result<OffsetSpec, ReadError>)
        ensures
            match r {
                Ok(end) => ending_outcome(merged@, Ok(end@)),
                Err(error) => ending_outcome(merged@, Err(error@)),
            },
    {
        if let Some(text) = merged.get("endingtimestamp") {
            return Self::parse_timestamp(text, "invalid endingTimestamp: ");
        }
        if let Some(text) = merged.get("endingoffsetsbytimestamp") {
            return match Self::parse_partition_map(
                text,
                "invalid endingOffsetsByTimestamp JSON: ",
            ) {
                Ok(map) => Ok(OffsetSpec::ByTimestamp(map)),
                Err(error) => Err(error),
            };
        }
        Self::parse_offsets(merged.get("endingoffsets"), false)
    }

    fn parse_timestamp(text: &String, what: &str) -> (r: Result<OffsetSpec, ReadError>)
        ensures
            match r {
                Ok(spec) => timestamp_option(text@, what@) == Ok::<_, Failure>(spec@),
                Err(error) => timestamp_option(text@, what@) == Err::<OffsetTree, _>(error@),
            },
    {
        match parse_integer(text.as_str(), i64::MIN as i128, i64::MAX as i128) {
            Some(ms) => Ok(OffsetSpec::GlobalTimestamp(ms as i64)),
            None => Err(config_error(joined(what, text.as_str()))),
        }
    }

    fn parse_partition_map(text: &String, what: &str) -> (r: Result<
        StringMap<HashMap<i32, i64>>,
        ReadError,
    >)
        ensures
            match r {
                Ok(map) => offset_map_outcome(text@, what@, Ok(map@)),
                Err(error) => offset_map_outcome(text@, what@, Err(error@)),
            },
    {
        match parse_offset_map(text.as_str()) {
            Ok(parsed) => Self::convert_partition_map(parsed),
            Err(error) => Err(config_error(joined(what, error.as_str()))),
        }
    }

    /// Reads the keys of the inner maps as partitions.
    pub fn convert_partition_map(parsed: StringMap<StringMap<i64>>) -> (r: Result<
        StringMap<HashMap<i32, i64>>,
        ReadError,
    >)
        ensures
            match r {
                Ok(map) => partition_map_outcome(parsed@, Ok(map@)),
                Err(error) => partition_map_outcome(parsed@, Err(error@)),
            },
    {
        let n: usize = parsed.len();
        let ghost all = parsed.pairs();
        proof {
            lemma_pairs_map(all);
        }
        let mut out: StringMap<HashMap<i32, i64>> = StringMap::new();
        let mut i: usize = 0;
        while i < n
            invariant
                i <= n,
                n == all.len(),
                all == parsed.pairs(),
                distinct_keys(all),
                forall|j: int|
                    0 <= j < all.len() ==> parsed@.contains_key((#[trigger] all[j]).0)
                        && parsed@[all[j].0] == all[j].1,
                forall|t: Seq<char>| #[trigger]
                    out@.contains_key(t) ==> parsed@.contains_key(t),
                forall|j: int|
                    0 <= j < i ==> out@.contains_key((#[trigger] all[j]).0) && partitions_read(
                        all[j].1,
                        out@[all[j].0],
                    ),
            decreases n - i,
        {
            match convert_partitions(parsed.value_at(i)) {
                Ok(read) => {
                    assert(parsed@.contains_key(all[i as int].0));
                    out.insert(parsed.key_at(i).clone(), read);
                    assert forall|j: int| 0 <= j < i + 1 implies out@.contains_key(
                        (#[trigger] all[j]).0,
                    ) && partitions_read(all[j].1, out@[all[j].0]) by {
                        if j < i {
                            assert(all[j].0 != all[i as int].0);
                        }
                    }
                },
                Err(error) => {
                    proof {
                        let t = all[i as int].0;
                        assert(parsed@.contains_key(t));
                        let p = choose|p: Seq<char>| #[trigger]
                            all[i as int].1.contains_key(p) && partition_number(p) is None
                                && error@ == config_failure("invalid partition number: "@ + p);
                        assert(parsed@[t].contains_key(p));
                    }
                    return Err(error);
                },
            }
            i = i + 1;
        }
        proof {
            assert forall|t: Seq<char>| #[trigger] parsed@.contains_key(t) implies out@.contains_key(
                t,
            ) && partitions_read(parsed@[t], out@[t]) by {
                let j = key_position(all, t);
                lemma_key_position(all, t);
                assert(all[j].0 == t);
            }
            assert(out@.dom() =~= parsed@.dom());
        }
        Ok(out)
    }

    fn parse_offsets(value: Option<&String>, is_starting: bool) -> (r: Result<
        OffsetSpec,
        ReadError,
    >)
        ensures
            ({
                let text = match value {
                    Some(v) => Some(v@),
                    None => None,
                };
                match r {
                    Ok(spec) => plain_offsets_outcome(text, is_starting, Ok(spec@)),
                    Err(error) => plain_offsets_outcome(text, is_starting, Err(error@)),
                }
            }),
    {
        match value {
            None => {
                if is_starting {
                    Ok(OffsetSpec::Earliest)
                } else {
                    Ok(OffsetSpec::Latest)
                }
            },
            Some(v) => {
                if eq_ignore_ascii_case(v.as_str(), "earliest") {
                    if is_starting {
                        Ok(OffsetSpec::Earliest)
                    } else {
                        Err(
                            plan_error(
                                "'earliest' is not allowed for endingOffsets in batch mode".to_owned(),
                            ),
                        )
                    }
                } else if eq_ignore_ascii_case(v.as_str(), "latest") {
                    if is_starting {
                        Err(
                            plan_error(
                                "'latest' is not allowed for startingOffsets in batch mode".to_owned(),
                            ),
                        )
                    } else {
                        Ok(OffsetSpec::Latest)
                    }
                } else {
                    match Self::parse_partition_map(v, "invalid offsets JSON: ") {
                        Ok(map) => Ok(OffsetSpec::PerPartition(map)),
                        Err(error) => Err(error),
                    }
                }
            },
        }
    }
}

/// The configuration of a Kafka client.
#[verifier::external_type_specification]
#[verifier::external_body]
pub struct ExClientConfig(rdkafka::ClientConfig);

/// Settings by name.
pub type Settings = Map<Seq<char>, Seq<char>>;

/// The settings that a client configuration holds.
pub uninterp spec fn settings_of(config: rdkafka::ClientConfig) -> Map<Seq<char>, Seq<char>>;

/// Calls `ClientConfig::new`. Claimed: the configuration holds no setting.
#[verifier::external_body]
fn new_config() -> (r: rdkafka::ClientConfig)
    ensures
        settings_of(r) == Settings::empty(),
{
    rdkafka::ClientConfig::new()
}

/// Calls `ClientConfig::set`. Claimed: the setting has the value afterwards, whatever it had
/// before, and the other settings stay.
#[verifier::external_body]
fn set_config(config: &mut rdkafka::ClientConfig, key: &str, value: &str)
    ensures
        settings_of(*final(config)) == settings_of(*old(config)).insert(key@, value@),
{
    config.set(key, value);
}

/// A moment of the system's clock.
#[verifier::external_type_specification]
#[verifier::external_body]
pub struct ExSystemTime(std::time::SystemTime);

/// The error of a moment that lies before another.
#[verifier::external_type_specification]
#[verifier::external_body]
pub struct ExSystemTimeError(std::time::SystemTimeError);

/// Calls `SystemTime::now`. Nothing is claimed of the moment.
#[verifier::external_body]
fn system_time() -> (r: std::time::SystemTime) {
    std::time::SystemTime::now()
}

/// Calls `SystemTime::duration_since` with the epoch. Nothing is claimed of the time between.
#[verifier::external_body]
fn since_epoch(time: &std::time::SystemTime) -> (r: Result<
    std::time::Duration,
    std::time::SystemTimeError,
>) {
    time.duration_since(std::time::SystemTime::UNIX_EPOCH)
}

/// Calls `Duration::as_nanos`. Nothing is claimed of the number.
#[verifier::external_body]
fn nanoseconds(duration: &std::time::Duration) -> (r: u128) {
    duration.as_nanos()
}

/// The identifier made of the number `n`: its digits in base sixteen.
pub open spec fn identifier(n: u128) -> Seq<char> {
    hex_digits(n as nat, 32)
}

/// The identifier made of the number `n`.
pub fn identifier_of(n: u128) -> (r: String)
    ensures
        r@ == identifier(n),
{
    hex_text(n, 32)
}

/// An identifier made of the present time in nanoseconds.
pub fn uuid_v4() -> (r: String)
    ensures
        exists|n: u128| r@ == #[trigger] identifier(n),
{
    let n: u128 = match since_epoch(&system_time()) {
        Ok(duration) => nanoseconds(&duration),
        Err(_) => 0,
    };
    identifier_of(n)
}

/// The settings of a client that reads with `options` in the group `group`: those that every
/// client has, and over them those that the options give.
pub open spec fn client_settings(options: OptionsTree, group: Seq<char>) -> Settings {
    map![
        "bootstrap.servers"@ => options.bootstrap_servers,
        "enable.auto.commit"@ => "false"@,
        "key.deserializer"@ => "org.apache.kafka.common.serialization.ByteArrayDeserializer"@,
        "value.deserializer"@ => "org.apache.kafka.common.serialization.ByteArrayDeserializer"@,
        "group.id"@ => group,
    ].union_prefer_right(options.kafka_properties)
}

/// The group of a client: the prefix of the options, then the identifier.
pub open spec fn group_id(options: OptionsTree, id: Seq<char>) -> Seq<char> {
    options.group_id_prefix + "-"@ + id
}

impl KafkaReadOptions {
    /// The configuration of a client that reads with these options in the group with the
    /// identifier `id`.
    pub fn client_config_for(&self, id: &str) -> (r: rdkafka::ClientConfig)
        ensures
            settings_of(r) == client_settings(self@, group_id(self@, id@)),
    {
        let mut group: String = joined(self.group_id_prefix.as_str(), "-");
        group.append(id);
        let mut config: rdkafka::ClientConfig = new_config();
        set_config(&mut config, "bootstrap.servers", self.bootstrap_servers.as_str());
        set_config(&mut config, "enable.auto.commit", "false");
        set_config(
            &mut config,
            "key.deserializer",
            "org.apache.kafka.common.serialization.ByteArrayDeserializer",
        );
        set_config(
            &mut config,
            "value.deserializer",
            "org.apache.kafka.common.serialization.ByteArrayDeserializer",
        );
        set_config(&mut config, "group.id", group.as_str());
        let ghost base = settings_of(config);
        let n: usize = self.kafka_properties.len();
        let ghost all = self.kafka_properties.pairs();
        let mut i: usize = 0;
        assert(pairs_map(all.take(0)) =~= Map::<Seq<char>, Seq<char>>::empty());
        assert(base.union_prefer_right(pairs_map(all.take(0))) =~= base);
        while i < n
            invariant
                i <= n,
                n == all.len(),
                all == self.kafka_properties.pairs(),
                settings_of(config) == base.union_prefer_right(pairs_map(all.take(i as int))),
            decreases n - i,
        {
            let key: &str = self.kafka_properties.key_at(i).as_str();
            set_config(&mut config, key, self.kafka_properties.value_at(i).as_str());
            assert(all.take(i + 1).drop_last() =~= all.take(i as int));
            assert(all.take(i + 1).last() == all[i as int]);
            assert(settings_of(config) =~= base.union_prefer_right(
                pairs_map(all.take(i + 1)),
            ));
            i = i + 1;
        }
        assert(all.take(n as int) =~= all);
        config
    }

    /// The configuration of a client that reads with these options, in a group of its own.
    pub fn to_client_config(&self) -> (r: rdkafka::ClientConfig)
        ensures
            exists|n: u128|
                settings_of(r) == client_settings(
                    self@,
                    group_id(self@, #[trigger] identifier(n)),
                ),
    {
        let id: String = uuid_v4();
        self.client_config_for(id.as_str())
    }
}

/// Whether no two keys of a topic spell the same partition.
pub open spec fn spelled_once(parsed: Map<Seq<char>, Map<Seq<char>, i64>>) -> bool {
    forall|t: Seq<char>, p: Seq<char>, q: Seq<char>|
        parsed.contains_key(t) && #[trigger] parsed[t].contains_key(p)
            && #[trigger] parsed[t].contains_key(q) && partition_number(p) is Some
            && partition_number(p) == partition_number(q) ==> p == q
}

/// Whether no two keys of a topic spell the same partition in an option, where it is given.
pub open spec fn option_spelled_once(m: MergedOptions, name: Seq<char>) -> bool {
    m.contains_key(name) && offsets_of_text(m[name]) is Ok ==> spelled_once(
        offsets_of_text(m[name])->Ok_0,
    )
}

/// Whether no two keys of a topic spell the same partition in any option.
pub open spec fn all_spelled_once(m: MergedOptions) -> bool {
    &&& option_spelled_once(m, "startingoffsets"@)
    &&& option_spelled_once(m, "startingoffsetsbytimestamp"@)
    &&& option_spelled_once(m, "endingoffsets"@)
    &&& option_spelled_once(m, "endingoffsetsbytimestamp"@)
}

/// Whether two outcomes are alike: one is a success exactly where the other is, and then they are
/// equal in every field where `once`.
pub open spec fn alike<T>(a: Result<T, Failure>, b: Result<T, Failure>, once: bool) -> bool {
    &&& a is Ok <==> b is Ok
    &&& once && a is Ok ==> a == b
}

proof fn lemma_partitions_alike(
    parsed: Map<Seq<char>, Map<Seq<char>, i64>>,
    topic: Seq<char>,
    a: Map<i32, i64>,
    b: Map<i32, i64>,
)
    requires
        spelled_once(parsed),
        parsed.contains_key(topic),
        partitions_read(parsed[topic], a),
        partitions_read(parsed[topic], b),
    ensures
        a == b,
{
    assert forall|n: i32| #[trigger] a.contains_key(n) implies b.contains_key(n) && a[n] == b[n] by {
        let p = choose|p: Seq<char>| #[trigger]
            parsed[topic].contains_key(p) && partition_number(p) == Some(n as int)
                && parsed[topic][p] == a[n];
        assert(parsed[topic].contains_key(p));
        let q = choose|q: Seq<char>| #[trigger]
            parsed[topic].contains_key(q) && partition_number(q) == Some(n as int)
                && parsed[topic][q] == b[n];
        assert(parsed[topic].contains_key(q));
        assert(p == q);
    }
    assert forall|n: i32| #[trigger] b.contains_key(n) implies a.contains_key(n) by {
        let p = choose|p: Seq<char>| #[trigger]
            parsed[topic].contains_key(p) && partition_number(p) == Some(n as int)
                && parsed[topic][p] == b[n];
        assert(parsed[topic].contains_key(p));
    }
    assert(a =~= b);
}

proof fn lemma_offset_maps_alike(
    text: Seq<char>,
    what: Seq<char>,
    a: Result<Map<Seq<char>, Map<i32, i64>>, Failure>,
    b: Result<Map<Seq<char>, Map<i32, i64>>, Failure>,
)
    requires
        offset_map_outcome(text, what, a),
        offset_map_outcome(text, what, b),
    ensures
        alike(a, b, offsets_of_text(text) is Ok ==> spelled_once(offsets_of_text(text)->Ok_0)),
{
    if offsets_of_text(text) is Ok {
        let parsed = offsets_of_text(text)->Ok_0;
        if a is Ok && b is Err || a is Err && b is Ok {
            let (t, p) = choose|t: Seq<char>, p: Seq<char>|
                parsed.contains_key(t) && #[trigger] parsed[t].contains_key(p) && partition_number(
                    p,
                ) is None;
            assert(parsed.contains_key(t));
            assert(parsed[t].contains_key(p));
        }
        if a is Ok && b is Ok && spelled_once(parsed) {
            let (x, y) = (a->Ok_0, b->Ok_0);
            assert forall|t: Seq<char>| #[trigger] x.contains_key(t) implies x[t] == y[t] by {
                assert(parsed.contains_key(t));
                lemma_partitions_alike(parsed, t, x[t], y[t]);
            }
            assert(x =~= y);
        }
    }
}

proof fn lemma_starts_alike(
    m: MergedOptions,
    a: Result<OffsetTree, Failure>,
    b: Result<OffsetTree, Failure>,
)
    requires
        starting_outcome(m, a),
        starting_outcome(m, b),
    ensures
        alike(a, b, all_spelled_once(m)),
{
    if m.contains_key("startingtimestamp"@) {
    } else if m.contains_key("startingoffsetsbytimestamp"@) {
        lemma_by_timestamp_alike(
            m["startingoffsetsbytimestamp"@],
            "invalid startingOffsetsByTimestamp JSON: "@,
            a,
            b,
        );
    } else {
        lemma_plain_alike(option_value(m, "startingoffsets"@), true, a, b);
    }
}

proof fn lemma_ends_alike(
    m: MergedOptions,
    a: Result<OffsetTree, Failure>,
    b: Result<OffsetTree, Failure>,
)
    requires
        ending_outcome(m, a),
        ending_outcome(m, b),
    ensures
        alike(a, b, all_spelled_once(m)),
{
    if m.contains_key("endingtimestamp"@) {
    } else if m.contains_key("endingoffsetsbytimestamp"@) {
        lemma_by_timestamp_alike(
            m["endingoffsetsbytimestamp"@],
            "invalid endingOffsetsByTimestamp JSON: "@,
            a,
            b,
        );
    } else {
        lemma_plain_alike(option_value(m, "endingoffsets"@), false, a, b);
    }
}

/// What an outcome says of the numbers by topic and partition.
spec fn numbers_in(outcome: Result<OffsetTree, Failure>) -> Result<
    Map<Seq<char>, Map<i32, i64>>,
    Failure,
> {
    match outcome {
        Ok(OffsetTree::ByTimestamp(map)) => Ok(map),
        Ok(OffsetTree::PerPartition(map)) => Ok(map),
        Ok(_) => Ok(Map::empty()),
        Err(failure) => Err(failure),
    }
}

proof fn lemma_by_timestamp_alike(
    text: Seq<char>,
    what: Seq<char>,
    a: Result<OffsetTree, Failure>,
    b: Result<OffsetTree, Failure>,
)
    requires
        by_timestamp_outcome(text, what, a),
        by_timestamp_outcome(text, what, b),
    ensures
        alike(a, b, offsets_of_text(text) is Ok ==> spelled_once(offsets_of_text(text)->Ok_0)),
{
    lemma_offset_maps_alike(text, what, numbers_in(a), numbers_in(b));
}

proof fn lemma_plain_alike(
    value: Option<Seq<char>>,
    is_starting: bool,
    a: Result<OffsetTree, Failure>,
    b: Result<OffsetTree, Failure>,
)
    requires
        plain_offsets_outcome(value, is_starting, a),
        plain_offsets_outcome(value, is_starting, b),
    ensures
        alike(
            a,
            b,
            value is Some && offsets_of_text(value->0) is Ok ==> spelled_once(
                offsets_of_text(value->0)->Ok_0,
            ),
        ),
{
    match value {
        Some(text) => {
            if ascii_lowercase(text) != ascii_lowercase("earliest"@) && ascii_lowercase(text)
                != ascii_lowercase("latest"@) {
                lemma_offset_maps_alike(
                    text,
                    "invalid offsets JSON: "@,
                    numbers_in(a),
                    numbers_in(b),
                );
            }
        },
        None => {},
    }
}

/// The same options are read alike every time: a success comes every time or never, and then it is
/// the same in every field, where no two keys of a topic spell the same partition.
pub proof fn law_options_are_read_alike(
    m: MergedOptions,
    a: Result<OptionsTree, Failure>,
    b: Result<OptionsTree, Failure>,
)
    requires
        options_outcome(m, a),
        options_outcome(m, b),
    ensures
        alike(a, b, all_spelled_once(m)),
{
    if m.contains_key("kafka.bootstrap.servers"@) && blocked_setting(m) is None
        && selected_topics(m) is Ok {
        let topics = selected_topics(m)->Ok_0;
        let (start, end) = choose_ends(m, topics, a);
        let (other_start, other_end) = choose_ends(m, topics, b);
        lemma_starts_alike(m, start, other_start);
        if start is Ok {
            lemma_ends_alike(m, end, other_end);
        }
    }
}

/// The start and the end that an outcome comes of.
proof fn choose_ends(
    m: MergedOptions,
    topics: SelectionTree,
    outcome: Result<OptionsTree, Failure>,
) -> (r: (Result<OffsetTree, Failure>, Result<OffsetTree, Failure>))
    requires
        m.contains_key("kafka.bootstrap.servers"@),
        blocked_setting(m) is None,
        selected_topics(m) == Ok::<_, Failure>(topics),
        options_outcome(m, outcome),
    ensures
        starting_outcome(m, r.0),
        match r.0 {
            Err(failure) => outcome == Err::<OptionsTree, Failure>(failure),
            Ok(start) => ending_outcome(m, r.1) && match r.1 {
                Err(failure) => outcome == Err::<OptionsTree, Failure>(failure),
                Ok(end) => outcome == assembled(m, topics, start, end),
            },
        },
{
    let start = choose|start: Result<OffsetTree, Failure>| #[trigger]
        starting_outcome(m, start) && match start {
            Err(failure) => outcome == Err::<OptionsTree, Failure>(failure),
            Ok(start) => exists|end: Result<OffsetTree, Failure>| #[trigger]
                ending_outcome(m, end) && match end {
                    Err(failure) => outcome == Err::<OptionsTree, Failure>(failure),
                    Ok(end) => outcome == assembled(m, topics, start, end),
                },
        };
    if start is Ok {
        let end = choose|end: Result<OffsetTree, Failure>| #[trigger]
            ending_outcome(m, end) && match end {
                Err(failure) => outcome == Err::<OptionsTree, Failure>(failure),
                Ok(end) => outcome == assembled(m, topics, start->Ok_0, end),
            };
        (start, end)
    } else {
        (start, start)
    }
}

/// Whether no two names in `m` are alike in lower case.
pub open spec fn names_apart(m: Map<Seq<char>, Seq<char>>) -> bool {
    forall|j: Seq<char>, k: Seq<char>|
        #![trigger lowercase(j), lowercase(k)]
        m.contains_key(j) && m.contains_key(k) && lowercase(j) == lowercase(k) ==> j == k
}

/// Whether no other name in `m` is alike `k` in lower case.
pub open spec fn name_apart(m: Map<Seq<char>, Seq<char>>, k: Seq<char>) -> bool {
    forall|j: Seq<char>| #[trigger]
        m.contains_key(j) && lowercase(j) == lowercase(k) ==> j == k
}

/// Whether `b` has every value of `a`, under a name that is alike in lower case.
pub open spec fn has_alike(a: Map<Seq<char>, Seq<char>>, b: Map<Seq<char>, Seq<char>>) -> bool {
    forall|k: Seq<char>| #[trigger]
        a.contains_key(k) ==> exists|j: Seq<char>| #[trigger]
            b.contains_key(j) && lowercase(j) == lowercase(k) && b[j] == a[k]
}

/// A pair whose key is that of no other stands in the map.
proof fn lemma_pairs_map_once(pairs: Seq<(Seq<char>, Seq<char>)>, i: int)
    requires
        0 <= i < pairs.len(),
        forall|j: int| 0 <= j < pairs.len() && j != i ==> (#[trigger] pairs[j]).0 != pairs[i].0,
    ensures
        pairs_map(pairs).contains_key(pairs[i].0),
        pairs_map(pairs)[pairs[i].0] == pairs[i].1,
    decreases pairs.len(),
{
    if i < pairs.len() - 1 {
        let front = pairs.drop_last();
        assert forall|j: int| 0 <= j < front.len() && j != i implies (#[trigger] front[j]).0
            != front[i].0 by {
            assert(front[j] == pairs[j]);
        }
        lemma_pairs_map_once(front, i);
        assert(pairs[pairs.len() - 1].0 != pairs[i].0);
    }
}

/// Every key of the map is that of a pair.
proof fn lemma_pairs_map_keys(pairs: Seq<(Seq<char>, Seq<char>)>, key: Seq<char>)
    requires
        pairs_map(pairs).contains_key(key),
    ensures
        exists|i: int| 0 <= i < pairs.len() && (#[trigger] pairs[i]).0 == key,
    decreases pairs.len(),
{
    if pairs.len() > 0 {
        if pairs.last().0 == key {
            assert(pairs[pairs.len() - 1].0 == key);
        } else {
            lemma_pairs_map_keys(pairs.drop_last(), key);
            let i = choose|i: int|
                0 <= i < pairs.drop_last().len() && (#[trigger] pairs.drop_last()[i]).0 == key;
            assert(pairs[i].0 == key);
        }
    }
}

/// The options of one map hold its values under the names in lower case, where no other name is
/// alike.
proof fn lemma_merged_one(m: StringMap<String>)
    requires
        distinct_keys(m.pairs()),
    ensures
        forall|k: Seq<char>| #[trigger]
            m@.contains_key(k) && name_apart(m@, k) ==> merged_options(seq![m]).contains_key(
                lowercase(k),
            ) && merged_options(seq![m])[lowercase(k)] == m@[k],
        forall|l: Seq<char>| #[trigger]
            merged_options(seq![m]).contains_key(l) ==> exists|k: Seq<char>| #[trigger]
                m@.contains_key(k) && lowercase(k) == l,
{
    let all = m.pairs();
    let low = merged_pairs(seq![m]);
    lemma_merged_pairs_of_one(m);
    lemma_pairs_map(all);
    assert forall|k: Seq<char>| #[trigger] m@.contains_key(k) && name_apart(m@, k) implies
        merged_options(seq![m]).contains_key(lowercase(k)) && merged_options(seq![m])[lowercase(k)]
        == m@[k] by {
        let i = key_position(all, k);
        lemma_key_position(all, k);
        assert(low[i] == (lowercase(k), m@[k]));
        assert forall|j: int| 0 <= j < low.len() && j != i implies (#[trigger] low[j]).0
            != low[i].0 by {
            assert(m@.contains_key(all[j].0));
            assert(all[j].0 != all[i].0);
        }
        lemma_pairs_map_once(low, i);
    }
    assert forall|l: Seq<char>| #[trigger] merged_options(seq![m]).contains_key(l) implies exists|
        k: Seq<char>,
    | #[trigger] m@.contains_key(k) && lowercase(k) == l by {
        lemma_pairs_map_keys(low, l);
        let i = choose|i: int| 0 <= i < low.len() && (#[trigger] low[i]).0 == l;
        assert(m@.contains_key(all[i].0) && lowercase(all[i].0) == l);
    }
}

/// The options of a list are those of all but the last, and over them those of the last.
proof fn lemma_merged_last(options: Seq<StringMap<String>>)
    requires
        options.len() > 0,
    ensures
        merged_options(options) == merged_options(options.drop_last()).union_prefer_right(
            merged_options(seq![options.last()]),
        ),
{
    law_later_options_win(options.drop_last(), options.last());
    assert(options.drop_last().push(options.last()) =~= options);
}

/// Names that differ in case alone are one option, and their order does not count: lists of maps
/// are read alike where each map has the values of the other under names that are alike in lower
/// case, and none has two names that are. Successes come together, and then are the same in every
/// field, where no two keys of a topic spell the same partition.
pub proof fn law_option_names_ignore_case(
    a: Seq<StringMap<String>>,
    b: Seq<StringMap<String>>,
    x: Result<OptionsTree, Failure>,
    y: Result<OptionsTree, Failure>,
)
    requires
        a.len() == b.len(),
        forall|i: int| #![trigger a[i]] 0 <= i < a.len() ==> distinct_keys(a[i].pairs()),
        forall|i: int| #![trigger b[i]] 0 <= i < b.len() ==> distinct_keys(b[i].pairs()),
        forall|i: int|
            #![trigger a[i]]
            #![trigger b[i]]
            0 <= i < a.len() ==> names_apart(a[i]@) && names_apart(b[i]@) && has_alike(
                a[i]@,
                b[i]@,
            ) && has_alike(b[i]@, a[i]@),
        options_outcome(merged_options(a), x),
        options_outcome(merged_options(b), y),
    ensures
        merged_options(a) == merged_options(b),
        alike(x, y, all_spelled_once(merged_options(a))),
{
    lemma_merged_alike(a, b);
    law_options_are_read_alike(merged_options(a), x, y);
}

proof fn lemma_merged_alike(a: Seq<StringMap<String>>, b: Seq<StringMap<String>>)
    requires
        a.len() == b.len(),
        forall|i: int| #![trigger a[i]] 0 <= i < a.len() ==> distinct_keys(a[i].pairs()),
        forall|i: int| #![trigger b[i]] 0 <= i < b.len() ==> distinct_keys(b[i].pairs()),
        forall|i: int|
            #![trigger a[i]]
            #![trigger b[i]]
            0 <= i < a.len() ==> names_apart(a[i]@) && names_apart(b[i]@) && has_alike(
                a[i]@,
                b[i]@,
            ) && has_alike(b[i]@, a[i]@),
    ensures
        merged_options(a) == merged_options(b),
    decreases a.len(),
{
    if a.len() > 0 {
        let n = a.len() - 1;
        assert forall|i: int| 0 <= i < n implies a.drop_last()[i] == a[i] && b.drop_last()[i]
            == b[i] by {}
        lemma_merged_alike(a.drop_last(), b.drop_last());
        lemma_merged_last(a);
        lemma_merged_last(b);
        let x = a[n];
        let y = b[n];
        lemma_merged_one(x);
        lemma_merged_one(y);
        assert forall|k: Seq<char>| #[trigger] x@.contains_key(k) implies name_apart(x@, k) by {}
        assert forall|k: Seq<char>| #[trigger] y@.contains_key(k) implies name_apart(y@, k) by {}
        let p = merged_options(seq![x]);
        let q = merged_options(seq![y]);
        assert forall|l: Seq<char>| #[trigger] p.contains_key(l) implies q.contains_key(l) && p[l]
            == q[l] by {
            let k = choose|k: Seq<char>| #[trigger] x@.contains_key(k) && lowercase(k) == l;
            let j = choose|j: Seq<char>| #[trigger]
                y@.contains_key(j) && lowercase(j) == lowercase(k) && y@[j] == x@[k];
            assert(y@.contains_key(j));
        }
        assert forall|l: Seq<char>| #[trigger] q.contains_key(l) implies p.contains_key(l) by {
            let k = choose|k: Seq<char>| #[trigger] y@.contains_key(k) && lowercase(k) == l;
            let j = choose|j: Seq<char>| #[trigger]
                x@.contains_key(j) && lowercase(j) == lowercase(k) && x@[j] == y@[k];
            assert(x@.contains_key(j));
        }
        assert(p =~= q);
    } else {
        assert(a =~= b);
    }
}

/// The case of ASCII letters in names does not count: two maps are read alike where each has the
/// values of the other under names that differ in the case of ASCII letters alone, and neither has
/// two names that are alike in lower case. Successes come together, and then are the same in every
/// field, where no two keys of a topic spell the same partition.
pub proof fn law_ascii_case_is_ignored(
    a: StringMap<String>,
    b: StringMap<String>,
    x: Result<OptionsTree, Failure>,
    y: Result<OptionsTree, Failure>,
)
    requires
        distinct_keys(a.pairs()),
        distinct_keys(b.pairs()),
        names_lowered(seq![a]),
        names_apart(a@),
        names_apart(b@),
        forall|k: Seq<char>| #[trigger]
            a@.contains_key(k) ==> exists|j: Seq<char>| #[trigger]
                b@.contains_key(j) && ascii_lowercase(j) == ascii_lowercase(k) && b@[j] == a@[k],
        forall|k: Seq<char>| #[trigger]
            b@.contains_key(k) ==> exists|j: Seq<char>| #[trigger]
                a@.contains_key(j) && ascii_lowercase(j) == ascii_lowercase(k) && a@[j] == b@[k],
        options_outcome(merged_options(seq![a]), x),
        options_outcome(merged_options(seq![b]), y),
    ensures
        merged_options(seq![a]) == merged_options(seq![b]),
        alike(x, y, all_spelled_once(merged_options(seq![a]))),
{
    let (p, q) = (seq![a], seq![b]);
    assert forall|k: Seq<char>| #[trigger] a@.contains_key(k) implies ascii_case_ignored(k) by {
        assert(p[0]@.contains_key(k));
    }
    assert forall|k: Seq<char>| #[trigger] a@.contains_key(k) implies exists|j: Seq<char>| #[trigger]
        b@.contains_key(j) && lowercase(j) == lowercase(k) && b@[j] == a@[k] by {
        let j = choose|j: Seq<char>| #[trigger]
            b@.contains_key(j) && ascii_lowercase(j) == ascii_lowercase(k) && b@[j] == a@[k];
        assert(b@.contains_key(j) && lowercase(j) == lowercase(k));
    }
    assert forall|k: Seq<char>| #[trigger] b@.contains_key(k) implies exists|j: Seq<char>| #[trigger]
        a@.contains_key(j) && lowercase(j) == lowercase(k) && a@[j] == b@[k] by {
        let j = choose|j: Seq<char>| #[trigger]
            a@.contains_key(j) && ascii_lowercase(j) == ascii_lowercase(k) && a@[j] == b@[k];
        assert(a@.contains_key(j) && lowercase(j) == lowercase(k));
    }
    law_option_names_ignore_case(p, q, x, y);
}

/// The options of one map are its pairs with the names in lower case.
proof fn lemma_merged_pairs_of_one(m: StringMap<String>)
    ensures
        merged_pairs(seq![m]) == m.pairs().map_values(
            |p: (Seq<char>, Seq<char>)| (lowercase(p.0), p.1),
        ),
{
    let low = m.pairs().map_values(|p: (Seq<char>, Seq<char>)| (lowercase(p.0), p.1));
    assert(seq![m].drop_last() =~= Seq::<StringMap<String>>::empty());
    assert(merged_pairs(seq![m].drop_last()) =~= Seq::<(Seq<char>, Seq<char>)>::empty());
    assert(merged_pairs(seq![m]) =~= low);
}

/// The case of ASCII letters in names does not count, whatever the names are: a map is read alike
/// where ASCII letters of its names are put in another case and nothing else changes. Successes
/// come together, and then are the same in every field, where no two keys of a topic spell the same
/// partition.
pub proof fn law_ascii_case_is_ignored_in_place(
    a: StringMap<String>,
    b: StringMap<String>,
    x: Result<OptionsTree, Failure>,
    y: Result<OptionsTree, Failure>,
)
    requires
        distinct_keys(a.pairs()),
        names_lowered(seq![a]),
        a.pairs().len() == b.pairs().len(),
        forall|i: int|
            #![trigger a.pairs()[i]]
            #![trigger b.pairs()[i]]
            0 <= i < a.pairs().len() ==> ascii_lowercase(a.pairs()[i].0) == ascii_lowercase(
                b.pairs()[i].0,
            ) && a.pairs()[i].1 == b.pairs()[i].1,
        options_outcome(merged_options(seq![a]), x),
        options_outcome(merged_options(seq![b]), y),
    ensures
        merged_options(seq![a]) == merged_options(seq![b]),
        alike(x, y, all_spelled_once(merged_options(seq![a]))),
{
    lemma_merged_pairs_of_one(a);
    lemma_merged_pairs_of_one(b);
    lemma_pairs_map(a.pairs());
    let (p, q) = (merged_pairs(seq![a]), merged_pairs(seq![b]));
    assert forall|i: int| 0 <= i < p.len() implies p[i] == q[i] by {
        assert(a@.contains_key(a.pairs()[i].0));
        assert(seq![a][0]@.contains_key(a.pairs()[i].0));
        assert(ascii_case_ignored(a.pairs()[i].0));
        assert(lowercase(b.pairs()[i].0) == lowercase(a.pairs()[i].0));
    }
    assert(p =~= q);
    law_options_are_read_alike(merged_options(seq![a]), x, y);
}

/// Whether an option is one that only streams use, by its name in lower case.
pub open spec fn stream_option(name: Seq<char>) -> bool {
    name == "maxoffsetspertrigger"@ || name == "minoffsetspertrigger"@ || name
        == "maxtriggerdelay"@
}

/// Whether two maps hold the same options, but for those that only streams use.
pub open spec fn same_but_stream_options(a: MergedOptions, b: MergedOptions) -> bool {
    forall|k: Seq<char>|
        !stream_option(k) ==> (#[trigger] a.contains_key(k) <==> b.contains_key(k)) && (
        a.contains_key(k) ==> a[k] == b[k])
}

/// Options that only streams use are ignored: options that are the same but for them are read
/// alike.
pub proof fn law_stream_options_are_ignored(
    a: MergedOptions,
    b: MergedOptions,
    outcome: Result<OptionsTree, Failure>,
)
    requires
        same_but_stream_options(a, b),
    ensures
        options_outcome(a, outcome) == options_outcome(b, outcome),
{
    lemma_read_options_are_no_stream_options();
    reveal_strlit("kafka.");
    reveal_strlit("maxoffsetspertrigger");
    reveal_strlit("minoffsetspertrigger");
    reveal_strlit("maxtriggerdelay");
    assert(kafka_settings(a) =~= kafka_settings(b)) by {
        let prefix = "kafka."@;
        assert forall|k: Seq<char>| !#[trigger] stream_option(prefix + k) by {
            assert((prefix + k)[0] == 'k');
        }
        assert forall|k: Seq<char>| #[trigger]
            kafka_settings(a).contains_key(k) <==> kafka_settings(b).contains_key(k) by {
            assert(!stream_option(prefix + k));
            assert(a.contains_key(prefix + k) <==> b.contains_key(prefix + k));
        }
        assert forall|k: Seq<char>| #[trigger] kafka_settings(a).contains_key(k) implies
            kafka_settings(a)[k] == kafka_settings(b)[k] by {
            assert(!stream_option(prefix + k));
            assert(a.contains_key(prefix + k));
        }
    }
    assert(blocked_setting(a) == blocked_setting(b));
    assert(selected_topics(a) == selected_topics(b));
    assert forall|x: Result<OffsetTree, Failure>| #[trigger]
        starting_outcome(a, x) == starting_outcome(b, x) by {}
    assert forall|x: Result<OffsetTree, Failure>| #[trigger]
        ending_outcome(a, x) == ending_outcome(b, x) by {}
    if a.contains_key("kafka.bootstrap.servers"@) {
        assert forall|t: SelectionTree, x: OffsetTree, y: OffsetTree| #[trigger]
            assembled(a, t, x, y) == assembled(b, t, x, y) by {
            lemma_same_rest(a, b, t, x, y);
        }
        if options_outcome(a, outcome) {
            lemma_same_outcome(a, b, outcome);
        }
        if options_outcome(b, outcome) {
            lemma_same_outcome(b, a, outcome);
        }
    }
}

proof fn lemma_same_rest(
    a: MergedOptions,
    b: MergedOptions,
    topics: SelectionTree,
    start: OffsetTree,
    end: OffsetTree,
)
    requires
        same_but_stream_options(a, b),
        a.contains_key("kafka.bootstrap.servers"@),
        kafka_settings(a) == kafka_settings(b),
    ensures
        assembled(a, topics, start, end) == assembled(b, topics, start, end),
{
    lemma_read_options_are_no_stream_options();
    assert(option_value(a, "value.format"@) == option_value(b, "value.format"@));
    assert(option_value(a, "groupidprefix"@) == option_value(b, "groupidprefix"@));
    assert(option_value(a, "schema.registry.url"@) == option_value(b, "schema.registry.url"@));
    assert(option_value(a, "value.schema.subject"@) == option_value(b, "value.schema.subject"@));
    assert(flag(a, "failondataloss"@, true) == flag(b, "failondataloss"@, true));
    assert(flag(a, "includeheaders"@, false) == flag(b, "includeheaders"@, false));
}

proof fn lemma_same_outcome(
    a: MergedOptions,
    b: MergedOptions,
    outcome: Result<OptionsTree, Failure>,
)
    requires
        a.contains_key("kafka.bootstrap.servers"@) == b.contains_key("kafka.bootstrap.servers"@),
        blocked_setting(a) == blocked_setting(b),
        selected_topics(a) == selected_topics(b),
        forall|x: Result<OffsetTree, Failure>| #[trigger]
            starting_outcome(a, x) == starting_outcome(b, x),
        forall|x: Result<OffsetTree, Failure>| #[trigger]
            ending_outcome(a, x) == ending_outcome(b, x),
        forall|t: SelectionTree, x: OffsetTree, y: OffsetTree| #[trigger]
            assembled(a, t, x, y) == assembled(b, t, x, y),
        options_outcome(a, outcome),
    ensures
        options_outcome(b, outcome),
{
    if a.contains_key("kafka.bootstrap.servers"@) && blocked_setting(a) is None
        && selected_topics(a) is Ok {
        let topics = selected_topics(a)->Ok_0;
        let start = choose|start: Result<OffsetTree, Failure>| #[trigger]
            starting_outcome(a, start) && match start {
                Err(failure) => outcome == Err::<OptionsTree, Failure>(failure),
                Ok(start) => exists|end: Result<OffsetTree, Failure>| #[trigger]
                    ending_outcome(a, end) && match end {
                        Err(failure) => outcome == Err::<OptionsTree, Failure>(failure),
                        Ok(end) => outcome == assembled(a, topics, start, end),
                    },
            };
        assert(starting_outcome(b, start));
        if start is Ok {
            let end = choose|end: Result<OffsetTree, Failure>| #[trigger]
                ending_outcome(a, end) && match end {
                    Err(failure) => outcome == Err::<OptionsTree, Failure>(failure),
                    Ok(end) => outcome == assembled(a, topics, start->Ok_0, end),
                };
            assert(ending_outcome(b, end));
        }
    }
}

/// The options that a read has by name are none that only streams use.
proof fn lemma_read_options_are_no_stream_options()
    ensures
        !stream_option("kafka.bootstrap.servers"@),
        !stream_option("kafka.auto.offset.reset"@),
        !stream_option("kafka.key.deserializer"@),
        !stream_option("kafka.value.deserializer"@),
        !stream_option("kafka.enable.auto.commit"@),
        !stream_option("kafka.interceptor.classes"@),
        !stream_option("subscribe"@),
        !stream_option("subscribepattern"@),
        !stream_option("assign"@),
        !stream_option("startingtimestamp"@),
        !stream_option("startingoffsetsbytimestamp"@),
        !stream_option("startingoffsets"@),
        !stream_option("endingtimestamp"@),
        !stream_option("endingoffsetsbytimestamp"@),
        !stream_option("endingoffsets"@),
        !stream_option("minpartitions"@),
        !stream_option("kafkaconsumer.polltimeoutms"@),
        !stream_option("fetchoffset.numretries"@),
        !stream_option("fetchoffset.retryintervalms"@),
        !stream_option("value.format"@),
        !stream_option("failondataloss"@),
        !stream_option("includeheaders"@),
        !stream_option("groupidprefix"@),
        !stream_option("schema.registry.url"@),
        !stream_option("value.schema.subject"@),
{
    reveal_strlit("maxoffsetspertrigger");
    reveal_strlit("minoffsetspertrigger");
    reveal_strlit("maxtriggerdelay");
    reveal_strlit("kafka.bootstrap.servers");
    reveal_strlit("kafka.auto.offset.reset");
    reveal_strlit("kafka.key.deserializer");
    reveal_strlit("kafka.value.deserializer");
    reveal_strlit("kafka.enable.auto.commit");
    reveal_strlit("kafka.interceptor.classes");
    reveal_strlit("subscribe");
    reveal_strlit("subscribepattern");
    reveal_strlit("assign");
    reveal_strlit("startingtimestamp");
    reveal_strlit("startingoffsetsbytimestamp");
    reveal_strlit("startingoffsets");
    reveal_strlit("endingtimestamp");
    reveal_strlit("endingoffsetsbytimestamp");
    reveal_strlit("endingoffsets");
    reveal_strlit("minpartitions");
    reveal_strlit("kafkaconsumer.polltimeoutms");
    reveal_strlit("fetchoffset.numretries");
    reveal_strlit("fetchoffset.retryintervalms");
    reveal_strlit("value.format");
    reveal_strlit("failondataloss");
    reveal_strlit("includeheaders");
    reveal_strlit("groupidprefix");
    reveal_strlit("schema.registry.url");
    reveal_strlit("value.schema.subject");
    assert("maxoffsetspertrigger"@[0] == 'm');
    assert("minoffsetspertrigger"@[0] == 'm');
    assert("maxtriggerdelay"@[0] == 'm');
    assert("minpartitions"@.len() == 13);
    assert("maxtriggerdelay"@.len() == 15);
}

/// The pairs of a map without those of options that only streams use.
pub open spec fn batch_pairs(pairs: Seq<(Seq<char>, Seq<char>)>) -> Seq<(Seq<char>, Seq<char>)> {
    pairs.filter(|p: (Seq<char>, Seq<char>)| !stream_option(lowercase(p.0)))
}

/// Leaving out pairs of options that only streams use leaves the other options as they are.
proof fn lemma_batch_pairs(pairs: Seq<(Seq<char>, Seq<char>)>)
    ensures
        same_but_stream_options(
            pairs_map(
                pairs.map_values(|p: (Seq<char>, Seq<char>)| (lowercase(p.0), p.1)),
            ),
            pairs_map(
                batch_pairs(pairs).map_values(|p: (Seq<char>, Seq<char>)| (lowercase(p.0), p.1)),
            ),
        ),
    decreases pairs.len(),
{
    reveal(Seq::filter);
    let lower = |p: (Seq<char>, Seq<char>)| (lowercase(p.0), p.1);
    if pairs.len() > 0 {
        let front = pairs.drop_last();
        lemma_batch_pairs(front);
        assert(pairs.map_values(lower).drop_last() =~= front.map_values(lower));
        if !stream_option(lowercase(pairs.last().0)) {
            let rest = batch_pairs(pairs);
            assert(rest =~= batch_pairs(front).push(pairs.last()));
            assert(rest.map_values(lower).drop_last() =~= batch_pairs(front).map_values(lower));
        } else {
            assert(batch_pairs(pairs) =~= batch_pairs(front));
        }
    } else {
        assert(batch_pairs(pairs) =~= pairs);
    }
}

/// Options that only streams use change nothing in what is read of a map, whatever the names are:
/// maps are read alike where their other pairs are the same, in the same order. Successes come
/// together, and then are the same in every field, where no two keys of a topic spell the same
/// partition.
pub proof fn law_stream_options_change_nothing_in_place(
    m: StringMap<String>,
    more: StringMap<String>,
    x: Result<OptionsTree, Failure>,
    y: Result<OptionsTree, Failure>,
)
    requires
        batch_pairs(m.pairs()) == batch_pairs(more.pairs()),
        options_outcome(merged_options(seq![m]), x),
        options_outcome(merged_options(seq![more]), y),
    ensures
        alike(x, y, all_spelled_once(merged_options(seq![m]))),
{
    lemma_merged_pairs_of_one(m);
    lemma_merged_pairs_of_one(more);
    lemma_batch_pairs(m.pairs());
    lemma_batch_pairs(more.pairs());
    let a = merged_options(seq![m]);
    let b = merged_options(seq![more]);
    let c = pairs_map(
        batch_pairs(m.pairs()).map_values(|p: (Seq<char>, Seq<char>)| (lowercase(p.0), p.1)),
    );
    assert(same_but_stream_options(a, b)) by {
        assert forall|k: Seq<char>| !stream_option(k) implies (#[trigger] a.contains_key(k)
            <==> b.contains_key(k)) && (a.contains_key(k) ==> a[k] == b[k]) by {
            assert(a.contains_key(k) <==> c.contains_key(k));
            assert(b.contains_key(k) <==> c.contains_key(k));
        }
    }
    law_stream_options_are_ignored(a, b, y);
    law_options_are_read_alike(a, x, y);
}

/// Adding options that only streams use to a map changes nothing in what is read of it, whatever
/// the order of its pairs, where no two of the other names are alike in lower case. Successes come
/// together, and then are the same in every field, where no two keys of a topic spell the same
/// partition.
pub proof fn law_added_stream_options_change_nothing(
    m: StringMap<String>,
    more: StringMap<String>,
    x: Result<OptionsTree, Failure>,
    y: Result<OptionsTree, Failure>,
)
    requires
        distinct_keys(m.pairs()),
        distinct_keys(more.pairs()),
        forall|k: Seq<char>| #[trigger]
            m@.contains_key(k) && !stream_option(lowercase(k)) ==> name_apart(m@, k),
        forall|k: Seq<char>| #[trigger]
            m@.contains_key(k) && !stream_option(lowercase(k)) ==> more@.contains_key(k)
                && more@[k] == m@[k],
        forall|k: Seq<char>| #[trigger]
            more@.contains_key(k) && !m@.contains_key(k) ==> stream_option(lowercase(k)),
        options_outcome(merged_options(seq![m]), x),
        options_outcome(merged_options(seq![more]), y),
    ensures
        alike(x, y, all_spelled_once(merged_options(seq![m]))),
{
    lemma_merged_one(m);
    lemma_merged_one(more);
    let a = merged_options(seq![m]);
    let b = merged_options(seq![more]);
    assert forall|l: Seq<char>| !stream_option(l) implies (#[trigger] a.contains_key(l)
        <==> b.contains_key(l)) && (a.contains_key(l) ==> a[l] == b[l]) by {
        if a.contains_key(l) {
            let k = choose|k: Seq<char>| #[trigger] m@.contains_key(k) && lowercase(k) == l;
            assert(more@.contains_key(k));
            assert(name_apart(m@, k));
            assert(name_apart(more@, k));
        }
        if b.contains_key(l) {
            let k = choose|k: Seq<char>| #[trigger] more@.contains_key(k) && lowercase(k) == l;
            assert(m@.contains_key(k));
            assert(name_apart(m@, k));
        }
    }
    law_stream_options_are_ignored(a, b, y);
    law_options_are_read_alike(a, x, y);
}

/// Options that come later take the place of earlier ones with the same name, and leave the rest.
pub proof fn law_later_options_win(options: Seq<StringMap<String>>, later: StringMap<String>)
    ensures
        merged_options(options.push(later)) == merged_options(options).union_prefer_right(
            merged_options(seq![later]),
        ),
{
    let lower = |p: (Seq<char>, Seq<char>)| (lowercase(p.0), p.1);
    let first = merged_pairs(options);
    let second = later.pairs().map_values(lower);
    assert(options.push(later).drop_last() =~= options);
    assert(seq![later].drop_last() =~= Seq::<StringMap<String>>::empty());
    assert(merged_pairs(seq![later].drop_last()) =~= Seq::<(Seq<char>, Seq<char>)>::empty());
    assert(merged_pairs(seq![later]) =~= second);
    lemma_pairs_map_concat(first, second);
}

proof fn lemma_pairs_map_concat(
    a: Seq<(Seq<char>, Seq<char>)>,
    b: Seq<(Seq<char>, Seq<char>)>,
)
    ensures
        pairs_map(a + b) == pairs_map(a).union_prefer_right(pairs_map(b)),
    decreases b.len(),
{
    if b.len() == 0 {
        assert(a + b =~= a);
        assert(pairs_map(a).union_prefer_right(pairs_map(b)) =~= pairs_map(a));
    } else {
        lemma_pairs_map_concat(a, b.drop_last());
        assert((a + b).drop_last() =~= a + b.drop_last());
        assert(pairs_map(a + b) =~= pairs_map(a).union_prefer_right(pairs_map(b)));
    }
}

/// Whatever options are read, the client's servers, its deserializers and the rule that offsets
/// are not committed stand: no setting takes their place.
pub proof fn law_client_basics_stand(m: MergedOptions, options: OptionsTree, group: Seq<char>)
    requires
        options_outcome(m, Ok(options)),
    ensures
        ({
            let settings = client_settings(options, group);
            let bytes = "org.apache.kafka.common.serialization.ByteArrayDeserializer"@;
            &&& settings["bootstrap.servers"@] == m["kafka.bootstrap.servers"@]
            &&& settings["enable.auto.commit"@] == "false"@
            &&& settings["key.deserializer"@] == bytes
            &&& settings["value.deserializer"@] == bytes
            &&& !settings.contains_key("auto.offset.reset"@)
            &&& !settings.contains_key("interceptor.classes"@)
        }),
{
    reveal_strlit("kafka.");
    reveal_strlit("bootstrap.servers");
    reveal_strlit("kafka.bootstrap.servers");
    reveal_strlit("enable.auto.commit");
    reveal_strlit("kafka.enable.auto.commit");
    reveal_strlit("key.deserializer");
    reveal_strlit("kafka.key.deserializer");
    reveal_strlit("value.deserializer");
    reveal_strlit("kafka.value.deserializer");
    reveal_strlit("auto.offset.reset");
    reveal_strlit("kafka.auto.offset.reset");
    reveal_strlit("interceptor.classes");
    reveal_strlit("kafka.interceptor.classes");
    reveal_strlit("group.id");
    assert("kafka."@ + "bootstrap.servers"@ =~= "kafka.bootstrap.servers"@);
    assert("kafka."@ + "enable.auto.commit"@ =~= "kafka.enable.auto.commit"@);
    assert("kafka."@ + "key.deserializer"@ =~= "kafka.key.deserializer"@);
    assert("kafka."@ + "value.deserializer"@ =~= "kafka.value.deserializer"@);
    assert("kafka."@ + "auto.offset.reset"@ =~= "kafka.auto.offset.reset"@);
    assert("kafka."@ + "interceptor.classes"@ =~= "kafka.interceptor.classes"@);
    assert("bootstrap.servers"@.len() == 17);
    assert("enable.auto.commit"@.len() == 18);
    assert("key.deserializer"@.len() == 16);
    assert("value.deserializer"@.len() == 18);
    assert("value.deserializer"@[0] != "enable.auto.commit"@[0]);
    assert("auto.offset.reset"@[0] != "bootstrap.servers"@[0]);
    assert("interceptor.classes"@.len() == 19);
    assert("group.id"@.len() == 8);
    let kept = kafka_settings(m);
    assert(options.kafka_properties == kept);
}

/// Accepted options have the format that they ask for: `avro`, `json` and `raw` are each that very
/// format, any other is not accepted, and without the option none is asked for.
pub proof fn law_accepted_format_is_the_one_asked_for(m: MergedOptions, options: OptionsTree)
    requires
        options_outcome(m, Ok(options)),
    ensures
        m.contains_key("value.format"@) && m["value.format"@] == "avro"@ ==> options.value_format
            == Some(ValueFormat::Avro),
        m.contains_key("value.format"@) && m["value.format"@] == "json"@ ==> options.value_format
            == Some(ValueFormat::Json),
        m.contains_key("value.format"@) && m["value.format"@] == "raw"@ ==> options.value_format
            == Some(ValueFormat::Raw),
        m.contains_key("value.format"@) ==> m["value.format"@] == "avro"@ || m["value.format"@]
            == "json"@ || m["value.format"@] == "raw"@,
        !m.contains_key("value.format"@) ==> options.value_format is None,
{
    reveal_strlit("avro");
    reveal_strlit("json");
    reveal_strlit("raw");
    assert("avro"@[0] != "json"@[0]);
    assert("raw"@.len() == 3);
}

/// Accepted options have the texts, flags and numbers that were given. Without them loss of data is
/// a failure, headers are left out, no number of partitions is asked for, groups begin with
/// `spark-kafka-relation`, a poll waits 120 seconds, and an offset is asked for three times more, a
/// second apart. A flag is set by `true` in any case and by nothing else.
pub proof fn law_accepted_options_are_those_given(m: MergedOptions, options: OptionsTree)
    requires
        options_outcome(m, Ok(options)),
    ensures
        m.contains_key("kafka.bootstrap.servers"@),
        options.bootstrap_servers == m["kafka.bootstrap.servers"@],
        if m.contains_key("failondataloss"@) {
            options.fail_on_data_loss <==> ascii_lowercase(m["failondataloss"@]) == "true"@
        } else {
            options.fail_on_data_loss
        },
        if m.contains_key("includeheaders"@) {
            options.include_headers <==> ascii_lowercase(m["includeheaders"@]) == "true"@
        } else {
            !options.include_headers
        },
        if m.contains_key("minpartitions"@) {
            options.min_partitions is Some && integer(
                m["minpartitions"@],
                0,
                usize::MAX as int,
            ) == Some(options.min_partitions->0 as int)
        } else {
            options.min_partitions is None
        },
        if m.contains_key("groupidprefix"@) {
            options.group_id_prefix == m["groupidprefix"@]
        } else {
            options.group_id_prefix == "spark-kafka-relation"@
        },
        if m.contains_key("kafkaconsumer.polltimeoutms"@) {
            integer(m["kafkaconsumer.polltimeoutms"@], 0, u64::MAX as int) == Some(
                options.poll_timeout_ms as int,
            )
        } else {
            options.poll_timeout_ms == 120_000
        },
        if m.contains_key("fetchoffset.numretries"@) {
            integer(m["fetchoffset.numretries"@], 0, u32::MAX as int) == Some(
                options.fetch_offset_num_retries as int,
            )
        } else {
            options.fetch_offset_num_retries == 3
        },
        if m.contains_key("fetchoffset.retryintervalms"@) {
            integer(m["fetchoffset.retryintervalms"@], 0, u64::MAX as int) == Some(
                options.fetch_offset_retry_interval_ms as int,
            )
        } else {
            options.fetch_offset_retry_interval_ms == 1000
        },
        if m.contains_key("schema.registry.url"@) {
            options.schema_registry_url == Some(m["schema.registry.url"@])
        } else {
            options.schema_registry_url is None
        },
        if m.contains_key("value.schema.subject"@) {
            options.value_schema_subject == Some(m["value.schema.subject"@])
        } else {
            options.value_schema_subject is None
        },
{
    lemma_small_letters();
    lemma_accepted_number(m, "minpartitions"@, usize::MAX as int, "invalid minPartitions value: "@);
    lemma_accepted_number(
        m,
        "kafkaconsumer.polltimeoutms"@,
        u64::MAX as int,
        "invalid kafkaConsumer.pollTimeoutMs: "@,
    );
    lemma_accepted_number(
        m,
        "fetchoffset.numretries"@,
        u32::MAX as int,
        "invalid fetchOffset.numRetries: "@,
    );
    lemma_accepted_number(
        m,
        "fetchoffset.retryintervalms"@,
        u64::MAX as int,
        "invalid fetchOffset.retryIntervalMs: "@,
    );
}

proof fn lemma_accepted_number(m: MergedOptions, name: Seq<char>, high: int, what: Seq<char>)
    ensures
        number_option(m, name, high, what) matches Ok(Some(n)) ==> 0 <= n <= high,
{
}

/// Texts in small letters are their own lower case.
proof fn lemma_small_letters()
    ensures
        ascii_lowercase("true"@) == "true"@,
        ascii_lowercase("earliest"@) == "earliest"@,
        ascii_lowercase("latest"@) == "latest"@,
        "earliest"@ != "latest"@,
{
    reveal_strlit("true");
    reveal_strlit("earliest");
    reveal_strlit("latest");
    assert(ascii_lowercase("true"@) =~= "true"@);
    assert(ascii_lowercase("earliest"@) =~= "earliest"@);
    assert(ascii_lowercase("latest"@) =~= "latest"@);
    assert("earliest"@.len() == 8 && "latest"@.len() == 6);
}

/// Accepted options select topics in exactly one way: by the names in a list between commas,
/// without white space around them; by a pattern; or by an assignment of partitions.
pub proof fn law_accepted_topics_are_those_asked_for(m: MergedOptions, options: OptionsTree)
    requires
        options_outcome(m, Ok(options)),
    ensures
        m.contains_key("subscribe"@) ==> {
            let names = pieces(m["subscribe"@], ',');
            &&& options.topic_selection is Subscribe
            &&& options.topic_selection->Subscribe_0.len() == names.len()
            &&& forall|i: int|
                0 <= i < names.len() ==> #[trigger] options.topic_selection->Subscribe_0[i]
                    == trimmed(names[i])
        },
        m.contains_key("subscribepattern"@) ==> options.topic_selection
            == SelectionTree::SubscribePattern(m["subscribepattern"@]),
        m.contains_key("assign"@) ==> options.topic_selection is Assign && assignment_of_text(
            m["assign"@],
        ) == Ok::<_, Seq<char>>(options.topic_selection->Assign_0),
        m.contains_key("subscribe"@) || m.contains_key("subscribepattern"@) || m.contains_key(
            "assign"@,
        ),
        !(m.contains_key("subscribe"@) && m.contains_key("subscribepattern"@)),
        !(m.contains_key("subscribe"@) && m.contains_key("assign"@)),
        !(m.contains_key("subscribepattern"@) && m.contains_key("assign"@)),
{
}

/// Whether `read` is `parsed` with the partitions read as numbers: each topic has a number for each
/// partition that a key of it spells, and each number is that of such a key.
pub open spec fn read_as_partitions(
    parsed: Map<Seq<char>, Map<Seq<char>, i64>>,
    read: Map<Seq<char>, Map<i32, i64>>,
) -> bool {
    &&& forall|t: Seq<char>| parsed.contains_key(t) <==> #[trigger] read.contains_key(t)
    &&& forall|t: Seq<char>, p: Seq<char>|
        parsed.contains_key(t) && #[trigger] parsed[t].contains_key(p) ==> {
            let partition = integer(p, i32::MIN as int, i32::MAX as int);
            &&& partition is Some
            &&& read[t].contains_key(partition->0 as i32)
            &&& (forall|q: Seq<char>| #[trigger]
                parsed[t].contains_key(q) && integer(q, i32::MIN as int, i32::MAX as int)
                    == partition ==> q == p) ==> read[t][partition->0 as i32] == parsed[t][p]
        }
    &&& forall|t: Seq<char>, n: i32|
        parsed.contains_key(t) && #[trigger] read[t].contains_key(n) ==> exists|p: Seq<char>|
            #[trigger]
            parsed[t].contains_key(p) && integer(p, i32::MIN as int, i32::MAX as int) == Some(
                n as int,
            ) && parsed[t][p] == read[t][n]
}

proof fn lemma_read_as_partitions(
    text: Seq<char>,
    what: Seq<char>,
    read: Map<Seq<char>, Map<i32, i64>>,
)
    requires
        offset_map_outcome(text, what, Ok(read)),
    ensures
        offsets_of_text(text) is Ok,
        read_as_partitions(offsets_of_text(text)->Ok_0, read),
{
    lemma_partitions_are_read(offsets_of_text(text)->Ok_0, read);
}

proof fn lemma_partitions_are_read(
    parsed: Map<Seq<char>, Map<Seq<char>, i64>>,
    read: Map<Seq<char>, Map<i32, i64>>,
)
    requires
        partition_map_outcome(parsed, Ok(read)),
    ensures
        read_as_partitions(parsed, read),
{
    assert(read.dom() == parsed.dom());
    assert forall|t: Seq<char>| parsed.contains_key(t) <==> #[trigger] read.contains_key(t) by {
        assert(parsed.dom().contains(t) <==> read.dom().contains(t));
    }
    assert forall|t: Seq<char>, p: Seq<char>|
        parsed.contains_key(t) && #[trigger] parsed[t].contains_key(p) implies {
        let partition = integer(p, i32::MIN as int, i32::MAX as int);
        &&& partition is Some
        &&& read[t].contains_key(partition->0 as i32)
        &&& (forall|q: Seq<char>| #[trigger]
            parsed[t].contains_key(q) && integer(q, i32::MIN as int, i32::MAX as int) == partition
                ==> q == p) ==> read[t][partition->0 as i32] == parsed[t][p]
    } by {
        assert(partitions_read(parsed[t], read[t]));
        let n = partition_number(p)->0 as i32;
        assert(read[t].contains_key(n));
        let q = choose|q: Seq<char>| #[trigger]
            parsed[t].contains_key(q) && partition_number(q) == Some(n as int) && parsed[t][q]
                == read[t][n];
        assert(parsed[t].contains_key(q));
    }
    assert forall|t: Seq<char>, n: i32|
        parsed.contains_key(t) && #[trigger] read[t].contains_key(n) implies exists|p: Seq<char>|
        #[trigger]
        parsed[t].contains_key(p) && integer(p, i32::MIN as int, i32::MAX as int) == Some(n as int)
            && parsed[t][p] == read[t][n] by {
        assert(partitions_read(parsed[t], read[t]));
        let p = choose|p: Seq<char>| #[trigger]
            parsed[t].contains_key(p) && partition_number(p) == Some(n as int) && parsed[t][p]
                == read[t][n];
        assert(parsed[t].contains_key(p));
    }
}

/// Accepted options start where they say: at the time for all partitions, else at the times for
/// each, else at the offsets. `earliest` in any case and nothing at all are the earliest offset,
/// and `latest` is not accepted.
pub proof fn law_accepted_start_is_the_one_asked_for(m: MergedOptions, options: OptionsTree)
    requires
        options_outcome(m, Ok(options)),
    ensures
        ({
            let start = options.starting_offsets;
            if m.contains_key("startingtimestamp"@) {
                start is GlobalTimestamp && integer(
                    m["startingtimestamp"@],
                    i64::MIN as int,
                    i64::MAX as int,
                ) == Some(start->GlobalTimestamp_0 as int)
            } else if m.contains_key("startingoffsetsbytimestamp"@) {
                &&& start is ByTimestamp
                &&& offsets_of_text(m["startingoffsetsbytimestamp"@]) is Ok
                &&& read_as_partitions(
                    offsets_of_text(m["startingoffsetsbytimestamp"@])->Ok_0,
                    start->ByTimestamp_0,
                )
            } else if m.contains_key("startingoffsets"@) {
                let text = m["startingoffsets"@];
                &&& ascii_lowercase(text) != "latest"@
                &&& ascii_lowercase(text) == "earliest"@ ==> start == OffsetTree::Earliest
                &&& ascii_lowercase(text) != "earliest"@ ==> start is PerPartition
                    && offsets_of_text(text) is Ok && read_as_partitions(
                    offsets_of_text(text)->Ok_0,
                    start->PerPartition_0,
                )
            } else {
                start == OffsetTree::Earliest
            }
        }),
{
    lemma_small_letters();
    let start = options.starting_offsets;
    assert(starting_outcome(m, Ok(start)));
    if m.contains_key("startingtimestamp"@) {
    } else if m.contains_key("startingoffsetsbytimestamp"@) {
        lemma_read_as_partitions(
            m["startingoffsetsbytimestamp"@],
            "invalid startingOffsetsByTimestamp JSON: "@,
            start->ByTimestamp_0,
        );
    } else if m.contains_key("startingoffsets"@) && ascii_lowercase(m["startingoffsets"@])
        != "earliest"@ {
        lemma_read_as_partitions(
            m["startingoffsets"@],
            "invalid offsets JSON: "@,
            start->PerPartition_0,
        );
    }
}

/// Accepted options end where they say: at the time for all partitions, else at the times for each,
/// else at the offsets. `latest` in any case and nothing at all are the latest offset, and
/// `earliest` is not accepted.
pub proof fn law_accepted_end_is_the_one_asked_for(m: MergedOptions, options: OptionsTree)
    requires
        options_outcome(m, Ok(options)),
    ensures
        ({
            let end = options.ending_offsets;
            if m.contains_key("endingtimestamp"@) {
                end is GlobalTimestamp && integer(
                    m["endingtimestamp"@],
                    i64::MIN as int,
                    i64::MAX as int,
                ) == Some(end->GlobalTimestamp_0 as int)
            } else if m.contains_key("endingoffsetsbytimestamp"@) {
                &&& end is ByTimestamp
                &&& offsets_of_text(m["endingoffsetsbytimestamp"@]) is Ok
                &&& read_as_partitions(
                    offsets_of_text(m["endingoffsetsbytimestamp"@])->Ok_0,
                    end->ByTimestamp_0,
                )
            } else if m.contains_key("endingoffsets"@) {
                let text = m["endingoffsets"@];
                &&& ascii_lowercase(text) != "earliest"@
                &&& ascii_lowercase(text) == "latest"@ ==> end == OffsetTree::Latest
                &&& ascii_lowercase(text) != "latest"@ ==> end is PerPartition && offsets_of_text(
                    text,
                ) is Ok && read_as_partitions(offsets_of_text(text)->Ok_0, end->PerPartition_0)
            } else {
                end == OffsetTree::Latest
            }
        }),
{
    lemma_small_letters();
    let end = options.ending_offsets;
    assert(ending_outcome(m, Ok(end)));
    if m.contains_key("endingtimestamp"@) {
    } else if m.contains_key("endingoffsetsbytimestamp"@) {
        lemma_read_as_partitions(
            m["endingoffsetsbytimestamp"@],
            "invalid endingOffsetsByTimestamp JSON: "@,
            end->ByTimestamp_0,
        );
    } else if m.contains_key("endingoffsets"@) && ascii_lowercase(m["endingoffsets"@])
        != "latest"@ {
        lemma_read_as_partitions(
            m["endingoffsets"@],
            "invalid offsets JSON: "@,
            end->PerPartition_0,
        );
    }
}

/// Accepted options hand to Kafka every setting under `kafka.` without that prefix, but for the
/// servers, and nothing else; and none of the settings that a caller may not make is among them.
pub proof fn law_accepted_settings_go_to_kafka(m: MergedOptions, options: OptionsTree)
    requires
        options_outcome(m, Ok(options)),
    ensures
        forall|name: Seq<char>| #[trigger]
            options.kafka_properties.contains_key(name) <==> m.contains_key("kafka."@ + name)
                && name != "bootstrap.servers"@,
        forall|name: Seq<char>| #[trigger]
            options.kafka_properties.contains_key(name) ==> options.kafka_properties[name]
                == m["kafka."@ + name],
        !options.kafka_properties.contains_key("auto.offset.reset"@),
        !options.kafka_properties.contains_key("key.deserializer"@),
        !options.kafka_properties.contains_key("value.deserializer"@),
        !options.kafka_properties.contains_key("enable.auto.commit"@),
        !options.kafka_properties.contains_key("interceptor.classes"@),
{
    reveal_strlit("kafka.");
    reveal_strlit("bootstrap.servers");
    reveal_strlit("kafka.bootstrap.servers");
    reveal_strlit("enable.auto.commit");
    reveal_strlit("kafka.enable.auto.commit");
    reveal_strlit("key.deserializer");
    reveal_strlit("kafka.key.deserializer");
    reveal_strlit("value.deserializer");
    reveal_strlit("kafka.value.deserializer");
    reveal_strlit("auto.offset.reset");
    reveal_strlit("kafka.auto.offset.reset");
    reveal_strlit("interceptor.classes");
    reveal_strlit("kafka.interceptor.classes");
    assert("kafka."@ + "bootstrap.servers"@ =~= "kafka.bootstrap.servers"@);
    assert("kafka."@ + "enable.auto.commit"@ =~= "kafka.enable.auto.commit"@);
    assert("kafka."@ + "key.deserializer"@ =~= "kafka.key.deserializer"@);
    assert("kafka."@ + "value.deserializer"@ =~= "kafka.value.deserializer"@);
    assert("kafka."@ + "auto.offset.reset"@ =~= "kafka.auto.offset.reset"@);
    assert("kafka."@ + "interceptor.classes"@ =~= "kafka.interceptor.classes"@);
    assert(options.kafka_properties == kafka_settings(m));
    assert forall|name: Seq<char>| #[trigger]
        options.kafka_properties.contains_key(name) <==> m.contains_key("kafka."@ + name) && name
            != "bootstrap.servers"@ by {
        if "kafka."@ + name == "kafka.bootstrap.servers"@ {
            assert(("kafka."@ + name).skip(6) =~= name);
            assert("kafka.bootstrap.servers"@.skip(6) =~= "bootstrap.servers"@);
        }
    }
}

/// Options without servers are not accepted, nor those that make a setting that a caller may not
/// make, that select topics in no way or in several, that start at the latest offset or end at the
/// earliest, or that ask for an unknown format or for a number that is none. Without servers the
/// configuration is at fault, and with a forbidden setting, a wrong selection, start or end the
/// request.
pub proof fn law_faulty_options_are_not_accepted(
    m: MergedOptions,
    outcome: Result<OptionsTree, Failure>,
)
    requires
        options_outcome(m, outcome),
    ensures
        !m.contains_key("kafka.bootstrap.servers"@) ==> outcome is Err && outcome->Err_0.kind
            == FailureKind::Config,
        m.contains_key("kafka.bootstrap.servers"@) && (m.contains_key("kafka.auto.offset.reset"@)
            || m.contains_key("kafka.key.deserializer"@) || m.contains_key(
            "kafka.value.deserializer"@,
        ) || m.contains_key("kafka.enable.auto.commit"@) || m.contains_key(
            "kafka.interceptor.classes"@,
        )) ==> outcome is Err && outcome->Err_0.kind == FailureKind::Plan,
        !m.contains_key("subscribe"@) && !m.contains_key("subscribepattern"@) && !m.contains_key(
            "assign"@,
        ) ==> outcome is Err,
        m.contains_key("subscribe"@) && m.contains_key("subscribepattern"@) ==> outcome is Err,
        m.contains_key("subscribe"@) && m.contains_key("assign"@) ==> outcome is Err,
        m.contains_key("subscribepattern"@) && m.contains_key("assign"@) ==> outcome is Err,
        m.contains_key("assign"@) && assignment_of_text(m["assign"@]) is Err ==> outcome is Err,
        m.contains_key("startingoffsets"@) && ascii_lowercase(m["startingoffsets"@]) == "latest"@
            && !m.contains_key("startingtimestamp"@) && !m.contains_key(
            "startingoffsetsbytimestamp"@,
        ) ==> outcome is Err,
        m.contains_key("endingoffsets"@) && ascii_lowercase(m["endingoffsets"@]) == "earliest"@
            && !m.contains_key("endingtimestamp"@) && !m.contains_key("endingoffsetsbytimestamp"@)
            ==> outcome is Err,
        m.contains_key("value.format"@) && m["value.format"@] != "avro"@ && m["value.format"@]
            != "json"@ && m["value.format"@] != "raw"@ ==> outcome is Err,
        m.contains_key("minpartitions"@) && integer(m["minpartitions"@], 0, usize::MAX as int)
            is None ==> outcome is Err,
        m.contains_key("kafkaconsumer.polltimeoutms"@) && integer(
            m["kafkaconsumer.polltimeoutms"@],
            0,
            u64::MAX as int,
        ) is None ==> outcome is Err,
        m.contains_key("fetchoffset.numretries"@) && integer(
            m["fetchoffset.numretries"@],
            0,
            u32::MAX as int,
        ) is None ==> outcome is Err,
        m.contains_key("fetchoffset.retryintervalms"@) && integer(
            m["fetchoffset.retryintervalms"@],
            0,
            u64::MAX as int,
        ) is None ==> outcome is Err,
{
    if outcome is Ok {
        let options = outcome->Ok_0;
        law_accepted_topics_are_those_asked_for(m, options);
        law_accepted_start_is_the_one_asked_for(m, options);
        law_accepted_end_is_the_one_asked_for(m, options);
        law_accepted_format_is_the_one_asked_for(m, options);
        law_accepted_options_are_those_given(m, options);
    }
}

/// Whether every key of every topic spells a partition.
pub open spec fn partitions_spelled(text: Seq<char>) -> bool {
    offsets_of_text(text) matches Ok(parsed) && forall|t: Seq<char>, p: Seq<char>|
        parsed.contains_key(t) && #[trigger] parsed[t].contains_key(p) ==> integer(
            p,
            i32::MIN as int,
            i32::MAX as int,
        ) is Some
}

/// Options are accepted that name servers, make no setting that a caller may not make, select
/// topics in one way, and whose start, end, numbers and format can be read.
pub proof fn law_sound_options_are_accepted(
    m: MergedOptions,
    outcome: Result<OptionsTree, Failure>,
)
    requires
        options_outcome(m, outcome),
        m.contains_key("kafka.bootstrap.servers"@),
        !m.contains_key("kafka.auto.offset.reset"@),
        !m.contains_key("kafka.key.deserializer"@),
        !m.contains_key("kafka.value.deserializer"@),
        !m.contains_key("kafka.enable.auto.commit"@),
        !m.contains_key("kafka.interceptor.classes"@),
        m.contains_key("subscribe"@) || m.contains_key("subscribepattern"@) || m.contains_key(
            "assign"@,
        ),
        !(m.contains_key("subscribe"@) && m.contains_key("subscribepattern"@)),
        !(m.contains_key("subscribe"@) && m.contains_key("assign"@)),
        !(m.contains_key("subscribepattern"@) && m.contains_key("assign"@)),
        m.contains_key("assign"@) ==> assignment_of_text(m["assign"@]) is Ok,
        if m.contains_key("startingtimestamp"@) {
            integer(m["startingtimestamp"@], i64::MIN as int, i64::MAX as int) is Some
        } else if m.contains_key("startingoffsetsbytimestamp"@) {
            partitions_spelled(m["startingoffsetsbytimestamp"@])
        } else {
            m.contains_key("startingoffsets"@) ==> ascii_lowercase(m["startingoffsets"@])
                == "earliest"@ || (ascii_lowercase(m["startingoffsets"@]) != "latest"@
                && partitions_spelled(m["startingoffsets"@]))
        },
        if m.contains_key("endingtimestamp"@) {
            integer(m["endingtimestamp"@], i64::MIN as int, i64::MAX as int) is Some
        } else if m.contains_key("endingoffsetsbytimestamp"@) {
            partitions_spelled(m["endingoffsetsbytimestamp"@])
        } else {
            m.contains_key("endingoffsets"@) ==> ascii_lowercase(m["endingoffsets"@]) == "latest"@
                || (ascii_lowercase(m["endingoffsets"@]) != "earliest"@ && partitions_spelled(
                m["endingoffsets"@],
            ))
        },
        m.contains_key("value.format"@) ==> m["value.format"@] == "avro"@ || m["value.format"@]
            == "json"@ || m["value.format"@] == "raw"@,
        m.contains_key("minpartitions"@) ==> integer(
            m["minpartitions"@],
            0,
            usize::MAX as int,
        ) is Some,
        m.contains_key("kafkaconsumer.polltimeoutms"@) ==> integer(
            m["kafkaconsumer.polltimeoutms"@],
            0,
            u64::MAX as int,
        ) is Some,
        m.contains_key("fetchoffset.numretries"@) ==> integer(
            m["fetchoffset.numretries"@],
            0,
            u32::MAX as int,
        ) is Some,
        m.contains_key("fetchoffset.retryintervalms"@) ==> integer(
            m["fetchoffset.retryintervalms"@],
            0,
            u64::MAX as int,
        ) is Some,
    ensures
        outcome is Ok,
{
    lemma_small_letters();
    let topics = selected_topics(m)->Ok_0;
    let start = choose|start: Result<OffsetTree, Failure>| #[trigger]
        starting_outcome(m, start) && match start {
            Err(failure) => outcome == Err::<OptionsTree, Failure>(failure),
            Ok(start) => exists|end: Result<OffsetTree, Failure>| #[trigger]
                ending_outcome(m, end) && match end {
                    Err(failure) => outcome == Err::<OptionsTree, Failure>(failure),
                    Ok(end) => outcome == assembled(m, topics, start, end),
                },
        };
    assert(starting_outcome(m, start));
    assert(start is Ok) by {
        if start is Err {
            if m.contains_key("startingtimestamp"@) {
            } else if m.contains_key("startingoffsetsbytimestamp"@) {
                lemma_partitions_spelled(
                    m["startingoffsetsbytimestamp"@],
                    "invalid startingOffsetsByTimestamp JSON: "@,
                    start->Err_0,
                );
            } else if m.contains_key("startingoffsets"@) && ascii_lowercase(
                m["startingoffsets"@],
            ) != "earliest"@ {
                lemma_partitions_spelled(
                    m["startingoffsets"@],
                    "invalid offsets JSON: "@,
                    start->Err_0,
                );
            }
        }
    }
    let end = choose|end: Result<OffsetTree, Failure>| #[trigger]
        ending_outcome(m, end) && match end {
            Err(failure) => outcome == Err::<OptionsTree, Failure>(failure),
            Ok(end) => outcome == assembled(m, topics, start->Ok_0, end),
        };
    assert(ending_outcome(m, end));
    assert(end is Ok) by {
        if end is Err {
            if m.contains_key("endingtimestamp"@) {
            } else if m.contains_key("endingoffsetsbytimestamp"@) {
                lemma_partitions_spelled(
                    m["endingoffsetsbytimestamp"@],
                    "invalid endingOffsetsByTimestamp JSON: "@,
                    end->Err_0,
                );
            } else if m.contains_key("endingoffsets"@) && ascii_lowercase(m["endingoffsets"@])
                != "latest"@ {
                lemma_partitions_spelled(
                    m["endingoffsets"@],
                    "invalid offsets JSON: "@,
                    end->Err_0,
                );
            }
        }
    }
}

proof fn lemma_partitions_spelled(text: Seq<char>, what: Seq<char>, failure: Failure)
    requires
        partitions_spelled(text),
    ensures
        !offset_map_outcome(text, what, Err(failure)),
{
}

/// Options are merged under their names in lower case, and under no other name. The value of a name
/// is that of an option so spelled in the last of the maps that has one.
pub proof fn law_merged_options_are_those_given(options: Seq<StringMap<String>>)
    ensures
        forall|name: Seq<char>| #[trigger]
            merged_options(options).contains_key(name) <==> exists|i: int, k: Seq<char>|
                0 <= i < options.len() && #[trigger] options[i]@.contains_key(k) && lowercase(k)
                    == name,
        forall|name: Seq<char>| #[trigger]
            merged_options(options).contains_key(name) ==> exists|i: int, k: Seq<char>|
                0 <= i < options.len() && #[trigger] options[i]@.contains_key(k) && lowercase(k)
                    == name && merged_options(options)[name] == options[i]@[k] && forall|
                    j: int,
                    l: Seq<char>,
                |
                    i < j < options.len() && #[trigger] options[j]@.contains_key(l) ==> lowercase(
                        l,
                    ) != name,
    decreases options.len(),
{
    if options.len() > 0 {
        let front = options.drop_last();
        let last = options.len() - 1;
        let later = options[last];
        law_merged_options_are_those_given(front);
        assert(front.push(later) =~= options);
        law_later_options_win(front, later);
        let all = merged_options(options);
        let before = merged_options(front);
        let added = merged_options(seq![later]);
        assert(all == before.union_prefer_right(added));
        lemma_one_map(later);
        assert forall|i: int| 0 <= i < last implies #[trigger] front[i] == options[i] by {}
        assert forall|name: Seq<char>| #[trigger] all.contains_key(name) implies exists|
            i: int,
            k: Seq<char>,
        |
            0 <= i < options.len() && #[trigger] options[i]@.contains_key(k) && lowercase(k) == name
                && all[name] == options[i]@[k] && forall|j: int, l: Seq<char>|
                i < j < options.len() && #[trigger] options[j]@.contains_key(l) ==> lowercase(l)
                    != name by {
            if added.contains_key(name) {
                let k = choose|k: Seq<char>| #[trigger]
                    later@.contains_key(k) && lowercase(k) == name && added[name] == later@[k];
                assert(options[last]@.contains_key(k));
            } else {
                let (i, k) = choose|i: int, k: Seq<char>|
                    0 <= i < front.len() && #[trigger] front[i]@.contains_key(k) && lowercase(k)
                        == name && before[name] == front[i]@[k] && forall|j: int, l: Seq<char>|
                        i < j < front.len() && #[trigger] front[j]@.contains_key(l) ==> lowercase(l)
                            != name;
                assert(options[i]@.contains_key(k));
                assert forall|j: int, l: Seq<char>|
                    i < j < options.len() && #[trigger] options[j]@.contains_key(
                        l,
                    ) implies lowercase(l) != name by {
                    if j < last {
                        assert(front[j]@.contains_key(l));
                    } else if lowercase(l) == name {
                        assert(later@.contains_key(l));
                    }
                }
            }
        }
        assert forall|i: int, k: Seq<char>|
            0 <= i < options.len() && #[trigger] options[i]@.contains_key(
                k,
            ) implies all.contains_key(lowercase(k)) by {
            if i < last {
                assert(front[i]@.contains_key(k));
                assert(before.contains_key(lowercase(k)));
            } else {
                assert(later@.contains_key(k));
            }
        }
    }
}

proof fn lemma_one_map(map: StringMap<String>)
    ensures
        forall|k: Seq<char>| #[trigger]
            map@.contains_key(k) ==> merged_options(seq![map]).contains_key(lowercase(k)),
        forall|name: Seq<char>| #[trigger]
            merged_options(seq![map]).contains_key(name) ==> exists|k: Seq<char>| #[trigger]
                map@.contains_key(k) && lowercase(k) == name && merged_options(seq![map])[name]
                    == map@[k],
{
    let lower = |p: (Seq<char>, Seq<char>)| (lowercase(p.0), p.1);
    let all = map.pairs();
    let pairs = all.map_values(lower);
    assert(seq![map].drop_last() =~= Seq::<StringMap<String>>::empty());
    assert(merged_pairs(seq![map].drop_last()) =~= Seq::<(Seq<char>, Seq<char>)>::empty());
    assert(merged_pairs(seq![map]) =~= pairs);
    lemma_pairs_map_members(all);
    lemma_pairs_map_members(pairs);
    assert forall|k: Seq<char>| #[trigger] map@.contains_key(k) implies merged_options(
        seq![map],
    ).contains_key(lowercase(k)) by {
        let j = choose|j: int| 0 <= j < all.len() && (#[trigger] all[j]).0 == k;
        assert(pairs[j].0 == lowercase(k));
    }
    assert forall|name: Seq<char>| #[trigger]
        merged_options(seq![map]).contains_key(name) implies exists|k: Seq<char>| #[trigger]
        map@.contains_key(k) && lowercase(k) == name && merged_options(seq![map])[name]
            == map@[k] by {
        let j = choose|j: int|
            0 <= j < pairs.len() && (#[trigger] pairs[j]).0 == name && pairs_map(pairs)[name]
                == pairs[j].1 && forall|l: int| j < l < pairs.len() ==> (#[trigger] pairs[l]).0
                != name;
        let k = all[j].0;
        assert(map@.contains_key(k));
        let i = choose|i: int|
            0 <= i < all.len() && (#[trigger] all[i]).0 == k && pairs_map(all)[k] == all[i].1
                && forall|l: int| i < l < all.len() ==> (#[trigger] all[l]).0 != k;
        assert(pairs[i].0 == name);
        assert(i == j);
    }
}

proof fn lemma_pairs_map_members(pairs: Seq<(Seq<char>, Seq<char>)>)
    ensures
        forall|j: int|
            0 <= j < pairs.len() ==> pairs_map(pairs).contains_key((#[trigger] pairs[j]).0),
        forall|name: Seq<char>| #[trigger]
            pairs_map(pairs).contains_key(name) ==> exists|j: int|
                0 <= j < pairs.len() && (#[trigger] pairs[j]).0 == name && pairs_map(pairs)[name]
                    == pairs[j].1 && forall|l: int| j < l < pairs.len() ==> (#[trigger] pairs[l]).0
                    != name,
    decreases pairs.len(),
{
    if pairs.len() > 0 {
        let front = pairs.drop_last();
        lemma_pairs_map_members(front);
        assert forall|j: int| 0 <= j < pairs.len() implies pairs_map(pairs).contains_key(
            (#[trigger] pairs[j]).0,
        ) by {
            if j < front.len() {
                assert(front[j] == pairs[j]);
            }
        }
        assert forall|name: Seq<char>| #[trigger] pairs_map(pairs).contains_key(name) implies exists|
            j: int,
        |
            0 <= j < pairs.len() && (#[trigger] pairs[j]).0 == name && pairs_map(pairs)[name]
                == pairs[j].1 && forall|l: int| j < l < pairs.len() ==> (#[trigger] pairs[l]).0
                != name by {
            if name == pairs.last().0 {
                assert(pairs[pairs.len() - 1].0 == name);
            } else {
                assert(pairs_map(front).contains_key(name));
                let j = choose|j: int|
                    0 <= j < front.len() && (#[trigger] front[j]).0 == name && pairs_map(
                        front,
                    )[name] == front[j].1 && forall|l: int|
                        j < l < front.len() ==> (#[trigger] front[l]).0 != name;
                assert(pairs[j] == front[j]);
                assert forall|l: int| j < l < pairs.len() implies (#[trigger] pairs[l]).0
                    != name by {
                    if l < front.len() {
                        assert(front[l] == pairs[l]);
                    }
                }
            }
        }
    }
}

/// A client has every setting of the options, and besides them nothing but the servers, the rule on
/// commits, the deserializers and its group, each where the options do not set it themselves. The
/// group is the prefix of the options and the identifier, with a hyphen between.
pub proof fn law_client_has_the_settings(options: OptionsTree, id: Seq<char>, name: Seq<char>)
    ensures
        ({
            let settings = client_settings(options, group_id(options, id));
            let bytes = "org.apache.kafka.common.serialization.ByteArrayDeserializer"@;
            let own = options.kafka_properties;
            &&& own.contains_key(name) ==> settings.contains_key(name) && settings[name]
                == own[name]
            &&& !own.contains_key(name) ==> {
                &&& name == "bootstrap.servers"@ ==> settings.contains_key(name) && settings[name]
                    == options.bootstrap_servers
                &&& name == "enable.auto.commit"@ ==> settings.contains_key(name) && settings[name]
                    == "false"@
                &&& name == "key.deserializer"@ ==> settings.contains_key(name) && settings[name]
                    == bytes
                &&& name == "value.deserializer"@ ==> settings.contains_key(name) && settings[name]
                    == bytes
                &&& name == "group.id"@ ==> settings.contains_key(name) && settings[name]
                    == options.group_id_prefix.push('-') + id
                &&& settings.contains_key(name) ==> name == "bootstrap.servers"@ || name
                    == "enable.auto.commit"@ || name == "key.deserializer"@ || name
                    == "value.deserializer"@ || name == "group.id"@
            }
        }),
{
    reveal_strlit("bootstrap.servers");
    reveal_strlit("enable.auto.commit");
    reveal_strlit("key.deserializer");
    reveal_strlit("value.deserializer");
    reveal_strlit("group.id");
    reveal_strlit("-");
    assert("-"@ =~= seq!['-']);
    assert(group_id(options, id) =~= options.group_id_prefix.push('-') + id);
    assert("bootstrap.servers"@.len() == 17);
    assert("enable.auto.commit"@.len() == 18);
    assert("key.deserializer"@.len() == 16);
    assert("value.deserializer"@.len() == 18);
    assert("value.deserializer"@[0] != "enable.auto.commit"@[0]);
    assert("group.id"@.len() == 8);
}

/// Options stand for what they hold.
pub proof fn law_options_stand_for_their_fields(options: KafkaReadOptions)
    ensures
        options@.bootstrap_servers == options.bootstrap_servers@,
        options@.fail_on_data_loss == options.fail_on_data_loss,
        options@.include_headers == options.include_headers,
        options@.min_partitions == options.min_partitions,
        options@.group_id_prefix == options.group_id_prefix@,
        options@.poll_timeout_ms == options.poll_timeout_ms,
        options@.fetch_offset_num_retries == options.fetch_offset_num_retries,
        options@.fetch_offset_retry_interval_ms == options.fetch_offset_retry_interval_ms,
        options@.value_format == options.value_format,
        options@.kafka_properties == options.kafka_properties@,
        options@.schema_registry_url == match options.schema_registry_url {
            Some(url) => Some(url@),
            None => None,
        },
        options@.value_schema_subject == match options.value_schema_subject {
            Some(subject) => Some(subject@),
            None => None,
        },
        options@.topic_selection == match options.topic_selection {
            TopicSelection::Subscribe(topics) => SelectionTree::Subscribe(
                topics@.map_values(|s: String| s@),
            ),
            TopicSelection::SubscribePattern(pattern) => SelectionTree::SubscribePattern(pattern@),
            TopicSelection::Assign(map) => SelectionTree::Assign(map@),
        },
        options@.starting_offsets == match options.starting_offsets {
            OffsetSpec::Earliest => OffsetTree::Earliest,
            OffsetSpec::Latest => OffsetTree::Latest,
            OffsetSpec::PerPartition(map) => OffsetTree::PerPartition(map@),
            OffsetSpec::ByTimestamp(map) => OffsetTree::ByTimestamp(map@),
            OffsetSpec::GlobalTimestamp(ms) => OffsetTree::GlobalTimestamp(ms),
        },
        options@.ending_offsets == match options.ending_offsets {
            OffsetSpec::Earliest => OffsetTree::Earliest,
            OffsetSpec::Latest => OffsetTree::Latest,
            OffsetSpec::PerPartition(map) => OffsetTree::PerPartition(map@),
            OffsetSpec::ByTimestamp(map) => OffsetTree::ByTimestamp(map@),
            OffsetSpec::GlobalTimestamp(ms) => OffsetTree::GlobalTimestamp(ms),
        },
{
    if let TopicSelection::Subscribe(topics) = options.topic_selection {
        assert(texts(topics@) =~= topics@.map_values(|s: String| s@));
    }
}

/// A setting that a caller may not make is named in the failure, the first of them in the order of
/// the offset reset, the two deserializers, the commits and the interceptors.
pub proof fn law_forbidden_setting_is_named(
    m: MergedOptions,
    outcome: Result<OptionsTree, Failure>,
)
    requires
        options_outcome(m, outcome),
        m.contains_key("kafka.bootstrap.servers"@),
    ensures
        m.contains_key("kafka.auto.offset.reset"@) ==> outcome is Err
            && ("Kafka option '"@ + "auto.offset.reset"@ + "' is not supported. "@).is_prefix_of(
            outcome->Err_0.text,
        ),
        m.contains_key("kafka.key.deserializer"@) && !m.contains_key("kafka.auto.offset.reset"@)
            ==> outcome is Err && ("Kafka option '"@ + "key.deserializer"@
            + "' is not supported. "@).is_prefix_of(outcome->Err_0.text),
        m.contains_key("kafka.value.deserializer"@) && !m.contains_key("kafka.auto.offset.reset"@)
            && !m.contains_key("kafka.key.deserializer"@) ==> outcome is Err && ("Kafka option '"@
            + "value.deserializer"@ + "' is not supported. "@).is_prefix_of(outcome->Err_0.text),
        m.contains_key("kafka.enable.auto.commit"@) && !m.contains_key("kafka.auto.offset.reset"@)
            && !m.contains_key("kafka.key.deserializer"@) && !m.contains_key(
            "kafka.value.deserializer"@,
        ) ==> outcome is Err && ("Kafka option '"@ + "enable.auto.commit"@
            + "' is not supported. "@).is_prefix_of(outcome->Err_0.text),
        m.contains_key("kafka.interceptor.classes"@) && !m.contains_key("kafka.auto.offset.reset"@)
            && !m.contains_key("kafka.key.deserializer"@) && !m.contains_key(
            "kafka.value.deserializer"@,
        ) && !m.contains_key("kafka.enable.auto.commit"@) ==> outcome is Err && ("Kafka option '"@
            + "interceptor.classes"@ + "' is not supported. "@).is_prefix_of(outcome->Err_0.text),
{
}

/// An option that cannot be read is named in the failure with its value: a number behind a text of
/// its own, and a format between the two parts of one that lists the formats there are.
pub proof fn law_unreadable_value_is_named(
    m: MergedOptions,
    name: Seq<char>,
    high: int,
    what: Seq<char>,
)
    ensures
        number_option(m, name, high, what) is Err <==> m.contains_key(name) && integer(
            m[name],
            0,
            high,
        ) is None,
        number_option(m, name, high, what) matches Err(failure) ==> failure.kind
            == FailureKind::Config && failure.text == what + m[name],
        m.contains_key(name) && integer(m[name], 0, high) is Some ==> number_option(
            m,
            name,
            high,
            what,
        ) == Ok::<_, Failure>(integer(m[name], 0, high)),
        !m.contains_key(name) ==> number_option(m, name, high, what) == Ok::<_, Failure>(
            None::<int>,
        ),
        format_option(m) matches Err(failure) ==> failure.kind == FailureKind::Plan && failure.text
            == "unsupported value.format: "@ + m["value.format"@]
            + ". Supported: avro, json, raw"@,
{
}

/// An option whose name is of ASCII characters is merged under that name in small letters.
pub proof fn law_ascii_names_are_merged_in_small_letters(
    options: Seq<StringMap<String>>,
    i: int,
    name: Seq<char>,
)
    requires
        ascii_names_lowered(options),
        0 <= i < options.len(),
        options[i]@.contains_key(name),
        ascii_only(name),
    ensures
        merged_options(options).contains_key(ascii_lowercase(name)),
{
    law_merged_options_are_those_given(options);
    assert(lowercase(name) == ascii_lowercase(name));
}

proof fn lemma_sixteenth_power(e: nat, value: int)
    requires
        vstd::arithmetic::power::pow(16, e) == value,
    ensures
        vstd::arithmetic::power::pow(16, e + e) == value * value,
{
    vstd::arithmetic::power::lemma_pow_adds(16, e, e);
}

/// An identifier has 32 digits, and different numbers have different identifiers.
pub proof fn law_identifiers_differ(n: u128, m: u128)
    ensures
        identifier(n).len() == 32,
        n != m ==> identifier(n) != identifier(m),
{
    vstd::arithmetic::power::lemma_pow1(16);
    lemma_sixteenth_power(1, 0x10);
    lemma_sixteenth_power(2, 0x100);
    lemma_sixteenth_power(4, 0x1_0000);
    lemma_sixteenth_power(8, 0x1_0000_0000);
    lemma_sixteenth_power(16, 0x1_0000_0000_0000_0000);
    assert(0x1_0000_0000_0000_0000int * 0x1_0000_0000_0000_0000
        == 0x1_0000_0000_0000_0000_0000_0000_0000_0000);
    law_hex_digits_tell_numbers_apart(n as nat, m as nat, 32);
}

/// Numbers by partition are read as those of their keys, or the failure names a key that spells no
/// partition; and they are read wherever each key spells one.
pub proof fn law_partition_keys_are_read(
    parsed: Map<Seq<char>, Map<Seq<char>, i64>>,
    outcome: Result<Map<Seq<char>, Map<i32, i64>>, Failure>,
)
    requires
        partition_map_outcome(parsed, outcome),
    ensures
        match outcome {
            Ok(read) => read_as_partitions(parsed, read),
            Err(failure) => failure.kind == FailureKind::Config && exists|
                t: Seq<char>,
                p: Seq<char>,
            |
                parsed.contains_key(t) && #[trigger] parsed[t].contains_key(p) && integer(
                    p,
                    i32::MIN as int,
                    i32::MAX as int,
                ) is None && failure.text == "invalid partition number: "@ + p,
        },
        (forall|t: Seq<char>, p: Seq<char>|
            parsed.contains_key(t) && #[trigger] parsed[t].contains_key(p) ==> integer(
                p,
                i32::MIN as int,
                i32::MAX as int,
            ) is Some) ==> outcome is Ok,
{
    match outcome {
        Ok(read) => {
            lemma_partitions_are_read(parsed, read);
        },
        Err(failure) => {
            let (t, p) = choose|t: Seq<char>, p: Seq<char>|
                parsed.contains_key(t) && #[trigger] parsed[t].contains_key(p) && partition_number(
                    p,
                ) is None && failure == config_failure("invalid partition number: "@ + p);
            assert(parsed[t].contains_key(p));
        },
    }
}

} // verus!
