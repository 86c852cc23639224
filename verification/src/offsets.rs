//! Which offsets of which partitions to read.

use vstd::prelude::*;

use crate::error::{config_error, config_failure, Failure, FailureKind, ReadError};
use crate::map::StringMap;
use crate::options::{KafkaReadOptions, OffsetSpec, OffsetTree, TopicSelection};
use crate::text::{decimal, decimal_text, joined, same_text};

verus! {

/// The offsets of a partition to read, from the first up to but without the last.
#[derive(Debug)]
pub struct KafkaPartitionRange {
    pub topic: String,
    pub partition: i32,
    pub start_offset: i64,
    pub end_offset: i64,
}

/// What a `KafkaPartitionRange` stands for.
pub struct RangeTree {
    pub topic: Seq<char>,
    pub partition: i32,
    pub start_offset: i64,
    pub end_offset: i64,
}

impl View for KafkaPartitionRange {
    type V = RangeTree;

    open spec fn view(&self) -> RangeTree {
        RangeTree {
            topic: self.topic@,
            partition: self.partition,
            start_offset: self.start_offset,
            end_offset: self.end_offset,
        }
    }
}

/// What a list of ranges stands for.
pub open spec fn range_trees(ranges: Seq<KafkaPartitionRange>) -> Seq<RangeTree> {
    ranges.map_values(|r: KafkaPartitionRange| r@)
}

impl KafkaPartitionRange {
    /// A range with the same contents.
    pub fn duplicate(&self) -> (r: KafkaPartitionRange)
        ensures
            r@ == self@,
    {
        KafkaPartitionRange {
            topic: self.topic.clone(),
            partition: self.partition,
            start_offset: self.start_offset,
            end_offset: self.end_offset,
        }
    }
}

/// What Kafka says of a topic: its name and its partitions.
#[derive(Debug)]
pub struct TopicMetadata {
    pub name: String,
    pub partitions: Vec<i32>,
}

/// A partition of a topic.
pub type TopicPartition = (Seq<char>, i32);

/// What a list of partitions of topics stands for.
pub open spec fn partition_views(list: Seq<(String, i32)>) -> Seq<TopicPartition> {
    list.map_values(|p: (String, i32)| (p.0@, p.1))
}

/// The partitions `partitions` of the topic `name`.
pub open spec fn partitions_of(name: Seq<char>, partitions: Seq<i32>) -> Seq<TopicPartition> {
    partitions.map_values(|p: i32| (name, p))
}

/// The position of the first topic with the name `name`, or the number of topics where there is
/// none.
pub open spec fn topic_position(topics: Seq<TopicMetadata>, name: Seq<char>) -> int
    decreases topics.len(),
{
    if topics.len() == 0 {
        0
    } else if topic_position(topics.drop_last(), name) < topics.len() - 1 {
        topic_position(topics.drop_last(), name)
    } else if topics.last().name@ == name {
        topics.len() - 1
    } else {
        topics.len() as int
    }
}

proof fn lemma_topic_position(topics: Seq<TopicMetadata>, name: Seq<char>)
    ensures
        0 <= topic_position(topics, name) <= topics.len(),
        topic_position(topics, name) < topics.len() ==> topics[topic_position(topics, name)].name@
            == name,
        forall|j: int| 0 <= j < topic_position(topics, name) ==> (#[trigger] topics[j]).name@ != name,
    decreases topics.len(),
{
    if topics.len() > 0 {
        let front = topics.drop_last();
        lemma_topic_position(front, name);
        assert forall|j: int| 0 <= j < topic_position(topics, name) implies (
        #[trigger] topics[j]).name@ != name by {
            if j < front.len() {
                assert(front[j] == topics[j]);
            }
        }
    }
}

/// The partitions of the topics `names`, or the failure of the first that does not exist.
pub open spec fn subscribed(topics: Seq<TopicMetadata>, names: Seq<String>) -> Result<
    Seq<TopicPartition>,
    Failure,
>
    decreases names.len(),
{
    if names.len() == 0 {
        Ok(Seq::empty())
    } else {
        match subscribed(topics, names.drop_last()) {
            Ok(done) => {
                let name = names.last()@;
                let i = topic_position(topics, name);
                if i < topics.len() {
                    Ok(done + partitions_of(name, topics[i].partitions@))
                } else {
                    Err(config_failure("topic not found: "@ + name))
                }
            },
            Err(failure) => Err(failure),
        }
    }
}

/// The partitions of the topics whose names match `pattern`.
pub open spec fn matching(topics: Seq<TopicMetadata>, pattern: Seq<char>) -> Seq<TopicPartition>
    decreases topics.len(),
{
    if topics.len() == 0 {
        Seq::empty()
    } else {
        let front = matching(topics.drop_last(), pattern);
        if pattern_matches(pattern, topics.last().name@) {
            front + partitions_of(topics.last().name@, topics.last().partitions@)
        } else {
            front
        }
    }
}

/// The partitions of an assignment.
pub open spec fn assigned(pairs: Seq<(Seq<char>, Seq<i32>)>) -> Seq<TopicPartition>
    decreases pairs.len(),
{
    if pairs.len() == 0 {
        Seq::empty()
    } else {
        assigned(pairs.drop_last()) + partitions_of(pairs.last().0, pairs.last().1)
    }
}

/// The partitions that a selection takes of `topics`.
pub open spec fn selected_partitions(topics: Seq<TopicMetadata>, selection: TopicSelection) -> Result<
    Seq<TopicPartition>,
    Failure,
> {
    match selection {
        TopicSelection::Subscribe(names) => subscribed(topics, names@),
        TopicSelection::SubscribePattern(pattern) => match regex_error(pattern@) {
            Some(error) => Err(config_failure("invalid subscribePattern regex: "@ + error)),
            None => Ok(matching(topics, pattern@)),
        },
        TopicSelection::Assign(map) => Ok(assigned(map.pairs())),
    }
}

/// A compiled regular expression.
#[verifier::external_type_specification]
#[verifier::external_body]
pub struct ExRegex(regex::Regex);

/// The error of a regular expression that does not compile.
#[verifier::external_type_specification]
#[verifier::external_body]
pub struct ExRegexError(regex::Error);

/// The pattern that a regular expression was made of.
pub uninterp spec fn pattern_of(re: regex::Regex) -> Seq<char>;

/// The text with which an error of `regex` describes itself.
pub uninterp spec fn regex_error_text_of(error: regex::Error) -> Seq<char>;

/// The description of the error where `Regex::new` does not accept the pattern.
pub uninterp spec fn regex_error(pattern: Seq<char>) -> Option<Seq<char>>;

/// Whether the regular expression of the pattern matches anywhere in the text.
pub uninterp spec fn pattern_matches(pattern: Seq<char>, text: Seq<char>) -> bool;

/// Calls `Regex::new`. Claimed: whether the pattern is accepted, and else the description of the
/// error, depends on the pattern alone, and the regular expression is that of the pattern.
#[verifier::external_body]
fn compile(pattern: &str) -> (r: Result<regex::Regex, regex::Error>)
    ensures
        match r {
            Ok(re) => regex_error(pattern@) is None && pattern_of(re) == pattern@,
            Err(error) => regex_error(pattern@) == Some(regex_error_text_of(error)),
        },
{
    regex::Regex::new(pattern)
}

/// Calls `to_string` of `regex::Error`. Claimed: the description depends on the error alone.
#[verifier::external_body]
fn regex_error_text(error: &regex::Error) -> (r: String)
    ensures
        r@ == regex_error_text_of(*error),
{
    error.to_string()
}

/// Calls `Regex::is_match`. Claimed: the answer depends on the pattern and the text alone.
#[verifier::external_body]
fn is_match(re: &regex::Regex, text: &str) -> (r: bool)
    ensures
        r == pattern_matches(pattern_of(*re), text@),
{
    re.is_match(text)
}

/// Adds the partitions `partitions` of the topic `name`.
fn add_partitions(list: &mut Vec<(String, i32)>, name: &String, partitions: &Vec<i32>)
    ensures
        partition_views(final(list)@) == partition_views(old(list)@) + partitions_of(
            name@,
            partitions@,
        ),
{
    let ghost before = partition_views(list@);
    let ghost added = partitions_of(name@, partitions@);
    let mut i: usize = 0;
    assert(before + added.take(0) =~= before);
    while i < partitions.len()
        invariant
            i <= partitions.len(),
            added == partitions_of(name@, partitions@),
            partition_views(list@) == before + added.take(i as int),
        decreases partitions.len() - i,
    {
        let ghost now = partition_views(list@);
        list.push((name.clone(), partitions[i]));
        assert(partition_views(list@) =~= now.push(added[i as int]));
        assert(before + added.take(i + 1) =~= (before + added.take(i as int)).push(
            added[i as int],
        ));
        i = i + 1;
    }
    assert(added.take(added.len() as int) =~= added);
}

proof fn lemma_subscribed_failure(topics: Seq<TopicMetadata>, names: Seq<String>, m: int)
    requires
        0 <= m <= names.len(),
        subscribed(topics, names.take(m)) is Err,
    ensures
        subscribed(topics, names) == subscribed(topics, names.take(m)),
    decreases names.len(),
{
    if m < names.len() {
        assert(names.drop_last().take(m) =~= names.take(m));
        lemma_subscribed_failure(topics, names.drop_last(), m);
    } else {
        assert(names.take(m) =~= names);
    }
}

/// The partitions that a selection takes of the topics that Kafka has.
pub fn resolve_topic_partitions(topics: &Vec<TopicMetadata>, selection: &TopicSelection) -> (r:
    Result<Vec<(String, i32)>, ReadError>)
    ensures
        match r {
            Ok(list) => selected_partitions(topics@, *selection) == Ok::<_, Failure>(
                partition_views(list@),
            ),
            Err(error) => selected_partitions(topics@, *selection) == Err::<
                Seq<TopicPartition>,
                _,
            >(error@),
        },
{
    let mut list: Vec<(String, i32)> = Vec::new();
    assert(partition_views(list@) =~= Seq::<TopicPartition>::empty());
    match selection {
        TopicSelection::Subscribe(names) => {
            let mut i: usize = 0;
            assert(names@.take(0) =~= Seq::<String>::empty());
            while i < names.len()
                invariant
                    i <= names.len(),
                    *selection == TopicSelection::Subscribe(*names),
                    subscribed(topics@, names@.take(i as int)) == Ok::<_, Failure>(
                        partition_views(list@),
                    ),
                decreases names.len() - i,
            {
                let name: &String = &names[i];
                let ghost done = names@.take(i + 1);
                assert(done.drop_last() =~= names@.take(i as int));
                assert(done.last() == *name);
                let mut j: usize = 0;
                while j < topics.len() && !same_text(topics[j].name.as_str(), name.as_str())
                    invariant
                        j <= topics.len(),
                        forall|k: int| 0 <= k < j ==> (#[trigger] topics@[k]).name@ != name@,
                    decreases topics.len() - j,
                {
                    j = j + 1;
                }
                proof {
                    lemma_topic_position(topics@, name@);
                }
                if j < topics.len() {
                    assert(j == topic_position(topics@, name@));
                    add_partitions(&mut list, name, &topics[j].partitions);
                } else {
                    proof {
                        lemma_subscribed_failure(topics@, names@, i + 1);
                    }
                    return Err(config_error(joined("topic not found: ", name.as_str())));
                }
                i = i + 1;
            }
            assert(names@.take(names@.len() as int) =~= names@);
            Ok(list)
        },
        TopicSelection::SubscribePattern(pattern) => {
            let re: regex::Regex = match compile(pattern.as_str()) {
                Ok(re) => re,
                Err(error) => {
                    let text: String = regex_error_text(&error);
                    return Err(
                        config_error(joined("invalid subscribePattern regex: ", text.as_str())),
                    );
                },
            };
            let mut i: usize = 0;
            assert(topics@.take(0) =~= Seq::<TopicMetadata>::empty());
            while i < topics.len()
                invariant
                    i <= topics.len(),
                    pattern_of(re) == pattern@,
                    partition_views(list@) == matching(topics@.take(i as int), pattern@),
                decreases topics.len() - i,
            {
                assert(topics@.take(i + 1).drop_last() =~= topics@.take(i as int));
                assert(topics@.take(i + 1).last() == topics@[i as int]);
                if is_match(&re, topics[i].name.as_str()) {
                    add_partitions(&mut list, &topics[i].name, &topics[i].partitions);
                }
                i = i + 1;
            }
            assert(topics@.take(topics@.len() as int) =~= topics@);
            Ok(list)
        },
        TopicSelection::Assign(map) => {
            let n: usize = map.len();
            let ghost all = map.pairs();
            let mut i: usize = 0;
            assert(all.take(0) =~= Seq::<(Seq<char>, Seq<i32>)>::empty());
            while i < n
                invariant
                    i <= n,
                    n == all.len(),
                    all == map.pairs(),
                    partition_views(list@) == assigned(all.take(i as int)),
                decreases n - i,
            {
                assert(all.take(i + 1).drop_last() =~= all.take(i as int));
                assert(all.take(i + 1).last() == all[i as int]);
                add_partitions(&mut list, map.key_at(i), map.value_at(i));
                i = i + 1;
            }
            assert(all.take(n as int) =~= all);
            Ok(list)
        },
    }
}

/// What is known of an offset: the offset itself, or the time in milliseconds by which Kafka has to
/// find it.
#[derive(Debug, Clone, Copy, PartialEq, Eq, Structural)]
pub enum OffsetDecision {
    Offset(i64),
    ByTime(i64),
}

/// The number that a map holds for a partition of a topic.
pub open spec fn partition_entry(
    map: Map<Seq<char>, Map<i32, i64>>,
    topic: Seq<char>,
    partition: i32,
) -> Option<i64> {
    if map.contains_key(topic) && map[topic].contains_key(partition) {
        Some(map[topic][partition])
    } else {
        None
    }
}

/// Where `spec` puts the start or the end of a partition whose messages lie from `low` up to but
/// without `high`. As a given offset, -2 means the earliest and -1 the latest. Where nothing is
/// given for the partition, a start is the earliest and an end the latest.
pub open spec fn single_offset(
    spec: OffsetTree,
    topic: Seq<char>,
    partition: i32,
    low: i64,
    high: i64,
    is_starting: bool,
) -> OffsetDecision {
    let default = if is_starting {
        low
    } else {
        high
    };
    match spec {
        OffsetTree::Earliest => OffsetDecision::Offset(low),
        OffsetTree::Latest => OffsetDecision::Offset(high),
        OffsetTree::PerPartition(map) => match partition_entry(map, topic, partition) {
            Some(offset) => if offset == -2 {
                OffsetDecision::Offset(low)
            } else if offset == -1 {
                OffsetDecision::Offset(high)
            } else {
                OffsetDecision::Offset(offset)
            },
            None => OffsetDecision::Offset(default),
        },
        OffsetTree::ByTimestamp(map) => match partition_entry(map, topic, partition) {
            Some(ms) => OffsetDecision::ByTime(ms),
            None => OffsetDecision::Offset(default),
        },
        OffsetTree::GlobalTimestamp(ms) => OffsetDecision::ByTime(ms),
    }
}

/// The number that a map holds for a partition of a topic.
fn lookup(
    map: &StringMap<std::collections::HashMap<i32, i64>>,
    topic: &str,
    partition: i32,
) -> (r: Option<i64>)
    ensures
        r == partition_entry(map@, topic@, partition),
{
    broadcast use vstd::std_specs::hash::group_hash_axioms;

    match map.get(topic) {
        Some(partitions) => match partitions.get(&partition) {
            Some(n) => Some(*n),
            None => None,
        },
        None => None,
    }
}

/// Where `spec` puts the start or the end of a partition.
pub fn resolve_single_offset(
    spec: &OffsetSpec,
    topic: &str,
    partition: i32,
    low_watermark: i64,
    high_watermark: i64,
    is_starting: bool,
) -> (r: OffsetDecision)
    ensures
        r == single_offset(
            spec@,
            topic@,
            partition,
            low_watermark,
            high_watermark,
            is_starting,
        ),
{
    let default: i64 = if is_starting {
        low_watermark
    } else {
        high_watermark
    };
    match spec {
        OffsetSpec::Earliest => OffsetDecision::Offset(low_watermark),
        OffsetSpec::Latest => OffsetDecision::Offset(high_watermark),
        OffsetSpec::PerPartition(map) => match lookup(map, topic, partition) {
            Some(offset) => {
                if offset == -2 {
                    OffsetDecision::Offset(low_watermark)
                } else if offset == -1 {
                    OffsetDecision::Offset(high_watermark)
                } else {
                    OffsetDecision::Offset(offset)
                }
            },
            None => OffsetDecision::Offset(default),
        },
        OffsetSpec::ByTimestamp(map) => match lookup(map, topic, partition) {
            Some(ms) => OffsetDecision::ByTime(ms),
            None => OffsetDecision::Offset(default),
        },
        OffsetSpec::GlobalTimestamp(ms) => OffsetDecision::ByTime(*ms),
    }
}

/// What Kafka answers when it is asked for the offset of a time.
#[derive(Debug, Clone, Copy, PartialEq, Eq, Structural)]
pub enum TimeReply {
    /// This offset.
    Offset(i64),
    /// The end of the partition.
    End,
    /// Something that is no offset.
    Other,
    /// Nothing for the partition.
    Missing,
}

/// What follows from a `TimeReply`.
pub enum TimeOutcome {
    /// This is the offset.
    Offset(i64),
    /// The offset is the latest one, which Kafka has to be asked for.
    Latest,
    /// There is no offset.
    Failed(Failure),
}

/// How a partition is written: the topic, a hyphen and the number.
pub open spec fn partition_name(topic: Seq<char>, partition: i32) -> Seq<char> {
    topic + "-"@ + decimal(partition as int)
}

/// What follows for the start or the end of a partition from the answer to the time `ms`: past the
/// last message of a partition a read can end, but not start.
pub open spec fn offset_by_time(
    reply: TimeReply,
    topic: Seq<char>,
    partition: i32,
    ms: i64,
    is_starting: bool,
) -> TimeOutcome {
    match reply {
        TimeReply::Offset(offset) => TimeOutcome::Offset(offset),
        TimeReply::End => TimeOutcome::Latest,
        TimeReply::Other => if is_starting {
            TimeOutcome::Failed(
                config_failure(
                    "no offset found for timestamp "@ + decimal(ms as int) + " on "@
                        + partition_name(topic, partition),
                ),
            )
        } else {
            TimeOutcome::Latest
        },
        TimeReply::Missing => TimeOutcome::Failed(
            config_failure(
                "failed to resolve offset for timestamp "@ + decimal(ms as int) + " on "@
                    + partition_name(topic, partition),
            ),
        ),
    }
}

/// A message on the time `ms` and a partition.
fn time_error(what: &str, topic: &str, partition: i32, ms: i64) -> (r: ReadError)
    ensures
        r@ == config_failure(
            what@ + decimal(ms as int) + " on "@ + partition_name(topic@, partition),
        ),
{
    let mut text: String = joined(what, decimal_text(ms as i128).as_str());
    text.append(" on ");
    let mut name: String = joined(topic, "-");
    name.append(decimal_text(partition as i128).as_str());
    text.append(name.as_str());
    config_error(text)
}

/// The offset that follows from the answer to the time `timestamp_ms`; nothing where the offset is
/// the latest one.
pub fn resolve_offset_by_timestamp(
    reply: TimeReply,
    topic: &str,
    partition: i32,
    timestamp_ms: i64,
    is_starting: bool,
) -> (r: Result<Option<i64>, ReadError>)
    ensures
        ({
            let outcome = offset_by_time(reply, topic@, partition, timestamp_ms, is_starting);
            match r {
                Ok(Some(offset)) => outcome == TimeOutcome::Offset(offset),
                Ok(None) => outcome == TimeOutcome::Latest,
                Err(error) => outcome == TimeOutcome::Failed(error@),
            }
        }),
{
    match reply {
        TimeReply::Offset(offset) => Ok(Some(offset)),
        TimeReply::End => Ok(None),
        TimeReply::Other => {
            if is_starting {
                Err(time_error("no offset found for timestamp ", topic, partition, timestamp_ms))
            } else {
                Ok(None)
            }
        },
        TimeReply::Missing => Err(
            time_error(
                "failed to resolve offset for timestamp ",
                topic,
                partition,
                timestamp_ms,
            ),
        ),
    }
}

/// All that Kafka answers in the course of a resolution, by the position of the partition: the
/// watermarks; the offset of a time for a start or an end; the latest offset for a start or an
/// end.
pub struct Answers {
    pub watermarks: spec_fn(int) -> (i64, i64),
    pub by_time: spec_fn(int, bool) -> TimeReply,
    pub latest: spec_fn(int, bool) -> i64,
}

/// Where the start or the end of the partition at `i` lies, given what Kafka answers.
pub open spec fn resolved_bound(
    spec: OffsetTree,
    at: TopicPartition,
    i: int,
    is_starting: bool,
    answers: Answers,
) -> Result<i64, Failure> {
    let (low, high) = (answers.watermarks)(i);
    match single_offset(spec, at.0, at.1, low, high, is_starting) {
        OffsetDecision::Offset(offset) => Ok(offset),
        OffsetDecision::ByTime(ms) => match offset_by_time(
            (answers.by_time)(i, is_starting),
            at.0,
            at.1,
            ms,
            is_starting,
        ) {
            TimeOutcome::Offset(offset) => Ok(offset),
            TimeOutcome::Latest => Ok((answers.latest)(i, is_starting)),
            TimeOutcome::Failed(failure) => Err(failure),
        },
    }
}

/// The ranges of the first `n` partitions that hold anything to read, or the first failure.
pub open spec fn resolved_ranges(
    start: OffsetTree,
    end: OffsetTree,
    partitions: Seq<TopicPartition>,
    n: int,
    answers: Answers,
) -> Result<Seq<RangeTree>, Failure>
    decreases n,
{
    if n <= 0 {
        Ok(Seq::empty())
    } else {
        let i = n - 1;
        let at = partitions[i];
        match (
            resolved_ranges(start, end, partitions, i, answers),
            resolved_bound(start, at, i, true, answers),
            resolved_bound(end, at, i, false, answers),
        ) {
            (Err(failure), _, _) => Err(failure),
            (_, Err(failure), _) => Err(failure),
            (_, _, Err(failure)) => Err(failure),
            (Ok(done), Ok(from), Ok(to)) => if from < to {
                Ok(
                    done.push(
                        RangeTree {
                            topic: at.0,
                            partition: at.1,
                            start_offset: from,
                            end_offset: to,
                        },
                    ),
                )
            } else {
                Ok(done)
            },
        }
    }
}

/// A failure among the first partitions is the failure of all.
proof fn lemma_resolved_failure(
    start: OffsetTree,
    end: OffsetTree,
    partitions: Seq<TopicPartition>,
    m: int,
    n: int,
    answers: Answers,
)
    requires
        m <= n,
        resolved_ranges(start, end, partitions, m, answers) is Err,
    ensures
        resolved_ranges(start, end, partitions, n, answers) == resolved_ranges(
            start,
            end,
            partitions,
            m,
            answers,
        ),
    decreases n,
{
    if m < n && n > 0 {
        lemma_resolved_failure(start, end, partitions, m, n - 1, answers);
    }
}

/// What a resolver has to know next.
#[derive(Debug)]
pub enum ResolverRequest {
    /// The watermarks of a partition.
    Watermarks { topic: String, partition: i32 },
    /// The offset of a time in a partition.
    ByTime { topic: String, partition: i32, timestamp_ms: i64 },
    /// The latest offset of a partition.
    Latest { topic: String, partition: i32 },
    /// Nothing: all partitions are resolved.
    Done,
}

/// How far a resolver is with a partition.
#[derive(Debug, Clone, Copy, PartialEq, Eq, Structural)]
pub enum ResolverStage {
    Watermarks,
    StartByTime { low: i64, high: i64, ms: i64 },
    StartLatest { low: i64, high: i64 },
    EndByTime { start: i64, ms: i64 },
    EndLatest { start: i64 },
}

/// Finds the offsets of partitions, one after the other, by asking and being answered.
#[derive(Debug)]
pub struct OffsetResolver<'a> {
    pub options: &'a KafkaReadOptions,
    pub partitions: Vec<(String, i32)>,
    pub next: usize,
    pub stage: ResolverStage,
    pub ranges: Vec<KafkaPartitionRange>,
}

impl<'a> OffsetResolver<'a> {
    /// Whether the resolver is in a state that it can be in.
    pub open spec fn well_formed(&self) -> bool {
        &&& self.next <= self.partitions@.len()
        &&& self.next == self.partitions@.len() ==> self.stage == ResolverStage::Watermarks
    }

    /// The partition that the resolver is at.
    pub open spec fn at(&self) -> TopicPartition {
        partition_views(self.partitions@)[self.next as int]
    }

    /// The ranges of all partitions, given what Kafka answers.
    pub open spec fn goal(&self, answers: Answers) -> Result<Seq<RangeTree>, Failure> {
        resolved_ranges(
            self.options.starting_offsets@,
            self.options.ending_offsets@,
            partition_views(self.partitions@),
            self.partitions@.len() as int,
            answers,
        )
    }

    /// Whether what the resolver has found so far accords with what Kafka answers.
    pub open spec fn accords(&self, answers: Answers) -> bool {
        let i = self.next as int;
        let (low, high) = (answers.watermarks)(i);
        let (topic, partition) = self.at();
        let start = self.options.starting_offsets@;
        let end = self.options.ending_offsets@;
        let first = single_offset(start, topic, partition, low, high, true);
        let last = single_offset(end, topic, partition, low, high, false);
        &&& resolved_ranges(start, end, partition_views(self.partitions@), i, answers) == Ok::<
            _,
            Failure,
        >(range_trees(self.ranges@))
        &&& match self.stage {
            ResolverStage::Watermarks => true,
            ResolverStage::StartByTime { low: l, high: h, ms } => {
                &&& (l, h) == (low, high)
                &&& first == OffsetDecision::ByTime(ms)
            },
            ResolverStage::StartLatest { low: l, high: h } => {
                &&& (l, h) == (low, high)
                &&& first is ByTime
                &&& offset_by_time(
                    (answers.by_time)(i, true),
                    topic,
                    partition,
                    first->ByTime_0,
                    true,
                ) is Latest
            },
            ResolverStage::EndByTime { start: s, ms } => {
                &&& resolved_bound(start, self.at(), i, true, answers) == Ok::<_, Failure>(s)
                &&& last == OffsetDecision::ByTime(ms)
            },
            ResolverStage::EndLatest { start: s } => {
                &&& resolved_bound(start, self.at(), i, true, answers) == Ok::<_, Failure>(s)
                &&& last is ByTime
                &&& offset_by_time(
                    (answers.by_time)(i, false),
                    topic,
                    partition,
                    last->ByTime_0,
                    false,
                ) is Latest
            },
        }
    }

    /// How many answers the resolver takes at most until it is done.
    pub open spec fn steps_left(&self) -> int {
        5 * (self.partitions@.len() - self.next) - match self.stage {
            ResolverStage::Watermarks => 0int,
            ResolverStage::StartByTime { .. } => 1,
            ResolverStage::StartLatest { .. } => 2,
            ResolverStage::EndByTime { .. } => 3,
            ResolverStage::EndLatest { .. } => 4,
        }
    }

    /// Whether the resolver differs from `before` in nothing but how far it is.
    pub open spec fn same_task(&self, before: OffsetResolver<'a>) -> bool {
        &&& self.options == before.options
        &&& self.partitions == before.partitions
    }

    /// A resolver of `partitions` that has not asked anything.
    pub fn new(options: &'a KafkaReadOptions, partitions: Vec<(String, i32)>) -> (r: Self)
        ensures
            r.well_formed(),
            r.options == options,
            r.partitions == partitions,
            r.next == 0,
            r.stage == ResolverStage::Watermarks,
            forall|answers: Answers| #[trigger] r.accords(answers),
    {
        let r = OffsetResolver {
            options,
            partitions,
            next: 0,
            stage: ResolverStage::Watermarks,
            ranges: Vec::new(),
        };
        assert(range_trees(r.ranges@) =~= Seq::<RangeTree>::empty());
        r
    }

    /// What the resolver has to know next.
    pub fn request(&self) -> (r: ResolverRequest)
        requires
            self.well_formed(),
        ensures
            r is Done <==> self.next == self.partitions@.len(),
            match r {
                ResolverRequest::Done => true,
                ResolverRequest::Watermarks { topic, partition } => self.stage
                    == ResolverStage::Watermarks && (topic@, partition) == self.at(),
                ResolverRequest::ByTime { topic, partition, timestamp_ms } => (topic@, partition)
                    == self.at() && match self.stage {
                    ResolverStage::StartByTime { ms, .. } => timestamp_ms == ms,
                    ResolverStage::EndByTime { ms, .. } => timestamp_ms == ms,
                    _ => false,
                },
                ResolverRequest::Latest { topic, partition } => (topic@, partition) == self.at()
                    && (self.stage is StartLatest || self.stage is EndLatest),
            },
    {
        if self.next == self.partitions.len() {
            return ResolverRequest::Done;
        }
        let topic: String = self.partitions[self.next].0.clone();
        let partition: i32 = self.partitions[self.next].1;
        match self.stage {
            ResolverStage::Watermarks => ResolverRequest::Watermarks { topic, partition },
            ResolverStage::StartByTime { ms, .. } => ResolverRequest::ByTime {
                topic,
                partition,
                timestamp_ms: ms,
            },
            ResolverStage::EndByTime { ms, .. } => ResolverRequest::ByTime {
                topic,
                partition,
                timestamp_ms: ms,
            },
            ResolverStage::StartLatest { .. } => ResolverRequest::Latest { topic, partition },
            ResolverStage::EndLatest { .. } => ResolverRequest::Latest { topic, partition },
        }
    }

    /// Takes the end of the partition and goes on to the next.
    fn close(&mut self, start: i64, end: i64)
        requires
            old(self).well_formed(),
            old(self).next < old(self).partitions@.len(),
        ensures
            final(self).well_formed(),
            final(self).same_task(*old(self)),
            final(self).next == old(self).next + 1,
            final(self).stage == ResolverStage::Watermarks,
            range_trees(final(self).ranges@) == if start < end {
                range_trees(old(self).ranges@).push(
                    RangeTree {
                        topic: old(self).at().0,
                        partition: old(self).at().1,
                        start_offset: start,
                        end_offset: end,
                    },
                )
            } else {
                range_trees(old(self).ranges@)
            },
    {
        if start < end {
            let ghost before = range_trees(self.ranges@);
            let range = KafkaPartitionRange {
                topic: self.partitions[self.next].0.clone(),
                partition: self.partitions[self.next].1,
                start_offset: start,
                end_offset: end,
            };
            self.ranges.push(range);
            assert(range_trees(self.ranges@) =~= before.push(range@));
        }
        assert(self.next < self.partitions.len());
        self.next = self.next + 1;
        self.stage = ResolverStage::Watermarks;
    }

    /// Takes the start of the partition and finds the end, as far as it is known.
    fn started(&mut self, low: i64, high: i64, start: i64)
        requires
            old(self).well_formed(),
            old(self).next < old(self).partitions@.len(),
            old(self).stage is Watermarks || old(self).stage is StartByTime
                || old(self).stage is StartLatest,
        ensures
            final(self).well_formed(),
            final(self).same_task(*old(self)),
            final(self).steps_left() < old(self).steps_left(),
            forall|answers: Answers|
                #![trigger final(self).accords(answers)]
                old(self).accords(answers) && (answers.watermarks)(old(self).next as int) == (
                    low,
                    high,
                ) && resolved_bound(
                    old(self).options.starting_offsets@,
                    old(self).at(),
                    old(self).next as int,
                    true,
                    answers,
                ) == Ok::<_, Failure>(start) ==> final(self).accords(answers),
    {
        let decision: OffsetDecision = resolve_single_offset(
            &self.options.ending_offsets,
            self.partitions[self.next].0.as_str(),
            self.partitions[self.next].1,
            low,
            high,
            false,
        );
        match decision {
            OffsetDecision::Offset(end) => {
                self.close(start, end);
            },
            OffsetDecision::ByTime(ms) => {
                self.stage = ResolverStage::EndByTime { start, ms };
            },
        }
    }

    /// Takes the watermarks that were asked for.
    pub fn watermarks(&mut self, low: i64, high: i64)
        requires
            old(self).well_formed(),
            old(self).next < old(self).partitions@.len(),
            old(self).stage is Watermarks,
        ensures
            final(self).well_formed(),
            final(self).same_task(*old(self)),
            final(self).steps_left() < old(self).steps_left(),
            forall|answers: Answers|
                #![trigger final(self).accords(answers)]
                old(self).accords(answers) && (answers.watermarks)(old(self).next as int) == (
                    low,
                    high,
                ) ==> final(self).accords(answers),
    {
        let decision: OffsetDecision = resolve_single_offset(
            &self.options.starting_offsets,
            self.partitions[self.next].0.as_str(),
            self.partitions[self.next].1,
            low,
            high,
            true,
        );
        match decision {
            OffsetDecision::Offset(start) => {
                self.started(low, high, start);
            },
            OffsetDecision::ByTime(ms) => {
                self.stage = ResolverStage::StartByTime { low, high, ms };
            },
        }
    }

    /// Takes the answer to the time that was asked for. After an error the resolution has failed.
    pub fn by_time(&mut self, reply: TimeReply) -> (r: Result<(), ReadError>)
        requires
            old(self).well_formed(),
            old(self).stage is StartByTime || old(self).stage is EndByTime,
        ensures
            final(self).well_formed(),
            final(self).same_task(*old(self)),
            r is Ok ==> final(self).steps_left() < old(self).steps_left(),
            forall|answers: Answers|
                #![trigger old(self).accords(answers)]
                old(self).accords(answers) && (answers.by_time)(
                    old(self).next as int,
                    old(self).stage is StartByTime,
                ) == reply ==> match r {
                    Ok(_) => final(self).accords(answers),
                    Err(error) => old(self).goal(answers) == Err::<Seq<RangeTree>, _>(error@),
                },
    {
        let ghost start_spec = self.options.starting_offsets@;
        let ghost end_spec = self.options.ending_offsets@;
        let ghost all = partition_views(self.partitions@);
        let ghost i = self.next as int;
        match self.stage {
            ResolverStage::StartByTime { low, high, ms } => {
                let topic: &str = self.partitions[self.next].0.as_str();
                let partition: i32 = self.partitions[self.next].1;
                match resolve_offset_by_timestamp(reply, topic, partition, ms, true) {
                    Ok(Some(start)) => {
                        self.started(low, high, start);
                    },
                    Ok(None) => {
                        self.stage = ResolverStage::StartLatest { low, high };
                    },
                    Err(error) => {
                        proof {
                            assert forall|answers: Answers|
                                #![trigger old(self).accords(answers)]
                                old(self).accords(answers) && (answers.by_time)(i, true)
                                    == reply implies old(self).goal(answers) == Err::<
                                Seq<RangeTree>,
                                _,
                            >(error@) by {
                                lemma_resolved_failure(
                                    start_spec,
                                    end_spec,
                                    all,
                                    i + 1,
                                    all.len() as int,
                                    answers,
                                );
                            }
                        }
                        return Err(error);
                    },
                }
            },
            ResolverStage::EndByTime { start, ms } => {
                let topic: &str = self.partitions[self.next].0.as_str();
                let partition: i32 = self.partitions[self.next].1;
                match resolve_offset_by_timestamp(reply, topic, partition, ms, false) {
                    Ok(Some(end)) => {
                        self.close(start, end);
                    },
                    Ok(None) => {
                        self.stage = ResolverStage::EndLatest { start };
                    },
                    Err(error) => {
                        proof {
                            assert forall|answers: Answers|
                                #![trigger old(self).accords(answers)]
                                old(self).accords(answers) && (answers.by_time)(i, false)
                                    == reply implies old(self).goal(answers) == Err::<
                                Seq<RangeTree>,
                                _,
                            >(error@) by {
                                lemma_resolved_failure(
                                    start_spec,
                                    end_spec,
                                    all,
                                    i + 1,
                                    all.len() as int,
                                    answers,
                                );
                            }
                        }
                        return Err(error);
                    },
                }
            },
            _ => {},
        }
        Ok(())
    }

    /// Takes the latest offset that was asked for.
    pub fn latest(&mut self, offset: i64)
        requires
            old(self).well_formed(),
            old(self).stage is StartLatest || old(self).stage is EndLatest,
        ensures
            final(self).well_formed(),
            final(self).same_task(*old(self)),
            final(self).steps_left() < old(self).steps_left(),
            forall|answers: Answers|
                #![trigger final(self).accords(answers)]
                old(self).accords(answers) && (answers.latest)(
                    old(self).next as int,
                    old(self).stage is StartLatest,
                ) == offset ==> final(self).accords(answers),
    {
        match self.stage {
            ResolverStage::StartLatest { low, high } => {
                self.started(low, high, offset);
            },
            ResolverStage::EndLatest { start } => {
                self.close(start, offset);
            },
            _ => {},
        }
    }
}

/// A resolver that is done has the ranges of all partitions, whatever Kafka has answered on the
/// way.
pub proof fn law_done_resolver_has_the_ranges(resolver: OffsetResolver<'_>, answers: Answers)
    requires
        resolver.well_formed(),
        resolver.accords(answers),
        resolver.next == resolver.partitions@.len(),
    ensures
        resolver.goal(answers) == Ok::<_, Failure>(range_trees(resolver.ranges@)),
{
}

/// A resolver comes to its end: the answers that it still takes are bounded, by a number that every
/// answer lessens, and it is done when none is left.
pub proof fn law_resolver_comes_to_its_end(resolver: OffsetResolver<'_>)
    requires
        resolver.well_formed(),
    ensures
        0 <= resolver.steps_left() <= 5 * (resolver.partitions@.len() - resolver.next),
        resolver.steps_left() == 0 <==> resolver.next == resolver.partitions@.len(),
{
}

/// Ranges are found for partitions of the list, in its order, and none is empty.
pub proof fn law_resolved_ranges_are_not_empty(
    start: OffsetTree,
    end: OffsetTree,
    partitions: Seq<TopicPartition>,
    n: int,
    answers: Answers,
)
    requires
        0 <= n <= partitions.len(),
        resolved_ranges(start, end, partitions, n, answers) is Ok,
    ensures
        ({
            let ranges = resolved_ranges(start, end, partitions, n, answers)->Ok_0;
            &&& ranges.len() <= n
            &&& forall|i: int|
                0 <= i < ranges.len() ==> (#[trigger] ranges[i]).start_offset < ranges[i].end_offset
                    && partitions.contains((ranges[i].topic, ranges[i].partition))
        }),
    decreases n,
{
    if n > 0 {
        law_resolved_ranges_are_not_empty(start, end, partitions, n - 1, answers);
        let at = partitions[n - 1];
        assert(partitions.contains((at.0, at.1)));
    }
}

/// The number of offsets in a range.
pub open spec fn range_size(range: RangeTree) -> int {
    range.end_offset - range.start_offset
}

/// The number of offsets in all ranges.
pub open spec fn total_size(ranges: Seq<RangeTree>) -> int
    decreases ranges.len(),
{
    if ranges.len() == 0 {
        0
    } else {
        total_size(ranges.drop_last()) + range_size(ranges.last())
    }
}

/// Whether `n` fits in 64 bits.
pub open spec fn fits(n: int) -> bool {
    i64::MIN <= n <= i64::MAX
}

/// Whether the sizes of the ranges, and their sums from the first on, fit in 64 bits.
pub open spec fn sizes_fit(ranges: Seq<RangeTree>) -> bool {
    forall|i: int|
        0 <= i < ranges.len() ==> fits(range_size(#[trigger] ranges[i])) && fits(
            total_size(ranges.take(i + 1)),
        )
}

/// The sizes of the ranges and their sum; nothing where they do not fit.
pub fn range_sizes(ranges: &Vec<KafkaPartitionRange>) -> (r: Option<(Vec<i64>, i64)>)
    ensures
        match r {
            Some((sizes, total)) => {
                &&& sizes_fit(range_trees(ranges@))
                &&& sizes@.len() == ranges@.len()
                &&& forall|i: int|
                    0 <= i < sizes@.len() ==> #[trigger] sizes@[i] == range_size(ranges@[i]@)
                &&& total == total_size(range_trees(ranges@))
            },
            None => !sizes_fit(range_trees(ranges@)),
        },
{
    let ghost trees = range_trees(ranges@);
    let mut sizes: Vec<i64> = Vec::new();
    let mut total: i64 = 0;
    let mut i: usize = 0;
    assert(trees.take(0) =~= Seq::<RangeTree>::empty());
    while i < ranges.len()
        invariant
            i <= ranges.len(),
            trees == range_trees(ranges@),
            sizes@.len() == i,
            total == total_size(trees.take(i as int)),
            forall|j: int| 0 <= j < i ==> #[trigger] sizes@[j] == range_size(ranges@[j]@),
            forall|j: int|
                0 <= j < i ==> fits(range_size(#[trigger] trees[j])) && fits(
                    total_size(trees.take(j + 1)),
                ),
        decreases ranges.len() - i,
    {
        assert(trees[i as int] == ranges@[i as int]@);
        assert(trees.take(i + 1).drop_last() =~= trees.take(i as int));
        assert(trees.take(i + 1).last() == trees[i as int]);
        let size: i64 = match ranges[i].end_offset.checked_sub(ranges[i].start_offset) {
            Some(size) => size,
            None => {
                assert(!fits(range_size(trees[i as int])));
                return None;
            },
        };
        total = match total.checked_add(size) {
            Some(sum) => sum,
            None => {
                assert(!fits(total_size(trees.take(i + 1))));
                assert(fits(range_size(trees[i as int])));
                return None;
            },
        };
        sizes.push(size);
        i = i + 1;
    }
    assert(trees.take(trees.len() as int) =~= trees);
    Some((sizes, total))
}

/// `a` divided by `b`, rounded towards zero.
pub open spec fn truncated_div(a: int, b: int) -> int {
    if a >= 0 {
        a / b
    } else {
        -((-a) / b)
    }
}

/// Where the piece `i` of a range begins when it is cut into `parts` pieces: all but the last are
/// of one size, and the last ends where the range does.
pub open spec fn cut(range: RangeTree, parts: int, i: int) -> int {
    if i == parts {
        range.end_offset as int
    } else {
        range.start_offset + i * truncated_div(range_size(range), parts)
    }
}

/// The first `n` of `parts` pieces of a range, without those that are empty.
pub open spec fn cut_pieces(range: RangeTree, parts: int, n: int) -> Seq<RangeTree>
    decreases n,
{
    if n <= 0 {
        Seq::empty()
    } else {
        let done = cut_pieces(range, parts, n - 1);
        let from = cut(range, parts, n - 1);
        let to = cut(range, parts, n);
        if from < to {
            done.push(
                RangeTree {
                    topic: range.topic,
                    partition: range.partition,
                    start_offset: from as i64,
                    end_offset: to as i64,
                },
            )
        } else {
            done
        }
    }
}

/// A range in `parts` pieces.
pub open spec fn split_range(range: RangeTree, parts: int) -> Seq<RangeTree> {
    if parts <= 1 {
        seq![range]
    } else {
        cut_pieces(range, parts, parts)
    }
}

/// Each range in as many pieces as `parts` says for it.
pub open spec fn split_each(ranges: Seq<RangeTree>, parts: Seq<usize>) -> Seq<RangeTree>
    decreases ranges.len(),
{
    if ranges.len() == 0 {
        Seq::empty()
    } else {
        split_each(ranges.drop_last(), parts) + split_range(
            ranges.last(),
            parts[ranges.len() - 1] as int,
        )
    }
}

/// The ranges cut into pieces; where they hold nothing, as they are.
pub open spec fn split_result(ranges: Seq<RangeTree>, parts: Seq<usize>) -> Seq<RangeTree> {
    if total_size(ranges) == 0 {
        ranges
    } else {
        split_each(ranges, parts)
    }
}

/// The cuts of a range whose size fits lie between its ends, and fit.
proof fn lemma_cut(range: RangeTree, parts: int, i: int)
    requires
        1 < parts,
        0 <= i <= parts,
        fits(range_size(range)),
    ensures
        range.start_offset <= range.end_offset ==> range.start_offset <= cut(range, parts, i)
            <= range.end_offset,
        range.start_offset >= range.end_offset ==> range.start_offset >= cut(range, parts, i)
            >= range.end_offset,
        fits(cut(range, parts, i)),
{
    let size = range_size(range);
    let step = truncated_div(size, parts);
    if i < parts {
        if size >= 0 {
            assert(0 <= step && i * step <= size && 0 <= i * step) by (nonlinear_arith)
                requires
                    0 <= i < parts,
                    size >= 0,
                    step == size / parts,
                    parts > 1,
            ;
        } else {
            let back = (-size) / parts;
            assert(0 <= back && i * back <= -size && 0 <= i * back) by (nonlinear_arith)
                requires
                    0 <= i < parts,
                    size < 0,
                    back == (-size) / parts,
                    parts > 1,
            ;
            assert(i * step == -(i * back)) by (nonlinear_arith)
                requires
                    step == -back,
            ;
        }
    }
}

/// Adds `range`, cut into `parts` pieces.
fn split_into(list: &mut Vec<KafkaPartitionRange>, range: &KafkaPartitionRange, parts: usize)
    requires
        fits(range_size(range@)),
        parts <= i64::MAX,
    ensures
        range_trees(final(list)@) == range_trees(old(list)@) + split_range(range@, parts as int),
{
    let ghost before = range_trees(list@);
    if parts <= 1 {
        list.push(range.duplicate());
        assert(range_trees(list@) =~= before + seq![range@]);
        return ;
    }
    let size: i64 = range.end_offset - range.start_offset;
    let count: i64 = parts as i64;
    let step: i64 = size / count;
    let ghost n = parts as int;
    assert(step == truncated_div(size as int, n));
    let mut start: i64 = range.start_offset;
    let mut i: usize = 0;
    assert(before + cut_pieces(range@, n, 0) =~= before);
    assert(cut(range@, n, 0) == range.start_offset) by (nonlinear_arith)
        requires
            n > 1,
            cut(range@, n, 0) == range@.start_offset + 0 * truncated_div(range_size(range@), n),
            range@.start_offset == range.start_offset,
    ;
    while i < parts
        invariant
            i <= parts,
            n == parts,
            1 < parts <= i64::MAX,
            fits(range_size(range@)),
            size == range_size(range@),
            step == truncated_div(size as int, n),
            start == cut(range@, n, i as int),
            range_trees(list@) == before + cut_pieces(range@, n, i as int),
        decreases parts - i,
    {
        proof {
            lemma_cut(range@, n, i + 1);
            if i + 1 < n {
                assert((i + 1) * step == i * step + step) by (nonlinear_arith);
            }
        }
        let end: i64 = if i == parts - 1 {
            range.end_offset
        } else {
            start + step
        };
        assert(end == cut(range@, n, i + 1));
        if start < end {
            let ghost now = range_trees(list@);
            let piece = KafkaPartitionRange {
                topic: range.topic.clone(),
                partition: range.partition,
                start_offset: start,
                end_offset: end,
            };
            list.push(piece);
            assert(range_trees(list@) =~= now.push(piece@));
            assert(range_trees(list@) =~= before + cut_pieces(range@, n, i + 1));
        }
        start = end;
        i = i + 1;
    }
}

/// The ranges cut into pieces, each into as many as `parts` says for it.
pub fn split_ranges(ranges: Vec<KafkaPartitionRange>, parts: &Vec<usize>) -> (r: Vec<
    KafkaPartitionRange,
>)
    requires
        sizes_fit(range_trees(ranges@)),
        parts@.len() == ranges@.len(),
        forall|i: int| 0 <= i < parts@.len() ==> #[trigger] parts@[i] <= i64::MAX,
    ensures
        range_trees(r@) == split_result(range_trees(ranges@), parts@),
{
    let ghost trees = range_trees(ranges@);
    match range_sizes(&ranges) {
        Some((_, total)) => {
            if total == 0 {
                return ranges;
            }
        },
        None => {
            return ranges;
        },
    }
    let mut r: Vec<KafkaPartitionRange> = Vec::new();
    let mut i: usize = 0;
    assert(trees.take(0) =~= Seq::<RangeTree>::empty());
    assert(range_trees(r@) =~= split_each(trees.take(0), parts@));
    while i < ranges.len()
        invariant
            i <= ranges.len(),
            trees == range_trees(ranges@),
            sizes_fit(trees),
            parts@.len() == ranges@.len(),
            forall|i: int| 0 <= i < parts@.len() ==> #[trigger] parts@[i] <= i64::MAX,
            range_trees(r@) == split_each(trees.take(i as int), parts@),
        decreases ranges.len() - i,
    {
        assert(trees[i as int] == ranges@[i as int]@);
        assert(parts@[i as int] <= i64::MAX);
        assert(trees.take(i + 1).drop_last() =~= trees.take(i as int));
        assert(trees.take(i + 1).last() == trees[i as int]);
        split_into(&mut r, &ranges[i], parts[i]);
        i = i + 1;
    }
    assert(trees.take(trees.len() as int) =~= trees);
    r
}

/// Whether the ranges have to be cut so that there are `min_partitions` of them.
pub fn needs_split(ranges: &Vec<KafkaPartitionRange>, min_partitions: Option<usize>) -> (r: bool)
    ensures
        r == (min_partitions matches Some(n) && n > ranges@.len()),
{
    match min_partitions {
        Some(n) => n > ranges.len(),
        None => false,
    }
}

/// The ranges of a read: cut, where there are fewer than are asked for.
pub open spec fn final_ranges(
    ranges: Seq<RangeTree>,
    min_partitions: Option<usize>,
    parts: Seq<usize>,
) -> Seq<RangeTree> {
    match min_partitions {
        Some(n) => if n > ranges.len() {
            split_result(ranges, parts)
        } else {
            ranges
        },
        None => ranges,
    }
}

/// The ranges of a read. `parts` says into how many pieces each range is cut, where they have to be
/// cut.
pub fn finish_ranges(
    ranges: Vec<KafkaPartitionRange>,
    min_partitions: Option<usize>,
    parts: &Vec<usize>,
) -> (r: Vec<KafkaPartitionRange>)
    requires
        min_partitions matches Some(n) && n > ranges@.len() ==> {
            &&& sizes_fit(range_trees(ranges@))
            &&& parts@.len() == ranges@.len()
            &&& forall|i: int| 0 <= i < parts@.len() ==> #[trigger] parts@[i] <= i64::MAX
        },
    ensures
        range_trees(r@) == final_ranges(range_trees(ranges@), min_partitions, parts@),
{
    if needs_split(&ranges, min_partitions) {
        split_ranges(ranges, parts)
    } else {
        ranges
    }
}

/// A range with something in it is cut without loss: the first piece begins where the range does,
/// each piece ends where the next begins, the last ends where the range does, and none is empty.
pub proof fn law_split_covers_the_range(range: RangeTree, parts: int)
    requires
        range.start_offset < range.end_offset,
        fits(range_size(range)),
    ensures
        ({
            let pieces = split_range(range, parts);
            &&& 0 < pieces.len()
            &&& parts >= 1 ==> pieces.len() <= parts
            &&& pieces[0].start_offset == range.start_offset
            &&& pieces.last().end_offset == range.end_offset
            &&& forall|i: int|
                0 <= i < pieces.len() ==> (#[trigger] pieces[i]).start_offset < pieces[i].end_offset
                    && pieces[i].topic == range.topic && pieces[i].partition == range.partition
            &&& forall|i: int, j: int|
                0 <= i && j == i + 1 && j < pieces.len() ==> (#[trigger] pieces[i]).end_offset == (
                #[trigger] pieces[j]).start_offset
        }),
{
    if parts > 1 {
        lemma_cut_pieces(range, parts, parts);
    }
}

/// The first pieces of a range lead from its start to the cut that they reach.
proof fn lemma_cut_pieces(range: RangeTree, parts: int, n: int)
    requires
        range.start_offset < range.end_offset,
        fits(range_size(range)),
        1 < parts,
        0 <= n <= parts,
    ensures
        ({
            let pieces = cut_pieces(range, parts, n);
            &&& pieces.len() <= n
            &&& pieces.len() == 0 ==> cut(range, parts, n) == range.start_offset
            &&& pieces.len() > 0 ==> pieces[0].start_offset == range.start_offset
                && pieces.last().end_offset == cut(range, parts, n)
            &&& forall|i: int|
                0 <= i < pieces.len() ==> (#[trigger] pieces[i]).start_offset < pieces[i].end_offset
                    && pieces[i].topic == range.topic && pieces[i].partition == range.partition
            &&& forall|i: int, j: int|
                0 <= i && j == i + 1 && j < pieces.len() ==> (#[trigger] pieces[i]).end_offset == (
                #[trigger] pieces[j]).start_offset
        }),
    decreases n,
{
    let step = truncated_div(range_size(range), parts);
    if n == 0 {
        assert(cut(range, parts, 0) == range.start_offset) by (nonlinear_arith)
            requires
                parts > 1,
                cut(range, parts, 0) == range.start_offset + 0 * step,
        ;
    } else {
        lemma_cut_pieces(range, parts, n - 1);
        lemma_cut(range, parts, n - 1);
        lemma_cut(range, parts, n);
        lemma_cuts_ascend(range, parts, n - 1);
        let before = cut_pieces(range, parts, n - 1);
        let pieces = cut_pieces(range, parts, n);
        if cut(range, parts, n - 1) < cut(range, parts, n) {
            assert(pieces.last().start_offset == cut(range, parts, n - 1));
            assert(forall|i: int| 0 <= i < before.len() ==> pieces[i] == before[i]);
        }
    }
}

proof fn lemma_cuts_ascend(range: RangeTree, parts: int, i: int)
    requires
        range.start_offset <= range.end_offset,
        fits(range_size(range)),
        1 < parts,
        0 <= i < parts,
    ensures
        cut(range, parts, i) <= cut(range, parts, i + 1),
{
    let size = range_size(range);
    let step = truncated_div(size, parts);
    if i + 1 == parts {
        lemma_cut(range, parts, i);
    } else {
        assert(i * step <= (i + 1) * step) by (nonlinear_arith)
            requires
                0 <= i,
                step == size / parts,
                size >= 0,
                parts > 1,
        ;
    }
}

/// Cutting ranges neither loses nor adds offsets: the sum of the sizes stays.
pub proof fn law_split_keeps_the_total(ranges: Seq<RangeTree>, parts: Seq<usize>)
    requires
        sizes_fit(ranges),
        parts.len() == ranges.len(),
        forall|i: int|
            0 <= i < ranges.len() ==> (#[trigger] ranges[i]).start_offset <= ranges[i].end_offset,
    ensures
        total_size(split_result(ranges, parts)) == total_size(ranges),
{
    lemma_split_each_total(ranges, parts);
}

proof fn lemma_split_each_total(ranges: Seq<RangeTree>, parts: Seq<usize>)
    requires
        forall|i: int| 0 <= i < ranges.len() ==> fits(range_size(#[trigger] ranges[i])),
        parts.len() >= ranges.len(),
        forall|i: int|
            0 <= i < ranges.len() ==> (#[trigger] ranges[i]).start_offset <= ranges[i].end_offset,
    ensures
        total_size(split_each(ranges, parts)) == total_size(ranges),
    decreases ranges.len(),
{
    if ranges.len() > 0 {
        let n = ranges.len() - 1;
        let front = ranges.drop_last();
        assert forall|i: int| 0 <= i < front.len() implies fits(
            range_size(#[trigger] front[i]),
        ) && front[i].start_offset <= front[i].end_offset by {
            assert(front[i] == ranges[i]);
        }
        lemma_split_each_total(front, parts);
        let range = ranges[n];
        let k = parts[n] as int;
        if k <= 1 {
            assert(seq![range].drop_last() =~= Seq::<RangeTree>::empty());
            assert(total_size(seq![range].drop_last()) == 0);
            assert(total_size(seq![range]) == range_size(range));
        } else {
            lemma_cut_pieces_total(range, k, k);
        }
        lemma_total_size_concat(split_each(front, parts), split_range(range, k));
    }
}

proof fn lemma_cut_pieces_total(range: RangeTree, parts: int, n: int)
    requires
        range.start_offset <= range.end_offset,
        fits(range_size(range)),
        1 < parts,
        0 <= n <= parts,
    ensures
        total_size(cut_pieces(range, parts, n)) == cut(range, parts, n) - range.start_offset,
    decreases n,
{
    let step = truncated_div(range_size(range), parts);
    if n == 0 {
        assert(cut(range, parts, 0) == range.start_offset) by (nonlinear_arith)
            requires
                parts > 1,
                cut(range, parts, 0) == range.start_offset + 0 * step,
        ;
    } else {
        lemma_cut_pieces_total(range, parts, n - 1);
        lemma_cut(range, parts, n - 1);
        lemma_cut(range, parts, n);
        lemma_cuts_ascend(range, parts, n - 1);
        let before = cut_pieces(range, parts, n - 1);
        let pieces = cut_pieces(range, parts, n);
        if cut(range, parts, n - 1) < cut(range, parts, n) {
            assert(pieces.drop_last() =~= before);
        }
    }
}

proof fn lemma_total_size_concat(a: Seq<RangeTree>, b: Seq<RangeTree>)
    ensures
        total_size(a + b) == total_size(a) + total_size(b),
    decreases b.len(),
{
    if b.len() == 0 {
        assert(a + b =~= a);
    } else {
        lemma_total_size_concat(a, b.drop_last());
        assert((a + b).drop_last() =~= a + b.drop_last());
    }
}

/// Where offsets are given for partitions, the decision for a partition that has one is that very
/// offset, for a start as for an end and whatever the watermarks are, but that -2 stands for the
/// low watermark and -1 for the high one. A partition without one starts at the low watermark and
/// ends at the high one.
pub proof fn law_given_offsets_are_taken(
    spec: OffsetSpec,
    topic: Seq<char>,
    partition: i32,
    low: i64,
    high: i64,
    is_starting: bool,
)
    requires
        spec is PerPartition,
    ensures
        ({
            let given = spec->PerPartition_0@;
            let decision = single_offset(spec@, topic, partition, low, high, is_starting);
            if given.contains_key(topic) && given[topic].contains_key(partition) {
                let offset = given[topic][partition];
                &&& offset != -1 && offset != -2 ==> decision == OffsetDecision::Offset(offset)
                &&& offset == -2 ==> decision == OffsetDecision::Offset(low)
                &&& offset == -1 ==> decision == OffsetDecision::Offset(high)
            } else {
                &&& is_starting ==> decision == OffsetDecision::Offset(low)
                &&& !is_starting ==> decision == OffsetDecision::Offset(high)
            }
        }),
{
}

/// The earliest offset is the low watermark and the latest the high one, for a start as for an end.
pub proof fn law_named_offsets_are_the_watermarks(
    topic: Seq<char>,
    partition: i32,
    low: i64,
    high: i64,
    is_starting: bool,
)
    ensures
        single_offset(OffsetSpec::Earliest@, topic, partition, low, high, is_starting)
            == OffsetDecision::Offset(low),
        single_offset(OffsetSpec::Latest@, topic, partition, low, high, is_starting)
            == OffsetDecision::Offset(high),
{
}

/// Where times are given, Kafka is asked for the offset of the very time: that of the partition, or
/// the one for all. A partition without a time starts at the low watermark and ends at the high
/// one.
pub proof fn law_given_times_are_asked_for(
    spec: OffsetSpec,
    topic: Seq<char>,
    partition: i32,
    low: i64,
    high: i64,
    is_starting: bool,
)
    ensures
        ({
            let decision = single_offset(spec@, topic, partition, low, high, is_starting);
            match spec {
                OffsetSpec::GlobalTimestamp(ms) => decision == OffsetDecision::ByTime(ms),
                OffsetSpec::ByTimestamp(times) => if times@.contains_key(topic)
                    && times@[topic].contains_key(partition) {
                    decision == OffsetDecision::ByTime(times@[topic][partition])
                } else {
                    &&& is_starting ==> decision == OffsetDecision::Offset(low)
                    &&& !is_starting ==> decision == OffsetDecision::Offset(high)
                },
                _ => decision is Offset,
            }
        }),
{
}

/// An offset that Kafka finds for a time is taken as it is, and the end of the partition is its
/// latest offset. Another answer lets a read end at the latest offset but not start, and no answer
/// lets it do neither.
pub proof fn law_time_replies_are_followed(
    reply: TimeReply,
    topic: Seq<char>,
    partition: i32,
    ms: i64,
    is_starting: bool,
)
    ensures
        ({
            let outcome = offset_by_time(reply, topic, partition, ms, is_starting);
            &&& reply is Offset ==> outcome == TimeOutcome::Offset(reply->Offset_0)
            &&& reply is End ==> outcome is Latest
            &&& reply is Other ==> (is_starting <==> outcome is Failed) && (!is_starting
                <==> outcome is Latest)
            &&& reply is Missing ==> outcome is Failed
            &&& outcome is Failed ==> outcome->Failed_0.kind == FailureKind::Config
        }),
{
}

/// The start and the end of a partition lie where the given offset, the watermarks or Kafka's answer
/// to the given time say; and there is none only where Kafka has none for a time.
pub proof fn law_bounds_follow_the_answers(
    spec: OffsetTree,
    at: TopicPartition,
    i: int,
    is_starting: bool,
    answers: Answers,
)
    ensures
        ({
            let bound = resolved_bound(spec, at, i, is_starting, answers);
            let (low, high) = (answers.watermarks)(i);
            let reply = (answers.by_time)(i, is_starting);
            let by_time = {
                &&& reply is Offset ==> bound == Ok::<_, Failure>(reply->Offset_0)
                &&& reply is End || (reply is Other && !is_starting) ==> bound == Ok::<_, Failure>(
                    (answers.latest)(i, is_starting),
                )
                &&& bound is Err <==> reply is Missing || (reply is Other && is_starting)
            };
            let default = if is_starting {
                bound == Ok::<_, Failure>(low)
            } else {
                bound == Ok::<_, Failure>(high)
            };
            match spec {
                OffsetTree::Earliest => bound == Ok::<_, Failure>(low),
                OffsetTree::Latest => bound == Ok::<_, Failure>(high),
                OffsetTree::PerPartition(given) => if given.contains_key(at.0)
                    && given[at.0].contains_key(at.1) {
                    let offset = given[at.0][at.1];
                    &&& offset == -2 ==> bound == Ok::<_, Failure>(low)
                    &&& offset == -1 ==> bound == Ok::<_, Failure>(high)
                    &&& offset != -2 && offset != -1 ==> bound == Ok::<_, Failure>(offset)
                } else {
                    default
                },
                OffsetTree::ByTimestamp(times) => if times.contains_key(at.0)
                    && times[at.0].contains_key(at.1) {
                    by_time
                } else {
                    default
                },
                OffsetTree::GlobalTimestamp(_) => by_time,
            }
        }),
{
}

/// Every partition that holds something to read has its range, from its start to its end; no other
/// has; and there are no ranges where, and only where, a start or an end cannot be found.
pub proof fn law_every_partition_has_its_range(
    start: OffsetTree,
    end: OffsetTree,
    partitions: Seq<TopicPartition>,
    n: int,
    answers: Answers,
)
    requires
        0 <= n <= partitions.len(),
    ensures
        ({
            let resolved = resolved_ranges(start, end, partitions, n, answers);
            &&& resolved is Err <==> exists|i: int|
                0 <= i < n && ((#[trigger] resolved_bound(
                    start,
                    partitions[i],
                    i,
                    true,
                    answers,
                )) is Err || resolved_bound(end, partitions[i], i, false, answers) is Err)
            &&& resolved is Ok ==> {
                &&& forall|i: int|
                    #![trigger partitions[i]]
                    0 <= i < n ==> {
                        let from = resolved_bound(start, partitions[i], i, true, answers)->Ok_0;
                        let to = resolved_bound(end, partitions[i], i, false, answers)->Ok_0;
                        from < to ==> resolved->Ok_0.contains(
                            RangeTree {
                                topic: partitions[i].0,
                                partition: partitions[i].1,
                                start_offset: from,
                                end_offset: to,
                            },
                        )
                    }
                &&& forall|k: int|
                    0 <= k < resolved->Ok_0.len() ==> exists|i: int|
                        0 <= i < n && range_of_partition(
                            #[trigger] resolved->Ok_0[k],
                            #[trigger] partitions[i],
                            resolved_bound(start, partitions[i], i, true, answers),
                            resolved_bound(end, partitions[i], i, false, answers),
                        )
            }
        }),
    decreases n,
{
    if n > 0 {
        law_every_partition_has_its_range(start, end, partitions, n - 1, answers);
        let i = n - 1;
        let before = resolved_ranges(start, end, partitions, i, answers);
        let resolved = resolved_ranges(start, end, partitions, n, answers);
        let first = resolved_bound(start, partitions[i], i, true, answers);
        let last = resolved_bound(end, partitions[i], i, false, answers);
        if resolved is Ok {
            assert(before is Ok && first is Ok && last is Ok);
            let ranges = resolved->Ok_0;
            let done = before->Ok_0;
            assert forall|j: int|
                #![trigger partitions[j]]
                0 <= j < n implies {
                let from = resolved_bound(start, partitions[j], j, true, answers)->Ok_0;
                let to = resolved_bound(end, partitions[j], j, false, answers)->Ok_0;
                from < to ==> ranges.contains(
                    RangeTree {
                        topic: partitions[j].0,
                        partition: partitions[j].1,
                        start_offset: from,
                        end_offset: to,
                    },
                )
            } by {
                let from = resolved_bound(start, partitions[j], j, true, answers)->Ok_0;
                let to = resolved_bound(end, partitions[j], j, false, answers)->Ok_0;
                let range = RangeTree {
                    topic: partitions[j].0,
                    partition: partitions[j].1,
                    start_offset: from,
                    end_offset: to,
                };
                if from < to {
                    if j < i {
                        assert(done.contains(range));
                        let k = choose|k: int| 0 <= k < done.len() && done[k] == range;
                        assert(ranges[k] == range);
                    } else {
                        assert(ranges[done.len() as int] == range);
                    }
                }
            }
            assert forall|k: int| 0 <= k < ranges.len() implies exists|j: int|
                0 <= j < n && range_of_partition(
                    #[trigger] ranges[k],
                    #[trigger] partitions[j],
                    resolved_bound(start, partitions[j], j, true, answers),
                    resolved_bound(end, partitions[j], j, false, answers),
                ) by {
                if k < done.len() {
                    assert(ranges[k] == done[k]);
                    let j = choose|j: int|
                        0 <= j < i && range_of_partition(
                            done[k],
                            #[trigger] partitions[j],
                            resolved_bound(start, partitions[j], j, true, answers),
                            resolved_bound(end, partitions[j], j, false, answers),
                        );
                    assert(range_of_partition(
                        ranges[k],
                        partitions[j],
                        resolved_bound(start, partitions[j], j, true, answers),
                        resolved_bound(end, partitions[j], j, false, answers),
                    ));
                } else {
                    assert(range_of_partition(ranges[k], partitions[i], first, last));
                }
            }
        }
        if exists|j: int|
            0 <= j < n && ((#[trigger] resolved_bound(start, partitions[j], j, true, answers))
                is Err || resolved_bound(end, partitions[j], j, false, answers) is Err) {
            let j = choose|j: int|
                0 <= j < n && ((#[trigger] resolved_bound(start, partitions[j], j, true, answers))
                    is Err || resolved_bound(end, partitions[j], j, false, answers) is Err);
            if j < i {
                assert(before is Err);
            }
        }
        if resolved is Err {
            if before is Err {
                let j = choose|j: int|
                    0 <= j < i && ((#[trigger] resolved_bound(
                        start,
                        partitions[j],
                        j,
                        true,
                        answers,
                    )) is Err || resolved_bound(end, partitions[j], j, false, answers) is Err);
                assert(0 <= j < n);
            } else {
                assert(first is Err || last is Err);
            }
        }
    }
}

/// Whether a range is that of a partition between the two offsets.
pub open spec fn range_of_partition(
    range: RangeTree,
    at: TopicPartition,
    from: Result<i64, Failure>,
    to: Result<i64, Failure>,
) -> bool {
    &&& range.topic == at.0
    &&& range.partition == at.1
    &&& from == Ok::<_, Failure>(range.start_offset)
    &&& to == Ok::<_, Failure>(range.end_offset)
    &&& range.start_offset < range.end_offset
}

/// The topics that are subscribed to give all their partitions and nothing else, and there is a
/// failure where, and only where, one of them does not exist.
pub proof fn law_subscribed_topics_give_all_partitions(
    topics: Seq<TopicMetadata>,
    selection: TopicSelection,
)
    requires
        selection is Subscribe,
        forall|i: int, j: int|
            0 <= i < j < topics.len() ==> (#[trigger] topics[i]).name@ != (
            #[trigger] topics[j]).name@,
    ensures
        ({
            let names = selection->Subscribe_0@;
            let selected = selected_partitions(topics, selection);
            &&& selected is Err <==> exists|k: int|
                0 <= k < names.len() && forall|t: int|
                    0 <= t < topics.len() ==> (#[trigger] topics[t]).name@ != (
                    #[trigger] names[k])@
            &&& selected is Ok ==> forall|at: TopicPartition| #[trigger]
                selected->Ok_0.contains(at) <==> exists|k: int, t: int|
                    0 <= k < names.len() && 0 <= t < topics.len() && (#[trigger] names[k])@ == at.0
                        && (#[trigger] topics[t]).name@ == at.0 && topics[t].partitions@.contains(
                        at.1,
                    )
        }),
{
    lemma_subscribed_members(topics, selection->Subscribe_0@);
}

proof fn lemma_subscribed_members(topics: Seq<TopicMetadata>, names: Seq<String>)
    requires
        forall|i: int, j: int|
            0 <= i < j < topics.len() ==> (#[trigger] topics[i]).name@ != (
            #[trigger] topics[j]).name@,
    ensures
        subscribed(topics, names) is Err <==> exists|k: int|
            0 <= k < names.len() && forall|t: int|
                0 <= t < topics.len() ==> (#[trigger] topics[t]).name@ != (#[trigger] names[k])@,
        subscribed(topics, names) is Ok ==> forall|at: TopicPartition| #[trigger]
            subscribed(topics, names)->Ok_0.contains(at) <==> exists|k: int, t: int|
                0 <= k < names.len() && 0 <= t < topics.len() && (#[trigger] names[k])@ == at.0 && (
                #[trigger] topics[t]).name@ == at.0 && topics[t].partitions@.contains(at.1),
    decreases names.len(),
{
    if names.len() > 0 {
        let front = names.drop_last();
        let last = names.len() - 1;
        lemma_subscribed_members(topics, front);
        lemma_topic_position(topics, names[last]@);
        let p = topic_position(topics, names[last]@);
        assert forall|k: int| 0 <= k < last implies #[trigger] front[k] == names[k] by {}
        if subscribed(topics, front) is Err {
            let k = choose|k: int|
                0 <= k < front.len() && forall|t: int|
                    0 <= t < topics.len() ==> (#[trigger] topics[t]).name@ != (
                    #[trigger] front[k])@;
            assert(names[k] == front[k]);
        } else if p >= topics.len() {
            assert(forall|t: int|
                0 <= t < topics.len() ==> (#[trigger] topics[t]).name@ != names[last]@);
        } else {
            let done = subscribed(topics, front)->Ok_0;
            let added = partitions_of(names[last]@, topics[p].partitions@);
            let all = subscribed(topics, names)->Ok_0;
            assert(all == done + added);
            assert forall|k: int|
                0 <= k < names.len() implies exists|t: int|
                    0 <= t < topics.len() && (#[trigger] topics[t]).name@ == (
                    #[trigger] names[k])@ by {
                if k == last {
                    assert(topics[p].name@ == names[k]@);
                } else {
                    assert(front[k] == names[k]);
                }
            }
            assert forall|at: TopicPartition| #[trigger] all.contains(at) <==> exists|
                k: int,
                t: int,
            |
                0 <= k < names.len() && 0 <= t < topics.len() && (#[trigger] names[k])@ == at.0 && (
                #[trigger] topics[t]).name@ == at.0 && topics[t].partitions@.contains(at.1) by {
                lemma_concat_members(done, added, at);
                lemma_partitions_of_members(names[last]@, topics[p].partitions@, at);
                if done.contains(at) {
                    let (k, t) = choose|k: int, t: int|
                        0 <= k < front.len() && 0 <= t < topics.len() && (#[trigger] front[k])@
                            == at.0 && (#[trigger] topics[t]).name@ == at.0
                            && topics[t].partitions@.contains(at.1);
                    assert(names[k] == front[k]);
                    assert(topics[t].name@ == at.0);
                }
                if added.contains(at) {
                    assert(names[last]@ == at.0 && topics[p].name@ == at.0);
                }
                if exists|k: int, t: int|
                    0 <= k < names.len() && 0 <= t < topics.len() && (#[trigger] names[k])@ == at.0
                        && (#[trigger] topics[t]).name@ == at.0 && topics[t].partitions@.contains(
                        at.1,
                    ) {
                    let (k, t) = choose|k: int, t: int|
                        0 <= k < names.len() && 0 <= t < topics.len() && (#[trigger] names[k])@
                            == at.0 && (#[trigger] topics[t]).name@ == at.0
                            && topics[t].partitions@.contains(at.1);
                    if k == last {
                        assert(t == p) by {
                            if t < p {
                                assert(topics[t].name@ != topics[p].name@);
                            } else if p < t {
                                assert(topics[p].name@ != topics[t].name@);
                            }
                        }
                    } else {
                        assert(front[k]@ == at.0 && topics[t].name@ == at.0);
                    }
                }
            }
        }
    }
}

proof fn lemma_concat_members(a: Seq<TopicPartition>, b: Seq<TopicPartition>, at: TopicPartition)
    ensures
        (a + b).contains(at) <==> a.contains(at) || b.contains(at),
{
    if a.contains(at) {
        let i = choose|i: int| 0 <= i < a.len() && a[i] == at;
        assert((a + b)[i] == at);
    }
    if b.contains(at) {
        let i = choose|i: int| 0 <= i < b.len() && b[i] == at;
        assert((a + b)[a.len() + i] == at);
    }
}

proof fn lemma_partitions_of_members(name: Seq<char>, partitions: Seq<i32>, at: TopicPartition)
    ensures
        partitions_of(name, partitions).contains(at) <==> at.0 == name && partitions.contains(at.1),
{
    let all = partitions_of(name, partitions);
    if at.0 == name && partitions.contains(at.1) {
        let i = choose|i: int| 0 <= i < partitions.len() && partitions[i] == at.1;
        assert(all[i] == at);
    }
    if all.contains(at) {
        let i = choose|i: int| 0 <= i < all.len() && all[i] == at;
        assert(partitions[i] == at.1);
    }
}

/// A pattern that is no regular expression fails; any other gives all partitions of the topics
/// whose names match it, and nothing else.
pub proof fn law_matching_topics_give_all_partitions(
    topics: Seq<TopicMetadata>,
    selection: TopicSelection,
)
    requires
        selection is SubscribePattern,
    ensures
        ({
            let pattern = selection->SubscribePattern_0@;
            let selected = selected_partitions(topics, selection);
            &&& selected is Err <==> regex_error(pattern) is Some
            &&& selected is Ok ==> forall|at: TopicPartition| #[trigger]
                selected->Ok_0.contains(at) <==> exists|t: int|
                    0 <= t < topics.len() && (#[trigger] topics[t]).name@ == at.0
                        && pattern_matches(pattern, at.0) && topics[t].partitions@.contains(at.1)
        }),
{
    lemma_matching_members(topics, selection->SubscribePattern_0@);
}

proof fn lemma_matching_members(topics: Seq<TopicMetadata>, pattern: Seq<char>)
    ensures
        forall|at: TopicPartition| #[trigger]
            matching(topics, pattern).contains(at) <==> exists|t: int|
                0 <= t < topics.len() && (#[trigger] topics[t]).name@ == at.0 && pattern_matches(
                    pattern,
                    at.0,
                ) && topics[t].partitions@.contains(at.1),
    decreases topics.len(),
{
    if topics.len() > 0 {
        let front = topics.drop_last();
        let last = topics.last();
        lemma_matching_members(front, pattern);
        let done = matching(front, pattern);
        let all = matching(topics, pattern);
        assert forall|at: TopicPartition| #[trigger] all.contains(at) <==> exists|t: int|
            0 <= t < topics.len() && (#[trigger] topics[t]).name@ == at.0 && pattern_matches(
                pattern,
                at.0,
            ) && topics[t].partitions@.contains(at.1) by {
            lemma_concat_members(done, partitions_of(last.name@, last.partitions@), at);
            lemma_partitions_of_members(last.name@, last.partitions@, at);
            if done.contains(at) {
                let t = choose|t: int|
                    0 <= t < front.len() && (#[trigger] front[t]).name@ == at.0 && pattern_matches(
                        pattern,
                        at.0,
                    ) && front[t].partitions@.contains(at.1);
                assert(topics[t] == front[t]);
            }
            if all.contains(at) && !done.contains(at) {
                assert(topics[topics.len() - 1].name@ == at.0);
            }
            if exists|t: int|
                0 <= t < topics.len() && (#[trigger] topics[t]).name@ == at.0 && pattern_matches(
                    pattern,
                    at.0,
                ) && topics[t].partitions@.contains(at.1) {
                let t = choose|t: int|
                    0 <= t < topics.len() && (#[trigger] topics[t]).name@ == at.0
                        && pattern_matches(pattern, at.0) && topics[t].partitions@.contains(at.1);
                if t < front.len() {
                    assert(front[t] == topics[t]);
                }
            }
        }
    }
}

/// An assignment gives the partitions that it lists and nothing else, whatever topics there are.
pub proof fn law_assigned_partitions_are_those_listed(
    topics: Seq<TopicMetadata>,
    selection: TopicSelection,
)
    requires
        selection is Assign,
    ensures
        ({
            let listed = selection->Assign_0.pairs();
            let selected = selected_partitions(topics, selection);
            &&& selected is Ok
            &&& forall|at: TopicPartition| #[trigger]
                selected->Ok_0.contains(at) <==> exists|k: int|
                    0 <= k < listed.len() && (#[trigger] listed[k]).0 == at.0
                        && listed[k].1.contains(at.1)
        }),
{
    lemma_assigned_members(selection->Assign_0.pairs());
}

proof fn lemma_assigned_members(listed: Seq<(Seq<char>, Seq<i32>)>)
    ensures
        forall|at: TopicPartition| #[trigger]
            assigned(listed).contains(at) <==> exists|k: int|
                0 <= k < listed.len() && (#[trigger] listed[k]).0 == at.0 && listed[k].1.contains(
                    at.1,
                ),
    decreases listed.len(),
{
    if listed.len() > 0 {
        let front = listed.drop_last();
        let last = listed.last();
        lemma_assigned_members(front);
        let done = assigned(front);
        let all = assigned(listed);
        assert forall|at: TopicPartition| #[trigger] all.contains(at) <==> exists|k: int|
            0 <= k < listed.len() && (#[trigger] listed[k]).0 == at.0 && listed[k].1.contains(
                at.1,
            ) by {
            lemma_concat_members(done, partitions_of(last.0, last.1), at);
            lemma_partitions_of_members(last.0, last.1, at);
            if done.contains(at) {
                let k = choose|k: int|
                    0 <= k < front.len() && (#[trigger] front[k]).0 == at.0
                        && front[k].1.contains(at.1);
                assert(listed[k] == front[k]);
            }
            if all.contains(at) && !done.contains(at) {
                assert(listed[listed.len() - 1].0 == at.0);
            }
            if exists|k: int|
                0 <= k < listed.len() && (#[trigger] listed[k]).0 == at.0 && listed[k].1.contains(
                    at.1,
                ) {
                let k = choose|k: int|
                    0 <= k < listed.len() && (#[trigger] listed[k]).0 == at.0
                        && listed[k].1.contains(at.1);
                if k < front.len() {
                    assert(front[k] == listed[k]);
                }
            }
        }
    }
}

/// A range stands for its own topic, partition and offsets, and holds as many offsets as lie from
/// its start up to but without its end; several hold the sum.
pub proof fn law_range_sizes_add_up(
    ranges: Seq<KafkaPartitionRange>,
    more: Seq<KafkaPartitionRange>,
)
    ensures
        range_trees(ranges).len() == ranges.len(),
        forall|i: int|
            0 <= i < ranges.len() ==> {
                let tree = #[trigger] range_trees(ranges)[i];
                &&& tree.topic == ranges[i].topic@
                &&& tree.partition == ranges[i].partition
                &&& tree.start_offset == ranges[i].start_offset
                &&& tree.end_offset == ranges[i].end_offset
                &&& range_size(tree) == ranges[i].end_offset - ranges[i].start_offset
                &&& total_size(seq![tree]) == ranges[i].end_offset - ranges[i].start_offset
            },
        total_size(range_trees(ranges + more)) == total_size(range_trees(ranges)) + total_size(
            range_trees(more),
        ),
{
    assert forall|tree: RangeTree| #[trigger] total_size(seq![tree]) == range_size(tree) by {
        let one = seq![tree];
        assert(one.drop_last() =~= Seq::<RangeTree>::empty());
        assert(one.last() == tree);
        reveal_with_fuel(total_size, 2);
    }
    assert(range_trees(ranges + more) =~= range_trees(ranges) + range_trees(more));
    lemma_total_size_concat(range_trees(ranges), range_trees(more));
}

/// Where a range has at least as many offsets as it is to have pieces, there are that many, and all
/// but the last have the same number of offsets: their share, rounded down. Where it has fewer, it
/// stays whole; and so it does where one piece is asked for, or none.
pub proof fn law_pieces_are_even(range: RangeTree, parts: int)
    requires
        range.start_offset < range.end_offset,
        range.end_offset - range.start_offset <= i64::MAX,
    ensures
        ({
            let size = range.end_offset - range.start_offset;
            let pieces = split_range(range, parts);
            &&& parts <= 1 || size < parts ==> pieces == seq![range]
            &&& 1 < parts <= size ==> pieces.len() == parts && forall|i: int|
                0 <= i < parts - 1 ==> (#[trigger] pieces[i]).end_offset - pieces[i].start_offset
                    == size / parts
        }),
{
    let size = range.end_offset - range.start_offset;
    if parts > 1 {
        if size < parts {
            assert(size / parts == 0) by (nonlinear_arith)
                requires
                    0 <= size < parts,
            ;
            lemma_no_pieces(range, parts, parts - 1);
            assert(cut(range, parts, parts - 1) == range.start_offset) by (nonlinear_arith)
                requires
                    cut(range, parts, parts - 1) == range.start_offset + (parts - 1) * 0,
            ;
            assert(split_range(range, parts) =~= seq![range]);
        } else {
            assert(size / parts > 0) by (nonlinear_arith)
                requires
                    1 < parts <= size,
            ;
            lemma_even_pieces(range, parts, parts - 1);
            lemma_cut(range, parts, parts - 1);
            let step = size / parts;
            assert((parts - 1) * step < size) by (nonlinear_arith)
                requires
                    step == size / parts,
                    step > 0,
                    1 < parts <= size,
            ;
            assert(range.start_offset + (parts - 1) * step < range.end_offset);
        }
    }
}

proof fn lemma_no_pieces(range: RangeTree, parts: int, n: int)
    requires
        1 < parts,
        0 <= n < parts,
        range.start_offset < range.end_offset,
        truncated_div(range_size(range), parts) == 0,
    ensures
        cut_pieces(range, parts, n).len() == 0,
    decreases n,
{
    if n > 0 {
        lemma_no_pieces(range, parts, n - 1);
        assert(cut(range, parts, n - 1) == cut(range, parts, n)) by (nonlinear_arith)
            requires
                cut(range, parts, n - 1) == range.start_offset + (n - 1) * 0,
                cut(range, parts, n) == range.start_offset + n * 0,
        ;
    }
}

proof fn lemma_even_pieces(range: RangeTree, parts: int, n: int)
    requires
        1 < parts,
        0 <= n < parts,
        range.start_offset < range.end_offset,
        fits(range_size(range)),
        range_size(range) / parts > 0,
    ensures
        cut_pieces(range, parts, n).len() == n,
        forall|i: int|
            0 <= i < n ==> (#[trigger] cut_pieces(range, parts, n)[i]).end_offset - cut_pieces(
                range,
                parts,
                n,
            )[i].start_offset == range_size(range) / parts,
    decreases n,
{
    if n > 0 {
        lemma_even_pieces(range, parts, n - 1);
        lemma_cut(range, parts, n - 1);
        lemma_cut(range, parts, n);
        let step = range_size(range) / parts;
        let before = cut_pieces(range, parts, n - 1);
        assert(cut(range, parts, n) == cut(range, parts, n - 1) + step) by (nonlinear_arith)
            requires
                cut(range, parts, n - 1) == range.start_offset + (n - 1) * step,
                cut(range, parts, n) == range.start_offset + n * step,
        ;
        assert forall|i: int| 0 <= i < n implies (#[trigger] cut_pieces(
            range,
            parts,
            n,
        )[i]).end_offset - cut_pieces(range, parts, n)[i].start_offset == step by {
            if i < n - 1 {
                assert(cut_pieces(range, parts, n)[i] == before[i]);
            }
        }
    }
}

/// An offset of a topic's partition is in one of the ranges.
pub open spec fn has_offset(ranges: Seq<RangeTree>, at: TopicPartition, offset: int) -> bool {
    exists|i: int|
        0 <= i < ranges.len() && (#[trigger] ranges[i]).topic == at.0 && ranges[i].partition == at.1
            && ranges[i].start_offset <= offset < ranges[i].end_offset
}

/// The ranges of a read hold the same offsets of the same partitions as before they were cut; and
/// where there are as many as are asked for, or none are asked for, they are not cut.
pub proof fn law_final_ranges_hold_the_same_offsets(
    ranges: Seq<RangeTree>,
    min_partitions: Option<usize>,
    parts: Seq<usize>,
)
    requires
        sizes_fit(ranges),
        parts.len() == ranges.len(),
        forall|i: int|
            0 <= i < ranges.len() ==> (#[trigger] ranges[i]).start_offset < ranges[i].end_offset,
    ensures
        min_partitions is None || min_partitions->0 <= ranges.len() ==> final_ranges(
            ranges,
            min_partitions,
            parts,
        ) == ranges,
        (forall|i: int| 0 <= i < parts.len() ==> #[trigger] parts[i] <= 1) ==> final_ranges(
            ranges,
            min_partitions,
            parts,
        ) == ranges,
        min_partitions is Some && min_partitions->0 > ranges.len() && total_size(ranges) > 0 && (
        forall|i: int|
            0 <= i < parts.len() ==> #[trigger] parts[i] <= ranges[i].end_offset
                - ranges[i].start_offset && parts[i] > 0) ==> final_ranges(
            ranges,
            min_partitions,
            parts,
        ).len() == pieces_asked(parts),
        forall|at: TopicPartition, offset: int| #[trigger]
            has_offset(final_ranges(ranges, min_partitions, parts), at, offset) <==> has_offset(
                ranges,
                at,
                offset,
            ),
{
    lemma_split_each_offsets(ranges, parts);
    if forall|i: int| 0 <= i < parts.len() ==> #[trigger] parts[i] <= 1 {
        lemma_split_each_whole(ranges, parts);
    }
    if forall|i: int|
        0 <= i < parts.len() ==> #[trigger] parts[i] <= ranges[i].end_offset
            - ranges[i].start_offset && parts[i] > 0 {
        lemma_split_each_count(ranges, parts);
    }
}

/// The number of pieces that are asked for in all.
pub open spec fn pieces_asked(parts: Seq<usize>) -> int
    decreases parts.len(),
{
    if parts.len() == 0 {
        0
    } else {
        pieces_asked(parts.drop_last()) + parts.last()
    }
}

proof fn lemma_split_each_count(ranges: Seq<RangeTree>, parts: Seq<usize>)
    requires
        parts.len() == ranges.len(),
        forall|i: int|
            0 <= i < ranges.len() ==> (#[trigger] ranges[i]).start_offset < ranges[i].end_offset
                && fits(range_size(ranges[i])),
        forall|i: int|
            0 <= i < parts.len() ==> #[trigger] parts[i] <= ranges[i].end_offset
                - ranges[i].start_offset && parts[i] > 0,
    ensures
        split_each(ranges, parts).len() == pieces_asked(parts),
    decreases ranges.len(),
{
    if ranges.len() > 0 {
        let n = ranges.len() - 1;
        let front = ranges.drop_last();
        let fewer = parts.drop_last();
        assert forall|i: int| 0 <= i < front.len() implies (#[trigger] front[i]).start_offset
            < front[i].end_offset && fits(range_size(front[i])) by {
            assert(front[i] == ranges[i]);
        }
        assert forall|i: int| 0 <= i < fewer.len() implies #[trigger] fewer[i]
            <= front[i].end_offset - front[i].start_offset && fewer[i] > 0 by {
            assert(fewer[i] == parts[i]);
            assert(front[i] == ranges[i]);
        }
        lemma_split_each_count(front, fewer);
        lemma_split_each_takes(front, parts, fewer);
        assert(ranges[n].start_offset < ranges[n].end_offset);
        assert(parts[n] > 0);
        law_pieces_are_even(ranges[n], parts[n] as int);
    }
}

proof fn lemma_split_each_takes(ranges: Seq<RangeTree>, parts: Seq<usize>, others: Seq<usize>)
    requires
        parts.len() >= ranges.len(),
        others.len() >= ranges.len(),
        forall|i: int| 0 <= i < ranges.len() ==> #[trigger] parts[i] == others[i],
    ensures
        split_each(ranges, parts) == split_each(ranges, others),
    decreases ranges.len(),
{
    if ranges.len() > 0 {
        lemma_split_each_takes(ranges.drop_last(), parts, others);
        assert(parts[ranges.len() - 1] == others[ranges.len() - 1]);
    }
}

proof fn lemma_split_each_whole(ranges: Seq<RangeTree>, parts: Seq<usize>)
    requires
        parts.len() >= ranges.len(),
        forall|i: int| 0 <= i < parts.len() ==> #[trigger] parts[i] <= 1,
    ensures
        split_each(ranges, parts) == ranges,
    decreases ranges.len(),
{
    if ranges.len() > 0 {
        lemma_split_each_whole(ranges.drop_last(), parts);
        assert(parts[ranges.len() - 1] <= 1);
    }
    assert(split_each(ranges, parts) =~= ranges);
}

proof fn lemma_split_each_offsets(ranges: Seq<RangeTree>, parts: Seq<usize>)
    requires
        parts.len() >= ranges.len(),
        forall|i: int|
            0 <= i < ranges.len() ==> (#[trigger] ranges[i]).start_offset < ranges[i].end_offset
                && fits(range_size(ranges[i])),
    ensures
        forall|at: TopicPartition, offset: int| #[trigger]
            has_offset(split_each(ranges, parts), at, offset) <==> has_offset(ranges, at, offset),
    decreases ranges.len(),
{
    if ranges.len() > 0 {
        let n = ranges.len() - 1;
        let front = ranges.drop_last();
        assert forall|i: int| 0 <= i < front.len() implies (#[trigger] front[i]).start_offset
            < front[i].end_offset && fits(range_size(front[i])) by {
            assert(front[i] == ranges[i]);
        }
        lemma_split_each_offsets(front, parts);
        let range = ranges[n];
        let pieces = split_range(range, parts[n] as int);
        assert forall|at: TopicPartition, offset: int| #[trigger]
            has_offset(split_each(ranges, parts), at, offset) <==> has_offset(
            ranges,
            at,
            offset,
        ) by {
            lemma_has_offset_concat(split_each(front, parts), pieces, at, offset);
            lemma_has_offset_concat(front, seq![range], at, offset);
            assert(front + seq![range] =~= ranges);
            lemma_pieces_offsets(range, parts[n] as int, at, offset);
        }
    }
}

proof fn lemma_has_offset_concat(
    a: Seq<RangeTree>,
    b: Seq<RangeTree>,
    at: TopicPartition,
    offset: int,
)
    ensures
        has_offset(a + b, at, offset) <==> has_offset(a, at, offset) || has_offset(b, at, offset),
{
    let all = a + b;
    if has_offset(a, at, offset) {
        let i = choose|i: int|
            0 <= i < a.len() && (#[trigger] a[i]).topic == at.0 && a[i].partition == at.1
                && a[i].start_offset <= offset < a[i].end_offset;
        assert(all[i] == a[i]);
    }
    if has_offset(b, at, offset) {
        let i = choose|i: int|
            0 <= i < b.len() && (#[trigger] b[i]).topic == at.0 && b[i].partition == at.1
                && b[i].start_offset <= offset < b[i].end_offset;
        assert(all[a.len() + i] == b[i]);
    }
    if has_offset(all, at, offset) {
        let i = choose|i: int|
            0 <= i < all.len() && (#[trigger] all[i]).topic == at.0 && all[i].partition == at.1
                && all[i].start_offset <= offset < all[i].end_offset;
        if i < a.len() {
            assert(a[i] == all[i]);
        } else {
            assert(b[i - a.len()] == all[i]);
        }
    }
}

proof fn lemma_pieces_offsets(range: RangeTree, parts: int, at: TopicPartition, offset: int)
    requires
        range.start_offset < range.end_offset,
        fits(range_size(range)),
    ensures
        has_offset(split_range(range, parts), at, offset) <==> has_offset(
            seq![range],
            at,
            offset,
        ),
{
    let pieces = split_range(range, parts);
    law_split_covers_the_range(range, parts);
    assert(seq![range][0] == range);
    lemma_chain_offsets(pieces, pieces.len() as int, at, offset);
    assert(pieces.take(pieces.len() as int) =~= pieces);
    if has_offset(pieces, at, offset) {
        let i = choose|i: int|
            0 <= i < pieces.len() && (#[trigger] pieces[i]).topic == at.0 && pieces[i].partition
                == at.1 && pieces[i].start_offset <= offset < pieces[i].end_offset;
        assert(pieces[i].topic == range.topic);
    }
}

/// Pieces that follow each other hold what lies between the start of the first and the end of the
/// last.
proof fn lemma_chain_offsets(pieces: Seq<RangeTree>, n: int, at: TopicPartition, offset: int)
    requires
        0 < n <= pieces.len(),
        forall|i: int|
            0 <= i < pieces.len() ==> (#[trigger] pieces[i]).start_offset < pieces[i].end_offset
                && pieces[i].topic == pieces[0].topic && pieces[i].partition == pieces[0].partition,
        forall|i: int, j: int|
            0 <= i && j == i + 1 && j < pieces.len() ==> (#[trigger] pieces[i]).end_offset == (
            #[trigger] pieces[j]).start_offset,
    ensures
        pieces[0].start_offset < pieces[n - 1].end_offset,
        has_offset(pieces.take(n), at, offset) <==> at == (pieces[0].topic, pieces[0].partition)
            && pieces[0].start_offset <= offset < pieces[n - 1].end_offset,
    decreases n,
{
    let one = seq![pieces[n - 1]];
    assert(one[0] == pieces[n - 1]);
    assert(pieces[n - 1].start_offset < pieces[n - 1].end_offset);
    if n > 1 {
        lemma_chain_offsets(pieces, n - 1, at, offset);
        assert(pieces.take(n) =~= pieces.take(n - 1) + one);
        lemma_has_offset_concat(pieces.take(n - 1), one, at, offset);
        assert(pieces[n - 2].end_offset == pieces[n - 1].start_offset);
    } else {
        assert(pieces.take(n) =~= one);
    }
}

/// Ranges come in the order of their partitions, at most one for each.
pub proof fn law_ranges_follow_the_partitions(
    start: OffsetTree,
    end: OffsetTree,
    partitions: Seq<TopicPartition>,
    m: int,
    n: int,
    answers: Answers,
)
    requires
        0 <= m <= n <= partitions.len(),
        resolved_ranges(start, end, partitions, n, answers) is Ok,
    ensures
        resolved_ranges(start, end, partitions, m, answers) is Ok,
        ({
            let front = resolved_ranges(start, end, partitions, m, answers)->Ok_0;
            let all = resolved_ranges(start, end, partitions, n, answers)->Ok_0;
            &&& front.len() <= all.len() <= front.len() + (n - m)
            &&& all.take(front.len() as int) == front
        }),
    decreases n,
{
    let front = resolved_ranges(start, end, partitions, m, answers)->Ok_0;
    let all = resolved_ranges(start, end, partitions, n, answers)->Ok_0;
    if m < n {
        law_ranges_follow_the_partitions(start, end, partitions, m, n - 1, answers);
        let before = resolved_ranges(start, end, partitions, n - 1, answers)->Ok_0;
        assert(all.take(before.len() as int) =~= before);
        assert(all.take(front.len() as int) =~= before.take(front.len() as int));
    } else {
        assert(all.take(front.len() as int) =~= front);
    }
}

/// Topics that are subscribed to one after the other give their partitions one after the other, and
/// each topic the partitions that Kafka lists for it, in that order.
pub proof fn law_subscription_keeps_the_order(
    topics: Seq<TopicMetadata>,
    a: Seq<String>,
    b: Seq<String>,
)
    ensures
        subscribed(topics, a) is Ok && subscribed(topics, b) is Ok ==> subscribed(topics, a + b)
            == Ok::<_, Failure>(subscribed(topics, a)->Ok_0 + subscribed(topics, b)->Ok_0),
        forall|name: String, t: int|
            #![trigger subscribed(topics, seq![name]), topics[t]]
            0 <= t < topics.len() && topics[t].name@ == name@ && (forall|u: int|
                0 <= u < t ==> (#[trigger] topics[u]).name@ != name@) ==> {
                let selected = subscribed(topics, seq![name]);
                &&& selected is Ok
                &&& selected->Ok_0.len() == topics[t].partitions@.len()
                &&& forall|i: int|
                    0 <= i < topics[t].partitions@.len() ==> #[trigger] selected->Ok_0[i] == (
                        name@,
                        topics[t].partitions@[i],
                    )
            },
    decreases b.len(),
{
    if b.len() == 0 {
        assert(a + b =~= a);
        if subscribed(topics, a) is Ok {
            let done = subscribed(topics, a)->Ok_0;
            assert(done + Seq::<TopicPartition>::empty() =~= done);
        }
    } else {
        let front = b.drop_last();
        law_subscription_keeps_the_order(topics, a, front);
        assert((a + b).drop_last() =~= a + front);
        assert((a + b).last() == b.last());
        if subscribed(topics, a) is Ok && subscribed(topics, b) is Ok {
            let name = b.last()@;
            let added = partitions_of(name, topics[topic_position(topics, name)].partitions@);
            let first = subscribed(topics, a)->Ok_0;
            let second = subscribed(topics, front)->Ok_0;
            assert((first + second) + added =~= first + (second + added));
        }
    }
    assert forall|name: String, t: int|
        #![trigger subscribed(topics, seq![name]), topics[t]]
        0 <= t < topics.len() && topics[t].name@ == name@ && (forall|u: int|
            0 <= u < t ==> (#[trigger] topics[u]).name@ != name@) implies {
        let selected = subscribed(topics, seq![name]);
        &&& selected is Ok
        &&& selected->Ok_0 =~= partitions_of(name@, topics[t].partitions@)
    } by {
        let one = seq![name];
        assert(one.drop_last() =~= Seq::<String>::empty());
        assert(one.last() == name);
        reveal_with_fuel(subscribed, 2);
        lemma_topic_position(topics, name@);
        let p = topic_position(topics, name@);
        assert(p == t) by {
            if p < t {
                assert(topics[p].name@ == name@);
            }
        }
    }
}

/// A pattern gives the partitions of the topics that it matches in the order of the topics, those
/// of a topic in the order in which Kafka lists them; and nothing for a topic that it does not
/// match.
pub proof fn law_matching_keeps_the_order(
    a: Seq<TopicMetadata>,
    b: Seq<TopicMetadata>,
    pattern: Seq<char>,
)
    ensures
        matching(a + b, pattern) == matching(a, pattern) + matching(b, pattern),
        forall|topic: TopicMetadata|
            {
                let selected = #[trigger] matching(seq![topic], pattern);
                if pattern_matches(pattern, topic.name@) {
                    &&& selected.len() == topic.partitions@.len()
                    &&& forall|i: int|
                        0 <= i < selected.len() ==> #[trigger] selected[i] == (
                            topic.name@,
                            topic.partitions@[i],
                        )
                } else {
                    selected.len() == 0
                }
            },
    decreases b.len(),
{
    if b.len() == 0 {
        assert(a + b =~= a);
        assert(matching(a, pattern) + matching(b, pattern) =~= matching(a, pattern));
    } else {
        law_matching_keeps_the_order(a, b.drop_last(), pattern);
        assert((a + b).drop_last() =~= a + b.drop_last());
        assert((a + b).last() == b.last());
        assert(matching(a + b, pattern) =~= matching(a, pattern) + matching(b, pattern));
    }
    assert forall|topic: TopicMetadata| #[trigger] matching(seq![topic], pattern) =~= (
    if pattern_matches(pattern, topic.name@) {
        partitions_of(topic.name@, topic.partitions@)
    } else {
        Seq::empty()
    }) by {
        let one = seq![topic];
        assert(one.drop_last() =~= Seq::<TopicMetadata>::empty());
        assert(one.last() == topic);
        reveal_with_fuel(matching, 2);
    }
}

/// An assignment gives the partitions of its topics in the order in which they are listed.
pub proof fn law_assignment_keeps_the_order(
    a: Seq<(Seq<char>, Seq<i32>)>,
    b: Seq<(Seq<char>, Seq<i32>)>,
)
    ensures
        assigned(a + b) == assigned(a) + assigned(b),
        forall|pair: (Seq<char>, Seq<i32>)|
            {
                let selected = #[trigger] assigned(seq![pair]);
                &&& selected.len() == pair.1.len()
                &&& forall|i: int|
                    0 <= i < selected.len() ==> #[trigger] selected[i] == (pair.0, pair.1[i])
            },
    decreases b.len(),
{
    if b.len() == 0 {
        assert(a + b =~= a);
        assert(assigned(a) + assigned(b) =~= assigned(a));
    } else {
        law_assignment_keeps_the_order(a, b.drop_last());
        assert((a + b).drop_last() =~= a + b.drop_last());
        assert((a + b).last() == b.last());
        assert(assigned(a + b) =~= assigned(a) + assigned(b));
    }
    assert forall|pair: (Seq<char>, Seq<i32>)| #[trigger] assigned(seq![pair])
        =~= partitions_of(pair.0, pair.1) by {
        let one = seq![pair];
        assert(one.drop_last() =~= Seq::<(Seq<char>, Seq<i32>)>::empty());
        assert(one.last() == pair);
        reveal_with_fuel(assigned, 2);
    }
}

/// Whether there is a topic with the name `name`.
pub open spec fn has_topic(topics: Seq<TopicMetadata>, name: Seq<char>) -> bool {
    exists|t: int| 0 <= t < topics.len() && (#[trigger] topics[t]).name@ == name
}

/// Where topics are missing, the failure names the first of those subscribed to that is.
pub proof fn law_missing_topic_is_named(topics: Seq<TopicMetadata>, names: Seq<String>, k: int)
    requires
        0 <= k < names.len(),
        !has_topic(topics, names[k]@),
        forall|j: int| 0 <= j < k ==> has_topic(topics, (#[trigger] names[j])@),
    ensures
        subscribed(topics, names) is Err,
        subscribed(topics, names)->Err_0.kind == FailureKind::Config,
        subscribed(topics, names)->Err_0.text == "topic not found: "@ + names[k]@,
    decreases names.len(),
{
    let front = names.drop_last();
    let last = names.len() - 1;
    assert forall|j: int| 0 <= j < k implies has_topic(topics, (#[trigger] front[j])@) by {
        assert(names[j] == front[j]);
    }
    if k < last {
        law_missing_topic_is_named(topics, front, k);
    } else {
        lemma_all_found(topics, front);
        lemma_topic_position(topics, names[k]@);
        let p = topic_position(topics, names[k]@);
        if p < topics.len() {
            assert(topics[p].name@ == names[k]@);
        }
    }
}

proof fn lemma_all_found(topics: Seq<TopicMetadata>, names: Seq<String>)
    requires
        forall|j: int| 0 <= j < names.len() ==> has_topic(topics, (#[trigger] names[j])@),
    ensures
        subscribed(topics, names) is Ok,
    decreases names.len(),
{
    if names.len() > 0 {
        let front = names.drop_last();
        let last = names.len() - 1;
        assert forall|j: int| 0 <= j < front.len() implies has_topic(
            topics,
            (#[trigger] front[j])@,
        ) by {
            assert(names[j] == front[j]);
        }
        lemma_all_found(topics, front);
        lemma_topic_position(topics, names[last]@);
        assert(has_topic(topics, names[last]@));
        let t = choose|t: int|
            0 <= t < topics.len() && (#[trigger] topics[t]).name@ == names[last]@;
        assert(topic_position(topics, names[last]@) <= t);
    }
}

/// Where Kafka has no offset for a time, the failure names the time and the partition.
pub proof fn law_failed_time_is_named(
    reply: TimeReply,
    topic: Seq<char>,
    partition: i32,
    ms: i64,
    is_starting: bool,
)
    ensures
        offset_by_time(reply, topic, partition, ms, is_starting) matches TimeOutcome::Failed(
            failure,
        ) ==> {
            let named = decimal(ms as int) + " on "@ + topic + "-"@ + decimal(partition as int);
            &&& reply is Other ==> failure.text == "no offset found for timestamp "@ + named
            &&& reply is Missing ==> failure.text == "failed to resolve offset for timestamp "@
                + named
        },
{
    let name = topic + "-"@ + decimal(partition as int);
    let named = decimal(ms as int) + " on "@ + topic + "-"@ + decimal(partition as int);
    assert("no offset found for timestamp "@ + decimal(ms as int) + " on "@ + name
        =~= "no offset found for timestamp "@ + named);
    assert("failed to resolve offset for timestamp "@ + decimal(ms as int) + " on "@ + name
        =~= "failed to resolve offset for timestamp "@ + named);
}

/// A list of partitions stands for the topic and the number of each, in order.
pub proof fn law_partitions_stand_for_themselves(list: Seq<(String, i32)>)
    ensures
        partition_views(list).len() == list.len(),
        forall|i: int|
            0 <= i < list.len() ==> #[trigger] partition_views(list)[i] == (list[i].0@, list[i].1),
{
}

/// Ranges none of which ends before it starts fit wherever all their offsets together do.
pub proof fn law_ranges_fit_by_their_total(ranges: Seq<RangeTree>)
    requires
        forall|i: int|
            0 <= i < ranges.len() ==> (#[trigger] ranges[i]).start_offset <= ranges[i].end_offset,
        total_size(ranges) <= i64::MAX,
    ensures
        sizes_fit(ranges),
        total_size(ranges) >= 0,
    decreases ranges.len(),
{
    if ranges.len() > 0 {
        let front = ranges.drop_last();
        let last = ranges.len() - 1;
        assert(ranges[last].start_offset <= ranges[last].end_offset);
        assert forall|i: int| 0 <= i < front.len() implies (#[trigger] front[i]).start_offset
            <= front[i].end_offset by {
            assert(front[i] == ranges[i]);
        }
        law_ranges_fit_by_their_total(front);
        assert forall|i: int| 0 <= i < ranges.len() implies fits(range_size(#[trigger] ranges[i]))
            && fits(total_size(ranges.take(i + 1))) by {
            if i < last {
                assert(front[i] == ranges[i]);
                assert(front.take(i + 1) =~= ranges.take(i + 1));
            } else {
                assert(ranges.take(i + 1) =~= ranges);
            }
        }
    }
}

/// A resolver that differs from another in nothing but how far it is has its options and its
/// partitions.
pub proof fn law_resolver_keeps_its_task(resolver: OffsetResolver<'_>, before: OffsetResolver<'_>)
    requires
        resolver.same_task(before),
    ensures
        resolver.options == before.options,
        resolver.partitions == before.partitions,
{
}

} // verus!
