//! The scan of ranges, one partition of the plan for each.

use vstd::prelude::*;

use crate::encoding::{label_of, ValueEncoding};
use crate::error::{internal_failure, ReadError};
use crate::offsets::KafkaPartitionRange;
use crate::options::KafkaReadOptions;
use crate::schema::TableSchema;
use crate::stream::StreamState;
use crate::text::{decimal, decimal_text, joined, same_text, texts};

verus! {

/// The number of messages in a batch of a scan.
pub const BATCH_SIZE: usize = 8192;

/// The scan of ranges.
#[derive(Debug)]
pub struct KafkaScanExec {
    pub schema: TableSchema,
    pub encoding: ValueEncoding,
    pub partition_ranges: Vec<KafkaPartitionRange>,
    pub options: KafkaReadOptions,
}

/// The topics of ranges, each once, in the order in which they first come.
pub open spec fn distinct_topics(ranges: Seq<KafkaPartitionRange>) -> Seq<Seq<char>>
    decreases ranges.len(),
{
    if ranges.len() == 0 {
        Seq::empty()
    } else {
        let front = distinct_topics(ranges.drop_last());
        let topic = ranges.last().topic@;
        if front.contains(topic) {
            front
        } else {
            front.push(topic)
        }
    }
}

/// How std writes a list of texts for programmers.
pub uninterp spec fn debug_list(list: Seq<Seq<char>>) -> Seq<char>;

/// Formats a list of strings with `{:?}`. Claimed: the text depends on the strings alone.
#[verifier::external_body]
fn debug_text(list: &Vec<String>) -> (r: String)
    ensures
        r@ == debug_list(texts(list@)),
{
    format!("{:?}", list)
}

impl KafkaScanExec {
    /// The scan of these ranges.
    pub fn new(
        schema: TableSchema,
        encoding: ValueEncoding,
        partition_ranges: Vec<KafkaPartitionRange>,
        options: KafkaReadOptions,
    ) -> (r: KafkaScanExec)
        ensures
            r == (KafkaScanExec { schema, encoding, partition_ranges, options }),
    {
        KafkaScanExec { schema, encoding, partition_ranges, options }
    }

    /// The number of partitions of the plan.
    pub fn partition_count(&self) -> (r: usize)
        ensures
            r == self.partition_ranges@.len(),
    {
        self.partition_ranges.len()
    }

    /// The topics of the scan, each once.
    pub fn topics(&self) -> (r: Vec<String>)
        ensures
            texts(r@) == distinct_topics(self.partition_ranges@),
    {
        let ghost all = self.partition_ranges@;
        let mut r: Vec<String> = Vec::new();
        let mut i: usize = 0;
        assert(all.take(0) =~= Seq::<KafkaPartitionRange>::empty());
        assert(texts(r@) =~= distinct_topics(all.take(0)));
        while i < self.partition_ranges.len()
            invariant
                i <= self.partition_ranges.len(),
                all == self.partition_ranges@,
                texts(r@) == distinct_topics(all.take(i as int)),
            decreases self.partition_ranges.len() - i,
        {
            assert(all.take(i + 1).drop_last() =~= all.take(i as int));
            let topic: &String = &self.partition_ranges[i].topic;
            assert(all.take(i + 1).last().topic@ == topic@);
            let ghost front = texts(r@);
            let mut j: usize = 0;
            while j < r.len() && !same_text(r[j].as_str(), topic.as_str())
                invariant
                    j <= r.len(),
                    front == texts(r@),
                    forall|k: int| 0 <= k < j ==> #[trigger] front[k] != topic@,
                decreases r.len() - j,
            {
                assert(front[j as int] == r@[j as int]@);
                j = j + 1;
            }
            if j < r.len() {
                assert(front[j as int] == topic@);
                assert(front.contains(topic@));
            } else {
                assert(!front.contains(topic@));
                r.push(topic.clone());
                assert(texts(r@) =~= front.push(topic@));
            }
            i = i + 1;
        }
        assert(all.take(all.len() as int) =~= all);
        r
    }

    /// The line that describes the scan.
    pub fn describe(&self) -> (r: String)
        ensures
            r@ == "KafkaScanExec: topics="@ + debug_list(distinct_topics(self.partition_ranges@))
                + ", partitions="@ + decimal(self.partition_ranges@.len() as int)
                + ", encoding=\""@ + label_of(self.encoding@) + "\""@,
    {
        let topics: String = debug_text(&self.topics());
        let mut r: String = joined("KafkaScanExec: topics=", topics.as_str());
        r.append(", partitions=");
        r.append(decimal_text(self.partition_ranges.len() as i128).as_str());
        r.append(", encoding=\"");
        r.append(self.encoding.label());
        r.append("\"");
        r
    }

    /// Whether the scan can stand over `count` children: it has none.
    pub fn with_new_children(&self, count: usize) -> (r: Result<(), ReadError>)
        ensures
            match r {
                Ok(_) => count == 0,
                Err(error) => count > 0 && error@ == internal_failure(
                    "KafkaScanExec has no children"@,
                ),
            },
    {
        if count > 0 {
            return Err(ReadError::Internal("KafkaScanExec has no children".to_owned()));
        }
        Ok(())
    }

    /// The reading of the range that is the partition `partition` of the plan.
    pub fn execute(&self, partition: usize) -> (r: Result<StreamState, ReadError>)
        ensures
            match r {
                Ok(state) => {
                    &&& partition < self.partition_ranges@.len()
                    &&& state.range@ == self.partition_ranges@[partition as int]@
                    &&& state.options@ == self.options@
                    &&& state.options.topic_selection.pairs()
                        == self.options.topic_selection.pairs()
                    &&& state.options.kafka_properties.pairs()
                        == self.options.kafka_properties.pairs()
                    &&& state.encoding@ == self.encoding@
                    &&& state.schema@ == self.schema@
                    &&& state.batch_size == BATCH_SIZE
                    &&& state.batch_size == 8192
                    &&& !state.started
                    &&& !state.done
                },
                Err(error) => partition >= self.partition_ranges@.len() && error@
                    == internal_failure(
                    "partition index "@ + decimal(partition as int) + " out of range (have "@
                        + decimal(self.partition_ranges@.len() as int) + ")"@,
                ),
            },
    {
        if partition >= self.partition_ranges.len() {
            let number: String = decimal_text(partition as i128);
            let mut text: String = joined("partition index ", number.as_str());
            text.append(" out of range (have ");
            text.append(decimal_text(self.partition_ranges.len() as i128).as_str());
            text.append(")");
            return Err(ReadError::Internal(text));
        }
        Ok(
            StreamState::new(
                self.options.duplicate(),
                self.partition_ranges[partition].duplicate(),
                self.encoding.duplicate(),
                self.schema.duplicate(),
                BATCH_SIZE,
            ),
        )
    }
}

/// The topics of a scan are those of its ranges and no others, each once.
pub proof fn law_topics_come_once(ranges: Seq<KafkaPartitionRange>)
    ensures
        forall|topic: Seq<char>| #[trigger]
            distinct_topics(ranges).contains(topic) <==> exists|i: int|
                0 <= i < ranges.len() && (#[trigger] ranges[i]).topic@ == topic,
        forall|i: int, j: int|
            0 <= i < j < distinct_topics(ranges).len() ==> #[trigger] distinct_topics(ranges)[i]
                != #[trigger] distinct_topics(ranges)[j],
    decreases ranges.len(),
{
    if ranges.len() > 0 {
        let front = ranges.drop_last();
        let last = ranges.last().topic@;
        law_topics_come_once(front);
        let before = distinct_topics(front);
        let all = distinct_topics(ranges);
        assert forall|topic: Seq<char>| #[trigger] all.contains(topic) <==> exists|i: int|
            0 <= i < ranges.len() && (#[trigger] ranges[i]).topic@ == topic by {
            if before.contains(topic) {
                let k = choose|k: int| 0 <= k < before.len() && before[k] == topic;
                assert(all[k] == topic);
                let i = choose|i: int| 0 <= i < front.len() && (#[trigger] front[i]).topic@ == topic;
                assert(ranges[i] == front[i]);
            }
            if topic == last {
                if !before.contains(last) {
                    assert(all[before.len() as int] == last);
                }
                assert(ranges[ranges.len() - 1].topic@ == topic);
            }
            if exists|i: int| 0 <= i < ranges.len() && (#[trigger] ranges[i]).topic@ == topic {
                let i = choose|i: int|
                    0 <= i < ranges.len() && (#[trigger] ranges[i]).topic@ == topic;
                if i < front.len() {
                    assert(front[i] == ranges[i]);
                }
            }
            if all.contains(topic) && topic != last {
                let k = choose|k: int| 0 <= k < all.len() && all[k] == topic;
                assert(before[k] == topic);
            }
        }
        assert forall|i: int, j: int| 0 <= i < j < all.len() implies #[trigger] all[i]
            != #[trigger] all[j] by {
            if j == before.len() {
                assert(all[i] == before[i]);
            } else {
                assert(all[i] == before[i] && all[j] == before[j]);
            }
        }
    }
}

} // verus!
