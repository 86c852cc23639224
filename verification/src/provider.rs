//! The table that a read presents.

use vstd::prelude::*;

use crate::encoding::ValueEncoding;
use crate::offsets::{range_trees, KafkaPartitionRange};
use crate::options::KafkaReadOptions;
use crate::scan_exec::KafkaScanExec;
use crate::schema::TableSchema;

verus! {

/// How far a table takes over a filter.
#[derive(Debug, Clone, Copy, PartialEq, Eq, Structural)]
pub enum FilterSupport {
    Unsupported,
    Inexact,
    Exact,
}

/// The table that a read presents.
#[derive(Debug)]
pub struct KafkaTableProvider {
    pub schema: TableSchema,
    pub encoding: ValueEncoding,
    pub partition_ranges: Vec<KafkaPartitionRange>,
    pub options: KafkaReadOptions,
}

/// Ranges with the same contents.
pub fn duplicate_ranges(ranges: &Vec<KafkaPartitionRange>) -> (r: Vec<KafkaPartitionRange>)
    ensures
        range_trees(r@) == range_trees(ranges@),
{
    let mut r: Vec<KafkaPartitionRange> = Vec::new();
    let mut i: usize = 0;
    while i < ranges.len()
        invariant
            i <= ranges.len(),
            r@.len() == i,
            forall|j: int| 0 <= j < i ==> (#[trigger] r@[j])@ == ranges@[j]@,
        decreases ranges.len() - i,
    {
        r.push(ranges[i].duplicate());
        i = i + 1;
    }
    assert(range_trees(r@) =~= range_trees(ranges@));
    r
}

impl KafkaTableProvider {
    /// The table of these ranges.
    pub fn new(
        schema: TableSchema,
        encoding: ValueEncoding,
        partition_ranges: Vec<KafkaPartitionRange>,
        options: KafkaReadOptions,
    ) -> (r: KafkaTableProvider)
        ensures
            r == (KafkaTableProvider { schema, encoding, partition_ranges, options }),
    {
        KafkaTableProvider { schema, encoding, partition_ranges, options }
    }

    /// The scan of the whole table.
    pub fn scan(&self) -> (r: KafkaScanExec)
        ensures
            r.schema@ == self.schema@,
            r.encoding@ == self.encoding@,
            range_trees(r.partition_ranges@) == range_trees(self.partition_ranges@),
            r.options@ == self.options@,
            r.options.topic_selection.pairs() == self.options.topic_selection.pairs(),
            r.options.kafka_properties.pairs() == self.options.kafka_properties.pairs(),
    {
        KafkaScanExec::new(
            self.schema.duplicate(),
            self.encoding.duplicate(),
            duplicate_ranges(&self.partition_ranges),
            self.options.duplicate(),
        )
    }

    /// How far the table takes over each of `count` filters: not at all.
    pub fn supports_filters_pushdown(&self, count: usize) -> (r: Vec<FilterSupport>)
        ensures
            r@ == Seq::new(count as nat, |i: int| FilterSupport::Unsupported),
    {
        let mut r: Vec<FilterSupport> = Vec::new();
        let mut i: usize = 0;
        while i < count
            invariant
                i <= count,
                r@ =~= Seq::new(i as nat, |i: int| FilterSupport::Unsupported),
            decreases count - i,
        {
            r.push(FilterSupport::Unsupported);
            i = i + 1;
        }
        r
    }
}

} // verus!
