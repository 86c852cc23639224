//! Reading a partition: where to start, which messages make a batch, and what columns they become.

use vstd::prelude::*;

use crate::arrow_schema::to_arrow_schema;
use crate::batch::{
    arrow_failed, avro_outcome, avro_rows, batch_of, batch_outcome, binary_column, binary_tree,
    bodies_total, bytes_total, bytes_views, columns_fit, columns_in, columns_of, decode_avro,
    decode_json, decoder_made, int32_column, int32_tree, int64_column, int64_tree, json_batches,
    json_outcome, law_readable_json_gives_its_rows, message_bytes, micros_column, micros_tree,
    new_batch, optional_batch, optional_bytes, readable_fields, stackable_fields, stacked,
    stacked_cells, text_column, text_total, text_tree, AvroFault, BatchTree, CellTree, Column,
    ColumnTree, RowBatch,
};
use crate::encoding::{
    metadata_columns, raw_schema_columns, readable_encoding, EncodingTree, ValueEncoding,
};
use crate::error::{client_failure, config_error, config_failure, Failure, FailureKind, ReadError};
use crate::offsets::{partition_name, KafkaPartitionRange, RangeTree};
use crate::options::KafkaReadOptions;
use crate::schema::{FieldTree, TableSchema, TypeTree};
use crate::text::{decimal, decimal_text, joined, texts};

verus! {

/// The time of a message in milliseconds, and what it is the time of.
#[derive(Debug, Clone, Copy, PartialEq, Eq, Structural)]
pub enum MessageTime {
    NotAvailable,
    CreateTime(i64),
    LogAppendTime(i64),
}

/// The milliseconds of a time; there are none where the number is -1.
pub open spec fn millis_of(time: MessageTime) -> Option<i64> {
    match time {
        MessageTime::NotAvailable => None,
        MessageTime::CreateTime(ms) => if ms == -1 {
            None
        } else {
            Some(ms)
        },
        MessageTime::LogAppendTime(ms) => if ms == -1 {
            None
        } else {
            Some(ms)
        },
    }
}

/// Calls `rdkafka::Timestamp::to_millis`. Claimed: the milliseconds of the time; none where the
/// time is not available or the number is -1.
#[verifier::external_body]
fn to_millis(time: MessageTime) -> (r: Option<i64>)
    ensures
        r == millis_of(time),
{
    match time {
        MessageTime::NotAvailable => rdkafka::Timestamp::NotAvailable,
        MessageTime::CreateTime(ms) => rdkafka::Timestamp::CreateTime(ms),
        MessageTime::LogAppendTime(ms) => rdkafka::Timestamp::LogAppendTime(ms),
    }.to_millis()
}

/// The microseconds of a time, zero where there is none.
pub open spec fn micros_of(time: MessageTime) -> int {
    match millis_of(time) {
        Some(ms) => ms * 1000,
        None => 0,
    }
}

/// Whether the microseconds of a time fit in 64 bits.
pub open spec fn time_fits(time: MessageTime) -> bool {
    i64::MIN <= micros_of(time) <= i64::MAX
}

/// The number of what a time is the time of.
pub open spec fn time_type(time: MessageTime) -> i32 {
    match time {
        MessageTime::NotAvailable => -1i32,
        MessageTime::CreateTime(_) => 0,
        MessageTime::LogAppendTime(_) => 1,
    }
}

/// Whether the microseconds of a time fit in 64 bits.
pub fn is_time_in_range(time: MessageTime) -> (r: bool)
    ensures
        r == time_fits(time),
{
    match to_millis(time) {
        Some(ms) => ms.checked_mul(1000).is_some(),
        None => true,
    }
}

/// A message as the Kafka client hands it over.
#[derive(Debug)]
pub struct PolledMessage {
    pub key: Option<Vec<u8>>,
    pub value: Option<Vec<u8>>,
    pub topic: String,
    pub partition: i32,
    pub offset: i64,
    pub time: MessageTime,
}

/// A message that was read.
#[derive(Debug)]
pub struct KafkaMessage {
    pub key: Option<Vec<u8>>,
    pub value: Option<Vec<u8>>,
    pub topic: String,
    pub partition: i32,
    pub offset: i64,
    pub timestamp_us: i64,
    pub timestamp_type: i32,
}

/// What a `KafkaMessage` stands for.
pub struct MessageTree {
    pub key: Option<Seq<u8>>,
    pub value: Option<Seq<u8>>,
    pub topic: Seq<char>,
    pub partition: i32,
    pub offset: i64,
    pub timestamp_us: i64,
    pub timestamp_type: i32,
}

impl View for KafkaMessage {
    type V = MessageTree;

    open spec fn view(&self) -> MessageTree {
        MessageTree {
            key: optional_bytes(self.key),
            value: optional_bytes(self.value),
            topic: self.topic@,
            partition: self.partition,
            offset: self.offset,
            timestamp_us: self.timestamp_us,
            timestamp_type: self.timestamp_type,
        }
    }
}

/// The message that a polled message is read as.
pub open spec fn message_of(polled: PolledMessage) -> MessageTree {
    MessageTree {
        key: optional_bytes(polled.key),
        value: optional_bytes(polled.value),
        topic: polled.topic@,
        partition: polled.partition,
        offset: polled.offset,
        timestamp_us: micros_of(polled.time) as i64,
        timestamp_type: time_type(polled.time),
    }
}

/// What a list of messages stands for.
pub open spec fn message_trees(messages: Seq<KafkaMessage>) -> Seq<MessageTree> {
    messages.map_values(|m: KafkaMessage| m@)
}

/// What a poll gives.
#[derive(Debug)]
pub enum PollReply {
    /// A message.
    Message(PolledMessage),
    /// The client's error, by its description.
    Failed(String),
    /// Nothing within the time.
    Nothing,
}

/// What has come of the polls for a batch.
pub struct PollTree {
    pub messages: Seq<MessageTree>,
    pub empty_polls: int,
    pub stopped: bool,
    pub done: bool,
}

/// Before the first poll nothing has come.
pub open spec fn poll_start() -> PollTree {
    PollTree { messages: Seq::empty(), empty_polls: 0, stopped: false, done: false }
}

/// Whether the batch takes another poll.
pub open spec fn poll_open(poll: PollTree, batch_size: usize) -> bool {
    !poll.stopped && poll.messages.len() < batch_size
}

/// What has come after one more poll that did not fail. A message at or past `end` ends the
/// batch and the read. A poll that gives nothing ends the batch where there are messages, or where
/// it is the third in a row.
pub open spec fn poll_step(poll: PollTree, reply: PollReply, end: i64) -> PollTree {
    match reply {
        PollReply::Message(polled) => if polled.offset >= end {
            PollTree { empty_polls: 0, stopped: true, done: true, ..poll }
        } else {
            PollTree { empty_polls: 0, messages: poll.messages.push(message_of(polled)), ..poll }
        },
        _ => {
            let empty_polls = poll.empty_polls + 1;
            PollTree {
                empty_polls,
                stopped: empty_polls >= 3 || poll.messages.len() > 0,
                ..poll
            }
        },
    }
}

/// The polls for a batch.
#[derive(Debug)]
pub struct MessagePoll {
    pub messages: Vec<KafkaMessage>,
    pub empty_polls: u8,
    pub stopped: bool,
    pub done: bool,
}

impl View for MessagePoll {
    type V = PollTree;

    open spec fn view(&self) -> PollTree {
        PollTree {
            messages: message_trees(self.messages@),
            empty_polls: self.empty_polls as int,
            stopped: self.stopped,
            done: self.done,
        }
    }
}

impl MessagePoll {
    /// Before the first poll.
    pub fn new() -> (r: MessagePoll)
        ensures
            r@ == poll_start(),
            r.well_formed(),
    {
        let r = MessagePoll { messages: Vec::new(), empty_polls: 0, stopped: false, done: false };
        assert(r@.messages =~= Seq::<MessageTree>::empty());
        r
    }

    /// Whether the polls are in a state that they can be in.
    pub open spec fn well_formed(&self) -> bool {
        self.stopped || self.empty_polls < 3
    }

    /// Whether the batch takes another poll.
    pub fn wants_poll(&self, batch_size: usize) -> (r: bool)
        ensures
            r == poll_open(self@, batch_size),
    {
        !self.stopped && self.messages.len() < batch_size
    }

    /// Takes what a poll gives. Where the poll failed, nothing changes and the error comes back.
    pub fn polled(&mut self, reply: PollReply, end_offset: i64) -> (r: Result<(), ReadError>)
        requires
            old(self).well_formed(),
            !old(self).stopped,
            match reply {
                PollReply::Message(polled) => polled.offset >= end_offset || time_fits(polled.time),
                _ => true,
            },
        ensures
            final(self).well_formed(),
            match reply {
                PollReply::Failed(text) => *final(self) == *old(self) && (r matches Err(error)
                    && error@ == client_failure(text@)),
                _ => r is Ok && final(self)@ == poll_step(old(self)@, reply, end_offset),
            },
    {
        match reply {
            PollReply::Failed(text) => Err(ReadError::Client(text)),
            PollReply::Nothing => {
                self.empty_polls = self.empty_polls + 1;
                if self.empty_polls >= 3 || self.messages.len() > 0 {
                    self.stopped = true;
                }
                Ok(())
            },
            PollReply::Message(polled) => {
                self.empty_polls = 0;
                if polled.offset >= end_offset {
                    self.stopped = true;
                    self.done = true;
                    return Ok(());
                }
                let ghost wanted = message_of(polled);
                let timestamp_type: i32 = match polled.time {
                    MessageTime::NotAvailable => -1,
                    MessageTime::CreateTime(_) => 0,
                    MessageTime::LogAppendTime(_) => 1,
                };
                let ms: i64 = match to_millis(polled.time) {
                    Some(ms) => ms,
                    None => 0,
                };
                let message = KafkaMessage {
                    key: polled.key,
                    value: polled.value,
                    topic: polled.topic,
                    partition: polled.partition,
                    offset: polled.offset,
                    timestamp_us: ms * 1000,
                    timestamp_type,
                };
                assert(message@ == wanted);
                let ghost before = self@.messages;
                self.messages.push(message);
                assert(self@.messages =~= before.push(wanted));
                Ok(())
            },
        }
    }
}

/// What has come of `replies`, none of which failed.
pub open spec fn poll_run(replies: Seq<PollReply>, end: i64) -> PollTree
    decreases replies.len(),
{
    if replies.len() == 0 {
        poll_start()
    } else {
        poll_step(poll_run(replies.drop_last(), end), replies.last(), end)
    }
}

/// Whether each of `replies` was wanted when it came.
pub open spec fn all_wanted(replies: Seq<PollReply>, end: i64, batch_size: usize) -> bool {
    forall|i: int|
        0 <= i < replies.len() ==> poll_open(#[trigger] poll_run(replies.take(i), end), batch_size)
}

/// The messages of `replies` before `end`, in order.
pub open spec fn messages_before(replies: Seq<PollReply>, end: i64) -> Seq<MessageTree>
    decreases replies.len(),
{
    if replies.len() == 0 {
        Seq::empty()
    } else {
        let front = messages_before(replies.drop_last(), end);
        match replies.last() {
            PollReply::Message(polled) => if polled.offset < end {
                front.push(message_of(polled))
            } else {
                front
            },
            _ => front,
        }
    }
}

/// A batch has every message before the end that was polled for it, in the order in which they
/// came, and no other; it is no larger than the batch size; and the read is done as soon as a
/// message at or past the end has come.
pub proof fn law_batch_keeps_every_message(replies: Seq<PollReply>, end: i64, batch_size: usize)
    requires
        all_wanted(replies, end, batch_size),
    ensures
        ({
            let poll = poll_run(replies, end);
            &&& poll.messages == messages_before(replies, end)
            &&& poll.messages.len() <= batch_size
            &&& forall|i: int|
                0 <= i < poll.messages.len() ==> (#[trigger] poll.messages[i]).offset < end
            &&& poll.done <==> exists|i: int|
                0 <= i < replies.len() && (#[trigger] replies[i]) is Message
                    && replies[i]->Message_0.offset >= end
        }),
    decreases replies.len(),
{
    let poll = poll_run(replies, end);
    if replies.len() > 0 {
        let front = replies.drop_last();
        assert forall|i: int| 0 <= i < front.len() implies poll_open(
            #[trigger] poll_run(front.take(i), end),
            batch_size,
        ) by {
            assert(front.take(i) =~= replies.take(i));
            assert(poll_open(poll_run(replies.take(i), end), batch_size));
        }
        law_batch_keeps_every_message(front, end, batch_size);
        assert(replies.take(front.len() as int) =~= front);
        assert(poll_open(poll_run(replies.take(front.len() as int), end), batch_size));
        let last = replies.last();
        if last is Message && last->Message_0.offset >= end {
            assert(replies[replies.len() - 1] is Message);
        } else {
            if poll.done {
                let i = choose|i: int|
                    0 <= i < front.len() && (#[trigger] front[i]) is Message
                        && front[i]->Message_0.offset >= end;
                assert(replies[i] == front[i]);
            }
            if exists|i: int|
                0 <= i < replies.len() && (#[trigger] replies[i]) is Message
                    && replies[i]->Message_0.offset >= end {
                let i = choose|i: int|
                    0 <= i < replies.len() && (#[trigger] replies[i]) is Message
                        && replies[i]->Message_0.offset >= end;
                assert(front[i] == replies[i]);
            }
        }
    }
}

/// Messages that come one after the other from `start` on make a batch whose offsets are
/// sequential.
pub proof fn law_sequential_offsets(replies: Seq<PollReply>, start: int, end: i64)
    requires
        forall|i: int|
            0 <= i < replies.len() ==> (#[trigger] replies[i]) is Message
                && replies[i]->Message_0.offset == start + i,
        start + replies.len() <= end,
    ensures
        messages_before(replies, end).len() == replies.len(),
        forall|i: int|
            0 <= i < replies.len() ==> (#[trigger] messages_before(replies, end)[i]).offset == start
                + i,
    decreases replies.len(),
{
    if replies.len() > 0 {
        let front = replies.drop_last();
        assert forall|i: int| 0 <= i < front.len() implies (#[trigger] front[i]) is Message
            && front[i]->Message_0.offset == start + i by {
            assert(front[i] == replies[i]);
        }
        law_sequential_offsets(front, start, end);
        assert(replies[replies.len() - 1]->Message_0.offset == start + replies.len() - 1);
    }
}

/// The replies of several batches, one after the other.
pub open spec fn all_replies(batches: Seq<Seq<PollReply>>) -> Seq<PollReply>
    decreases batches.len(),
{
    if batches.len() == 0 {
        Seq::empty()
    } else {
        all_replies(batches.drop_last()) + batches.last()
    }
}

/// The messages of several batches, one after the other.
pub open spec fn all_messages(batches: Seq<Seq<PollReply>>, end: i64) -> Seq<MessageTree>
    decreases batches.len(),
{
    if batches.len() == 0 {
        Seq::empty()
    } else {
        all_messages(batches.drop_last(), end) + poll_run(batches.last(), end).messages
    }
}

/// The batches of a read have together every message before the end that was polled, once and in
/// the order in which they came.
pub proof fn law_batches_keep_every_message_together(
    batches: Seq<Seq<PollReply>>,
    end: i64,
    batch_size: usize,
)
    requires
        forall|b: int|
            0 <= b < batches.len() ==> all_wanted(#[trigger] batches[b], end, batch_size),
    ensures
        all_messages(batches, end) == messages_before(all_replies(batches), end),
    decreases batches.len(),
{
    if batches.len() > 0 {
        let front = batches.drop_last();
        assert forall|b: int| 0 <= b < front.len() implies all_wanted(
            #[trigger] front[b],
            end,
            batch_size,
        ) by {
            assert(front[b] == batches[b]);
        }
        law_batches_keep_every_message_together(front, end, batch_size);
        assert(all_wanted(batches[batches.len() - 1], end, batch_size));
        law_batch_keeps_every_message(batches.last(), end, batch_size);
        lemma_messages_before_concat(all_replies(front), batches.last(), end);
    }
}

proof fn lemma_messages_before_concat(a: Seq<PollReply>, b: Seq<PollReply>, end: i64)
    ensures
        messages_before(a + b, end) == messages_before(a, end) + messages_before(b, end),
    decreases b.len(),
{
    if b.len() == 0 {
        assert(a + b =~= a);
        assert(messages_before(a, end) + messages_before(b, end) =~= messages_before(a, end));
    } else {
        lemma_messages_before_concat(a, b.drop_last(), end);
        assert((a + b).drop_last() =~= a + b.drop_last());
        assert(messages_before(a + b, end) =~= messages_before(a, end) + messages_before(b, end));
    }
}

/// The keys of messages.
pub open spec fn keys_of(messages: Seq<MessageTree>) -> Seq<Option<Seq<u8>>> {
    messages.map_values(|m: MessageTree| m.key)
}

/// The values of messages.
pub open spec fn values_of(messages: Seq<MessageTree>) -> Seq<Option<Seq<u8>>> {
    messages.map_values(|m: MessageTree| m.value)
}

/// The topics of messages.
pub open spec fn topics_of(messages: Seq<MessageTree>) -> Seq<Seq<char>> {
    messages.map_values(|m: MessageTree| m.topic)
}

/// The partitions of messages.
pub open spec fn partitions_in(messages: Seq<MessageTree>) -> Seq<i32> {
    messages.map_values(|m: MessageTree| m.partition)
}

/// The offsets of messages.
pub open spec fn offsets_in(messages: Seq<MessageTree>) -> Seq<i64> {
    messages.map_values(|m: MessageTree| m.offset)
}

/// The times of messages in microseconds.
pub open spec fn times_in(messages: Seq<MessageTree>) -> Seq<i64> {
    messages.map_values(|m: MessageTree| m.timestamp_us)
}

/// The numbers of what the times of messages are the times of.
pub open spec fn time_types_in(messages: Seq<MessageTree>) -> Seq<i32> {
    messages.map_values(|m: MessageTree| m.timestamp_type)
}

/// The columns of messages that are handed on as they are.
pub open spec fn raw_message_columns(messages: Seq<MessageTree>) -> Seq<ColumnTree> {
    seq![
        binary_tree(keys_of(messages)),
        binary_tree(values_of(messages)),
        text_tree(topics_of(messages)),
        int32_tree(partitions_in(messages)),
        int64_tree(offsets_in(messages)),
        micros_tree(times_in(messages)),
        int32_tree(time_types_in(messages)),
    ]
}

/// The columns that accompany the decoded values of messages.
pub open spec fn metadata_message_columns(messages: Seq<MessageTree>) -> Seq<ColumnTree> {
    seq![
        binary_tree(keys_of(messages)),
        text_tree(topics_of(messages)),
        int32_tree(partitions_in(messages)),
        int64_tree(offsets_in(messages)),
        micros_tree(times_in(messages)),
    ]
}

/// Whether the keys, the values and the topics of messages each fit in one column, and the messages
/// are no more than one has room for.
pub open spec fn messages_fit(messages: Seq<MessageTree>) -> bool {
    &&& messages.len() <= i32::MAX
    &&& bytes_total(keys_of(messages)) <= i32::MAX
    &&& bytes_total(values_of(messages)) <= i32::MAX
    &&& text_total(topics_of(messages)) <= i32::MAX
}

fn copy_bytes(bytes: &Option<Vec<u8>>) -> (r: Option<Vec<u8>>)
    ensures
        optional_bytes(r) == optional_bytes(*bytes),
{
    match bytes {
        Some(bytes) => {
            let copy: Vec<u8> = bytes.clone();
            assert(copy@ =~= bytes@);
            Some(copy)
        },
        None => None,
    }
}

proof fn lemma_bytes_total_monotone(list: Seq<Option<Seq<u8>>>, n: int)
    requires
        0 <= n <= list.len(),
    ensures
        0 <= bytes_total(list.take(n)) <= bytes_total(list),
    decreases list.len(),
{
    if n < list.len() {
        lemma_bytes_total_monotone(list.drop_last(), n);
        assert(list.drop_last().take(n) =~= list.take(n));
    } else {
        assert(list.take(n) =~= list);
        if n > 0 {
            lemma_bytes_total_monotone(list.drop_last(), n - 1);
            assert(list.drop_last().take(n - 1) =~= list.drop_last());
        }
    }
}

proof fn lemma_text_total_monotone(list: Seq<Seq<char>>, n: int)
    requires
        0 <= n <= list.len(),
    ensures
        0 <= text_total(list.take(n)) <= text_total(list),
    decreases list.len(),
{
    if n < list.len() {
        lemma_text_total_monotone(list.drop_last(), n);
        assert(list.drop_last().take(n) =~= list.take(n));
    } else {
        assert(list.take(n) =~= list);
        if n > 0 {
            lemma_text_total_monotone(list.drop_last(), n - 1);
            assert(list.drop_last().take(n - 1) =~= list.drop_last());
        }
    }
}

/// The number of bytes of an optional value.
fn byte_count(bytes: &Option<Vec<u8>>) -> (r: usize)
    ensures
        r == match optional_bytes(*bytes) {
            Some(b) => b.len() as int,
            None => 0,
        },
{
    match bytes {
        Some(bytes) => bytes.len(),
        None => 0,
    }
}

/// Whether the keys, the values and the topics of messages each fit in one column, and the messages
/// are no more than one has room for.
pub fn is_batch_in_range(messages: &Vec<KafkaMessage>) -> (r: bool)
    ensures
        r == messages_fit(message_trees(messages@)),
{
    let ghost all = message_trees(messages@);
    let ghost keys = keys_of(all);
    let ghost values = values_of(all);
    let ghost topics = topics_of(all);
    let limit: u64 = 0x7fff_ffff;
    if messages.len() as u64 > limit {
        return false;
    }
    let mut key_bytes: u64 = 0;
    let mut value_bytes: u64 = 0;
    let mut topic_bytes: u64 = 0;
    let mut i: usize = 0;
    while i < messages.len()
        invariant
            i <= messages.len(),
            limit == i32::MAX,
            messages@.len() <= limit,
            all == message_trees(messages@),
            keys == keys_of(all),
            values == values_of(all),
            topics == topics_of(all),
            key_bytes == bytes_total(keys.take(i as int)),
            value_bytes == bytes_total(values.take(i as int)),
            topic_bytes == text_total(topics.take(i as int)),
            key_bytes <= limit,
            value_bytes <= limit,
            topic_bytes <= limit,
        decreases messages.len() - i,
    {
        let message: &KafkaMessage = &messages[i];
        assert(all[i as int] == message@);
        let key: u64 = byte_count(&message.key) as u64;
        let value: u64 = byte_count(&message.value) as u64;
        let topic: u64 = message.topic.as_str().as_bytes().len() as u64;
        proof {
            assert(keys.take(i + 1).drop_last() =~= keys.take(i as int));
            assert(values.take(i + 1).drop_last() =~= values.take(i as int));
            assert(topics.take(i + 1).drop_last() =~= topics.take(i as int));
            lemma_bytes_total_monotone(keys, i + 1);
            lemma_bytes_total_monotone(values, i + 1);
            lemma_text_total_monotone(topics, i + 1);
        }
        if key > limit - key_bytes || value > limit - value_bytes || topic > limit - topic_bytes {
            return false;
        }
        key_bytes = key_bytes + key;
        value_bytes = value_bytes + value;
        topic_bytes = topic_bytes + topic;
        i = i + 1;
    }
    assert(keys.take(keys.len() as int) =~= keys);
    assert(values.take(values.len() as int) =~= values);
    assert(topics.take(topics.len() as int) =~= topics);
    true
}

/// Gathers the columns that accompany decoded values.
#[derive(Debug)]
pub struct MetadataAccumulator {
    keys: Vec<Option<Vec<u8>>>,
    topics: Vec<String>,
    partitions: Vec<i32>,
    offsets: Vec<i64>,
    timestamps: Vec<i64>,
}

impl MetadataAccumulator {
    /// Whether these are the columns of `messages`.
    pub closed spec fn holds(&self, messages: Seq<MessageTree>) -> bool {
        &&& bytes_views(self.keys@) == keys_of(messages)
        &&& texts(self.topics@) == topics_of(messages)
        &&& self.partitions@ == partitions_in(messages)
        &&& self.offsets@ == offsets_in(messages)
        &&& self.timestamps@ == times_in(messages)
    }

    /// The columns of no message, with room for `capacity` of them.
    pub fn new(capacity: usize) -> (r: MetadataAccumulator)
        ensures
            r.holds(Seq::empty()),
    {
        let r = MetadataAccumulator {
            keys: Vec::with_capacity(capacity),
            topics: Vec::with_capacity(capacity),
            partitions: Vec::with_capacity(capacity),
            offsets: Vec::with_capacity(capacity),
            timestamps: Vec::with_capacity(capacity),
        };
        let ghost none = Seq::<MessageTree>::empty();
        assert(bytes_views(r.keys@) =~= keys_of(none));
        assert(texts(r.topics@) =~= topics_of(none));
        assert(r.partitions@ =~= partitions_in(none));
        assert(r.offsets@ =~= offsets_in(none));
        assert(r.timestamps@ =~= times_in(none));
        r
    }

    /// Adds a message.
    pub fn push(&mut self, message: &KafkaMessage)
        ensures
            forall|messages: Seq<MessageTree>| #[trigger]
                old(self).holds(messages) ==> final(self).holds(messages.push(message@)),
    {
        let ghost keys = bytes_views(self.keys@);
        let ghost topics = texts(self.topics@);
        let key: Option<Vec<u8>> = copy_bytes(&message.key);
        let topic: String = message.topic.clone();
        self.keys.push(key);
        self.topics.push(topic);
        self.partitions.push(message.partition);
        self.offsets.push(message.offset);
        self.timestamps.push(message.timestamp_us);
        proof {
            assert(bytes_views(self.keys@) =~= keys.push(message@.key));
            assert(texts(self.topics@) =~= topics.push(message@.topic));
            assert forall|messages: Seq<MessageTree>| #[trigger] old(self).holds(
                messages,
            ) implies self.holds(messages.push(message@)) by {
                let more = messages.push(message@);
                assert(keys_of(more) =~= keys_of(messages).push(message@.key));
                assert(topics_of(more) =~= topics_of(messages).push(message@.topic));
                assert(partitions_in(more) =~= partitions_in(messages).push(message.partition));
                assert(offsets_in(more) =~= offsets_in(messages).push(message.offset));
                assert(times_in(more) =~= times_in(messages).push(message.timestamp_us));
            }
        }
    }

    /// The columns.
    pub fn finish(self) -> (r: Vec<Column>)
        requires
            exists|messages: Seq<MessageTree>|
                #![trigger self.holds(messages)]
                self.holds(messages) && bytes_total(keys_of(messages)) <= i32::MAX && text_total(
                    topics_of(messages),
                ) <= i32::MAX,
        ensures
            forall|messages: Seq<MessageTree>| #[trigger]
                self.holds(messages) ==> columns_of(r@) == metadata_message_columns(messages),
    {
        let mut r: Vec<Column> = Vec::new();
        r.push(binary_column(&self.keys));
        r.push(text_column(self.topics));
        r.push(int32_column(self.partitions));
        r.push(int64_column(self.offsets));
        r.push(micros_column(self.timestamps));
        proof {
            assert forall|messages: Seq<MessageTree>| #[trigger] self.holds(
                messages,
            ) implies columns_of(r@) == metadata_message_columns(messages) by {
                assert(columns_of(r@) =~= metadata_message_columns(messages));
            }
        }
        r
    }
}

/// The metadata columns of messages.
fn metadata_columns_of(messages: &Vec<KafkaMessage>) -> (r: Vec<Column>)
    requires
        messages_fit(message_trees(messages@)),
    ensures
        columns_of(r@) == metadata_message_columns(message_trees(messages@)),
{
    let ghost all = message_trees(messages@);
    let mut metadata: MetadataAccumulator = MetadataAccumulator::new(messages.len());
    let mut i: usize = 0;
    assert(all.take(0) =~= Seq::<MessageTree>::empty());
    while i < messages.len()
        invariant
            i <= messages.len(),
            all == message_trees(messages@),
            metadata.holds(all.take(i as int)),
        decreases messages.len() - i,
    {
        metadata.push(&messages[i]);
        assert(all.take(i + 1) =~= all.take(i as int).push(messages@[i as int]@));
        i = i + 1;
    }
    assert(all.take(all.len() as int) =~= all);
    metadata.finish()
}

/// The raw columns of messages.
fn raw_columns_of(messages: &Vec<KafkaMessage>) -> (r: Vec<Column>)
    requires
        messages_fit(message_trees(messages@)),
    ensures
        columns_of(r@) == raw_message_columns(message_trees(messages@)),
{
    let ghost all = message_trees(messages@);
    let mut keys: Vec<Option<Vec<u8>>> = Vec::new();
    let mut values: Vec<Option<Vec<u8>>> = Vec::new();
    let mut topics: Vec<String> = Vec::new();
    let mut partitions: Vec<i32> = Vec::new();
    let mut offsets: Vec<i64> = Vec::new();
    let mut timestamps: Vec<i64> = Vec::new();
    let mut timestamp_types: Vec<i32> = Vec::new();
    let mut i: usize = 0;
    while i < messages.len()
        invariant
            i <= messages.len(),
            all == message_trees(messages@),
            keys@.len() == i,
            values@.len() == i,
            topics@.len() == i,
            partitions@ =~= partitions_in(all.take(i as int)),
            offsets@ =~= offsets_in(all.take(i as int)),
            timestamps@ =~= times_in(all.take(i as int)),
            timestamp_types@ =~= time_types_in(all.take(i as int)),
            forall|j: int| 0 <= j < i ==> optional_bytes(#[trigger] keys@[j]) == all[j].key,
            forall|j: int| 0 <= j < i ==> optional_bytes(#[trigger] values@[j]) == all[j].value,
            forall|j: int| 0 <= j < i ==> (#[trigger] topics@[j])@ == all[j].topic,
        decreases messages.len() - i,
    {
        let message: &KafkaMessage = &messages[i];
        assert(all[i as int] == message@);
        keys.push(copy_bytes(&message.key));
        values.push(copy_bytes(&message.value));
        topics.push(message.topic.clone());
        partitions.push(message.partition);
        offsets.push(message.offset);
        timestamps.push(message.timestamp_us);
        timestamp_types.push(message.timestamp_type);
        i = i + 1;
    }
    assert(all.take(all.len() as int) =~= all);
    assert(bytes_views(keys@) =~= keys_of(all));
    assert(bytes_views(values@) =~= values_of(all));
    assert(texts(topics@) =~= topics_of(all));
    let mut r: Vec<Column> = Vec::new();
    r.push(binary_column(&keys));
    r.push(binary_column(&values));
    r.push(text_column(topics));
    r.push(int32_column(partitions));
    r.push(int64_column(offsets));
    r.push(micros_column(timestamps));
    r.push(int32_column(timestamp_types));
    assert(columns_of(r@) =~= raw_message_columns(all));
    r
}

/// The bytes of a number, the most significant first.
pub open spec fn big_endian(n: u32) -> Seq<u8> {
    seq![
        (n / 0x100_0000) as u8,
        (n / 0x1_0000 % 0x100) as u8,
        (n / 0x100 % 0x100) as u8,
        (n % 0x100) as u8,
    ]
}

/// An Avro record in the wire format of a schema registry: a zero byte, the schema's identifier and
/// the record.
pub open spec fn wire_format(schema_id: u32, record: Seq<u8>) -> Seq<u8> {
    seq![0u8] + big_endian(schema_id) + record
}

/// The Avro record in a value: behind the five bytes of the wire format where it begins as that
/// does, else the value itself; no bytes where there is no value.
pub open spec fn avro_payload(value: Option<Seq<u8>>) -> Seq<u8> {
    match value {
        Some(bytes) => if bytes.len() >= 5 && bytes[0] == 0 {
            bytes.skip(5)
        } else {
            bytes
        },
        None => Seq::empty(),
    }
}

/// The records of messages in the wire format of the schema `schema_id`.
pub open spec fn avro_frames(messages: Seq<MessageTree>, schema_id: u32) -> Seq<Seq<u8>> {
    messages.map_values(|m: MessageTree| wire_format(schema_id, avro_payload(m.value)))
}

/// The records of messages are no longer than their values.
proof fn lemma_bodies_total(messages: Seq<MessageTree>, schema_id: u32)
    ensures
        bodies_total(avro_frames(messages, schema_id)) <= bytes_total(values_of(messages)),
    decreases messages.len(),
{
    if messages.len() > 0 {
        lemma_bodies_total(messages.drop_last(), schema_id);
        let frames = avro_frames(messages, schema_id);
        assert(frames.drop_last() =~= avro_frames(messages.drop_last(), schema_id));
        assert(values_of(messages).drop_last() =~= values_of(messages.drop_last()));
        assert(values_of(messages).last() == messages.last().value);
        assert(frames.last().len() == 5 + avro_payload(messages.last().value).len());
    }
}

/// Taking the wire format off gives back the record that it was put on.
pub proof fn law_wire_format_is_undone(schema_id: u32, record: Seq<u8>)
    ensures
        avro_payload(Some(wire_format(schema_id, record))) == record,
{
    assert(wire_format(schema_id, record).skip(5) =~= record);
}

/// Adds the bytes of `more` from `from` on.
fn append_from(bytes: &mut Vec<u8>, more: &Vec<u8>, from: usize)
    requires
        from <= more@.len(),
    ensures
        final(bytes)@ == old(bytes)@ + more@.skip(from as int),
{
    let ghost before = bytes@;
    let mut i: usize = from;
    assert(before + more@.subrange(from as int, from as int) =~= before);
    while i < more.len()
        invariant
            from <= i <= more.len(),
            bytes@ == before + more@.subrange(from as int, i as int),
        decreases more.len() - i,
    {
        bytes.push(more[i]);
        assert(bytes@ =~= before + more@.subrange(from as int, i + 1));
        i = i + 1;
    }
    assert(more@.subrange(from as int, more@.len() as int) =~= more@.skip(from as int));
}

/// The record of a value in the wire format.
pub fn confluent_frame(schema_id: u32, value: &Option<Vec<u8>>) -> (r: Vec<u8>)
    ensures
        r@ == wire_format(schema_id, avro_payload(optional_bytes(*value))),
{
    let mut r: Vec<u8> = Vec::new();
    r.push(0);
    r.push((schema_id / 0x100_0000) as u8);
    r.push((schema_id / 0x1_0000 % 0x100) as u8);
    r.push((schema_id / 0x100 % 0x100) as u8);
    r.push((schema_id % 0x100) as u8);
    let ghost front = seq![0u8] + big_endian(schema_id);
    assert(r@ =~= front);
    match value {
        Some(bytes) => {
            if bytes.len() >= 5 && bytes[0] == 0 {
                append_from(&mut r, bytes, 5);
            } else {
                append_from(&mut r, bytes, 0);
                assert(bytes@.skip(0) =~= bytes@);
            }
        },
        None => {
            assert(front + Seq::<u8>::empty() =~= front);
        },
    }
    r
}

/// The values of messages, each with a line feed behind it; messages without a value give nothing.
pub open spec fn json_lines(messages: Seq<MessageTree>) -> Seq<u8>
    decreases messages.len(),
{
    if messages.len() == 0 {
        Seq::empty()
    } else {
        let front = json_lines(messages.drop_last());
        match messages.last().value {
            Some(bytes) => front + bytes + seq![10u8],
            None => front,
        }
    }
}

/// The lines are no longer than the values and a line feed for each message.
proof fn lemma_json_lines_len(messages: Seq<MessageTree>)
    ensures
        json_lines(messages).len() <= bytes_total(values_of(messages)) + messages.len(),
    decreases messages.len(),
{
    if messages.len() > 0 {
        lemma_json_lines_len(messages.drop_last());
        assert(values_of(messages).drop_last() =~= values_of(messages.drop_last()));
        assert(values_of(messages).last() == messages.last().value);
    }
}

/// The values of messages as lines.
fn json_buffer(messages: &Vec<KafkaMessage>) -> (r: Vec<u8>)
    ensures
        r@ == json_lines(message_trees(messages@)),
{
    let ghost all = message_trees(messages@);
    let mut r: Vec<u8> = Vec::new();
    let mut i: usize = 0;
    assert(all.take(0) =~= Seq::<MessageTree>::empty());
    while i < messages.len()
        invariant
            i <= messages.len(),
            all == message_trees(messages@),
            r@ == json_lines(all.take(i as int)),
        decreases messages.len() - i,
    {
        assert(all.take(i + 1).drop_last() =~= all.take(i as int));
        assert(all.take(i + 1).last() == messages@[i as int]@);
        if let Some(value) = &messages[i].value {
            let ghost before = r@;
            append_from(&mut r, value, 0);
            assert(value@.skip(0) =~= value@);
            r.push(10);
            assert(r@ =~= before + value@ + seq![10u8]);
        }
        i = i + 1;
    }
    assert(all.take(all.len() as int) =~= all);
    r
}

/// Whether messages may become `outcome` where their values were decoded as `rows`. Where nothing
/// was decoded they are handed on as they are.
pub open spec fn decoded_outcome(
    fields: Seq<FieldTree>,
    messages: Seq<MessageTree>,
    rows: Result<Option<BatchTree>, Failure>,
    outcome: Result<BatchTree, Failure>,
) -> bool {
    match rows {
        Err(failure) => outcome == Err::<BatchTree, Failure>(failure),
        Ok(None) => batch_outcome(fields, raw_message_columns(messages), outcome),
        Ok(Some(values)) => batch_outcome(
            fields,
            values.columns + metadata_message_columns(messages),
            outcome,
        ),
    }
}

/// Whether the values of messages may be decoded as `rows`. Those that are handed on as they are
/// are not decoded.
pub open spec fn rows_outcome(
    encoding: EncodingTree,
    messages: Seq<MessageTree>,
    rows: Result<Option<BatchTree>, Failure>,
) -> bool {
    match encoding {
        EncodingTree::Raw => rows == Ok::<_, Failure>(None::<BatchTree>),
        EncodingTree::Avro { reader_schema_json, schema_id } => avro_outcome(
            reader_schema_json,
            schema_id,
            avro_frames(messages, schema_id),
            rows,
        ),
        EncodingTree::Json { schema } => json_outcome(schema, json_lines(messages), rows),
    }
}

/// Whether messages with values of the encoding `encoding` may become `outcome` under `fields`.
pub open spec fn messages_outcome(
    encoding: EncodingTree,
    fields: Seq<FieldTree>,
    messages: Seq<MessageTree>,
    outcome: Result<BatchTree, Failure>,
) -> bool {
    exists|rows: Result<Option<BatchTree>, Failure>|
        #[trigger] rows_outcome(encoding, messages, rows) && decoded_outcome(
            fields,
            messages,
            rows,
            outcome,
        )
}

/// What a stream does next.
#[derive(Debug, Clone, Copy, PartialEq, Eq, Structural)]
pub enum StreamAction {
    /// The stream is at its end.
    Finish,
    /// The client has to be made and put at the start.
    Start,
    /// Messages have to be polled.
    Poll,
}

/// The reading of a range.
#[derive(Debug)]
pub struct StreamState {
    pub options: KafkaReadOptions,
    pub range: KafkaPartitionRange,
    pub encoding: ValueEncoding,
    pub schema: TableSchema,
    pub batch_size: usize,
    pub started: bool,
    pub done: bool,
}

/// Where to read on when the earliest offset of the partition is `low`: where the range starts, or
/// at the earliest offset where that is past the start and loss of data is accepted.
pub open spec fn start_position(range: RangeTree, fail_on_data_loss: bool, low: i64) -> Result<
    i64,
    Failure,
> {
    if range.start_offset >= low {
        Ok(range.start_offset)
    } else if fail_on_data_loss {
        Err(
            config_failure(
                "data loss detected: requested start offset "@ + decimal(
                    range.start_offset as int,
                ) + " for "@ + partition_name(range.topic, range.partition)
                    + " but earliest available is "@ + decimal(low as int)
                    + ". Set failOnDataLoss=false to skip missing data."@,
            ),
        )
    } else {
        Ok(low)
    }
}

impl StreamState {
    /// Whether all but how far the reading is stays as in `before`.
    pub open spec fn same_read(&self, before: StreamState) -> bool {
        &&& self.options == before.options
        &&& self.range == before.range
        &&& self.encoding == before.encoding
        &&& self.schema == before.schema
        &&& self.batch_size == before.batch_size
    }

    /// The reading of `range`, before it has started.
    pub fn new(
        options: KafkaReadOptions,
        range: KafkaPartitionRange,
        encoding: ValueEncoding,
        schema: TableSchema,
        batch_size: usize,
    ) -> (r: StreamState)
        ensures
            r.options == options,
            r.range == range,
            r.encoding == encoding,
            r.schema == schema,
            r.batch_size == batch_size,
            !r.started,
            !r.done,
    {
        StreamState { options, range, encoding, schema, batch_size, started: false, done: false }
    }

    /// What comes next.
    pub fn action(&self) -> (r: StreamAction)
        ensures
            r == if self.done {
                StreamAction::Finish
            } else if !self.started {
                StreamAction::Start
            } else {
                StreamAction::Poll
            },
    {
        if self.done {
            StreamAction::Finish
        } else if !self.started {
            StreamAction::Start
        } else {
            StreamAction::Poll
        }
    }

    /// Takes the earliest offset of the partition, after the client was put at the start of the
    /// range. The offset at which the client has to read is handed back.
    pub fn init_consumer(&mut self, low: i64) -> (r: Result<i64, ReadError>)
        ensures
            final(self).same_read(*old(self)),
            final(self).done == old(self).done,
            final(self).started == (old(self).started || r is Ok),
            match r {
                Ok(position) => start_position(
                    old(self).range@,
                    old(self).options.fail_on_data_loss,
                    low,
                ) == Ok::<_, Failure>(position),
                Err(error) => start_position(
                    old(self).range@,
                    old(self).options.fail_on_data_loss,
                    low,
                ) == Err::<i64, _>(error@),
            },
    {
        let start: i64 = self.range.start_offset;
        if start < low {
            if self.options.fail_on_data_loss {
                let number: String = decimal_text(start as i128);
                let mut text: String = joined(
                    "data loss detected: requested start offset ",
                    number.as_str(),
                );
                text.append(" for ");
                let mut name: String = joined(self.range.topic.as_str(), "-");
                name.append(decimal_text(self.range.partition as i128).as_str());
                text.append(name.as_str());
                text.append(" but earliest available is ");
                text.append(decimal_text(low as i128).as_str());
                text.append(". Set failOnDataLoss=false to skip missing data.");
                return Err(config_error(text));
            }
            self.started = true;
            return Ok(low);
        }
        self.started = true;
        Ok(start)
    }

    /// The batch of messages that are handed on as they are.
    pub fn build_raw_batch(&self, messages: &Vec<KafkaMessage>) -> (r: Result<RowBatch, ReadError>)
        requires
            messages_fit(message_trees(messages@)),
        ensures
            ({
                let columns = raw_message_columns(message_trees(messages@));
                match r {
                    Ok(batch) => batch_outcome(self.schema@, columns, Ok(batch_of(batch))),
                    Err(error) => batch_outcome(self.schema@, columns, Err(error@)),
                }
            }),
    {
        new_batch(to_arrow_schema(&self.schema), raw_columns_of(messages))
    }

    /// The batch of decoded values and the columns that accompany them.
    fn build_decoded_batch(&self, messages: &Vec<KafkaMessage>, values: &RowBatch) -> (r: Result<
        RowBatch,
        ReadError,
    >)
        requires
            messages_fit(message_trees(messages@)),
        ensures
            ({
                let columns = batch_of(*values).columns + metadata_message_columns(
                    message_trees(messages@),
                );
                match r {
                    Ok(batch) => batch_outcome(self.schema@, columns, Ok(batch_of(batch))),
                    Err(error) => batch_outcome(self.schema@, columns, Err(error@)),
                }
            }),
    {
        let mut columns: Vec<Column> = columns_in(values);
        let mut metadata: Vec<Column> = metadata_columns_of(messages);
        let ghost before = columns@;
        let ghost added = metadata@;
        columns.append(&mut metadata);
        assert(columns_of(columns@) =~= columns_of(before) + columns_of(added));
        new_batch(to_arrow_schema(&self.schema), columns)
    }

    /// The batch of decoded values, or of the messages as they are where nothing was decoded.
    fn build_values_batch(&self, messages: &Vec<KafkaMessage>, values: Option<RowBatch>) -> (r:
        Result<RowBatch, ReadError>)
        requires
            messages_fit(message_trees(messages@)),
        ensures
            ({
                let all = message_trees(messages@);
                let rows = Ok::<_, Failure>(optional_batch(values));
                match r {
                    Ok(batch) => decoded_outcome(self.schema@, all, rows, Ok(batch_of(batch))),
                    Err(error) => decoded_outcome(self.schema@, all, rows, Err(error@)),
                }
            }),
    {
        match values {
            Some(values) => self.build_decoded_batch(messages, &values),
            None => self.build_raw_batch(messages),
        }
    }

    /// The batch of messages whose values are Avro records.
    pub fn build_avro_batch(
        &self,
        messages: &Vec<KafkaMessage>,
        reader_schema_json: &str,
        schema_id: u32,
    ) -> (r: Result<RowBatch, ReadError>)
        requires
            messages_fit(message_trees(messages@)),
        ensures
            ({
                let all = message_trees(messages@);
                let encoding = EncodingTree::Avro {
                    reader_schema_json: reader_schema_json@,
                    schema_id,
                };
                match r {
                    Ok(batch) => messages_outcome(encoding, self.schema@, all, Ok(batch_of(batch))),
                    Err(error) => messages_outcome(encoding, self.schema@, all, Err(error@)),
                }
            }),
    {
        let ghost all = message_trees(messages@);
        let mut frames: Vec<Vec<u8>> = Vec::new();
        let mut i: usize = 0;
        while i < messages.len()
            invariant
                i <= messages.len(),
                all == message_trees(messages@),
                frames@.len() == i,
                forall|j: int|
                    0 <= j < i ==> (#[trigger] frames@[j])@ == wire_format(
                        schema_id,
                        avro_payload(all[j].value),
                    ),
            decreases messages.len() - i,
        {
            assert(all[i as int] == messages@[i as int]@);
            frames.push(confluent_frame(schema_id, &messages[i].value));
            i = i + 1;
        }
        assert(message_bytes(frames@) =~= avro_frames(all, schema_id));
        proof {
            lemma_bodies_total(all, schema_id);
        }
        let ghost encoding = EncodingTree::Avro {
            reader_schema_json: reader_schema_json@,
            schema_id,
        };
        match decode_avro(reader_schema_json, schema_id, &frames) {
            Ok(values) => {
                assert(rows_outcome(encoding, all, Ok(optional_batch(values))));
                self.build_values_batch(messages, values)
            },
            Err(error) => {
                assert(rows_outcome(encoding, all, Err(error@)));
                Err(error)
            },
        }
    }

    /// The batch of messages whose values are JSON objects.
    pub fn build_json_batch(&self, messages: &Vec<KafkaMessage>, value_schema: &TableSchema) -> (r:
        Result<RowBatch, ReadError>)
        requires
            messages_fit(message_trees(messages@)),
            readable_fields(value_schema@),
        ensures
            ({
                let all = message_trees(messages@);
                let encoding = EncodingTree::Json { schema: value_schema@ };
                match r {
                    Ok(batch) => messages_outcome(encoding, self.schema@, all, Ok(batch_of(batch))),
                    Err(error) => messages_outcome(encoding, self.schema@, all, Err(error@)),
                }
            }),
    {
        let ghost all = message_trees(messages@);
        let ghost encoding = EncodingTree::Json { schema: value_schema@ };
        proof {
            lemma_json_lines_len(all);
        }
        let schema: arrow::datatypes::Schema = to_arrow_schema(value_schema);
        match decode_json(&schema, json_buffer(messages)) {
            Ok(values) => {
                assert(rows_outcome(encoding, all, Ok(optional_batch(values))));
                self.build_values_batch(messages, values)
            },
            Err(error) => {
                assert(rows_outcome(encoding, all, Err(error@)));
                Err(error)
            },
        }
    }

    /// The batch of the messages that were polled. Without any the stream is at its end.
    pub fn next_batch(&mut self, poll: MessagePoll) -> (r: Result<Option<RowBatch>, ReadError>)
        requires
            messages_fit(poll@.messages),
            readable_encoding(old(self).encoding@),
        ensures
            final(self).same_read(*old(self)),
            final(self).started == old(self).started,
            final(self).done == (old(self).done || poll.done || poll@.messages.len() == 0),
            match r {
                Ok(None) => poll@.messages.len() == 0,
                Ok(Some(batch)) => poll@.messages.len() > 0 && messages_outcome(
                    old(self).encoding@,
                    old(self).schema@,
                    poll@.messages,
                    Ok(batch_of(batch)),
                ),
                Err(error) => poll@.messages.len() > 0 && messages_outcome(
                    old(self).encoding@,
                    old(self).schema@,
                    poll@.messages,
                    Err(error@),
                ),
            },
    {
        if poll.done {
            self.done = true;
        }
        if poll.messages.len() == 0 {
            self.done = true;
            return Ok(None);
        }
        let batch: RowBatch = match &self.encoding {
            ValueEncoding::Raw => {
                assert(rows_outcome(EncodingTree::Raw, poll@.messages, Ok(None)));
                match self.build_raw_batch(&poll.messages) {
                    Ok(batch) => batch,
                    Err(error) => {
                        return Err(error);
                    },
                }
            },
            ValueEncoding::Avro { reader_schema_json, schema_id } => match self.build_avro_batch(
                &poll.messages,
                reader_schema_json.as_str(),
                *schema_id,
            ) {
                Ok(batch) => batch,
                Err(error) => {
                    return Err(error);
                },
            },
            ValueEncoding::Json { schema } => match self.build_json_batch(&poll.messages, schema) {
                Ok(batch) => batch,
                Err(error) => {
                    return Err(error);
                },
            },
        };
        Ok(Some(batch))
    }
}

/// Messages that are handed on as they are always make a batch under the raw schema without
/// headers: its columns are those of the messages.
pub proof fn law_raw_messages_make_a_batch(
    messages: Seq<MessageTree>,
    outcome: Result<BatchTree, Failure>,
)
    requires
        messages_outcome(EncodingTree::Raw, raw_schema_columns(false), messages, outcome),
    ensures
        outcome == Ok::<_, Failure>(
            BatchTree {
                fields: raw_schema_columns(false),
                columns: raw_message_columns(messages),
            },
        ),
{
    assert(columns_fit(raw_schema_columns(false), raw_message_columns(messages)));
}

/// A batch of decoded values has the columns of the values, then those that accompany them, and in
/// each column a row for each message.
pub proof fn law_decoded_batch_keeps_the_metadata(
    fields: Seq<FieldTree>,
    messages: Seq<MessageTree>,
    values: BatchTree,
    batch: BatchTree,
)
    requires
        decoded_outcome(fields, messages, Ok(Some(values)), Ok(batch)),
    ensures
        batch.fields == fields,
        batch.columns.take(values.columns.len() as int) == values.columns,
        batch.columns.skip(values.columns.len() as int) == metadata_message_columns(messages),
        batch.columns.len() == fields.len(),
        forall|i: int|
            0 <= i < batch.columns.len() ==> (#[trigger] batch.columns[i]).cells.len()
                == messages.len() && batch.columns[i].data_type == fields[i].data_type,
{
    let columns = values.columns + metadata_message_columns(messages);
    assert(batch == BatchTree { fields, columns });
    assert(columns.take(values.columns.len() as int) =~= values.columns);
    assert(columns.skip(values.columns.len() as int) =~= metadata_message_columns(messages));
    assert(columns[values.columns.len() as int] == metadata_message_columns(messages)[0]);
    assert(columns[values.columns.len() as int].cells.len() == messages.len());
}

/// Decoding JSON values fails only where they cannot be read: messages that fit and whose values
/// can be read have their rows, where there is a row at least for every second message and columns
/// can be put together.
pub proof fn law_readable_json_messages_have_their_rows(
    schema: Seq<FieldTree>,
    fields: Seq<FieldTree>,
    messages: Seq<MessageTree>,
    batches: Seq<BatchTree>,
    outcome: Result<BatchTree, Failure>,
)
    requires
        messages_fit(messages),
        stackable_fields(schema),
        json_batches(schema, json_lines(messages)) == Some(batches),
        schema.len() > 0 ==> 2 * stacked_cells(batches, 0).len() >= messages.len(),
        messages_outcome(EncodingTree::Json { schema }, fields, messages, outcome),
    ensures
        decoded_outcome(
            fields,
            messages,
            Ok(
                if batches.len() == 0 {
                    None
                } else {
                    Some(stacked(schema, batches))
                },
            ),
            outcome,
        ),
{
    let encoding = EncodingTree::Json { schema };
    let rows = choose|rows: Result<Option<BatchTree>, Failure>|
        #[trigger] rows_outcome(encoding, messages, rows) && decoded_outcome(
            fields,
            messages,
            rows,
            outcome,
        );
    lemma_json_lines_len(messages);
    law_readable_json_gives_its_rows(schema, json_lines(messages), rows);
}

/// Messages that are handed on as they are make no batch under the raw schema with headers, which
/// has one field more than they have columns.
pub proof fn law_raw_messages_have_no_headers(
    messages: Seq<MessageTree>,
    outcome: Result<BatchTree, Failure>,
)
    requires
        messages_outcome(EncodingTree::Raw, raw_schema_columns(true), messages, outcome),
    ensures
        outcome is Err,
{
    assert(raw_schema_columns(true).len() == raw_message_columns(messages).len() + 1);
}

/// A read that accepts loss of data always starts, and never before the earliest offset; one that
/// does not starts nowhere but at the start of its range.
pub proof fn law_start_position(range: RangeTree, fail_on_data_loss: bool, low: i64)
    ensures
        ({
            let position = start_position(range, fail_on_data_loss, low);
            &&& !fail_on_data_loss ==> position is Ok
            &&& position is Ok ==> position->Ok_0 >= low && position->Ok_0 >= range.start_offset
            &&& fail_on_data_loss && position is Ok ==> position->Ok_0 == range.start_offset
            &&& position is Err <==> fail_on_data_loss && range.start_offset < low
        }),
{
}

/// A message that was polled is read with its own key, value, topic, partition and offset. Its time
/// is a thousand times its milliseconds, and zero where it has none; -1, 0 and 1 tell a time that
/// is not available, that of the creation and that of the append.
pub proof fn law_message_is_read_as_polled(polled: PolledMessage)
    ensures
        ({
            let message = message_of(polled);
            &&& polled.key is None <==> message.key is None
            &&& polled.key is Some ==> message.key == Some(polled.key->0@)
            &&& polled.value is None <==> message.value is None
            &&& polled.value is Some ==> message.value == Some(polled.value->0@)
            &&& message.topic == polled.topic@
            &&& message.partition == polled.partition
            &&& message.offset == polled.offset
        }),
        polled.time is NotAvailable ==> message_of(polled).timestamp_us == 0 && message_of(
            polled,
        ).timestamp_type == -1 && time_fits(polled.time),
        polled.time is CreateTime ==> message_of(polled).timestamp_type == 0,
        polled.time is LogAppendTime ==> message_of(polled).timestamp_type == 1,
        !(polled.time is NotAvailable) ==> {
            let ms = match polled.time {
                MessageTime::CreateTime(ms) => ms as int,
                MessageTime::LogAppendTime(ms) => ms as int,
                MessageTime::NotAvailable => 0,
            };
            &&& ms == -1 ==> message_of(polled).timestamp_us == 0
            &&& ms != -1 && time_fits(polled.time) ==> message_of(polled).timestamp_us == ms * 1000
            &&& time_fits(polled.time) <==> ms == -1 || i64::MIN <= ms * 1000 <= i64::MAX
        },
{
}

/// A message stands for its own key, value, topic, partition, offset and time, and a list of
/// messages for those of each, in order.
pub proof fn law_messages_stand_for_their_fields(messages: Seq<KafkaMessage>)
    ensures
        message_trees(messages).len() == messages.len(),
        forall|i: int|
            0 <= i < messages.len() ==> {
                let tree = #[trigger] message_trees(messages)[i];
                &&& tree.key == match messages[i].key {
                    Some(key) => Some(key@),
                    None => None,
                }
                &&& tree.value == match messages[i].value {
                    Some(value) => Some(value@),
                    None => None,
                }
                &&& tree.topic == messages[i].topic@
                &&& tree.partition == messages[i].partition
                &&& tree.offset == messages[i].offset
                &&& tree.timestamp_us == messages[i].timestamp_us
                &&& tree.timestamp_type == messages[i].timestamp_type
            },
{
}

/// Where every poll gives a message before the end, the batch has a message for each, and each has
/// the key, the value, the topic, the partition and the offset with which it was polled.
pub proof fn law_polled_messages_keep_their_place(replies: Seq<PollReply>, end: i64)
    requires
        forall|i: int|
            0 <= i < replies.len() ==> (#[trigger] replies[i]) is Message
                && replies[i]->Message_0.offset < end,
    ensures
        poll_run(replies, end).messages.len() == replies.len(),
        !poll_run(replies, end).stopped,
        !poll_run(replies, end).done,
        forall|i: int|
            0 <= i < replies.len() ==> {
                let message = #[trigger] poll_run(replies, end).messages[i];
                let polled = replies[i]->Message_0;
                &&& message.key == match polled.key {
                    Some(key) => Some(key@),
                    None => None,
                }
                &&& message.value == match polled.value {
                    Some(value) => Some(value@),
                    None => None,
                }
                &&& message.topic == polled.topic@
                &&& message.partition == polled.partition
                &&& message.offset == polled.offset
            },
    decreases replies.len(),
{
    if replies.len() > 0 {
        let front = replies.drop_last();
        assert forall|i: int| 0 <= i < front.len() implies (#[trigger] front[i]) is Message
            && front[i]->Message_0.offset < end by {
            assert(front[i] == replies[i]);
        }
        law_polled_messages_keep_their_place(front, end);
        assert(replies[replies.len() - 1] is Message);
        assert forall|i: int| 0 <= i < front.len() implies poll_run(replies, end).messages[i]
            == #[trigger] poll_run(front, end).messages[i] by {}
    }
}

/// A batch for which nothing comes ends with the third poll and not before; one that has messages
/// ends with the first poll that gives nothing; and one poll with a message starts the count anew.
pub proof fn law_three_empty_polls_end_a_batch(replies: Seq<PollReply>, end: i64, batch_size: usize)
    requires
        all_wanted(replies, end, batch_size),
        batch_size > 0,
    ensures
        (forall|i: int| 0 <= i < replies.len() ==> (#[trigger] replies[i]) is Nothing)
            ==> replies.len() <= 3 && (poll_open(poll_run(replies, end), batch_size)
            <==> replies.len() < 3),
        replies.len() > 0 && replies.last() is Nothing && poll_run(replies, end).messages.len() > 0
            ==> !poll_open(poll_run(replies, end), batch_size),
        replies.len() > 0 && replies.last() is Message && replies.last()->Message_0.offset < end
            ==> poll_run(replies, end).empty_polls == 0 && (poll_open(
            poll_run(replies, end),
            batch_size,
        ) <==> poll_run(replies, end).messages.len() < batch_size),
{
    if replies.len() > 0 {
        let last = replies.len() - 1;
        assert(replies.take(last) =~= replies.drop_last());
        assert(poll_open(poll_run(replies.take(last), end), batch_size));
    }
    if forall|i: int| 0 <= i < replies.len() ==> (#[trigger] replies[i]) is Nothing {
        lemma_empty_polls(replies, end);
        if replies.len() > 3 {
            assert(poll_open(poll_run(replies.take(3), end), batch_size));
            assert forall|i: int| 0 <= i < 3 implies (#[trigger] replies.take(3)[i]) is Nothing by {
                assert(replies[i] is Nothing);
            }
            lemma_empty_polls(replies.take(3), end);
        }
    }
}

proof fn lemma_empty_polls(replies: Seq<PollReply>, end: i64)
    requires
        forall|i: int| 0 <= i < replies.len() ==> (#[trigger] replies[i]) is Nothing,
    ensures
        poll_run(replies, end).messages.len() == 0,
        poll_run(replies, end).empty_polls == replies.len(),
        poll_run(replies, end).stopped == (replies.len() >= 3),
    decreases replies.len(),
{
    if replies.len() > 0 {
        let front = replies.drop_last();
        assert forall|i: int| 0 <= i < front.len() implies (#[trigger] front[i]) is Nothing by {
            assert(front[i] == replies[i]);
        }
        lemma_empty_polls(front, end);
        assert(replies[replies.len() - 1] is Nothing);
    }
}

/// A batch of messages that are handed on as they are has seven columns with a cell for each
/// message: in order its key, value, topic, partition, offset, time and what that is the time of.
pub proof fn law_raw_cells_are_those_of_the_messages(
    fields: Seq<FieldTree>,
    messages: Seq<MessageTree>,
    batch: BatchTree,
)
    requires
        messages_outcome(EncodingTree::Raw, fields, messages, Ok(batch)) || decoded_outcome(
            fields,
            messages,
            Ok(None),
            Ok(batch),
        ),
    ensures
        batch.fields == fields,
        batch.columns.len() == 7,
        forall|c: int|
            0 <= c < 7 ==> (#[trigger] batch.columns[c]).cells.len() == messages.len(),
        forall|i: int|
            #![trigger messages[i]]
            0 <= i < messages.len() ==> {
                &&& batch.columns[0].cells[i] == match messages[i].key {
                    Some(bytes) => CellTree::Bytes(bytes),
                    None => CellTree::Null,
                }
                &&& batch.columns[1].cells[i] == match messages[i].value {
                    Some(bytes) => CellTree::Bytes(bytes),
                    None => CellTree::Null,
                }
                &&& batch.columns[2].cells[i] == CellTree::Text(messages[i].topic)
                &&& batch.columns[3].cells[i] == CellTree::Integer(messages[i].partition as int)
                &&& batch.columns[4].cells[i] == CellTree::Integer(messages[i].offset as int)
                &&& batch.columns[5].cells[i] == CellTree::Integer(messages[i].timestamp_us as int)
                &&& batch.columns[6].cells[i] == CellTree::Integer(
                    messages[i].timestamp_type as int,
                )
            },
{
    assert(batch.columns =~= raw_message_columns(messages));
}

/// A batch of decoded values has behind the columns of the values five columns with a cell for each
/// message: in order its key, topic, partition, offset and time.
pub proof fn law_metadata_cells_are_those_of_the_messages(
    fields: Seq<FieldTree>,
    messages: Seq<MessageTree>,
    values: BatchTree,
    batch: BatchTree,
)
    requires
        decoded_outcome(fields, messages, Ok(Some(values)), Ok(batch)),
    ensures
        ({
            let n = values.columns.len() as int;
            &&& batch.columns.len() == n + 5
            &&& forall|c: int|
                0 <= c < n ==> #[trigger] batch.columns[c] == values.columns[c]
            &&& forall|i: int|
                #![trigger messages[i]]
                0 <= i < messages.len() ==> {
                    &&& batch.columns[n].cells[i] == match messages[i].key {
                    Some(bytes) => CellTree::Bytes(bytes),
                    None => CellTree::Null,
                }
                    &&& batch.columns[n + 1].cells[i] == CellTree::Text(messages[i].topic)
                    &&& batch.columns[n + 2].cells[i] == CellTree::Integer(
                        messages[i].partition as int,
                    )
                    &&& batch.columns[n + 3].cells[i] == CellTree::Integer(
                        messages[i].offset as int,
                    )
                    &&& batch.columns[n + 4].cells[i] == CellTree::Integer(
                        messages[i].timestamp_us as int,
                    )
                }
        }),
{
    let n = values.columns.len() as int;
    let metadata = metadata_message_columns(messages);
    assert(batch.columns == values.columns + metadata);
    assert(batch.columns[n] == metadata[0]);
    assert(batch.columns[n + 1] == metadata[1]);
    assert(batch.columns[n + 2] == metadata[2]);
    assert(batch.columns[n + 3] == metadata[3]);
    assert(batch.columns[n + 4] == metadata[4]);
}

/// Messages are decoded by their encoding alone: raw ones not at all, JSON ones for the columns of
/// its schema, and a failure to decode is the failure of the batch.
pub proof fn law_messages_are_decoded_by_their_encoding(
    encoding: EncodingTree,
    fields: Seq<FieldTree>,
    messages: Seq<MessageTree>,
    outcome: Result<BatchTree, Failure>,
)
    requires
        messages_outcome(encoding, fields, messages, outcome),
    ensures
        match encoding {
            EncodingTree::Raw => decoded_outcome(fields, messages, Ok(None), outcome),
            EncodingTree::Json { schema } => {
                &&& json_batches(schema, json_lines(messages)) is None ==> outcome is Err
                    && arrow_failed(outcome->Err_0)
                &&& json_batches(schema, json_lines(messages)) == Some(Seq::<BatchTree>::empty())
                    ==> decoded_outcome(fields, messages, Ok(None), outcome)
            },
            EncodingTree::Avro { reader_schema_json, schema_id } => {
                &&& !decoder_made(reader_schema_json, schema_id, messages.len() as usize)
                    ==> outcome is Err && arrow_failed(outcome->Err_0)
                &&& forall|rows: Option<BatchTree>|
                    avro_rows(reader_schema_json, schema_id, avro_frames(messages, schema_id))
                        == Ok::<_, AvroFault>(rows) ==> #[trigger] decoded_outcome(
                        fields,
                        messages,
                        Ok(rows),
                        outcome,
                    )
            },
        },
{
    let rows = choose|rows: Result<Option<BatchTree>, Failure>|
        #[trigger] rows_outcome(encoding, messages, rows) && decoded_outcome(
            fields,
            messages,
            rows,
            outcome,
        );
    assert(rows_outcome(encoding, messages, rows));
}

/// The JSON lines of two lists of messages are those of the first, then those of the second; one
/// message gives its value and a line feed, or nothing where it has no value.
pub proof fn law_json_lines_follow_each_other(a: Seq<MessageTree>, b: Seq<MessageTree>)
    ensures
        json_lines(a + b) == json_lines(a) + json_lines(b),
        forall|message: MessageTree, value: Seq<u8>|
            message.value == Some(value) ==> #[trigger] json_lines(seq![message]) == #[trigger]
                value.push(10u8),
        forall|message: MessageTree|
            message.value is None ==> (#[trigger] json_lines(seq![message])).len() == 0,
    decreases b.len(),
{
    assert forall|message: MessageTree| json_lines(seq![message]) == match message.value {
        Some(value) => value.push(10u8),
        None => Seq::empty(),
    } by {
        let one = seq![message];
        assert(one.drop_last() =~= Seq::<MessageTree>::empty());
        assert(one.last() == message);
        reveal_with_fuel(json_lines, 2);
        assert(json_lines(one) =~= match message.value {
            Some(value) => value.push(10u8),
            None => Seq::empty(),
        });
    }
    if b.len() == 0 {
        assert(a + b =~= a);
        assert(json_lines(a) + json_lines(b) =~= json_lines(a));
    } else {
        law_json_lines_follow_each_other(a, b.drop_last());
        assert((a + b).drop_last() =~= a + b.drop_last());
        assert((a + b).last() == b.last());
        assert(json_lines(a + b) =~= json_lines(a) + json_lines(b));
    }
}

/// There is one Avro record for each message, in order: a zero byte, the identifier of the schema
/// with its highest byte first, and the value, of which five bytes are left out where the first of
/// them is zero. A message without a value gives a record without bytes.
pub proof fn law_avro_records_are_those_of_the_messages(messages: Seq<MessageTree>, schema_id: u32)
    ensures
        avro_frames(messages, schema_id).len() == messages.len(),
        forall|i: int|
            0 <= i < messages.len() ==> {
                let frame = #[trigger] avro_frames(messages, schema_id)[i];
                &&& frame.len() >= 5
                &&& frame[0] == 0
                &&& frame[1] * 0x100_0000 + frame[2] * 0x1_0000 + frame[3] * 0x100 + frame[4]
                    == schema_id
                &&& match messages[i].value {
                    None => frame.len() == 5,
                    Some(value) => if value.len() >= 5 && value[0] == 0 {
                        frame.len() == value.len() && frame.skip(5) == value.skip(5)
                    } else {
                        frame.skip(5) == value
                    },
                }
            },
{
    assert forall|i: int| 0 <= i < messages.len() implies {
        let frame = #[trigger] avro_frames(messages, schema_id)[i];
        &&& frame.len() >= 5
        &&& frame[0] == 0
        &&& frame[1] * 0x100_0000 + frame[2] * 0x1_0000 + frame[3] * 0x100 + frame[4] == schema_id
        &&& frame.skip(5) == avro_payload(messages[i].value)
    } by {
        let frame = avro_frames(messages, schema_id)[i];
        let payload = avro_payload(messages[i].value);
        assert(frame == seq![0u8] + big_endian(schema_id) + payload);
        assert(frame.skip(5) =~= payload);
    }
}

/// A read starts at the start of its range where that is still there, and else at the earliest
/// offset, but for one that does not accept loss of data: it fails for its configuration.
pub proof fn law_reading_starts_in_the_range(range: RangeTree, fail_on_data_loss: bool, low: i64)
    ensures
        ({
            let position = start_position(range, fail_on_data_loss, low);
            &&& low <= range.start_offset ==> position == Ok::<_, Failure>(range.start_offset)
            &&& low > range.start_offset && !fail_on_data_loss ==> position == Ok::<_, Failure>(low)
            &&& low > range.start_offset && fail_on_data_loss ==> position is Err
                && position->Err_0.kind == FailureKind::Config
        }),
{
}

/// Decoded values make a batch with the messages that they were decoded from wherever their columns
/// are fit for their own fields and have a row for each message.
pub proof fn law_decoded_values_make_a_batch(
    messages: Seq<MessageTree>,
    values: BatchTree,
    outcome: Result<BatchTree, Failure>,
)
    requires
        columns_fit(values.fields, values.columns),
        values.columns[0].cells.len() == messages.len(),
        decoded_outcome(values.fields + metadata_columns(), messages, Ok(Some(values)), outcome),
    ensures
        outcome is Ok,
        outcome->Ok_0.fields.take(values.fields.len() as int) == values.fields,
        outcome->Ok_0.columns.take(values.fields.len() as int) == values.columns,
{
    let n = values.fields.len() as int;
    let fields = values.fields + metadata_columns();
    let metadata = metadata_message_columns(messages);
    let columns = values.columns + metadata;
    assert forall|i: int| 0 <= i < columns.len() implies (#[trigger] columns[i]).data_type
        == fields[i].data_type && columns[i].cells.len() == columns[0].cells.len() && (
    fields[i].nullable || fields[i].data_type == TypeTree::Null || !columns[i].cells.contains(
        CellTree::Null,
    )) by {
        if i < n {
            assert(columns[i] == values.columns[i]);
            assert(fields[i] == values.fields[i]);
        } else {
            assert(columns[i] == metadata[i - n]);
            assert(fields[i] == metadata_columns()[i - n]);
        }
    }
    assert(columns_fit(fields, columns));
    assert(fields.take(n) =~= values.fields);
    assert(columns.take(n) =~= values.columns);
}

/// A read that fails for loss of data names the offset that it asked for, the partition and the
/// earliest offset that there is.
pub proof fn law_lost_data_is_named(range: RangeTree, low: i64)
    requires
        range.start_offset < low,
    ensures
        start_position(range, true, low) is Err,
        start_position(range, true, low)->Err_0.text
            == "data loss detected: requested start offset "@ + decimal(range.start_offset as int) + " for "@ + (range.topic + "-"@ + decimal(
            range.partition as int,
        )) + " but earliest available is "@ + decimal(low as int)
            + ". Set failOnDataLoss=false to skip missing data."@,
{
}

/// Messages fit where, and only where, they are no more than 2147483647 and neither their keys nor
/// their values nor their topics have more bytes together. The bytes of two lists of messages are
/// those of both, and those of one message its own.
pub proof fn law_messages_fit_by_their_bytes(a: Seq<MessageTree>, b: Seq<MessageTree>)
    ensures
        messages_fit(a) <==> a.len() <= 2147483647 && bytes_total(keys_of(a)) <= 2147483647
            && bytes_total(values_of(a)) <= 2147483647 && text_total(topics_of(a)) <= 2147483647,
        bytes_total(keys_of(a + b)) == bytes_total(keys_of(a)) + bytes_total(keys_of(b)),
        bytes_total(values_of(a + b)) == bytes_total(values_of(a)) + bytes_total(values_of(b)),
        text_total(topics_of(a + b)) == text_total(topics_of(a)) + text_total(topics_of(b)),
        a.len() == 1 ==> {
            &&& bytes_total(keys_of(a)) == match a[0].key {
                Some(key) => key.len() as int,
                None => 0,
            }
            &&& bytes_total(values_of(a)) == match a[0].value {
                Some(value) => value.len() as int,
                None => 0,
            }
            &&& text_total(topics_of(a)) == vstd::utf8::encode_utf8(a[0].topic).len()
        },
        a.len() == 0 ==> bytes_total(keys_of(a)) == 0 && bytes_total(values_of(a)) == 0
            && text_total(topics_of(a)) == 0,
{
    assert(keys_of(a + b) =~= keys_of(a) + keys_of(b));
    assert(values_of(a + b) =~= values_of(a) + values_of(b));
    assert(topics_of(a + b) =~= topics_of(a) + topics_of(b));
    lemma_bytes_total_concat(keys_of(a), keys_of(b));
    lemma_bytes_total_concat(values_of(a), values_of(b));
    lemma_text_total_concat(topics_of(a), topics_of(b));
    if a.len() == 1 {
        reveal_with_fuel(bytes_total, 2);
        reveal_with_fuel(text_total, 2);
        assert(keys_of(a).drop_last().len() == 0);
        assert(values_of(a).drop_last().len() == 0);
        assert(topics_of(a).drop_last().len() == 0);
    }
}

proof fn lemma_bytes_total_concat(a: Seq<Option<Seq<u8>>>, b: Seq<Option<Seq<u8>>>)
    ensures
        bytes_total(a + b) == bytes_total(a) + bytes_total(b),
    decreases b.len(),
{
    if b.len() == 0 {
        assert(a + b =~= a);
    } else {
        lemma_bytes_total_concat(a, b.drop_last());
        assert((a + b).drop_last() =~= a + b.drop_last());
        assert((a + b).last() == b.last());
    }
}

proof fn lemma_text_total_concat(a: Seq<Seq<char>>, b: Seq<Seq<char>>)
    ensures
        text_total(a + b) == text_total(a) + text_total(b),
    decreases b.len(),
{
    if b.len() == 0 {
        assert(a + b =~= a);
    } else {
        lemma_text_total_concat(a, b.drop_last());
        assert((a + b).drop_last() =~= a + b.drop_last());
        assert((a + b).last() == b.last());
    }
}

/// Where every poll gives a message before the end, the cells of a raw batch are those of the
/// messages as they were polled, in the order of the polls.
pub proof fn law_raw_cells_are_as_polled(
    fields: Seq<FieldTree>,
    replies: Seq<PollReply>,
    end: i64,
    batch: BatchTree,
)
    requires
        forall|i: int|
            0 <= i < replies.len() ==> (#[trigger] replies[i]) is Message
                && replies[i]->Message_0.offset < end,
        messages_outcome(EncodingTree::Raw, fields, poll_run(replies, end).messages, Ok(batch)),
    ensures
        forall|c: int|
            0 <= c < 7 ==> (#[trigger] batch.columns[c]).cells.len() == replies.len(),
        forall|i: int|
            0 <= i < replies.len() ==> {
                let polled = (#[trigger] replies[i])->Message_0;
                &&& batch.columns[0].cells[i] == match polled.key {
                    Some(bytes) => CellTree::Bytes(bytes@),
                    None => CellTree::Null,
                }
                &&& batch.columns[1].cells[i] == match polled.value {
                    Some(bytes) => CellTree::Bytes(bytes@),
                    None => CellTree::Null,
                }
                &&& batch.columns[2].cells[i] == CellTree::Text(polled.topic@)
                &&& batch.columns[3].cells[i] == CellTree::Integer(polled.partition as int)
                &&& batch.columns[4].cells[i] == CellTree::Integer(polled.offset as int)
            },
{
    let messages = poll_run(replies, end).messages;
    law_polled_messages_keep_their_place(replies, end);
    law_raw_cells_are_those_of_the_messages(fields, messages, batch);
    assert forall|i: int| 0 <= i < replies.len() implies {
        let polled = (#[trigger] replies[i])->Message_0;
        &&& messages[i].topic == polled.topic@
        &&& messages[i].partition == polled.partition
        &&& messages[i].offset == polled.offset
    } by {
        assert(poll_run(replies, end).messages[i] == messages[i]);
    }
}

/// Where every poll gives a message before the end, the cells that accompany decoded values are
/// those of the messages as they were polled, in the order of the polls.
pub proof fn law_metadata_cells_are_as_polled(
    fields: Seq<FieldTree>,
    replies: Seq<PollReply>,
    end: i64,
    values: BatchTree,
    batch: BatchTree,
)
    requires
        forall|i: int|
            0 <= i < replies.len() ==> (#[trigger] replies[i]) is Message
                && replies[i]->Message_0.offset < end,
        decoded_outcome(fields, poll_run(replies, end).messages, Ok(Some(values)), Ok(batch)),
    ensures
        ({
            let n = values.columns.len() as int;
            &&& batch.columns.len() == n + 5
            &&& forall|i: int|
                0 <= i < replies.len() ==> {
                    let polled = (#[trigger] replies[i])->Message_0;
                    &&& batch.columns[n].cells[i] == match polled.key {
                        Some(bytes) => CellTree::Bytes(bytes@),
                        None => CellTree::Null,
                    }
                    &&& batch.columns[n + 1].cells[i] == CellTree::Text(polled.topic@)
                    &&& batch.columns[n + 2].cells[i] == CellTree::Integer(polled.partition as int)
                    &&& batch.columns[n + 3].cells[i] == CellTree::Integer(polled.offset as int)
                }
        }),
{
    let messages = poll_run(replies, end).messages;
    law_polled_messages_keep_their_place(replies, end);
    law_metadata_cells_are_those_of_the_messages(fields, messages, values, batch);
    assert forall|i: int| 0 <= i < replies.len() implies {
        let polled = (#[trigger] replies[i])->Message_0;
        &&& messages[i].topic == polled.topic@
        &&& messages[i].partition == polled.partition
        &&& messages[i].offset == polled.offset
    } by {
        assert(poll_run(replies, end).messages[i] == messages[i]);
    }
}

/// A reading that is the same but for how far it is has the same options, range, encoding, schema
/// and size of batches.
pub proof fn law_reading_stays_the_same(state: StreamState, before: StreamState)
    requires
        state.same_read(before),
    ensures
        state.options == before.options,
        state.range == before.range,
        state.encoding == before.encoding,
        state.schema == before.schema,
        state.batch_size == before.batch_size,
{
}

} // verus!
