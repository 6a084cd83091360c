//! Kafka ingestion: draining a window, and committing what it consumed.
//!
//! Delivery is at-least-once: auto-commit is disabled, and offsets are
//! committed explicitly after a successful upload. The client's calls that
//! wait on the network are made elsewhere; here stand the decisions between
//! them.

use crate::error::KafkaError;
use crate::object_key::{ascending, ascending_entries, lemma_listing_len};
use crate::text;
use rdkafka::config::ClientConfig;
use rdkafka::error::KafkaError as ClientError;
use rdkafka::topic_partition_list::{Offset, TopicPartitionList};
use std::collections::BTreeMap;
use vstd::prelude::*;
use vstd::utf8::encode_utf8;

verus! {

/// Backoff applied after a consumption error, in milliseconds, so that a
/// broken broker does not turn into a busy loop for the rest of the window.
pub const CONSUME_ERROR_BACKOFF_MILLIS: u64 = 250;

/// Modest initial payload buffer: avoids the doubling chain of reallocations
/// for small windows without committing the whole bound up front.
pub const INITIAL_PAYLOAD_CAPACITY: usize = 64 * 1024;

// ---------------------------------------------------------------------------
// Draining a window
// ---------------------------------------------------------------------------
/// A consumed record.
pub struct Record {
    /// The value; a tombstone has none.
    pub value: Option<Seq<u8>>,
    pub partition: i32,
    pub offset: i64,
}

/// What a record adds to the payload: its value and a newline, or nothing.
pub open spec fn record_bytes(record: Record) -> Seq<u8> {
    match record.value {
        Some(value) => value.push(10u8),
        None => Seq::empty(),
    }
}

/// The newline-delimited values of `records`, in order.
pub open spec fn payload_of(records: Seq<Record>) -> Seq<u8>
    decreases records.len(),
{
    if records.len() == 0 {
        Seq::empty()
    } else {
        payload_of(records.drop_last()) + record_bytes(records.last())
    }
}

/// `offsets` with the offset of a record counted in: the higher one stays.
pub open spec fn with_offset(offsets: Map<i32, i64>, partition: i32, offset: i64) -> Map<i32, i64> {
    if offsets.contains_key(partition) && offsets[partition] >= offset {
        offsets
    } else {
        offsets.insert(partition, offset)
    }
}

/// The highest offset of each partition in `records`.
pub open spec fn offsets_of(records: Seq<Record>) -> Map<i32, i64>
    decreases records.len(),
{
    if records.len() == 0 {
        Map::empty()
    } else {
        with_offset(
            offsets_of(records.drop_last()),
            records.last().partition,
            records.last().offset,
        )
    }
}

/// `offsets` with the offset of a record counted in: the lower one stays.
pub open spec fn with_first(offsets: Map<i32, i64>, partition: i32, offset: i64) -> Map<i32, i64> {
    if offsets.contains_key(partition) && offsets[partition] <= offset {
        offsets
    } else {
        offsets.insert(partition, offset)
    }
}

/// The lowest offset of each partition in `records`.
pub open spec fn first_offsets_of(records: Seq<Record>) -> Map<i32, i64>
    decreases records.len(),
{
    if records.len() == 0 {
        Map::empty()
    } else {
        with_first(
            first_offsets_of(records.drop_last()),
            records.last().partition,
            records.last().offset,
        )
    }
}

/// Messages accumulated during one backfill window plus the highest and the
/// lowest consumed offset per partition.
#[derive(Debug)]
pub struct ConsumedBatch {
    /// Newline-delimited raw message values.
    pub payload: Vec<u8>,
    /// Number of consumed records (tombstones and empty values included).
    pub message_count: usize,
    /// Partition to highest consumed offset.
    pub partition_offsets: BTreeMap<i32, i64>,
    /// Partition to lowest consumed offset: from there a window that fails is
    /// consumed again.
    pub first_offsets: BTreeMap<i32, i64>,
}

impl ConsumedBatch {
    /// The batch holds exactly `records`.
    pub open spec fn holds(self, records: Seq<Record>) -> bool {
        &&& self.payload@ == payload_of(records)
        &&& self.message_count == records.len()
        &&& self.partition_offsets@ == offsets_of(records)
        &&& self.first_offsets@ == first_offsets_of(records)
    }

    /// Counts one record in.
    pub fn absorb(&mut self, value: Option<&[u8]>, partition: i32, offset: i64)
        requires
            old(self).message_count < usize::MAX,
        ensures
            final(self).payload@ == old(self).payload@ + record_bytes(
                received(value, partition, offset),
            ),
            final(self).message_count == old(self).message_count + 1,
            final(self).partition_offsets@ == with_offset(
                old(self).partition_offsets@,
                partition,
                offset,
            ),
            final(self).first_offsets@ == with_first(old(self).first_offsets@, partition, offset),
    {
        broadcast use vstd::laws_cmp::group_laws_cmp;

        let ghost record = received(value, partition, offset);
        if let Some(bytes) = value {
            self.payload.extend_from_slice(bytes);
            self.payload.push(10u8);
        }
        assert(self.payload@ == old(self).payload@ + record_bytes(record));
        self.message_count = self.message_count + 1;
        let higher = match self.partition_offsets.get(&partition) {
            Some(known) => *known < offset,
            None => true,
        };
        if higher {
            self.partition_offsets.insert(partition, offset);
        }
        let lower = match self.first_offsets.get(&partition) {
            Some(known) => offset < *known,
            None => true,
        };
        if lower {
            self.first_offsets.insert(partition, offset);
        }
    }
}

impl Default for ConsumedBatch {
    fn default() -> (batch: ConsumedBatch)
        ensures
            batch.holds(Seq::empty()),
    {
        ConsumedBatch {
            payload: Vec::with_capacity(INITIAL_PAYLOAD_CAPACITY),
            message_count: 0,
            partition_offsets: BTreeMap::new(),
            first_offsets: BTreeMap::new(),
        }
    }
}

/// The record that a message carries.
pub open spec fn received(value: Option<&[u8]>, partition: i32, offset: i64) -> Record {
    Record {
        value: match value {
            Some(bytes) => Some(bytes@),
            None => None,
        },
        partition,
        offset,
    }
}

/// What happened while a window was waiting for a message.
#[derive(Debug)]
pub enum DrainEvent<'a> {
    /// The window's time is over.
    Elapsed,
    /// The client reported a consumption error.
    Failed,
    /// A message arrived.
    Message { value: Option<&'a [u8]>, partition: i32, offset: i64 },
}

/// What a window does next.
#[derive(Debug, Clone, Copy, PartialEq, Eq, Structural)]
pub enum DrainAction {
    /// Wait for a message until the window's time is over.
    Receive,
    /// Wait this many milliseconds, then receive.
    BackOff { millis: u64 },
    /// The window is closed.
    Close,
}

/// What an event does to an open window: `before` becomes `after`, and `action`
/// comes next. A message is counted in, and closes the window once the payload
/// has reached its bound; an error is waited out; the end of the time closes the
/// window with what it has.
pub open spec fn drained(
    before: ConsumedBatch,
    max_bytes: int,
    event: DrainEvent<'_>,
    after: ConsumedBatch,
    action: DrainAction,
) -> bool {
    match event {
        DrainEvent::Elapsed => after == before && action == DrainAction::Close,
        DrainEvent::Failed => after == before && action == (DrainAction::BackOff {
            millis: CONSUME_ERROR_BACKOFF_MILLIS,
        }),
        DrainEvent::Message { value, partition, offset } => {
            &&& after.payload@ == before.payload@ + record_bytes(
                received(value, partition, offset),
            )
            &&& after.message_count == before.message_count + 1
            &&& after.partition_offsets@ == with_offset(
                before.partition_offsets@,
                partition,
                offset,
            )
            &&& after.first_offsets@ == with_first(before.first_offsets@, partition, offset)
            &&& action == receive_below(after.payload@.len() as int, max_bytes)
        },
    }
}

/// Receive, unless the payload has reached its bound.
pub open spec fn receive_below(payload_len: int, max_bytes: int) -> DrainAction {
    if payload_len >= max_bytes {
        DrainAction::Close
    } else {
        DrainAction::Receive
    }
}

/// Opens a window: nothing is consumed yet.
pub fn open_window(max_bytes: usize) -> (opened: (ConsumedBatch, DrainAction))
    ensures
        opened.0.holds(Seq::empty()),
        opened.1 == receive_below(0, max_bytes as int),
{
    let action = if max_bytes == 0 {
        DrainAction::Close
    } else {
        DrainAction::Receive
    };
    (ConsumedBatch::default(), action)
}

/// What a window does once the clock was read: a message is received only while
/// the window's time is not over, even if one is ready.
pub fn next_receive(action: DrainAction, elapsed: bool) -> (next: DrainAction)
    ensures
        next == timed(action, elapsed),
{
    if elapsed {
        DrainAction::Close
    } else {
        action
    }
}

/// `action`, unless the window's time is over, which closes it.
pub open spec fn timed(action: DrainAction, elapsed: bool) -> DrainAction {
    if elapsed {
        DrainAction::Close
    } else {
        action
    }
}

// ---------------------------------------------------------------------------
// The client configuration
// ---------------------------------------------------------------------------
/// The client configuration of `rdkafka`: a map from parameter to value.
#[verifier::external_type_specification]
#[verifier::external_body]
pub struct ExClientConfig(ClientConfig);

/// Client parameters with their values.
pub type Parameters = Map<Seq<char>, Seq<char>>;

/// The parameters that were set in a client configuration, with their values.
pub uninterp spec fn parameters(config: ClientConfig) -> Parameters;

/// `ClientConfig::new` of `rdkafka`: the contract claims that no parameter is
/// set. (The log level that it takes from the process is no parameter.)
#[verifier::external_body]
fn new_client_config() -> (config: ClientConfig)
    ensures
        parameters(config) == Parameters::empty(),
{
    ClientConfig::new()
}

/// `ClientConfig::set` of `rdkafka`: the contract claims that the parameter has
/// the value afterwards, in place of one that it had, and that no other
/// parameter changes.
#[verifier::external_body]
fn set_parameter(config: &mut ClientConfig, key: &str, value: &str)
    ensures
        parameters(*final(config)) == parameters(*old(config)).insert(key@, value@),
{
    config.set(key, value);
}

/// The parameters of a consumer in the group `group`.
pub open spec fn consumer_parameters(brokers: Seq<Seq<char>>, group: Seq<char>) -> Parameters {
    map![
        "bootstrap.servers"@ => text::joined(brokers, ","@),
        "group.id"@ => group,
        "client.id"@ => "kafka-sync"@,
        "enable.partition.eof"@ => "false"@,
        "enable.auto.commit"@ => "false"@,
        "enable.auto.offset.store"@ => "false"@,
        "auto.offset.reset"@ => "earliest"@,
    ]
}

/// The client configuration of a consumer. Offsets are neither stored nor
/// committed by the client itself, and a partition without a committed offset
/// is read from its beginning.
pub fn consumer_config(brokers: &Vec<String>, group: &str) -> (config: ClientConfig)
    ensures
        parameters(config) == consumer_parameters(text::views(brokers@), group@),
{
    let bootstrap_servers = text::join(brokers, ",");
    let mut config = new_client_config();
    set_parameter(&mut config, "bootstrap.servers", bootstrap_servers.as_str());
    set_parameter(&mut config, "group.id", group);
    set_parameter(&mut config, "client.id", "kafka-sync");
    set_parameter(&mut config, "enable.partition.eof", "false");
    set_parameter(&mut config, "enable.auto.commit", "false");
    set_parameter(&mut config, "enable.auto.offset.store", "false");
    set_parameter(&mut config, "auto.offset.reset", "earliest");
    config
}

/// How connecting a consumer went.
pub enum ConnectReply<C> {
    /// The client could not be created.
    NotCreated(ClientError),
    /// The client was created, but subscribing it to the topic failed.
    NotSubscribed(ClientError),
    /// The client is created and subscribed.
    Subscribed(C),
}

/// The long-lived consumer of a single topic, on a client of type `C`.
///
/// One consumer per topic is kept for the process lifetime: staying joined to
/// the group between windows avoids a rebalance per window. After a window that
/// failed it is set back, so that it consumes the window again.
pub struct KafkaConsumer<C> {
    pub topic: String,
    pub consumer: C,
}

// ---------------------------------------------------------------------------
// Lists of partitions
// ---------------------------------------------------------------------------
/// The list of topics, partitions and offsets of `rdkafka`.
#[verifier::external_type_specification]
#[verifier::external_body]
pub struct ExTopicPartitionList(TopicPartitionList);

/// An element of a list: the bytes of its topic, its partition and its raw
/// offset.
pub type Element = (Seq<u8>, i32, i64);

/// The elements of a list, in order.
pub uninterp spec fn elements(list: TopicPartitionList) -> Seq<Element>;

/// The error with which `TopicPartitionList::add_partition_offset` of `rdkafka`
/// refuses an offset.
pub uninterp spec fn refusal(topic: Seq<char>, partition: i32, offset: i64) -> ClientError;

/// The raw offset of an element that was given none.
pub const UNSET_OFFSET: i64 = -1001;

/// The number of elements up to which a list is sure to grow: the client
/// library counts them in a 32-bit integer and doubles its room.
pub const MAX_LIST_LEN: usize = 0x3fff_ffff;

/// `text` can stand in a list: the client library ends texts at a NUL.
pub open spec fn is_nul_free(text: Seq<char>) -> bool {
    text::free_of(text, '\0')
}

/// `list` has an element with these bytes as its topic and this partition.
pub open spec fn lists_bytes(list: Seq<Element>, topic: Seq<u8>, partition: i32) -> bool {
    exists|i: int|
        0 <= i < list.len() && (#[trigger] list[i]).0 == topic && list[i].1 == partition
}

/// `TopicPartitionList::new` of `rdkafka`: the contract claims that the list is
/// empty.
#[verifier::external_body]
fn new_list() -> (list: TopicPartitionList)
    ensures
        elements(list).len() == 0,
{
    TopicPartitionList::new()
}

/// `TopicPartitionList::add_partition_offset` of `rdkafka` with
/// `Offset::Offset`: the contract claims, of a partition that the list lacks,
/// that one element for it is appended and no other changes; that the call
/// succeeds exactly if the offset is not negative, and that its error depends on
/// the arguments alone; and that the element has that offset, or none where the
/// call failed.
#[verifier::external_body]
fn add_partition_offset(
    list: &mut TopicPartitionList,
    topic: &str,
    partition: i32,
    offset: i64,
) -> (added: Result<(), ClientError>)
    requires
        is_nul_free(topic@),
        !lists_bytes(elements(*old(list)), encode_utf8(topic@), partition),
        elements(*old(list)).len() < MAX_LIST_LEN,
    ensures
        added is Ok <==> offset >= 0,
        added matches Err(error) ==> error == refusal(topic@, partition, offset),
        elements(*final(list)) == elements(*old(list)).push(
            (encode_utf8(topic@), partition, if offset >= 0 { offset } else { UNSET_OFFSET }),
        ),
{
    list.add_partition_offset(topic, partition, Offset::Offset(offset))
}

/// `TopicPartitionList::find_partition` of `rdkafka`: the contract claims that it
/// finds an element exactly if the list has one with the bytes of this topic and
/// with this partition.
#[verifier::external_body]
fn is_listed(list: &TopicPartitionList, topic: &str, partition: i32) -> (listed: bool)
    requires
        is_nul_free(topic@),
    ensures
        listed == lists_bytes(elements(*list), encode_utf8(topic@), partition),
{
    list.find_partition(topic, partition).is_some()
}

/// The partition of `topic` is among `assignment`. A topic with a NUL never is:
/// no topic that the client knows holds one.
pub open spec fn is_assigned(
    assignment: Seq<Element>,
    topic: Seq<char>,
    partition: i32,
) -> bool {
    is_nul_free(topic) && lists_bytes(assignment, encode_utf8(topic), partition)
}

/// The offset to commit after `offset` was consumed: that of the next message.
pub open spec fn next_offset(offset: i64) -> i64 {
    if offset == i64::MAX {
        offset
    } else {
        (offset + 1) as i64
    }
}

/// The consumed offsets of the partitions that are still assigned.
pub open spec fn assigned_entries(
    assignment: Seq<Element>,
    topic: Seq<char>,
    entries: Seq<(i32, i64)>,
) -> Seq<(i32, i64)> {
    entries.filter(|entry: (i32, i64)| is_assigned(assignment, topic, entry.0))
}

/// The elements that commit `entries`: the offsets of the next messages.
pub open spec fn commit_elements(topic: Seq<char>, entries: Seq<(i32, i64)>) -> Seq<Element> {
    offset_elements(topic, nexts(entries))
}

/// Each of `entries` with the offset of the next message.
pub open spec fn nexts(entries: Seq<(i32, i64)>) -> Seq<(i32, i64)> {
    entries.map_values(|entry: (i32, i64)| (entry.0, next_offset(entry.1)))
}

/// The elements that set each partition of `entries` to its offset.
pub open spec fn offset_elements(topic: Seq<char>, entries: Seq<(i32, i64)>) -> Seq<Element> {
    entries.map_values(|entry: (i32, i64)| (encode_utf8(topic), entry.0, entry.1))
}

/// Whether any offset is negative, which no broker takes.
pub open spec fn has_negative(entries: Seq<(i32, i64)>) -> bool {
    exists|i: int| 0 <= i < entries.len() && (#[trigger] entries[i]).1 < 0
}

/// The offset at `at` is the first negative one among `entries`.
pub open spec fn is_first_negative(entries: Seq<(i32, i64)>, at: int) -> bool {
    &&& 0 <= at < entries.len()
    &&& entries[at].1 < 0
    &&& forall|i: int| 0 <= i < at ==> (#[trigger] entries[i]).1 >= 0
}

/// The error of the first offset in `entries` that is refused.
pub open spec fn is_first_refusal(
    topic: Seq<char>,
    entries: Seq<(i32, i64)>,
    error: ClientError,
) -> bool {
    exists|at: int| #[trigger]
        is_first_negative(entries, at) && error == refusal(topic, entries[at].0, entries[at].1)
}

fn holds_no_nul(text: &str) -> (free: bool)
    ensures
        free == is_nul_free(text@),
{
    let chars = text::chars_of(text);
    let n: usize = chars.len();
    let mut i: usize = 0;
    while i < n
        invariant
            n == chars.len(),
            i <= n,
            chars@ == text@,
            forall|k: int| 0 <= k < i ==> text@[k] != '\0',
        decreases n - i,
    {
        if chars[i] == '\0' {
            return false;
        }
        i = i + 1;
    }
    true
}

/// Lists the partitions of `entries` that are assigned, each with its offset.
fn list_assigned(
    assignment: &TopicPartitionList,
    topic: &str,
    entries: &Vec<(i32, i64)>,
) -> (listed: Result<TopicPartitionList, ClientError>)
    requires
        entries@.len() <= MAX_LIST_LEN,
        forall|i: int, j: int|
            0 <= i < j < entries@.len() ==> (#[trigger] entries@[i]).0 < (#[trigger] entries@[j]).0,
    ensures
        ({
            let due = assigned_entries(elements(*assignment), topic@, entries@);
            match listed {
                Ok(list) => !has_negative(due) && elements(list) == offset_elements(topic@, due),
                Err(source) => has_negative(due) && is_first_refusal(topic@, due, source),
            }
        }),
{
    let nameable = holds_no_nul(topic);
    let ghost keep = |entry: (i32, i64)| is_assigned(elements(*assignment), topic@, entry.0);
    let n: usize = entries.len();
    let mut list = new_list();
    let mut i: usize = 0;
    let ghost mut due: Seq<(i32, i64)> = Seq::empty();
    proof {
        reveal(Seq::filter);
        assert(entries@.take(0).filter(keep) == due);
        assert(offset_elements(topic@, due) == Seq::<Element>::empty());
    }
    while i < n
        invariant
            n == entries.len(),
            n <= MAX_LIST_LEN,
            i <= n,
            nameable == is_nul_free(topic@),
            forall|i: int, j: int|
                0 <= i < j < entries@.len() ==> (#[trigger] entries@[i]).0 < (
                #[trigger] entries@[j]).0,
            keep == (|entry: (i32, i64)|
                is_assigned(elements(*assignment), topic@, entry.0)),
            due == entries@.take(i as int).filter(keep),
            due.len() <= i,
            forall|k: int| 0 <= k < due.len() ==> (#[trigger] due[k]).0 < entries@[i as int].0
                || i == n,
            !has_negative(due),
            elements(list) == offset_elements(topic@, due),
        decreases n - i,
    {
        let (partition, offset) = entries[i];
        let ghost entry = entries@[i as int];
        proof {
            reveal(Seq::filter);
            assert(entries@.take(i + 1).drop_last() == entries@.take(i as int));
        }
        if nameable && is_listed(assignment, topic, partition) {
            assert(keep(entry));
            let added = add_partition_offset(&mut list, topic, partition, offset);
            match added {
                Ok(()) => {},
                Err(source) => {
                    proof {
                        lemma_first_refusal(entries@, keep, i as int, topic@, source);
                    }
                    return Err(source);
                },
            }
            proof {
                due = due.push(entry);
            }
        } else {
            assert(!keep(entry));
        }
        i = i + 1;
    }
    assert(entries@.take(n as int) == entries@);
    Ok(list)
}

/// Builds the commit list from the consumed offsets, intersected with the
/// current assignment: a partition revoked mid-window belongs to another group
/// member now, and committing this view of it would silently skip messages.
pub fn build_commit_list(
    assignment: &TopicPartitionList,
    topic: &str,
    partition_offsets: &BTreeMap<i32, i64>,
) -> (commit_list: Result<TopicPartitionList, KafkaError>)
    requires
        partition_offsets@.len() <= MAX_LIST_LEN,
    ensures
        ({
            let due = assigned_entries(
                elements(*assignment),
                topic@,
                ascending(partition_offsets@),
            );
            match commit_list {
                Ok(list) => !has_negative(nexts(due)) && elements(list) == commit_elements(
                    topic@,
                    due,
                ),
                Err(KafkaError::CommitList { topic: t, source }) => has_negative(nexts(due)) && t@
                    == topic@ && is_first_refusal(topic@, nexts(due), source),
                Err(_) => false,
            }
        }),
{
    let entries = ascending_entries(partition_offsets);
    let n: usize = entries.len();
    let mut due: Vec<(i32, i64)> = Vec::new();
    let mut i: usize = 0;
    while i < n
        invariant
            n == entries.len(),
            i <= n,
            due@ == nexts(entries@.take(i as int)),
        decreases n - i,
    {
        let (partition, offset) = entries[i];
        // Committed offsets are the next message to consume.
        let next: i64 = if offset == i64::MAX {
            offset
        } else {
            offset + 1
        };
        due.push((partition, next));
        assert(due@ == nexts(entries@.take(i + 1)));
        i = i + 1;
    }
    proof {
        assert(entries@.take(n as int) == entries@);
        lemma_listing_len(entries@, partition_offsets@);
        lemma_assigned_nexts(elements(*assignment), topic@, entries@);
    }
    match list_assigned(assignment, topic, &due) {
        Ok(list) => Ok(list),
        Err(source) => Err(KafkaError::CommitList { topic: topic.to_owned(), source }),
    }
}

/// Builds the list of where to set the consumer back to: of the partitions that
/// are still assigned, the lowest offsets that the failed window consumed. A
/// partition that is assigned anew starts at its committed offset anyway.
pub fn build_rewind_list(
    assignment: &TopicPartitionList,
    topic: &str,
    first_offsets: &BTreeMap<i32, i64>,
) -> (rewind_list: Result<TopicPartitionList, KafkaError>)
    requires
        first_offsets@.len() <= MAX_LIST_LEN,
    ensures
        ({
            let due = assigned_entries(elements(*assignment), topic@, ascending(first_offsets@));
            match rewind_list {
                Ok(list) => !has_negative(due) && elements(list) == offset_elements(topic@, due),
                Err(KafkaError::Rewind { topic: t, source }) => has_negative(due) && t@ == topic@
                    && is_first_refusal(topic@, due, source),
                Err(_) => false,
            }
        }),
{
    let entries = ascending_entries(first_offsets);
    proof {
        lemma_listing_len(entries@, first_offsets@);
    }
    match list_assigned(assignment, topic, &entries) {
        Ok(list) => Ok(list),
        Err(source) => Err(KafkaError::Rewind { topic: topic.to_owned(), source }),
    }
}

/// Which partitions are assigned does not depend on the offsets.
proof fn lemma_assigned_nexts(
    assignment: Seq<Element>,
    topic: Seq<char>,
    entries: Seq<(i32, i64)>,
)
    ensures
        assigned_entries(assignment, topic, nexts(entries)) == nexts(
            assigned_entries(assignment, topic, entries),
        ),
    decreases entries.len(),
{
    reveal(Seq::filter);
    if entries.len() > 0 {
        lemma_assigned_nexts(assignment, topic, entries.drop_last());
        assert(nexts(entries).drop_last() == nexts(entries.drop_last()));
    }
    assert(assigned_entries(assignment, topic, nexts(entries)) == nexts(
        assigned_entries(assignment, topic, entries),
    ));
}

/// The first entry that is kept and refused decides the error.
proof fn lemma_first_refusal(
    entries: Seq<(i32, i64)>,
    keep: spec_fn((i32, i64)) -> bool,
    at: int,
    topic: Seq<char>,
    error: ClientError,
)
    requires
        0 <= at < entries.len(),
        keep(entries[at]),
        entries[at].1 < 0,
        !has_negative(entries.take(at).filter(keep)),
        error == refusal(topic, entries[at].0, entries[at].1),
    ensures
        has_negative(entries.filter(keep)),
        is_first_refusal(topic, entries.filter(keep), error),
{
    let before = entries.take(at).filter(keep);
    let all = entries.filter(keep);
    let first = before.len() as int;
    lemma_filter_prefix(entries, keep, at);
    assert(all[first] == entries[at]);
    assert forall|i: int| 0 <= i < first implies (#[trigger] all[i]).1 >= 0 by {
        assert(all[i] == before[i]);
    }
    assert(is_first_negative(all, first));
}

/// What a filter keeps of a prefix comes first, and the next entry that it keeps
/// comes next.
proof fn lemma_filter_prefix(
    entries: Seq<(i32, i64)>,
    keep: spec_fn((i32, i64)) -> bool,
    at: int,
)
    requires
        0 <= at < entries.len(),
        keep(entries[at]),
    ensures
        ({
            let before = entries.take(at).filter(keep);
            let all = entries.filter(keep);
            &&& all.len() > before.len()
            &&& all[before.len() as int] == entries[at]
            &&& forall|i: int| 0 <= i < before.len() ==> #[trigger] all[i] == before[i]
        }),
    decreases entries.len(),
{
    reveal(Seq::filter);
    let shorter = entries.drop_last();
    if at == shorter.len() {
        assert(entries.take(at) == shorter);
    } else {
        assert(shorter.take(at) == entries.take(at));
        lemma_filter_prefix(shorter, keep, at);
    }
}

// ---------------------------------------------------------------------------
// Committing offsets
// ---------------------------------------------------------------------------
/// What a commit does next.
pub enum CommitAction {
    /// Read the current partition assignment.
    ReadAssignment,
    /// Commit this list and wait for the broker to acknowledge.
    Commit(TopicPartitionList),
    /// The commit is over.
    Finish(Result<(), KafkaError>),
}

/// How the broker, or the task that waited for it, answered a commit.
pub enum CommitReply {
    Acknowledged,
    Rejected(ClientError),
    TaskLost(tokio::task::JoinError),
}

/// What setting a consumer back does next.
pub enum RewindAction {
    /// Read the current partition assignment.
    ReadAssignment,
    /// Seek each partition of this list to its offset, and wait until it is done.
    Seek(TopicPartitionList),
    /// The consumer is set back, or could not be.
    Finish(Result<(), KafkaError>),
}

/// How the client, or the task that waited for it, answered a seek.
pub enum SeekReply {
    /// The client answered for each partition; these are the errors among the
    /// answers.
    Answered(Vec<ClientError>),
    Rejected(ClientError),
    TaskLost(tokio::task::JoinError),
}

impl<C> KafkaConsumer<C> {
    /// The consumer of `topic`, as far as connecting it went well.
    pub fn connect(topic: &str, reply: ConnectReply<C>) -> (consumer: Result<
        KafkaConsumer<C>,
        KafkaError,
    >)
        ensures
            match reply {
                ConnectReply::NotCreated(failure) => consumer matches Err(
                    KafkaError::Create { topic: t, source },
                ) && t@ == topic@ && source == failure,
                ConnectReply::NotSubscribed(failure) => consumer matches Err(
                    KafkaError::Subscribe { topic: t, source },
                ) && t@ == topic@ && source == failure,
                ConnectReply::Subscribed(client) => consumer matches Ok(connected)
                    && connected.topic@ == topic@ && connected.consumer == client,
            },
    {
        match reply {
            ConnectReply::NotCreated(source) => Err(
                KafkaError::Create { topic: topic.to_owned(), source },
            ),
            ConnectReply::NotSubscribed(source) => Err(
                KafkaError::Subscribe { topic: topic.to_owned(), source },
            ),
            ConnectReply::Subscribed(consumer) => Ok(
                KafkaConsumer { topic: topic.to_owned(), consumer },
            ),
        }
    }

    /// Advances an open window by one event.
    ///
    /// It closes when its time is over or `max_bytes` of payload have accumulated,
    /// whichever comes first; what was consumed until then stays in the batch.
    /// The last message may cross the bound.
    /// Consumption errors are retried until the window closes.
    pub fn drain_window(&self, batch: &mut ConsumedBatch, max_bytes: usize, event: DrainEvent<'_>) -> (action:
        DrainAction)
        requires
            old(batch).payload@.len() < max_bytes,
            old(batch).message_count < usize::MAX,
        ensures
            drained(*old(batch), max_bytes as int, event, *final(batch), action),
    {
        match event {
            DrainEvent::Elapsed => DrainAction::Close,
            DrainEvent::Failed => DrainAction::BackOff { millis: CONSUME_ERROR_BACKOFF_MILLIS },
            DrainEvent::Message { value, partition, offset } => {
                batch.absorb(value, partition, offset);
                if batch.payload.len() >= max_bytes {
                    DrainAction::Close
                } else {
                    DrainAction::Receive
                }
            },
        }
    }

    /// Begins to commit the next offset (highest consumed + 1) of every consumed
    /// partition: with none consumed there is nothing to do.
    pub fn commit_offsets(&self, partition_offsets: &BTreeMap<i32, i64>) -> (action: CommitAction)
        ensures
            action == if partition_offsets@.is_empty() {
                CommitAction::Finish(Ok::<(), KafkaError>(()))
            } else {
                CommitAction::ReadAssignment
            },
    {
        if partition_offsets.is_empty() {
            CommitAction::Finish(Ok(()))
        } else {
            CommitAction::ReadAssignment
        }
    }

    /// Goes on with a commit once the assignment was read: only partitions that are
    /// still assigned are committed.
    pub fn commit_assigned(
        &self,
        partition_offsets: &BTreeMap<i32, i64>,
        assignment: Result<TopicPartitionList, ClientError>,
    ) -> (action: CommitAction)
        requires
            partition_offsets@.len() <= MAX_LIST_LEN,
        ensures
            match assignment {
                Ok(assigned) => {
                    let due = assigned_entries(
                        elements(assigned),
                        self.topic@,
                        ascending(partition_offsets@),
                    );
                    match action {
                        CommitAction::Commit(list) => !has_negative(nexts(due)) && elements(list)
                            == commit_elements(self.topic@, due),
                        CommitAction::Finish(
                            Err(KafkaError::CommitList { topic: t, source }),
                        ) => has_negative(nexts(due)) && t@ == self.topic@ && is_first_refusal(
                            self.topic@,
                            nexts(due),
                            source,
                        ),
                        _ => false,
                    }
                },
                Err(failure) => action matches CommitAction::Finish(
                    Err(KafkaError::Assignment { topic: t, source }),
                ) && t@ == self.topic@ && source == failure,
            },
    {
        match assignment {
            Ok(assigned) => match build_commit_list(&assigned, self.topic.as_str(), partition_offsets) {
                Ok(list) => CommitAction::Commit(list),
                Err(error) => CommitAction::Finish(Err(error)),
            },
            Err(source) => CommitAction::Finish(
                Err(KafkaError::Assignment { topic: self.topic.clone(), source }),
            ),
        }
    }

    /// The outcome of a commit that the broker was asked for.
    pub fn commit_outcome(&self, reply: CommitReply) -> (outcome: Result<(), KafkaError>)
        ensures
            match reply {
                CommitReply::Acknowledged => outcome is Ok,
                CommitReply::Rejected(rejection) => outcome matches Err(
                    KafkaError::Commit { topic: t, source },
                ) && t@ == self.topic@ && source == rejection,
                CommitReply::TaskLost(loss) => outcome matches Err(
                    KafkaError::Join { topic: t, source },
                ) && t@ == self.topic@ && source == loss,
            },
    {
        match reply {
            CommitReply::Acknowledged => Ok(()),
            CommitReply::Rejected(source) => Err(
                KafkaError::Commit { topic: self.topic.clone(), source },
            ),
            CommitReply::TaskLost(source) => Err(KafkaError::Join { topic: self.topic.clone(), source }),
        }
    }

    /// Begins to set the consumer back to `first_offsets`, where a window that
    /// failed had begun: with none there is nothing to do.
    pub fn rewind_offsets(&self, first_offsets: &BTreeMap<i32, i64>) -> (action: RewindAction)
        ensures
            action == if first_offsets@.is_empty() {
                RewindAction::Finish(Ok::<(), KafkaError>(()))
            } else {
                RewindAction::ReadAssignment
            },
    {
        if first_offsets.is_empty() {
            RewindAction::Finish(Ok(()))
        } else {
            RewindAction::ReadAssignment
        }
    }

    /// Goes on to set the consumer back once the assignment was read: only
    /// partitions that are still assigned are sought.
    pub fn rewind_assigned(
        &self,
        first_offsets: &BTreeMap<i32, i64>,
        assignment: Result<TopicPartitionList, ClientError>,
    ) -> (action: RewindAction)
        requires
            first_offsets@.len() <= MAX_LIST_LEN,
        ensures
            match assignment {
                Ok(assigned) => {
                    let due = assigned_entries(
                        elements(assigned),
                        self.topic@,
                        ascending(first_offsets@),
                    );
                    match action {
                        RewindAction::Seek(list) => !has_negative(due) && elements(list)
                            == offset_elements(self.topic@, due),
                        RewindAction::Finish(Err(KafkaError::Rewind { topic: t, source })) =>
                            has_negative(due) && t@ == self.topic@ && is_first_refusal(
                            self.topic@,
                            due,
                            source,
                        ),
                        _ => false,
                    }
                },
                Err(failure) => action matches RewindAction::Finish(
                    Err(KafkaError::Assignment { topic: t, source }),
                ) && t@ == self.topic@ && source == failure,
            },
    {
        match assignment {
            Ok(assigned) => match build_rewind_list(&assigned, self.topic.as_str(), first_offsets) {
                Ok(list) => RewindAction::Seek(list),
                Err(error) => RewindAction::Finish(Err(error)),
            },
            Err(source) => RewindAction::Finish(
                Err(KafkaError::Assignment { topic: self.topic.clone(), source }),
            ),
        }
    }

    /// The outcome of a seek: it succeeded only if every partition did.
    pub fn rewind_outcome(&self, reply: SeekReply) -> (outcome: Result<(), KafkaError>)
        ensures
            match reply {
                SeekReply::Answered(errors) => if errors@.len() == 0 {
                    outcome is Ok
                } else {
                    outcome matches Err(KafkaError::Rewind { topic: t, source }) && t@ == self.topic@
                        && source == errors@[0]
                },
                SeekReply::Rejected(rejection) => outcome matches Err(
                    KafkaError::Rewind { topic: t, source },
                ) && t@ == self.topic@ && source == rejection,
                SeekReply::TaskLost(loss) => outcome matches Err(
                    KafkaError::Join { topic: t, source },
                ) && t@ == self.topic@ && source == loss,
            },
    {
        match reply {
            SeekReply::Answered(errors) => {
                let mut errors = errors;
                if errors.is_empty() {
                    Ok(())
                } else {
                    let source = errors.remove(0);
                    Err(KafkaError::Rewind { topic: self.topic.clone(), source })
                }
            },
            SeekReply::Rejected(source) => Err(
                KafkaError::Rewind { topic: self.topic.clone(), source },
            ),
            SeekReply::TaskLost(source) => Err(KafkaError::Join { topic: self.topic.clone(), source }),
        }
    }

    /// Ends the consumer: the client is handed out to be closed.
    pub fn shutdown(self) -> (client: C)
        ensures
            client == self.consumer,
    {
        self.consumer
    }
}

} // verus!
