//! What holds of every window: what its payload and its offsets say about the
//! records that were consumed, and what a commit says about the offsets.

use crate::kafka::{
    assigned_entries, commit_elements, consumer_parameters, drained, first_offsets_of,
    has_negative, is_assigned, is_first_negative, is_first_refusal, next_offset, nexts,
    offset_elements, offsets_of, payload_of, received, receive_below, record_bytes, refusal, timed,
    ConsumedBatch, DrainAction, DrainEvent, Element, Record, MAX_LIST_LEN,
};
use crate::object_key::{ascending, lemma_ascending, lists_ascending};
use crate::text;
use rdkafka::error::KafkaError as ClientError;
use vstd::prelude::*;
use vstd::utf8::encode_utf8;

verus! {

/// The offsets of a window name exactly the partitions that it has records of,
/// each with the highest offset among them.
pub proof fn law_offsets_are_highest(records: Seq<Record>, partition: i32)
    ensures
        offsets_of(records).contains_key(partition) <==> exists|i: int|
            0 <= i < records.len() && (#[trigger] records[i]).partition == partition,
        offsets_of(records).contains_key(partition) ==> {
            &&& exists|i: int|
                0 <= i < records.len() && (#[trigger] records[i]).partition == partition
                    && records[i].offset == offsets_of(records)[partition]
            &&& forall|i: int|
                0 <= i < records.len() && (#[trigger] records[i]).partition == partition
                    ==> records[i].offset <= offsets_of(records)[partition]
        },
    decreases records.len(),
{
    if records.len() > 0 {
        let before = records.drop_last();
        law_offsets_are_highest(before, partition);
        let last = records.len() - 1;
        assert(records[last] == records.last());
        assert forall|i: int| 0 <= i < before.len() implies before[i] == #[trigger] records[i] by {}
        if offsets_of(before).contains_key(partition) {
            let i = choose|i: int|
                0 <= i < before.len() && (#[trigger] before[i]).partition == partition
                    && before[i].offset == offsets_of(before)[partition];
            assert(records[i].partition == partition);
        }
        if exists|i: int|
            0 <= i < records.len() && (#[trigger] records[i]).partition == partition {
            let i = choose|i: int|
                0 <= i < records.len() && (#[trigger] records[i]).partition == partition;
            if i < last {
                assert(before[i].partition == partition);
            }
        }
    }
}

/// The first offsets of a window name the same partitions, each with the lowest
/// offset among its records.
pub proof fn law_first_offsets_are_lowest(records: Seq<Record>, partition: i32)
    ensures
        first_offsets_of(records).contains_key(partition) <==> offsets_of(records).contains_key(
            partition,
        ),
        first_offsets_of(records).contains_key(partition) ==> {
            &&& exists|i: int|
                0 <= i < records.len() && (#[trigger] records[i]).partition == partition
                    && records[i].offset == first_offsets_of(records)[partition]
            &&& forall|i: int|
                0 <= i < records.len() && (#[trigger] records[i]).partition == partition
                    ==> first_offsets_of(records)[partition] <= records[i].offset
        },
    decreases records.len(),
{
    if records.len() > 0 {
        let before = records.drop_last();
        law_first_offsets_are_lowest(before, partition);
        law_offsets_are_highest(before, partition);
        assert(records[records.len() - 1] == records.last());
        assert forall|i: int| 0 <= i < before.len() implies before[i] == #[trigger] records[i] by {}
        if first_offsets_of(before).contains_key(partition) {
            let i = choose|i: int|
                0 <= i < before.len() && (#[trigger] before[i]).partition == partition
                    && before[i].offset == first_offsets_of(before)[partition];
            assert(records[i].partition == partition);
        }
    }
}

/// The offsets of a window depend on which records it has, and not on the order
/// in which they came.
pub proof fn law_offsets_ignore_order(a: Seq<Record>, b: Seq<Record>)
    requires
        forall|r: Record| a.contains(r) <==> b.contains(r),
    ensures
        offsets_of(a) == offsets_of(b),
{
    let (x, y) = (offsets_of(a), offsets_of(b));
    assert forall|p: i32|
        #![trigger x.dom().contains(p)]
        #![trigger y.dom().contains(p)]
        x.dom().contains(p) == y.dom().contains(p) && (x.dom().contains(p) ==> x[p] == y[p]) by {
        law_offsets_are_highest(a, p);
        law_offsets_are_highest(b, p);
        if x.contains_key(p) {
            let i = choose|i: int|
                0 <= i < a.len() && (#[trigger] a[i]).partition == p && a[i].offset == x[p];
            assert(a.contains(a[i]));
            let j = choose|j: int| 0 <= j < b.len() && b[j] == a[i];
            assert(b[j].partition == p);
        }
        if y.contains_key(p) {
            let i = choose|i: int|
                0 <= i < b.len() && (#[trigger] b[i]).partition == p && b[i].offset == y[p];
            assert(b.contains(b[i]));
            let j = choose|j: int| 0 <= j < a.len() && a[j] == b[i];
            assert(a[j].partition == p);
        }
    }
    assert(x.dom() =~= y.dom());
    assert(x == y);
}

/// A window has offsets exactly if it has records.
pub proof fn law_offsets_exist(records: Seq<Record>)
    ensures
        offsets_of(records).is_empty() <==> records.len() == 0,
{
    if records.len() > 0 {
        law_offsets_are_highest(records, records[0].partition);
        assert(offsets_of(records).contains_key(records[0].partition));
    }
}

/// Every value of a window stands in its payload with a newline behind it,
/// after what the records before it added and before what those after it did:
/// nothing is left out, and nothing is added.
pub proof fn law_payload_holds_every_record(records: Seq<Record>, at: int)
    requires
        0 <= at < records.len(),
    ensures
        payload_of(records) == payload_of(records.take(at)) + record_bytes(records[at])
            + payload_of(records.skip(at + 1)),
    decreases records.len(),
{
    let last = records.len() - 1;
    if at == last {
        assert(records.drop_last() == records.take(at));
        assert(records.skip(at + 1).len() == 0);
        assert(payload_of(records) == payload_of(records.take(at)) + record_bytes(records[at])
            + payload_of(records.skip(at + 1)));
    } else {
        let before = records.drop_last();
        law_payload_holds_every_record(before, at);
        assert(before.take(at) == records.take(at));
        assert(records.skip(at + 1).drop_last() == before.skip(at + 1));
        assert(records.skip(at + 1).last() == records.last());
        assert(payload_of(records) == payload_of(records.take(at)) + record_bytes(records[at])
            + payload_of(records.skip(at + 1)));
    }
}

/// The payload of a window is empty exactly if all of its records are
/// tombstones.
pub proof fn law_payload_is_empty_without_values(records: Seq<Record>)
    ensures
        payload_of(records).len() == 0 <==> forall|i: int|
            0 <= i < records.len() ==> (#[trigger] records[i]).value is None,
    decreases records.len(),
{
    if records.len() > 0 {
        let before = records.drop_last();
        law_payload_is_empty_without_values(before);
        assert(records[records.len() - 1] == records.last());
        assert forall|i: int| 0 <= i < before.len() implies before[i] == #[trigger] records[i] by {}
        if forall|i: int| 0 <= i < records.len() ==> (#[trigger] records[i]).value is None {
            assert forall|i: int| 0 <= i < before.len() implies (
            #[trigger] before[i]).value is None by {
                assert(records[i].value is None);
            }
        }
        if payload_of(before).len() == 0 && records.last().value is None {
            assert forall|i: int| 0 <= i < records.len() implies (
            #[trigger] records[i]).value is None by {
                if i < before.len() {
                    assert(before[i].value is None);
                }
            }
        }
    }
}

/// The records among `events`, in order.
pub open spec fn records_of(events: Seq<DrainEvent<'_>>) -> Seq<Record>
    decreases events.len(),
{
    if events.len() == 0 {
        Seq::empty()
    } else {
        let before = records_of(events.drop_last());
        match events.last() {
            DrainEvent::Message { value, partition, offset } => before.push(
                received(value, partition, offset),
            ),
            _ => before,
        }
    }
}

/// `batches` and `actions` are what a window went through under `events`: it was
/// opened, and each event met it open and led to the next batch and action.
/// `elapsed` is what the clock said before each event: whether the window's time
/// was over.
pub open spec fn is_drain(
    max_bytes: int,
    elapsed: Seq<bool>,
    events: Seq<DrainEvent<'_>>,
    batches: Seq<ConsumedBatch>,
    actions: Seq<DrainAction>,
) -> bool {
    &&& elapsed.len() == events.len()
    &&& batches.len() == events.len() + 1
    &&& actions.len() == events.len() + 1
    &&& batches[0].holds(Seq::empty())
    &&& actions[0] == receive_below(0, max_bytes)
    &&& forall|i: int|
        0 <= i < events.len() ==> #[trigger] goes_on(max_bytes, elapsed, events, batches, actions, i)
}

/// The event at `at` met the window open, and led to the next batch and action.
pub open spec fn goes_on(
    max_bytes: int,
    elapsed: Seq<bool>,
    events: Seq<DrainEvent<'_>>,
    batches: Seq<ConsumedBatch>,
    actions: Seq<DrainAction>,
    at: int,
) -> bool {
    &&& timed(actions[at], elapsed[at]) != DrainAction::Close
    &&& drained(batches[at], max_bytes, events[at], batches[at + 1], actions[at + 1])
}

/// At every point a window holds exactly the records that it received, in the
/// order in which they came; each of them came before its time was over; and
/// while it is open, its payload is below the bound.
pub proof fn law_window_holds_what_was_received(
    max_bytes: int,
    elapsed: Seq<bool>,
    events: Seq<DrainEvent<'_>>,
    batches: Seq<ConsumedBatch>,
    actions: Seq<DrainAction>,
)
    requires
        is_drain(max_bytes, elapsed, events, batches, actions),
    ensures
        batches.last().holds(records_of(events)),
        forall|i: int| 0 <= i < events.len() ==> !#[trigger] elapsed[i],
        actions.last() != DrainAction::Close ==> batches.last().payload@.len() < max_bytes,
        forall|n: int|
            0 <= n < records_of(events).len() ==> payload_of(
                #[trigger] records_of(events).take(n),
            ).len() < max_bytes,
    decreases events.len(),
{
    if events.len() > 0 {
        let last = events.len() - 1;
        let earlier = events.drop_last();
        let before = batches.drop_last();
        let chosen = actions.drop_last();
        let clock = elapsed.drop_last();
        assert(before[0] == batches[0] && chosen[0] == actions[0]);
        assert forall|i: int| 0 <= i < earlier.len() implies #[trigger] goes_on(
            max_bytes,
            clock,
            earlier,
            before,
            chosen,
            i,
        ) by {
            assert(goes_on(max_bytes, elapsed, events, batches, actions, i));
        }
        law_window_holds_what_was_received(max_bytes, clock, earlier, before, chosen);
        assert(goes_on(max_bytes, elapsed, events, batches, actions, last));
        assert forall|i: int| 0 <= i < events.len() implies !#[trigger] elapsed[i] by {
            assert(goes_on(max_bytes, elapsed, events, batches, actions, i));
        }
        assert(before.last() == batches[last]);
        let records = records_of(events);
        let old_records = records_of(earlier);
        assert forall|n: int| 0 <= n < records.len() implies payload_of(
            #[trigger] records.take(n),
        ).len() < max_bytes by {
            if n < old_records.len() {
                assert(records.take(n) == old_records.take(n));
            } else {
                assert(records.take(n) == old_records);
            }
        }
        if events.last() is Message {
            assert(records.drop_last() == old_records);
        }
    }
}

/// The payload of a window goes beyond its bound by its last record at most: a
/// record is received only while the payload is below the bound.
pub proof fn law_payload_is_bounded(
    max_bytes: int,
    elapsed: Seq<bool>,
    events: Seq<DrainEvent<'_>>,
    batches: Seq<ConsumedBatch>,
    actions: Seq<DrainAction>,
)
    requires
        is_drain(max_bytes, elapsed, events, batches, actions),
    ensures
        records_of(events).len() > 0 ==> batches.last().payload@.len() < max_bytes + record_bytes(
            records_of(events).last(),
        ).len(),
{
    law_window_holds_what_was_received(max_bytes, elapsed, events, batches, actions);
    let records = records_of(events);
    if records.len() > 0 {
        let n = records.len() - 1;
        assert(records.take(n) == records.drop_last());
    }
}

/// A commit covers exactly the partitions that were consumed and are still
/// assigned, each with the offset after the highest one consumed.
pub proof fn law_commit_covers_assigned(
    assignment: Seq<Element>,
    topic: Seq<char>,
    offsets: Map<i32, i64>,
    element: Element,
)
    ensures
        commit_elements(topic, assigned_entries(assignment, topic, ascending(offsets))).contains(
            element,
        ) <==> {
            &&& element.0 == encode_utf8(topic)
            &&& offsets.contains_key(element.1)
            &&& is_assigned(assignment, topic, element.1)
            &&& element.2 == next_offset(offsets[element.1])
        },
{
    let entries = ascending(offsets);
    let keep = |entry: (i32, i64)| is_assigned(assignment, topic, entry.0);
    let due = assigned_entries(assignment, topic, entries);
    let list = commit_elements(topic, due);
    lemma_ascending(offsets);
    assert(lists_ascending(entries, offsets));
    if list.contains(element) {
        let i = choose|i: int| 0 <= i < list.len() && list[i] == element;
        assert(due.contains(due[i]));
        entries.lemma_filter_pred(keep, i);
        entries.lemma_filter_contains_rev(keep, due[i]);
        let j = choose|j: int| 0 <= j < entries.len() && entries[j] == due[i];
        assert(offsets.contains_key(entries[j].0));
    }
    if element.0 == encode_utf8(topic) && offsets.contains_key(element.1) && is_assigned(
        assignment,
        topic,
        element.1,
    ) && element.2 == next_offset(offsets[element.1]) {
        let i = choose|i: int| 0 <= i < entries.len() && #[trigger] entries[i].0 == element.1;
        entries.lemma_filter_contains(keep, i);
        let j = choose|j: int| 0 <= j < due.len() && due[j] == entries[i];
        assert(list[j] == element);
    }
}

/// The client never stores or commits an offset by itself, and starts at the
/// beginning of a partition that has no committed offset.
pub proof fn law_client_leaves_offsets_alone(brokers: Seq<Seq<char>>, group: Seq<char>)
    ensures
        consumer_parameters(brokers, group).contains_pair("enable.auto.commit"@, "false"@),
        consumer_parameters(brokers, group).contains_pair("enable.auto.offset.store"@, "false"@),
        consumer_parameters(brokers, group).contains_pair("auto.offset.reset"@, "earliest"@),
{
    reveal_strlit("enable.auto.commit");
    reveal_strlit("enable.auto.offset.store");
    reveal_strlit("auto.offset.reset");
    assert("enable.auto.commit"@.len() != "enable.auto.offset.store"@.len());
    assert("auto.offset.reset"@.len() != "enable.auto.offset.store"@.len());
    assert("auto.offset.reset"@.len() != "enable.auto.commit"@.len());
}

// ---------------------------------------------------------------------------
// Records
// ---------------------------------------------------------------------------
/// A record with a value adds exactly the value and one newline to the payload,
/// however long it is; a tombstone adds nothing.
pub proof fn law_record_adds_its_value(records: Seq<Record>, record: Record)
    ensures
        payload_of(Seq::empty()) == Seq::<u8>::empty(),
        record.value matches Some(value) ==> {
            &&& record_bytes(record) == value + seq![10u8]
            &&& payload_of(records.push(record)) == payload_of(records) + value + seq![10u8]
        },
        record.value is None ==> {
            &&& record_bytes(record) == Seq::<u8>::empty()
            &&& payload_of(records.push(record)) == payload_of(records)
        },
{
    assert(records.push(record).drop_last() == records);
    if let Some(value) = record.value {
        assert(record_bytes(record) == value + seq![10u8]);
        assert(payload_of(records.push(record)) == payload_of(records) + value + seq![10u8]);
    } else {
        assert(payload_of(records.push(record)) == payload_of(records));
    }
}

/// Every value of a window is a line of its payload: it begins the payload or
/// follows a newline, and a newline follows it.
pub proof fn law_values_are_lines(records: Seq<Record>, at: int)
    requires
        0 <= at < records.len(),
        records[at].value is Some,
    ensures
        exists|from: int| #[trigger]
            is_line(payload_of(records), records[at].value->0, from),
{
    let value = records[at].value->0;
    let before = payload_of(records.take(at));
    let from = before.len() as int;
    let payload = payload_of(records);
    law_payload_holds_every_record(records, at);
    law_record_adds_its_value(records.take(at), records[at]);
    lemma_ends_with_newline(records.take(at));
    let rest = payload_of(records.skip(at + 1));
    assert(payload == before + (value + seq![10u8]) + rest);
    assert(payload.subrange(from, from + value.len()) =~= value);
    assert(payload[from + value.len()] == 10);
    if from > 0 {
        assert(payload[from - 1] == before[from - 1]);
    }
    assert(is_line(payload, value, from));
}

/// `value` stands in `payload` from `from` on, with a newline behind it, at the
/// beginning or behind a newline.
pub open spec fn is_line(payload: Seq<u8>, value: Seq<u8>, from: int) -> bool {
    &&& 0 <= from
    &&& from + value.len() < payload.len()
    &&& payload.subrange(from, from + value.len()) == value
    &&& payload[from + value.len()] == 10
    &&& from > 0 ==> payload[from - 1] == 10
}

proof fn lemma_ends_with_newline(records: Seq<Record>)
    ensures
        payload_of(records).len() > 0 ==> payload_of(records).last() == 10,
    decreases records.len(),
{
    if records.len() > 0 {
        lemma_ends_with_newline(records.drop_last());
        law_record_adds_its_value(records.drop_last(), records.last());
        assert(records.drop_last().push(records.last()) == records);
    }
}

/// A message is the record that it carries: value, partition and offset.
pub proof fn law_messages_are_records(value: Option<&[u8]>, partition: i32, offset: i64)
    ensures
        received(value, partition, offset).partition == partition,
        received(value, partition, offset).offset == offset,
        value is None ==> received(value, partition, offset).value is None,
        value matches Some(bytes) ==> received(value, partition, offset).value == Some(bytes@),
{
}

/// A batch holds records exactly if its payload, its count and its offsets are
/// theirs.
pub proof fn law_batches_hold_records(batch: ConsumedBatch, records: Seq<Record>)
    ensures
        batch.holds(records) <==> {
            &&& batch.payload@ == payload_of(records)
            &&& batch.message_count == records.len()
            &&& batch.partition_offsets@ == offsets_of(records)
            &&& batch.first_offsets@ == first_offsets_of(records)
        },
{
}

// ---------------------------------------------------------------------------
// Draining
// ---------------------------------------------------------------------------
/// A message that an open window receives is counted in as a whole: its value and
/// a newline, one more message, its offset if it is the highest or the lowest of
/// its partition; no other partition changes. The window closes exactly if the
/// payload has now reached the bound.
pub proof fn law_messages_are_counted_in(
    before: ConsumedBatch,
    max_bytes: int,
    value: Option<&[u8]>,
    partition: i32,
    offset: i64,
    after: ConsumedBatch,
    action: DrainAction,
)
    requires
        drained(
            before,
            max_bytes,
            (DrainEvent::Message { value, partition, offset }),
            after,
            action,
        ),
    ensures
        after.payload@ == match value {
            Some(bytes) => before.payload@ + bytes@ + seq![10u8],
            None => before.payload@,
        },
        after.message_count == before.message_count + 1,
        after.partition_offsets@.contains_key(partition),
        after.partition_offsets@[partition] == if before.partition_offsets@.contains_key(partition)
            && before.partition_offsets@[partition] > offset {
            before.partition_offsets@[partition]
        } else {
            offset
        },
        after.first_offsets@.contains_key(partition),
        after.first_offsets@[partition] == if before.first_offsets@.contains_key(partition)
            && before.first_offsets@[partition] < offset {
            before.first_offsets@[partition]
        } else {
            offset
        },
        forall|p: i32|
            p != partition ==> {
                &&& #[trigger] after.partition_offsets@.contains_key(p)
                    == before.partition_offsets@.contains_key(p)
                &&& after.partition_offsets@[p] == before.partition_offsets@[p]
            },
        forall|p: i32|
            p != partition ==> {
                &&& #[trigger] after.first_offsets@.contains_key(p)
                    == before.first_offsets@.contains_key(p)
                &&& after.first_offsets@[p] == before.first_offsets@[p]
            },
        after.payload@.len() >= max_bytes ==> action == DrainAction::Close,
        after.payload@.len() < max_bytes ==> action == DrainAction::Receive,
{
    let record = received(value, partition, offset);
    law_record_adds_its_value(Seq::empty(), record);
    match value {
        Some(bytes) => {
            assert(after.payload@ == before.payload@ + bytes@ + seq![10u8]);
        },
        None => {
            assert(after.payload@ == before.payload@);
        },
    }
}

/// Waiting changes nothing that was consumed: the end of the time closes the
/// window, and an error is waited out for a quarter of a second.
pub proof fn law_waiting_keeps_the_batch(
    before: ConsumedBatch,
    max_bytes: int,
    after: ConsumedBatch,
    action: DrainAction,
)
    ensures
        drained(before, max_bytes, DrainEvent::Elapsed, after, action) ==> after == before && action
            == DrainAction::Close,
        drained(before, max_bytes, DrainEvent::Failed, after, action) ==> after == before && action
            == (DrainAction::BackOff { millis: 250 }),
{
}

/// A window receives exactly while its payload is below the bound and its time is
/// not over.
pub proof fn law_windows_receive_while_open(payload_len: int, max_bytes: int, elapsed: bool)
    ensures
        timed(receive_below(payload_len, max_bytes), elapsed) == DrainAction::Receive
            <==> payload_len < max_bytes && !elapsed,
        timed(receive_below(payload_len, max_bytes), elapsed) == DrainAction::Close
            <==> payload_len >= max_bytes || elapsed,
        forall|action: DrainAction| !elapsed ==> #[trigger] timed(action, elapsed) == action,
        forall|action: DrainAction|
            elapsed ==> #[trigger] timed(action, elapsed) == DrainAction::Close,
{
}

// ---------------------------------------------------------------------------
// Lists of partitions
// ---------------------------------------------------------------------------
/// The offset that is committed is that of the next message.
pub proof fn law_next_offset(offset: i64)
    ensures
        offset < i64::MAX ==> next_offset(offset) == offset + 1,
        offset == i64::MAX ==> next_offset(offset) == i64::MAX,
{
}

/// The listing of a map is ascending, and has an entry exactly for each pair of
/// the map.
pub proof fn law_listing_is_the_map(offsets: Map<i32, i64>, entry: (i32, i64))
    ensures
        forall|i: int, j: int|
            0 <= i < j < ascending(offsets).len() ==> (#[trigger] ascending(offsets)[i]).0 < (
            #[trigger] ascending(offsets)[j]).0,
        ascending(offsets).contains(entry) <==> offsets.contains_key(entry.0) && offsets[entry.0]
            == entry.1,
{
    lemma_ascending(offsets);
    let entries = ascending(offsets);
    if entries.contains(entry) {
        let i = choose|i: int| 0 <= i < entries.len() && entries[i] == entry;
        assert(offsets.contains_key(entries[i].0));
    }
    if offsets.contains_key(entry.0) && offsets[entry.0] == entry.1 {
        let i = choose|i: int| 0 <= i < entries.len() && #[trigger] entries[i].0 == entry.0;
        assert(offsets.contains_key(entries[i].0));
        assert(entries[i] == entry);
    }
}

/// What is kept of ascending entries is ascending.
proof fn lemma_filter_ascending(entries: Seq<(i32, i64)>, keep: spec_fn((i32, i64)) -> bool)
    requires
        forall|i: int, j: int|
            0 <= i < j < entries.len() ==> (#[trigger] entries[i]).0 < (#[trigger] entries[j]).0,
    ensures
        forall|i: int, j: int|
            0 <= i < j < entries.filter(keep).len() ==> (#[trigger] entries.filter(keep)[i]).0 < (
            #[trigger] entries.filter(keep)[j]).0,
    decreases entries.len(),
{
    reveal(Seq::filter);
    if entries.len() > 0 {
        let shorter = entries.drop_last();
        lemma_filter_ascending(shorter, keep);
        let kept = shorter.filter(keep);
        assert forall|i: int| 0 <= i < kept.len() implies (#[trigger] kept[i]).0
            < entries.last().0 by {
            assert(kept.contains(kept[i]));
            shorter.lemma_filter_contains_rev(keep, kept[i]);
            let k = choose|k: int| 0 <= k < shorter.len() && shorter[k] == kept[i];
            assert(entries[k].0 < entries[entries.len() - 1].0);
        }
    }
}

/// A commit list has an element for a partition exactly if the partition was
/// consumed, and some element of the assignment has the bytes of the topic and
/// that partition, whatever its number; the element's offset is one after the
/// highest consumed. (No topic with a NUL is ever assigned.) The elements come in
/// ascending order of the partitions, so none comes twice.
pub proof fn law_commit_follows_the_assignment(
    assignment: Seq<Element>,
    topic: Seq<char>,
    offsets: Map<i32, i64>,
    element: Element,
)
    ensures
        ({
            let list = commit_elements(
                topic,
                assigned_entries(assignment, topic, ascending(offsets)),
            );
            &&& list.contains(element) <==> {
                &&& element.0 == encode_utf8(topic)
                &&& offsets.contains_key(element.1)
                &&& element.2 == if offsets[element.1] == i64::MAX {
                    i64::MAX as int
                } else {
                    offsets[element.1] + 1
                }
                &&& forall|k: int| 0 <= k < topic.len() ==> #[trigger] topic[k] != '\0'
                &&& exists|i: int|
                    0 <= i < assignment.len() && (#[trigger] assignment[i]).0 == encode_utf8(topic)
                        && assignment[i].1 == element.1
            }
            &&& forall|i: int, j: int|
                0 <= i < j < list.len() ==> (#[trigger] list[i]).1 < (#[trigger] list[j]).1
        }),
{
    let entries = ascending(offsets);
    let keep = |entry: (i32, i64)| is_assigned(assignment, topic, entry.0);
    law_commit_covers_assigned(assignment, topic, offsets, element);
    law_listing_is_the_map(offsets, (0, 0));
    lemma_filter_ascending(entries, keep);
    let due = assigned_entries(assignment, topic, entries);
    let list = commit_elements(topic, due);
    if offsets.contains_key(element.1) {
        law_next_offset(offsets[element.1]);
    }
    assert forall|i: int, j: int| 0 <= i < j < list.len() implies (#[trigger] list[i]).1 < (
    #[trigger] list[j]).1 by {
        assert(due[i].0 < due[j].0);
    }
}

/// The list that a consumer is set back with has an element for a partition
/// exactly if the partition was consumed, and some element of the assignment has
/// the bytes of the topic and that partition; the element's offset is the lowest
/// consumed.
pub proof fn law_rewind_follows_the_assignment(
    assignment: Seq<Element>,
    topic: Seq<char>,
    first_offsets: Map<i32, i64>,
    element: Element,
)
    ensures
        ({
            let list = offset_elements(
                topic,
                assigned_entries(assignment, topic, ascending(first_offsets)),
            );
            &&& list.contains(element) <==> {
                &&& element.0 == encode_utf8(topic)
                &&& first_offsets.contains_key(element.1)
                &&& element.2 == first_offsets[element.1]
                &&& forall|k: int| 0 <= k < topic.len() ==> #[trigger] topic[k] != '\0'
                &&& exists|i: int|
                    0 <= i < assignment.len() && (#[trigger] assignment[i]).0 == encode_utf8(topic)
                        && assignment[i].1 == element.1
            }
            &&& forall|i: int, j: int|
                0 <= i < j < list.len() ==> (#[trigger] list[i]).1 < (#[trigger] list[j]).1
        }),
{
    let entries = ascending(first_offsets);
    let keep = |entry: (i32, i64)| is_assigned(assignment, topic, entry.0);
    let due = assigned_entries(assignment, topic, entries);
    let list = offset_elements(topic, due);
    let entry = (element.1, element.2);
    law_listing_is_the_map(first_offsets, entry);
    lemma_filter_ascending(entries, keep);
    if list.contains(element) {
        let i = choose|i: int| 0 <= i < list.len() && list[i] == element;
        assert(due.contains(due[i]));
        entries.lemma_filter_pred(keep, i);
        entries.lemma_filter_contains_rev(keep, due[i]);
        assert(due[i] == entry);
    }
    if element.0 == encode_utf8(topic) && entries.contains(entry) && is_assigned(
        assignment,
        topic,
        element.1,
    ) {
        let i = choose|i: int| 0 <= i < entries.len() && entries[i] == entry;
        entries.lemma_filter_contains(keep, i);
        let j = choose|j: int| 0 <= j < due.len() && due[j] == entries[i];
        assert(list[j] == element);
    }
    assert forall|i: int, j: int| 0 <= i < j < list.len() implies (#[trigger] list[i]).1 < (
    #[trigger] list[j]).1 by {
        assert(due[i].0 < due[j].0);
    }
}

/// A commit list is refused exactly if the next offset of a partition that was
/// consumed and is assigned is negative, and the error is that of such a partition.
pub proof fn law_commits_refuse_negative_offsets(
    assignment: Seq<Element>,
    topic: Seq<char>,
    offsets: Map<i32, i64>,
)
    ensures
        has_negative(nexts(assigned_entries(assignment, topic, ascending(offsets)))) <==> exists|
            p: i32,
        |
            #![trigger offsets.contains_key(p)]
            {
                &&& offsets.contains_key(p)
                &&& offsets[p] < -1
                &&& forall|k: int| 0 <= k < topic.len() ==> #[trigger] topic[k] != '\0'
                &&& exists|i: int|
                    0 <= i < assignment.len() && (#[trigger] assignment[i]).0 == encode_utf8(topic)
                        && assignment[i].1 == p
            },
        forall|error: ClientError|
            is_first_refusal(
                topic,
                nexts(assigned_entries(assignment, topic, ascending(offsets))),
                error,
            ) ==> exists|p: i32|
                #![trigger offsets.contains_key(p)]
                offsets.contains_key(p) && offsets[p] < -1 && error == refusal(
                    topic,
                    p,
                    (offsets[p] + 1) as i64,
                ),
{
    let entries = ascending(offsets);
    let keep = |entry: (i32, i64)| is_assigned(assignment, topic, entry.0);
    let due = assigned_entries(assignment, topic, entries);
    let all = nexts(due);
    assert forall|i: int| 0 <= i < due.len() implies {
        &&& #[trigger] offsets.contains_key(due[i].0)
        &&& offsets[due[i].0] == due[i].1
        &&& is_assigned(assignment, topic, due[i].0)
        &&& all[i] == (due[i].0, next_offset(due[i].1))
    } by {
        assert(due.contains(due[i]));
        entries.lemma_filter_pred(keep, i);
        entries.lemma_filter_contains_rev(keep, due[i]);
        law_listing_is_the_map(offsets, due[i]);
        law_next_offset(due[i].1);
    }
    if has_negative(all) {
        let i = choose|i: int| 0 <= i < all.len() && (#[trigger] all[i]).1 < 0;
        assert(offsets.contains_key(due[i].0));
        law_next_offset(due[i].1);
    }
    assert forall|p: i32|
        offsets.contains_key(p) && offsets[p] < -1 && is_assigned(
            assignment,
            topic,
            p,
        ) implies has_negative(all) by {
        law_listing_is_the_map(offsets, (p, offsets[p]));
        let i = choose|i: int| 0 <= i < entries.len() && entries[i] == (p, offsets[p]);
        entries.lemma_filter_contains(keep, i);
        let j = choose|j: int| 0 <= j < due.len() && due[j] == entries[i];
        law_next_offset(offsets[p]);
        assert(all[j].1 < 0);
    }
    assert forall|error: ClientError| is_first_refusal(topic, all, error) implies exists|p: i32|
        #![trigger offsets.contains_key(p)]
        offsets.contains_key(p) && offsets[p] < -1 && error == refusal(
            topic,
            p,
            (offsets[p] + 1) as i64,
        ) by {
        let at = choose|at: int| #[trigger]
            is_first_negative(all, at) && error == refusal(topic, all[at].0, all[at].1);
        assert(offsets.contains_key(due[at].0));
        law_next_offset(due[at].1);
    }
}

/// A list has one element for each of its entries, in their order. It is refused
/// exactly if one of its elements has a negative offset, with the error of the first
/// of them.
pub proof fn law_first_negative_offset_is_refused(
    topic: Seq<char>,
    entries: Seq<(i32, i64)>,
    error: ClientError,
)
    ensures
        ({
            let list = offset_elements(topic, entries);
            &&& list.len() == entries.len()
            &&& forall|i: int|
                0 <= i < list.len() ==> #[trigger] list[i] == (
                    encode_utf8(topic),
                    entries[i].0,
                    entries[i].1,
                )
            &&& has_negative(entries) <==> exists|i: int|
                0 <= i < list.len() && (#[trigger] list[i]).2 < 0
            &&& is_first_refusal(topic, entries, error) <==> exists|i: int|
                {
                    &&& 0 <= i < list.len()
                    &&& (#[trigger] list[i]).2 < 0
                    &&& error == refusal(topic, list[i].1, list[i].2)
                    &&& forall|j: int| 0 <= j < i ==> (#[trigger] list[j]).2 >= 0
                }
        }),
        commit_elements(topic, entries) == offset_elements(topic, nexts(entries)),
        nexts(entries).len() == entries.len(),
        forall|i: int|
            0 <= i < entries.len() ==> (#[trigger] nexts(entries)[i]).0 == entries[i].0
                && nexts(entries)[i].1 == if entries[i].1 < i64::MAX {
                entries[i].1 + 1
            } else {
                i64::MAX as int
            },
{
    let list = offset_elements(topic, entries);
    assert forall|i: int| 0 <= i < list.len() implies #[trigger] list[i] == (
        encode_utf8(topic),
        entries[i].0,
        entries[i].1,
    ) by {}
    if has_negative(entries) {
        let i = choose|i: int| 0 <= i < entries.len() && (#[trigger] entries[i]).1 < 0;
        assert(list[i].2 < 0);
    }
    if exists|i: int| 0 <= i < list.len() && (#[trigger] list[i]).2 < 0 {
        let i = choose|i: int| 0 <= i < list.len() && (#[trigger] list[i]).2 < 0;
        assert(entries[i].1 < 0);
    }
    if is_first_refusal(topic, entries, error) {
        let at = choose|at: int| #[trigger]
            is_first_negative(entries, at) && error == refusal(
                topic,
                entries[at].0,
                entries[at].1,
            );
        assert(list[at].2 < 0);
        assert forall|j: int| 0 <= j < at implies (#[trigger] list[j]).2 >= 0 by {
            assert(entries[j].1 >= 0);
        }
    }
    if exists|i: int|
        {
            &&& 0 <= i < list.len()
            &&& (#[trigger] list[i]).2 < 0
            &&& error == refusal(topic, list[i].1, list[i].2)
            &&& forall|j: int| 0 <= j < i ==> (#[trigger] list[j]).2 >= 0
        } {
        let at = choose|i: int|
            {
                &&& 0 <= i < list.len()
                &&& (#[trigger] list[i]).2 < 0
                &&& error == refusal(topic, list[i].1, list[i].2)
                &&& forall|j: int| 0 <= j < i ==> (#[trigger] list[j]).2 >= 0
            };
        assert forall|j: int| 0 <= j < at implies (#[trigger] entries[j]).1 >= 0 by {
            assert(list[j].2 >= 0);
        }
        assert(is_first_negative(entries, at));
    }
    assert forall|i: int| 0 <= i < entries.len() implies (#[trigger] nexts(entries)[i]).0
        == entries[i].0 && nexts(entries)[i].1 == if entries[i].1 < i64::MAX {
        entries[i].1 + 1
    } else {
        i64::MAX as int
    } by {
        law_next_offset(entries[i].1);
    }
}

/// A list takes a thousand million partitions and more.
pub proof fn law_lists_have_room()
    ensures
        MAX_LIST_LEN == 1_073_741_823,
{
}

/// The client's parameters are these seven, whatever the brokers and the group:
/// all the brokers, joined by commas, and the group as it was given.
pub proof fn law_client_parameters(
    brokers: Seq<Seq<char>>,
    group: Seq<char>,
    key: Seq<char>,
    value: Seq<char>,
)
    ensures
        consumer_parameters(brokers, group).contains_pair(key, value) <==> {
            ||| key == "bootstrap.servers"@ && value == text::joined(brokers, seq![','])
            ||| key == "group.id"@ && value == group
            ||| key == "client.id"@ && value == "kafka-sync"@
            ||| key == "enable.partition.eof"@ && value == "false"@
            ||| key == "enable.auto.commit"@ && value == "false"@
            ||| key == "enable.auto.offset.store"@ && value == "false"@
            ||| key == "auto.offset.reset"@ && value == "earliest"@
        },
{
    reveal_strlit("bootstrap.servers");
    reveal_strlit("group.id");
    reveal_strlit("client.id");
    reveal_strlit("enable.partition.eof");
    reveal_strlit("enable.auto.commit");
    reveal_strlit("enable.auto.offset.store");
    reveal_strlit("auto.offset.reset");
    reveal_strlit(",");
    assert(","@ =~= seq![',']);
    assert("bootstrap.servers"@.len() == 17 && "bootstrap.servers"@[0] == 'b');
    assert("group.id"@.len() == 8);
    assert("client.id"@.len() == 9);
    assert("enable.partition.eof"@.len() == 20);
    assert("enable.auto.commit"@.len() == 18);
    assert("enable.auto.offset.store"@.len() == 24);
    assert("auto.offset.reset"@.len() == 17 && "auto.offset.reset"@[0] == 'a');
}

} // verus!
