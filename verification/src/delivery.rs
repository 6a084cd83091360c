//! At-least-once delivery: crashes and failures duplicate, never lose.
//!
//! The model follows one topic: its log, what was committed of it, how far it
//! was consumed, and what object storage holds. A window changes them through
//! the actions of [`crate::backfill`]; it can fail or break off at any point. After
//! a failure the consumer is set back to where the window had begun; where a
//! window broke off, its consumer is lost, and the next one starts at what was
//! committed.

use crate::backfill::{begins, followed, SyncAction, SyncEvent, SyncState};
use crate::calendar::WindowStart;
use crate::error::{BackfillError, StorageError};
use crate::kafka::{
    assigned_entries, commit_elements, first_offsets_of, is_assigned, next_offset, offsets_of,
    payload_of, ConsumedBatch, Element, Record,
};
use crate::key_laws::law_key_identifies_window;
use crate::object_key::{ascending, fragment, is_oversized, key_prefix, window_key};
use crate::window_laws::{
    is_line, law_commit_covers_assigned, law_first_offsets_are_lowest, law_offsets_are_highest,
    law_payload_is_empty_without_values, law_values_are_lines,
};
use vstd::prelude::*;
use vstd::utf8::encode_utf8;

verus! {

// ---------------------------------------------------------------------------
// The actions of a window
// ---------------------------------------------------------------------------
/// `trace` is what a window did so far: it began with `batch`, and each state
/// followed from the one before and the event that answered it. The last action
/// is not answered yet.
pub open spec fn is_trace(
    topic: Seq<char>,
    start: WindowStart,
    batch: ConsumedBatch,
    events: Seq<SyncEvent>,
    trace: Seq<(SyncState, SyncAction)>,
) -> bool {
    &&& trace.len() == events.len() + 1
    &&& begins(topic, start, batch, trace[0])
    &&& forall|i: int|
        0 <= i < events.len() ==> (#[trigger] events[i]).answers(trace[i].0) && trace[i + 1]
            == followed(trace[i].0, events[i])
}

/// Offsets are committed strictly after the upload: a window that commits was
/// uploaded first, and successfully, under the key of its offsets and with its
/// whole payload; the one exception is a window without any value, which has
/// nothing to upload. What is committed are the offsets of the window. A window
/// without messages does neither.
pub proof fn law_upload_precedes_commit(
    topic: Seq<char>,
    start: WindowStart,
    batch: ConsumedBatch,
    events: Seq<SyncEvent>,
    trace: Seq<(SyncState, SyncAction)>,
    at: int,
)
    requires
        is_trace(topic, start, batch, events, trace),
        0 <= at < trace.len(),
    ensures
        trace[at].1 is Commit ==> {
            &&& batch.message_count > 0
            &&& trace[at].1->partition_offsets == batch.partition_offsets
            &&& if batch.payload@.len() == 0 {
                at == 0
            } else {
                &&& at == 1
                &&& trace[0].1 is Upload
                &&& events[0] is Uploaded
            }
        },
        trace[at].1 is Upload ==> {
            &&& at == 0
            &&& batch.message_count > 0
            &&& batch.payload@.len() > 0
            &&& trace[at].1->payload == batch.payload
            &&& trace[at].1->key@ == window_key(topic, start, batch.partition_offsets@)
        },
{
    if events.len() > 0 {
        assert(events[0].answers(trace[0].0));
        assert(trace[1] == followed(trace[0].0, events[0]));
    }
    if events.len() > 1 {
        assert(events[1].answers(trace[1].0));
        assert(trace[2] == followed(trace[1].0, events[1]));
    }
    if events.len() > 2 {
        assert(events[2].answers(trace[2].0));
        assert(trace[3] == followed(trace[2].0, events[2]));
    }
    if events.len() > 3 {
        assert(events[3].answers(trace[3].0));
        assert(trace[4] == followed(trace[3].0, events[3]));
    }
    if events.len() > 4 {
        assert(events[4].answers(trace[4].0));
    }
}

/// A window whose upload failed commits nothing and does not try again: it sets
/// its consumer back to where it had begun, and ends with the error of the upload.
pub proof fn law_failed_upload_commits_nothing(
    topic: Seq<char>,
    start: WindowStart,
    batch: ConsumedBatch,
    events: Seq<SyncEvent>,
    trace: Seq<(SyncState, SyncAction)>,
    error: StorageError,
)
    requires
        is_trace(topic, start, batch, events, trace),
        events.len() > 0,
        events[0] == SyncEvent::UploadFailed(error),
    ensures
        trace.len() <= 3,
        trace[1].1 == (SyncAction::Rewind { first_offsets: batch.first_offsets }),
        trace.len() > 2 ==> events[1] is Rewound && trace[2].1 == SyncAction::Finish(
            Err::<(), BackfillError>(BackfillError::Storage(error)),
        ),
{
    assert(events[0].answers(trace[0].0));
    assert(trace[1] == followed(trace[0].0, events[0]));
    if events.len() > 1 {
        assert(events[1].answers(trace[1].0));
        assert(trace[2] == followed(trace[1].0, events[1]));
    }
    if events.len() > 2 {
        assert(events[2].answers(trace[2].0));
    }
}

/// A window ends with success only where it stored and committed all that it
/// had to, and with an error only after it set its consumer back to where it had
/// begun.
pub proof fn law_windows_end_well_or_rewind(
    topic: Seq<char>,
    start: WindowStart,
    batch: ConsumedBatch,
    events: Seq<SyncEvent>,
    trace: Seq<(SyncState, SyncAction)>,
)
    requires
        is_trace(topic, start, batch, events, trace),
    ensures
        trace.len() <= 4,
        trace.last().1 matches SyncAction::Finish(outcome) ==> match outcome {
            Ok(()) => {
                &&& batch.message_count > 0 ==> events.len() > 0 && events.last() is Committed
                &&& batch.message_count > 0 && batch.payload@.len() > 0
                    ==> events[0] is Uploaded && trace[0].1 is Upload
            },
            Err(_) => {
                &&& events.len() > 0 && events.last() is Rewound
                &&& trace[trace.len() - 2].1 == (SyncAction::Rewind {
                    first_offsets: batch.first_offsets,
                })
            },
        },
{
    if events.len() > 0 {
        assert(events[0].answers(trace[0].0));
        assert(trace[1] == followed(trace[0].0, events[0]));
    }
    if events.len() > 1 {
        assert(events[1].answers(trace[1].0));
        assert(trace[2] == followed(trace[1].0, events[1]));
    }
    if events.len() > 2 {
        assert(events[2].answers(trace[2].0));
        assert(trace[3] == followed(trace[2].0, events[2]));
    }
    if events.len() > 3 {
        assert(events[3].answers(trace[3].0));
    }
}

// ---------------------------------------------------------------------------
// A topic on its way into the archive
// ---------------------------------------------------------------------------
/// An object of the archive, with the window that it was made of.
pub struct StoredWindow {
    pub start: WindowStart,
    pub records: Seq<Record>,
    pub payload: Seq<u8>,
}

/// How far a topic is.
#[verifier::ext_equal]
pub struct Delivery {
    /// The committed offset of each partition: that of the next message.
    pub committed: Map<i32, int>,
    /// From where each partition is consumed; one without a position is
    /// consumed from its beginning.
    pub position: Map<i32, int>,
    /// What object storage holds.
    pub objects: Map<Seq<char>, StoredWindow>,
}

/// Before the first window.
pub open spec fn fresh() -> Delivery {
    Delivery { committed: Map::empty(), position: Map::empty(), objects: Map::empty() }
}

/// The record stands before the offset that `offsets` gives for its partition.
pub open spec fn is_before(record: Record, offsets: Map<i32, int>) -> bool {
    offsets.contains_key(record.partition) && record.offset < offsets[record.partition]
}

/// `records` were drained from `log`: they are of the log, none was consumed
/// before, and up to the highest offset of each partition none is missing.
pub open spec fn drains(log: Set<Record>, position: Map<i32, int>, records: Seq<Record>) -> bool {
    &&& forall|i: int|
        0 <= i < records.len() ==> log.contains(#[trigger] records[i]) && !is_before(
            records[i],
            position,
        )
    &&& forall|r: Record| #[trigger]
        log.contains(r) && !is_before(r, position) && offsets_of(records).contains_key(r.partition)
            && r.offset <= offsets_of(records)[r.partition] ==> records.contains(r)
}

/// From where consumption goes on after `records`.
pub open spec fn moved(position: Map<i32, int>, records: Seq<Record>) -> Map<i32, int> {
    let offsets = offsets_of(records);
    Map::new(
        |p: i32| position.contains_key(p) || offsets.contains_key(p),
        |p: i32|
            if offsets.contains_key(p) {
                offsets[p] + 1
            } else {
                position[p]
            },
    )
}

/// From where consumption goes on once it was set back to `offsets`.
pub open spec fn set_back(position: Map<i32, int>, offsets: Map<i32, i64>) -> Map<i32, int> {
    Map::new(
        |p: i32| position.contains_key(p) || offsets.contains_key(p),
        |p: i32|
            if offsets.contains_key(p) {
                offsets[p] as int
            } else {
                position[p]
            },
    )
}

/// The committed offsets once the broker applied `list`.
pub open spec fn acknowledged(committed: Map<i32, int>, list: Seq<Element>) -> Map<i32, int>
    decreases list.len(),
{
    if list.len() == 0 {
        committed
    } else {
        acknowledged(committed, list.drop_last()).insert(list.last().1, list.last().2 as int)
    }
}

/// A window, as far as it came.
pub struct WindowRun {
    pub start: WindowStart,
    pub records: Seq<Record>,
    pub batch: ConsumedBatch,
    pub events: Seq<SyncEvent>,
    pub trace: Seq<(SyncState, SyncAction)>,
    /// Which actions took effect: at least those that were answered with
    /// success. The answer of the others may have been lost.
    pub applied: Seq<bool>,
    /// The partitions that were assigned when the commit list was built.
    pub assignment: Seq<Element>,
}

impl WindowRun {
    /// The window is one of `topic`.
    pub open spec fn is_run(self, topic: Seq<char>) -> bool {
        &&& self.batch.holds(self.records)
        &&& is_trace(topic, self.start, self.batch, self.events, self.trace)
        &&& self.applied.len() == self.trace.len()
        &&& forall|i: int|
            0 <= i < self.events.len() && (self.events[i] is Uploaded
                || self.events[i] is Committed) ==> #[trigger] self.applied[i]
    }

    /// The upload took effect at `at`.
    pub open spec fn uploads_at(self, at: int) -> bool {
        0 <= at < self.trace.len() && self.trace[at].1 is Upload && self.applied[at]
    }

    /// The commit took effect at `at`.
    pub open spec fn commits_at(self, at: int) -> bool {
        0 <= at < self.trace.len() && self.trace[at].1 is Commit && self.applied[at]
    }

    /// The upload took effect.
    pub open spec fn uploads(self) -> bool {
        exists|at: int| self.uploads_at(at)
    }

    /// The commit took effect.
    pub open spec fn commits(self) -> bool {
        exists|at: int| self.commits_at(at)
    }

    /// Object storage after the window.
    pub open spec fn objects_after(self, objects: Map<Seq<char>, StoredWindow>) -> Map<
        Seq<char>,
        StoredWindow,
    > {
        if self.uploads() {
            let upload = self.trace[choose|at: int| self.uploads_at(at)].1;
            objects.insert(
                upload->key@,
                StoredWindow {
                    start: self.start,
                    records: self.records,
                    payload: upload->payload@,
                },
            )
        } else {
            objects
        }
    }

    /// The committed offsets after the window: the commit names the partitions
    /// that are still assigned.
    pub open spec fn committed_after(self, topic: Seq<char>, committed: Map<i32, int>) -> Map<
        i32,
        int,
    > {
        if self.commits() {
            let commit = self.trace[choose|at: int| self.commits_at(at)].1;
            acknowledged(
                committed,
                commit_elements(
                    topic,
                    assigned_entries(
                        self.assignment,
                        topic,
                        ascending(commit->partition_offsets@),
                    ),
                ),
            )
        } else {
            committed
        }
    }

    /// The window ended with success.
    pub open spec fn ends_well(self) -> bool {
        self.trace.last().1 matches SyncAction::Finish(Ok(()))
    }

    /// The window ended with an error.
    pub open spec fn ends_badly(self) -> bool {
        self.trace.last().1 matches SyncAction::Finish(Err(_))
    }

    /// From where consumption goes on: behind the window, where it ended with
    /// success; where it set its consumer back to, where it ended with an error;
    /// and at the committed offsets, where it broke off, since its consumer is
    /// lost with its task or its process.
    pub open spec fn position_after(
        self,
        position: Map<i32, int>,
        committed: Map<i32, int>,
    ) -> Map<i32, int> {
        if self.ends_well() {
            moved(position, self.records)
        } else if self.ends_badly() {
            set_back(position, self.trace[self.trace.len() - 2].1->first_offsets@)
        } else {
            committed
        }
    }
}

/// What can happen to a topic.
pub enum Step {
    /// A window was drained, and came as far as it did.
    Window(WindowRun),
    /// A partition was assigned anew: it is consumed from its committed offset.
    Assigned(i32),
    /// The process ended, however it did, and started again: every partition is
    /// consumed from its committed offset.
    Restarted,
}

/// The topic after a step.
pub open spec fn after(topic: Seq<char>, d: Delivery, step: Step) -> Delivery {
    match step {
        Step::Window(run) => {
            let committed = run.committed_after(topic, d.committed);
            Delivery {
                committed,
                position: run.position_after(d.position, committed),
                objects: run.objects_after(d.objects),
            }
        },
        Step::Assigned(partition) => Delivery {
            position: if d.committed.contains_key(partition) {
                d.position.insert(partition, d.committed[partition])
            } else {
                d.position.remove(partition)
            },
            ..d
        },
        Step::Restarted => Delivery { position: d.committed, ..d },
    }
}

/// The step can happen: a window drains what the log has next, and its key is
/// not that of a stored window with other offsets.
pub open spec fn can_happen(log: Set<Record>, topic: Seq<char>, d: Delivery, step: Step) -> bool {
    step matches Step::Window(run) ==> {
        &&& run.is_run(topic)
        &&& drains(log, d.position, run.records)
        &&& key_is_free(topic, d, run)
    }
}

/// No stored window has the key of `run` without having its offsets.
pub open spec fn key_is_free(topic: Seq<char>, d: Delivery, run: WindowRun) -> bool {
    let key = window_key(topic, run.start, offsets_of(run.records));
    d.objects.contains_key(key) ==> offsets_of(d.objects[key].records) == offsets_of(run.records)
}

/// The topic after `steps`, from the beginning.
pub open spec fn history(topic: Seq<char>, steps: Seq<Step>) -> Delivery
    decreases steps.len(),
{
    if steps.len() == 0 {
        fresh()
    } else {
        after(topic, history(topic, steps.drop_last()), steps.last())
    }
}

/// Each of `steps` can happen after those before it.
pub open spec fn is_history(log: Set<Record>, topic: Seq<char>, steps: Seq<Step>) -> bool {
    forall|i: int|
        0 <= i < steps.len() ==> can_happen(
            log,
            topic,
            history(topic, steps.take(i)),
            #[trigger] steps[i],
        )
}

/// The value of the record stands in object storage: some object is the payload of
/// a window that has the record, and its bytes hold the value as a line.
pub open spec fn is_archived(d: Delivery, record: Record) -> bool {
    exists|key: Seq<char>|
        {
            &&& d.objects.contains_key(key)
            &&& (#[trigger] d.objects[key]).records.contains(record)
            &&& d.objects[key].payload == payload_of(d.objects[key].records)
            &&& record.value matches Some(value) ==> exists|from: int| #[trigger]
                is_line(d.objects[key].payload, value, from)
        }
}

// ---------------------------------------------------------------------------
// The laws
// ---------------------------------------------------------------------------
/// The record is in an object whose offsets all stand before `offsets`, so that
/// no later window overwrites it.
spec fn is_settled(d: Delivery, record: Record, offsets: Map<i32, int>, key: Seq<char>) -> bool {
    &&& d.objects.contains_key(key)
    &&& d.objects[key].records.contains(record)
    &&& offsets_of(d.objects[key].records)[record.partition] < offsets[record.partition]
}

/// What every step keeps.
spec fn is_sound(log: Set<Record>, topic: Seq<char>, d: Delivery) -> bool {
    &&& forall|key: Seq<char>| #[trigger]
        d.objects.contains_key(key) ==> {
            &&& key == window_key(topic, d.objects[key].start, offsets_of(d.objects[key].records))
            &&& d.objects[key].payload == payload_of(d.objects[key].records)
        }
    &&& forall|r: Record| #[trigger]
        log.contains(r) && r.value is Some && is_before(r, d.committed) ==> exists|
            key: Seq<char>,
        | is_settled(d, r, d.committed, key)
    &&& forall|r: Record| #[trigger]
        log.contains(r) && r.value is Some && is_before(r, d.position) ==> exists|key: Seq<char>|
            is_settled(d, r, d.position, key)
}

proof fn lemma_acknowledged_list(
    committed: Map<i32, int>,
    list: Seq<Element>,
    partition: i32,
)
    ensures
        ({
            let named = exists|i: int| 0 <= i < list.len() && (#[trigger] list[i]).1 == partition;
            let now = acknowledged(committed, list);
            &&& now.contains_key(partition) <==> committed.contains_key(partition) || named
            &&& if named {
                exists|i: int|
                    0 <= i < list.len() && (#[trigger] list[i]).1 == partition && list[i].2
                        == now[partition]
            } else {
                now[partition] == committed[partition]
            }
        }),
    decreases list.len(),
{
    if list.len() > 0 {
        let before = list.drop_last();
        lemma_acknowledged_list(committed, before, partition);
        assert(list[list.len() - 1] == list.last());
        assert forall|i: int| 0 <= i < before.len() implies before[i] == #[trigger] list[i] by {}
        if exists|i: int| 0 <= i < before.len() && (#[trigger] before[i]).1 == partition {
            let i = choose|i: int|
                0 <= i < before.len() && (#[trigger] before[i]).1 == partition && before[i].2
                    == acknowledged(committed, before)[partition];
            assert(list[i].1 == partition);
        }
        if exists|i: int| 0 <= i < list.len() && (#[trigger] list[i]).1 == partition {
            let i = choose|i: int| 0 <= i < list.len() && (#[trigger] list[i]).1 == partition;
            if i < before.len() {
                assert(before[i].1 == partition);
            }
        }
    }
}

/// A commit moves the partitions that were consumed and are assigned, and no
/// other.
proof fn lemma_acknowledged(
    committed: Map<i32, int>,
    assignment: Seq<Element>,
    topic: Seq<char>,
    offsets: Map<i32, i64>,
    partition: i32,
)
    ensures
        ({
            let list = commit_elements(
                topic,
                assigned_entries(assignment, topic, ascending(offsets)),
            );
            let moves = offsets.contains_key(partition) && is_assigned(
                assignment,
                topic,
                partition,
            );
            let now = acknowledged(committed, list);
            &&& now.contains_key(partition) <==> committed.contains_key(partition) || moves
            &&& now[partition] == if moves {
                next_offset(offsets[partition]) as int
            } else {
                committed[partition]
            }
        }),
{
    let list = commit_elements(topic, assigned_entries(assignment, topic, ascending(offsets)));
    lemma_acknowledged_list(committed, list, partition);
    if exists|i: int| 0 <= i < list.len() && (#[trigger] list[i]).1 == partition {
        let i = choose|i: int|
            0 <= i < list.len() && (#[trigger] list[i]).1 == partition && list[i].2
                == acknowledged(committed, list)[partition];
        assert(list.contains(list[i]));
        law_commit_covers_assigned(assignment, topic, offsets, list[i]);
    }
    if offsets.contains_key(partition) && is_assigned(assignment, topic, partition) {
        let element = (encode_utf8(topic), partition, next_offset(offsets[partition]));
        law_commit_covers_assigned(assignment, topic, offsets, element);
        let i = choose|i: int| 0 <= i < list.len() && list[i] == element;
        assert(list[i].1 == partition);
    }
}

/// What a window does to object storage and to the committed offsets.
proof fn lemma_window_effects(topic: Seq<char>, d: Delivery, run: WindowRun)
    requires
        run.is_run(topic),
    ensures
        ({
            let offsets = offsets_of(run.records);
            let key = window_key(topic, run.start, offsets);
            &&& run.objects_after(d.objects) == if run.uploads() {
                d.objects.insert(
                    key,
                    StoredWindow {
                        start: run.start,
                        records: run.records,
                        payload: payload_of(run.records),
                    },
                )
            } else {
                d.objects
            }
            &&& run.committed_after(topic, d.committed) == if run.commits() {
                acknowledged(
                    d.committed,
                    commit_elements(
                        topic,
                        assigned_entries(run.assignment, topic, ascending(offsets)),
                    ),
                )
            } else {
                d.committed
            }
            &&& run.commits() || run.ends_well() ==> run.uploads() || has_no_value(run.records)
            &&& run.ends_badly() ==> run.position_after(
                d.position,
                run.committed_after(topic, d.committed),
            ) == set_back(d.position, first_offsets_of(run.records))
        }),
{
    if run.uploads() {
        let at = choose|at: int| run.uploads_at(at);
        law_upload_precedes_commit(topic, run.start, run.batch, run.events, run.trace, at);
    }
    law_payload_is_empty_without_values(run.records);
    if run.commits() {
        let at = choose|at: int| run.commits_at(at);
        law_upload_precedes_commit(topic, run.start, run.batch, run.events, run.trace, at);
        if run.batch.payload@.len() > 0 {
            assert(run.applied[0]);
            assert(run.uploads_at(0));
        }
    }
    law_windows_end_well_or_rewind(topic, run.start, run.batch, run.events, run.trace);
    if run.ends_well() {
        if run.batch.message_count > 0 && run.batch.payload@.len() > 0 {
            assert(run.applied[0]);
            assert(run.uploads_at(0));
        }
    }
}

/// All of `records` are tombstones.
spec fn has_no_value(records: Seq<Record>) -> bool {
    forall|i: int| 0 <= i < records.len() ==> (#[trigger] records[i]).value is None
}

/// What was consumed is at or behind the position before the window.
proof fn lemma_drained_offsets(
    log: Set<Record>,
    position: Map<i32, int>,
    records: Seq<Record>,
    partition: i32,
)
    requires
        drains(log, position, records),
        offsets_of(records).contains_key(partition),
    ensures
        position.contains_key(partition) ==> position[partition] <= offsets_of(
            records,
        )[partition],
        has_successors(log) ==> offsets_of(records)[partition] < i64::MAX,
{
    law_offsets_are_highest(records, partition);
    let i = choose|i: int|
        0 <= i < records.len() && (#[trigger] records[i]).partition == partition
            && records[i].offset == offsets_of(records)[partition];
    assert(log.contains(records[i]));
}

/// Every offset of the log has a next one.
pub open spec fn has_successors(log: Set<Record>) -> bool {
    forall|r: Record| #[trigger] log.contains(r) ==> r.offset < i64::MAX
}

/// A settled record is settled after a window too: a window overwrites an object
/// only with the same offsets, and then holds what it drained of it; what was
/// consumed before stands in another object.
proof fn lemma_stays_settled(
    log: Set<Record>,
    topic: Seq<char>,
    d: Delivery,
    run: WindowRun,
    record: Record,
    offsets: Map<i32, int>,
    key: Seq<char>,
)
    requires
        is_sound(log, topic, d),
        can_happen(log, topic, d, Step::Window(run)),
        log.contains(record),
        record.value is Some,
        is_settled(d, record, offsets, key),
    ensures
        exists|k: Seq<char>|
            is_settled(after(topic, d, Step::Window(run)), record, offsets, k),
{
    let now = after(topic, d, Step::Window(run));
    let p = record.partition;
    let consumed = offsets_of(run.records);
    let own = window_key(topic, run.start, consumed);
    lemma_window_effects(topic, d, run);
    if run.uploads() && key == own {
        let stored = d.objects[key].records;
        let i = choose|i: int| 0 <= i < stored.len() && stored[i] == record;
        law_offsets_are_highest(stored, p);
        assert(stored[i].partition == p);
        lemma_drained_offsets(log, d.position, run.records, p);
        if is_before(record, d.position) {
            let other = choose|k: Seq<char>| is_settled(d, record, d.position, k);
            assert(is_settled(d, record, d.position, other));
            assert(other != own);
            assert(is_settled(now, record, offsets, other));
        } else {
            assert(run.records.contains(record));
            assert(is_settled(now, record, offsets, own));
        }
    } else {
        assert(is_settled(now, record, offsets, key));
    }
}

/// A record is settled below `offsets` after a window, where it was consumed
/// before the window, or the window stored it, and `offsets` are behind either.
proof fn lemma_settled_below(
    log: Set<Record>,
    topic: Seq<char>,
    d: Delivery,
    run: WindowRun,
    record: Record,
    offsets: Map<i32, int>,
)
    requires
        is_sound(log, topic, d),
        can_happen(log, topic, d, Step::Window(run)),
        log.contains(record),
        record.value is Some,
        is_before(record, d.position) ==> d.position[record.partition] <= offsets[record.partition],
        !is_before(record, d.position) ==> {
            &&& run.uploads() || has_no_value(run.records)
            &&& offsets_of(run.records).contains_key(record.partition)
            &&& record.offset <= offsets_of(run.records)[record.partition]
            &&& offsets_of(run.records)[record.partition] < offsets[record.partition]
        },
    ensures
        exists|k: Seq<char>|
            is_settled(after(topic, d, Step::Window(run)), record, offsets, k),
{
    if is_before(record, d.position) {
        let key = choose|key: Seq<char>| is_settled(d, record, d.position, key);
        assert(is_settled(d, record, d.position, key));
        assert(is_settled(d, record, offsets, key));
        lemma_stays_settled(log, topic, d, run, record, offsets, key);
    } else {
        lemma_window_effects(topic, d, run);
        assert(run.records.contains(record));
        let i = choose|i: int| 0 <= i < run.records.len() && run.records[i] == record;
        assert(run.records[i].value is Some);
        assert(is_settled(
            after(topic, d, Step::Window(run)),
            record,
            offsets,
            window_key(topic, run.start, offsets_of(run.records)),
        ));
    }
}

/// A window that set its consumer back set it to where it had begun.
proof fn lemma_set_back(
    log: Set<Record>,
    position: Map<i32, int>,
    records: Seq<Record>,
    record: Record,
)
    requires
        drains(log, position, records),
        log.contains(record),
        is_before(record, set_back(position, first_offsets_of(records))),
    ensures
        is_before(record, position),
        position[record.partition] <= set_back(position, first_offsets_of(
            records,
        ))[record.partition],
{
    let p = record.partition;
    let first = first_offsets_of(records);
    law_first_offsets_are_lowest(records, p);
    law_offsets_are_highest(records, p);
    if first.contains_key(p) {
        let i = choose|i: int|
            0 <= i < records.len() && (#[trigger] records[i]).partition == p && records[i].offset
                == first[p];
        assert(!is_before(records[i], position));
        if !is_before(record, position) {
            assert(records.contains(record));
            let j = choose|j: int| 0 <= j < records.len() && records[j] == record;
            assert(records[j].partition == p);
        }
    }
}

proof fn lemma_window_keeps_soundness(
    log: Set<Record>,
    topic: Seq<char>,
    d: Delivery,
    run: WindowRun,
)
    requires
        has_successors(log),
        is_sound(log, topic, d),
        can_happen(log, topic, d, Step::Window(run)),
    ensures
        is_sound(log, topic, after(topic, d, Step::Window(run))),
{
    let now = after(topic, d, Step::Window(run));
    let consumed = offsets_of(run.records);
    lemma_window_effects(topic, d, run);
    assert forall|r: Record| #[trigger]
        log.contains(r) && r.value is Some && is_before(r, now.committed) implies exists|
        key: Seq<char>,
    | is_settled(now, r, now.committed, key) by {
        let p = r.partition;
        lemma_acknowledged(d.committed, run.assignment, topic, consumed, p);
        if run.commits() && consumed.contains_key(p) && is_assigned(run.assignment, topic, p) {
            lemma_drained_offsets(log, d.position, run.records, p);
            lemma_settled_below(log, topic, d, run, r, now.committed);
        } else {
            assert(is_before(r, d.committed));
            let key = choose|key: Seq<char>| is_settled(d, r, d.committed, key);
            assert(is_settled(d, r, now.committed, key));
            lemma_stays_settled(log, topic, d, run, r, now.committed, key);
        }
    }
    assert forall|r: Record| #[trigger]
        log.contains(r) && r.value is Some && is_before(r, now.position) implies exists|
        key: Seq<char>,
    | is_settled(now, r, now.position, key) by {
        let p = r.partition;
        if run.ends_well() {
            if consumed.contains_key(p) {
                lemma_drained_offsets(log, d.position, run.records, p);
            }
            lemma_settled_below(log, topic, d, run, r, now.position);
        } else if run.ends_badly() {
            lemma_set_back(log, d.position, run.records, r);
            lemma_settled_below(log, topic, d, run, r, now.position);
        }
    }
}

proof fn lemma_step_keeps_soundness(log: Set<Record>, topic: Seq<char>, d: Delivery, step: Step)
    requires
        has_successors(log),
        is_sound(log, topic, d),
        can_happen(log, topic, d, step),
    ensures
        is_sound(log, topic, after(topic, d, step)),
{
    let now = after(topic, d, step);
    match step {
        Step::Window(run) => {
            lemma_window_keeps_soundness(log, topic, d, run);
        },
        _ => {
            assert forall|r: Record| #[trigger]
                log.contains(r) && r.value is Some && is_before(r, now.committed) implies exists|
                key: Seq<char>,
            | is_settled(now, r, now.committed, key) by {
                let key = choose|key: Seq<char>| is_settled(d, r, d.committed, key);
                assert(is_settled(now, r, now.committed, key));
            }
            assert forall|r: Record| #[trigger]
                log.contains(r) && r.value is Some && is_before(r, now.position) implies exists|
                key: Seq<char>,
            | is_settled(now, r, now.position, key) by {
                if step is Restarted || r.partition == step->Assigned_0 {
                    assert(is_before(r, d.committed));
                    let key = choose|key: Seq<char>| is_settled(d, r, d.committed, key);
                    assert(is_settled(now, r, now.position, key));
                } else {
                    assert(is_before(r, d.position));
                    let key = choose|key: Seq<char>| is_settled(d, r, d.position, key);
                    assert(is_settled(now, r, now.position, key));
                }
            }
        },
    }
}

proof fn lemma_history_is_sound(log: Set<Record>, topic: Seq<char>, steps: Seq<Step>)
    requires
        has_successors(log),
        is_history(log, topic, steps),
    ensures
        is_sound(log, topic, history(topic, steps)),
    decreases steps.len(),
{
    if steps.len() > 0 {
        let before = steps.drop_last();
        let last = steps.len() - 1;
        assert(before == steps.take(last));
        lemma_shorter_history(log, topic, steps);
        lemma_history_is_sound(log, topic, before);
        assert(can_happen(log, topic, history(topic, steps.take(last)), steps[last]));
        lemma_step_keeps_soundness(log, topic, history(topic, before), steps.last());
    }
}

proof fn lemma_shorter_history(log: Set<Record>, topic: Seq<char>, steps: Seq<Step>)
    requires
        is_history(log, topic, steps),
        steps.len() > 0,
    ensures
        is_history(log, topic, steps.drop_last()),
{
    let before = steps.drop_last();
    assert forall|i: int| 0 <= i < before.len() implies can_happen(
        log,
        topic,
        history(topic, before.take(i)),
        #[trigger] before[i],
    ) by {
        assert(before.take(i) == steps.take(i));
        assert(can_happen(log, topic, history(topic, steps.take(i)), steps[i]));
    }
}

/// At-least-once delivery: crashes and failures duplicate, never lose. Whatever
/// happens, and wherever a window fails or breaks off, every value below the
/// committed offset of its partition stands in object storage; and every value
/// that does not stand there is still to be consumed, by the running consumer and
/// by one that starts again.
pub proof fn law_nothing_is_lost(
    log: Set<Record>,
    topic: Seq<char>,
    steps: Seq<Step>,
    record: Record,
)
    requires
        has_successors(log),
        is_history(log, topic, steps),
        log.contains(record),
        record.value is Some,
    ensures
        is_before(record, history(topic, steps).committed) ==> is_archived(
            history(topic, steps),
            record,
        ),
        !is_archived(history(topic, steps), record) ==> {
            &&& !is_before(record, history(topic, steps).position)
            &&& !is_before(record, history(topic, steps.push(Step::Restarted)).position)
        },
{
    lemma_history_is_sound(log, topic, steps);
    let d = history(topic, steps);
    assert(steps.push(Step::Restarted).drop_last() == steps);
    if is_before(record, d.committed) {
        let key = choose|key: Seq<char>| is_settled(d, record, d.committed, key);
        lemma_stored_value(d.objects[key], record);
    }
    if is_before(record, d.position) {
        let key = choose|key: Seq<char>| is_settled(d, record, d.position, key);
        lemma_stored_value(d.objects[key], record);
    }
}

proof fn lemma_stored_value(stored: StoredWindow, record: Record)
    requires
        stored.records.contains(record),
        stored.payload == payload_of(stored.records),
        record.value is Some,
    ensures
        exists|from: int| #[trigger] is_line(stored.payload, record.value->0, from),
{
    let at = choose|at: int| 0 <= at < stored.records.len() && stored.records[at] == record;
    law_values_are_lines(stored.records, at);
}

/// A window that fails is retried: whether its upload or its commit failed, the
/// next window of the same consumer starts where the failed one had begun, and so
/// consumes it again as a whole. A failed upload commits nothing.
pub proof fn law_failed_windows_are_retried(
    log: Set<Record>,
    topic: Seq<char>,
    steps: Seq<Step>,
    run: WindowRun,
)
    requires
        is_history(log, topic, steps.push(Step::Window(run))),
        run.ends_badly(),
    ensures
        ({
            let before = history(topic, steps);
            let now = history(topic, steps.push(Step::Window(run)));
            &&& forall|i: int|
                0 <= i < run.records.len() ==> !is_before(#[trigger] run.records[i], now.position)
            &&& forall|r: Record| #[trigger]
                log.contains(r) && is_before(r, now.position) ==> is_before(r, before.position)
            &&& run.events[0] is UploadFailed ==> now.committed == before.committed
        }),
{
    let all = steps.push(Step::Window(run));
    let d = history(topic, steps);
    let now = history(topic, all);
    assert(all.drop_last() == steps && all.take(steps.len() as int) == steps);
    assert(can_happen(
        log,
        topic,
        history(topic, all.take(steps.len() as int)),
        all[steps.len() as int],
    ));
    lemma_window_effects(topic, d, run);
    assert forall|i: int| 0 <= i < run.records.len() implies !is_before(
        #[trigger] run.records[i],
        now.position,
    ) by {
        law_first_offsets_are_lowest(run.records, run.records[i].partition);
        law_offsets_are_highest(run.records, run.records[i].partition);
    }
    assert forall|r: Record| #[trigger]
        log.contains(r) && is_before(r, now.position) implies is_before(r, d.position) by {
        lemma_set_back(log, d.position, run.records, r);
    }
    law_windows_end_well_or_rewind(topic, run.start, run.batch, run.events, run.trace);
    if run.events[0] is UploadFailed && run.commits() {
        assert(run.events[0].answers(run.trace[0].0));
        let i = choose|i: int| run.commits_at(i);
        law_upload_precedes_commit(topic, run.start, run.batch, run.events, run.trace, i);
    }
}

/// The key of a window is free unless its partition list is too long to be
/// spelled out: only hashed keys can stand for two windows with other offsets.
pub proof fn law_spelled_keys_are_free(
    log: Set<Record>,
    topic: Seq<char>,
    steps: Seq<Step>,
    run: WindowRun,
)
    requires
        has_successors(log),
        is_history(log, topic, steps),
        !is_oversized(key_prefix(topic, run.start), fragment(offsets_of(run.records))),
    ensures
        key_is_free(topic, history(topic, steps), run),
{
    lemma_history_is_sound(log, topic, steps);
    let d = history(topic, steps);
    let key = window_key(topic, run.start, offsets_of(run.records));
    if d.objects.contains_key(key) {
        law_key_identifies_window(
            topic,
            d.objects[key].start,
            offsets_of(d.objects[key].records),
            topic,
            run.start,
            offsets_of(run.records),
        );
    }
}

/// A window that is consumed again after its commit failed overwrites its own
/// object, where the day and the offsets are the same: object storage then
/// holds as many objects as before.
pub proof fn law_retry_overwrites(
    topic: Seq<char>,
    d: Delivery,
    first: WindowRun,
    again: WindowRun,
)
    requires
        first.is_run(topic),
        again.is_run(topic),
        first.start == again.start,
        offsets_of(first.records) == offsets_of(again.records),
        first.uploads(),
        again.uploads(),
    ensures
        again.objects_after(first.objects_after(d.objects)).dom() == first.objects_after(
            d.objects,
        ).dom(),
{
    lemma_window_effects(topic, d, first);
    let between = Delivery { objects: first.objects_after(d.objects), ..d };
    lemma_window_effects(topic, between, again);
    assert(again.objects_after(between.objects).dom() =~= between.objects.dom());
}

} // verus!
