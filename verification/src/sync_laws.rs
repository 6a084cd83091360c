//! What a drained window promises: which actions it asks for, in which order, and
//! how it ends.

use crate::backfill::{begins, distinct, followed, SyncAction, SyncEvent, SyncState};
use crate::calendar::WindowStart;
use crate::delivery::is_trace;
use crate::error::{BackfillError, KafkaError, StorageError};
use crate::kafka::ConsumedBatch;
use crate::object_key::window_key;
use std::collections::BTreeMap;
use vstd::prelude::*;

verus! {

// ---------------------------------------------------------------------------
// How a window begins
// ---------------------------------------------------------------------------
/// A window with a value, however large, begins with the upload of its whole
/// payload under the key of its offsets, and keeps its offsets for the commit and
/// for setting its consumer back.
pub proof fn law_windows_upload_first(
    topic: Seq<char>,
    start: WindowStart,
    batch: ConsumedBatch,
    next: (SyncState, SyncAction),
)
    requires
        begins(topic, start, batch, next),
        batch.message_count > 0,
        batch.payload@.len() > 0,
    ensures
        next.1 is Upload,
        next.1->payload@ == batch.payload@,
        next.1->key@ == window_key(topic, start, batch.partition_offsets@),
        next.0 is Uploading,
        next.0->partition_offsets == batch.partition_offsets,
        next.0->Uploading_first_offsets == batch.first_offsets,
{
}

/// A window of tombstones has nothing to upload: it begins with the commit of its
/// offsets.
pub proof fn law_tombstones_are_committed(
    topic: Seq<char>,
    start: WindowStart,
    batch: ConsumedBatch,
    next: (SyncState, SyncAction),
)
    requires
        begins(topic, start, batch, next),
        batch.message_count > 0,
        batch.payload@.len() == 0,
    ensures
        next.1 == (SyncAction::Commit { partition_offsets: batch.partition_offsets }),
        next.0 == (SyncState::Committing { first_offsets: batch.first_offsets }),
{
}

/// A window without messages is over with success at once.
pub proof fn law_empty_windows_end_at_once(
    topic: Seq<char>,
    start: WindowStart,
    batch: ConsumedBatch,
    next: (SyncState, SyncAction),
)
    requires
        begins(topic, start, batch, next),
        batch.message_count == 0,
    ensures
        next.0 is Finished,
        next.1 == SyncAction::Finish(Ok::<(), BackfillError>(())),
{
}

// ---------------------------------------------------------------------------
// How a window goes on
// ---------------------------------------------------------------------------
/// An upload is waited for exactly while the window is uploading, a commit while it
/// is committing, and the note for its consumer while it is rewinding.
pub proof fn law_events_answer_actions(
    state: SyncState,
    storage_error: StorageError,
    kafka_error: KafkaError,
)
    ensures
        SyncEvent::Uploaded.answers(state) <==> state is Uploading,
        SyncEvent::UploadFailed(storage_error).answers(state) <==> state is Uploading,
        SyncEvent::Committed.answers(state) <==> state is Committing,
        SyncEvent::CommitFailed(kafka_error).answers(state) <==> state is Committing,
        SyncEvent::Rewound.answers(state) <==> state is Rewinding,
{
}

/// After the upload the offsets of the window are committed, and after a failed one
/// its consumer is set back to where the window had begun.
pub proof fn law_uploads_lead_to_commits(
    partition_offsets: BTreeMap<i32, i64>,
    first_offsets: BTreeMap<i32, i64>,
    error: StorageError,
)
    ensures
        followed(
            (SyncState::Uploading { partition_offsets, first_offsets }),
            SyncEvent::Uploaded,
        ) == (
            (SyncState::Committing { first_offsets }),
            (SyncAction::Commit { partition_offsets }),
        ),
        followed(
            (SyncState::Uploading { partition_offsets, first_offsets }),
            SyncEvent::UploadFailed(error),
        ) == (
            (SyncState::Rewinding { error: BackfillError::Storage(error) }),
            (SyncAction::Rewind { first_offsets }),
        ),
{
}

/// After the commit the window is over with success, and after a failed one its
/// consumer is set back to where the window had begun.
pub proof fn law_commits_lead_to_the_end(first_offsets: BTreeMap<i32, i64>, error: KafkaError)
    ensures
        followed((SyncState::Committing { first_offsets }), SyncEvent::Committed) == (
            SyncState::Finished,
            SyncAction::Finish(Ok::<(), BackfillError>(())),
        ),
        followed((SyncState::Committing { first_offsets }), SyncEvent::CommitFailed(error)) == (
            (SyncState::Rewinding { error: BackfillError::Kafka(error) }),
            (SyncAction::Rewind { first_offsets }),
        ),
{
}

/// A window whose consumer was set back is over with the error that was the reason.
pub proof fn law_rewinding_ends_with_the_error(error: BackfillError)
    ensures
        followed((SyncState::Rewinding { error }), SyncEvent::Rewound) == (
            SyncState::Finished,
            SyncAction::Finish(Err::<(), BackfillError>(error)),
        ),
{
}

// ---------------------------------------------------------------------------
// How a window ends
// ---------------------------------------------------------------------------
proof fn lemma_steps(
    topic: Seq<char>,
    start: WindowStart,
    batch: ConsumedBatch,
    events: Seq<SyncEvent>,
    trace: Seq<(SyncState, SyncAction)>,
)
    requires
        is_trace(topic, start, batch, events, trace),
    ensures
        events.len() > 0 ==> events[0].answers(trace[0].0) && trace[1] == followed(
            trace[0].0,
            events[0],
        ),
        events.len() > 1 ==> events[1].answers(trace[1].0) && trace[2] == followed(
            trace[1].0,
            events[1],
        ),
        events.len() > 2 ==> events[2].answers(trace[2].0) && trace[3] == followed(
            trace[2].0,
            events[2],
        ),
        events.len() <= 3,
{
    if events.len() > 0 {
        assert(events[0].answers(trace[0].0));
    }
    if events.len() > 1 {
        assert(events[1].answers(trace[1].0));
    }
    if events.len() > 2 {
        assert(events[2].answers(trace[2].0));
    }
    if events.len() > 3 {
        assert(events[3].answers(trace[3].0));
    }
}

/// A window goes forward: one with a value uploads, whatever the size of its
/// payload, and once its upload and its commit are both answered with success it is
/// over with success; a window of tombstones needs its commit only.
pub proof fn law_successes_end_well(
    topic: Seq<char>,
    start: WindowStart,
    batch: ConsumedBatch,
    events: Seq<SyncEvent>,
    trace: Seq<(SyncState, SyncAction)>,
)
    requires
        is_trace(topic, start, batch, events, trace),
        batch.message_count > 0,
        forall|i: int|
            0 <= i < events.len() ==> (#[trigger] events[i]) is Uploaded || events[i] is Committed,
    ensures
        batch.payload@.len() > 0 ==> {
            &&& trace[0].1 is Upload
            &&& trace[0].1->payload@ == batch.payload@
            &&& trace[0].1->key@ == window_key(topic, start, batch.partition_offsets@)
            &&& events.len() >= 1 ==> trace[1].1 == (SyncAction::Commit {
                partition_offsets: batch.partition_offsets,
            })
            &&& events.len() >= 2 ==> trace[2].1 == SyncAction::Finish(Ok::<(), BackfillError>(()))
            &&& events.len() <= 2
        },
        batch.payload@.len() == 0 ==> {
            &&& trace[0].1 == (SyncAction::Commit { partition_offsets: batch.partition_offsets })
            &&& events.len() >= 1 ==> trace[1].1 == SyncAction::Finish(Ok::<(), BackfillError>(()))
            &&& events.len() <= 1
        },
{
    lemma_steps(topic, start, batch, events, trace);
    if events.len() > 0 {
        assert(events[0] is Uploaded || events[0] is Committed);
    }
    if events.len() > 1 {
        assert(events[1] is Uploaded || events[1] is Committed);
    }
    if events.len() > 2 {
        assert(events[2] is Uploaded || events[2] is Committed);
    }
}

/// A window ends with an error only where its upload or its commit was answered with
/// one, and then with that error: no other reason makes a window fail.
pub proof fn law_errors_have_a_cause(
    topic: Seq<char>,
    start: WindowStart,
    batch: ConsumedBatch,
    events: Seq<SyncEvent>,
    trace: Seq<(SyncState, SyncAction)>,
    error: BackfillError,
)
    requires
        is_trace(topic, start, batch, events, trace),
        trace.last().1 == SyncAction::Finish(Err::<(), BackfillError>(error)),
    ensures
        exists|i: int|
            0 <= i < events.len() && match #[trigger] events[i] {
                SyncEvent::UploadFailed(cause) => error == BackfillError::Storage(cause),
                SyncEvent::CommitFailed(cause) => error == BackfillError::Kafka(cause),
                _ => false,
            },
{
    lemma_steps(topic, start, batch, events, trace);
    if events.len() == 2 {
        assert(events[0] is UploadFailed || events[0] is CommitFailed);
    }
    if events.len() == 3 {
        assert(events[1] is CommitFailed);
    }
}

/// A window that set its consumer back had failed to upload or to commit.
pub proof fn law_rewinds_have_a_cause(
    topic: Seq<char>,
    start: WindowStart,
    batch: ConsumedBatch,
    events: Seq<SyncEvent>,
    trace: Seq<(SyncState, SyncAction)>,
    at: int,
)
    requires
        is_trace(topic, start, batch, events, trace),
        0 <= at < trace.len(),
        trace[at].1 is Rewind,
    ensures
        at > 0,
        events[at - 1] is UploadFailed || events[at - 1] is CommitFailed,
        trace[at].1->Rewind_first_offsets == batch.first_offsets,
{
    lemma_steps(topic, start, batch, events, trace);
}

// ---------------------------------------------------------------------------
// The topics of a window
// ---------------------------------------------------------------------------
/// A further topic is added at the end, unless the window has it already.
pub proof fn law_topics_are_added_once(topics: Seq<Seq<char>>, topic: Seq<char>)
    ensures
        distinct(Seq::empty()) == Seq::<Seq<char>>::empty(),
        topics.contains(topic) ==> distinct(topics.push(topic)) == distinct(topics),
        !topics.contains(topic) ==> distinct(topics.push(topic)) == distinct(topics).push(topic),
{
    crate::backfill::law_window_topics_are_unique(topics);
    assert(topics.push(topic).drop_last() == topics);
    assert(distinct(topics).contains(topic) <==> topics.contains(topic));
}

} // verus!
