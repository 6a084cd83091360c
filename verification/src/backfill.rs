//! Orchestrates the backfill loop.
//!
//! Per window and topic: drain one time-window from Kafka into an in-memory
//! buffer, upload the batch to object storage, commit the consumed offsets.
//! The upload happens strictly before the commit, which is what makes delivery
//! at-least-once: if the process dies between the two steps, the window's
//! messages are simply consumed and uploaded again later.
//!
//! A window that fails is retried in the next cycle: its consumer is kept, and
//! set back to where the window had begun before it drains again.
//!
//! Each waiting step is performed elsewhere. Here stand the decisions: a
//! function takes the state and what happened, and gives the next state and
//! what to do.

use crate::calendar::WindowStart;
use crate::error::{BackfillError, KafkaError, StorageError};
use crate::kafka::ConsumedBatch;
use crate::object_key::{object_key, window_key};
use crate::text;
use std::collections::BTreeMap;
use vstd::prelude::*;

verus! {

// ---------------------------------------------------------------------------
// Upload, then commit
// ---------------------------------------------------------------------------
/// How far a drained window is.
#[derive(Debug)]
pub enum SyncState {
    /// The upload was asked for; these offsets are committed after it.
    Uploading { partition_offsets: BTreeMap<i32, i64>, first_offsets: BTreeMap<i32, i64> },
    /// The commit was asked for.
    Committing { first_offsets: BTreeMap<i32, i64> },
    /// The window failed; its consumer is to be set back.
    Rewinding { error: BackfillError },
    /// Nothing is left to do.
    Finished,
}

/// What a drained window does next.
#[derive(Debug)]
pub enum SyncAction {
    /// Put `payload` into object storage under `key`.
    Upload { key: String, payload: Vec<u8> },
    /// Commit these offsets.
    Commit { partition_offsets: BTreeMap<i32, i64> },
    /// Note that the topic's consumer is to be set back to these offsets before
    /// it drains again ([`ConsumerCache::set_behind`]).
    Rewind { first_offsets: BTreeMap<i32, i64> },
    /// The window is over.
    Finish(Result<(), BackfillError>),
}

/// How an action went.
#[derive(Debug)]
pub enum SyncEvent {
    Uploaded,
    UploadFailed(StorageError),
    Committed,
    CommitFailed(KafkaError),
    Rewound,
}

impl SyncEvent {
    /// The event answers the action that `state` waits for.
    pub open spec fn answers(self, state: SyncState) -> bool {
        match self {
            SyncEvent::Uploaded | SyncEvent::UploadFailed(_) => state is Uploading,
            SyncEvent::Committed | SyncEvent::CommitFailed(_) => state is Committing,
            SyncEvent::Rewound => state is Rewinding,
        }
    }
}

/// `next` begins to store `batch`: a window without messages asks for nothing;
/// one that holds only tombstones is committed without an upload; every other
/// window is uploaded first.
pub open spec fn begins(
    topic: Seq<char>,
    window_start: WindowStart,
    batch: ConsumedBatch,
    next: (SyncState, SyncAction),
) -> bool {
    if batch.message_count == 0 {
        next.0 is Finished && next.1 == SyncAction::Finish(Ok::<(), BackfillError>(()))
    } else if batch.payload@.len() == 0 {
        &&& next.0 == (SyncState::Committing { first_offsets: batch.first_offsets })
        &&& next.1 == (SyncAction::Commit { partition_offsets: batch.partition_offsets })
    } else {
        &&& next.0 == (SyncState::Uploading {
            partition_offsets: batch.partition_offsets,
            first_offsets: batch.first_offsets,
        })
        &&& next.1 matches SyncAction::Upload { key, payload }
        &&& payload == batch.payload
        &&& key@ == window_key(topic, window_start, batch.partition_offsets@)
    }
}

/// What follows once the action of `state` was answered: offsets are committed
/// after a successful upload only; a failure sets the consumer back to where the
/// window had begun, and ends the window with its error.
pub open spec fn followed(state: SyncState, event: SyncEvent) -> (SyncState, SyncAction) {
    match event {
        SyncEvent::Uploaded => (
            SyncState::Committing { first_offsets: state->Uploading_first_offsets },
            SyncAction::Commit { partition_offsets: state->partition_offsets },
        ),
        SyncEvent::UploadFailed(error) => (
            SyncState::Rewinding { error: BackfillError::Storage(error) },
            SyncAction::Rewind { first_offsets: state->Uploading_first_offsets },
        ),
        SyncEvent::Committed => (
            SyncState::Finished,
            SyncAction::Finish(Ok::<(), BackfillError>(())),
        ),
        SyncEvent::CommitFailed(error) => (
            SyncState::Rewinding { error: BackfillError::Kafka(error) },
            SyncAction::Rewind { first_offsets: state->Committing_first_offsets },
        ),
        SyncEvent::Rewound => (
            SyncState::Finished,
            SyncAction::Finish(Err::<(), BackfillError>(state->error)),
        ),
    }
}

/// Begins to store one drained window.
pub fn sync_window(topic: &str, window_start: &WindowStart, batch: ConsumedBatch) -> (next: (
    SyncState,
    SyncAction,
))
    ensures
        begins(topic@, *window_start, batch, next),
{
    if batch.message_count == 0 {
        (SyncState::Finished, SyncAction::Finish(Ok(())))
    } else if batch.payload.is_empty() {
        (
            SyncState::Committing { first_offsets: batch.first_offsets },
            SyncAction::Commit { partition_offsets: batch.partition_offsets },
        )
    } else {
        let key = object_key(topic, window_start, &batch.partition_offsets);
        (
            SyncState::Uploading {
                partition_offsets: batch.partition_offsets,
                first_offsets: batch.first_offsets,
            },
            SyncAction::Upload { key, payload: batch.payload },
        )
    }
}

/// Goes on with a window once its action was answered.
pub fn advance(state: SyncState, event: SyncEvent) -> (next: (SyncState, SyncAction))
    requires
        event.answers(state),
    ensures
        next == followed(state, event),
{
    match (state, event) {
        (SyncState::Uploading { partition_offsets, first_offsets }, SyncEvent::Uploaded) => (
            SyncState::Committing { first_offsets },
            SyncAction::Commit { partition_offsets },
        ),
        (SyncState::Uploading { first_offsets, .. }, SyncEvent::UploadFailed(error)) => (
            SyncState::Rewinding { error: BackfillError::Storage(error) },
            SyncAction::Rewind { first_offsets },
        ),
        (SyncState::Committing { first_offsets }, SyncEvent::CommitFailed(error)) => (
            SyncState::Rewinding { error: BackfillError::Kafka(error) },
            SyncAction::Rewind { first_offsets },
        ),
        (SyncState::Rewinding { error }, SyncEvent::Rewound) => (
            SyncState::Finished,
            SyncAction::Finish(Err(error)),
        ),
        _ => (SyncState::Finished, SyncAction::Finish(Ok(()))),
    }
}

// ---------------------------------------------------------------------------
// The consumers
// ---------------------------------------------------------------------------
/// A connected consumer, and what it has to consume again.
pub struct Cached<C> {
    pub consumer: C,
    /// Where to set the consumer back to before it drains again; empty unless its
    /// last window failed.
    pub behind: Map<i32, i64>,
}

struct Member<C> {
    topic: String,
    consumer: C,
    behind: BTreeMap<i32, i64>,
}

impl<C> Member<C> {
    spec fn shown(self) -> Cached<C> {
        Cached { consumer: self.consumer, behind: self.behind@ }
    }
}

/// The connected consumers, one per topic, kept from window to window.
pub struct ConsumerCache<C> {
    members: Vec<Member<C>>,
}

impl<C> View for ConsumerCache<C> {
    type V = Map<Seq<char>, Cached<C>>;

    closed spec fn view(&self) -> Map<Seq<char>, Cached<C>> {
        Map::new(
            |topic: Seq<char>| exists|i: int| self.is_at(topic, i),
            |topic: Seq<char>| self.members@[choose|i: int| self.is_at(topic, i)].shown(),
        )
    }
}

impl<C> ConsumerCache<C> {
    /// No topic has two consumers.
    pub closed spec fn wf(self) -> bool {
        forall|i: int, j: int|
            0 <= i < j < self.members@.len() ==> (#[trigger] self.members@[i]).topic@ != (
            #[trigger] self.members@[j]).topic@
    }

    spec fn is_at(self, topic: Seq<char>, at: int) -> bool {
        0 <= at < self.members@.len() && self.members@[at].topic@ == topic
    }

    proof fn lemma_member(self, at: int)
        requires
            self.wf(),
            0 <= at < self.members@.len(),
        ensures
            self@.contains_key(self.members@[at].topic@),
            self@[self.members@[at].topic@] == self.members@[at].shown(),
    {
        let topic = self.members@[at].topic@;
        assert(self.is_at(topic, at));
        let chosen = choose|i: int| self.is_at(topic, i);
        assert(self.is_at(topic, chosen));
        assert(chosen == at);
    }

    /// `self` shows `expected`, if each of its members does and none is missing.
    proof fn lemma_shows(self, expected: Map<Seq<char>, Cached<C>>)
        requires
            self.wf(),
            forall|i: int|
                0 <= i < self.members@.len() ==> expected.contains_key(
                    (#[trigger] self.members@[i]).topic@,
                ) && expected[self.members@[i].topic@] == self.members@[i].shown(),
            forall|topic: Seq<char>| #[trigger]
                expected.contains_key(topic) ==> exists|i: int| self.is_at(topic, i),
        ensures
            self@ == expected,
    {
        assert forall|topic: Seq<char>| #[trigger] self@.contains_key(topic) implies expected[topic]
            == self@[topic] by {
            let i = choose|i: int| self.is_at(topic, i);
            self.lemma_member(i);
        }
        assert forall|topic: Seq<char>| self@.dom().contains(topic) == expected.dom().contains(
            topic,
        ) by {
            if self@.contains_key(topic) {
                let i = choose|i: int| self.is_at(topic, i);
                assert(expected.contains_key(self.members@[i].topic@));
            }
            if expected.contains_key(topic) {
                let i = choose|i: int| self.is_at(topic, i);
                self.lemma_member(i);
            }
        }
        assert(self@ =~= expected);
    }

    /// A cache without consumers.
    pub fn new() -> (cache: ConsumerCache<C>)
        ensures
            cache.wf(),
            cache@ == Map::<Seq<char>, Cached<C>>::empty(),
    {
        let cache = ConsumerCache { members: Vec::new() };
        proof {
            cache.lemma_shows(Map::empty());
        }
        cache
    }

    fn position(&self, topic: &str) -> (at: Option<usize>)
        requires
            self.wf(),
        ensures
            match at {
                Some(i) => self.is_at(topic@, i as int) && self@.contains_key(topic@)
                    && self@[topic@] == self.members@[i as int].shown(),
                None => !self@.contains_key(topic@) && forall|i: int| !self.is_at(topic@, i),
            },
    {
        let wanted = topic.to_owned();
        let n: usize = self.members.len();
        let mut i: usize = 0;
        while i < n
            invariant
                self.wf(),
                n == self.members@.len(),
                i <= n,
                wanted@ == topic@,
                forall|k: int| 0 <= k < i ==> (#[trigger] self.members@[k]).topic@ != topic@,
            decreases n - i,
        {
            if self.members[i].topic == wanted {
                proof {
                    self.lemma_member(i as int);
                }
                return Some(i);
            }
            i = i + 1;
        }
        None
    }

    /// The cached consumer of `topic`; without one it has to be connected, on
    /// first use and after an attempt that failed.
    pub fn cached_consumer(&self, topic: &str) -> (cached: Option<&C>)
        requires
            self.wf(),
        ensures
            match cached {
                Some(consumer) => self@.contains_key(topic@) && *consumer
                    == self@[topic@].consumer,
                None => !self@.contains_key(topic@),
            },
    {
        match self.position(topic) {
            Some(i) => Some(&self.members[i].consumer),
            None => None,
        }
    }

    /// Where the consumer of `topic` has to be set back to before it drains again.
    pub fn behind(&self, topic: &str) -> (offsets: Option<&BTreeMap<i32, i64>>)
        requires
            self.wf(),
        ensures
            match offsets {
                Some(offsets) => self@.contains_key(topic@) && offsets@ == self@[topic@].behind,
                None => !self@.contains_key(topic@),
            },
    {
        match self.position(topic) {
            Some(i) => Some(&self.members[i].behind),
            None => None,
        }
    }

    /// Keeps `consumer` as that of `topic`, in place of one that it had. It has
    /// nothing to consume again.
    pub fn remember(&mut self, topic: &str, consumer: C)
        requires
            old(self).wf(),
        ensures
            final(self).wf(),
            final(self)@ == old(self)@.insert(
                topic@,
                Cached { consumer, behind: Map::<i32, i64>::empty() },
            ),
    {
        let ghost before = *self;
        let member = Member { topic: topic.to_owned(), consumer, behind: BTreeMap::new() };
        let ghost shown = member.shown();
        match self.position(topic) {
            Some(i) => {
                self.members.set(i, member);
                proof {
                    before.lemma_replaced(*self, i as int);
                }
            },
            None => {
                self.members.push(member);
                proof {
                    let expected = before@.insert(topic@, shown);
                    assert forall|i: int| 0 <= i < self.members@.len() implies expected.contains_key(
                        (#[trigger] self.members@[i]).topic@,
                    ) && expected[self.members@[i].topic@] == self.members@[i].shown() by {
                        if i < before.members@.len() {
                            before.lemma_member(i);
                            assert(!before.is_at(topic@, i));
                        }
                    }
                    assert forall|t: Seq<char>| #[trigger]
                        expected.contains_key(t) implies exists|i: int| self.is_at(t, i) by {
                        if t == topic@ {
                            assert(self.is_at(t, self.members@.len() - 1));
                        } else {
                            let i = choose|i: int| before.is_at(t, i);
                            assert(self.is_at(t, i));
                        }
                    }
                    assert forall|i: int, j: int| 0 <= i < j < self.members@.len() implies (
                    #[trigger] self.members@[i]).topic@ != (#[trigger] self.members@[j]).topic@ by {
                        assert(!before.is_at(topic@, i));
                    }
                    self.lemma_shows(expected);
                }
            },
        }
    }

    /// One member was replaced by another of the same topic.
    proof fn lemma_replaced(self, after: ConsumerCache<C>, at: int)
        requires
            self.wf(),
            0 <= at < self.members@.len(),
            after.members@ == self.members@.update(at, after.members@[at]),
            after.members@[at].topic@ == self.members@[at].topic@,
        ensures
            after.wf(),
            after@ == self@.insert(self.members@[at].topic@, after.members@[at].shown()),
    {
        let topic = self.members@[at].topic@;
        let expected = self@.insert(topic, after.members@[at].shown());
        assert forall|i: int| 0 <= i < after.members@.len() implies after.members@[i].topic@ == (
        #[trigger] self.members@[i]).topic@ by {}
        assert forall|i: int, j: int| 0 <= i < j < after.members@.len() implies (
        #[trigger] after.members@[i]).topic@ != (#[trigger] after.members@[j]).topic@ by {
            assert(self.members@[i].topic@ != self.members@[j].topic@);
        }
        assert forall|i: int| 0 <= i < after.members@.len() implies expected.contains_key(
            (#[trigger] after.members@[i]).topic@,
        ) && expected[after.members@[i].topic@] == after.members@[i].shown() by {
            self.lemma_member(i);
            if i < at {
                assert(self.members@[i].topic@ != self.members@[at].topic@);
            } else if at < i {
                assert(self.members@[at].topic@ != self.members@[i].topic@);
            }
        }
        assert forall|t: Seq<char>| #[trigger] expected.contains_key(t) implies exists|i: int|
            after.is_at(t, i) by {
            if t == topic {
                assert(after.is_at(t, at));
            } else {
                let i = choose|i: int| self.is_at(t, i);
                assert(self.members@[i].topic@ == t);
                assert(after.is_at(t, i));
            }
        }
        after.lemma_shows(expected);
    }

    /// Notes where the consumer of `topic` has to be set back to before it drains
    /// again; with no offsets, that it has caught up. The consumer stays.
    pub fn set_behind(&mut self, topic: &str, offsets: BTreeMap<i32, i64>)
        requires
            old(self).wf(),
        ensures
            final(self).wf(),
            final(self)@ == if old(self)@.contains_key(topic@) {
                old(self)@.insert(
                    topic@,
                    Cached { consumer: old(self)@[topic@].consumer, behind: offsets@ },
                )
            } else {
                old(self)@
            },
    {
        let ghost before = *self;
        if let Some(i) = self.position(topic) {
            let member = self.members.remove(i);
            let Member { topic: name, consumer, behind: _ } = member;
            self.members.insert(i, Member { topic: name, consumer, behind: offsets });
            proof {
                assert(self.members@ == before.members@.update(i as int, self.members@[i as int]));
                before.lemma_replaced(*self, i as int);
            }
        }
    }

    /// Gives the consumer of `topic` up and hands it out to be closed: the next
    /// window has to connect a new one, which starts at the committed offsets.
    pub fn forget(&mut self, topic: &str) -> (forgotten: Option<C>)
        requires
            old(self).wf(),
        ensures
            final(self).wf(),
            final(self)@ == old(self)@.remove(topic@),
            match forgotten {
                Some(consumer) => old(self)@.contains_key(topic@) && consumer
                    == old(self)@[topic@].consumer,
                None => !old(self)@.contains_key(topic@),
            },
    {
        let ghost before = *self;
        match self.position(topic) {
            Some(at) => {
                let member = self.members.remove(at);
                proof {
                    let expected = before@.remove(topic@);
                    let after = self.members@;
                    let back = |i: int| if i < at { i } else { i + 1 };
                    assert forall|i: int| 0 <= i < after.len() implies #[trigger] after[i]
                        == before.members@[back(i)] by {}
                    assert forall|i: int, j: int| 0 <= i < j < after.len() implies (
                    #[trigger] after[i]).topic@ != (#[trigger] after[j]).topic@ by {
                        assert(before.members@[back(i)].topic@ != before.members@[back(j)].topic@);
                    }
                    assert forall|i: int| 0 <= i < after.len() implies expected.contains_key(
                        (#[trigger] after[i]).topic@,
                    ) && expected[after[i].topic@] == after[i].shown() by {
                        before.lemma_member(back(i));
                        if i < at {
                            assert(before.members@[i].topic@ != before.members@[at as int].topic@);
                        } else {
                            assert(before.members@[at as int].topic@ != before.members@[i
                                + 1].topic@);
                        }
                    }
                    assert forall|t: Seq<char>| #[trigger]
                        expected.contains_key(t) implies exists|i: int| self.is_at(t, i) by {
                        let i = choose|i: int| before.is_at(t, i);
                        assert(before.is_at(t, i) && i != at);
                        let k = if i < at { i } else { i - 1 };
                        assert(after[k] == before.members@[back(k)]);
                        assert(self.is_at(t, k));
                    }
                    self.lemma_shows(expected);
                }
                Some(member.consumer)
            },
            None => {
                assert(before@.remove(topic@) =~= before@);
                None
            },
        }
    }

    /// Takes every consumer out, so that each can be closed.
    pub fn take_members(&mut self) -> (members: Vec<(String, C)>)
        requires
            old(self).wf(),
        ensures
            final(self).wf(),
            final(self)@ == Map::<Seq<char>, Cached<C>>::empty(),
            forall|i: int, j: int|
                0 <= i < j < members@.len() ==> (#[trigger] members@[i]).0@ != (
                #[trigger] members@[j]).0@,
            forall|i: int|
                0 <= i < members@.len() ==> old(self)@.contains_key((#[trigger] members@[i]).0@)
                    && members@[i].1 == old(self)@[members@[i].0@].consumer,
            forall|topic: Seq<char>| #[trigger]
                old(self)@.contains_key(topic) ==> exists|i: int|
                    0 <= i < members@.len() && (#[trigger] members@[i]).0@ == topic,
    {
        let ghost before = *self;
        let mut taken: Vec<Member<C>> = Vec::new();
        std::mem::swap(&mut taken, &mut self.members);
        proof {
            self.lemma_shows(Map::empty());
        }
        let ghost all = taken@;
        let mut members: Vec<(String, C)> = Vec::new();
        while taken.len() > 0
            invariant
                taken@.len() + members@.len() == all.len(),
                taken@ == all.take(taken@.len() as int),
                forall|i: int|
                    0 <= i < members@.len() ==> (#[trigger] members@[i]).0 == all[all.len() - 1
                        - i].topic && members@[i].1 == all[all.len() - 1 - i].consumer,
            decreases taken@.len(),
        {
            match taken.pop() {
                Some(member) => {
                    let Member { topic, consumer, behind: _ } = member;
                    members.push((topic, consumer));
                },
                None => {},
            }
        }
        proof {
            assert forall|i: int, j: int| 0 <= i < j < members@.len() implies (
            #[trigger] members@[i]).0@ != (#[trigger] members@[j]).0@ by {
                assert(before.members@[all.len() - 1 - j].topic@ != before.members@[all.len() - 1
                    - i].topic@);
            }
            assert forall|i: int| 0 <= i < members@.len() implies before@.contains_key(
                (#[trigger] members@[i]).0@,
            ) && members@[i].1 == before@[members@[i].0@].consumer by {
                before.lemma_member(all.len() - 1 - i);
            }
            assert forall|topic: Seq<char>| #[trigger]
                before@.contains_key(topic) implies exists|i: int|
                0 <= i < members@.len() && (#[trigger] members@[i]).0@ == topic by {
                let k = choose|k: int| before.is_at(topic, k);
                assert(members@[all.len() - 1 - k].0@ == topic);
            }
        }
        members
    }
}

// ---------------------------------------------------------------------------
// The loop
// ---------------------------------------------------------------------------
/// Each of `topics` once, in the order of their first occurrence.
pub open spec fn distinct(topics: Seq<Seq<char>>) -> Seq<Seq<char>>
    decreases topics.len(),
{
    if topics.len() == 0 {
        Seq::empty()
    } else {
        let before = distinct(topics.drop_last());
        if before.contains(topics.last()) {
            before
        } else {
            before.push(topics.last())
        }
    }
}

/// The topics of a window: each configured topic once, so that no two tasks of a
/// window share a consumer.
pub fn window_topics(topics: &Vec<String>) -> (unique: Vec<String>)
    ensures
        text::views(unique@) == distinct(text::views(topics@)),
{
    let mut unique: Vec<String> = Vec::new();
    let ghost all = text::views(topics@);
    let n: usize = topics.len();
    let mut i: usize = 0;
    assert(text::views(unique@) == distinct(all.take(0)));
    while i < n
        invariant
            n == topics.len(),
            i <= n,
            all == text::views(topics@),
            text::views(unique@) == distinct(all.take(i as int)),
        decreases n - i,
    {
        assert(all.take(i + 1).drop_last() == all.take(i as int));
        let ghost before = text::views(unique@);
        if !holds_text(&unique, topics[i].as_str()) {
            unique.push(topics[i].clone());
            assert(text::views(unique@) == before.push(all[i as int]));
        }
        i = i + 1;
    }
    assert(all.take(n as int) == all);
    unique
}

fn holds_text(strings: &Vec<String>, wanted: &str) -> (holds: bool)
    ensures
        holds == text::views(strings@).contains(wanted@),
{
    let ghost all = text::views(strings@);
    let owned = wanted.to_owned();
    let n: usize = strings.len();
    let mut i: usize = 0;
    while i < n
        invariant
            n == strings.len(),
            i <= n,
            all == text::views(strings@),
            owned@ == wanted@,
            forall|k: int| 0 <= k < i ==> all[k] != wanted@,
        decreases n - i,
    {
        if strings[i] == owned {
            assert(all[i as int] == wanted@);
            return true;
        }
        i = i + 1;
    }
    false
}

/// A window has no topic twice, and leaves none out.
pub proof fn law_window_topics_are_unique(topics: Seq<Seq<char>>)
    ensures
        distinct(topics).no_duplicates(),
        forall|topic: Seq<char>|
            #![trigger distinct(topics).contains(topic)]
            #![trigger topics.contains(topic)]
            distinct(topics).contains(topic) <==> topics.contains(topic),
    decreases topics.len(),
{
    if topics.len() > 0 {
        let shorter = topics.drop_last();
        let before = distinct(shorter);
        law_window_topics_are_unique(shorter);
        assert(topics == shorter.push(topics.last()));
        assert forall|topic: Seq<char>|
            #![trigger distinct(topics).contains(topic)]
            #![trigger topics.contains(topic)]
            distinct(topics).contains(topic) <==> topics.contains(topic) by {
            if topics.contains(topic) {
                let i = choose|i: int| 0 <= i < topics.len() && topics[i] == topic;
                if i < shorter.len() {
                    assert(shorter[i] == topic);
                    assert(shorter.contains(topic) && distinct(shorter).contains(topic));
                    let j = choose|j: int| 0 <= j < before.len() && before[j] == topic;
                    assert(distinct(topics)[j] == topic);
                } else if !before.contains(topic) {
                    assert(distinct(topics).last() == topic);
                }
            }
            if distinct(topics).contains(topic) {
                let j = choose|j: int|
                    0 <= j < distinct(topics).len() && distinct(topics)[j] == topic;
                if j < before.len() {
                    assert(before[j] == topic);
                    assert(shorter.contains(topic));
                    let i = choose|i: int| 0 <= i < shorter.len() && shorter[i] == topic;
                    assert(topics[i] == topic);
                } else {
                    assert(topics[topics.len() - 1] == topic);
                }
            }
        }
    }
}

/// The run of windows, back to back until the shutdown signal.
#[derive(Debug, Clone, Copy, PartialEq, Eq, Structural)]
pub struct RunLoop {
    /// The number of the current window cycle, from one.
    pub cycle: u64,
    /// Whether the loop goes on.
    pub active: bool,
}

/// What ended the wait for a window cycle.
#[derive(Debug, Clone, Copy, PartialEq, Eq, Structural)]
pub enum CycleEvent {
    /// Every topic of the window is done.
    WindowComplete,
    /// The shutdown signal came first; the window's tasks are dropped.
    Shutdown,
}

impl RunLoop {
    /// The first cycle.
    pub fn start() -> (run: RunLoop)
        ensures
            run == (RunLoop { cycle: 1, active: true }),
    {
        RunLoop { cycle: 1, active: true }
    }

    /// The loop after a cycle: the next cycle, or its end at the signal.
    pub fn after(self, event: CycleEvent) -> (run: RunLoop)
        requires
            self.active,
            event is WindowComplete ==> self.cycle < u64::MAX,
        ensures
            run == match event {
                CycleEvent::WindowComplete => RunLoop {
                    cycle: (self.cycle + 1) as u64,
                    active: true,
                },
                CycleEvent::Shutdown => RunLoop { cycle: self.cycle, active: false },
            },
    {
        match event {
            CycleEvent::WindowComplete => RunLoop { cycle: self.cycle + 1, active: true },
            CycleEvent::Shutdown => RunLoop { cycle: self.cycle, active: false },
        }
    }
}

} // verus!
