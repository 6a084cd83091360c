//! What single operations promise of every call, in terms of what went in and what
//! came out.

use crate::backfill::{
    advance, sync_window, window_topics, ConsumerCache, CycleEvent, RunLoop, SyncAction, SyncEvent,
    SyncState,
};
use crate::calendar::{law_dates_are_gregorian, WindowStart};
use crate::config::{
    config_file_path, load_config_file, reads_dotenv, required, required_list, FileRead,
    FileSettings, ProviderTag, StorageProvider,
};
use crate::error::{BackfillError, ConfigError, KafkaError, StorageError};
use crate::kafka::{
    build_commit_list, build_rewind_list, consumer_config, elements, next_receive, open_window,
    parameters, received, CommitAction, CommitReply, ConnectReply, ConsumedBatch, DrainAction,
    DrainEvent, Element, KafkaConsumer, RewindAction, SeekReply,
};
use crate::key_laws::law_keys_read_back;
use crate::object_key::{ascending_entries, fnv1a_64, object_key, window_key};
use crate::settings_laws::law_file_names;
use crate::storage::filesystem::{
    safe_join, segments, FileSystemStore, PathStyle, PutAction, PutPlan, PutStage,
};
use crate::storage::filesystem_laws::{
    law_objects_stand_below_the_root, law_safe_keys, needs_no_separator, starts_verbatim,
};
use crate::storage::gcs::GcsStore;
use crate::storage::put_outcome;
use crate::storage::s3::S3Store;
use crate::text;
use crate::text_laws::is_form_of;
use crate::window_laws::{
    law_client_parameters, law_commit_follows_the_assignment, law_listing_is_the_map,
    law_messages_are_counted_in, law_record_adds_its_value, law_rewind_follows_the_assignment,
};
use rdkafka::config::ClientConfig;
use rdkafka::error::KafkaError as ClientError;
use rdkafka::topic_partition_list::TopicPartitionList;
use std::collections::BTreeMap;
use vstd::prelude::*;
use vstd::utf8::encode_utf8;

verus! {

// ---------------------------------------------------------------------------
// Windows
// ---------------------------------------------------------------------------
/// A window opens empty, and receives unless it has no room at all.
pub proof fn law_windows_open_empty(max_bytes: usize, opened: (ConsumedBatch, DrainAction))
    requires
        call_ensures(open_window, (max_bytes,), opened),
    ensures
        opened.0.payload@.len() == 0,
        opened.0.message_count == 0,
        forall|p: i32| !#[trigger] opened.0.partition_offsets@.contains_key(p),
        forall|p: i32| !#[trigger] opened.0.first_offsets@.contains_key(p),
        max_bytes > 0 ==> opened.1 == DrainAction::Receive,
        max_bytes == 0 ==> opened.1 == DrainAction::Close,
{
}

/// A window whose time is over closes, and any other does what it was about to.
pub proof fn law_time_closes_windows(action: DrainAction, elapsed: bool, next: DrainAction)
    requires
        call_ensures(next_receive, (action, elapsed), next),
    ensures
        elapsed ==> next == DrainAction::Close,
        !elapsed ==> next == action,
{
}

/// Every record that is counted in adds its value, whole, and a newline, or nothing if it
/// has none; it is one message more; and it raises the highest and lowers the lowest
/// offset of its partition where it has to, and of no other.
pub proof fn law_absorbed_records(
    batch: &mut ConsumedBatch,
    value: Option<&[u8]>,
    partition: i32,
    offset: i64,
)
    requires
        call_ensures(ConsumedBatch::absorb, (batch, value, partition, offset), ()),
    ensures
        value matches Some(bytes) ==> final(batch).payload@ == old(batch).payload@ + bytes@ + seq![
            10u8,
        ],
        value is None ==> final(batch).payload@ == old(batch).payload@,
        final(batch).message_count == old(batch).message_count + 1,
        final(batch).partition_offsets@.contains_key(partition),
        final(batch).partition_offsets@[partition] >= offset,
        final(batch).first_offsets@.contains_key(partition),
        final(batch).first_offsets@[partition] <= offset,
        forall|p: i32|
            p != partition ==> {
                &&& #[trigger] final(batch).partition_offsets@.contains_key(p)
                    == old(batch).partition_offsets@.contains_key(p)
                &&& final(batch).partition_offsets@[p] == old(batch).partition_offsets@[p]
            },
        forall|p: i32|
            p != partition ==> {
                &&& #[trigger] final(batch).first_offsets@.contains_key(p)
                    == old(batch).first_offsets@.contains_key(p)
                &&& final(batch).first_offsets@[p] == old(batch).first_offsets@[p]
            },
{
    law_record_adds_its_value(Seq::empty(), received(value, partition, offset));
    if let Some(bytes) = value {
        assert(final(batch).payload@ == old(batch).payload@ + bytes@ + seq![10u8]);
    } else {
        assert(final(batch).payload@ == old(batch).payload@);
    }
}

/// Every event leaves a window with what it had and, after a message, the message's value
/// and a newline; it closes at the bound and at the end of its time.
pub proof fn law_drained_windows<C>(
    consumer: &KafkaConsumer<C>,
    batch: &mut ConsumedBatch,
    max_bytes: usize,
    event: DrainEvent<'_>,
    action: DrainAction,
)
    requires
        call_ensures(
            KafkaConsumer::<C>::drain_window,
            (consumer, batch, max_bytes, event),
            action,
        ),
    ensures
        match event {
            DrainEvent::Elapsed => *final(batch) == *old(batch) && action == DrainAction::Close,
            DrainEvent::Failed => *final(batch) == *old(batch) && action == (DrainAction::BackOff {
                millis: 250,
            }),
            DrainEvent::Message { value: Some(bytes), .. } => final(batch).payload@
                == old(batch).payload@ + bytes@ + seq![10u8],
            DrainEvent::Message { value: None, .. } => final(batch).payload@ == old(batch).payload@,
        },
        event is Message ==> {
            &&& final(batch).message_count == old(batch).message_count + 1
            &&& final(batch).payload@.len() >= max_bytes ==> action == DrainAction::Close
            &&& final(batch).payload@.len() < max_bytes ==> action == DrainAction::Receive
        },
{
    if let DrainEvent::Message { value, partition, offset } = event {
        law_messages_are_counted_in(
            *old(batch),
            max_bytes as int,
            value,
            partition,
            offset,
            *final(batch),
            action,
        );
    }
}

/// Every call that begins a window with a value asks for the upload of the whole
/// payload, whatever its size; without a value, for the commit; and without a message
/// the window is over.
pub proof fn law_begun_windows_upload(
    topic: &str,
    start: &WindowStart,
    batch: ConsumedBatch,
    next: (SyncState, SyncAction),
)
    requires
        call_ensures(sync_window, (topic, start, batch), next),
    ensures
        batch.message_count > 0 && batch.payload@.len() > 0 ==> {
            &&& next.1 is Upload
            &&& next.1->payload@ == batch.payload@
            &&& next.1->key@ == window_key(topic@, *start, batch.partition_offsets@)
            &&& next.0 is Uploading
            &&& next.0->partition_offsets == batch.partition_offsets
            &&& next.0->Uploading_first_offsets == batch.first_offsets
        },
        batch.message_count > 0 && batch.payload@.len() == 0 ==> {
            &&& next.1 is Commit
            &&& next.1->partition_offsets == batch.partition_offsets
            &&& next.0 is Committing
            &&& next.0->Committing_first_offsets == batch.first_offsets
        },
        batch.message_count == 0 ==> next.0 is Finished && next.1 == SyncAction::Finish(
            Ok::<(), BackfillError>(()),
        ),
{
}

/// Every call that goes on with a window takes the one step that the answer leaves.
pub proof fn law_windows_step_by_step(
    state: SyncState,
    event: SyncEvent,
    next: (SyncState, SyncAction),
)
    requires
        call_ensures(advance, (state, event), next),
        event.answers(state),
    ensures
        match event {
            SyncEvent::Uploaded => {
                &&& next.0 is Committing
                &&& next.0->Committing_first_offsets == state->Uploading_first_offsets
                &&& next.1 is Commit
                &&& next.1->partition_offsets == state->partition_offsets
            },
            SyncEvent::UploadFailed(error) => {
                &&& next.0 == (SyncState::Rewinding { error: BackfillError::Storage(error) })
                &&& next.1 is Rewind
                &&& next.1->Rewind_first_offsets == state->Uploading_first_offsets
            },
            SyncEvent::Committed => {
                &&& next.0 is Finished
                &&& next.1 == SyncAction::Finish(Ok::<(), BackfillError>(()))
            },
            SyncEvent::CommitFailed(error) => {
                &&& next.0 == (SyncState::Rewinding { error: BackfillError::Kafka(error) })
                &&& next.1 is Rewind
                &&& next.1->Rewind_first_offsets == state->Committing_first_offsets
            },
            SyncEvent::Rewound => {
                &&& next.0 is Finished
                &&& next.1 == SyncAction::Finish(Err::<(), BackfillError>(state->error))
            },
        },
{
}

/// A window has each configured topic, and none twice.
pub proof fn law_windows_have_each_topic(topics: &Vec<String>, unique: Vec<String>)
    requires
        call_ensures(window_topics, (topics,), unique),
    ensures
        forall|i: int, j: int|
            0 <= i < j < unique@.len() ==> (#[trigger] unique@[i])@ != (#[trigger] unique@[j])@,
        forall|i: int|
            0 <= i < topics@.len() ==> exists|j: int|
                0 <= j < unique@.len() && (#[trigger] unique@[j])@ == (#[trigger] topics@[i])@,
        forall|j: int|
            0 <= j < unique@.len() ==> exists|i: int|
                0 <= i < topics@.len() && (#[trigger] topics@[i])@ == (#[trigger] unique@[j])@,
{
    let all = text::views(topics@);
    let kept = text::views(unique@);
    crate::backfill::law_window_topics_are_unique(all);
    assert forall|i: int, j: int| 0 <= i < j < unique@.len() implies (#[trigger] unique@[i])@ != (
    #[trigger] unique@[j])@ by {
        assert(kept[i] != kept[j]);
    }
    assert forall|i: int| 0 <= i < topics@.len() implies exists|j: int|
        0 <= j < unique@.len() && (#[trigger] unique@[j])@ == (#[trigger] topics@[i])@ by {
        assert(all.contains(all[i]));
        let j = choose|j: int| 0 <= j < kept.len() && kept[j] == all[i];
        assert(unique@[j]@ == topics@[i]@);
    }
    assert forall|j: int| 0 <= j < unique@.len() implies exists|i: int|
        0 <= i < topics@.len() && (#[trigger] topics@[i])@ == (#[trigger] unique@[j])@ by {
        assert(kept.contains(kept[j]));
        let i = choose|i: int| 0 <= i < all.len() && all[i] == kept[j];
        assert(topics@[i]@ == unique@[j]@);
    }
}

// ---------------------------------------------------------------------------
// Consumers
// ---------------------------------------------------------------------------
/// A consumer that is kept is found again under its topic, with nothing to consume again;
/// those of the other topics stay.
pub proof fn law_kept_consumers_are_found<C>(
    cache: &mut ConsumerCache<C>,
    topic: &str,
    consumer: C,
    found: Option<&C>,
    behind: Option<&BTreeMap<i32, i64>>,
)
    requires
        call_ensures(ConsumerCache::<C>::remember, (cache, topic, consumer), ()),
        call_ensures(ConsumerCache::<C>::cached_consumer, (&*final(cache), topic), found),
        call_ensures(ConsumerCache::<C>::behind, (&*final(cache), topic), behind),
    ensures
        found == Some(&consumer),
        behind is Some,
        forall|p: i32| !#[trigger] behind->0@.contains_key(p),
        forall|other: Seq<char>|
            other != topic@ ==> {
                &&& #[trigger] final(cache)@.contains_key(other) == old(cache)@.contains_key(other)
                &&& final(cache)@[other] == old(cache)@[other]
            },
{
}

/// Offsets that are noted for a topic are found again under it, and its consumer stays, as
/// do all of the others.
pub proof fn law_noted_offsets_are_found<C>(
    cache: &mut ConsumerCache<C>,
    topic: &str,
    offsets: BTreeMap<i32, i64>,
    behind: Option<&BTreeMap<i32, i64>>,
)
    requires
        call_ensures(ConsumerCache::<C>::set_behind, (cache, topic, offsets), ()),
        call_ensures(ConsumerCache::<C>::behind, (&*final(cache), topic), behind),
    ensures
        old(cache)@.contains_key(topic@) ==> {
            &&& behind is Some
            &&& behind->0@ == offsets@
            &&& final(cache)@[topic@].consumer == old(cache)@[topic@].consumer
        },
        forall|other: Seq<char>|
            {
                &&& #[trigger] final(cache)@.contains_key(other) == old(cache)@.contains_key(other)
                &&& other != topic@ ==> final(cache)@[other] == old(cache)@[other]
            },
{
}

/// A consumer that is given up is handed out, and not found again; those of the other
/// topics stay.
pub proof fn law_forgotten_consumers_are_gone<C>(
    cache: &mut ConsumerCache<C>,
    topic: &str,
    forgotten: Option<C>,
    found: Option<&C>,
)
    requires
        call_ensures(ConsumerCache::<C>::forget, (cache, topic), forgotten),
        call_ensures(ConsumerCache::<C>::cached_consumer, (&*final(cache), topic), found),
    ensures
        found is None,
        forgotten is Some <==> old(cache)@.contains_key(topic@),
        forgotten is Some ==> forgotten->0 == old(cache)@[topic@].consumer,
        forall|other: Seq<char>|
            other != topic@ ==> {
                &&& #[trigger] final(cache)@.contains_key(other) == old(cache)@.contains_key(other)
                &&& final(cache)@[other] == old(cache)@[other]
            },
{
}

/// Every consumer is taken out once, under its topic, and none is left.
pub proof fn law_members_are_taken_once<C>(
    cache: &mut ConsumerCache<C>,
    members: Vec<(String, C)>,
    topic: Seq<char>,
)
    requires
        call_ensures(ConsumerCache::<C>::take_members, (cache,), members),
    ensures
        !final(cache)@.contains_key(topic),
        old(cache)@.contains_key(topic) <==> exists|i: int|
            0 <= i < members@.len() && (#[trigger] members@[i]).0@ == topic,
        forall|i: int|
            0 <= i < members@.len() && (#[trigger] members@[i]).0@ == topic ==> members@[i].1
                == old(cache)@[topic].consumer,
        forall|i: int, j: int|
            0 <= i < j < members@.len() ==> (#[trigger] members@[i]).0@ != (
            #[trigger] members@[j]).0@,
{
}

/// A new cache has no consumer.
pub proof fn law_new_caches_are_empty<C>(cache: ConsumerCache<C>, topic: Seq<char>)
    requires
        call_ensures(ConsumerCache::<C>::new, (), cache),
    ensures
        cache.wf(),
        !cache@.contains_key(topic),
{
}

// ---------------------------------------------------------------------------
// The run
// ---------------------------------------------------------------------------
/// The run starts with the first cycle.
pub proof fn law_runs_start_at_one(run: RunLoop)
    requires
        call_ensures(RunLoop::start, (), run),
    ensures
        run.active,
        run.cycle == 1,
{
}

/// The run goes on with the next cycle after a window, and ends at the signal.
pub proof fn law_runs_count_cycles(before: RunLoop, event: CycleEvent, after: RunLoop)
    requires
        call_ensures(RunLoop::after, (before, event), after),
    ensures
        event is WindowComplete && before.cycle < u64::MAX ==> after.active && after.cycle
            == before.cycle + 1,
        event is Shutdown ==> !after.active && after.cycle == before.cycle,
{
}

// ---------------------------------------------------------------------------
// Keys and dates
// ---------------------------------------------------------------------------
/// Every key that is made is read back: year, month, day and topic, segment by segment.
pub proof fn law_made_keys_read_back(
    topic: &str,
    start: &WindowStart,
    offsets: &BTreeMap<i32, i64>,
    key: String,
)
    requires
        call_ensures(object_key, (topic, start, offsets), key),
    ensures
        ({
            let parts = text::split(key@, '/');
            &&& parts.len() >= 5
            &&& is_form_of(parts[0], start.year as int, 4)
            &&& is_form_of(parts[1], start.month as int, 2)
            &&& is_form_of(parts[2], start.day as int, 2)
            &&& text::joined(parts.subrange(3, parts.len() - 1), seq!['/']) == topic@
        }),
{
    law_keys_read_back(topic@, *start, offsets@);
}

/// The listing of a map is ascending, and has exactly the map's pairs.
pub proof fn law_listings_are_ascending(
    offsets: &BTreeMap<i32, i64>,
    entries: Vec<(i32, i64)>,
    entry: (i32, i64),
)
    requires
        call_ensures(ascending_entries, (offsets,), entries),
    ensures
        forall|i: int, j: int|
            0 <= i < j < entries@.len() ==> (#[trigger] entries@[i]).0 < (#[trigger] entries@[j]).0,
        entries@.contains(entry) <==> offsets@.contains_key(entry.0) && offsets@[entry.0]
            == entry.1,
{
    law_listing_is_the_map(offsets@, entry);
}

/// Two hashes are equal where the bytes are, and one byte more mixes it in.
pub proof fn law_hashes_mix_each_byte(bytes: &[u8], longer: &[u8], hash: u64, next: u64)
    requires
        call_ensures(fnv1a_64, (bytes,), hash),
        call_ensures(fnv1a_64, (longer,), next),
        longer@.len() == bytes@.len() + 1,
        longer@.drop_last() == bytes@,
    ensures
        next == ((hash ^ (longer@.last() as u64)) * 1_099_511_628_211) % 0x1_0000_0000_0000_0000,
        bytes@.len() == 0 ==> hash == 14_695_981_039_346_656_037,
{
    assert(longer@ == bytes@.push(longer@.last()));
    crate::key_laws::law_hash_is_fnv1a(bytes@, longer@.last());
    if bytes@.len() == 0 {
        assert(bytes@ == Seq::<u8>::empty());
    }
}

/// A time has a date exactly from the first second of the calendar to its last, and the
/// date is one of the calendar, on the day that holds the time.
pub proof fn law_times_have_dates(unix_secs: i64, start: Option<WindowStart>)
    requires
        call_ensures(WindowStart::at, (unix_secs,), start),
    ensures
        start is Some <==> unix_secs + 8_334_601_228_800 >= 0 && unix_secs <= 8_210_266_876_799,
        start matches Some(date) ==> {
            &&& 1 <= date.month <= 12
            &&& 1 <= date.day <= 31
            &&& date.day_number() * 86_400 <= unix_secs < (date.day_number() + 1) * 86_400
        },
{
    if let Some(date) = start {
        law_dates_are_gregorian(date);
    }
}

// ---------------------------------------------------------------------------
// The client
// ---------------------------------------------------------------------------
/// Every client that is configured has the brokers, all of them, the group, and offsets
/// that it neither stores nor commits by itself.
pub proof fn law_configured_clients(brokers: &Vec<String>, group: &str, config: ClientConfig)
    requires
        call_ensures(consumer_config, (brokers, group), config),
    ensures
        parameters(config).contains_pair(
            "bootstrap.servers"@,
            text::joined(text::views(brokers@), seq![',']),
        ),
        parameters(config).contains_pair("group.id"@, group@),
        parameters(config).contains_pair("client.id"@, "kafka-sync"@),
        parameters(config).contains_pair("enable.partition.eof"@, "false"@),
        parameters(config).contains_pair("enable.auto.commit"@, "false"@),
        parameters(config).contains_pair("enable.auto.offset.store"@, "false"@),
        parameters(config).contains_pair("auto.offset.reset"@, "earliest"@),
{
    let all = text::views(brokers@);
    law_client_parameters(all, group@, "bootstrap.servers"@, text::joined(all, seq![',']));
    law_client_parameters(all, group@, "group.id"@, group@);
    law_client_parameters(all, group@, "client.id"@, "kafka-sync"@);
    law_client_parameters(all, group@, "enable.partition.eof"@, "false"@);
    law_client_parameters(all, group@, "enable.auto.commit"@, "false"@);
    law_client_parameters(all, group@, "enable.auto.offset.store"@, "false"@);
    law_client_parameters(all, group@, "auto.offset.reset"@, "earliest"@);
}

/// Every commit list that is built has an element for a partition exactly if the
/// partition was consumed, and the assignment has an element with the bytes of the topic
/// and that partition.
pub proof fn law_built_commits_follow_the_assignment(
    assignment: &TopicPartitionList,
    topic: &str,
    offsets: &BTreeMap<i32, i64>,
    built: Result<TopicPartitionList, KafkaError>,
    element: Element,
)
    requires
        call_ensures(build_commit_list, (assignment, topic, offsets), built),
    ensures
        built matches Ok(list) ==> (elements(list).contains(element) <==> {
            &&& element.0 == encode_utf8(topic@)
            &&& offsets@.contains_key(element.1)
            &&& element.2 == if offsets@[element.1] == i64::MAX {
                i64::MAX as int
            } else {
                offsets@[element.1] + 1
            }
            &&& forall|k: int| 0 <= k < topic@.len() ==> #[trigger] topic@[k] != '\0'
            &&& exists|i: int|
                0 <= i < elements(*assignment).len() && (#[trigger] elements(*assignment)[i]).0
                    == encode_utf8(topic@) && elements(*assignment)[i].1 == element.1
        }),
        built matches Err(error) ==> error is CommitList && error->CommitList_topic@ == topic@,
        (forall|p: i32| #[trigger] offsets@.contains_key(p) ==> offsets@[p] >= -1) ==> built is Ok,
{
    law_commit_follows_the_assignment(elements(*assignment), topic@, offsets@, element);
    crate::window_laws::law_commits_refuse_negative_offsets(
        elements(*assignment),
        topic@,
        offsets@,
    );
}

/// Every list to set a consumer back with has an element for a partition exactly if the
/// partition was consumed, and the assignment has an element with the bytes of the topic
/// and that partition.
pub proof fn law_built_rewinds_follow_the_assignment(
    assignment: &TopicPartitionList,
    topic: &str,
    offsets: &BTreeMap<i32, i64>,
    built: Result<TopicPartitionList, KafkaError>,
    element: Element,
)
    requires
        call_ensures(build_rewind_list, (assignment, topic, offsets), built),
    ensures
        built matches Ok(list) ==> (elements(list).contains(element) <==> {
            &&& element.0 == encode_utf8(topic@)
            &&& offsets@.contains_key(element.1)
            &&& element.2 == offsets@[element.1]
            &&& forall|k: int| 0 <= k < topic@.len() ==> #[trigger] topic@[k] != '\0'
            &&& exists|i: int|
                0 <= i < elements(*assignment).len() && (#[trigger] elements(*assignment)[i]).0
                    == encode_utf8(topic@) && elements(*assignment)[i].1 == element.1
        }),
        built matches Err(error) ==> error is Rewind && error->Rewind_topic@ == topic@,
{
    law_rewind_follows_the_assignment(elements(*assignment), topic@, offsets@, element);
}

/// A consumer is connected exactly if its client was created and subscribed; it is that
/// client's, for that topic. A failure is reported with the topic and the cause.
pub proof fn law_consumers_connect<C>(
    topic: &str,
    reply: ConnectReply<C>,
    consumer: Result<KafkaConsumer<C>, KafkaError>,
)
    requires
        call_ensures(KafkaConsumer::<C>::connect, (topic, reply), consumer),
    ensures
        match reply {
            ConnectReply::Subscribed(client) => consumer is Ok && consumer->Ok_0.topic@ == topic@
                && consumer->Ok_0.consumer == client,
            ConnectReply::NotCreated(cause) => consumer matches Err(
                KafkaError::Create { topic: named, source },
            ) && named@ == topic@ && source == cause,
            ConnectReply::NotSubscribed(cause) => consumer matches Err(
                KafkaError::Subscribe { topic: named, source },
            ) && named@ == topic@ && source == cause,
        },
{
}

/// A commit, and setting back, read the assignment exactly if there are offsets; without
/// any they are over with success.
pub proof fn law_offsets_ask_for_the_assignment<C>(
    consumer: &KafkaConsumer<C>,
    offsets: &BTreeMap<i32, i64>,
    commit: CommitAction,
    rewind: RewindAction,
)
    requires
        call_ensures(KafkaConsumer::<C>::commit_offsets, (consumer, offsets), commit),
        call_ensures(KafkaConsumer::<C>::rewind_offsets, (consumer, offsets), rewind),
    ensures
        commit is ReadAssignment <==> exists|p: i32| #[trigger] offsets@.contains_key(p),
        rewind is ReadAssignment <==> exists|p: i32| #[trigger] offsets@.contains_key(p),
        !(commit is ReadAssignment) ==> commit == CommitAction::Finish(Ok::<(), KafkaError>(())),
        !(rewind is ReadAssignment) ==> rewind == RewindAction::Finish(Ok::<(), KafkaError>(())),
{
    if forall|p: i32| !#[trigger] offsets@.contains_key(p) {
        assert(offsets@ =~= Map::<i32, i64>::empty());
    }
    if exists|p: i32| #[trigger] offsets@.contains_key(p) {
        let p = choose|p: i32| #[trigger] offsets@.contains_key(p);
        assert(!offsets@.is_empty());
    }
}

/// With the assignment at hand the consumed and assigned partitions are committed, each
/// with the offset after its highest; an assignment that could not be read is reported.
pub proof fn law_commits_go_to_the_assigned<C>(
    consumer: &KafkaConsumer<C>,
    offsets: &BTreeMap<i32, i64>,
    assignment: Result<TopicPartitionList, ClientError>,
    action: CommitAction,
    element: Element,
)
    requires
        call_ensures(
            KafkaConsumer::<C>::commit_assigned,
            (consumer, offsets, assignment),
            action,
        ),
    ensures
        assignment matches Err(cause) ==> action matches CommitAction::Finish(
            Err(KafkaError::Assignment { topic, source }),
        ) && topic@ == consumer.topic@ && source == cause,
        assignment matches Ok(assigned) ==> (action matches CommitAction::Commit(list) ==> (
        elements(list).contains(element) <==> {
            &&& element.0 == encode_utf8(consumer.topic@)
            &&& offsets@.contains_key(element.1)
            &&& element.2 == if offsets@[element.1] == i64::MAX {
                i64::MAX as int
            } else {
                offsets@[element.1] + 1
            }
            &&& forall|k: int| 0 <= k < consumer.topic@.len() ==> #[trigger] consumer.topic@[k]
                != '\0'
            &&& exists|i: int|
                0 <= i < elements(assigned).len() && (#[trigger] elements(assigned)[i]).0
                    == encode_utf8(consumer.topic@) && elements(assigned)[i].1 == element.1
        })),
        assignment is Ok && (forall|p: i32| #[trigger]
            offsets@.contains_key(p) ==> offsets@[p] >= -1) ==> action is Commit,
{
    if let Ok(assigned) = assignment {
        law_commit_follows_the_assignment(elements(assigned), consumer.topic@, offsets@, element);
        crate::window_laws::law_commits_refuse_negative_offsets(
            elements(assigned),
            consumer.topic@,
            offsets@,
        );
    }
}

/// With the assignment at hand the consumed and assigned partitions are sought, each to
/// its lowest offset; an assignment that could not be read is reported.
pub proof fn law_rewinds_go_to_the_assigned<C>(
    consumer: &KafkaConsumer<C>,
    offsets: &BTreeMap<i32, i64>,
    assignment: Result<TopicPartitionList, ClientError>,
    action: RewindAction,
    element: Element,
)
    requires
        call_ensures(
            KafkaConsumer::<C>::rewind_assigned,
            (consumer, offsets, assignment),
            action,
        ),
    ensures
        assignment matches Err(cause) ==> action matches RewindAction::Finish(
            Err(KafkaError::Assignment { topic, source }),
        ) && topic@ == consumer.topic@ && source == cause,
        assignment matches Ok(assigned) ==> (action matches RewindAction::Seek(list) ==> (elements(
            list,
        ).contains(element) <==> {
            &&& element.0 == encode_utf8(consumer.topic@)
            &&& offsets@.contains_key(element.1)
            &&& element.2 == offsets@[element.1]
            &&& forall|k: int| 0 <= k < consumer.topic@.len() ==> #[trigger] consumer.topic@[k]
                != '\0'
            &&& exists|i: int|
                0 <= i < elements(assigned).len() && (#[trigger] elements(assigned)[i]).0
                    == encode_utf8(consumer.topic@) && elements(assigned)[i].1 == element.1
        })),
{
    if let Ok(assigned) = assignment {
        law_rewind_follows_the_assignment(elements(assigned), consumer.topic@, offsets@, element);
    }
}

/// A commit succeeds exactly if the broker acknowledged it; a failure is reported with the
/// topic and the cause.
pub proof fn law_commits_end_as_answered<C>(
    consumer: &KafkaConsumer<C>,
    reply: CommitReply,
    outcome: Result<(), KafkaError>,
)
    requires
        call_ensures(KafkaConsumer::<C>::commit_outcome, (consumer, reply), outcome),
    ensures
        outcome is Ok <==> reply is Acknowledged,
        reply matches CommitReply::Rejected(cause) ==> outcome matches Err(
            KafkaError::Commit { topic, source },
        ) && topic@ == consumer.topic@ && source == cause,
        reply matches CommitReply::TaskLost(cause) ==> outcome matches Err(
            KafkaError::Join { topic, source },
        ) && topic@ == consumer.topic@ && source == cause,
{
}

/// Setting back succeeds exactly if the client answered, and no partition with an error; a
/// failure is reported with the topic and the first cause.
pub proof fn law_rewinds_end_as_answered<C>(
    consumer: &KafkaConsumer<C>,
    reply: SeekReply,
    outcome: Result<(), KafkaError>,
)
    requires
        call_ensures(KafkaConsumer::<C>::rewind_outcome, (consumer, reply), outcome),
    ensures
        outcome is Ok <==> (reply matches SeekReply::Answered(errors) && errors@.len() == 0),
        reply matches SeekReply::Answered(errors) ==> errors@.len() > 0 ==> (outcome matches Err(
            KafkaError::Rewind { topic, source },
        ) && topic@ == consumer.topic@ && source == errors@[0]),
        reply matches SeekReply::Rejected(cause) ==> outcome matches Err(
            KafkaError::Rewind { topic, source },
        ) && topic@ == consumer.topic@ && source == cause,
        reply matches SeekReply::TaskLost(cause) ==> outcome matches Err(
            KafkaError::Join { topic, source },
        ) && topic@ == consumer.topic@ && source == cause,
{
}

/// A consumer that is shut down hands its client out.
pub proof fn law_shutdown_hands_the_client_out<C>(consumer: KafkaConsumer<C>, client: C)
    requires
        call_ensures(KafkaConsumer::<C>::shutdown, (consumer,), client),
    ensures
        client == consumer.consumer,
{
}

// ---------------------------------------------------------------------------
// Storage
// ---------------------------------------------------------------------------
/// An upload succeeds exactly if it was answered with success; a failure is reported with
/// the location, the key, the size and the cause.
pub proof fn law_uploads_end_as_answered(
    location: &str,
    key: &str,
    size: usize,
    reply: Result<(), String>,
    outcome: Result<(), StorageError>,
)
    requires
        call_ensures(put_outcome, (location, key, size, reply), outcome),
    ensures
        outcome is Ok <==> reply is Ok,
        reply matches Err(cause) ==> outcome matches Err(
            StorageError::PutObject { location: at, key: named, size: bytes, source },
        ) && at@ == location@ && named@ == key@ && bytes == size && source == cause,
{
}

/// The same of the stores in the cloud, under their own location.
pub proof fn law_stores_end_as_answered(
    s3: &S3Store,
    gcs: &GcsStore,
    key: &str,
    size: usize,
    reply: Result<(), String>,
    s3_outcome: Result<(), StorageError>,
    gcs_outcome: Result<(), StorageError>,
)
    requires
        call_ensures(S3Store::put_object, (s3, key, size, reply), s3_outcome),
        call_ensures(GcsStore::put_object, (gcs, key, size, reply), gcs_outcome),
    ensures
        s3_outcome is Ok <==> reply is Ok,
        gcs_outcome is Ok <==> reply is Ok,
        reply matches Err(cause) ==> s3_outcome matches Err(
            StorageError::PutObject { location, key: named, size: bytes, source },
        ) && location@ == s3.location@ && named@ == key@ && bytes == size && source == cause,
        reply matches Err(cause) ==> gcs_outcome matches Err(
            StorageError::PutObject { location, key: named, size: bytes, source },
        ) && location@ == gcs.location@ && named@ == key@ && bytes == size && source == cause,
{
}

/// A store in S3 has the bucket that was given, and the path without the slashes at its
/// ends as the prefix of every key.
pub proof fn law_s3_keys_land_below_the_path(
    bucket: String,
    path: &str,
    store: S3Store,
    key: &str,
    full: String,
)
    requires
        call_ensures(S3Store::connect, (bucket, path), store),
        call_ensures(S3Store::full_key, (&store, key), full),
    ensures
        store.bucket@ == bucket@,
        full@ == text::without_edge_slashes(path@) + seq!['/'] + key@,
        store.location@ == "s3://"@ + bucket@ + seq!['/'] + text::without_edge_slashes(path@),
{
    crate::storage::s3::law_addresses_are_spelled_out(store, key@);
    reveal_strlit("s3://");
    assert("s3://"@ =~= seq!['s', '3', ':', '/', '/']);
}

/// A store that needs something at startup is there exactly if it got it, for the root or
/// the bucket that was given; a failure is reported with the backend and the cause.
pub proof fn law_stores_connect(
    style: PathStyle,
    root: &str,
    bucket: &str,
    reply: Result<(), String>,
    files: Result<FileSystemStore, StorageError>,
    gcs: Result<GcsStore, StorageError>,
)
    requires
        call_ensures(FileSystemStore::connect, (style, root, reply), files),
        call_ensures(GcsStore::connect, (bucket, reply), gcs),
    ensures
        files is Ok <==> reply is Ok,
        gcs is Ok <==> reply is Ok,
        files matches Ok(store) ==> store.style == style && store.root@ == root@ && store.location@
            == "file://"@ + root@,
        gcs matches Ok(store) ==> store.bucket@ == bucket@ && store.location@ == "gs://"@ + bucket@,
        reply matches Err(cause) ==> files matches Err(StorageError::Init { provider, source })
            && provider@ == "FileSystem"@ && source == cause,
        reply matches Err(cause) ==> gcs matches Err(StorageError::Init { provider, source })
            && provider@ == "GCS"@ && source == cause,
{
}

/// A key is joined onto a root exactly if it does not begin with a separator or a drive and
/// no segment of it is `..`; the path is then the root with the whole key behind it. A key
/// that is refused is reported as it was given.
pub proof fn law_keys_are_joined_or_refused(
    style: PathStyle,
    root: &str,
    key: &str,
    path: Result<String, StorageError>,
)
    requires
        call_ensures(safe_join, (style, root, key), path),
    ensures
        path is Ok <==> {
            &&& key@.len() > 0 ==> key@[0] != '/'
            &&& key@.len() > 0 && style is Windows ==> key@[0] != '\\'
            &&& key@.len() > 1 && style is Windows && key@[1] == ':' ==> !('a' <= key@[0] <= 'z')
                && !('A' <= key@[0] <= 'Z')
            &&& forall|i: int|
                0 <= i < segments(style, key@).len() ==> #[trigger] segments(style, key@)[i]
                    != seq!['.', '.']
        },
        path matches Err(error) ==> error is InvalidKey && error->InvalidKey_key@ == key@,
        path matches Ok(joined) ==> !(style is Windows && starts_verbatim(root@)) ==> {
            &&& needs_no_separator(style, root@) ==> joined@ == root@ + key@
            &&& !needs_no_separator(style, root@) && style is Unix ==> joined@ == root@ + seq!['/']
                + key@
            &&& !needs_no_separator(style, root@) && style is Windows ==> joined@ == root@ + seq![
                '\\',
            ] + key@
        },
{
    law_safe_keys(style, key@);
    if !(style is Windows && starts_verbatim(root@)) {
        law_objects_stand_below_the_root(style, root@, key@);
    }
}

/// A put begins with the directories, exactly if its key can be joined onto the root; its
/// temp file stands beside the object, under a name of the process.
pub proof fn law_puts_begin(
    store: &FileSystemStore,
    key: &str,
    process_id: u32,
    plan: Result<(PutPlan, PutStage), StorageError>,
    root: &str,
    path: Result<String, StorageError>,
)
    requires
        call_ensures(FileSystemStore::put_object, (store, key, process_id), plan),
        call_ensures(safe_join, (store.style, root, key), path),
        root@ == store.root@,
    ensures
        plan is Ok <==> path is Ok,
        plan matches Ok(begun) ==> {
            &&& begun.1 == PutStage::MakeParents
            &&& begun.0.final_path@ == path->Ok_0@
            &&& begun.0.temp_path@ == begun.0.final_path@ + seq!['.'] + text::decimal(
                process_id as int,
            ) + seq!['.', 't', 'm', 'p']
        },
        plan matches Err(error) ==> error is InvalidKey && error->InvalidKey_key@ == key@,
{
    crate::storage::filesystem_laws::law_temp_paths_name_the_process(process_id);
}

/// A put goes on to the next stage after a success, and is over with success after the
/// rename; a failure ends it, with the location, the key, the size and the cause.
pub proof fn law_puts_go_on(
    store: &FileSystemStore,
    key: &str,
    size: usize,
    stage: PutStage,
    reply: Result<(), String>,
    action: PutAction,
)
    requires
        call_ensures(FileSystemStore::advance_put, (store, key, size, stage, reply), action),
    ensures
        reply is Ok ==> match stage {
            PutStage::MakeParents => action == PutAction::Perform(PutStage::CreateTemp),
            PutStage::CreateTemp => action == PutAction::Perform(PutStage::WriteTemp),
            PutStage::WriteTemp => action == PutAction::Perform(PutStage::Publish),
            PutStage::Publish => action == PutAction::Finish(Ok::<(), StorageError>(())),
        },
        reply matches Err(cause) ==> action matches PutAction::Finish(
            Err(StorageError::PutObject { location, key: named, size: bytes, source }),
        ) && location@ == store.location@ && named@ == key@ && bytes == size && source == cause,
{
}

// ---------------------------------------------------------------------------
// Settings and texts
// ---------------------------------------------------------------------------
/// A required value is handed on as it is, and its absence is an error that names it.
pub proof fn law_values_are_required(
    value: Option<String>,
    name: &'static str,
    result: Result<String, ConfigError>,
)
    requires
        call_ensures(required, (value, name), result),
    ensures
        value matches Some(given) ==> result is Ok && result->Ok_0@ == given@,
        value is None ==> (result matches Err(ConfigError::Missing { name: missing }) && missing@
            == name@),
{
}

/// A required list is all of its entries, of which there is one at least; else it is an
/// error that names the setting.
pub proof fn law_lists_are_required(
    value: Option<String>,
    name: &'static str,
    result: Result<Vec<String>, ConfigError>,
)
    requires
        call_ensures(required_list, (value, name), result),
    ensures
        result is Ok <==> (value matches Some(raw) && text::list_entries(raw@).len() > 0),
        result matches Ok(entries) ==> {
            &&& entries@.len() == text::list_entries(value->0@).len()
            &&& forall|i: int|
                0 <= i < entries@.len() ==> (#[trigger] entries@[i])@ == text::list_entries(
                    value->0@,
                )[i]
        },
        result matches Err(error) ==> error is Missing && error->Missing_name@ == name@,
{
    if let Ok(entries) = result {
        let all = text::views(entries@);
        assert forall|i: int| 0 <= i < entries@.len() implies (#[trigger] entries@[i])@
            == text::list_entries(value->0@)[i] by {
            assert(all[i] == entries@[i]@);
        }
    }
}

/// A provider tag is read in any ASCII case; one that names no backend is reported in lower
/// case, with what is supported.
pub proof fn law_tags_are_read(raw: &str, tag: Result<ProviderTag, ConfigError>)
    requires
        call_ensures(ProviderTag::from_str, (raw,), tag),
    ensures
        text::ascii_lower(raw@) == "filesystem"@ <==> (tag matches Ok(named) && named
            == ProviderTag::FileSystem),
        text::ascii_lower(raw@) == "aws"@ <==> (tag matches Ok(named) && named == ProviderTag::Aws),
        text::ascii_lower(raw@) == "gcs"@ <==> (tag matches Ok(named) && named == ProviderTag::Gcs),
        tag matches Err(error) ==> {
            &&& error is InvalidValue
            &&& error->InvalidValue_name@ == "OBJECT_STORAGE"@
            &&& error->value@ == text::ascii_lower(raw@)
            &&& error->reason@ == "supported providers: FileSystem, AWS, GCS"@
        },
{
    crate::settings_laws::law_tags_name_backends(raw@);
}

/// The config file is `config/<run_env>.toml`, exactly where the run environment is made
/// of ASCII letters, digits, `-` and `_`.
pub proof fn law_config_files_are_named(run_env: &str, path: Option<String>)
    requires
        call_ensures(config_file_path, (run_env,), path),
    ensures
        path is Some <==> forall|k: int|
            0 <= k < run_env@.len() ==> {
                let c = #[trigger] run_env@[k];
                'a' <= c <= 'z' || 'A' <= c <= 'Z' || '0' <= c <= '9' || c == '-' || c == '_'
            },
        path matches Some(file) ==> file@ == "config/"@ + run_env@ + ".toml"@,
{
    law_file_names(run_env@);
}

/// A `.env` file is read in the run environment `development`, and in no other.
pub proof fn law_dotenv_is_for_development(run_env: &str, reads: bool)
    requires
        call_ensures(reads_dotenv, (run_env,), reads),
    ensures
        reads <==> run_env@ == "development"@,
{
}

/// A config file counts as it was parsed, and not at all if there is none; one that cannot
/// be read or parsed is an error with its path and the cause.
pub proof fn law_config_files_are_loaded(
    path: String,
    read: FileRead,
    settings: Result<Option<FileSettings>, ConfigError>,
)
    requires
        call_ensures(load_config_file, (path, read), settings),
    ensures
        match read {
            FileRead::NotFound => settings is Ok && settings->Ok_0 is None,
            FileRead::Parsed(file) => settings is Ok && settings->Ok_0 == Some(file),
            FileRead::Unreadable(cause) => settings matches Err(
                ConfigError::FileUnreadable { path: named, source },
            ) && named@ == path@ && source == cause,
            FileRead::Unparseable(cause) => settings matches Err(
                ConfigError::FileUnparseable { path: named, source },
            ) && named@ == path@ && source == cause,
        },
{
}

/// A location tells the place, and nothing else.
pub proof fn law_locations_tell_the_place(provider: &StorageProvider, location: String)
    requires
        call_ensures(StorageProvider::location, (provider,), location),
    ensures
        match *provider {
            StorageProvider::FileSystem { root } => location@ == "file://"@ + root@,
            StorageProvider::Aws { bucket, path, region } => location@ == "s3://"@ + bucket@
                + seq!['/'] + path@,
            StorageProvider::Gcs { bucket, credentials_path } => location@ == "gs://"@ + bucket@,
        },
{
    reveal_strlit("/");
    assert("/"@ =~= seq!['/']);
}

/// Every list that is parsed has all of its entries: two texts with a comma between them
/// have the entries of the first and then those of the second.
pub proof fn law_parsed_lists_concatenate(
    first: &str,
    second: &str,
    both: &str,
    a: Vec<String>,
    b: Vec<String>,
    all: Vec<String>,
)
    requires
        call_ensures(text::parse_list, (first,), a),
        call_ensures(text::parse_list, (second,), b),
        call_ensures(text::parse_list, (both,), all),
        both@ == first@ + seq![','] + second@,
    ensures
        all@.len() == a@.len() + b@.len(),
        forall|i: int| 0 <= i < a@.len() ==> (#[trigger] all@[i])@ == a@[i]@,
        forall|i: int| 0 <= i < b@.len() ==> #[trigger] all@[a@.len() + i]@ == b@[i]@,
{
    crate::text_laws::law_lists_concatenate(first@, second@);
    let (x, y, z) = (text::views(a@), text::views(b@), text::views(all@));
    assert(z == x + y);
    assert forall|i: int| 0 <= i < a@.len() implies (#[trigger] all@[i])@ == a@[i]@ by {
        assert(z[i] == x[i]);
    }
    assert forall|i: int| 0 <= i < b@.len() implies #[trigger] all@[a@.len() + i]@ == b@[i]@ by {
        assert(z[a@.len() + i] == y[i]);
    }
}

/// Every text is taken apart into its characters, all of them and in order.
pub proof fn law_texts_are_characters(s: &str, chars: Vec<char>, bytes: usize)
    requires
        call_ensures(text::chars_of, (s,), chars),
        call_ensures(text::encoded_len, (s,), bytes),
    ensures
        chars@ == s@,
        bytes == encode_utf8(s@).len(),
{
}

/// A number is parsed exactly from a run of digits, with a `+` in front or without, that
/// denotes at most the bound.
pub proof fn law_numbers_are_parsed(s: &str, max: u64, value: Option<u64>)
    requires
        call_ensures(text::parse_natural, (s, max), value),
        s@.len() > 0 ==> s@[0] != '+',
    ensures
        value is Some <==> s@.len() > 0 && (forall|k: int|
            0 <= k < s@.len() ==> '0' <= #[trigger] s@[k] <= '9') && text::digits_value(s@) <= max,
        value matches Some(n) ==> n == text::digits_value(s@),
{
    crate::text_laws::law_naturals_are_digits(s@);
    crate::text_laws::law_naturals_read_back(0, max as int);
    assert(text::natural_up_to(s@, max as int) == match text::natural(s@) {
        Some(m) => if m <= max as int {
            Some(m)
        } else {
            None
        },
        None => None,
    });
}

/// Every number that is appended leaves what stood before, and adds its form.
pub proof fn law_numbers_are_appended(
    decimal: &mut String,
    padded: &mut String,
    n: i64,
    width: usize,
)
    requires
        call_ensures(text::push_decimal, (decimal, n), ()),
        call_ensures(text::push_zero_padded, (padded, n, width), ()),
    ensures
        n >= 0 ==> final(decimal)@ == old(decimal)@ + text::digits(n as nat),
        n < 0 ==> final(decimal)@ == old(decimal)@ + seq!['-'] + text::digits((-n) as nat),
        final(padded)@.len() >= old(padded)@.len(),
        final(padded)@.take(old(padded)@.len() as int) == old(padded)@,
        is_form_of(final(padded)@.skip(old(padded)@.len() as int), n as int, width as int),
{
    crate::text_laws::law_decimal_denotes(n as int);
    crate::text_laws::law_zero_padded_denotes(n as int, width as int);
    let form = text::zero_padded(n as int, width as int);
    assert(final(padded)@.take(old(padded)@.len() as int) =~= old(padded)@);
    assert(final(padded)@.skip(old(padded)@.len() as int) =~= form);
}

} // verus!
