//! What holds of every configuration.

use crate::config::{
    aws_provider, filesystem_provider, is_safe_name, layered, layered_brokers, layered_number,
    layered_topics, no_settings, nonblank, picked,
    provider_tag, selected_provider, selected_tag, ConfigView, Environment, FileSettings,
    ProviderTag, StorageProviderView, StorageSettings,
};
use crate::consts::{
    DEFAULT_CONSUMER_GROUP, DEFAULT_MAX_WINDOW_BYTES, DEFAULT_RUN_ENV, DEFAULT_STORAGE_ROOT,
    DEFAULT_SYNC_DURATION_SECS, ENV_AWS_REGION, ENV_BROKERS, ENV_BUCKET, ENV_CLOUD_PATH,
    ENV_CONSUMER_GROUP, ENV_GCS_CREDENTIALS_PATH, ENV_MAX_WINDOW_BYTES, ENV_OBJECT_STORAGE,
    ENV_RUN_ENV, ENV_STORAGE_ROOT, ENV_SYNC_DURATION, ENV_TOPICS,
};
use crate::error::ConfigErrorView;
use crate::storage::s3::s3_location;
use crate::text;
use vstd::prelude::*;

verus! {

// ---------------------------------------------------------------------------
// Layers
// ---------------------------------------------------------------------------
/// The environment wins: where it gives a setting, the file has no say in it.
pub proof fn law_environment_wins(
    env: Environment,
    name: Seq<char>,
    file: Option<Seq<char>>,
    number: Option<int>,
    max: int,
)
    requires
        nonblank(env(name)) is Some,
    ensures
        picked(env, name, file) == nonblank(env(name)),
        layered_number(env, name, number, max) == layered_number(env, name, None, max),
{
}

/// A blank setting is an unset one: two environments that differ only in what
/// is blank or unset, or in the white space around a value, give the same
/// configuration.
pub proof fn law_blank_is_unset(a: Environment, b: Environment, file: FileSettings)
    requires
        forall|name: Seq<char>| nonblank(#[trigger] a(name)) == nonblank(b(name)),
    ensures
        layered(a, file) == layered(b, file),
{
    assert(forall|name: Seq<char>, value: Option<Seq<char>>| #[trigger]
        picked(a, name, value) == picked(b, name, value));
    assert(forall|name: Seq<char>, value: Option<int>, max: int| #[trigger]
        layered_number(a, name, value, max) == layered_number(b, name, value, max));
    assert(nonblank(a(ENV_RUN_ENV@)) == nonblank(b(ENV_RUN_ENV@)));
}

/// The same of the file: a setting that is blank there counts as absent.
pub proof fn law_blank_is_absent_in_the_file(env: Environment, a: FileSettings, b: FileSettings)
    requires
        same_settings(a, b),
    ensures
        layered(env, a) == layered(env, b),
{
    lemma_same_pick(env, ENV_BROKERS@, a.kafka.brokers, b.kafka.brokers);
    lemma_same_pick(env, ENV_TOPICS@, a.kafka.topics, b.kafka.topics);
    lemma_same_pick(env, ENV_CONSUMER_GROUP@, a.kafka.consumer_group, b.kafka.consumer_group);
    assert(selected_provider(env, a.storage) == selected_provider(env, b.storage)) by {
        let (s, t) = (a.storage, b.storage);
        lemma_same_pick(env, ENV_OBJECT_STORAGE@, s.provider, t.provider);
        lemma_same_pick(env, ENV_STORAGE_ROOT@, s.filesystem.path, t.filesystem.path);
        lemma_same_pick(env, ENV_BUCKET@, s.aws.bucket, t.aws.bucket);
        lemma_same_pick(env, ENV_CLOUD_PATH@, s.aws.path, t.aws.path);
        lemma_same_pick(env, ENV_AWS_REGION@, s.aws.region, t.aws.region);
        lemma_same_pick(env, ENV_BUCKET@, s.gcs.bucket, t.gcs.bucket);
        lemma_same_pick(
            env,
            ENV_GCS_CREDENTIALS_PATH@,
            s.gcs.credentials_path,
            t.gcs.credentials_path,
        );
    }
}

proof fn lemma_same_pick(env: Environment, name: Seq<char>, a: Option<String>, b: Option<String>)
    requires
        same_text(a, b),
    ensures
        picked(env, name, text::opt_view(a)) == picked(env, name, text::opt_view(b)),
{
}

/// The files agree but for blanks and the white space around values.
pub open spec fn same_settings(a: FileSettings, b: FileSettings) -> bool {
    &&& same_text(a.kafka.brokers, b.kafka.brokers)
    &&& same_text(a.kafka.topics, b.kafka.topics)
    &&& same_text(a.kafka.consumer_group, b.kafka.consumer_group)
    &&& a.kafka.sync_duration_secs == b.kafka.sync_duration_secs
    &&& a.kafka.max_window_bytes == b.kafka.max_window_bytes
    &&& same_text(a.storage.provider, b.storage.provider)
    &&& same_text(a.storage.filesystem.path, b.storage.filesystem.path)
    &&& same_text(a.storage.aws.bucket, b.storage.aws.bucket)
    &&& same_text(a.storage.aws.path, b.storage.aws.path)
    &&& same_text(a.storage.aws.region, b.storage.aws.region)
    &&& same_text(a.storage.gcs.bucket, b.storage.gcs.bucket)
    &&& same_text(a.storage.gcs.credentials_path, b.storage.gcs.credentials_path)
}

pub open spec fn same_text(a: Option<String>, b: Option<String>) -> bool {
    nonblank(text::opt_view(a)) == nonblank(text::opt_view(b))
}

// ---------------------------------------------------------------------------
// Validity
// ---------------------------------------------------------------------------
/// A text without white space at either end, and not empty.
pub open spec fn is_entry(text: Seq<char>) -> bool {
    &&& text.len() > 0
    &&& !text::is_white_space(text[0])
    &&& !text::is_white_space(text.last())
}

/// The backend has everything that it needs.
pub open spec fn is_complete(storage: StorageProviderView) -> bool {
    match storage {
        StorageProviderView::FileSystem { root } => root.len() > 0,
        StorageProviderView::Aws { bucket, path, region } => {
            &&& is_entry(bucket)
            &&& is_entry(region)
            &&& path.len() > 0
            &&& path[0] != '/'
            &&& path.last() != '/'
        },
        StorageProviderView::Gcs { bucket, credentials_path } => {
            &&& is_entry(bucket)
            &&& is_entry(credentials_path)
        },
    }
}

/// `entries` is a list that was separated by commas: it is not empty, and none of
/// its entries is blank or holds a comma.
pub open spec fn is_list(entries: Seq<Seq<char>>) -> bool {
    &&& entries.len() > 0
    &&& forall|i: int|
        0 <= i < entries.len() ==> is_entry(#[trigger] entries[i]) && text::free_of(
            entries[i],
            ',',
        )
}

/// What every accepted configuration is like: brokers and topics are there, none
/// of them blank; a window takes time and has room; the backend is complete.
pub open spec fn is_valid(config: ConfigView) -> bool {
    &&& is_list(config.kafka_brokers)
    &&& is_list(config.kafka_topics)
    &&& is_entry(config.kafka_consumer_group)
    &&& is_entry(config.run_env)
    &&& 1 <= config.sync_duration_secs <= u64::MAX
    &&& 1 <= config.max_window_bytes <= usize::MAX
    &&& is_complete(config.storage)
}

proof fn lemma_nonblank(value: Option<Seq<char>>)
    ensures
        nonblank(value) matches Some(text) ==> is_entry(text),
{
    if let Some(raw) = value {
        text::lemma_stripped_edges(raw, text::Trimming::WhiteSpace);
    }
}

proof fn lemma_picked(env: Environment, name: Seq<char>, file: Option<Seq<char>>)
    ensures
        picked(env, name, file) matches Some(text) ==> is_entry(text),
{
    lemma_nonblank(env(name));
    lemma_nonblank(file);
}

proof fn lemma_list_entries(raw: Seq<char>)
    ensures
        forall|i: int|
            0 <= i < text::list_entries(raw).len() ==> is_entry(
                #[trigger] text::list_entries(raw)[i],
            ) && text::free_of(text::list_entries(raw)[i], ','),
{
    let pieces = text::split(raw, ',').map_values(|piece: Seq<char>| text::trimmed(piece));
    let keep = |entry: Seq<char>| entry.len() > 0;
    let entries = text::list_entries(raw);
    assert(entries == pieces.filter(keep));
    assert forall|i: int| 0 <= i < entries.len() implies is_entry(#[trigger] entries[i])
        && text::free_of(entries[i], ',') by {
        pieces.lemma_filter_pred(keep, i);
        assert(entries.contains(entries[i]));
        pieces.lemma_filter_contains_rev(keep, entries[i]);
        let j = choose|j: int| 0 <= j < pieces.len() && pieces[j] == entries[i];
        let piece = text::split(raw, ',')[j];
        text::lemma_stripped_edges(piece, text::Trimming::WhiteSpace);
        text::lemma_split_pieces(raw, ',', j);
        text::lemma_stripped_free(piece, text::Trimming::WhiteSpace, ',');
    }
}

/// An accepted configuration is valid: what would start the service pointed at
/// nothing is refused.
pub proof fn law_accepted_is_valid(env: Environment, file: FileSettings)
    ensures
        layered(env, file) matches Ok(config) ==> is_valid(config),
{
    if let Ok(config) = layered(env, file) {
        let brokers = picked(env, ENV_BROKERS@, text::opt_view(file.kafka.brokers));
        let topics = picked(env, ENV_TOPICS@, text::opt_view(file.kafka.topics));
        lemma_list_entries(brokers->0);
        lemma_list_entries(topics->0);
        lemma_nonblank(env(ENV_RUN_ENV@));
        reveal_strlit("development");
        lemma_picked(env, ENV_CONSUMER_GROUP@, text::opt_view(file.kafka.consumer_group));
        reveal_strlit("kafka-sync");
        lemma_picked(env, ENV_STORAGE_ROOT@, text::opt_view(file.storage.filesystem.path));
        reveal_strlit("./logs");
        lemma_picked(env, ENV_BUCKET@, text::opt_view(file.storage.aws.bucket));
        lemma_picked(env, ENV_AWS_REGION@, text::opt_view(file.storage.aws.region));
        let path = picked(env, ENV_CLOUD_PATH@, text::opt_view(file.storage.aws.path));
        text::lemma_stripped_edges(path->0, text::Trimming::Only('/'));
        lemma_picked(env, ENV_BUCKET@, text::opt_view(file.storage.gcs.bucket));
        lemma_picked(
            env,
            ENV_GCS_CREDENTIALS_PATH@,
            text::opt_view(file.storage.gcs.credentials_path),
        );
    }
}

/// Brokers and topics are required: a configuration is refused if either names
/// nothing.
pub proof fn law_brokers_and_topics_are_required(env: Environment, file: FileSettings)
    ensures
        picked(env, ENV_BROKERS@, text::opt_view(file.kafka.brokers)) is None ==> layered(env, file)
            is Err,
        picked(env, ENV_TOPICS@, text::opt_view(file.kafka.topics)) is None ==> layered(env, file)
            is Err,
{
}

/// With only brokers and topics given, the rest takes its defaults: the service
/// archives to local files.
pub proof fn law_defaults(env: Environment, file: FileSettings)
    requires
        forall|name: Seq<char>|
            name != ENV_BROKERS@ && name != ENV_TOPICS@ ==> nonblank(#[trigger] env(name)) is None,
        file.storage == no_settings().storage,
        file.kafka.consumer_group is None,
        file.kafka.sync_duration_secs is None,
        file.kafka.max_window_bytes is None,
        layered_brokers(env, file) is Ok,
        layered_topics(env, file) is Ok,
    ensures
        layered(env, file) == Ok::<ConfigView, ConfigErrorView>(
            ConfigView {
                run_env: DEFAULT_RUN_ENV@,
                kafka_brokers: layered_brokers(env, file)->Ok_0,
                kafka_topics: layered_topics(env, file)->Ok_0,
                kafka_consumer_group: DEFAULT_CONSUMER_GROUP@,
                sync_duration_secs: DEFAULT_SYNC_DURATION_SECS as int,
                max_window_bytes: DEFAULT_MAX_WINDOW_BYTES as int,
                storage: StorageProviderView::FileSystem { root: DEFAULT_STORAGE_ROOT@ },
            },
        ),
{
    lemma_names_differ();
    assert(nonblank(env(ENV_RUN_ENV@)) is None);
    assert(nonblank(env(ENV_CONSUMER_GROUP@)) is None);
    assert(nonblank(env(ENV_SYNC_DURATION@)) is None);
    assert(nonblank(env(ENV_MAX_WINDOW_BYTES@)) is None);
    assert(nonblank(env(ENV_OBJECT_STORAGE@)) is None);
    assert(nonblank(env(ENV_STORAGE_ROOT@)) is None);
}

/// `name` is not the variable of the brokers or the topics.
spec fn is_other(name: Seq<char>) -> bool {
    name != ENV_BROKERS@ && name != ENV_TOPICS@
}

proof fn lemma_names_differ()
    ensures
        is_other(ENV_RUN_ENV@),
        is_other(ENV_CONSUMER_GROUP@),
        is_other(ENV_SYNC_DURATION@),
        is_other(ENV_MAX_WINDOW_BYTES@),
        is_other(ENV_OBJECT_STORAGE@),
        is_other(ENV_STORAGE_ROOT@),
{
    reveal_strlit("RUN_ENV");
    reveal_strlit("KAFKA_CONSUMER_GROUP");
    reveal_strlit("SYNC_DURATION");
    reveal_strlit("KAFKA_MAX_WINDOW_BYTES");
    reveal_strlit("OBJECT_STORAGE");
    reveal_strlit("STORAGE_ROOT");
    reveal_strlit("KAFKA_BROKERS");
    reveal_strlit("KAFKA_TOPICS");
    assert(ENV_RUN_ENV@.len() == 7);
    assert(ENV_CONSUMER_GROUP@.len() == 20);
    assert(ENV_SYNC_DURATION@[0] == 'S');
    assert(ENV_MAX_WINDOW_BYTES@.len() == 22);
    assert(ENV_OBJECT_STORAGE@.len() == 14);
    assert(ENV_STORAGE_ROOT@[0] == 'S');
    assert(ENV_BROKERS@.len() == 13 && ENV_BROKERS@[0] == 'K');
    assert(ENV_TOPICS@.len() == 12 && ENV_TOPICS@[0] == 'K');
}

// ---------------------------------------------------------------------------
// The storage backend
// ---------------------------------------------------------------------------
/// A cloud backend is always opt-in: without a provider tag the backend is the
/// filesystem, at the root that is given for it, and with one it is the backend
/// that the tag names.
pub proof fn law_cloud_is_opt_in(env: Environment, storage: StorageSettings)
    ensures
        match selected_provider(env, storage) {
            Ok(StorageProviderView::FileSystem { .. }) => selected_tag(env, storage)
                == Ok::<ProviderTag, ConfigErrorView>(ProviderTag::FileSystem),
            Ok(StorageProviderView::Aws { .. }) => picked(
                env,
                ENV_OBJECT_STORAGE@,
                text::opt_view(storage.provider),
            ) matches Some(tag) && text::ascii_lower(tag) == "aws"@,
            Ok(StorageProviderView::Gcs { .. }) => picked(
                env,
                ENV_OBJECT_STORAGE@,
                text::opt_view(storage.provider),
            ) matches Some(tag) && text::ascii_lower(tag) == "gcs"@,
            Err(_) => true,
        },
        picked(env, ENV_OBJECT_STORAGE@, text::opt_view(storage.provider)) is None
            ==> selected_provider(env, storage) == Ok::<StorageProviderView, ConfigErrorView>(
            filesystem_provider(env, storage.filesystem),
        ),
{
}

/// A backend asks for its own settings only: what the tables of the others hold
/// makes no difference.
pub proof fn law_other_tables_are_ignored(
    env: Environment,
    a: StorageSettings,
    b: StorageSettings,
)
    requires
        a.provider == b.provider,
        match selected_tag(env, a) {
            Ok(ProviderTag::FileSystem) => a.filesystem == b.filesystem,
            Ok(ProviderTag::Aws) => a.aws == b.aws,
            Ok(ProviderTag::Gcs) => a.gcs == b.gcs,
            Err(_) => true,
        },
    ensures
        selected_provider(env, a) == selected_provider(env, b),
{
}

/// The provider tag is read whatever its ASCII case.
pub proof fn law_tag_ignores_case(a: Seq<char>, b: Seq<char>)
    requires
        text::ascii_lower(a) == text::ascii_lower(b),
    ensures
        provider_tag(a) == provider_tag(b),
{
}

/// The configured S3 path has the one form that the store uses: the location of
/// the configuration is that of the store.
pub proof fn law_s3_locations_agree(env: Environment, storage: StorageSettings)
    ensures
        aws_provider(env, storage.aws) matches Ok(
            StorageProviderView::Aws { bucket, path, region },
        ) ==> {
            &&& text::without_edge_slashes(path) == path
            &&& (StorageProviderView::Aws { bucket, path, region }).location() == s3_location(
                bucket,
                text::without_edge_slashes(path),
            )
        },
{
    let path = picked(env, ENV_CLOUD_PATH@, text::opt_view(storage.aws.path));
    text::lemma_stripped_twice(path->0, text::Trimming::Only('/'));
}

/// The location never tells credentials: it is the same whatever file holds
/// them, and whatever the region.
pub proof fn law_location_tells_no_credentials(
    bucket: Seq<char>,
    path: Seq<char>,
    a: Seq<char>,
    b: Seq<char>,
)
    ensures
        (StorageProviderView::Gcs { bucket, credentials_path: a }).location() == (
        StorageProviderView::Gcs { bucket, credentials_path: b }).location(),
        (StorageProviderView::Aws { bucket, path, region: a }).location() == (
        StorageProviderView::Aws { bucket, path, region: b }).location(),
{
}

/// The config file stands directly in its directory: a run environment that
/// names a file holds no `/` and no `.`.
pub proof fn law_config_file_stays_in_place(run_env: Seq<char>)
    requires
        is_safe_name(run_env),
    ensures
        text::free_of(run_env, '/'),
        text::free_of(run_env, '.'),
{
}

} // verus!
