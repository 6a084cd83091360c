//! How each setting follows from the environment and the config file.

use crate::config::{
    answers_from, config_result, configured, is_safe_name, layered, layered_number, list_result,
    no_settings, nonblank, picked, positive_or, provider_result, provider_tag, required_entries,
    required_text, selected_provider, text_or, text_result, u64_option, usize_option, Config,
    ConfigView, Environment, FileRead, FileSettings, ProviderTag, StorageProvider,
    StorageProviderView, StorageSettings,
};
use crate::error::{ConfigError, ConfigErrorView};
use crate::text;
use crate::text_laws::{law_blank_is_white_space, law_edge_slashes_only};
use vstd::prelude::*;

verus! {

// ---------------------------------------------------------------------------
// One setting
// ---------------------------------------------------------------------------
/// The value is there, and holds something besides white space.
pub open spec fn has_text(value: Option<Seq<char>>) -> bool {
    value matches Some(raw) && exists|k: int|
        0 <= k < raw.len() && !text::is_white_space(#[trigger] raw[k])
}

/// A value counts exactly if it holds something besides white space, and then without
/// the white space around it.
pub proof fn law_blank_values_are_absent(value: Option<Seq<char>>)
    ensures
        nonblank(value) is Some <==> has_text(value),
        nonblank(value) is Some ==> nonblank(value)->0 == text::trimmed(value->0),
{
    if let Some(raw) = value {
        law_blank_is_white_space(raw);
    }
}

/// The environment's value counts if it has one, then the file's, then none.
pub proof fn law_environment_over_file(
    env: Environment,
    name: Seq<char>,
    file: Option<Seq<char>>,
)
    ensures
        has_text(env(name)) ==> picked(env, name, file) == Some(text::trimmed(env(name)->0)),
        !has_text(env(name)) && has_text(file) ==> picked(env, name, file) == Some(
            text::trimmed(file->0),
        ),
        !has_text(env(name)) && !has_text(file) ==> picked(env, name, file) is None,
{
    law_blank_values_are_absent(env(name));
    law_blank_values_are_absent(file);
}

/// A number that the environment gives must be a run of digits and at most the bound,
/// and then counts; else it is refused with the text that was given. Without one the
/// file's number counts.
pub proof fn law_numbers_are_layered(
    env: Environment,
    name: Seq<char>,
    file: Option<int>,
    max: int,
)
    ensures
        !has_text(env(name)) ==> layered_number(env, name, file, max) == Ok::<
            Option<int>,
            ConfigErrorView,
        >(file),
        has_text(env(name)) ==> {
            let raw = text::trimmed(env(name)->0);
            let number = text::natural(raw);
            if number is Some && number->0 <= max {
                layered_number(env, name, file, max) == Ok::<Option<int>, ConfigErrorView>(
                    Some(number->0 as int),
                )
            } else {
                layered_number(env, name, file, max) == Err::<Option<int>, ConfigErrorView>(
                    ConfigErrorView::InvalidValue {
                        name,
                        value: raw,
                        reason: "expected a positive integer"@,
                    },
                )
            }
        },
{
    law_blank_values_are_absent(env(name));
}

/// A required value is itself, and its absence is an error that names it.
pub proof fn law_required_values(value: Seq<char>, name: Seq<char>)
    ensures
        required_text(Some(value), name) == Ok::<Seq<char>, ConfigErrorView>(value),
        required_text(None, name) == Err::<Seq<char>, ConfigErrorView>(
            ConfigErrorView::Missing { name },
        ),
        required_entries(None, name) == Err::<Seq<Seq<char>>, ConfigErrorView>(
            ConfigErrorView::Missing { name },
        ),
        text::list_entries(value).len() > 0 ==> required_entries(Some(value), name) == Ok::<
            Seq<Seq<char>>,
            ConfigErrorView,
        >(text::list_entries(value)),
        text::list_entries(value).len() == 0 ==> required_entries(Some(value), name) == Err::<
            Seq<Seq<char>>,
            ConfigErrorView,
        >(ConfigErrorView::Missing { name }),
{
}

/// Zero is refused, any other number counts, and without one the default does.
pub proof fn law_zero_is_refused(
    number: int,
    default: int,
    name: Seq<char>,
    reason: Seq<char>,
    error: ConfigErrorView,
)
    ensures
        number != 0 ==> positive_or(Ok(Some(number)), default, name, reason) == Ok::<
            int,
            ConfigErrorView,
        >(number),
        positive_or(Ok(Some(0int)), default, name, reason) == Err::<int, ConfigErrorView>(
            ConfigErrorView::InvalidValue { name, value: seq!['0'], reason },
        ),
        positive_or(Ok(None), default, name, reason) == Ok::<int, ConfigErrorView>(default),
        positive_or(Err(error), default, name, reason) == Err::<int, ConfigErrorView>(error),
{
    reveal_strlit("0");
    assert("0"@ =~= seq!['0']);
}

/// An environment answers for a lookup exactly if every answer is the text that the
/// environment has under the name.
pub proof fn law_answers_are_the_environment<F: Fn(&str) -> Option<String>>(
    lookup: &F,
    env: Environment,
)
    ensures
        answers_from(lookup, env) <==> forall|name: &str, answer: Option<String>|
            #![trigger call_ensures(lookup, (name,), answer)]
            call_ensures(lookup, (name,), answer) ==> match answer {
                Some(value) => env(name@) == Some(value@),
                None => env(name@) is None,
            },
{
    if forall|name: &str, answer: Option<String>|
        #![trigger call_ensures(lookup, (name,), answer)]
        call_ensures(lookup, (name,), answer) ==> match answer {
            Some(value) => env(name@) == Some(value@),
            None => env(name@) is None,
        } {
        assert forall|name: &str, answer: Option<String>|
            call_ensures(lookup, (name,), answer) implies text::opt_view(answer) == env(name@) by {}
    }
}

// ---------------------------------------------------------------------------
// What a result says
// ---------------------------------------------------------------------------
/// A configuration is its fields, and a backend its own.
pub proof fn law_configurations_are_their_fields(config: Config)
    ensures
        config@.run_env == config.run_env@,
        config@.kafka_brokers.len() == config.kafka_brokers@.len(),
        forall|i: int|
            0 <= i < config.kafka_brokers@.len() ==> #[trigger] config@.kafka_brokers[i]
                == config.kafka_brokers@[i]@,
        config@.kafka_topics.len() == config.kafka_topics@.len(),
        forall|i: int|
            0 <= i < config.kafka_topics@.len() ==> #[trigger] config@.kafka_topics[i]
                == config.kafka_topics@[i]@,
        config@.kafka_consumer_group == config.kafka_consumer_group@,
        config@.sync_duration_secs == config.sync_duration_secs,
        config@.max_window_bytes == config.max_window_bytes,
        config@.storage == config.storage@,
        match config.storage {
            StorageProvider::FileSystem { root } => config.storage@ == (
            StorageProviderView::FileSystem { root: root@ }),
            StorageProvider::Aws { bucket, path, region } => config.storage@ == (
            StorageProviderView::Aws { bucket: bucket@, path: path@, region: region@ }),
            StorageProvider::Gcs { bucket, credentials_path } => config.storage@ == (
            StorageProviderView::Gcs {
                bucket: bucket@,
                credentials_path: credentials_path@,
            }),
        },
{
}

/// An error says what it holds.
pub proof fn law_errors_are_their_texts(error: ConfigError)
    ensures
        match error {
            ConfigError::Missing { name } => error@ == (ConfigErrorView::Missing { name: name@ }),
            ConfigError::InvalidValue { name, value, reason } => error@ == (
            ConfigErrorView::InvalidValue { name: name@, value: value@, reason: reason@ }),
            ConfigError::FileUnreadable { path, source } => error@ == (
            ConfigErrorView::FileUnreadable { path: path@, source: source@ }),
            ConfigError::FileUnparseable { path, source } => error@ == (
            ConfigErrorView::FileUnparseable { path: path@, source: source@ }),
        },
{
}

/// A result is a success with the value's text, or an error with the error's.
pub proof fn law_results_are_their_texts(
    value: String,
    entries: Vec<String>,
    provider: StorageProvider,
    config: Config,
    error: ConfigError,
)
    ensures
        text_result(Ok(value)) == Ok::<Seq<char>, ConfigErrorView>(value@),
        text_result(Err(error)) == Err::<Seq<char>, ConfigErrorView>(error@),
        list_result(Ok(entries)) == Ok::<Seq<Seq<char>>, ConfigErrorView>(text::views(entries@)),
        list_result(Err(error)) == Err::<Seq<Seq<char>>, ConfigErrorView>(error@),
        provider_result(Ok(provider)) == Ok::<StorageProviderView, ConfigErrorView>(provider@),
        provider_result(Err(error)) == Err::<StorageProviderView, ConfigErrorView>(error@),
        config_result(Ok(config)) == Ok::<ConfigView, ConfigErrorView>(config@),
        config_result(Err(error)) == Err::<ConfigView, ConfigErrorView>(error@),
{
}

/// A number keeps its value, and an absent one stays absent; a text that is absent
/// gives way to its default.
pub proof fn law_options_keep_their_value(
    long: u64,
    size: usize,
    value: Seq<char>,
    default: Seq<char>,
)
    ensures
        u64_option(Some(long)) == Some(long as int),
        u64_option(None) is None,
        usize_option(Some(size)) == Some(size as int),
        usize_option(None) is None,
        text_or(Some(value), default) == value,
        text_or(None, default) == default,
{
}

/// An empty file gives no setting.
pub proof fn law_empty_files_give_nothing()
    ensures
        no_settings().kafka.brokers is None,
        no_settings().kafka.topics is None,
        no_settings().kafka.consumer_group is None,
        no_settings().kafka.sync_duration_secs is None,
        no_settings().kafka.max_window_bytes is None,
        no_settings().storage.provider is None,
        no_settings().storage.filesystem.path is None,
        no_settings().storage.aws.bucket is None,
        no_settings().storage.aws.path is None,
        no_settings().storage.aws.region is None,
        no_settings().storage.gcs.bucket is None,
        no_settings().storage.gcs.credentials_path is None,
{
}

// ---------------------------------------------------------------------------
// The whole configuration
// ---------------------------------------------------------------------------
/// The setting names an entry at least.
pub open spec fn names_entries(env: Environment, name: Seq<char>, file: Option<String>) -> bool {
    picked(env, name, text::opt_view(file)) matches Some(raw) && text::list_entries(raw).len() > 0
}

/// The number is none or a positive one.
pub open spec fn is_positive(number: Result<Option<int>, ConfigErrorView>) -> bool {
    number matches Ok(value) && (value matches Some(n) ==> n != 0)
}

/// Brokers are asked for first, and topics second; an error names the one that is
/// missing.
pub proof fn law_lists_are_asked_for_first(env: Environment, file: FileSettings)
    ensures
        !names_entries(env, "KAFKA_BROKERS"@, file.kafka.brokers) ==> layered(env, file) == Err::<
            ConfigView,
            ConfigErrorView,
        >((ConfigErrorView::Missing { name: "KAFKA_BROKERS"@ })),
        names_entries(env, "KAFKA_BROKERS"@, file.kafka.brokers) && !names_entries(
            env,
            "KAFKA_TOPICS"@,
            file.kafka.topics,
        ) ==> layered(env, file) == Err::<ConfigView, ConfigErrorView>(
            (ConfigErrorView::Missing { name: "KAFKA_TOPICS"@ }),
        ),
{
}

/// The window length is asked for next: a number that cannot be read, or zero, is
/// refused.
pub proof fn law_durations_are_checked(env: Environment, file: FileSettings)
    requires
        names_entries(env, "KAFKA_BROKERS"@, file.kafka.brokers),
        names_entries(env, "KAFKA_TOPICS"@, file.kafka.topics),
    ensures
        ({
            let duration = layered_number(
                env,
                "SYNC_DURATION"@,
                u64_option(file.kafka.sync_duration_secs),
                u64::MAX as int,
            );
            &&& duration matches Err(error) ==> layered(env, file) == Err::<
                ConfigView,
                ConfigErrorView,
            >(error)
            &&& duration == Ok::<Option<int>, ConfigErrorView>(Some(0int)) ==> layered(env, file)
                == Err::<ConfigView, ConfigErrorView>(
                (ConfigErrorView::InvalidValue {
                    name: "SYNC_DURATION"@,
                    value: "0"@,
                    reason: "duration must be at least 1 second"@,
                }),
            )
        }),
{
}

/// The payload bound is asked for next: a number that cannot be read, or zero, is
/// refused.
pub proof fn law_window_bytes_are_checked(env: Environment, file: FileSettings)
    requires
        names_entries(env, "KAFKA_BROKERS"@, file.kafka.brokers),
        names_entries(env, "KAFKA_TOPICS"@, file.kafka.topics),
        is_positive(
            layered_number(
                env,
                "SYNC_DURATION"@,
                u64_option(file.kafka.sync_duration_secs),
                u64::MAX as int,
            ),
        ),
    ensures
        ({
            let bytes = layered_number(
                env,
                "KAFKA_MAX_WINDOW_BYTES"@,
                usize_option(file.kafka.max_window_bytes),
                usize::MAX as int,
            );
            &&& bytes matches Err(error) ==> layered(env, file) == Err::<
                ConfigView,
                ConfigErrorView,
            >(error)
            &&& bytes == Ok::<Option<int>, ConfigErrorView>(Some(0int)) ==> layered(env, file)
                == Err::<ConfigView, ConfigErrorView>(
                (ConfigErrorView::InvalidValue {
                    name: "KAFKA_MAX_WINDOW_BYTES"@,
                    value: "0"@,
                    reason: "value must be at least 1"@,
                }),
            )
        }),
{
}

/// With brokers, topics and both numbers in order, the backend alone decides: its
/// error is the configuration's, and without one the configuration is accepted. It
/// then holds what the layers give under each name, and the defaults for the rest.
pub proof fn law_configurations_hold_their_settings(env: Environment, file: FileSettings)
    requires
        names_entries(env, "KAFKA_BROKERS"@, file.kafka.brokers),
        names_entries(env, "KAFKA_TOPICS"@, file.kafka.topics),
        is_positive(
            layered_number(
                env,
                "SYNC_DURATION"@,
                u64_option(file.kafka.sync_duration_secs),
                u64::MAX as int,
            ),
        ),
        is_positive(
            layered_number(
                env,
                "KAFKA_MAX_WINDOW_BYTES"@,
                usize_option(file.kafka.max_window_bytes),
                usize::MAX as int,
            ),
        ),
    ensures
        match selected_provider(env, file.storage) {
            Err(error) => layered(env, file) == Err::<ConfigView, ConfigErrorView>(error),
            Ok(storage) => layered(env, file) is Ok && layered(env, file)->Ok_0.storage == storage,
        },
        layered(env, file) matches Ok(config) ==> {
            let duration = layered_number(
                env,
                "SYNC_DURATION"@,
                u64_option(file.kafka.sync_duration_secs),
                u64::MAX as int,
            )->Ok_0;
            let bytes = layered_number(
                env,
                "KAFKA_MAX_WINDOW_BYTES"@,
                usize_option(file.kafka.max_window_bytes),
                usize::MAX as int,
            )->Ok_0;
            let group = picked(
                env,
                "KAFKA_CONSUMER_GROUP"@,
                text::opt_view(file.kafka.consumer_group),
            );
            let run_env = picked(env, "RUN_ENV"@, None);
            &&& config.kafka_brokers == text::list_entries(
                picked(env, "KAFKA_BROKERS"@, text::opt_view(file.kafka.brokers))->0,
            )
            &&& config.kafka_topics == text::list_entries(
                picked(env, "KAFKA_TOPICS"@, text::opt_view(file.kafka.topics))->0,
            )
            &&& duration is Some ==> config.sync_duration_secs == duration->0
            &&& duration is None ==> config.sync_duration_secs == 10
            &&& bytes is Some ==> config.max_window_bytes == bytes->0
            &&& bytes is None ==> config.max_window_bytes == 268_435_456
            &&& group is Some ==> config.kafka_consumer_group == group->0
            &&& group is None ==> config.kafka_consumer_group == "kafka-sync"@
            &&& run_env is Some ==> config.run_env == run_env->0
            &&& run_env is None ==> config.run_env == "development"@
        },
{
}

// ---------------------------------------------------------------------------
// The backend
// ---------------------------------------------------------------------------
proof fn lemma_tags_differ()
    ensures
        "filesystem"@ != "aws"@,
        "filesystem"@ != "gcs"@,
        "aws"@ != "gcs"@,
{
    reveal_strlit("filesystem");
    reveal_strlit("aws");
    reveal_strlit("gcs");
    assert("filesystem"@.len() == 10 && "aws"@.len() == 3 && "gcs"@.len() == 3);
    assert("aws"@[0] == 'a' && "gcs"@[0] == 'g');
}

/// A tag names a backend in any ASCII case, and every other tag is refused with what
/// is supported.
pub proof fn law_tags_name_backends(tag: Seq<char>)
    ensures
        text::ascii_lower(tag) == "filesystem"@ ==> provider_tag(tag) == Ok::<
            ProviderTag,
            ConfigErrorView,
        >(ProviderTag::FileSystem),
        text::ascii_lower(tag) == "aws"@ ==> provider_tag(tag) == Ok::<ProviderTag, ConfigErrorView>(
            ProviderTag::Aws,
        ),
        text::ascii_lower(tag) == "gcs"@ ==> provider_tag(tag) == Ok::<ProviderTag, ConfigErrorView>(
            ProviderTag::Gcs,
        ),
        text::ascii_lower(tag) != "filesystem"@ && text::ascii_lower(tag) != "aws"@
            && text::ascii_lower(tag) != "gcs"@ ==> provider_tag(tag) == Err::<
            ProviderTag,
            ConfigErrorView,
        >(
            (ConfigErrorView::InvalidValue {
                name: "OBJECT_STORAGE"@,
                value: text::ascii_lower(tag),
                reason: "supported providers: FileSystem, AWS, GCS"@,
            }),
        ),
{
    lemma_tags_differ();
}

/// The tag as the layers give it, in lower case.
pub open spec fn tag_of(env: Environment, storage: StorageSettings) -> Option<Seq<char>> {
    match picked(env, "OBJECT_STORAGE"@, text::opt_view(storage.provider)) {
        Some(raw) => Some(text::ascii_lower(raw)),
        None => None,
    }
}

/// Without a tag, and with that of the filesystem, objects go to local files, at the
/// root that the layers give or else `./logs`. An unknown tag is refused.
pub proof fn law_files_are_the_default(env: Environment, storage: StorageSettings)
    ensures
        tag_of(env, storage) is None || tag_of(env, storage) == Some("filesystem"@) ==> {
            let root = picked(env, "STORAGE_ROOT"@, text::opt_view(storage.filesystem.path));
            &&& root is Some ==> selected_provider(env, storage) == Ok::<
                StorageProviderView,
                ConfigErrorView,
            >((StorageProviderView::FileSystem { root: root->0 }))
            &&& root is None ==> selected_provider(env, storage) == Ok::<
                StorageProviderView,
                ConfigErrorView,
            >((StorageProviderView::FileSystem { root: "./logs"@ }))
        },
        tag_of(env, storage) matches Some(tag) ==> tag != "filesystem"@ && tag != "aws"@ && tag
            != "gcs"@ ==> selected_provider(env, storage) == Err::<
            StorageProviderView,
            ConfigErrorView,
        >(
            (ConfigErrorView::InvalidValue {
                name: "OBJECT_STORAGE"@,
                value: tag,
                reason: "supported providers: FileSystem, AWS, GCS"@,
            }),
        ),
{
    lemma_tags_differ();
}

/// S3 needs a bucket, a path that holds something besides `/`, and a region, asked for
/// in this order; its path is kept without the slashes at its ends.
pub proof fn law_s3_settings(env: Environment, storage: StorageSettings)
    requires
        tag_of(env, storage) == Some("aws"@),
    ensures
        ({
            let bucket = picked(env, "CLOUD_BUCKET"@, text::opt_view(storage.aws.bucket));
            let path = picked(env, "CLOUD_PATH"@, text::opt_view(storage.aws.path));
            let region = picked(env, "AWS_REGION"@, text::opt_view(storage.aws.region));
            let slashes = forall|k: int| 0 <= k < path->0.len() ==> #[trigger] path->0[k] == '/';
            let chosen = selected_provider(env, storage);
            &&& bucket is None ==> chosen == Err::<StorageProviderView, ConfigErrorView>(
                (ConfigErrorView::Missing { name: "CLOUD_BUCKET"@ }),
            )
            &&& bucket is Some && path is None ==> chosen == Err::<
                StorageProviderView,
                ConfigErrorView,
            >((ConfigErrorView::Missing { name: "CLOUD_PATH"@ }))
            &&& bucket is Some && path is Some && slashes ==> chosen == Err::<
                StorageProviderView,
                ConfigErrorView,
            >(
                (ConfigErrorView::InvalidValue {
                    name: "CLOUD_PATH"@,
                    value: path->0,
                    reason: "must contain at least one non-'/' segment"@,
                }),
            )
            &&& bucket is Some && path is Some && !slashes && region is None ==> chosen == Err::<
                StorageProviderView,
                ConfigErrorView,
            >((ConfigErrorView::Missing { name: "AWS_REGION"@ }))
            &&& bucket is Some && path is Some && !slashes && region is Some ==> chosen == Ok::<
                StorageProviderView,
                ConfigErrorView,
            >(
                (StorageProviderView::Aws {
                    bucket: bucket->0,
                    path: text::without_edge_slashes(path->0),
                    region: region->0,
                }),
            )
        }),
{
    lemma_tags_differ();
    let path = picked(env, "CLOUD_PATH"@, text::opt_view(storage.aws.path));
    if let Some(raw) = path {
        lemma_slashes_only(raw);
    }
}

proof fn lemma_slashes_only(s: Seq<char>)
    ensures
        text::without_edge_slashes(s).len() == 0 <==> forall|k: int|
            0 <= k < s.len() ==> #[trigger] s[k] == '/',
{
    law_edge_slashes_only(s);
    let kept = text::without_edge_slashes(s);
    let from = choose|from: int|
        {
            &&& 0 <= from
            &&& from + kept.len() <= s.len()
            &&& kept == #[trigger] s.subrange(from, from + kept.len())
            &&& forall|k: int|
                0 <= k < from || from + kept.len() <= k < s.len() ==> #[trigger] s[k] == '/'
        };
    if kept.len() > 0 {
        assert(kept[0] == s[from]);
    }
}

/// Google Cloud Storage needs a bucket and the path of a key file, asked for in this
/// order.
pub proof fn law_gcs_settings(env: Environment, storage: StorageSettings)
    requires
        tag_of(env, storage) == Some("gcs"@),
    ensures
        ({
            let bucket = picked(env, "CLOUD_BUCKET"@, text::opt_view(storage.gcs.bucket));
            let credentials_path = picked(
                env,
                "GCS_CREDENTIALS_PATH"@,
                text::opt_view(storage.gcs.credentials_path),
            );
            let chosen = selected_provider(env, storage);
            &&& bucket is None ==> chosen == Err::<StorageProviderView, ConfigErrorView>(
                (ConfigErrorView::Missing { name: "CLOUD_BUCKET"@ }),
            )
            &&& bucket is Some && credentials_path is None ==> chosen == Err::<
                StorageProviderView,
                ConfigErrorView,
            >((ConfigErrorView::Missing { name: "GCS_CREDENTIALS_PATH"@ }))
            &&& bucket is Some && credentials_path is Some ==> chosen == Ok::<
                StorageProviderView,
                ConfigErrorView,
            >(
                (StorageProviderView::Gcs {
                    bucket: bucket->0,
                    credentials_path: credentials_path->0,
                }),
            )
        }),
{
    lemma_tags_differ();
}

/// A location is the scheme of its backend, and the root, or the bucket and the path,
/// behind it.
pub proof fn law_locations_name_the_place(root: Seq<char>, bucket: Seq<char>, path: Seq<char>)
    ensures
        (StorageProviderView::FileSystem { root }).location() == seq![
            'f',
            'i',
            'l',
            'e',
            ':',
            '/',
            '/',
        ] + root,
        forall|region: Seq<char>|
            (#[trigger] (StorageProviderView::Aws { bucket, path, region }).location()) == seq![
                's',
                '3',
                ':',
                '/',
                '/',
            ] + bucket + seq!['/'] + path,
        forall|credentials_path: Seq<char>|
            (#[trigger] (StorageProviderView::Gcs { bucket, credentials_path }).location()) == seq![
                'g',
                's',
                ':',
                '/',
                '/',
            ] + bucket,
{
    reveal_strlit("file://");
    reveal_strlit("s3://");
    reveal_strlit("gs://");
    reveal_strlit("/");
    assert("file://"@ =~= seq!['f', 'i', 'l', 'e', ':', '/', '/']);
    assert("s3://"@ =~= seq!['s', '3', ':', '/', '/']);
    assert("gs://"@ =~= seq!['g', 's', ':', '/', '/']);
    assert("/"@ =~= seq!['/']);
}

// ---------------------------------------------------------------------------
// The config file
// ---------------------------------------------------------------------------
/// A run environment names a file exactly if it is made of ASCII letters, digits, `-`
/// and `_`.
pub proof fn law_file_names(name: Seq<char>)
    ensures
        is_safe_name(name) <==> forall|k: int|
            0 <= k < name.len() ==> {
                let c = #[trigger] name[k];
                'a' <= c <= 'z' || 'A' <= c <= 'Z' || '0' <= c <= '9' || c == '-' || c == '_'
            },
{
    if forall|k: int|
        0 <= k < name.len() ==> {
            let c = #[trigger] name[k];
            'a' <= c <= 'z' || 'A' <= c <= 'Z' || '0' <= c <= '9' || c == '-' || c == '_'
        } {
        assert(is_safe_name(name));
    }
}

/// A file that is there counts as it was parsed; one that is not there, and a run
/// environment that names none, counts as an empty one; and one that cannot be read or
/// parsed is an error that names it and its cause.
pub proof fn law_files_are_read_or_refused(
    run_env: Seq<char>,
    env: Environment,
    read: FileRead,
)
    ensures
        !is_safe_name(run_env) ==> configured(run_env, env, read) == layered(env, no_settings()),
        is_safe_name(run_env) ==> match read {
            FileRead::NotFound => configured(run_env, env, read) == layered(env, no_settings()),
            FileRead::Parsed(file) => configured(run_env, env, read) == layered(env, file),
            FileRead::Unreadable(cause) => configured(run_env, env, read) == Err::<
                ConfigView,
                ConfigErrorView,
            >(
                (ConfigErrorView::FileUnreadable {
                    path: "config/"@ + run_env + ".toml"@,
                    source: cause@,
                }),
            ),
            FileRead::Unparseable(cause) => configured(run_env, env, read) == Err::<
                ConfigView,
                ConfigErrorView,
            >(
                (ConfigErrorView::FileUnparseable {
                    path: "config/"@ + run_env + ".toml"@,
                    source: cause@,
                }),
            ),
        },
{
}

} // verus!
