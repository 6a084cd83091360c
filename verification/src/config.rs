//! Centralized, fail-fast application configuration.
//!
//! A setting is resolved layer by layer, the highest first:
//!
//! 1. the process environment (with `.env` merged into it beforehand when the
//!    run environment is `development`);
//! 2. `config/<RUN_ENV>.toml`, as the typed [`FileSettings`] tree;
//! 3. the built-in defaults of [`crate::consts`].
//!
//! Unset and blank count as the same thing in every layer. The functions here
//! are pure: the environment is an argument, and so is what became of reading
//! the file.

use crate::consts::{
    DEFAULT_CONSUMER_GROUP, DEFAULT_MAX_WINDOW_BYTES, DEFAULT_RUN_ENV, DEFAULT_STORAGE_ROOT,
    DEFAULT_SYNC_DURATION_SECS, ENV_AWS_REGION, ENV_BROKERS, ENV_BUCKET, ENV_CLOUD_PATH,
    ENV_CONSUMER_GROUP, ENV_GCS_CREDENTIALS_PATH, ENV_MAX_WINDOW_BYTES, ENV_OBJECT_STORAGE,
    ENV_RUN_ENV, ENV_STORAGE_ROOT, ENV_SYNC_DURATION, ENV_TOPICS,
};
use crate::error::{ConfigError, ConfigErrorView};
use crate::text;
use vstd::prelude::*;

verus! {

// ---------------------------------------------------------------------------
// The environment
// ---------------------------------------------------------------------------
/// An environment: the text that each variable holds.
pub type Environment = spec_fn(Seq<char>) -> Option<Seq<char>>;

/// `lookup` answers every question from the environment `env`.
pub open spec fn answers_from<F: Fn(&str) -> Option<String>>(lookup: &F, env: Environment) -> bool {
    forall|name: &str, answer: Option<String>|
        call_ensures(lookup, (name,), answer) ==> text::opt_view(answer) == env(name@)
}

/// A value that is there and not blank, without the white space around it.
pub open spec fn nonblank(value: Option<Seq<char>>) -> Option<Seq<char>> {
    match value {
        Some(raw) => if text::trimmed(raw).len() > 0 {
            Some(text::trimmed(raw))
        } else {
            None
        },
        None => None,
    }
}

/// A setting resolved layer by layer: the environment wins over the file.
pub open spec fn picked(env: Environment, name: Seq<char>, file: Option<Seq<char>>) -> Option<
    Seq<char>,
> {
    match nonblank(env(name)) {
        Some(value) => Some(value),
        None => nonblank(file),
    }
}

fn nonblank_text(raw: &str) -> (value: Option<String>)
    ensures
        text::opt_view(value) == nonblank(Some(raw@)),
{
    let trimmed = text::trim(raw);
    if trimmed.is_empty() {
        None
    } else {
        Some(trimmed.to_owned())
    }
}

/// Looks an environment variable up, treating missing and blank values
/// identically.
pub fn optional(lookup: &impl Fn(&str) -> Option<String>, name: &str) -> (value: Option<String>)
    requires
        forall|n: &str| call_requires(lookup, (n,)),
    ensures
        forall|env: Environment| #[trigger]
            answers_from(lookup, env) ==> text::opt_view(value) == nonblank(env(name@)),
{
    let answer = lookup(name);
    match answer {
        Some(raw) => nonblank_text(raw.as_str()),
        None => None,
    }
}

/// Resolves one scalar setting layer by layer: the environment wins over the
/// config file, and unset or blank in either counts as absent.
pub fn pick(
    lookup: &impl Fn(&str) -> Option<String>,
    name: &str,
    file: &Option<String>,
) -> (value: Option<String>)
    requires
        forall|n: &str| call_requires(lookup, (n,)),
    ensures
        forall|env: Environment| #[trigger]
            answers_from(lookup, env) ==> text::opt_view(value) == picked(
                env,
                name@,
                text::opt_view(*file),
            ),
{
    match optional(lookup, name) {
        Some(value) => Some(value),
        None => match file {
            Some(raw) => nonblank_text(raw.as_str()),
            None => None,
        },
    }
}

/// Fails fast when a layered scalar resolved to nothing.
pub fn required(value: Option<String>, name: &'static str) -> (text: Result<String, ConfigError>)
    ensures
        text_result(text) == required_text(text::opt_view(value), name@),
{
    match value {
        Some(value) => Ok(value),
        None => Err(ConfigError::Missing { name }),
    }
}

/// A value that must be there.
pub open spec fn required_text(value: Option<Seq<char>>, name: Seq<char>) -> Result<
    Seq<char>,
    ConfigErrorView,
> {
    match value {
        Some(value) => Ok(value),
        None => Err(ConfigErrorView::Missing { name }),
    }
}

pub open spec fn text_result(result: Result<String, ConfigError>) -> Result<
    Seq<char>,
    ConfigErrorView,
> {
    match result {
        Ok(value) => Ok(value@),
        Err(error) => Err(error@),
    }
}

/// The entries of a comma-separated value, of which there must be one at least.
pub open spec fn required_entries(value: Option<Seq<char>>, name: Seq<char>) -> Result<
    Seq<Seq<char>>,
    ConfigErrorView,
> {
    match value {
        Some(raw) => if text::list_entries(raw).len() > 0 {
            Ok(text::list_entries(raw))
        } else {
            Err(ConfigErrorView::Missing { name })
        },
        None => Err(ConfigErrorView::Missing { name }),
    }
}

pub open spec fn list_result(result: Result<Vec<String>, ConfigError>) -> Result<
    Seq<Seq<char>>,
    ConfigErrorView,
> {
    match result {
        Ok(entries) => Ok(text::views(entries@)),
        Err(error) => Err(error@),
    }
}

/// Fails fast when no non-empty entries remain after splitting and trimming a
/// comma-separated layered scalar.
pub fn required_list(value: Option<String>, name: &'static str) -> (entries: Result<
    Vec<String>,
    ConfigError,
>)
    ensures
        list_result(entries) == required_entries(text::opt_view(value), name@),
{
    match value {
        Some(raw) => {
            let entries = text::parse_list(raw.as_str());
            assert(text::views(entries@).len() == entries@.len());
            if entries.is_empty() {
                Err(ConfigError::Missing { name })
            } else {
                Ok(entries)
            }
        },
        None => Err(ConfigError::Missing { name }),
    }
}

/// A number resolved layer by layer: one that the environment gives must parse
/// and be at most `max`; without it the file's number counts.
pub open spec fn layered_number(
    env: Environment,
    name: Seq<char>,
    file: Option<int>,
    max: int,
) -> Result<Option<int>, ConfigErrorView> {
    match nonblank(env(name)) {
        Some(raw) => match text::natural_up_to(raw, max) {
            Some(number) => Ok(Some(number as int)),
            None => Err(
                ConfigErrorView::InvalidValue {
                    name,
                    value: raw,
                    reason: "expected a positive integer"@,
                },
            ),
        },
        None => Ok(file),
    }
}

pub open spec fn u64_option(value: Option<u64>) -> Option<int> {
    match value {
        Some(number) => Some(number as int),
        None => None,
    }
}

pub open spec fn usize_option(value: Option<usize>) -> Option<int> {
    match value {
        Some(number) => Some(number as int),
        None => None,
    }
}

/// The environment wins over the file value; text from the environment must
/// parse. When both are absent, `None` flows through, so that the caller
/// applies its default.
pub fn layer_u64(
    lookup: &impl Fn(&str) -> Option<String>,
    name: &'static str,
    file: Option<u64>,
) -> (value: Result<Option<u64>, ConfigError>)
    requires
        forall|n: &str| call_requires(lookup, (n,)),
    ensures
        forall|env: Environment| #[trigger]
            answers_from(lookup, env) ==> match value {
                Ok(number) => layered_number(env, name@, u64_option(file), u64::MAX as int) == Ok::<
                    Option<int>,
                    ConfigErrorView,
                >(u64_option(number)),
                Err(error) => layered_number(env, name@, u64_option(file), u64::MAX as int) == Err::<
                    Option<int>,
                    ConfigErrorView,
                >(error@),
            },
{
    match optional(lookup, name) {
        Some(raw) => match text::parse_natural(raw.as_str(), u64::MAX) {
            Some(number) => Ok(Some(number)),
            None => Err(
                ConfigError::InvalidValue {
                    name,
                    value: raw,
                    reason: "expected a positive integer",
                },
            ),
        },
        None => Ok(file),
    }
}

/// Same as [`layer_u64`], for `usize` settings.
pub fn layer_usize(
    lookup: &impl Fn(&str) -> Option<String>,
    name: &'static str,
    file: Option<usize>,
) -> (value: Result<Option<usize>, ConfigError>)
    requires
        forall|n: &str| call_requires(lookup, (n,)),
    ensures
        forall|env: Environment| #[trigger]
            answers_from(lookup, env) ==> match value {
                Ok(number) => layered_number(env, name@, usize_option(file), usize::MAX as int)
                    == Ok::<Option<int>, ConfigErrorView>(usize_option(number)),
                Err(error) => layered_number(env, name@, usize_option(file), usize::MAX as int)
                    == Err::<Option<int>, ConfigErrorView>(error@),
            },
{
    match optional(lookup, name) {
        Some(raw) => match text::parse_natural(raw.as_str(), usize::MAX as u64) {
            Some(number) => Ok(Some(number as usize)),
            None => Err(
                ConfigError::InvalidValue {
                    name,
                    value: raw,
                    reason: "expected a positive integer",
                },
            ),
        },
        None => Ok(file),
    }
}

// ---------------------------------------------------------------------------
// The config file
// ---------------------------------------------------------------------------
/// Raw shape of `config/<RUN_ENV>.toml`. Every field is optional: absence stays
/// distinguishable from presence until [`Config::from_layered`] runs.
#[derive(Debug)]
pub struct FileSettings {
    pub kafka: KafkaSettings,
    pub storage: StorageSettings,
}

/// `[kafka]`: lists stay comma-separated text, so that the file and the
/// environment share the same splitting.
#[derive(Debug)]
pub struct KafkaSettings {
    pub brokers: Option<String>,
    pub topics: Option<String>,
    pub consumer_group: Option<String>,
    pub sync_duration_secs: Option<u64>,
    pub max_window_bytes: Option<usize>,
}

/// `[storage]`: the provider tag plus one table per backend. A file may carry
/// several providers' settings at once; `provider` picks the one that is used.
#[derive(Debug)]
pub struct StorageSettings {
    pub provider: Option<String>,
    pub filesystem: FileSystemSettings,
    pub aws: AwsSettings,
    pub gcs: GcsSettings,
}

/// `[storage.filesystem]`
#[derive(Debug)]
pub struct FileSystemSettings {
    /// Local root for archived objects; falls back to `./logs`.
    pub path: Option<String>,
}

/// `[storage.aws]`
#[derive(Debug)]
pub struct AwsSettings {
    pub bucket: Option<String>,
    /// Required key prefix; objects land under `s3://<bucket>/<path>/`.
    pub path: Option<String>,
    pub region: Option<String>,
}

/// `[storage.gcs]`
#[derive(Debug)]
pub struct GcsSettings {
    pub bucket: Option<String>,
    /// Service-account JSON key file. The secret stays on disk: only the path
    /// ever appears in the configuration.
    pub credentials_path: Option<String>,
}

/// The settings of an empty file.
pub open spec fn no_settings() -> FileSettings {
    FileSettings {
        kafka: KafkaSettings {
            brokers: None,
            topics: None,
            consumer_group: None,
            sync_duration_secs: None,
            max_window_bytes: None,
        },
        storage: StorageSettings {
            provider: None,
            filesystem: FileSystemSettings { path: None },
            aws: AwsSettings { bucket: None, path: None, region: None },
            gcs: GcsSettings { bucket: None, credentials_path: None },
        },
    }
}

impl Default for FileSettings {
    /// An empty file.
    fn default() -> (settings: FileSettings)
        ensures
            settings == no_settings(),
    {
        FileSettings { kafka: KafkaSettings::default(), storage: StorageSettings::default() }
    }
}

impl Default for KafkaSettings {
    fn default() -> (settings: KafkaSettings)
        ensures
            settings == no_settings().kafka,
    {
        KafkaSettings {
            brokers: None,
            topics: None,
            consumer_group: None,
            sync_duration_secs: None,
            max_window_bytes: None,
        }
    }
}

impl Default for StorageSettings {
    fn default() -> (settings: StorageSettings)
        ensures
            settings == no_settings().storage,
    {
        StorageSettings {
            provider: None,
            filesystem: FileSystemSettings::default(),
            aws: AwsSettings::default(),
            gcs: GcsSettings::default(),
        }
    }
}

impl Default for FileSystemSettings {
    fn default() -> (settings: FileSystemSettings)
        ensures
            settings.path is None,
    {
        FileSystemSettings { path: None }
    }
}

impl Default for AwsSettings {
    fn default() -> (settings: AwsSettings)
        ensures
            settings.bucket is None,
            settings.path is None,
            settings.region is None,
    {
        AwsSettings { bucket: None, path: None, region: None }
    }
}

impl Default for GcsSettings {
    fn default() -> (settings: GcsSettings)
        ensures
            settings.bucket is None,
            settings.credentials_path is None,
    {
        GcsSettings { bucket: None, credentials_path: None }
    }
}

// ---------------------------------------------------------------------------
// The storage backend
// ---------------------------------------------------------------------------
/// Fully validated storage backend and its settings. Each variant carries
/// exactly what its backend requires.
#[derive(Debug, Clone, PartialEq, Eq)]
pub enum StorageProvider {
    /// Local filesystem. No authentication. `root` defaults to `./logs`.
    FileSystem { root: String },
    /// AWS S3 through the SDK's credential chain. `path` is a required key
    /// prefix: objects are written under `s3://<bucket>/<path>/`.
    Aws { bucket: String, path: String, region: String },
    /// Google Cloud Storage through a service-account JSON key file.
    Gcs { bucket: String, credentials_path: String },
}

/// What a [`StorageProvider`] names, as text.
#[verifier::ext_equal]
pub enum StorageProviderView {
    FileSystem { root: Seq<char> },
    Aws { bucket: Seq<char>, path: Seq<char>, region: Seq<char> },
    Gcs { bucket: Seq<char>, credentials_path: Seq<char> },
}

impl View for StorageProvider {
    type V = StorageProviderView;

    open spec fn view(&self) -> StorageProviderView {
        match self {
            StorageProvider::FileSystem { root } => StorageProviderView::FileSystem { root: root@ },
            StorageProvider::Aws { bucket, path, region } => StorageProviderView::Aws {
                bucket: bucket@,
                path: path@,
                region: region@,
            },
            StorageProvider::Gcs { bucket, credentials_path } => StorageProviderView::Gcs {
                bucket: bucket@,
                credentials_path: credentials_path@,
            },
        }
    }
}

impl Default for StorageProvider {
    /// The backend when everything is absent: local files under `./logs`.
    fn default() -> (provider: StorageProvider)
        ensures
            provider@ == (StorageProviderView::FileSystem { root: DEFAULT_STORAGE_ROOT@ }),
    {
        StorageProvider::FileSystem { root: DEFAULT_STORAGE_ROOT.to_owned() }
    }
}

impl StorageProviderView {
    /// Where objects go, as a URL. It holds the bucket or root only, never
    /// credentials.
    pub open spec fn location(self) -> Seq<char> {
        match self {
            StorageProviderView::FileSystem { root } => "file://"@ + root,
            StorageProviderView::Aws { bucket, path, .. } => "s3://"@ + bucket + "/"@ + path,
            StorageProviderView::Gcs { bucket, .. } => "gs://"@ + bucket,
        }
    }
}

impl StorageProvider {
    /// Where objects go, as a URL for the startup log line.
    pub fn location(&self) -> (location: String)
        ensures
            location@ == self@.location(),
    {
        match self {
            StorageProvider::FileSystem { root } => "file://".to_owned().concat(root.as_str()),
            StorageProvider::Aws { bucket, path, .. } => "s3://".to_owned().concat(
                bucket.as_str(),
            ).concat("/").concat(path.as_str()),
            StorageProvider::Gcs { bucket, .. } => "gs://".to_owned().concat(bucket.as_str()),
        }
    }
}

/// The provider that a configured tag selects.
#[derive(Debug, Clone, Copy, PartialEq, Eq, Structural)]
pub enum ProviderTag {
    FileSystem,
    Aws,
    Gcs,
}

/// The provider that `raw` names, whatever its ASCII case.
pub open spec fn provider_tag(raw: Seq<char>) -> Result<ProviderTag, ConfigErrorView> {
    let tag = text::ascii_lower(raw);
    if tag == "filesystem"@ {
        Ok(ProviderTag::FileSystem)
    } else if tag == "aws"@ {
        Ok(ProviderTag::Aws)
    } else if tag == "gcs"@ {
        Ok(ProviderTag::Gcs)
    } else {
        Err(
            ConfigErrorView::InvalidValue {
                name: ENV_OBJECT_STORAGE@,
                value: tag,
                reason: "supported providers: FileSystem, AWS, GCS"@,
            },
        )
    }
}

impl ProviderTag {
    /// Parses the configured tag: the single place where it is matched as text.
    pub fn from_str(raw: &str) -> (tag: Result<ProviderTag, ConfigError>)
        ensures
            match tag {
                Ok(tag) => provider_tag(raw@) == Ok::<ProviderTag, ConfigErrorView>(tag),
                Err(error) => provider_tag(raw@) == Err::<ProviderTag, ConfigErrorView>(error@),
            },
    {
        let tag = text::to_ascii_lower(raw);
        if tag == "filesystem".to_owned() {
            Ok(ProviderTag::FileSystem)
        } else if tag == "aws".to_owned() {
            Ok(ProviderTag::Aws)
        } else if tag == "gcs".to_owned() {
            Ok(ProviderTag::Gcs)
        } else {
            Err(
                ConfigError::InvalidValue {
                    name: ENV_OBJECT_STORAGE,
                    value: tag,
                    reason: "supported providers: FileSystem, AWS, GCS",
                },
            )
        }
    }
}

/// The provider tag; absent selects the filesystem.
pub open spec fn selected_tag(env: Environment, storage: StorageSettings) -> Result<
    ProviderTag,
    ConfigErrorView,
> {
    match picked(env, ENV_OBJECT_STORAGE@, text::opt_view(storage.provider)) {
        Some(raw) => provider_tag(raw),
        None => Ok(ProviderTag::FileSystem),
    }
}

/// The filesystem backend: its root may be left out.
pub open spec fn filesystem_provider(
    env: Environment,
    settings: FileSystemSettings,
) -> StorageProviderView {
    StorageProviderView::FileSystem {
        root: match picked(env, ENV_STORAGE_ROOT@, text::opt_view(settings.path)) {
            Some(root) => root,
            None => DEFAULT_STORAGE_ROOT@,
        },
    }
}

/// The S3 backend: bucket, path and region must be there, and the path must
/// hold something besides slashes.
pub open spec fn aws_provider(env: Environment, settings: AwsSettings) -> Result<
    StorageProviderView,
    ConfigErrorView,
> {
    let bucket = picked(env, ENV_BUCKET@, text::opt_view(settings.bucket));
    let path = picked(env, ENV_CLOUD_PATH@, text::opt_view(settings.path));
    let region = picked(env, ENV_AWS_REGION@, text::opt_view(settings.region));
    if bucket is None {
        Err(ConfigErrorView::Missing { name: ENV_BUCKET@ })
    } else if path is None {
        Err(ConfigErrorView::Missing { name: ENV_CLOUD_PATH@ })
    } else if text::without_edge_slashes(path->0).len() == 0 {
        Err(
            ConfigErrorView::InvalidValue {
                name: ENV_CLOUD_PATH@,
                value: path->0,
                reason: "must contain at least one non-'/' segment"@,
            },
        )
    } else if region is None {
        Err(ConfigErrorView::Missing { name: ENV_AWS_REGION@ })
    } else {
        Ok(
            StorageProviderView::Aws {
                bucket: bucket->0,
                path: text::without_edge_slashes(path->0),
                region: region->0,
            },
        )
    }
}

/// The GCS backend: bucket and credentials path must be there.
pub open spec fn gcs_provider(env: Environment, settings: GcsSettings) -> Result<
    StorageProviderView,
    ConfigErrorView,
> {
    let bucket = picked(env, ENV_BUCKET@, text::opt_view(settings.bucket));
    let credentials_path = picked(
        env,
        ENV_GCS_CREDENTIALS_PATH@,
        text::opt_view(settings.credentials_path),
    );
    if bucket is None {
        Err(ConfigErrorView::Missing { name: ENV_BUCKET@ })
    } else if credentials_path is None {
        Err(ConfigErrorView::Missing { name: ENV_GCS_CREDENTIALS_PATH@ })
    } else {
        Ok(
            StorageProviderView::Gcs { bucket: bucket->0, credentials_path: credentials_path->0 },
        )
    }
}

/// The storage backend: the tag selects the table, and only the settings of
/// that table are asked for.
pub open spec fn selected_provider(env: Environment, storage: StorageSettings) -> Result<
    StorageProviderView,
    ConfigErrorView,
> {
    match selected_tag(env, storage) {
        Ok(ProviderTag::FileSystem) => Ok(filesystem_provider(env, storage.filesystem)),
        Ok(ProviderTag::Aws) => aws_provider(env, storage.aws),
        Ok(ProviderTag::Gcs) => gcs_provider(env, storage.gcs),
        Err(error) => Err(error),
    }
}

pub open spec fn provider_result(result: Result<StorageProvider, ConfigError>) -> Result<
    StorageProviderView,
    ConfigErrorView,
> {
    match result {
        Ok(provider) => Ok(provider@),
        Err(error) => Err(error@),
    }
}

/// Branches on the provider tag, then demands only that variant's settings.
/// Pure: paths are never touched on disk here.
pub fn parse_storage_provider(
    lookup: &impl Fn(&str) -> Option<String>,
    storage: &StorageSettings,
) -> (provider: Result<StorageProvider, ConfigError>)
    requires
        forall|n: &str| call_requires(lookup, (n,)),
    ensures
        forall|env: Environment| #[trigger]
            answers_from(lookup, env) ==> provider_result(provider) == selected_provider(
                env,
                *storage,
            ),
{
    // The tag only selects the arm: the filesystem root is resolved inside its
    // arm, so that an explicit root is honoured even with no provider set.
    let tag = match pick(lookup, ENV_OBJECT_STORAGE, &storage.provider) {
        Some(raw) => match ProviderTag::from_str(raw.as_str()) {
            Ok(tag) => tag,
            Err(error) => return Err(error),
        },
        None => ProviderTag::FileSystem,
    };
    match tag {
        ProviderTag::FileSystem => {
            let root = match pick(lookup, ENV_STORAGE_ROOT, &storage.filesystem.path) {
                Some(root) => root,
                None => DEFAULT_STORAGE_ROOT.to_owned(),
            };
            Ok(StorageProvider::FileSystem { root })
        },
        ProviderTag::Aws => {
            let bucket = required(pick(lookup, ENV_BUCKET, &storage.aws.bucket), ENV_BUCKET)?;
            // A path of slashes only is not blank, yet names nothing.
            let raw_path = required(
                pick(lookup, ENV_CLOUD_PATH, &storage.aws.path),
                ENV_CLOUD_PATH,
            )?;
            let path = text::strip(raw_path.as_str(), text::Trimming::Only('/')).to_owned();
            if path.as_str().is_empty() {
                return Err(
                    ConfigError::InvalidValue {
                        name: ENV_CLOUD_PATH,
                        value: raw_path,
                        reason: "must contain at least one non-'/' segment",
                    },
                );
            }
            let region = required(
                pick(lookup, ENV_AWS_REGION, &storage.aws.region),
                ENV_AWS_REGION,
            )?;
            Ok(StorageProvider::Aws { bucket, path, region })
        },
        ProviderTag::Gcs => {
            let bucket = required(pick(lookup, ENV_BUCKET, &storage.gcs.bucket), ENV_BUCKET)?;
            let credentials_path = required(
                pick(lookup, ENV_GCS_CREDENTIALS_PATH, &storage.gcs.credentials_path),
                ENV_GCS_CREDENTIALS_PATH,
            )?;
            Ok(StorageProvider::Gcs { bucket, credentials_path })
        },
    }
}

// ---------------------------------------------------------------------------
// The validated configuration
// ---------------------------------------------------------------------------
/// Fully validated application configuration.
#[derive(Debug, Clone, PartialEq, Eq)]
pub struct Config {
    pub run_env: String,
    pub kafka_brokers: Vec<String>,
    pub kafka_topics: Vec<String>,
    pub kafka_consumer_group: String,
    /// Length of a window, in seconds.
    pub sync_duration_secs: u64,
    /// The payload at which a topic's window closes. Its last record may cross
    /// this bound.
    pub max_window_bytes: usize,
    /// The validated storage backend.
    pub storage: StorageProvider,
}

/// What a [`Config`] holds, as text and numbers.
#[verifier::ext_equal]
pub struct ConfigView {
    pub run_env: Seq<char>,
    pub kafka_brokers: Seq<Seq<char>>,
    pub kafka_topics: Seq<Seq<char>>,
    pub kafka_consumer_group: Seq<char>,
    pub sync_duration_secs: int,
    pub max_window_bytes: int,
    pub storage: StorageProviderView,
}

impl View for Config {
    type V = ConfigView;

    open spec fn view(&self) -> ConfigView {
        ConfigView {
            run_env: self.run_env@,
            kafka_brokers: text::views(self.kafka_brokers@),
            kafka_topics: text::views(self.kafka_topics@),
            kafka_consumer_group: self.kafka_consumer_group@,
            sync_duration_secs: self.sync_duration_secs as int,
            max_window_bytes: self.max_window_bytes as int,
            storage: self.storage@,
        }
    }
}

/// A text, or its default.
pub open spec fn text_or(value: Option<Seq<char>>, default: Seq<char>) -> Seq<char> {
    match value {
        Some(value) => value,
        None => default,
    }
}

/// A layered number that may not be zero, or its default.
pub open spec fn positive_or(
    number: Result<Option<int>, ConfigErrorView>,
    default: int,
    name: Seq<char>,
    reason: Seq<char>,
) -> Result<int, ConfigErrorView> {
    match number {
        Ok(Some(value)) => if value == 0 {
            Err(ConfigErrorView::InvalidValue { name, value: "0"@, reason })
        } else {
            Ok(value)
        },
        Ok(None) => Ok(default),
        Err(error) => Err(error),
    }
}

/// The brokers that the layers give.
pub open spec fn layered_brokers(env: Environment, file: FileSettings) -> Result<
    Seq<Seq<char>>,
    ConfigErrorView,
> {
    required_entries(picked(env, ENV_BROKERS@, text::opt_view(file.kafka.brokers)), ENV_BROKERS@)
}

/// The topics that the layers give.
pub open spec fn layered_topics(env: Environment, file: FileSettings) -> Result<
    Seq<Seq<char>>,
    ConfigErrorView,
> {
    required_entries(picked(env, ENV_TOPICS@, text::opt_view(file.kafka.topics)), ENV_TOPICS@)
}

/// The length of a window that the layers give, in seconds.
pub open spec fn layered_duration(env: Environment, file: FileSettings) -> Result<
    int,
    ConfigErrorView,
> {
    positive_or(
        layered_number(
            env,
            ENV_SYNC_DURATION@,
            u64_option(file.kafka.sync_duration_secs),
            u64::MAX as int,
        ),
        DEFAULT_SYNC_DURATION_SECS as int,
        ENV_SYNC_DURATION@,
        "duration must be at least 1 second"@,
    )
}

/// The payload bound of a window that the layers give.
pub open spec fn layered_window_bytes(env: Environment, file: FileSettings) -> Result<
    int,
    ConfigErrorView,
> {
    positive_or(
        layered_number(
            env,
            ENV_MAX_WINDOW_BYTES@,
            usize_option(file.kafka.max_window_bytes),
            usize::MAX as int,
        ),
        DEFAULT_MAX_WINDOW_BYTES as int,
        ENV_MAX_WINDOW_BYTES@,
        "value must be at least 1"@,
    )
}

/// The configuration that an environment over a file gives: the first invalid
/// setting fails it, in the order brokers, topics, window length, payload
/// bound, storage.
pub open spec fn layered(env: Environment, file: FileSettings) -> Result<
    ConfigView,
    ConfigErrorView,
> {
    let brokers = layered_brokers(env, file);
    let topics = layered_topics(env, file);
    let duration = layered_duration(env, file);
    let window_bytes = layered_window_bytes(env, file);
    let storage = selected_provider(env, file.storage);
    if brokers is Err {
        Err(brokers->Err_0)
    } else if topics is Err {
        Err(topics->Err_0)
    } else if duration is Err {
        Err(duration->Err_0)
    } else if window_bytes is Err {
        Err(window_bytes->Err_0)
    } else if storage is Err {
        Err(storage->Err_0)
    } else {
        Ok(
            ConfigView {
                run_env: text_or(nonblank(env(ENV_RUN_ENV@)), DEFAULT_RUN_ENV@),
                kafka_brokers: brokers->Ok_0,
                kafka_topics: topics->Ok_0,
                kafka_consumer_group: text_or(
                    picked(env, ENV_CONSUMER_GROUP@, text::opt_view(file.kafka.consumer_group)),
                    DEFAULT_CONSUMER_GROUP@,
                ),
                sync_duration_secs: duration->Ok_0,
                max_window_bytes: window_bytes->Ok_0,
                storage: storage->Ok_0,
            },
        )
    }
}

pub open spec fn config_result(result: Result<Config, ConfigError>) -> Result<
    ConfigView,
    ConfigErrorView,
> {
    match result {
        Ok(config) => Ok(config@),
        Err(error) => Err(error@),
    }
}

/// The configuration that an environment over what was read of the config file
/// gives: a run environment that names no file, or a file that is not there,
/// counts as an empty file.
pub open spec fn configured(run_env: Seq<char>, env: Environment, read: FileRead) -> Result<
    ConfigView,
    ConfigErrorView,
> {
    let path = "config/"@ + run_env + ".toml"@;
    if !is_safe_name(run_env) {
        layered(env, no_settings())
    } else {
        match read {
            FileRead::NotFound => layered(env, no_settings()),
            FileRead::Unreadable(cause) => Err(
                ConfigErrorView::FileUnreadable { path, source: cause@ },
            ),
            FileRead::Unparseable(cause) => Err(
                ConfigErrorView::FileUnparseable { path, source: cause@ },
            ),
            FileRead::Parsed(file) => layered(env, file),
        }
    }
}

impl Config {
    /// Layers the environment over the config file of `run_env` over the built-in
    /// defaults and validates the result. `read` is what became of reading the
    /// file at [`config_file_path`].
    pub fn from_env(
        run_env: &str,
        lookup: &impl Fn(&str) -> Option<String>,
        read: FileRead,
    ) -> (config: Result<Config, ConfigError>)
        requires
            forall|n: &str| call_requires(lookup, (n,)),
        ensures
            forall|env: Environment| #[trigger]
                answers_from(lookup, env) ==> config_result(config) == configured(
                    run_env@,
                    env,
                    read,
                ),
    {
        let settings = match config_file_path(run_env) {
            Some(path) => load_config_file(path, read)?,
            None => None,
        };
        let file = match settings {
            Some(file) => file,
            None => FileSettings::default(),
        };
        Config::from_layered(lookup, &file)
    }

    /// Builds a [`Config`] from an arbitrary environment lookup and a parsed
    /// config file: no I/O, no panics, no access to the process environment.
    pub fn from_layered(
        lookup: &impl Fn(&str) -> Option<String>,
        file: &FileSettings,
    ) -> (config: Result<Config, ConfigError>)
        requires
            forall|n: &str| call_requires(lookup, (n,)),
        ensures
            forall|env: Environment| #[trigger]
                answers_from(lookup, env) ==> config_result(config) == layered(env, *file),
    {
        let run_env = run_environment(lookup);
        // Data-path and identity settings are required: silently falling back
        // would start the service pointed at the wrong infrastructure.
        let kafka_brokers = required_list(
            pick(lookup, ENV_BROKERS, &file.kafka.brokers),
            ENV_BROKERS,
        )?;
        let kafka_topics = required_list(pick(lookup, ENV_TOPICS, &file.kafka.topics), ENV_TOPICS)?;
        let kafka_consumer_group = match pick(
            lookup,
            ENV_CONSUMER_GROUP,
            &file.kafka.consumer_group,
        ) {
            Some(group) => group,
            None => DEFAULT_CONSUMER_GROUP.to_owned(),
        };
        let sync_duration_secs: u64 = match layer_u64(
            lookup,
            ENV_SYNC_DURATION,
            file.kafka.sync_duration_secs,
        )? {
            Some(secs) => {
                if secs == 0 {
                    return Err(
                        ConfigError::InvalidValue {
                            name: ENV_SYNC_DURATION,
                            value: "0".to_owned(),
                            reason: "duration must be at least 1 second",
                        },
                    );
                }
                secs
            },
            None => DEFAULT_SYNC_DURATION_SECS,
        };
        let max_window_bytes: usize = match layer_usize(
            lookup,
            ENV_MAX_WINDOW_BYTES,
            file.kafka.max_window_bytes,
        )? {
            Some(bytes) => {
                if bytes == 0 {
                    return Err(
                        ConfigError::InvalidValue {
                            name: ENV_MAX_WINDOW_BYTES,
                            value: "0".to_owned(),
                            reason: "value must be at least 1",
                        },
                    );
                }
                bytes
            },
            None => DEFAULT_MAX_WINDOW_BYTES,
        };
        let storage = parse_storage_provider(lookup, &file.storage)?;
        Ok(
            Config {
                run_env,
                kafka_brokers,
                kafka_topics,
                kafka_consumer_group,
                sync_duration_secs,
                max_window_bytes,
                storage,
            },
        )
    }
}

/// The run environment: `RUN_ENV`, or `development`.
pub fn run_environment(lookup: &impl Fn(&str) -> Option<String>) -> (run_env: String)
    requires
        forall|n: &str| call_requires(lookup, (n,)),
    ensures
        forall|env: Environment| #[trigger]
            answers_from(lookup, env) ==> run_env@ == text_or(
                nonblank(env(ENV_RUN_ENV@)),
                DEFAULT_RUN_ENV@,
            ),
{
    match optional(lookup, ENV_RUN_ENV) {
        Some(run_env) => run_env,
        None => DEFAULT_RUN_ENV.to_owned(),
    }
}

/// Whether a `.env` file is merged into the environment: in the default run
/// environment only.
pub fn reads_dotenv(run_env: &str) -> (reads: bool)
    ensures
        reads == (run_env@ == DEFAULT_RUN_ENV@),
{
    run_env.to_owned() == DEFAULT_RUN_ENV.to_owned()
}

/// The characters that a config file name may be made of.
pub open spec fn is_name_char(c: char) -> bool {
    ||| 'a' <= c <= 'z'
    ||| 'A' <= c <= 'Z'
    ||| '0' <= c <= '9'
    ||| c == '-'
    ||| c == '_'
}

pub open spec fn is_safe_name(name: Seq<char>) -> bool {
    forall|i: int| 0 <= i < name.len() ==> is_name_char(#[trigger] name[i])
}

/// `config/<run_env>.toml`, where `run_env` is made of `[a-zA-Z0-9_-]` only: an
/// odd `RUN_ENV` selects no file rather than a path of its own making.
pub fn config_file_path(run_env: &str) -> (path: Option<String>)
    ensures
        text::opt_view(path) == if is_safe_name(run_env@) {
            Some("config/"@ + run_env@ + ".toml"@)
        } else {
            None
        },
{
    let chars = text::chars_of(run_env);
    let n: usize = chars.len();
    let mut i: usize = 0;
    while i < n
        invariant
            n == chars.len(),
            i <= n,
            chars@ == run_env@,
            forall|k: int| 0 <= k < i ==> is_name_char(#[trigger] run_env@[k]),
        decreases n - i,
    {
        let c = chars[i];
        let safe = ('a' <= c && c <= 'z') || ('A' <= c && c <= 'Z') || ('0' <= c && c <= '9') || c
            == '-' || c == '_';
        if !safe {
            assert(!is_name_char(run_env@[i as int]));
            return None;
        }
        i = i + 1;
    }
    Some("config/".to_owned().concat(run_env).concat(".toml"))
}

/// What became of reading the config file.
#[derive(Debug)]
pub enum FileRead {
    /// There is no such file.
    NotFound,
    /// The file is there, but reading it failed.
    Unreadable(String),
    /// The file was read, but its contents are not valid.
    Unparseable(String),
    /// The file holds these settings.
    Parsed(FileSettings),
}

/// The settings of the config file: a missing file is fine, an unreadable or
/// invalid one fails fast.
pub fn load_config_file(path: String, read: FileRead) -> (settings: Result<
    Option<FileSettings>,
    ConfigError,
>)
    ensures
        match read {
            FileRead::NotFound => settings == Ok::<Option<FileSettings>, ConfigError>(None),
            FileRead::Unreadable(source) => settings == Err::<Option<FileSettings>, ConfigError>(
                ConfigError::FileUnreadable { path, source },
            ),
            FileRead::Unparseable(source) => settings == Err::<Option<FileSettings>, ConfigError>(
                ConfigError::FileUnparseable { path, source },
            ),
            FileRead::Parsed(parsed) => settings == Ok::<Option<FileSettings>, ConfigError>(
                Some(parsed),
            ),
        },
{
    match read {
        FileRead::NotFound => Ok(None),
        FileRead::Unreadable(source) => Err(ConfigError::FileUnreadable { path, source }),
        FileRead::Unparseable(source) => Err(ConfigError::FileUnparseable { path, source }),
        FileRead::Parsed(parsed) => Ok(Some(parsed)),
    }
}

} // verus!
