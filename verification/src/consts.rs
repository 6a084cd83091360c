//! Environment-variable names and built-in defaults for optional settings.

use vstd::prelude::*;

verus! {

pub const ENV_RUN_ENV: &'static str = "RUN_ENV";

pub const ENV_BROKERS: &'static str = "KAFKA_BROKERS";

pub const ENV_TOPICS: &'static str = "KAFKA_TOPICS";

pub const ENV_CONSUMER_GROUP: &'static str = "KAFKA_CONSUMER_GROUP";

pub const ENV_SYNC_DURATION: &'static str = "SYNC_DURATION";

pub const ENV_MAX_WINDOW_BYTES: &'static str = "KAFKA_MAX_WINDOW_BYTES";

pub const ENV_OBJECT_STORAGE: &'static str = "OBJECT_STORAGE";

pub const ENV_BUCKET: &'static str = "CLOUD_BUCKET";

pub const ENV_AWS_REGION: &'static str = "AWS_REGION";

/// Root directory of the FileSystem storage backend.
pub const ENV_STORAGE_ROOT: &'static str = "STORAGE_ROOT";

/// Service-account JSON key file for the GCS backend.
pub const ENV_GCS_CREDENTIALS_PATH: &'static str = "GCS_CREDENTIALS_PATH";

/// Required S3 key prefix: objects land under `s3://<bucket>/<path>/`.
pub const ENV_CLOUD_PATH: &'static str = "CLOUD_PATH";

/// Selects `config/<RUN_ENV>.toml` and enables `.env` loading.
pub const DEFAULT_RUN_ENV: &'static str = "development";

pub const DEFAULT_SYNC_DURATION_SECS: u64 = 10;

pub const DEFAULT_CONSUMER_GROUP: &'static str = "kafka-sync";

/// The payload at which a topic's window closes (256 MiB); its last record may
/// cross this bound.
pub const DEFAULT_MAX_WINDOW_BYTES: usize = 256 * 1024 * 1024;

/// Root used by the FileSystem backend when no `STORAGE_ROOT` is configured.
pub const DEFAULT_STORAGE_ROOT: &'static str = "./logs";

} // verus!
