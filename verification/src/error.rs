//! Error types, one enum per module.
//!
//! An error of an outside client is stored as it came; a cause that only has
//! to be reported is stored as its rendered text.

use rdkafka::error::KafkaError as ClientError;
use vstd::prelude::*;

verus! {

/// The error type of the Kafka client, carried through unread.
#[verifier::external_type_specification]
#[verifier::external_body]
pub struct ExClientError(ClientError);

/// The error type of a runtime task that did not finish, carried through unread.
#[verifier::external_type_specification]
#[verifier::external_body]
pub struct ExJoinError(tokio::task::JoinError);

/// Failures while loading or validating the process configuration.
#[derive(Debug)]
pub enum ConfigError {
    /// A required setting is unset or blank.
    Missing { name: &'static str },
    /// A setting holds a value that failed validation.
    InvalidValue { name: &'static str, value: String, reason: &'static str },
    /// The config file exists but could not be read.
    FileUnreadable { path: String, source: String },
    /// The config file was read but is not valid.
    FileUnparseable { path: String, source: String },
}

/// What a [`ConfigError`] says, as text.
#[verifier::ext_equal]
pub enum ConfigErrorView {
    Missing { name: Seq<char> },
    InvalidValue { name: Seq<char>, value: Seq<char>, reason: Seq<char> },
    FileUnreadable { path: Seq<char>, source: Seq<char> },
    FileUnparseable { path: Seq<char>, source: Seq<char> },
}

impl View for ConfigError {
    type V = ConfigErrorView;

    open spec fn view(&self) -> ConfigErrorView {
        match self {
            ConfigError::Missing { name } => ConfigErrorView::Missing { name: name@ },
            ConfigError::InvalidValue { name, value, reason } => ConfigErrorView::InvalidValue {
                name: name@,
                value: value@,
                reason: reason@,
            },
            ConfigError::FileUnreadable { path, source } => ConfigErrorView::FileUnreadable {
                path: path@,
                source: source@,
            },
            ConfigError::FileUnparseable { path, source } => ConfigErrorView::FileUnparseable {
                path: path@,
                source: source@,
            },
        }
    }
}

/// Failures reported by the Kafka ingestion layer.
#[derive(Debug)]
pub enum KafkaError {
    /// The consumer could not be created from the client config.
    Create { topic: String, source: ClientError },
    /// Subscribing to the topic failed.
    Subscribe { topic: String, source: ClientError },
    /// The current partition assignment could not be read.
    Assignment { topic: String, source: ClientError },
    /// A partition/offset pair could not be added to the commit list.
    CommitList { topic: String, source: ClientError },
    /// The broker rejected or failed the offset commit.
    Commit { topic: String, source: ClientError },
    /// The consumer could not be set back to where a failed window had begun.
    Rewind { topic: String, source: ClientError },
    /// The blocking task of a commit or a seek did not complete normally.
    Join { topic: String, source: tokio::task::JoinError },
}

/// Failures reported by the object-storage layer.
#[derive(Debug)]
pub enum StorageError {
    /// The backend could not be initialized at startup.
    Init { provider: &'static str, source: String },
    /// The object key would leave the storage root.
    InvalidKey { key: String },
    /// Uploading an object failed.
    PutObject { location: String, key: String, size: usize, source: String },
}

/// Failures while orchestrating a single backfill window.
#[derive(Debug)]
pub enum BackfillError {
    /// The Kafka stage of the window failed.
    Kafka(KafkaError),
    /// The object-storage stage of the window failed.
    Storage(StorageError),
}

} // verus!
