//! Archives Kafka topics to object storage in time windows, at least once.
//!
//! Per window and topic, messages are drained into memory ([`kafka`]), uploaded
//! under a deterministic key ([`object_key`], [`storage`]), and only then
//! committed ([`backfill`]). What this promises as a whole is stated and proved
//! in [`delivery`]; what each part promises of its inputs and results, in
//! [`operation_laws`], [`window_laws`], [`sync_laws`], [`key_laws`], [`text_laws`],
//! [`config_laws`], [`settings_laws`] and [`storage::filesystem_laws`].

pub mod backfill;
pub mod calendar;
pub mod config;
pub mod config_laws;
pub mod consts;
pub mod delivery;
pub mod error;
pub mod kafka;
pub mod key_laws;
pub mod object_key;
pub mod operation_laws;
pub mod settings_laws;
pub mod storage;
pub mod sync_laws;
pub mod text;
pub mod text_laws;
pub mod window_laws;
