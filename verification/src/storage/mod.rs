//! Object storage: where each backend puts an object, and what it reports.
//!
//! Every backend takes the same keys and addresses them in its own way. The
//! calls that reach a disk or a cloud are made elsewhere.

pub mod filesystem;
pub mod filesystem_laws;
pub mod gcs;
pub mod s3;

use crate::error::StorageError;
use vstd::prelude::*;

verus! {

/// How an upload ended, for the backend at `location`: a failure names where
/// the object should have gone and how large it was.
pub fn put_outcome(location: &str, key: &str, size: usize, reply: Result<(), String>) -> (outcome:
    Result<(), StorageError>)
    ensures
        match reply {
            Ok(()) => outcome is Ok,
            Err(cause) => outcome matches Err(
                StorageError::PutObject { location: l, key: k, size: s, source },
            ) && l@ == location@ && k@ == key@ && s == size && source == cause,
        },
{
    match reply {
        Ok(()) => Ok(()),
        Err(source) => Err(
            StorageError::PutObject {
                location: location.to_owned(),
                key: key.to_owned(),
                size,
                source,
            },
        ),
    }
}

} // verus!
