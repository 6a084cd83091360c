//! Google Cloud Storage, authenticated with a service-account JSON key file.

use crate::error::StorageError;
use crate::storage::put_outcome;
use vstd::prelude::*;

verus! {

/// The addressing of a GCS bucket: the object name is the key itself.
#[derive(Debug)]
pub struct GcsStore {
    pub bucket: String,
    /// `gs://<bucket>`, for error context.
    pub location: String,
}

impl GcsStore {
    /// The location names the bucket.
    pub open spec fn wf(self) -> bool {
        self.location@ == "gs://"@ + self.bucket@
    }

    /// The store, once the credentials were loaded. A failure surfaces at
    /// startup rather than on the first upload.
    pub fn connect(bucket: &str, loaded: Result<(), String>) -> (store: Result<
        GcsStore,
        StorageError,
    >)
        ensures
            match loaded {
                Ok(()) => store matches Ok(connected) && connected.wf() && connected.bucket@
                    == bucket@,
                Err(cause) => store matches Err(StorageError::Init { provider, source })
                    && provider@ == "GCS"@ && source == cause,
            },
    {
        match loaded {
            Ok(()) => Ok(
                GcsStore {
                    bucket: bucket.to_owned(),
                    location: "gs://".to_owned().concat(bucket),
                },
            ),
            Err(source) => Err(StorageError::Init { provider: "GCS", source }),
        }
    }

    /// How an upload ended.
    pub fn put_object(&self, key: &str, size: usize, reply: Result<(), String>) -> (outcome: Result<
        (),
        StorageError,
    >)
        ensures
            match reply {
                Ok(()) => outcome is Ok,
                Err(cause) => outcome matches Err(
                    StorageError::PutObject { location, key: k, size: s, source },
                ) && location@ == self.location@ && k@ == key@ && s == size && source == cause,
            },
    {
        put_outcome(self.location.as_str(), key, size, reply)
    }
}

/// A store's location is its bucket behind `gs://`.
pub proof fn law_locations_name_the_bucket(store: GcsStore)
    ensures
        store.wf() <==> store.location@ == seq!['g', 's', ':', '/', '/'] + store.bucket@,
{
    reveal_strlit("gs://");
    assert("gs://"@ =~= seq!['g', 's', ':', '/', '/']);
}

} // verus!
