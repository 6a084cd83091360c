//! AWS S3, under a required key prefix.

use crate::error::StorageError;
use crate::storage::put_outcome;
use crate::text;
use crate::text_laws::law_edge_slashes_only;
use vstd::prelude::*;

verus! {

/// The addressing of an S3 bucket: every key lands under a prefix.
#[derive(Debug)]
pub struct S3Store {
    pub bucket: String,
    /// The key prefix, without `/` at either end.
    pub prefix: String,
    /// `s3://<bucket>/<prefix>`, for error context.
    pub location: String,
}

/// `s3://<bucket>/<prefix>`.
pub open spec fn s3_location(bucket: Seq<char>, prefix: Seq<char>) -> Seq<char> {
    "s3://"@ + bucket + "/"@ + prefix
}

/// `<prefix>/<key>`.
pub open spec fn prefixed_key(prefix: Seq<char>, key: Seq<char>) -> Seq<char> {
    prefix + "/"@ + key
}

impl S3Store {
    /// The location names the bucket and the prefix.
    pub open spec fn wf(self) -> bool {
        &&& self.location@ == s3_location(self.bucket@, self.prefix@)
        &&& self.prefix@ == text::without_edge_slashes(self.prefix@)
    }

    /// The store of `bucket` under `path`. Credentials resolve on the first
    /// request, so this cannot fail.
    pub fn connect(bucket: String, path: &str) -> (store: S3Store)
        ensures
            store.wf(),
            store.bucket == bucket,
            store.prefix@ == text::without_edge_slashes(path@),
    {
        let prefix = text::strip(path, text::Trimming::Only('/')).to_owned();
        let location = "s3://".to_owned().concat(bucket.as_str()).concat("/").concat(
            prefix.as_str(),
        );
        proof {
            text::lemma_stripped_twice(path@, text::Trimming::Only('/'));
        }
        S3Store { bucket, prefix, location }
    }

    /// The key in the bucket: the prefix, then the object's own key.
    pub fn full_key(&self, key: &str) -> (full: String)
        ensures
            full@ == prefixed_key(self.prefix@, key@),
    {
        self.prefix.clone().concat("/").concat(key)
    }

    /// How an upload ended. The error gives the object's own key: the location
    /// already carries the prefix.
    pub fn put_object(&self, key: &str, size: usize, reply: Result<(), String>) -> (outcome: Result<
        (),
        StorageError,
    >)
        ensures
            match reply {
                Ok(()) => outcome is Ok,
                Err(cause) => outcome matches Err(
                    StorageError::PutObject { location, key: k, size: s, source },
                ) && location@ == self.location@ && k@ == key@ && s == size && source == cause,
            },
    {
        put_outcome(self.location.as_str(), key, size, reply)
    }
}

/// Location and key of an upload error compose to the address of the object:
/// the prefix appears exactly once.
pub proof fn law_error_names_object(store: S3Store, key: Seq<char>)
    requires
        store.wf(),
    ensures
        store.location@ + "/"@ + key == "s3://"@ + store.bucket@ + "/"@ + prefixed_key(
            store.prefix@,
            key,
        ),
{
    assert(store.location@ + "/"@ + key == "s3://"@ + store.bucket@ + "/"@ + prefixed_key(
        store.prefix@,
        key,
    ));
}

/// A key lands below the prefix, whole, and the location names the bucket and the
/// prefix. A store's prefix neither begins nor ends with `/`.
pub proof fn law_addresses_are_spelled_out(store: S3Store, key: Seq<char>)
    ensures
        s3_location(store.bucket@, store.prefix@) == seq!['s', '3', ':', '/', '/'] + store.bucket@
            + seq!['/'] + store.prefix@,
        prefixed_key(store.prefix@, key) == store.prefix@ + seq!['/'] + key,
        store.wf() <==> {
            let (bucket, prefix) = (store.bucket@, store.prefix@);
            &&& store.location@ == seq!['s', '3', ':', '/', '/'] + bucket + seq!['/'] + prefix
            &&& prefix.len() > 0 ==> prefix[0] != '/' && prefix.last() != '/'
        },
{
    reveal_strlit("s3://");
    reveal_strlit("/");
    assert("s3://"@ =~= seq!['s', '3', ':', '/', '/']);
    assert("/"@ =~= seq!['/']);
    law_edge_slashes_only(store.prefix@);
    if store.prefix@.len() > 0 && store.prefix@[0] != '/' {
        assert(text::strip_start(store.prefix@, text::Trimming::Only('/')) == store.prefix@);
    }
}

} // verus!
