//! What a datastore reports when it cannot do as asked.

use vstd::prelude::*;

verus! {

#[derive(Clone, Debug, PartialEq, Eq)]
pub enum DatastoreError {
    NoSuchBucket(String),
    BucketAlreadyExists(String),
    NoSuchKey(String),
    MpscError,
    InternalError(String),
    /// The database has no tables yet and may not be set up.
    Uninitialized(String),
    /// The database has an old layout and may not be upgraded.
    OldDbVersion(String),
}

impl DatastoreError {
    /// The text that the error carries.
    pub open spec fn detail(self) -> Seq<char> {
        match self {
            DatastoreError::NoSuchBucket(s) => s@,
            DatastoreError::BucketAlreadyExists(s) => s@,
            DatastoreError::NoSuchKey(s) => s@,
            DatastoreError::MpscError => Seq::empty(),
            DatastoreError::InternalError(s) => s@,
            DatastoreError::Uninitialized(s) => s@,
            DatastoreError::OldDbVersion(s) => s@,
        }
    }
}

/// The text that an error carries is what it was made with.
pub proof fn detail_is_what_it_was_made_with(s: String)
    ensures
        DatastoreError::NoSuchBucket(s).detail() == s@,
        DatastoreError::BucketAlreadyExists(s).detail() == s@,
        DatastoreError::NoSuchKey(s).detail() == s@,
        DatastoreError::InternalError(s).detail() == s@,
        DatastoreError::Uninitialized(s).detail() == s@,
        DatastoreError::OldDbVersion(s).detail() == s@,
{
}

} // verus!
