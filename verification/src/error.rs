//! What can go wrong in the index store and in ingestion.

use vstd::prelude::*;

verus! {

/// The error of `sled`, carried along as it is.
#[verifier::external_type_specification]
#[verifier::external_body]
pub struct ExStoreError(sled::Error);

/// The error of `zip`, carried along as it is.
#[verifier::external_type_specification]
#[verifier::external_body]
pub struct ExArchiveError(zip::result::ZipError);

/// The failure of a store or ingestion call. Each variant carries the error
/// of the crate that reported it.
#[derive(Debug)]
pub enum IndexError {
    /// The storage primitive refused to open, read, write, flush or drop.
    Storage(sled::Error),
    /// A stored value is not a list of names.
    Decode(serde_json::Error),
    /// The bytes handed in are not a readable archive.
    Archive(zip::result::ZipError),
}

/// What `sled` says of its error, through `ToString`.
#[verifier::external_body]
pub(crate) fn store_error_text(e: &sled::Error) -> String {
    e.to_string()
}

/// What `serde_json` says of its error, through `ToString`.
#[verifier::external_body]
pub(crate) fn json_error_text(e: &serde_json::Error) -> String {
    e.to_string()
}

/// What `zip` says of its error, through `ToString`.
#[verifier::external_body]
pub(crate) fn archive_error_text(e: &zip::result::ZipError) -> String {
    e.to_string()
}

impl IndexError {
    /// The words of the crate that reported the failure.
    pub fn message(&self) -> String {
        match self {
            IndexError::Storage(e) => store_error_text(e),
            IndexError::Decode(e) => json_error_text(e),
            IndexError::Archive(e) => archive_error_text(e),
        }
    }
}

} // verus!
