//! The encoding of stored values: a list of names is kept as JSON text, an
//! array of strings.

use crate::text::views;
use vstd::prelude::*;

verus! {

/// The error of `serde_json`, carried along as it is.
#[verifier::external_type_specification]
#[verifier::external_body]
pub struct ExJsonError(serde_json::Error);

/// The list of names that `serde_json::from_slice` reads from `bytes` as a
/// `Vec<String>`, or `None` where it reports an error.
pub uninterp spec fn json_list_of(bytes: Seq<u8>) -> Option<Seq<Seq<char>>>;

/// The JSON text that `serde_json::to_string` writes for a list of names.
pub uninterp spec fn json_of_list(list: Seq<Seq<char>>) -> Seq<u8>;

/// Reads a list of names with `serde_json::from_slice`. The outcome depends
/// on the bytes alone.
#[verifier::external_body]
pub(crate) fn decode_list(bytes: &[u8]) -> (r: Result<Vec<String>, serde_json::Error>)
    ensures
        match r {
            Ok(list) => json_list_of(bytes@) == Some(views(list@)),
            Err(_) => json_list_of(bytes@) is None,
        },
{
    serde_json::from_slice(bytes)
}

/// Writes a list of names with `serde_json::to_string`. That function fails
/// only for a type whose `Serialize` fails or that holds a map with keys that
/// are no strings, so a list of strings is always written; what was written
/// reads back as the same list.
#[verifier::external_body]
pub(crate) fn encode_list(list: &Vec<String>) -> (r: Option<Vec<u8>>)
    ensures
        r is Some,
        r->0@ == json_of_list(views(list@)),
        json_list_of(r->0@) == Some(views(list@)),
{
    serde_json::to_string(list).ok().map(|text| text.into_bytes())
}

} // verus!
