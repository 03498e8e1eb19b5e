//! Whether a byte string is one well-formed JSON value.
use vstd::prelude::*;

verus! {

/// Whether `text` parses as exactly one JSON value, surrounded by nothing but
/// whitespace.
pub uninterp spec fn json_valid(text: Seq<u8>) -> bool;

/// Relies on `serde_json::from_slice` into a `serde_json::Value`: it succeeds
/// exactly on the byte strings that are one JSON value, a function of the bytes
/// alone.
#[verifier::external_body]
pub(crate) fn is_json(text: &[u8]) -> (r: bool)
    ensures
        r == json_valid(text@),
{
    serde_json::from_slice::<serde_json::Value>(text).is_ok()
}

} // verus!
