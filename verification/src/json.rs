//! Reading numbers out of the JSON text that a message carries.

use vstd::prelude::*;

verus! {

/// The integer that the member `key` of the JSON document `text` holds.
///
/// It is `None` where `text` is no JSON document, where the document is no
/// object or has no such member, and where the member is not an integer
/// that fits a signed 64-bit number.
pub uninterp spec fn json_integer(text: Seq<char>, key: Seq<char>) -> Option<i64>;

/// Parses `text` with `serde_json::from_str` into a `serde_json::Value`,
/// looks `key` up with the value's index operator and reads the member with
/// `Value::as_i64`.
///
/// The contract gives the outcome a name and claims nothing else: parsing
/// depends on the two texts alone, a text that does not parse is reported
/// as an error and not by a panic, and the index operator hands out `null`,
/// of which `as_i64` is `None`, for what it does not find.
#[verifier::external_body]
pub(crate) fn read_json_integer(text: &str, key: &str) -> (number: Option<i64>)
    ensures
        number == json_integer(text@, key@),
{
    match serde_json::from_str::<serde_json::Value>(text) {
        Ok(document) => document[key].as_i64(),
        Err(_) => None,
    }
}

} // verus!
