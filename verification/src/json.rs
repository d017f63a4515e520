//! JSON strings, written and read by `serde_json`.
//!
//! Nothing in this module is proved: each function hands its argument to
//! `serde_json` and states what comes back.

use vstd::prelude::*;

verus! {

#[verifier::external_type_specification]
#[verifier::external_body]
pub struct ExJsonError(serde_json::Error);

/// The JSON text that `serde_json::to_string` writes for a string, or `None`
/// where it fails.
pub uninterp spec fn json_of_text(text: Seq<char>) -> Option<Seq<char>>;

/// The string that `serde_json::from_str` reads from a JSON text as a
/// `String`, or `None` where it refuses the text.
pub uninterp spec fn text_of_json(json: Seq<char>) -> Option<Seq<char>>;

/// Calls `serde_json::to_string` on a string slice.
///
/// Claimed and not proved: the outcome is the one named [`json_of_text`],
/// `Err` standing for `None`.
#[verifier::external_body]
pub(crate) fn to_json_string(text: &str) -> (r: Result<String, serde_json::Error>)
    ensures
        json_of_text(text@) == match r {
            Ok(json) => Some(json@),
            Err(_) => None,
        },
{
    serde_json::to_string(text)
}

/// Calls `serde_json::from_str` for a `String`.
///
/// Claimed and not proved: the outcome is the one named [`text_of_json`],
/// `Err` standing for `None`.
#[verifier::external_body]
pub(crate) fn from_json_string(json: &str) -> (r: Result<String, serde_json::Error>)
    ensures
        text_of_json(json@) == match r {
            Ok(text) => Some(text@),
            Err(_) => None,
        },
{
    serde_json::from_str::<String>(json)
}

} // verus!
