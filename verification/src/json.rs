//! Reading single members out of a JSON document.
//!
//! Parsing is left to `serde_json`. What it finds is only given a name here:
//! one name per kind of member that the library reads.

use vstd::prelude::*;

verus! {

/// The string that `serde_json` finds under `key` in `document`: `Some` where
/// the document parses as a JSON object that has a string member of that
/// name, `None` otherwise.
pub uninterp spec fn json_text_member(document: Seq<char>, key: Seq<char>) -> Option<Seq<char>>;

/// The number that `serde_json` finds under `key` in `document`: `Some` where
/// the document parses as a JSON object that has a member of that name which
/// is a non-negative integer below 2^64, `None` otherwise.
pub uninterp spec fn json_count_member(document: Seq<char>, key: Seq<char>) -> Option<u64>;

/// The boolean that `serde_json` finds under `key` in `document`: `Some` where
/// the document parses as a JSON object that has a boolean member of that
/// name, `None` otherwise.
pub uninterp spec fn json_flag_member(document: Seq<char>, key: Seq<char>) -> Option<bool>;

/// The text of a string that may be absent.
pub open spec fn text_of(s: Option<String>) -> Option<Seq<char>> {
    match s {
        Some(s) => Some(s@),
        None => None,
    }
}

/// Parses `document` with `serde_json::from_str` and looks `key` up with
/// `serde_json::Value::get`, keeping the member only if it is a string.
/// Trusted: parsing and lookup depend on the two texts alone, so the outcome
/// is the one that `json_text_member` names.
#[verifier::external_body]
pub(crate) fn text_member(document: &str, key: &str) -> (r: Option<String>)
    ensures
        r matches Some(s) ==> json_text_member(document@, key@) == Some(s@),
        r is None ==> json_text_member(document@, key@) is None,
{
    match serde_json::from_str::<serde_json::Value>(document) {
        Ok(value) => match value.get(key) {
            Some(serde_json::Value::String(s)) => Some(s.clone()),
            _ => None,
        },
        Err(_) => None,
    }
}

/// Parses `document` with `serde_json::from_str` and looks `key` up with
/// `serde_json::Value::get`, keeping the member only if
/// `serde_json::Value::as_u64` can represent it. Trusted: the outcome is the
/// one that `json_count_member` names.
#[verifier::external_body]
pub(crate) fn count_member(document: &str, key: &str) -> (r: Option<u64>)
    ensures
        r == json_count_member(document@, key@),
{
    match serde_json::from_str::<serde_json::Value>(document) {
        Ok(value) => match value.get(key) {
            Some(member) => member.as_u64(),
            None => None,
        },
        Err(_) => None,
    }
}

/// Parses `document` with `serde_json::from_str` and looks `key` up with
/// `serde_json::Value::get`, keeping the member only if it is a boolean.
/// Trusted: the outcome is the one that `json_flag_member` names.
#[verifier::external_body]
pub(crate) fn flag_member(document: &str, key: &str) -> (r: Option<bool>)
    ensures
        r == json_flag_member(document@, key@),
{
    match serde_json::from_str::<serde_json::Value>(document) {
        Ok(value) => match value.get(key) {
            Some(serde_json::Value::Bool(b)) => Some(*b),
            _ => None,
        },
        Err(_) => None,
    }
}

} // verus!
