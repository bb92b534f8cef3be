//! Reading values out of the JSON documents that product pages embed.
//!
//! A JSON value is handled as its text. Reading a member of an object gives
//! the member's compact JSON text, which reads back as the same value.
use vstd::prelude::*;

verus! {

broadcast use vstd::string::group_string_axioms;

/// `serde_json` reads `text` as a JSON value.
pub uninterp spec fn json_valid(text: Seq<char>) -> bool;

/// `serde_json::from_str::<Value>` succeeds. The result is named
/// `json_valid`; the JSON grammar is not restated here.
#[verifier::external_body]
pub(crate) fn is_json(text: &str) -> (ok: bool)
    ensures
        ok == json_valid(text@),
{
    serde_json::from_str::<serde_json::Value>(text).is_ok()
}

/// When `text` reads as a JSON object that has the member `key`: the
/// member's value written as compact JSON (`Value::get` and `to_string`).
pub uninterp spec fn json_member(text: Seq<char>, key: Seq<char>) -> Option<Seq<char>>;

/// `serde_json`: read the text, get the member, write it back. The result
/// is named `json_member`.
#[verifier::external_body]
fn member_text(text: &str, key: &str) -> (m: Option<String>)
    ensures
        match m {
            Some(t) => json_member(text@, key@) == Some(t@),
            None => json_member(text@, key@) is None,
        },
{
    match serde_json::from_str::<serde_json::Value>(text) {
        Ok(v) => v.get(key).map(|m| m.to_string()),
        Err(_) => None,
    }
}

/// When `text` reads as a JSON object whose member `outer` is an object that
/// has the member `inner`: that inner member's value written as compact JSON,
/// read from the one reading of `text` (`get(outer)`, `get(inner)`,
/// `to_string`).
pub uninterp spec fn json_nested_member(text: Seq<char>, outer: Seq<char>, inner: Seq<char>) -> Option<
    Seq<char>,
>;

/// `serde_json`: read the text once, get the member of the member, write it
/// back. The result is named `json_nested_member`.
#[verifier::external_body]
fn nested_member_text(text: &str, outer: &str, inner: &str) -> (m: Option<String>)
    ensures
        match m {
            Some(t) => json_nested_member(text@, outer@, inner@) == Some(t@),
            None => json_nested_member(text@, outer@, inner@) is None,
        },
{
    match serde_json::from_str::<serde_json::Value>(text) {
        Ok(v) => v.get(outer).and_then(|m| m.get(inner)).map(|x| x.to_string()),
        Err(_) => None,
    }
}

/// When `text` reads as a JSON array with an element at `index`: that
/// element written as compact JSON.
pub uninterp spec fn json_element(text: Seq<char>, index: int) -> Option<Seq<char>>;

/// `serde_json`: read the text, get the element, write it back. The result
/// is named `json_element`.
#[verifier::external_body]
fn element_text(text: &str, index: usize) -> (e: Option<String>)
    ensures
        match e {
            Some(t) => json_element(text@, index as int) == Some(t@),
            None => json_element(text@, index as int) is None,
        },
{
    match serde_json::from_str::<serde_json::Value>(text) {
        Ok(v) => v.get(index).map(|e| e.to_string()),
        Err(_) => None,
    }
}

/// When `text` reads as a JSON string: the string's characters, with its
/// escapes resolved (`Value::as_str`).
pub uninterp spec fn json_string(text: Seq<char>) -> Option<Seq<char>>;

/// `serde_json`: read the text as a string value. The result is named
/// `json_string`.
#[verifier::external_body]
pub(crate) fn as_str(text: &str) -> (s: Option<String>)
    ensures
        match s {
            Some(t) => json_string(text@) == Some(t@),
            None => json_string(text@) is None,
        },
{
    match serde_json::from_str::<serde_json::Value>(text) {
        Ok(v) => v.as_str().map(|s| s.to_string()),
        Err(_) => None,
    }
}

/// `text` reads as a JSON object.
pub uninterp spec fn json_object(text: Seq<char>) -> bool;

/// `serde_json`: read the text and ask whether it is an object. The result
/// is named `json_object`.
#[verifier::external_body]
pub(crate) fn is_object(text: &str) -> (o: bool)
    ensures
        o == json_object(text@),
{
    match serde_json::from_str::<serde_json::Value>(text) {
        Ok(v) => v.is_object(),
        Err(_) => false,
    }
}

/// What indexing a JSON value by a key gives, written as JSON: the member,
/// or `null` when there is none (`value[key].to_string()`).
pub open spec fn member_or_null(text: Seq<char>, key: Seq<char>) -> Seq<char> {
    match json_member(text, key) {
        Some(m) => m,
        None => "null"@,
    }
}

/// What indexing a JSON value by two keys in turn gives, written as JSON
/// (`value[outer][inner].to_string()`).
pub open spec fn nested_or_null(text: Seq<char>, outer: Seq<char>, inner: Seq<char>) -> Seq<char> {
    match json_nested_member(text, outer, inner) {
        Some(m) => m,
        None => "null"@,
    }
}

/// What indexing a JSON value by a position gives, written as JSON.
pub open spec fn element_or_null(text: Seq<char>, index: int) -> Seq<char> {
    match json_element(text, index) {
        Some(e) => e,
        None => "null"@,
    }
}

/// `value[key]`, written as JSON.
pub fn index_key(text: &str, key: &str) -> (m: String)
    ensures
        m@ == member_or_null(text@, key@),
{
    match member_text(text, key) {
        Some(t) => t,
        None => String::from_str("null"),
    }
}

/// `value[outer][inner]`, written as JSON.
pub fn index_keys(text: &str, outer: &str, inner: &str) -> (m: String)
    ensures
        m@ == nested_or_null(text@, outer@, inner@),
{
    match nested_member_text(text, outer, inner) {
        Some(t) => t,
        None => String::from_str("null"),
    }
}

/// `value[index]`, written as JSON.
pub fn index_position(text: &str, index: usize) -> (e: String)
    ensures
        e@ == element_or_null(text@, index as int),
{
    match element_text(text, index) {
        Some(t) => t,
        None => String::from_str("null"),
    }
}

/// Whether `value` has the member `key` (`Map::contains_key`).
pub fn has_member(text: &str, key: &str) -> (b: bool)
    ensures
        b == json_member(text@, key@) is Some,
{
    member_text(text, key).is_some()
}

} // verus!
