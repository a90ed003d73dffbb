//! JSON documents, read through `serde_json`.
//!
//! A `serde_json::Value` is opaque to the proofs. What the library reads
//! from one is given a name here, and every contract that speaks of a
//! document speaks through these names.

use serde_json::Value;
use vstd::prelude::*;

verus! {

#[verifier::external_type_specification]
#[verifier::external_body]
pub struct ExValue(serde_json::Value);

#[verifier::external_type_specification]
#[verifier::external_body]
pub struct ExJsonError(serde_json::Error);

/// The value that `serde_json::from_str` reads from `text`, if `text` is a
/// JSON document.
pub uninterp spec fn json_document(text: Seq<char>) -> Option<Value>;

/// The member that `Value::get` finds under `key`: present only where `v`
/// is an object that has the key.
pub uninterp spec fn json_member(v: Value, key: Seq<char>) -> Option<Value>;

/// The elements that `Value::as_array` hands out: present only where `v` is
/// an array.
pub uninterp spec fn json_items(v: Value) -> Option<Seq<Value>>;

/// The text that `Value::as_str` hands out: present only where `v` is a
/// string.
pub uninterp spec fn json_text(v: Value) -> Option<Seq<char>>;

/// The compact JSON text that `Value::to_string` writes for `v`.
pub uninterp spec fn json_rendering(v: Value) -> Seq<char>;

/// Calls `serde_json::from_str` for a `Value`. Trusted: the outcome depends
/// on the text alone; success yields the named document, and failure means
/// that the text has none.
#[verifier::external_body]
pub(crate) fn parse_document(text: &str) -> (r: Result<Value, serde_json::Error>)
    ensures
        match r {
            Ok(v) => json_document(text@) == Some(v),
            Err(_) => json_document(text@).is_none(),
        },
{
    serde_json::from_str::<Value>(text)
}

/// Calls `Value::get` with a text key. Trusted: the result is the named
/// member.
#[verifier::external_body]
pub(crate) fn member<'a>(v: &'a Value, key: &str) -> (r: Option<&'a Value>)
    ensures
        match r {
            Some(m) => json_member(*v, key@) == Some(*m),
            None => json_member(*v, key@).is_none(),
        },
{
    v.get(key)
}

/// Calls `Value::as_array`. Trusted: the result holds the named elements.
#[verifier::external_body]
pub(crate) fn items<'a>(v: &'a Value) -> (r: Option<&'a Vec<Value>>)
    ensures
        match r {
            Some(a) => json_items(*v) == Some(a@),
            None => json_items(*v).is_none(),
        },
{
    v.as_array()
}

/// Calls `Value::as_str`. Trusted: the result is the named text.
#[verifier::external_body]
pub(crate) fn text<'a>(v: &'a Value) -> (r: Option<&'a str>)
    ensures
        match r {
            Some(t) => json_text(*v) == Some(t@),
            None => json_text(*v).is_none(),
        },
{
    v.as_str()
}

/// Calls `Value::to_string`. Trusted: the result is the named rendering.
#[verifier::external_body]
pub(crate) fn render(v: &Value) -> (r: String)
    ensures
        r@ == json_rendering(*v),
{
    v.to_string()
}

} // verus!
