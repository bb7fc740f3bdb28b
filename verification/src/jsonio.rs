//! Trusted interface to the JSON library: parsing text into a value tree,
//! serializing a tree back to text, and asking whether a tree is an object
//! holding a given key.  The tree type is opaque here; the named results
//! `json_tree`, `json_text`, `json_quoted` and `obj_has_key` stand for what
//! the library computes, each a function of its arguments alone.

use vstd::prelude::*;

verus! {

#[verifier::external_type_specification]
#[verifier::external_body]
pub struct ExValue(serde_json::Value);

/// Relies on `serde_json::Value`'s derived `Clone`; nothing is assumed of
/// the copy.
pub assume_specification[ <serde_json::Value as Clone>::clone ](v: &serde_json::Value) -> (r:
    serde_json::Value);

/// The JSON value tree that the given text parses to, or `None` when the
/// text is not valid JSON.
pub uninterp spec fn json_tree(s: Seq<char>) -> Option<serde_json::Value>;

/// Relies on `serde_json::from_str::<Value>`: whether a text parses, and to
/// which value, depends on the text alone; `json_tree` names its result.
#[verifier::external_body]
pub(crate) fn parse_json(s: &str) -> (r: Option<serde_json::Value>)
    ensures
        r == json_tree(s@),
{
    match serde_json::from_str::<serde_json::Value>(s) {
        Ok(v) => Some(v),
        Err(_) => None,
    }
}

/// The serialized JSON text of the given value tree.
pub uninterp spec fn json_text(v: serde_json::Value) -> Seq<char>;

/// Relies on `serde_json::to_string::<Value>`: serializing a `Value` cannot
/// fail (its maps are string-keyed and its `Serialize` implementation never
/// errors) and depends on the value alone; `json_text` names its result.
#[verifier::external_body]
pub(crate) fn value_to_string(v: &serde_json::Value) -> (r: String)
    ensures
        r@ == json_text(*v),
{
    serde_json::to_string(v).expect("serializing a Value cannot fail")
}

/// The JSON string literal (quotes and escapes included) serializing the
/// given text.
pub uninterp spec fn json_quoted(s: Seq<char>) -> Seq<char>;

/// Relies on `serde_json::to_string::<str>`: serializing a string slice
/// cannot fail and depends on its characters alone; `json_quoted` names its
/// result.
#[verifier::external_body]
pub(crate) fn string_to_json(s: &str) -> (r: String)
    ensures
        r@ == json_quoted(s@),
{
    serde_json::to_string(s).expect("serializing a str cannot fail")
}

/// Whether the value tree is a JSON object with the given top-level key.
pub uninterp spec fn obj_has_key(v: serde_json::Value, key: Seq<char>) -> bool;

/// Relies on `serde_json::Value::get` with a string index: it returns `Some`
/// exactly when the value is an object holding that key; `obj_has_key`
/// names that fact.
#[verifier::external_body]
pub(crate) fn value_has_key(v: &serde_json::Value, key: &str) -> (r: bool)
    ensures
        r == obj_has_key(*v, key@),
{
    v.get(key).is_some()
}

} // verus!
