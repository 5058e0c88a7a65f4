//! The trusted boundary to the JSON library.
//!
//! Collaborator responses arrive as dynamic JSON values.  Such a value is
//! opaque to the verifier, but each navigation step is a pure function of the
//! value it reads, so every wrapper's result carries a name: an
//! uninterpreted function of the wrapper's arguments.  The verified adapters
//! in [`crate::market`] and [`crate::config`] state their contracts, if and
//! only if, over those names.

use vstd::prelude::*;

verus! {

#[verifier::external_type_specification]
#[verifier::external_body]
pub struct ExValue(serde_json::Value);

#[verifier::external_type_specification]
#[verifier::external_body]
pub struct ExJsonError(serde_json::Error);

/// What `serde_json::from_str` yields for a document: its value, or nothing
/// for text that is no JSON.
pub uninterp spec fn spec_json_parse(s: Seq<char>) -> Option<serde_json::Value>;

/// What `serde_json::Value::get` yields: the value under a key of a JSON
/// object, nothing on any other value or an absent key.
pub uninterp spec fn spec_json_get(v: serde_json::Value, key: Seq<char>) -> Option<
    serde_json::Value,
>;

/// What `serde_json::Value::as_str` yields: the text of a JSON string.
pub uninterp spec fn spec_json_string(v: serde_json::Value) -> Option<Seq<char>>;

/// What `serde_json::Value::is_null` yields.
pub uninterp spec fn spec_json_null(v: serde_json::Value) -> bool;

/// What `serde_json::Value::as_array` yields: the items of a JSON array.
pub uninterp spec fn spec_json_array(v: serde_json::Value) -> Option<Seq<serde_json::Value>>;

/// What `serde_json::Value::as_object` yields: the object's entries, keys as
/// character sequences, in the object's order.
pub uninterp spec fn spec_json_entries(v: serde_json::Value) -> Option<
    Seq<(Seq<char>, serde_json::Value)>,
>;

/// The decimal text of a JSON number, by `serde_json::Number`'s `Display`.
pub uninterp spec fn spec_json_number_text(v: serde_json::Value) -> Option<Seq<char>>;

/// Relies on serde_json::from_str: parses a JSON document into its dynamic
/// value, or fails on text that is no JSON.
#[verifier::external_body]
pub(crate) fn json_parse(s: &str) -> (r: Result<serde_json::Value, serde_json::Error>)
    ensures
        match r {
            Ok(v) => spec_json_parse(s@) == Some(v),
            Err(_) => spec_json_parse(s@) is None,
        },
{
    serde_json::from_str::<serde_json::Value>(s)
}

/// Relies on serde_json::Value::get: the value under a key of a JSON object;
/// `None` on any other value or an absent key.
#[verifier::external_body]
pub(crate) fn json_get(v: &serde_json::Value, key: &str) -> (r: Option<serde_json::Value>)
    ensures
        r == spec_json_get(*v, key@),
{
    v.get(key).cloned()
}

/// Relies on serde_json::Value::as_str: the text of a JSON string.
#[verifier::external_body]
pub(crate) fn json_as_string(v: &serde_json::Value) -> (r: Option<String>)
    ensures
        match r {
            Some(s) => spec_json_string(*v) == Some(s@),
            None => spec_json_string(*v) is None,
        },
{
    v.as_str().map(String::from)
}

/// Relies on serde_json::Value::is_null.
#[verifier::external_body]
pub(crate) fn json_is_null(v: &serde_json::Value) -> (r: bool)
    ensures
        r == spec_json_null(*v),
{
    v.is_null()
}

/// Relies on serde_json::Value::as_array: the items of a JSON array.
#[verifier::external_body]
pub(crate) fn json_array_items(v: &serde_json::Value) -> (r: Option<Vec<serde_json::Value>>)
    ensures
        match r {
            Some(items) => spec_json_array(*v) == Some(items@),
            None => spec_json_array(*v) is None,
        },
{
    v.as_array().map(|items| items.to_vec())
}

/// Relies on serde_json::Value::as_object: the entries of a JSON object, in
/// order; a JSON object's keys are pairwise distinct.
#[verifier::external_body]
pub(crate) fn json_object_entries(v: &serde_json::Value) -> (r: Option<
    Vec<(String, serde_json::Value)>,
>)
    ensures
        match r {
            Some(es) => spec_json_entries(*v) matches Some(ss) && ss.len() == es@.len() && (forall|
                i: int,
            |
                0 <= i < ss.len() ==> (#[trigger] ss[i]).0 == es@[i].0@ && ss[i].1 == es@[i].1)
                && (forall|i: int, j: int|
                0 <= i < j < es@.len() ==> (#[trigger] es@[i].0@) != (#[trigger] es@[j].0@)),
            None => spec_json_entries(*v) is None,
        },
{
    v.as_object().map(|m| m.iter().map(|(k, val)| (k.clone(), val.clone())).collect())
}

/// Relies on serde_json::Value::clone: a clone carries the same value.
#[verifier::external_body]
pub(crate) fn json_clone(v: &serde_json::Value) -> (r: serde_json::Value)
    ensures
        r == *v,
{
    v.clone()
}

/// Relies on the `Display` of serde_json::Number: the decimal text of a JSON
/// number.
#[verifier::external_body]
pub(crate) fn json_number_string(v: &serde_json::Value) -> (r: Option<String>)
    ensures
        match r {
            Some(t) => spec_json_number_text(*v) == Some(t@),
            None => spec_json_number_text(*v) is None,
        },
{
    match v {
        serde_json::Value::Number(n) => Some(n.to_string()),
        _ => None,
    }
}

} // verus!
