//! Reading the few JSON members the library needs, with `serde_json`.
//!
//! Each trusted item reads a JSON document from bytes with
//! `serde_json::from_slice::<serde_json::Value>` and converts the members it
//! picks to plain values. What JSON parsing gives is not restated here: each
//! result is named, a function of the bytes and keys alone.

use vstd::prelude::*;

verus! {

/// The integer member `key` of the JSON object in `bytes`: none when the
/// bytes are not one JSON document, when the document is not an object or
/// has no such member, or when the member is not an integer that fits `i64`.
pub uninterp spec fn json_member_i64(bytes: Seq<u8>, key: Seq<char>) -> Option<i64>;

/// The string member `key` of the JSON object in `bytes`: none when the
/// bytes are not one JSON document, when the document is not an object or
/// has no such member, or when the member is not a string.
pub uninterp spec fn json_member_string(bytes: Seq<u8>, key: Seq<char>) -> Option<Seq<char>>;

/// For a JSON document in `bytes` that is an array, one pair per element, in
/// order: the element's boolean member `flag_key` and its string member
/// `name_key`, each none when absent or of another type. None when the bytes
/// are not one JSON document or the document is not an array.
pub uninterp spec fn json_array_flag_names(
    bytes: Seq<u8>,
    flag_key: Seq<char>,
    name_key: Seq<char>,
) -> Option<Seq<(Option<bool>, Option<Seq<char>>)>>;

/// The characters of an optional string.
pub open spec fn opt_view(o: Option<String>) -> Option<Seq<char>> {
    match o {
        Some(s) => Some(s@),
        None => None,
    }
}

/// The views of the pairs of a vector.
pub open spec fn pair_views(v: Seq<(Option<bool>, Option<String>)>) -> Seq<(Option<bool>, Option<Seq<char>>)> {
    v.map_values(|p: (Option<bool>, Option<String>)| (p.0, opt_view(p.1)))
}

/// Wrapper of `serde_json::from_slice` into a `Value`, then `Value::get(key)`
/// and `Value::as_i64`; the contract claims only that the result is the
/// named function of the bytes and the key.
#[verifier::external_body]
pub(crate) fn member_i64(bytes: &[u8], key: &str) -> (r: Option<i64>)
    ensures
        r == json_member_i64(bytes@, key@),
{
    let v: serde_json::Value = match serde_json::from_slice(bytes) {
        Ok(v) => v,
        Err(_) => return None,
    };
    v.get(key).and_then(|m| m.as_i64())
}

/// Wrapper of `serde_json::from_slice` into a `Value`, then `Value::get(key)`
/// and `Value::as_str`, copied into a `String`; the contract claims only that
/// the result is the named function of the bytes and the key.
#[verifier::external_body]
pub(crate) fn member_string(bytes: &[u8], key: &str) -> (r: Option<String>)
    ensures
        opt_view(r) == json_member_string(bytes@, key@),
{
    let v: serde_json::Value = match serde_json::from_slice(bytes) {
        Ok(v) => v,
        Err(_) => return None,
    };
    v.get(key).and_then(|m| m.as_str()).map(|s| s.to_string())
}

/// Wrapper of `serde_json::from_slice` into a `Value`, then `Value::as_array`,
/// each element converted by `Value::get` with `as_bool` and `as_str`; the
/// contract claims only that the result is the named function of the bytes
/// and the keys.
#[verifier::external_body]
pub(crate) fn array_flag_names(bytes: &[u8], flag_key: &str, name_key: &str) -> (r: Option<
    Vec<(Option<bool>, Option<String>)>,
>)
    ensures
        match r {
            Some(v) => json_array_flag_names(bytes@, flag_key@, name_key@) == Some(pair_views(v@)),
            None => json_array_flag_names(bytes@, flag_key@, name_key@) is None,
        },
{
    let v: serde_json::Value = match serde_json::from_slice(bytes) {
        Ok(v) => v,
        Err(_) => return None,
    };
    let items = v.as_array()?;
    Some(
        items.iter().map(
            |m| (m.get(flag_key).and_then(|f| f.as_bool()), m.get(name_key).and_then(|n| n.as_str()).map(|s| s.to_string())),
        ).collect(),
    )
}

} // verus!
