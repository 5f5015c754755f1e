//! The JSON boundary: named results for what serde_json computes, and the
//! trusted wrappers that call it. Every other function of the crate is
//! verified against these contracts.

use vstd::prelude::*;
use vstd::utf8::decode_utf8;
use vstd::utf8::valid_utf8;

verus! {

/// Whether a byte sequence is a well-formed JSON document.
pub uninterp spec fn json_ok(b: Seq<u8>) -> bool;

/// The text of the top-level string field `f` of the JSON document `b`, or
/// `None` when `b` is not JSON, is not an object, lacks the field, or holds
/// it with a non-string value.
pub uninterp spec fn json_str_field(b: Seq<u8>, f: Seq<char>) -> Option<Seq<char>>;

/// The value of the top-level unsigned-integer field `f` of the JSON document
/// `b`, under the same conventions as [`json_str_field`].
pub uninterp spec fn json_u64_field(b: Seq<u8>, f: Seq<char>) -> Option<u64>;

/// The JSON string literal that encodes a piece of text: surrounding quotes
/// and escapes included.
pub uninterp spec fn json_quoted(s: Seq<char>) -> Seq<char>;

/// Relies on `serde_json::from_slice::<Value>`: whether bytes parse as JSON
/// depends on the bytes alone.
#[verifier::external_body]
pub fn json_well_formed(b: &[u8]) -> (r: bool)
    ensures
        r == json_ok(b@),
{
    serde_json::from_slice::<serde_json::Value>(b).is_ok()
}

/// Relies on `serde_json::from_slice::<Value>`, `Value::get` and
/// `Value::as_str`: the string held by a top-level field is a function of the
/// document bytes and the field name alone; a byte sequence that is not a
/// JSON object with such a field yields `None`.
#[verifier::external_body]
pub fn json_get_str_field(b: &[u8], f: &str) -> (r: Option<String>)
    ensures
        r matches Some(s) ==> json_str_field(b@, f@) == Some(s@),
        r is None ==> json_str_field(b@, f@) is None,
{
    match serde_json::from_slice::<serde_json::Value>(b) {
        Ok(v) => match v.get(f) {
            Some(x) => match x.as_str() {
                Some(s) => Some(s.to_string()),
                None => None,
            },
            None => None,
        },
        Err(_) => None,
    }
}

/// Relies on `serde_json::from_slice::<Value>`, `Value::get` and
/// `Value::as_u64`: the unsigned integer held by a top-level field is a
/// function of the document bytes and the field name alone.
#[verifier::external_body]
pub fn json_get_u64_field(b: &[u8], f: &str) -> (r: Option<u64>)
    ensures
        r matches Some(n) ==> json_u64_field(b@, f@) == Some(n),
        r is None ==> json_u64_field(b@, f@) is None,
{
    match serde_json::from_slice::<serde_json::Value>(b) {
        Ok(v) => match v.get(f) {
            Some(x) => x.as_u64(),
            None => None,
        },
        Err(_) => None,
    }
}

/// Relies on `serde_json::Value::to_string` applied to `Value::String`: the
/// JSON literal that encodes a text depends on the characters alone.
#[verifier::external_body]
pub fn json_quote(s: &str) -> (r: String)
    ensures
        r@ == json_quoted(s@),
{
    serde_json::Value::String(s.to_string()).to_string()
}

/// Relies on `String::from_utf8`: it succeeds exactly on valid UTF-8 input,
/// and then decodes it; std documents the check, vstd defines the decoding.
#[verifier::external_body]
pub fn bytes_to_string(v: Vec<u8>) -> (r: Option<String>)
    ensures
        r matches Some(s) ==> valid_utf8(v@) && s@ == decode_utf8(v@),
        r is None ==> !valid_utf8(v@),
{
    match String::from_utf8(v) {
        Ok(s) => Some(s),
        Err(_) => None,
    }
}

/// Relies on `std::str::from_utf8`: it succeeds exactly on valid UTF-8 input.
#[verifier::external_body]
pub fn utf8_check(b: &[u8]) -> (r: bool)
    ensures
        r == valid_utf8(b@),
{
    std::str::from_utf8(b).is_ok()
}

} // verus!
