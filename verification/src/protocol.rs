//! The request/response protocol: how a JSON payload is decoded into a
//! request, and the exact notification text that every outcome produces.
//! Each dispatched request yields exactly one notification string.

use vstd::prelude::*;
use vstd::string::StringExecFns;
use vstd::utf8::decode_utf8;
use vstd::utf8::encode_utf8;
use vstd::utf8::valid_utf8;

use crate::jsonio::bytes_to_string;
use crate::jsonio::json_get_str_field;
use crate::jsonio::json_ok;
use crate::jsonio::json_quote;
use crate::jsonio::json_quoted;
use crate::jsonio::json_str_field;
use crate::jsonio::json_well_formed;
use vstd::utf8::encode_scalar;
use crate::store::table_lookup;

verus! {

/// Why a payload could not be decoded into a request.
#[derive(Clone, Copy, PartialEq, Eq, Structural, Debug)]
pub enum PayloadError {
    /// The payload is not well-formed JSON.
    NotJson,
    /// The payload is JSON but lacks a string field `key`.
    MissingKey,
    /// The payload is JSON but lacks a string field `value`.
    MissingValue,
}

/// The notification for a payload that is not well-formed JSON.
pub open spec fn parse_fail_note(p: Seq<char>) -> Seq<char> {
    "failed to parse '"@ + p + "' as json"@
}

/// The notification for a JSON payload without a string field `key`.
pub open spec fn missing_key_note(p: Seq<char>) -> Seq<char> {
    "expected a string field 'key' in '"@ + p + "'"@
}

/// The notification for a JSON payload without a string field `value`.
pub open spec fn missing_value_note(p: Seq<char>) -> Seq<char> {
    "expected a string field 'value' in '"@ + p + "'"@
}

/// The notification for a lookup of a key that holds no value.
pub open spec fn miss_note(p: Seq<char>) -> Seq<char> {
    "the key '"@ + p + "' was not found in table my_table"@
}

/// The notification when the table provider fails a read.
pub open spec fn read_fail_note(p: Seq<char>) -> Seq<char> {
    "failed to read from ledger: '"@ + p + "'"@
}

/// The notification when the table provider rejects a write.
pub open spec fn write_fail_note(detail: Seq<char>) -> Seq<char> {
    "failed to write to ledger: '"@ + detail + "'"@
}

/// The notification when the table provider cannot open a scan.
pub open spec fn cursor_fail_note() -> Seq<char> {
    "failed to get cursor from ledger"@
}

/// The stand-in text for a stored value that is not valid UTF-8.
pub open spec fn utf8_fallback_text() -> Seq<char> {
    "!! utf8 parsing error !!"@
}

/// The success notification of a lookup: a one-field JSON object.
pub open spec fn value_note(v: Seq<char>) -> Seq<char> {
    "{\"value\":"@ + json_quoted(v) + "}"@
}

/// The success notification of an insert.
pub open spec fn inserted_note(k: Seq<char>, v: Seq<char>) -> Seq<char> {
    "{\"inserted\":true,\"key\":"@ + json_quoted(k) + ",\"value\":"@ + json_quoted(v) + "}"@
}

/// The notification for the bytes a successful read returned: a miss for the
/// empty value, the decoded text on a hit, a stand-in when the stored bytes
/// are not valid UTF-8.
pub open spec fn load_hit_note(bytes: Seq<u8>, p: Seq<char>) -> Seq<char> {
    if bytes.len() == 0 {
        miss_note(p)
    } else if valid_utf8(bytes) {
        value_note(decode_utf8(bytes))
    } else {
        value_note(utf8_fallback_text())
    }
}

/// The notification that a whole load request produces against a table.
pub open spec fn load_note(m: Map<Seq<char>, Seq<u8>>, p: Seq<char>) -> Seq<char> {
    if !json_ok(encode_utf8(p)) {
        parse_fail_note(p)
    } else {
        match json_str_field(encode_utf8(p), "key"@) {
            Option::None => missing_key_note(p),
            Option::Some(k) => load_hit_note(table_lookup(m, k), p),
        }
    }
}

/// The outcome of a whole insert request against a table: the table
/// contents after the request, the notification, and whether the transaction
/// was committed (`false`: it was cancelled and the contents are unchanged).
pub open spec fn insert_outcome(m: Map<Seq<char>, Seq<u8>>, p: Seq<char>) -> (
    Map<Seq<char>, Seq<u8>>,
    Seq<char>,
    bool,
) {
    if !json_ok(encode_utf8(p)) {
        (m, parse_fail_note(p), false)
    } else {
        match json_str_field(encode_utf8(p), "key"@) {
            Option::None => (m, missing_key_note(p), false),
            Option::Some(k) => match json_str_field(encode_utf8(p), "value"@) {
                Option::None => (m, missing_value_note(p), false),
                Option::Some(v) => (m.insert(k, encode_utf8(v)), inserted_note(k, v), true),
            },
        }
    }
}

proof fn lemma_encode_utf8_nonempty(v: Seq<char>)
    requires
        v.len() > 0,
    ensures
        encode_utf8(v).len() > 0,
{
    assert(encode_scalar(v[0] as u32).len() > 0);
}

/// Law: commit visibility. After an insert request commits value `v` under
/// key `k`, a load request for `k` reports `v`. A value whose text is empty
/// is left out: the store signals absence by the empty byte sequence, so an
/// empty value reads back as a miss.
pub proof fn lemma_commit_visibility(
    m: Map<Seq<char>, Seq<u8>>,
    pi: Seq<char>,
    pl: Seq<char>,
    k: Seq<char>,
    v: Seq<char>,
)
    requires
        json_ok(encode_utf8(pi)),
        json_str_field(encode_utf8(pi), "key"@) == Some(k),
        json_str_field(encode_utf8(pi), "value"@) == Some(v),
        v.len() > 0,
        json_ok(encode_utf8(pl)),
        json_str_field(encode_utf8(pl), "key"@) == Some(k),
    ensures
        insert_outcome(m, pi).2,
        load_note(insert_outcome(m, pi).0, pl) == value_note(v),
{
    broadcast use vstd::utf8::encode_utf8_valid_utf8;
    broadcast use vstd::utf8::encode_utf8_decode_utf8;

    let m2 = insert_outcome(m, pi).0;
    assert(m2 == m.insert(k, encode_utf8(v)));
    assert(table_lookup(m2, k) == encode_utf8(v));
    lemma_encode_utf8_nonempty(v);
}

/// Law: miss distinctness. A load request for a key that holds no value
/// reports the miss notification, and that notification is never a value
/// notification, whatever the value.
pub proof fn lemma_miss_distinct(m: Map<Seq<char>, Seq<u8>>, pl: Seq<char>, k: Seq<char>)
    requires
        !m.contains_key(k),
        json_ok(encode_utf8(pl)),
        json_str_field(encode_utf8(pl), "key"@) == Some(k),
    ensures
        load_note(m, pl) == miss_note(pl),
        forall|s: Seq<char>| miss_note(pl) != #[trigger] value_note(s),
{
    assert forall|s: Seq<char>| miss_note(pl) != #[trigger] value_note(s) by {
        reveal_strlit("the key '");
        reveal_strlit("{\"value\":");
        assert(miss_note(pl)[0] == 't');
        assert(value_note(s)[0] == '{');
    }
}

/// Law: idempotent re-insert. Two committed inserts under the same key keep
/// only the later value: a load of the key reports it alone.
pub proof fn lemma_reinsert_latest(
    m: Map<Seq<char>, Seq<u8>>,
    p1: Seq<char>,
    p2: Seq<char>,
    pl: Seq<char>,
    k: Seq<char>,
    v1: Seq<char>,
    v2: Seq<char>,
)
    requires
        json_ok(encode_utf8(p1)),
        json_str_field(encode_utf8(p1), "key"@) == Some(k),
        json_str_field(encode_utf8(p1), "value"@) == Some(v1),
        json_ok(encode_utf8(p2)),
        json_str_field(encode_utf8(p2), "key"@) == Some(k),
        json_str_field(encode_utf8(p2), "value"@) == Some(v2),
        v2.len() > 0,
        json_ok(encode_utf8(pl)),
        json_str_field(encode_utf8(pl), "key"@) == Some(k),
    ensures
        ({
            let once = insert_outcome(m, p1).0;
            let twice = insert_outcome(once, p2).0;
            &&& table_lookup(twice, k) == encode_utf8(v2)
            &&& load_note(twice, pl) == value_note(v2)
        }),
{
    lemma_commit_visibility(insert_outcome(m, p1).0, p2, pl, k, v2);
}

/// Law: malformed payload handling. A payload that is not JSON leaves the
/// table unchanged and reports the parse failure, on the load route and on
/// the insert route alike.
pub proof fn lemma_malformed_payload(m: Map<Seq<char>, Seq<u8>>, p: Seq<char>)
    requires
        !json_ok(encode_utf8(p)),
    ensures
        load_note(m, p) == parse_fail_note(p),
        insert_outcome(m, p).0 == m,
        insert_outcome(m, p).1 == parse_fail_note(p),
        !insert_outcome(m, p).2,
{
}

pub(crate) fn concat3(a: &str, b: &str, c: &str) -> (r: String)
    ensures
        r@ == a@ + b@ + c@,
{
    let mut s = String::new();
    s.append(a);
    s.append(b);
    s.append(c);
    proof {
        assert(s@ =~= a@ + b@ + c@);
    }
    s
}

pub(crate) fn concat5(a: &str, b: &str, c: &str, d: &str, e: &str) -> (r: String)
    ensures
        r@ == a@ + b@ + c@ + d@ + e@,
{
    let mut s = String::new();
    s.append(a);
    s.append(b);
    s.append(c);
    s.append(d);
    s.append(e);
    proof {
        assert(s@ =~= a@ + b@ + c@ + d@ + e@);
    }
    s
}

/// Decodes a `{"key": ...}` payload, naming what failed otherwise.
pub fn decode_key_payload(p: &str) -> (r: Result<String, PayloadError>)
    ensures
        r matches Ok(k) ==> json_ok(encode_utf8(p@)) && json_str_field(encode_utf8(p@), "key"@)
            == Some(k@),
        r matches Err(e) ==> match e {
            PayloadError::NotJson => !json_ok(encode_utf8(p@)),
            PayloadError::MissingKey => json_ok(encode_utf8(p@)) && json_str_field(
                encode_utf8(p@),
                "key"@,
            ) is None,
            PayloadError::MissingValue => false,
        },
{
    let b = p.as_bytes();
    if !json_well_formed(b) {
        return Err(PayloadError::NotJson);
    }
    match json_get_str_field(b, "key") {
        Some(k) => Ok(k),
        None => Err(PayloadError::MissingKey),
    }
}

/// Decodes a `{"key": ..., "value": ...}` payload; the key is examined
/// first, so a payload missing both fields reports the key.
pub fn decode_kv_payload(p: &str) -> (r: Result<(String, String), PayloadError>)
    ensures
        r matches Ok(kv) ==> {
            &&& json_ok(encode_utf8(p@))
            &&& json_str_field(encode_utf8(p@), "key"@) == Some(kv.0@)
            &&& json_str_field(encode_utf8(p@), "value"@) == Some(kv.1@)
        },
        r matches Err(e) ==> match e {
            PayloadError::NotJson => !json_ok(encode_utf8(p@)),
            PayloadError::MissingKey => json_ok(encode_utf8(p@)) && json_str_field(
                encode_utf8(p@),
                "key"@,
            ) is None,
            PayloadError::MissingValue => json_ok(encode_utf8(p@)) && json_str_field(
                encode_utf8(p@),
                "key"@,
            ) is Some && json_str_field(encode_utf8(p@), "value"@) is None,
        },
{
    let b = p.as_bytes();
    if !json_well_formed(b) {
        return Err(PayloadError::NotJson);
    }
    let key = match json_get_str_field(b, "key") {
        Some(k) => k,
        None => {
            return Err(PayloadError::MissingKey);
        },
    };
    match json_get_str_field(b, "value") {
        Some(v) => Ok((key, v)),
        None => Err(PayloadError::MissingValue),
    }
}

/// The notification text for a decode failure.
pub fn payload_error_message(p: &str, e: &PayloadError) -> (msg: String)
    ensures
        msg@ == match e {
            PayloadError::NotJson => parse_fail_note(p@),
            PayloadError::MissingKey => missing_key_note(p@),
            PayloadError::MissingValue => missing_value_note(p@),
        },
{
    match e {
        PayloadError::NotJson => concat3("failed to parse '", p, "' as json"),
        PayloadError::MissingKey => concat3("expected a string field 'key' in '", p, "'"),
        PayloadError::MissingValue => concat3("expected a string field 'value' in '", p, "'"),
    }
}

/// The notification text when the provider fails a read.
pub fn read_failure_message(p: &str) -> (msg: String)
    ensures
        msg@ == read_fail_note(p@),
{
    concat3("failed to read from ledger: '", p, "'")
}

/// The notification text when the provider rejects a write.
pub fn write_failure_message(detail: &str) -> (msg: String)
    ensures
        msg@ == write_fail_note(detail@),
{
    concat3("failed to write to ledger: '", detail, "'")
}

/// The notification text when the provider cannot open a scan.
pub fn cursor_failure_message() -> (msg: String)
    ensures
        msg@ == cursor_fail_note(),
{
    let mut s = String::new();
    s.append("failed to get cursor from ledger");
    proof {
        assert(s@ =~= cursor_fail_note());
    }
    s
}

/// The notification text for the bytes that a successful read returned.
pub fn load_hit_message(bytes: Vec<u8>, p: &str) -> (msg: String)
    ensures
        msg@ == load_hit_note(bytes@, p@),
{
    if bytes.is_empty() {
        concat3("the key '", p, "' was not found in table my_table")
    } else {
        match bytes_to_string(bytes) {
            Some(s) => concat3("{\"value\":", json_quote(s.as_str()).as_str(), "}"),
            None => concat3("{\"value\":", json_quote("!! utf8 parsing error !!").as_str(), "}"),
        }
    }
}

/// The success notification of an insert of `v` under `k`.
pub fn inserted_message(k: &str, v: &str) -> (msg: String)
    ensures
        msg@ == inserted_note(k@, v@),
{
    let qk = json_quote(k);
    let qv = json_quote(v);
    concat5("{\"inserted\":true,\"key\":", qk.as_str(), ",\"value\":", qv.as_str(), "}")
}

} // verus!
