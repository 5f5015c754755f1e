//! Tests of payload decoding and the notification catalogue.

use ledger_router::protocol::decode_key_payload;
use ledger_router::protocol::decode_kv_payload;
use ledger_router::protocol::payload_error_message;
use ledger_router::protocol::read_failure_message;
use ledger_router::protocol::write_failure_message;
use ledger_router::protocol::cursor_failure_message;
use ledger_router::protocol::load_hit_message;
use ledger_router::protocol::inserted_message;
use ledger_router::protocol::PayloadError;
use ledger_router::text::str_eq;
use ledger_router::text::u64_to_string;

#[test]
fn decode_key_payload_cases() {
    assert_eq!(decode_key_payload("{\"key\":\"k\"}"), Ok("k".to_string()));
    assert_eq!(decode_key_payload("nope"), Err(PayloadError::NotJson));
    assert_eq!(decode_key_payload("{}"), Err(PayloadError::MissingKey));
    assert_eq!(decode_key_payload("{\"key\":3}"), Err(PayloadError::MissingKey));
    assert_eq!(decode_key_payload("[1,2]"), Err(PayloadError::MissingKey));
}

#[test]
fn decode_kv_payload_cases() {
    assert_eq!(
        decode_kv_payload("{\"key\":\"k\",\"value\":\"v\"}"),
        Ok(("k".to_string(), "v".to_string()))
    );
    assert_eq!(decode_kv_payload("zzz"), Err(PayloadError::NotJson));
    assert_eq!(
        decode_kv_payload("{\"value\":\"v\"}"),
        Err(PayloadError::MissingKey)
    );
    assert_eq!(
        decode_kv_payload("{\"key\":\"k\"}"),
        Err(PayloadError::MissingValue)
    );
    assert_eq!(
        decode_kv_payload("{\"key\":\"k\",\"value\":5}"),
        Err(PayloadError::MissingValue)
    );
}

#[test]
fn failure_messages_are_exact() {
    assert_eq!(
        payload_error_message("abc", &PayloadError::NotJson),
        "failed to parse 'abc' as json"
    );
    assert_eq!(
        payload_error_message("{}", &PayloadError::MissingKey),
        "expected a string field 'key' in '{}'"
    );
    assert_eq!(
        payload_error_message("{}", &PayloadError::MissingValue),
        "expected a string field 'value' in '{}'"
    );
    assert_eq!(
        read_failure_message("{\"key\":\"k\"}"),
        "failed to read from ledger: '{\"key\":\"k\"}'"
    );
    assert_eq!(
        write_failure_message("disk full"),
        "failed to write to ledger: 'disk full'"
    );
    assert_eq!(cursor_failure_message(), "failed to get cursor from ledger");
}

#[test]
fn load_hit_message_cases() {
    assert_eq!(
        load_hit_message(Vec::new(), "{\"key\":\"a\"}"),
        "the key '{\"key\":\"a\"}' was not found in table my_table"
    );
    assert_eq!(load_hit_message(b"text".to_vec(), "p"), "{\"value\":\"text\"}");
    assert_eq!(
        load_hit_message(vec![0xc3, 0x28], "p"),
        "{\"value\":\"!! utf8 parsing error !!\"}"
    );
}

#[test]
fn inserted_message_quotes_both_fields() {
    assert_eq!(
        inserted_message("k", "v"),
        "{\"inserted\":true,\"key\":\"k\",\"value\":\"v\"}"
    );
    let expected = format!(
        "{{\"inserted\":true,\"key\":{},\"value\":{}}}",
        serde_json::Value::String("a\"b".to_string()).to_string(),
        serde_json::Value::String("new\nline".to_string()).to_string()
    );
    assert_eq!(inserted_message("a\"b", "new\nline"), expected);
}

#[test]
fn decimal_formatting_is_exact() {
    assert_eq!(u64_to_string(0), "0");
    assert_eq!(u64_to_string(7), "7");
    assert_eq!(u64_to_string(10), "10");
    assert_eq!(u64_to_string(90210), "90210");
    assert_eq!(u64_to_string(u64::MAX), "18446744073709551615");
}

#[test]
fn string_equality_matches_rust() {
    assert!(str_eq("", ""));
    assert!(str_eq("abc", "abc"));
    assert!(!str_eq("abc", "abd"));
    assert!(!str_eq("abc", "ab"));
    assert!(str_eq("naïve ☃", "naïve ☃"));
    assert!(!str_eq("naïve ☃", "naive ☃"));
}
