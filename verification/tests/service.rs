//! End-to-end tests of the dispatcher and store engine, run with the real
//! JSON machinery linked.

use ledger_router::router::register_routes;
use ledger_router::router::Handler;
use ledger_router::router::QueryOp;
use ledger_router::router::Router;
use ledger_router::router::TransactionOp;
use ledger_router::store::Table;
use ledger_router::txn::Transaction;

fn dispatch(table: Table, name: &str, payload: &str) -> (Table, String) {
    let router = register_routes();
    let (t, msg) = router.dispatch(table, name, payload);
    (t, msg.expect("registered route must notify"))
}

#[test]
fn commit_visibility_roundtrip() {
    let t = Table::new();
    let (t, msg) = dispatch(t, "insert-in-ledger", "{\"key\":\"k1\",\"value\":\"v1\"}");
    assert_eq!(msg, "{\"inserted\":true,\"key\":\"k1\",\"value\":\"v1\"}");
    let (_t, msg) = dispatch(t, "load-from-ledger", "{\"key\":\"k1\"}");
    assert_eq!(msg, "{\"value\":\"v1\"}");
}

#[test]
fn cancel_atomicity() {
    let t = Table::new();
    let (t, _) = dispatch(t, "insert-in-ledger", "{\"key\":\"k\",\"value\":\"before\"}");
    let mut tx = Transaction::open(t);
    tx.set("k", b"changed");
    tx.set("fresh", b"new");
    assert_eq!(tx.get("k"), b"changed".to_vec());
    let t = tx.cancel();
    assert_eq!(t.get("k"), b"before".to_vec());
    assert_eq!(t.get("fresh"), Vec::<u8>::new());
}

#[test]
fn transaction_commit_publishes_writes() {
    let t = Table::new();
    let mut tx = Transaction::open(t);
    tx.set("a", b"1");
    tx.set("a", b"2");
    tx.set("b", b"3");
    let t = tx.commit();
    assert_eq!(t.get("a"), b"2".to_vec());
    assert_eq!(t.get("b"), b"3".to_vec());
}

#[test]
fn miss_distinct_from_empty_value() {
    let t = Table::new();
    let (_t, msg) = dispatch(t, "load-from-ledger", "{\"key\":\"nope\"}");
    assert_eq!(
        msg,
        "the key '{\"key\":\"nope\"}' was not found in table my_table"
    );
}

#[test]
fn reinsert_keeps_latest_value() {
    let t = Table::new();
    let (t, _) = dispatch(t, "insert-in-ledger", "{\"key\":\"k\",\"value\":\"old\"}");
    let (t, _) = dispatch(t, "insert-in-ledger", "{\"key\":\"k\",\"value\":\"new\"}");
    let (_t, msg) = dispatch(t, "load-from-ledger", "{\"key\":\"k\"}");
    assert_eq!(msg, "{\"value\":\"new\"}");
}

#[test]
fn malformed_payload_insert() {
    let t = Table::new();
    let (t, msg) = dispatch(t, "insert-in-ledger", "not json");
    assert_eq!(msg, "failed to parse 'not json' as json");
    let (_t, msg) = dispatch(t, "fetch-all-scores", "");
    assert_eq!(msg, "{\"success\":true,\"value\":[]}");
}

#[test]
fn malformed_payload_load() {
    let t = Table::new();
    let (_t, msg) = dispatch(t, "load-from-ledger", "not json");
    assert_eq!(msg, "failed to parse 'not json' as json");
}

#[test]
fn missing_key_field_is_named() {
    let t = Table::new();
    let (t, msg) = dispatch(t, "insert-in-ledger", "{\"value\":\"x\"}");
    assert_eq!(
        msg,
        "expected a string field 'key' in '{\"value\":\"x\"}'"
    );
    let (_t, msg) = dispatch(t, "load-from-ledger", "{}");
    assert_eq!(msg, "expected a string field 'key' in '{}'");
}

#[test]
fn missing_value_field_cancels() {
    let t = Table::new();
    let (t, msg) = dispatch(t, "insert-in-ledger", "{\"key\":\"k\"}");
    assert_eq!(msg, "expected a string field 'value' in '{\"key\":\"k\"}'");
    let (_t, msg) = dispatch(t, "load-from-ledger", "{\"key\":\"k\"}");
    assert_eq!(
        msg,
        "the key '{\"key\":\"k\"}' was not found in table my_table"
    );
}

#[test]
fn non_string_field_is_rejected() {
    let t = Table::new();
    let (_t, msg) = dispatch(t, "insert-in-ledger", "{\"key\":7,\"value\":\"x\"}");
    assert_eq!(
        msg,
        "expected a string field 'key' in '{\"key\":7,\"value\":\"x\"}'"
    );
}

#[test]
fn value_with_escapes_roundtrips() {
    let t = Table::new();
    let payload = "{\"key\":\"k\",\"value\":\"a\\\"b\\\\c\\nd\"}";
    let (t, _) = dispatch(t, "insert-in-ledger", payload);
    let (_t, msg) = dispatch(t, "load-from-ledger", "{\"key\":\"k\"}");
    let expected = format!(
        "{{\"value\":{}}}",
        serde_json::Value::String("a\"b\\c\nd".to_string()).to_string()
    );
    assert_eq!(msg, expected);
}

#[test]
fn invalid_utf8_value_reports_fallback() {
    let t = Table::new();
    let mut tx = Transaction::open(t);
    tx.set("k", &[0xff, 0xfe, 0x01]);
    let t = tx.commit();
    let (_t, msg) = dispatch(t, "load-from-ledger", "{\"key\":\"k\"}");
    assert_eq!(msg, "{\"value\":\"!! utf8 parsing error !!\"}");
}

#[test]
fn unknown_route_yields_no_notification() {
    let router = register_routes();
    let (_t, msg) = router.dispatch(Table::new(), "no-such-route", "{}");
    assert!(msg.is_none());
}

#[test]
fn routes_are_registered_with_their_kinds() {
    let router = register_routes();
    assert_eq!(
        router.lookup("load-from-ledger"),
        Some(Handler::Query(QueryOp::LoadFromLedger))
    );
    assert_eq!(
        router.lookup("fetch-all-scores"),
        Some(Handler::Query(QueryOp::FetchAllScores))
    );
    assert_eq!(
        router.lookup("insert-in-ledger"),
        Some(Handler::Transaction(TransactionOp::InsertInLedger))
    );
    assert_eq!(router.lookup("other"), None);
}

#[test]
fn duplicate_registration_is_refused() {
    let mut router = Router::new();
    assert!(router
        .register("r".to_string(), Handler::Query(QueryOp::LoadFromLedger))
        .is_ok());
    assert!(router
        .register("r".to_string(), Handler::Query(QueryOp::FetchAllScores))
        .is_err());
    assert_eq!(
        router.lookup("r"),
        Some(Handler::Query(QueryOp::LoadFromLedger))
    );
}

#[test]
fn cursor_scans_in_insertion_order() {
    let t = Table::new();
    let mut tx = Transaction::open(t);
    tx.set("b", b"2");
    tx.set("a", b"1");
    let t = tx.commit();
    let mut cur = t.cursor();
    assert_eq!(cur.next(), Some((b"b".to_vec(), b"2".to_vec())));
    assert_eq!(cur.next(), Some((b"a".to_vec(), b"1".to_vec())));
    assert_eq!(cur.next(), None);
}

#[test]
fn load_notification_parses_as_json() {
    let t = Table::new();
    let (t, _) = dispatch(t, "insert-in-ledger", "{\"key\":\"k\",\"value\":\"v\"}");
    let (_t, msg) = dispatch(t, "load-from-ledger", "{\"key\":\"k\"}");
    let v: serde_json::Value = serde_json::from_str(&msg).expect("notification is JSON");
    assert_eq!(v.get("value").and_then(|x| x.as_str()), Some("v"));
}

#[test]
fn empty_value_reads_back_as_miss() {
    let t = Table::new();
    let (t, msg) = dispatch(t, "insert-in-ledger", "{\"key\":\"k\",\"value\":\"\"}");
    assert_eq!(msg, "{\"inserted\":true,\"key\":\"k\",\"value\":\"\"}");
    let (_t, msg) = dispatch(t, "load-from-ledger", "{\"key\":\"k\"}");
    assert_eq!(msg, "the key '{\"key\":\"k\"}' was not found in table my_table");
}
