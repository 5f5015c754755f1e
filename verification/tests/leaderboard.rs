//! Tests of the leaderboard aggregation: prefix filtering, decoding
//! defaults, ordering, and formatting.

use ledger_router::leaderboard::collect_records;
use ledger_router::leaderboard::scores_message;
use ledger_router::leaderboard::sort_records;
use ledger_router::leaderboard::ScoreRecord;
use ledger_router::router::register_routes;
use ledger_router::store::Table;

fn dispatch(table: Table, name: &str, payload: &str) -> (Table, String) {
    let router = register_routes();
    let (t, msg) = router.dispatch(table, name, payload);
    (t, msg.expect("registered route must notify"))
}

fn insert(table: Table, key: &str, value: &str) -> Table {
    let quoted = serde_json::Value::String(value.to_string()).to_string();
    let payload = format!("{{\"key\":{},\"value\":{}}}",
        serde_json::Value::String(key.to_string()).to_string(), quoted);
    let (t, msg) = dispatch(table, "insert-in-ledger", &payload);
    assert!(msg.starts_with("{\"inserted\":true"), "insert failed: {}", msg);
    t
}

#[test]
fn leaderboard_orders_by_score_descending() {
    let mut t = Table::new();
    t = insert(t, "score:a", "{\"name\":\"A\",\"score\":10}");
    t = insert(t, "score:b", "{\"name\":\"B\",\"score\":30}");
    t = insert(t, "score:c", "{\"name\":\"C\",\"score\":20}");
    let (_t, msg) = dispatch(t, "fetch-all-scores", "");
    assert_eq!(
        msg,
        "{\"success\":true,\"value\":[\
         {\"name\":\"B\",\"score\":30},\
         {\"name\":\"C\",\"score\":20},\
         {\"name\":\"A\",\"score\":10}]}"
    );
}

#[test]
fn prefix_filter_excludes_foreign_keys() {
    let mut t = Table::new();
    t = insert(t, "score:a", "{\"name\":\"A\",\"score\":10}");
    t = insert(t, "other:x", "{\"name\":\"Z\",\"score\":99}");
    t = insert(t, "plain", "whatever");
    let (_t, msg) = dispatch(t, "fetch-all-scores", "");
    assert_eq!(
        msg,
        "{\"success\":true,\"value\":[{\"name\":\"A\",\"score\":10}]}"
    );
}

#[test]
fn empty_leaderboard_is_a_success() {
    let (_t, msg) = dispatch(Table::new(), "fetch-all-scores", "ignored payload");
    assert_eq!(msg, "{\"success\":true,\"value\":[]}");
}

#[test]
fn ties_keep_scan_order() {
    let mut t = Table::new();
    t = insert(t, "score:1", "{\"name\":\"first\",\"score\":5}");
    t = insert(t, "score:2", "{\"name\":\"second\",\"score\":5}");
    t = insert(t, "score:3", "{\"name\":\"top\",\"score\":6}");
    let (_t, msg) = dispatch(t, "fetch-all-scores", "");
    assert_eq!(
        msg,
        "{\"success\":true,\"value\":[\
         {\"name\":\"top\",\"score\":6},\
         {\"name\":\"first\",\"score\":5},\
         {\"name\":\"second\",\"score\":5}]}"
    );
}

#[test]
fn missing_fields_get_defaults() {
    let mut t = Table::new();
    t = insert(t, "score:a", "{}");
    t = insert(t, "score:b", "7");
    let (_t, msg) = dispatch(t, "fetch-all-scores", "");
    assert_eq!(
        msg,
        "{\"success\":true,\"value\":[\
         {\"name\":\"???\",\"score\":0},\
         {\"name\":\"???\",\"score\":0}]}"
    );
}

#[test]
fn undecodable_value_is_skipped() {
    let mut t = Table::new();
    t = insert(t, "score:bad", "not json at all");
    t = insert(t, "score:good", "{\"name\":\"G\",\"score\":1}");
    let (_t, msg) = dispatch(t, "fetch-all-scores", "");
    assert_eq!(
        msg,
        "{\"success\":true,\"value\":[{\"name\":\"G\",\"score\":1}]}"
    );
}

#[test]
fn invalid_utf8_key_is_skipped() {
    let entries = vec![
        (b"score:\xff\xfe".to_vec(), b"{\"name\":\"X\",\"score\":3}".to_vec()),
        (b"score:ok".to_vec(), b"{\"name\":\"Y\",\"score\":4}".to_vec()),
    ];
    let msg = scores_message(&entries);
    assert_eq!(
        msg,
        "{\"success\":true,\"value\":[{\"name\":\"Y\",\"score\":4}]}"
    );
}

#[test]
fn large_and_zero_scores_format_exactly() {
    let mut t = Table::new();
    t = insert(t, "score:z", "{\"name\":\"zero\",\"score\":0}");
    t = insert(
        t,
        "score:m",
        "{\"name\":\"max\",\"score\":18446744073709551615}",
    );
    let (_t, msg) = dispatch(t, "fetch-all-scores", "");
    assert_eq!(
        msg,
        "{\"success\":true,\"value\":[\
         {\"name\":\"max\",\"score\":18446744073709551615},\
         {\"name\":\"zero\",\"score\":0}]}"
    );
}

#[test]
fn names_are_json_escaped_in_output() {
    let mut t = Table::new();
    t = insert(t, "score:q", "{\"name\":\"a\\\"b\",\"score\":2}");
    let (_t, msg) = dispatch(t, "fetch-all-scores", "");
    let expected = format!(
        "{{\"success\":true,\"value\":[{{\"name\":{},\"score\":2}}]}}",
        serde_json::Value::String("a\"b".to_string()).to_string()
    );
    assert_eq!(msg, expected);
}

#[test]
fn collect_and_sort_directly() {
    let entries = vec![
        (b"score:a".to_vec(), b"{\"name\":\"A\",\"score\":1}".to_vec()),
        (b"note".to_vec(), b"{\"name\":\"N\",\"score\":9}".to_vec()),
        (b"score:b".to_vec(), b"{\"name\":\"B\",\"score\":2}".to_vec()),
    ];
    let recs = collect_records(&entries);
    assert_eq!(recs.len(), 2);
    assert_eq!(recs[0].name, "A");
    assert_eq!(recs[0].score, 1);
    let sorted = sort_records(recs);
    assert_eq!(sorted[0].name, "B");
    assert_eq!(sorted[1].name, "A");
    let rebuilt = sort_records(vec![ScoreRecord {
        name: "solo".to_string(),
        score: 42,
    }]);
    assert_eq!(rebuilt[0].score, 42);
}
