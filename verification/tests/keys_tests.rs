//! Key normalization, blank checks, and the SQL span decisions.

use moniof::keys::{condensed_key, is_blank, normalize_sql, should_notify};
use moniof::sql_events::{
    sql_debug_update, sql_field_update, sql_target_matches, MOFSqlEvents, SqlxQueryLayer,
};
use moniof::stats::logical_key;

#[test]
fn normalize_collapses_whitespace_and_lowercases() {
    assert_eq!(normalize_sql("SELECT  *\n FROM   Users"), "select * from users");
    assert_eq!(normalize_sql("  SELECT 1  "), "select 1");
    assert_eq!(normalize_sql(""), "");
    assert_eq!(normalize_sql(" \t \n "), "");
}

#[test]
fn normalize_caps_key_length() {
    let long = "A".repeat(500);
    let key = normalize_sql(&long);
    assert_eq!(key.chars().count(), 200);
    assert!(key.chars().all(|c| c == 'a'));
}

#[test]
fn condensed_key_keeps_case() {
    assert_eq!(condensed_key("  SELECT   Name\tFROM T "), "SELECT Name FROM T");
    assert_eq!(condensed_key("one"), "one");
    assert_eq!(condensed_key(""), "");
}

#[test]
fn blankness_checks() {
    assert!(is_blank(""));
    assert!(is_blank("  \t\n"));
    assert!(!is_blank(" x "));
    assert!(!should_notify(&None));
    assert!(!should_notify(&Some("   ".to_string())));
    assert!(should_notify(&Some("https://example.invalid/hook".to_string())));
}

#[test]
fn logical_key_joins_with_slash() {
    assert_eq!(logical_key("users", "find"), "users/find");
    assert_eq!(logical_key("", "op"), "/op");
}

#[test]
fn sql_fields_replace_captured_text() {
    let r = sql_field_update(None, "db.statement", "SELECT 1");
    assert_eq!(r.as_deref(), Some("SELECT 1"));
    let r = sql_field_update(Some("old".to_string()), "statement", "SELECT 2");
    assert_eq!(r.as_deref(), Some("SELECT 2"));
    let r = sql_field_update(Some("old".to_string()), "message", "SELECT 3");
    assert_eq!(r.as_deref(), Some("SELECT 3"));
    let r = sql_field_update(Some("old".to_string()), "other", "SELECT 4");
    assert_eq!(r.as_deref(), Some("old"));
    let r = sql_field_update(None, "other", "SELECT 5");
    assert_eq!(r, None);
}

#[test]
fn sql_debug_fills_only_empty_message() {
    let r = sql_debug_update(None, "message", "SELECT 1");
    assert_eq!(r.as_deref(), Some("SELECT 1"));
    let r = sql_debug_update(Some("kept".to_string()), "message", "SELECT 2");
    assert_eq!(r.as_deref(), Some("kept"));
    let r = sql_debug_update(None, "other", "SELECT 3");
    assert_eq!(r, None);
}

#[test]
fn sql_targets_are_filtered_by_prefix() {
    assert!(sql_target_matches("sqlx::query"));
    assert!(sql_target_matches("sqlx::query::execute"));
    assert!(!sql_target_matches("sqlx::pool"));
    assert!(!sql_target_matches("hyper::client"));
    assert!(!sql_target_matches(""));
}

#[test]
fn span_key_normalizes_text_or_target() {
    let layer = MOFSqlEvents::new();
    let key = layer.span_key(&Some("SELECT  1".to_string()), "sqlx::query");
    assert_eq!(key, "select 1");
    let key = layer.span_key(&None, "sqlx::Query");
    assert_eq!(key, "sqlx::query");
}

#[test]
fn event_key_keeps_raw_target() {
    let layer = SqlxQueryLayer::new();
    let key = layer.event_key(&Some("SELECT  2".to_string()), "sqlx::query");
    assert_eq!(key, "select 2");
    let key = layer.event_key(&None, "sqlx::Query");
    assert_eq!(key, "sqlx::Query");
}

#[test]
fn cap_boundary_is_exact() {
    let at_cap = "b".repeat(200);
    assert_eq!(normalize_sql(&at_cap).chars().count(), 200);
    let over_cap = "b".repeat(201);
    assert_eq!(normalize_sql(&over_cap).chars().count(), 200);
}

#[test]
fn unicode_whitespace_collapses() {
    assert_eq!(condensed_key("a\u{00A0}\u{2003}b"), "a b");
    assert!(is_blank("\u{00A0}\u{3000}"));
}
