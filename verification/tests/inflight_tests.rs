//! In-flight correlation: begin/end pairing, defensive defaults, and the
//! mongo command observer built on it.

use moniof::config::MoniOFGlobalConfig;
use moniof::inflight::{inflight_key, InFlightTable};
use moniof::mongo_events::{failed_command_message, slow_command_message, MOFMongoEvents};
use moniof::stats::QueryStats;

#[test]
fn end_after_begin_returns_descriptor_and_elapsed() {
    let mut t = InFlightTable::new();
    t.begin("conn-1", 7, 1_000, "users", "find");
    let r = t.end("conn-1", 7, 1_025);
    let (elapsed, coll, op) = r.expect("matching start must be found");
    assert_eq!(elapsed, 25);
    assert_eq!(coll.as_str(), "users");
    assert_eq!(op.as_str(), "find");
}

#[test]
fn end_without_begin_returns_nothing() {
    let mut t = InFlightTable::new();
    assert!(t.end("conn-1", 7, 1_000).is_none());
}

#[test]
fn second_end_returns_nothing() {
    let mut t = InFlightTable::new();
    t.begin("conn-1", 7, 1_000, "users", "find");
    assert!(t.end("conn-1", 7, 1_010).is_some());
    assert!(t.end("conn-1", 7, 1_020).is_none());
}

#[test]
fn elapsed_is_zero_when_clock_moves_backwards() {
    let mut t = InFlightTable::new();
    t.begin("conn-1", 7, 1_000, "users", "find");
    let (elapsed, _, _) = t.end("conn-1", 7, 900).unwrap();
    assert_eq!(elapsed, 0);
}

#[test]
fn duplicate_begin_last_start_wins() {
    let mut t = InFlightTable::new();
    t.begin("conn-1", 7, 1_000, "users", "find");
    t.begin("conn-1", 7, 1_050, "orders", "insert");
    assert_eq!(t.len(), 1);
    let (elapsed, coll, op) = t.end("conn-1", 7, 1_060).unwrap();
    assert_eq!(elapsed, 10);
    assert_eq!(coll.as_str(), "orders");
    assert_eq!(op.as_str(), "insert");
}

#[test]
fn identities_do_not_collide() {
    let mut t = InFlightTable::new();
    t.begin("conn-1", 7, 1_000, "users", "find");
    t.begin("conn-1", 8, 2_000, "orders", "find");
    t.begin("conn-2", 7, 3_000, "carts", "find");
    assert_eq!(t.len(), 3);
    let (_, coll, _) = t.end("conn-2", 7, 3_001).unwrap();
    assert_eq!(coll.as_str(), "carts");
    let (_, coll, _) = t.end("conn-1", 8, 2_001).unwrap();
    assert_eq!(coll.as_str(), "orders");
    assert_eq!(t.len(), 1);
}

#[test]
fn inflight_key_carries_both_parts() {
    let k = inflight_key("conn-9", 42);
    assert_eq!(k.0.as_str(), "conn-9");
    assert_eq!(k.1, 42);
}

#[test]
fn observer_start_and_success_record_latency() {
    let mut obs = MOFMongoEvents::new();
    let mut s = QueryStats::new_at(0);
    let cfg = MoniOFGlobalConfig::default();
    let key = obs.observe_start(&mut s, "conn-1", 7, Some("users".to_string()), "appdb", "FIND", 1_000);
    assert_eq!(key.as_str(), "users/find");
    assert_eq!(s.per_key.get("mongo/users/find"), Some(1));
    let out = obs.observe_success(&mut s, "conn-1", 7, "FIND", 1_030, &cfg);
    assert!(out.matched);
    assert_eq!(out.elapsed_ms, 30);
    assert_eq!(out.key.as_str(), "users/find");
    assert!(!out.slow);
    assert!(!out.low);
    assert_eq!(s.per_key_latency_ms.get("mongo/users/find"), Some(30));
    assert_eq!(s.total_db_latency_ms, 30);
}

#[test]
fn observer_falls_back_to_db_name() {
    let mut obs = MOFMongoEvents::new();
    let mut s = QueryStats::new_at(0);
    let key = obs.observe_start(&mut s, "conn-1", 7, None, "appdb", "aggregate", 0);
    assert_eq!(key.as_str(), "appdb/aggregate");
}

#[test]
fn observer_success_without_start_defaults() {
    let mut obs = MOFMongoEvents::new();
    let mut s = QueryStats::new_at(0);
    let cfg = MoniOFGlobalConfig::default();
    let out = obs.observe_success(&mut s, "conn-1", 7, "FIND", 1_000, &cfg);
    assert!(!out.matched);
    assert_eq!(out.elapsed_ms, 0);
    assert_eq!(out.key.as_str(), "unknown/find");
    assert_eq!(s.per_key_latency_ms.get("mongo/unknown/find"), Some(0));
}

#[test]
fn observer_judges_slow_and_low() {
    let mut obs = MOFMongoEvents::new();
    let mut s = QueryStats::new_at(0);
    let cfg = MoniOFGlobalConfig {
        log_each_db_event: false,
        slow_db_threshold_ms: Some(20),
        low_db_threshold_ms: Some(2),
        slack_webhook: None,
    };
    obs.observe_start(&mut s, "c", 1, Some("users".to_string()), "db", "find", 1_000);
    let out = obs.observe_success(&mut s, "c", 1, "find", 1_025, &cfg);
    assert!(out.slow);
    assert!(!out.low);
    obs.observe_start(&mut s, "c", 2, Some("users".to_string()), "db", "find", 2_000);
    let out = obs.observe_success(&mut s, "c", 2, "find", 2_001, &cfg);
    assert!(!out.slow);
    assert!(out.low);
}

#[test]
fn observer_failure_records_latency() {
    let mut obs = MOFMongoEvents::new();
    let mut s = QueryStats::new_at(0);
    obs.observe_start(&mut s, "c", 1, Some("users".to_string()), "db", "insert", 500);
    let out = obs.observe_failure(&mut s, "c", 1, "insert", 540);
    assert!(out.matched);
    assert_eq!(out.elapsed_ms, 40);
    assert_eq!(out.key.as_str(), "users/insert");
    assert_eq!(s.per_key_latency_ms.get("mongo/users/insert"), Some(40));
    let out2 = obs.observe_failure(&mut s, "c", 1, "insert", 560);
    assert!(!out2.matched);
    assert_eq!(out2.elapsed_ms, 0);
}

#[test]
fn command_messages_render_exactly() {
    assert_eq!(
        slow_command_message("users/find", 250),
        "*Slow MongoDB command*\n- key: `users/find`\n- latency: 250 ms"
    );
    assert_eq!(
        failed_command_message("users/insert", 3),
        "*MongoDB command failed*\n- key: `users/insert`\n- latency: 3 ms"
    );
}
