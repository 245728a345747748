//! Aggregator behaviour: counts, latencies, maxima, and the kind-prefixed
//! recording helpers.

use moniof::stats::{mark, mark_latency, QueryKind, QueryStats};

#[test]
fn record_counts_every_call() {
    let mut s = QueryStats::new_at(1_000);
    s.record("users/find");
    s.record("users/find");
    s.record("orders/find");
    s.record("users/find");
    assert_eq!(s.total, 4);
    assert_eq!(s.per_key.get("users/find"), Some(3));
    assert_eq!(s.per_key.get("orders/find"), Some(1));
    assert_eq!(s.per_key.get("never/seen"), None);
}

#[test]
fn record_latency_sums_and_maxima() {
    let mut s = QueryStats::new_at(0);
    s.record_latency("users/find", 7);
    s.record_latency("users/find", 12);
    s.record_latency("users/find", 4);
    s.record_latency("orders/find", 5);
    assert_eq!(s.total_db_latency_ms, 28);
    assert_eq!(s.per_key_latency_ms.get("users/find"), Some(23));
    assert_eq!(s.per_key_max_latency_ms.get("users/find"), Some(12));
    assert_eq!(s.per_key_latency_ms.get("orders/find"), Some(5));
    assert_eq!(s.per_key_max_latency_ms.get("orders/find"), Some(5));
    assert_eq!(s.per_key_latency_ms.get("never/seen"), None);
}

#[test]
fn latency_without_count_is_tolerated() {
    let mut s = QueryStats::new_at(0);
    s.record_latency("unknown/find", 9);
    assert_eq!(s.total, 0);
    assert_eq!(s.per_key.get("unknown/find"), None);
    assert_eq!(s.per_key_latency_ms.get("unknown/find"), Some(9));
}

#[test]
fn elapsed_at_measures_from_creation() {
    let s = QueryStats::new_at(1_000);
    assert_eq!(s.elapsed_at(1_250), 250);
    assert_eq!(s.elapsed_at(1_000), 0);
}

#[test]
fn elapsed_at_clock_backwards_is_zero() {
    let s = QueryStats::new_at(1_000);
    assert_eq!(s.elapsed_at(900), 0);
}

#[test]
fn new_reads_the_clock() {
    let s = QueryStats::new();
    assert_eq!(s.total, 0);
    assert_eq!(s.total_db_latency_ms, 0);
    assert!(s.started_at_ms > 0);
    let _ = s.elapsed();
}

#[test]
fn mark_prefixes_with_kind() {
    let mut s = QueryStats::new_at(0);
    mark(&mut s, QueryKind::Mongo, "users/find");
    mark(&mut s, QueryKind::Sql, "select 1");
    mark(&mut s, QueryKind::Other, "x");
    assert_eq!(s.per_key.get("mongo/users/find"), Some(1));
    assert_eq!(s.per_key.get("sql/select 1"), Some(1));
    assert_eq!(s.per_key.get("other/x"), Some(1));
    assert_eq!(s.total, 3);
}

#[test]
fn mark_latency_prefixes_with_kind() {
    let mut s = QueryStats::new_at(0);
    mark_latency(&mut s, QueryKind::Mongo, "users/find", 11);
    mark_latency(&mut s, QueryKind::Mongo, "users/find", 4);
    assert_eq!(s.per_key_latency_ms.get("mongo/users/find"), Some(15));
    assert_eq!(s.per_key_max_latency_ms.get("mongo/users/find"), Some(11));
    assert_eq!(s.total_db_latency_ms, 15);
}

#[test]
fn keytable_set_overwrites() {
    let mut t = moniof::keytable::KeyTable::<usize>::new();
    assert_eq!(t.len(), 0);
    t.set("a", 1);
    t.set("b", 2);
    t.set("a", 5);
    assert_eq!(t.len(), 2);
    assert_eq!(t.get("a"), Some(5));
    assert_eq!(t.get("b"), Some(2));
    assert_eq!(t.key_at(0).as_str(), "a");
    assert_eq!(t.val_at(0), 5);
}
