//! Suspect detection: qualification, ranking, truncation, determinism.

use moniof::config::MoniOFConfig;
use moniof::of::find_suspects;
use moniof::stats::QueryStats;

fn detector_config() -> MoniOFConfig {
    MoniOFConfig {
        max_total: 60,
        max_same_key: 20,
        add_response_headers: true,
        log_warnings: true,
        warn_total_db_latency_ms: None,
        warn_low_total_db_latency_ms: None,
        of_mode: true,
        n_plus_one_min_count: 5,
        n_plus_one_min_total_ms: None,
    }
}

fn record_n(s: &mut QueryStats, key: &str, n: usize) {
    let mut i = 0;
    while i < n {
        s.record(key);
        i += 1;
    }
}

#[test]
fn scenario_min_count_five() {
    let mut s = QueryStats::new_at(0);
    record_n(&mut s, "users/find", 6);
    record_n(&mut s, "orders/find", 1);
    let r = find_suspects(&s, &detector_config());
    assert_eq!(r.len(), 1);
    assert_eq!(r[0].key.as_str(), "users/find");
    assert_eq!(r[0].count, 6);
}

#[test]
fn disabled_detector_returns_empty() {
    let mut s = QueryStats::new_at(0);
    record_n(&mut s, "users/find", 50);
    let mut cfg = detector_config();
    cfg.of_mode = false;
    assert!(find_suspects(&s, &cfg).is_empty());
}

#[test]
fn empty_snapshot_yields_no_suspects() {
    let s = QueryStats::new_at(0);
    assert!(find_suspects(&s, &detector_config()).is_empty());
}

#[test]
fn latency_floor_filters() {
    let mut s = QueryStats::new_at(0);
    record_n(&mut s, "slow/find", 6);
    s.record_latency("slow/find", 50);
    record_n(&mut s, "fast/find", 6);
    s.record_latency("fast/find", 3);
    let mut cfg = detector_config();
    cfg.n_plus_one_min_total_ms = Some(10);
    let r = find_suspects(&s, &cfg);
    assert_eq!(r.len(), 1);
    assert_eq!(r[0].key.as_str(), "slow/find");
    assert_eq!(r[0].total_latency_ms, 50);
}

#[test]
fn list_is_truncated_to_three_and_ranked() {
    let mut s = QueryStats::new_at(0);
    record_n(&mut s, "a/find", 6);
    record_n(&mut s, "b/find", 9);
    record_n(&mut s, "c/find", 7);
    record_n(&mut s, "d/find", 8);
    record_n(&mut s, "e/find", 10);
    let r = find_suspects(&s, &detector_config());
    assert_eq!(r.len(), 3);
    assert_eq!(r[0].key.as_str(), "e/find");
    assert_eq!(r[1].key.as_str(), "b/find");
    assert_eq!(r[2].key.as_str(), "d/find");
    assert!(r[0].count >= r[1].count && r[1].count >= r[2].count);
}

#[test]
fn count_ties_break_by_latency_descending() {
    let mut s = QueryStats::new_at(0);
    record_n(&mut s, "a/find", 6);
    s.record_latency("a/find", 10);
    record_n(&mut s, "b/find", 6);
    s.record_latency("b/find", 40);
    let r = find_suspects(&s, &detector_config());
    assert_eq!(r.len(), 2);
    assert_eq!(r[0].key.as_str(), "b/find");
    assert_eq!(r[1].key.as_str(), "a/find");
}

#[test]
fn full_ties_break_by_key_lexical_order() {
    let mut s = QueryStats::new_at(0);
    record_n(&mut s, "zz/find", 6);
    record_n(&mut s, "aa/find", 6);
    record_n(&mut s, "mm/find", 6);
    let r = find_suspects(&s, &detector_config());
    assert_eq!(r.len(), 3);
    assert_eq!(r[0].key.as_str(), "aa/find");
    assert_eq!(r[1].key.as_str(), "mm/find");
    assert_eq!(r[2].key.as_str(), "zz/find");
}

#[test]
fn detector_is_idempotent() {
    let mut s = QueryStats::new_at(0);
    record_n(&mut s, "a/find", 6);
    s.record_latency("a/find", 12);
    record_n(&mut s, "b/find", 8);
    record_n(&mut s, "c/find", 8);
    s.record_latency("c/find", 2);
    let cfg = detector_config();
    let r1 = find_suspects(&s, &cfg);
    let r2 = find_suspects(&s, &cfg);
    assert_eq!(r1.len(), r2.len());
    for (x, y) in r1.iter().zip(r2.iter()) {
        assert_eq!(x.key, y.key);
        assert_eq!(x.count, y.count);
        assert_eq!(x.total_latency_ms, y.total_latency_ms);
    }
}

#[test]
fn suspect_carries_summed_latency() {
    let mut s = QueryStats::new_at(0);
    record_n(&mut s, "a/find", 5);
    s.record_latency("a/find", 7);
    s.record_latency("a/find", 8);
    let r = find_suspects(&s, &detector_config());
    assert_eq!(r.len(), 1);
    assert_eq!(r[0].total_latency_ms, 15);
}

#[test]
fn lexical_tie_prefix_comes_first() {
    let mut s = QueryStats::new_at(0);
    record_n(&mut s, "ab/find", 6);
    record_n(&mut s, "a/find", 6);
    let r = find_suspects(&s, &detector_config());
    assert_eq!(r[0].key.as_str(), "a/find");
    assert_eq!(r[1].key.as_str(), "ab/find");
}
