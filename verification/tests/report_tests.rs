//! Threshold alerting, report building, response metadata and alert text.

use moniof::config::MoniOFConfig;
use moniof::http::MoniOF;
use moniof::report::{
    alert_message, build_report, evaluate_alerts, response_headers, worst_by_count,
    worst_by_max_latency,
};
use moniof::stats::QueryStats;

fn base_config() -> MoniOFConfig {
    MoniOFConfig {
        max_total: 60,
        max_same_key: 20,
        add_response_headers: true,
        log_warnings: true,
        warn_total_db_latency_ms: None,
        warn_low_total_db_latency_ms: None,
        of_mode: true,
        n_plus_one_min_count: 5,
        n_plus_one_min_total_ms: None,
    }
}

#[test]
fn rule_one_fires_alone_at_sixty_one() {
    let cfg = base_config();
    let f = evaluate_alerts(61, 0, None, 0, &cfg);
    assert!(f.high_total);
    assert!(!f.repeated_key);
    assert!(!f.high_latency);
    assert!(!f.low_latency);
    assert!(!f.n_plus_one);
    assert!(f.alerted());
    let f = evaluate_alerts(60, 0, None, 0, &cfg);
    assert!(!f.high_total);
    assert!(!f.alerted());
}

#[test]
fn rule_two_checks_worst_key_count() {
    let cfg = base_config();
    assert!(evaluate_alerts(1, 0, Some(21), 0, &cfg).repeated_key);
    assert!(!evaluate_alerts(1, 0, Some(20), 0, &cfg).repeated_key);
    assert!(!evaluate_alerts(1, 0, None, 0, &cfg).repeated_key);
}

#[test]
fn rule_three_checks_cumulative_latency() {
    let mut cfg = base_config();
    cfg.warn_total_db_latency_ms = Some(100);
    assert!(evaluate_alerts(1, 100, None, 0, &cfg).high_latency);
    assert!(!evaluate_alerts(1, 99, None, 0, &cfg).high_latency);
    cfg.warn_total_db_latency_ms = None;
    assert!(!evaluate_alerts(1, 10_000, None, 0, &cfg).high_latency);
}

#[test]
fn rule_four_fires_on_suspiciously_low_latency() {
    let mut cfg = base_config();
    cfg.warn_low_total_db_latency_ms = Some(5);
    let f = evaluate_alerts(3, 2, None, 0, &cfg);
    assert!(f.low_latency);
    assert!(f.alerted());
    assert!(!evaluate_alerts(0, 2, None, 0, &cfg).low_latency);
    assert!(!evaluate_alerts(3, 6, None, 0, &cfg).low_latency);
}

#[test]
fn rule_five_needs_detection_enabled() {
    let mut cfg = base_config();
    assert!(evaluate_alerts(1, 0, None, 2, &cfg).n_plus_one);
    assert!(!evaluate_alerts(1, 0, None, 0, &cfg).n_plus_one);
    cfg.of_mode = false;
    assert!(!evaluate_alerts(1, 0, None, 2, &cfg).n_plus_one);
}

#[test]
fn worst_by_count_picks_first_maximum() {
    let mut s = QueryStats::new_at(0);
    assert!(worst_by_count(&s).is_none());
    s.record("a/find");
    s.record("b/find");
    s.record("b/find");
    s.record("c/find");
    s.record("c/find");
    let (k, c) = worst_by_count(&s).unwrap();
    assert_eq!(k.as_str(), "b/find");
    assert_eq!(c, 2);
}

#[test]
fn worst_by_max_latency_picks_first_maximum() {
    let mut s = QueryStats::new_at(0);
    assert!(worst_by_max_latency(&s).is_none());
    s.record_latency("a/find", 10);
    s.record_latency("b/find", 30);
    s.record_latency("c/find", 30);
    let (k, v) = worst_by_max_latency(&s).unwrap();
    assert_eq!(k.as_str(), "b/find");
    assert_eq!(v, 30);
}

#[test]
fn report_summarizes_snapshot() {
    let mut s = QueryStats::new_at(1_000);
    s.record("users/find");
    s.record("users/find");
    s.record_latency("users/find", 25);
    let r = build_report(&s, &base_config(), 1_300);
    assert_eq!(r.total, 2);
    assert_eq!(r.elapsed_ms, 300);
    assert_eq!(r.db_total_ms, 25);
    let (wk, wc) = r.worst_key.unwrap();
    assert_eq!(wk.as_str(), "users/find");
    assert_eq!(wc, 2);
    let (sk, sv) = r.slowest_key.unwrap();
    assert_eq!(sk.as_str(), "users/find");
    assert_eq!(sv, 25);
    assert!(r.suspects.is_empty());
    assert!(!r.flags.alerted());
}

#[test]
fn response_headers_render_exactly() {
    let mut s = QueryStats::new_at(1_000);
    let mut i = 0;
    while i < 6 {
        s.record("users/find");
        i += 1;
    }
    s.record_latency("users/find", 42);
    let cfg = base_config();
    let r = build_report(&s, &cfg, 1_010);
    let h = response_headers(&r, &cfg);
    let pairs: Vec<(&str, &str)> = h.iter().map(|p| (p.0, p.1.as_str())).collect();
    assert_eq!(
        pairs,
        vec![
            ("x-moniof-total", "6"),
            ("x-moniof-elapsed-ms", "10"),
            ("x-moniof-db-total-ms", "42"),
            ("x-moniof-slowest-key", "users/find"),
            ("x-moniof-slowest-latency-ms", "42"),
            ("x-moniof-n-plus-one-key", "users/find"),
            ("x-moniof-n-plus-one-count", "6"),
            ("x-moniof-n-plus-one-total-ms", "42"),
        ]
    );
}

#[test]
fn headers_omit_missing_parts() {
    let s = QueryStats::new_at(0);
    let cfg = base_config();
    let r = build_report(&s, &cfg, 5);
    let h = response_headers(&r, &cfg);
    assert_eq!(h.len(), 3);
    assert_eq!(h[0].0, "x-moniof-total");
    assert_eq!(h[0].1.as_str(), "0");
    assert_eq!(h[1].1.as_str(), "5");
    assert_eq!(h[2].1.as_str(), "0");
}

#[test]
fn alert_message_renders_exactly() {
    let mut s = QueryStats::new_at(1_000);
    let mut i = 0;
    while i < 6 {
        s.record("users/find");
        i += 1;
    }
    s.record_latency("users/find", 42);
    let cfg = base_config();
    let r = build_report(&s, &cfg, 1_010);
    let m = alert_message(503, "GET", &r);
    let expected = "*moniOF alert*\n- status: 503\n- method: GET\n- total queries: 6\n- req elapsed: 10 ms\n- db total latency: 42 ms\n- slowest key: `users/find` (42 ms)\n- worst key (count): `users/find` x6\n- N+1 suspects:\n    -> `users/find` 6x (42 ms total)";
    assert_eq!(m, expected);
}

#[test]
fn moniof_carries_configuration() {
    let m = MoniOF::new();
    assert_eq!(m.config().max_total, 60);
    assert_eq!(m.config().max_same_key, 20);
    assert!(m.config().of_mode);
    assert_eq!(m.config().n_plus_one_min_count, 5);
    assert_eq!(m.config().n_plus_one_min_total_ms, Some(5));
    let mut cfg = base_config();
    cfg.max_total = 10;
    let m2 = MoniOF::with_config(cfg);
    assert_eq!(m2.config().max_total, 10);
}

#[test]
fn default_configs_match_documentation() {
    let c = MoniOFConfig::default();
    assert_eq!(c.max_total, 60);
    assert_eq!(c.max_same_key, 20);
    assert!(c.add_response_headers);
    assert!(c.log_warnings);
    assert_eq!(c.warn_total_db_latency_ms, None);
    assert_eq!(c.warn_low_total_db_latency_ms, None);
    assert!(c.of_mode);
    assert_eq!(c.n_plus_one_min_count, 5);
    assert_eq!(c.n_plus_one_min_total_ms, Some(5));
    let g = moniof::config::MoniOFGlobalConfig::default();
    assert!(!g.log_each_db_event);
    assert_eq!(g.slow_db_threshold_ms, None);
    assert_eq!(g.low_db_threshold_ms, None);
    assert!(g.slack_webhook.is_none());
}

#[test]
fn numbers_render_in_decimal() {
    assert_eq!(moniof::numfmt::fmt_u128(0), "0");
    assert_eq!(moniof::numfmt::fmt_u128(7), "7");
    assert_eq!(moniof::numfmt::fmt_u128(1_234_567_890), "1234567890");
    assert_eq!(moniof::numfmt::fmt_usize(60), "60");
}

#[test]
fn decimal_boundaries() {
    assert_eq!(moniof::numfmt::fmt_u128(9), "9");
    assert_eq!(moniof::numfmt::fmt_u128(10), "10");
    assert_eq!(moniof::numfmt::fmt_u128(100), "100");
    assert_eq!(moniof::numfmt::fmt_u128(u128::MAX), u128::MAX.to_string());
}
