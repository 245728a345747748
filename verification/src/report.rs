//! Request finalization: summarize one finalized snapshot, evaluate the
//! alert rules against it, and render the response metadata and the
//! notification text.

use vstd::prelude::*;
use crate::config::MoniOFConfig;
use crate::numfmt::{dec_rep, fmt_u128, fmt_usize};
use crate::of::{OfSuspect, SuspectView, find_suspects, suspects_spec, views_of};
use crate::stats::QueryStats;

verus! {

/// Position of the most-repeated key: the first entry holding the maximum
/// count, -1 when there is none.
pub open spec fn worst_count_idx(s: Seq<(Seq<char>, usize)>) -> int
    decreases s.len(),
{
    if s.len() == 0 {
        -1
    } else {
        let w = worst_count_idx(s.drop_last());
        if w < 0 || s.last().1 > s[w].1 {
            s.len() - 1
        } else {
            w
        }
    }
}

/// The worst-count position is in range and holds a maximal count.
pub proof fn lemma_worst_count_idx(s: Seq<(Seq<char>, usize)>)
    ensures
        s.len() == 0 <==> worst_count_idx(s) == -1,
        s.len() > 0 ==> 0 <= worst_count_idx(s) < s.len(),
        forall|i: int| 0 <= i < s.len() ==> (#[trigger] s[i]).1 <= s[worst_count_idx(s)].1,
    decreases s.len(),
{
    if s.len() > 0 {
        lemma_worst_count_idx(s.drop_last());
        assert(forall|i: int| 0 <= i < s.len() - 1 ==> s[i] == s.drop_last()[i]);
    }
}

/// Position of the key with the largest maximum latency: the first entry
/// holding the maximum, -1 when there is none.
pub open spec fn worst_lat_idx(s: Seq<(Seq<char>, u128)>) -> int
    decreases s.len(),
{
    if s.len() == 0 {
        -1
    } else {
        let w = worst_lat_idx(s.drop_last());
        if w < 0 || s.last().1 > s[w].1 {
            s.len() - 1
        } else {
            w
        }
    }
}

/// The worst-latency position is in range and holds a maximal latency.
pub proof fn lemma_worst_lat_idx(s: Seq<(Seq<char>, u128)>)
    ensures
        s.len() == 0 <==> worst_lat_idx(s) == -1,
        s.len() > 0 ==> 0 <= worst_lat_idx(s) < s.len(),
        forall|i: int| 0 <= i < s.len() ==> (#[trigger] s[i]).1 <= s[worst_lat_idx(s)].1,
    decreases s.len(),
{
    if s.len() > 0 {
        lemma_worst_lat_idx(s.drop_last());
        assert(forall|i: int| 0 <= i < s.len() - 1 ==> s[i] == s.drop_last()[i]);
    }
}

/// The most-repeated key and its count: the first key holding the maximum
/// occurrence count, `None` for an empty snapshot.
pub fn worst_by_count(stats: &QueryStats) -> (r: Option<(String, usize)>)
    ensures
        match r {
            Some(p) => {
                let kvs = stats.per_key.kvs();
                let w = worst_count_idx(kvs);
                &&& kvs.len() > 0
                &&& p.0@ == kvs[w].0
                &&& p.1 == kvs[w].1
            },
            None => stats.per_key.kvs().len() == 0,
        },
{
    let ghost kvs = stats.per_key.kvs();
    let n = stats.per_key.len();
    if n == 0 {
        return None;
    }
    let mut best: usize = 0;
    let mut best_val: usize = stats.per_key.val_at(0);
    let mut i: usize = 1;
    proof {
        assert(kvs.take(1).drop_last() =~= kvs.take(0));
        assert(kvs.take(1).last() == kvs[0]);
        assert(worst_count_idx(kvs.take(0)) == -1);
        assert(worst_count_idx(kvs.take(1)) == 0);
    }
    while i < n
        invariant
            kvs == stats.per_key.kvs(),
            n == kvs.len(),
            1 <= i <= n,
            best < i,
            best == worst_count_idx(kvs.take(i as int)),
            best_val == kvs[best as int].1,
        decreases n - i,
    {
        let v = stats.per_key.val_at(i);
        proof {
            assert(kvs.take(i as int + 1).drop_last() =~= kvs.take(i as int));
            assert(kvs.take(i as int + 1).last() == kvs[i as int]);
        }
        if v > best_val {
            best = i;
            best_val = v;
        }
        i += 1;
    }
    proof {
        assert(kvs.take(n as int) =~= kvs);
    }
    Some((stats.per_key.key_at(best).clone(), best_val))
}

/// The key with the largest single-operation latency and that latency: the
/// first key holding the maximum, `None` when no latency was recorded.
pub fn worst_by_max_latency(stats: &QueryStats) -> (r: Option<(String, u128)>)
    ensures
        match r {
            Some(p) => {
                let kvs = stats.per_key_max_latency_ms.kvs();
                let w = worst_lat_idx(kvs);
                &&& kvs.len() > 0
                &&& p.0@ == kvs[w].0
                &&& p.1 == kvs[w].1
            },
            None => stats.per_key_max_latency_ms.kvs().len() == 0,
        },
{
    let ghost kvs = stats.per_key_max_latency_ms.kvs();
    let n = stats.per_key_max_latency_ms.len();
    if n == 0 {
        return None;
    }
    let mut best: usize = 0;
    let mut best_val: u128 = stats.per_key_max_latency_ms.val_at(0);
    let mut i: usize = 1;
    proof {
        assert(kvs.take(1).drop_last() =~= kvs.take(0));
        assert(kvs.take(1).last() == kvs[0]);
        assert(worst_lat_idx(kvs.take(0)) == -1);
        assert(worst_lat_idx(kvs.take(1)) == 0);
    }
    while i < n
        invariant
            kvs == stats.per_key_max_latency_ms.kvs(),
            n == kvs.len(),
            1 <= i <= n,
            best < i,
            best == worst_lat_idx(kvs.take(i as int)),
            best_val == kvs[best as int].1,
        decreases n - i,
    {
        let v = stats.per_key_max_latency_ms.val_at(i);
        proof {
            assert(kvs.take(i as int + 1).drop_last() =~= kvs.take(i as int));
            assert(kvs.take(i as int + 1).last() == kvs[i as int]);
        }
        if v > best_val {
            best = i;
            best_val = v;
        }
        i += 1;
    }
    proof {
        assert(kvs.take(n as int) =~= kvs);
    }
    Some((stats.per_key_max_latency_ms.key_at(best).clone(), best_val))
}

/// Which alert rules fired for one finalized snapshot. The rules are
/// independent; any one of them marks the request alerted.
pub struct AlertFlags {
    /// The total query count exceeds `max_total`.
    pub high_total: bool,
    /// The most-repeated key's count exceeds `max_same_key`.
    pub repeated_key: bool,
    /// Cumulative database latency reaches `warn_total_db_latency_ms`.
    pub high_latency: bool,
    /// Queries were recorded but cumulative latency is at most
    /// `warn_low_total_db_latency_ms`.
    pub low_latency: bool,
    /// The suspect list is non-empty (with detection enabled).
    pub n_plus_one: bool,
}

impl AlertFlags {
    /// Some rule fired.
    pub open spec fn any(self) -> bool {
        self.high_total || self.repeated_key || self.high_latency || self.low_latency
            || self.n_plus_one
    }

    /// Some rule fired.
    pub fn alerted(&self) -> (r: bool)
        ensures
            r == self.any(),
    {
        self.high_total || self.repeated_key || self.high_latency || self.low_latency
            || self.n_plus_one
    }
}

/// Evaluate the alert rules: `total` and `db_total_ms` are the snapshot's
/// totals, `worst_count` the most-repeated key's count (if any key was
/// recorded), `n_suspects` the length of the detector's output.
pub fn evaluate_alerts(
    total: usize,
    db_total_ms: u128,
    worst_count: Option<usize>,
    n_suspects: usize,
    cfg: &MoniOFConfig,
) -> (f: AlertFlags)
    ensures
        f.high_total == (total > cfg.max_total),
        f.repeated_key == (match worst_count {
            Some(c) => c > cfg.max_same_key,
            None => false,
        }),
        f.high_latency == (match cfg.warn_total_db_latency_ms {
            Some(th) => db_total_ms >= th,
            None => false,
        }),
        f.low_latency == (match cfg.warn_low_total_db_latency_ms {
            Some(low) => total > 0 && db_total_ms <= low,
            None => false,
        }),
        f.n_plus_one == (cfg.of_mode && n_suspects > 0),
{
    AlertFlags {
        high_total: total > cfg.max_total,
        repeated_key: match worst_count {
            Some(c) => c > cfg.max_same_key,
            None => false,
        },
        high_latency: match cfg.warn_total_db_latency_ms {
            Some(th) => db_total_ms >= th,
            None => false,
        },
        low_latency: match cfg.warn_low_total_db_latency_ms {
            Some(low) => total > 0 && db_total_ms <= low,
            None => false,
        },
        n_plus_one: cfg.of_mode && n_suspects > 0,
    }
}

/// Everything the caller needs once a request's snapshot is frozen: the
/// totals, the worst keys, the suspect list and the alert flags.
pub struct RequestReport {
    /// Count of all recorded operations.
    pub total: usize,
    /// Wall time (ms) from snapshot creation to finalization.
    pub elapsed_ms: u128,
    /// Sum of all recorded latencies (ms).
    pub db_total_ms: u128,
    /// Most-repeated key and its count.
    pub worst_key: Option<(String, usize)>,
    /// Key with the largest single-operation latency, and that latency.
    pub slowest_key: Option<(String, u128)>,
    /// The detector's ranked suspect list.
    pub suspects: Vec<OfSuspect>,
    /// Which alert rules fired.
    pub flags: AlertFlags,
}

/// Summarize a finalized snapshot at time `now_ms` and evaluate the alert
/// rules against it.
pub fn build_report(stats: &QueryStats, cfg: &MoniOFConfig, now_ms: u128) -> (r: RequestReport)
    requires
        stats.wf(),
    ensures
        r.total == stats.total,
        r.elapsed_ms == (if now_ms >= stats.started_at_ms {
            now_ms - stats.started_at_ms
        } else {
            0
        }),
        r.db_total_ms == stats.total_db_latency_ms,
        match r.worst_key {
            Some(p) => {
                let kvs = stats.per_key.kvs();
                &&& kvs.len() > 0
                &&& p.0@ == kvs[worst_count_idx(kvs)].0
                &&& p.1 == kvs[worst_count_idx(kvs)].1
            },
            None => stats.per_key.kvs().len() == 0,
        },
        match r.slowest_key {
            Some(p) => {
                let kvs = stats.per_key_max_latency_ms.kvs();
                &&& kvs.len() > 0
                &&& p.0@ == kvs[worst_lat_idx(kvs)].0
                &&& p.1 == kvs[worst_lat_idx(kvs)].1
            },
            None => stats.per_key_max_latency_ms.kvs().len() == 0,
        },
        views_of(r.suspects@) == suspects_spec(*stats, *cfg),
        r.flags.high_total == (stats.total > cfg.max_total),
        r.flags.repeated_key == (stats.per_key.kvs().len() > 0 && stats.per_key.kvs()[
            worst_count_idx(stats.per_key.kvs())
        ].1 > cfg.max_same_key),
        r.flags.high_latency == (match cfg.warn_total_db_latency_ms {
            Some(th) => stats.total_db_latency_ms >= th,
            None => false,
        }),
        r.flags.low_latency == (match cfg.warn_low_total_db_latency_ms {
            Some(low) => stats.total > 0 && stats.total_db_latency_ms <= low,
            None => false,
        }),
        r.flags.n_plus_one == (cfg.of_mode && suspects_spec(*stats, *cfg).len() > 0),
{
    let worst_key = worst_by_count(stats);
    let slowest_key = worst_by_max_latency(stats);
    let suspects = find_suspects(stats, cfg);
    let worst_count = match &worst_key {
        Some(p) => Some(p.1),
        None => None,
    };
    let flags = evaluate_alerts(
        stats.total,
        stats.total_db_latency_ms,
        worst_count,
        suspects.len(),
        cfg,
    );
    let elapsed_ms = stats.elapsed_at(now_ms);
    RequestReport {
        total: stats.total,
        elapsed_ms,
        db_total_ms: stats.total_db_latency_ms,
        worst_key,
        slowest_key,
        suspects,
        flags,
    }
}

/// The response headers describing a report, as (name, value) pairs.
pub open spec fn headers_spec(r: RequestReport, cfg: MoniOFConfig) -> Seq<(Seq<char>, Seq<char>)> {
    seq![
        ("x-moniof-total"@, dec_rep(r.total as int)),
        ("x-moniof-elapsed-ms"@, dec_rep(r.elapsed_ms as int)),
        ("x-moniof-db-total-ms"@, dec_rep(r.db_total_ms as int)),
    ] + (match r.slowest_key {
        Some(p) => seq![
            ("x-moniof-slowest-key"@, p.0@),
            ("x-moniof-slowest-latency-ms"@, dec_rep(p.1 as int)),
        ],
        None => Seq::empty(),
    }) + (if cfg.of_mode && r.suspects@.len() > 0 {
        seq![
            ("x-moniof-n-plus-one-key"@, r.suspects@[0]@.key),
            ("x-moniof-n-plus-one-count"@, dec_rep(r.suspects@[0]@.count as int)),
            ("x-moniof-n-plus-one-total-ms"@, dec_rep(r.suspects@[0]@.total_latency_ms as int)),
        ]
    } else {
        Seq::empty()
    })
}

/// The views of a vector of header pairs.
pub open spec fn header_views(h: Seq<(&'static str, String)>) -> Seq<(Seq<char>, Seq<char>)> {
    h.map_values(|p: (&'static str, String)| (p.0@, p.1@))
}

/// Render the report as response header pairs: the totals, the slowest key,
/// and the top suspect when detection is enabled.
pub fn response_headers(r: &RequestReport, cfg: &MoniOFConfig) -> (h: Vec<(&'static str, String)>)
    ensures
        header_views(h@) == headers_spec(*r, *cfg),
{
    let mut h: Vec<(&'static str, String)> = Vec::new();
    h.push(("x-moniof-total", fmt_usize(r.total)));
    h.push(("x-moniof-elapsed-ms", fmt_u128(r.elapsed_ms)));
    h.push(("x-moniof-db-total-ms", fmt_u128(r.db_total_ms)));
    match &r.slowest_key {
        Some(p) => {
            h.push(("x-moniof-slowest-key", p.0.clone()));
            h.push(("x-moniof-slowest-latency-ms", fmt_u128(p.1)));
        },
        None => {},
    }
    if cfg.of_mode && r.suspects.len() > 0 {
        h.push(("x-moniof-n-plus-one-key", r.suspects[0].key.clone()));
        h.push(("x-moniof-n-plus-one-count", fmt_usize(r.suspects[0].count)));
        h.push(("x-moniof-n-plus-one-total-ms", fmt_u128(r.suspects[0].total_latency_ms)));
    }
    proof {
        assert(header_views(h@) =~= headers_spec(*r, *cfg));
    }
    h
}

/// One suspect's line in the notification text.
pub open spec fn suspect_line(s: SuspectView) -> Seq<char> {
    "\n    -> `"@ + s.key + "` "@ + dec_rep(s.count as int) + "x ("@ + dec_rep(
        s.total_latency_ms as int,
    ) + " ms total)"@
}

/// The suspects' lines, in list order.
pub open spec fn suspect_lines(ss: Seq<SuspectView>) -> Seq<char>
    decreases ss.len(),
{
    if ss.len() == 0 {
        Seq::empty()
    } else {
        suspect_lines(ss.drop_last()) + suspect_line(ss.last())
    }
}

/// The composite notification text for an alerted request.
pub open spec fn alert_message_spec(status: u16, method: Seq<char>, r: RequestReport) -> Seq<
    char,
> {
    "*moniOF alert*"@ + "\n- status: "@ + dec_rep(status as int) + "\n- method: "@ + method
        + "\n- total queries: "@ + dec_rep(r.total as int) + "\n- req elapsed: "@ + dec_rep(
        r.elapsed_ms as int,
    ) + " ms"@ + "\n- db total latency: "@ + dec_rep(r.db_total_ms as int) + " ms"@ + (
    match r.slowest_key {
        Some(p) => "\n- slowest key: `"@ + p.0@ + "` ("@ + dec_rep(p.1 as int) + " ms)"@,
        None => Seq::empty(),
    }) + (match r.worst_key {
        Some(p) => "\n- worst key (count): `"@ + p.0@ + "` x"@ + dec_rep(p.1 as int),
        None => Seq::empty(),
    }) + (if r.suspects@.len() > 0 {
        "\n- N+1 suspects:"@ + suspect_lines(views_of(r.suspects@))
    } else {
        Seq::empty()
    })
}

/// Build the one composite notification message for an alerted request:
/// status and method context, the totals, the worst keys, and the suspect
/// list.
#[verifier::rlimit(100)]
pub fn alert_message(status: u16, method: &str, r: &RequestReport) -> (m: String)
    ensures
        m@ == alert_message_spec(status, method@, *r),
{
    let mut m = "*moniOF alert*".to_owned();
    m.append("\n- status: ");
    let status_s = fmt_u128(status as u128);
    m.append(status_s.as_str());
    m.append("\n- method: ");
    m.append(method);
    m.append("\n- total queries: ");
    let total_s = fmt_usize(r.total);
    m.append(total_s.as_str());
    m.append("\n- req elapsed: ");
    let elapsed_s = fmt_u128(r.elapsed_ms);
    m.append(elapsed_s.as_str());
    m.append(" ms");
    m.append("\n- db total latency: ");
    let db_s = fmt_u128(r.db_total_ms);
    m.append(db_s.as_str());
    m.append(" ms");
    match &r.slowest_key {
        Some(p) => {
            m.append("\n- slowest key: `");
            m.append(p.0.as_str());
            m.append("` (");
            let v = fmt_u128(p.1);
            m.append(v.as_str());
            m.append(" ms)");
        },
        None => {},
    }
    match &r.worst_key {
        Some(p) => {
            m.append("\n- worst key (count): `");
            m.append(p.0.as_str());
            m.append("` x");
            let v = fmt_usize(p.1);
            m.append(v.as_str());
        },
        None => {},
    }
    let ghost base = m@;
    if r.suspects.len() > 0 {
        m.append("\n- N+1 suspects:");
        let ghost with_head = m@;
        let n = r.suspects.len();
        let mut i: usize = 0;
        while i < n
            invariant
                n == r.suspects@.len(),
                i <= n,
                m@ == with_head + suspect_lines(views_of(r.suspects@).take(i as int)),
            decreases n - i,
        {
            m.append("\n    -> `");
            m.append(r.suspects[i].key.as_str());
            m.append("` ");
            let c = fmt_usize(r.suspects[i].count);
            m.append(c.as_str());
            m.append("x (");
            let l = fmt_u128(r.suspects[i].total_latency_ms);
            m.append(l.as_str());
            m.append(" ms total)");
            i += 1;
            proof {
                let vs = views_of(r.suspects@);
                assert(vs.take(i as int).drop_last() =~= vs.take(i as int - 1));
                assert(vs.take(i as int).last() == vs[i as int - 1]);
                assert(m@ =~= with_head + suspect_lines(vs.take(i as int)));
            }
        }
        proof {
            assert(views_of(r.suspects@).take(n as int) =~= views_of(r.suspects@));
            assert(m@ =~= alert_message_spec(status, method@, *r));
        }
    } else {
        proof {
            assert(m@ =~= alert_message_spec(status, method@, *r));
        }
    }
    m
}

} // verus!
