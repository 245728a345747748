//! Suspect detection: derive a ranked, bounded list of repeated-key (N+1)
//! offenders from a finalized snapshot.
//!
//! The result is a pure function of the snapshot and the configuration:
//! qualifying keys, ordered by count descending, ties by total latency
//! descending, remaining ties by key lexical order, truncated to the top 3.

use vstd::prelude::*;
use crate::config::MoniOFConfig;
use crate::stats::{QueryStats, lat_or_zero};

verus! {

/// A likely N+1 offender derived from one finalized snapshot.
pub struct OfSuspect {
    /// The repeated logical key.
    pub key: String,
    /// How often the key was recorded.
    pub count: usize,
    /// Summed latency recorded for the key (ms).
    pub total_latency_ms: u128,
}

/// The mathematical content of a suspect.
pub struct SuspectView {
    pub key: Seq<char>,
    pub count: usize,
    pub total_latency_ms: u128,
}

impl View for OfSuspect {
    type V = SuspectView;

    open spec fn view(&self) -> SuspectView {
        SuspectView { key: self.key@, count: self.count, total_latency_ms: self.total_latency_ms }
    }
}

/// Lexicographic order on keys, by character value.
pub open spec fn lex_leq(a: Seq<char>, b: Seq<char>) -> bool
    decreases a.len(),
{
    if a.len() == 0 {
        true
    } else if b.len() == 0 {
        false
    } else if (a[0] as u32) < (b[0] as u32) {
        true
    } else if (b[0] as u32) < (a[0] as u32) {
        false
    } else {
        lex_leq(a.drop_first(), b.drop_first())
    }
}

/// `lex_leq` is total.
pub proof fn lemma_lex_total(a: Seq<char>, b: Seq<char>)
    ensures
        lex_leq(a, b) || lex_leq(b, a),
    decreases a.len(),
{
    if a.len() > 0 && b.len() > 0 && !((a[0] as u32) < (b[0] as u32)) && !((b[0] as u32) < (
    a[0] as u32)) {
        lemma_lex_total(a.drop_first(), b.drop_first());
    }
}

/// `lex_leq` is transitive.
pub proof fn lemma_lex_trans(a: Seq<char>, b: Seq<char>, c: Seq<char>)
    requires
        lex_leq(a, b),
        lex_leq(b, c),
    ensures
        lex_leq(a, c),
    decreases a.len(),
{
    if a.len() > 0 && b.len() > 0 && c.len() > 0 && (a[0] as u32) == (b[0] as u32) && (
    b[0] as u32) == (c[0] as u32) {
        lemma_lex_trans(a.drop_first(), b.drop_first(), c.drop_first());
    }
}

/// `a` may stand at or before `b` in the ranking: count descending, ties by
/// total latency descending, remaining ties by key lexical order.
pub open spec fn precedes(a: SuspectView, b: SuspectView) -> bool {
    ||| a.count > b.count
    ||| (a.count == b.count && a.total_latency_ms > b.total_latency_ms)
    ||| (a.count == b.count && a.total_latency_ms == b.total_latency_ms && lex_leq(a.key, b.key))
}

/// `precedes` is total.
pub proof fn lemma_precedes_total(a: SuspectView, b: SuspectView)
    ensures
        precedes(a, b) || precedes(b, a),
{
    lemma_lex_total(a.key, b.key);
}

/// `precedes` is transitive.
pub proof fn lemma_precedes_trans(a: SuspectView, b: SuspectView, c: SuspectView)
    requires
        precedes(a, b),
        precedes(b, c),
    ensures
        precedes(a, c),
{
    if a.count == b.count && b.count == c.count && a.total_latency_ms == b.total_latency_ms
        && b.total_latency_ms == c.total_latency_ms {
        lemma_lex_trans(a.key, b.key, c.key);
    }
}

/// Every element stands at or before every later one.
pub open spec fn ranked(s: Seq<SuspectView>) -> bool {
    forall|i: int, j: int| 0 <= i < j < s.len() ==> precedes(s[i], s[j])
}

/// A key qualifies as a suspect: its count reaches the configured minimum
/// and, when a latency floor is configured, its summed latency reaches it.
pub open spec fn qualifies(
    count: usize,
    total_ms: u128,
    cfg: MoniOFConfig,
) -> bool {
    &&& count >= cfg.n_plus_one_min_count
    &&& match cfg.n_plus_one_min_total_ms {
        Some(m) => total_ms >= m,
        None => true,
    }
}

/// The suspect derived from a count entry, with its summed latency.
pub open spec fn suspect_of(
    p: (Seq<char>, usize),
    lats: Map<Seq<char>, u128>,
) -> SuspectView {
    SuspectView { key: p.0, count: p.1, total_latency_ms: lat_or_zero(lats, p.0) }
}

/// The qualifying keys of `kvs`, in entry order.
pub open spec fn candidates(
    kvs: Seq<(Seq<char>, usize)>,
    lats: Map<Seq<char>, u128>,
    cfg: MoniOFConfig,
) -> Seq<SuspectView>
    decreases kvs.len(),
{
    if kvs.len() == 0 {
        Seq::empty()
    } else {
        let rest = candidates(kvs.drop_last(), lats, cfg);
        let p = kvs.last();
        if qualifies(p.1, lat_or_zero(lats, p.0), cfg) {
            rest.push(suspect_of(p, lats))
        } else {
            rest
        }
    }
}

/// `x` inserted into `s` before the first element it precedes.
pub open spec fn insert_ranked(x: SuspectView, s: Seq<SuspectView>) -> Seq<SuspectView>
    decreases s.len(),
{
    if s.len() == 0 {
        seq![x]
    } else if precedes(x, s[0]) {
        seq![x] + s
    } else {
        seq![s[0]] + insert_ranked(x, s.drop_first())
    }
}

/// `s` sorted by repeated insertion.
pub open spec fn rank_sorted(s: Seq<SuspectView>) -> Seq<SuspectView>
    decreases s.len(),
{
    if s.len() == 0 {
        Seq::empty()
    } else {
        insert_ranked(s.last(), rank_sorted(s.drop_last()))
    }
}

/// Inserting keeps the ranking, grows the length by one, and adds exactly
/// `x` to the elements.
pub proof fn lemma_insert_ranked(x: SuspectView, s: Seq<SuspectView>)
    requires
        ranked(s),
    ensures
        ranked(insert_ranked(x, s)),
        insert_ranked(x, s).len() == s.len() + 1,
        forall|i: int|
            0 <= i < insert_ranked(x, s).len() ==> (insert_ranked(x, s)[i] == x || s.contains(
                insert_ranked(x, s)[i],
            )),
    decreases s.len(),
{
    let r = insert_ranked(x, s);
    if s.len() == 0 {
    } else if precedes(x, s[0]) {
        assert forall|i: int, j: int| 0 <= i < j < r.len() implies precedes(r[i], r[j]) by {
            if i == 0 {
                if j > 1 {
                    lemma_precedes_trans(x, s[0], s[j - 1]);
                }
            }
        }
        assert(forall|i: int| 1 <= i < r.len() ==> s.contains(r[i]));
    } else {
        let rest = s.drop_first();
        assert(ranked(rest));
        lemma_insert_ranked(x, rest);
        let rr = insert_ranked(x, rest);
        assert(r == seq![s[0]] + rr);
        lemma_precedes_total(x, s[0]);
        assert forall|i: int, j: int| 0 <= i < j < r.len() implies precedes(r[i], r[j]) by {
            if i == 0 {
                assert(r[j] == rr[j - 1]);
                if rr[j - 1] == x {
                } else {
                    assert(rest.contains(rr[j - 1]));
                    let w = choose|w: int| 0 <= w < rest.len() && rest[w] == rr[j - 1];
                    assert(s[w + 1] == rest[w]);
                }
            } else {
                assert(r[i] == rr[i - 1] && r[j] == rr[j - 1]);
            }
        }
        assert forall|i: int| 0 <= i < r.len() implies (r[i] == x || s.contains(r[i])) by {
            if i == 0 {
                assert(s[0] == r[0]);
            } else if rr[i - 1] != x {
                assert(rest.contains(rr[i - 1]));
                let w = choose|w: int| 0 <= w < rest.len() && rest[w] == rr[i - 1];
                assert(s[w + 1] == rest[w]);
            }
        }
    }
}

/// Sorting keeps the length and the elements and yields a ranked sequence.
pub proof fn lemma_rank_sorted(s: Seq<SuspectView>)
    ensures
        ranked(rank_sorted(s)),
        rank_sorted(s).len() == s.len(),
        forall|i: int| 0 <= i < s.len() ==> (s.contains(#[trigger] rank_sorted(s)[i])),
    decreases s.len(),
{
    if s.len() > 0 {
        let pre = s.drop_last();
        lemma_rank_sorted(pre);
        lemma_insert_ranked(s.last(), rank_sorted(pre));
        let r = rank_sorted(s);
        assert forall|i: int| 0 <= i < s.len() implies s.contains(#[trigger] r[i]) by {
            if r[i] == s.last() {
                assert(s[s.len() - 1] == s.last());
            } else {
                assert(rank_sorted(pre).contains(r[i]));
                let w = choose|w: int| 0 <= w < rank_sorted(pre).len() && rank_sorted(pre)[w]
                    == r[i];
                assert(pre.contains(rank_sorted(pre)[w]));
                let v = choose|v: int| 0 <= v < pre.len() && pre[v] == r[i];
                assert(s[v] == pre[v]);
            }
        }
    }
}

/// What the detector returns: nothing when disabled, otherwise the
/// qualifying keys ranked and truncated to the top 3.
pub open spec fn suspects_spec(stats: QueryStats, cfg: MoniOFConfig) -> Seq<SuspectView> {
    if !cfg.of_mode {
        Seq::empty()
    } else {
        let sorted = rank_sorted(candidates(stats.per_key.kvs(), stats.lats(), cfg));
        if sorted.len() <= 3 {
            sorted
        } else {
            sorted.take(3)
        }
    }
}

/// The views of a vector of suspects.
pub open spec fn views_of(v: Seq<OfSuspect>) -> Seq<SuspectView> {
    v.map_values(|s: OfSuspect| s@)
}

/// The suspect list never exceeds 3 entries and is ranked: count descending,
/// ties by total latency descending, remaining ties by key lexical order.
pub proof fn lemma_suspects_bounded_ranked(stats: QueryStats, cfg: MoniOFConfig)
    ensures
        suspects_spec(stats, cfg).len() <= 3,
        ranked(suspects_spec(stats, cfg)),
{
    if cfg.of_mode {
        let cands = candidates(stats.per_key.kvs(), stats.lats(), cfg);
        lemma_rank_sorted(cands);
    }
}

/// The detector is pure and idempotent: any two results that meet
/// `find_suspects`'s postcondition for the same snapshot and configuration
/// are identical, in content and in order.
pub proof fn lemma_suspects_deterministic(
    r1: Seq<SuspectView>,
    r2: Seq<SuspectView>,
    stats: QueryStats,
    cfg: MoniOFConfig,
)
    requires
        r1 == suspects_spec(stats, cfg),
        r2 == suspects_spec(stats, cfg),
    ensures
        r1 == r2,
{
}

/// `a` stands at or before `b`: executable form of `precedes`.
fn precedes_exec(a: &OfSuspect, b: &OfSuspect) -> (r: bool)
    ensures
        r == precedes(a@, b@),
{
    if a.count != b.count {
        a.count > b.count
    } else if a.total_latency_ms != b.total_latency_ms {
        a.total_latency_ms > b.total_latency_ms
    } else {
        str_lex_leq(a.key.as_str(), b.key.as_str())
    }
}

/// Lexicographic comparison of two keys, by character value.
fn str_lex_leq(a: &str, b: &str) -> (r: bool)
    ensures
        r == lex_leq(a@, b@),
{
    let an = a.unicode_len();
    let bn = b.unicode_len();
    let mut i: usize = 0;
    proof {
        assert(a@.skip(0) =~= a@);
        assert(b@.skip(0) =~= b@);
    }
    loop
        invariant
            i <= an,
            i <= bn,
            an == a@.len(),
            bn == b@.len(),
            lex_leq(a@, b@) == lex_leq(a@.skip(i as int), b@.skip(i as int)),
        decreases an - i,
    {
        if i == an {
            return true;
        }
        if i == bn {
            proof {
                assert(a@.skip(i as int).len() > 0);
            }
            return false;
        }
        let ca = a.get_char(i) as u32;
        let cb = b.get_char(i) as u32;
        proof {
            assert(a@.skip(i as int)[0] == a@[i as int]);
            assert(b@.skip(i as int)[0] == b@[i as int]);
            assert(a@.skip(i as int).drop_first() =~= a@.skip(i as int + 1));
            assert(b@.skip(i as int).drop_first() =~= b@.skip(i as int + 1));
        }
        if ca < cb {
            return true;
        }
        if cb < ca {
            return false;
        }
        i += 1;
    }
}

/// First position in `sorted` whose element `x` precedes; the length when
/// there is none.
fn insert_pos(sorted: &Vec<OfSuspect>, x: &OfSuspect) -> (j: usize)
    ensures
        j <= sorted@.len(),
        forall|t: int| 0 <= t < j ==> !precedes(x@, views_of(sorted@)[t]),
        j < sorted@.len() ==> precedes(x@, views_of(sorted@)[j as int]),
{
    let n = sorted.len();
    let mut j: usize = 0;
    while j < n
        invariant
            n == sorted@.len(),
            j <= n,
            forall|t: int| 0 <= t < j ==> !precedes(x@, views_of(sorted@)[t]),
        decreases n - j,
    {
        if precedes_exec(x, &sorted[j]) {
            return j;
        }
        j += 1;
    }
    j
}

/// Derive the likely N+1 offenders from a finalized snapshot: every key
/// recorded at least `n_plus_one_min_count` times whose summed latency
/// reaches the configured floor (when one is set), ranked by count
/// descending, ties by total latency descending, remaining ties by key
/// lexical order, truncated to the top 3. Empty when detection is disabled.
pub fn find_suspects(stats: &QueryStats, cfg: &MoniOFConfig) -> (r: Vec<OfSuspect>)
    requires
        stats.wf(),
    ensures
        views_of(r@) == suspects_spec(*stats, *cfg),
{
    if !cfg.of_mode {
        let r = Vec::new();
        proof {
            assert(views_of(r@) =~= suspects_spec(*stats, *cfg));
        }
        return r;
    }
    let ghost kvs = stats.per_key.kvs();
    let ghost lats = stats.lats();

    // Collect the qualifying keys in entry order.
    let n = stats.per_key.len();
    let mut cands: Vec<OfSuspect> = Vec::new();
    let mut i: usize = 0;
    while i < n
        invariant
            stats.wf(),
            kvs == stats.per_key.kvs(),
            lats == stats.lats(),
            n == kvs.len(),
            i <= n,
            views_of(cands@) == candidates(kvs.take(i as int), lats, *cfg),
        decreases n - i,
    {
        let key = stats.per_key.key_at(i);
        let count = stats.per_key.val_at(i);
        let total_ms = match stats.per_key_latency_ms.get(key.as_str()) {
            Some(v) => v,
            None => 0,
        };
        proof {
            assert(total_ms == lat_or_zero(lats, kvs[i as int].0));
        }
        let admit_it = count >= cfg.n_plus_one_min_count && (match cfg.n_plus_one_min_total_ms {
            Some(m) => total_ms >= m,
            None => true,
        });
        proof {
            assert(kvs.take(i as int + 1).drop_last() =~= kvs.take(i as int));
            assert(kvs.take(i as int + 1).last() == kvs[i as int]);
        }
        if admit_it {
            let s = OfSuspect { key: key.clone(), count, total_latency_ms: total_ms };
            proof {
                assert(s@ == suspect_of(kvs[i as int], lats));
            }
            cands.push(s);
            proof {
                assert(views_of(cands@) =~= candidates(kvs.take(i as int + 1), lats, *cfg));
            }
        } else {
            proof {
                assert(views_of(cands@) =~= candidates(kvs.take(i as int + 1), lats, *cfg));
            }
        }
        i += 1;
    }
    proof {
        assert(kvs.take(n as int) =~= kvs);
    }

    // Sort by repeated insertion, mirroring `rank_sorted`.
    let ghost cseq = candidates(kvs, lats, *cfg);
    let mut sorted: Vec<OfSuspect> = Vec::new();
    let mut i: usize = 0;
    let cn = cands.len();
    while i < cn
        invariant
            cn == cands@.len(),
            views_of(cands@) == cseq,
            i <= cn,
            views_of(sorted@) == rank_sorted(cseq.take(i as int)),
        decreases cn - i,
    {
        let ghost pre_sorted = views_of(sorted@);
        let x = OfSuspect {
            key: cands[i].key.clone(),
            count: cands[i].count,
            total_latency_ms: cands[i].total_latency_ms,
        };
        proof {
            assert(x@ == cseq[i as int]);
        }
        let j = insert_pos(&sorted, &x);
        proof {
            lemma_insert_ranked_at(x@, pre_sorted, j as int);
        }
        sorted.insert(j, x);
        proof {
            assert(views_of(sorted@) =~= pre_sorted.take(j as int) + seq![cseq[i as int]]
                + pre_sorted.skip(j as int));
            assert(cseq.take(i as int + 1).drop_last() =~= cseq.take(i as int));
            assert(cseq.take(i as int + 1).last() == cseq[i as int]);
            assert(views_of(sorted@) == rank_sorted(cseq.take(i as int + 1)));
        }
        i += 1;
    }
    let ghost full = rank_sorted(cseq);
    proof {
        assert(cseq.take(cn as int) =~= cseq);
        assert(full.take(full.len() as int) =~= full);
    }

    // Keep the top 3.
    while sorted.len() > 3
        invariant
            sorted@.len() <= full.len(),
            sorted@.len() >= 3 || sorted@.len() == full.len(),
            views_of(sorted@) == full.take(sorted@.len() as int),
        decreases sorted@.len(),
    {
        sorted.pop();
        proof {
            assert(views_of(sorted@) =~= full.take(sorted@.len() as int));
        }
    }
    proof {
        if full.len() <= 3 {
            assert(sorted@.len() == full.len());
            assert(views_of(sorted@) =~= full);
        } else {
            assert(sorted@.len() == 3);
        }
        assert(views_of(sorted@) =~= suspects_spec(*stats, *cfg));
    }
    sorted
}

/// Inserting at the first position whose element `x` precedes yields
/// `insert_ranked`.
proof fn lemma_insert_ranked_at(x: SuspectView, s: Seq<SuspectView>, j: int)
    requires
        0 <= j <= s.len(),
        forall|t: int| 0 <= t < j ==> !precedes(x, s[t]),
        j < s.len() ==> precedes(x, s[j]),
    ensures
        insert_ranked(x, s) == s.take(j) + seq![x] + s.skip(j),
    decreases s.len(),
{
    if s.len() == 0 {
        assert(insert_ranked(x, s) =~= s.take(j) + seq![x] + s.skip(j));
    } else if j == 0 {
        assert(precedes(x, s[0]));
        assert(insert_ranked(x, s) =~= s.take(0) + seq![x] + s.skip(0));
    } else {
        assert(!precedes(x, s[0]));
        let rest = s.drop_first();
        assert(forall|t: int| 0 <= t < j - 1 ==> rest[t] == s[t + 1] && !precedes(x, rest[t]));
        assert(j - 1 < rest.len() ==> precedes(x, rest[j - 1]));
        lemma_insert_ranked_at(x, rest, j - 1);
        assert(insert_ranked(x, s) == seq![s[0]] + insert_ranked(x, rest));
        assert(seq![s[0]] + (rest.take(j - 1) + seq![x] + rest.skip(j - 1)) =~= s.take(j) + seq![x]
            + s.skip(j));
    }
}

} // verus!
