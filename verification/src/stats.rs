//! Per-request query statistics: the append-only aggregate that one inbound
//! request accumulates while its database commands are observed.

use vstd::prelude::*;
use crate::keytable::{KeyTable, first_key_index, has_key, lemma_first_key_index};

verus! {

/// Which instrumentation source observed a command.
#[derive(Debug, Clone, Copy, PartialEq, Eq, Structural)]
pub enum QueryKind {
    Mongo,
    Sql,
    Other,
}

/// Prefix that a query kind contributes to a logical key.
pub open spec fn kind_prefix(kind: QueryKind) -> Seq<char> {
    match kind {
        QueryKind::Mongo => "mongo"@,
        QueryKind::Sql => "sql"@,
        QueryKind::Other => "other"@,
    }
}

/// The prefix as an executable string.
pub fn kind_prefix_str(kind: QueryKind) -> (r: &'static str)
    ensures
        r@ == kind_prefix(kind),
{
    match kind {
        QueryKind::Mongo => "mongo",
        QueryKind::Sql => "sql",
        QueryKind::Other => "other",
    }
}

/// The logical key `resource/operation`.
pub open spec fn logical_key_spec(resource: Seq<char>, op: Seq<char>) -> Seq<char> {
    resource + seq!['/'] + op
}

/// Build the logical key `resource/operation`.
pub fn logical_key(resource: &str, op: &str) -> (r: String)
    ensures
        r@ == logical_key_spec(resource@, op@),
{
    let mut s = resource.to_owned();
    s.append("/");
    s.append(op);
    proof {
        reveal_strlit("/");
        assert(s@ =~= logical_key_spec(resource@, op@));
    }
    s
}

/// Sum of the occurrence counts in an entry sequence.
pub open spec fn sum_counts(s: Seq<(Seq<char>, usize)>) -> int
    decreases s.len(),
{
    if s.len() == 0 {
        0
    } else {
        sum_counts(s.drop_last()) + s.last().1
    }
}

/// Sum of the latencies in an entry sequence.
pub open spec fn sum_lats(s: Seq<(Seq<char>, u128)>) -> int
    decreases s.len(),
{
    if s.len() == 0 {
        0
    } else {
        sum_lats(s.drop_last()) + s.last().1
    }
}

/// Every count is at most the sum of all counts.
pub proof fn lemma_count_le_sum(s: Seq<(Seq<char>, usize)>, i: int)
    requires
        0 <= i < s.len(),
    ensures
        s[i].1 <= sum_counts(s),
        sum_counts(s) >= 0,
    decreases s.len(),
{
    lemma_sum_counts_nonneg(s.drop_last());
    if i < s.len() - 1 {
        lemma_count_le_sum(s.drop_last(), i);
    }
}

proof fn lemma_sum_counts_nonneg(s: Seq<(Seq<char>, usize)>)
    ensures
        sum_counts(s) >= 0,
    decreases s.len(),
{
    if s.len() > 0 {
        lemma_sum_counts_nonneg(s.drop_last());
    }
}

/// Every latency is at most the sum of all latencies.
pub proof fn lemma_lat_le_sum(s: Seq<(Seq<char>, u128)>, i: int)
    requires
        0 <= i < s.len(),
    ensures
        s[i].1 <= sum_lats(s),
        sum_lats(s) >= 0,
    decreases s.len(),
{
    lemma_sum_lats_nonneg(s.drop_last());
    if i < s.len() - 1 {
        lemma_lat_le_sum(s.drop_last(), i);
    }
}

proof fn lemma_sum_lats_nonneg(s: Seq<(Seq<char>, u128)>)
    ensures
        sum_lats(s) >= 0,
    decreases s.len(),
{
    if s.len() > 0 {
        lemma_sum_lats_nonneg(s.drop_last());
    }
}

/// Replacing one entry changes the sum by the difference of the values.
pub proof fn lemma_sum_counts_update(s: Seq<(Seq<char>, usize)>, i: int, p: (Seq<char>, usize))
    requires
        0 <= i < s.len(),
    ensures
        sum_counts(s.update(i, p)) == sum_counts(s) - s[i].1 + p.1,
    decreases s.len(),
{
    let t = s.update(i, p);
    if i == s.len() - 1 {
        assert(t.drop_last() =~= s.drop_last());
    } else {
        assert(t.drop_last() =~= s.drop_last().update(i, p));
        lemma_sum_counts_update(s.drop_last(), i, p);
    }
}

/// Replacing one entry changes the sum by the difference of the values.
pub proof fn lemma_sum_lats_update(s: Seq<(Seq<char>, u128)>, i: int, p: (Seq<char>, u128))
    requires
        0 <= i < s.len(),
    ensures
        sum_lats(s.update(i, p)) == sum_lats(s) - s[i].1 + p.1,
    decreases s.len(),
{
    let t = s.update(i, p);
    if i == s.len() - 1 {
        assert(t.drop_last() =~= s.drop_last());
    } else {
        assert(t.drop_last() =~= s.drop_last().update(i, p));
        lemma_sum_lats_update(s.drop_last(), i, p);
    }
}

/// The count stored for `k`, or 0 when `k` is absent.
pub open spec fn count_or_zero(m: Map<Seq<char>, usize>, k: Seq<char>) -> usize {
    if m.dom().contains(k) {
        m[k]
    } else {
        0
    }
}

/// The latency stored for `k`, or 0 when `k` is absent.
pub open spec fn lat_or_zero(m: Map<Seq<char>, u128>, k: Seq<char>) -> u128 {
    if m.dom().contains(k) {
        m[k]
    } else {
        0
    }
}

/// How one `record(k)` call changes the count map.
pub open spec fn record_counts_step(m: Map<Seq<char>, usize>, k: Seq<char>) -> Map<
    Seq<char>,
    usize,
> {
    m.insert(k, (count_or_zero(m, k) + 1) as usize)
}

/// How one `record_latency(k, ms)` call changes the summed-latency map.
pub open spec fn latency_sum_step(m: Map<Seq<char>, u128>, k: Seq<char>, ms: u128) -> Map<
    Seq<char>,
    u128,
> {
    m.insert(k, (lat_or_zero(m, k) + ms) as u128)
}

/// How one `record_latency(k, ms)` call changes the maximum-latency map.
pub open spec fn latency_max_step(m: Map<Seq<char>, u128>, k: Seq<char>, ms: u128) -> Map<
    Seq<char>,
    u128,
> {
    m.insert(k, if ms > lat_or_zero(m, k) { ms } else { lat_or_zero(m, k) })
}

/// The count map after a snapshot with counts `m` absorbs one `record` call
/// per element of `keys`, in order.
pub open spec fn counts_after(m: Map<Seq<char>, usize>, keys: Seq<Seq<char>>) -> Map<
    Seq<char>,
    usize,
> {
    keys.fold_left(m, |acc: Map<Seq<char>, usize>, k: Seq<char>| record_counts_step(acc, k))
}

/// Number of elements of `keys` equal to `k`.
pub open spec fn occurrences(keys: Seq<Seq<char>>, k: Seq<char>) -> int
    decreases keys.len(),
{
    if keys.len() == 0 {
        0
    } else {
        occurrences(keys.drop_last(), k) + if keys.last() == k {
            1int
        } else {
            0int
        }
    }
}

/// After a fresh snapshot absorbs one `record(key)` call per element of
/// `keys` (each call changing the count map by `record_counts_step`, as
/// `record` ensures, and raising `total` by one, so that `total` ends at
/// `keys.len()`), the count stored for every key equals the number of calls
/// that carried it.
pub proof fn lemma_record_run(keys: Seq<Seq<char>>, k: Seq<char>)
    requires
        keys.len() < usize::MAX,
    ensures
        count_or_zero(counts_after(Map::empty(), keys), k) == occurrences(keys, k),
        counts_after(Map::empty(), keys).dom().contains(k) <==> occurrences(keys, k) > 0,
    decreases keys.len(),
{
    lemma_occurrences_bound(keys, k);
    if keys.len() > 0 {
        lemma_record_run(keys.drop_last(), k);
        lemma_occurrences_bound(keys.drop_last(), keys.last());
        lemma_record_run(keys.drop_last(), keys.last());
    }
}

/// A key occurs at most `keys.len()` times.
proof fn lemma_occurrences_bound(keys: Seq<Seq<char>>, k: Seq<char>)
    ensures
        0 <= occurrences(keys, k) <= keys.len(),
    decreases keys.len(),
{
    if keys.len() > 0 {
        lemma_occurrences_bound(keys.drop_last(), k);
    }
}

/// The summed-latency map after a snapshot with latencies `m` absorbs one
/// `record_latency` call per element of `pairs`, in order.
pub open spec fn lats_after(m: Map<Seq<char>, u128>, pairs: Seq<(Seq<char>, u128)>) -> Map<
    Seq<char>,
    u128,
> {
    pairs.fold_left(
        m,
        |acc: Map<Seq<char>, u128>, p: (Seq<char>, u128)| latency_sum_step(acc, p.0, p.1),
    )
}

/// The maximum-latency map after a snapshot with maxima `m` absorbs one
/// `record_latency` call per element of `pairs`, in order.
pub open spec fn maxs_after(m: Map<Seq<char>, u128>, pairs: Seq<(Seq<char>, u128)>) -> Map<
    Seq<char>,
    u128,
> {
    pairs.fold_left(
        m,
        |acc: Map<Seq<char>, u128>, p: (Seq<char>, u128)| latency_max_step(acc, p.0, p.1),
    )
}

/// Sum of the latencies of the calls that carried `k`.
pub open spec fn sum_ms_of(pairs: Seq<(Seq<char>, u128)>, k: Seq<char>) -> int
    decreases pairs.len(),
{
    if pairs.len() == 0 {
        0
    } else {
        sum_ms_of(pairs.drop_last(), k) + if pairs.last().0 == k {
            pairs.last().1 as int
        } else {
            0int
        }
    }
}

/// Sum of the latencies of all calls.
pub open spec fn sum_ms_all(pairs: Seq<(Seq<char>, u128)>) -> int
    decreases pairs.len(),
{
    if pairs.len() == 0 {
        0
    } else {
        sum_ms_all(pairs.drop_last()) + pairs.last().1 as int
    }
}

/// Largest latency among the calls that carried `k`; 0 when there is none.
pub open spec fn max_ms_of(pairs: Seq<(Seq<char>, u128)>, k: Seq<char>) -> u128
    decreases pairs.len(),
{
    if pairs.len() == 0 {
        0u128
    } else if pairs.last().0 == k && pairs.last().1 > max_ms_of(pairs.drop_last(), k) {
        pairs.last().1
    } else {
        max_ms_of(pairs.drop_last(), k)
    }
}

/// `k` is carried by some call in `pairs`.
pub open spec fn occurs_in(pairs: Seq<(Seq<char>, u128)>, k: Seq<char>) -> bool {
    exists|i: int| 0 <= i < pairs.len() && pairs[i].0 == k
}

/// After a fresh snapshot absorbs one `record_latency(key, ms)` call per
/// element of `pairs` (each call changing the latency maps by
/// `latency_sum_step` and `latency_max_step`, as `record_latency` ensures),
/// every key's summed latency equals the sum of the latencies recorded for
/// it, and its maximum latency the largest one; keys never recorded stay
/// absent from both maps.
pub proof fn lemma_record_latency_run(pairs: Seq<(Seq<char>, u128)>, k: Seq<char>)
    requires
        sum_ms_all(pairs) <= u128::MAX,
    ensures
        lat_or_zero(lats_after(Map::empty(), pairs), k) == sum_ms_of(pairs, k),
        lats_after(Map::empty(), pairs).dom().contains(k) <==> occurs_in(pairs, k),
        maxs_after(Map::empty(), pairs).dom().contains(k) <==> occurs_in(pairs, k),
        lat_or_zero(maxs_after(Map::empty(), pairs), k) == max_ms_of(pairs, k),
    decreases pairs.len(),
{
    lemma_sum_ms_bounds(pairs, k);
    if pairs.len() == 0 {
        assert(!occurs_in(pairs, k));
    } else {
        let pre = pairs.drop_last();
        let last = pairs.last();
        lemma_sum_ms_bounds(pre, k);
        lemma_sum_ms_bounds(pre, last.0);
        lemma_record_latency_run(pre, k);
        lemma_record_latency_run(pre, last.0);
        assert(occurs_in(pairs, k) <==> (occurs_in(pre, k) || last.0 == k)) by {
            if occurs_in(pairs, k) {
                let i = choose|i: int| 0 <= i < pairs.len() && pairs[i].0 == k;
                if i < pre.len() {
                    assert(pre[i].0 == k);
                }
            }
            if occurs_in(pre, k) {
                let i = choose|i: int| 0 <= i < pre.len() && pre[i].0 == k;
                assert(pairs[i].0 == k);
            }
            if last.0 == k {
                assert(pairs[pairs.len() - 1].0 == k);
            }
        }
    }
}

/// Per-key latency sums are bounded by the sum over all calls.
proof fn lemma_sum_ms_bounds(pairs: Seq<(Seq<char>, u128)>, k: Seq<char>)
    ensures
        0 <= sum_ms_of(pairs, k) <= sum_ms_all(pairs),
    decreases pairs.len(),
{
    if pairs.len() > 0 {
        lemma_sum_ms_bounds(pairs.drop_last(), k);
    }
}

/// Relies on `time::OffsetDateTime::now_utc`: the current Unix time, read
/// from the system clock and clamped to zero before the epoch. Nothing is
/// assumed of the reading: callers state what holds for every value.
#[verifier::external_body]
pub(crate) fn now_unix_ms() -> (t: u128) {
    let n = time::OffsetDateTime::now_utc().unix_timestamp_nanos();
    if n < 0 {
        0
    } else {
        (n / 1_000_000) as u128
    }
}

/// The aggregate state of exactly one inbound request.
///
/// `total` always equals the sum of the per-key counts, and
/// `total_db_latency_ms` the sum of the per-key latencies.
pub struct QueryStats {
    /// Timestamp (Unix ms) at which the snapshot was created.
    pub started_at_ms: u128,
    /// Count of all recorded operations.
    pub total: usize,
    /// Occurrence count per logical key.
    pub per_key: KeyTable<usize>,
    /// Sum of all recorded latencies (ms).
    pub total_db_latency_ms: u128,
    /// Summed latency (ms) per logical key.
    pub per_key_latency_ms: KeyTable<u128>,
    /// Maximum single-operation latency (ms) per logical key.
    pub per_key_max_latency_ms: KeyTable<u128>,
}

impl QueryStats {
    /// Occurrence count per logical key, as a map.
    pub open spec fn counts(self) -> Map<Seq<char>, usize> {
        self.per_key.as_map()
    }

    /// Summed latency per logical key, as a map.
    pub open spec fn lats(self) -> Map<Seq<char>, u128> {
        self.per_key_latency_ms.as_map()
    }

    /// Maximum single-operation latency per logical key, as a map.
    pub open spec fn maxs(self) -> Map<Seq<char>, u128> {
        self.per_key_max_latency_ms.as_map()
    }

    /// The tables are well formed and the totals equal the per-key sums.
    pub open spec fn wf(self) -> bool {
        &&& self.per_key.wf()
        &&& self.per_key_latency_ms.wf()
        &&& self.per_key_max_latency_ms.wf()
        &&& self.total == sum_counts(self.per_key.kvs())
        &&& self.total_db_latency_ms == sum_lats(self.per_key_latency_ms.kvs())
    }

    /// Fresh snapshot created now.
    pub fn new() -> (r: Self)
        ensures
            r.wf(),
            r.total == 0,
            r.total_db_latency_ms == 0,
            r.counts() == Map::<Seq<char>, usize>::empty(),
            r.lats() == Map::<Seq<char>, u128>::empty(),
            r.maxs() == Map::<Seq<char>, u128>::empty(),
            r.per_key.kvs() == Seq::<(Seq<char>, usize)>::empty(),
            r.per_key_latency_ms.kvs() == Seq::<(Seq<char>, u128)>::empty(),
            r.per_key_max_latency_ms.kvs() == Seq::<(Seq<char>, u128)>::empty(),
    {
        Self::new_at(now_unix_ms())
    }

    /// Fresh snapshot created at `now_ms`.
    pub fn new_at(now_ms: u128) -> (r: Self)
        ensures
            r.wf(),
            r.started_at_ms == now_ms,
            r.total == 0,
            r.total_db_latency_ms == 0,
            r.counts() == Map::<Seq<char>, usize>::empty(),
            r.lats() == Map::<Seq<char>, u128>::empty(),
            r.maxs() == Map::<Seq<char>, u128>::empty(),
            r.per_key.kvs() == Seq::<(Seq<char>, usize)>::empty(),
            r.per_key_latency_ms.kvs() == Seq::<(Seq<char>, u128)>::empty(),
            r.per_key_max_latency_ms.kvs() == Seq::<(Seq<char>, u128)>::empty(),
    {
        QueryStats {
            started_at_ms: now_ms,
            total: 0,
            per_key: KeyTable::new(),
            total_db_latency_ms: 0,
            per_key_latency_ms: KeyTable::new(),
            per_key_max_latency_ms: KeyTable::new(),
        }
    }

    /// Count one occurrence of `key`: increments `total` and the key's count.
    pub fn record(&mut self, key: &str)
        requires
            old(self).wf(),
            old(self).total < usize::MAX,
        ensures
            final(self).wf(),
            final(self).total == old(self).total + 1,
            final(self).counts() == record_counts_step(old(self).counts(), key@),
            final(self).per_key.kvs() == (if has_key(old(self).per_key.kvs(), key@) {
                old(self).per_key.kvs().update(
                    first_key_index(old(self).per_key.kvs(), key@),
                    (key@, (count_or_zero(old(self).counts(), key@) + 1) as usize),
                )
            } else {
                old(self).per_key.kvs().push((key@, 1usize))
            }),
            final(self).started_at_ms == old(self).started_at_ms,
            final(self).total_db_latency_ms == old(self).total_db_latency_ms,
            final(self).lats() == old(self).lats(),
            final(self).maxs() == old(self).maxs(),
    {
        let ghost old_kvs = self.per_key.kvs();
        let c: usize = match self.per_key.get(key) {
            Some(c) => {
                proof {
                    lemma_first_key_index(old_kvs, key@);
                    lemma_count_le_sum(old_kvs, first_key_index(old_kvs, key@));
                }
                c
            },
            None => 0,
        };
        self.per_key.set(key, c + 1);
        proof {
            if has_key(old_kvs, key@) {
                let f = first_key_index(old_kvs, key@);
                lemma_first_key_index(old_kvs, key@);
                lemma_sum_counts_update(old_kvs, f, (key@, (c + 1) as usize));
            } else {
                assert(self.per_key.kvs().drop_last() =~= old_kvs);
            }
        }
        self.total = self.total + 1;
    }

    /// Add `ms` to the request total and to `key`'s summed latency, and raise
    /// `key`'s maximum latency to `ms` if it is larger.
    pub fn record_latency(&mut self, key: &str, ms: u128)
        requires
            old(self).wf(),
            old(self).total_db_latency_ms + ms <= u128::MAX,
        ensures
            final(self).wf(),
            final(self).total_db_latency_ms == old(self).total_db_latency_ms + ms,
            final(self).lats() == latency_sum_step(old(self).lats(), key@, ms),
            final(self).maxs() == latency_max_step(old(self).maxs(), key@, ms),
            final(self).per_key_latency_ms.kvs() == (if has_key(
                old(self).per_key_latency_ms.kvs(),
                key@,
            ) {
                old(self).per_key_latency_ms.kvs().update(
                    first_key_index(old(self).per_key_latency_ms.kvs(), key@),
                    (key@, (lat_or_zero(old(self).lats(), key@) + ms) as u128),
                )
            } else {
                old(self).per_key_latency_ms.kvs().push((key@, ms))
            }),
            final(self).per_key_max_latency_ms.kvs() == (if has_key(
                old(self).per_key_max_latency_ms.kvs(),
                key@,
            ) {
                old(self).per_key_max_latency_ms.kvs().update(
                    first_key_index(old(self).per_key_max_latency_ms.kvs(), key@),
                    (
                        key@,
                        if ms > lat_or_zero(old(self).maxs(), key@) {
                            ms
                        } else {
                            lat_or_zero(old(self).maxs(), key@)
                        },
                    ),
                )
            } else {
                old(self).per_key_max_latency_ms.kvs().push((key@, ms))
            }),
            final(self).started_at_ms == old(self).started_at_ms,
            final(self).total == old(self).total,
            final(self).counts() == old(self).counts(),
    {
        let ghost old_kvs = self.per_key_latency_ms.kvs();
        let l: u128 = match self.per_key_latency_ms.get(key) {
            Some(l) => {
                proof {
                    lemma_first_key_index(old_kvs, key@);
                    lemma_lat_le_sum(old_kvs, first_key_index(old_kvs, key@));
                }
                l
            },
            None => 0,
        };
        self.per_key_latency_ms.set(key, l + ms);
        proof {
            if has_key(old_kvs, key@) {
                let f = first_key_index(old_kvs, key@);
                lemma_first_key_index(old_kvs, key@);
                lemma_sum_lats_update(old_kvs, f, (key@, (l + ms) as u128));
            } else {
                assert(self.per_key_latency_ms.kvs().drop_last() =~= old_kvs);
            }
        }
        self.total_db_latency_ms = self.total_db_latency_ms + ms;
        let m: u128 = match self.per_key_max_latency_ms.get(key) {
            Some(m) => m,
            None => 0,
        };
        let new_max = if ms > m {
            ms
        } else {
            m
        };
        self.per_key_max_latency_ms.set(key, new_max);
    }

    /// Wall time elapsed (ms) since the snapshot was created; zero if the
    /// clock moved backwards.
    pub fn elapsed(&self) -> (e: u128)
        ensures
            e >= 0,
    {
        self.elapsed_at(now_unix_ms())
    }

    /// Wall time elapsed (ms) since the snapshot was created, given the
    /// current time; zero if the clock moved backwards.
    pub fn elapsed_at(&self, now_ms: u128) -> (e: u128)
        ensures
            e == (if now_ms >= self.started_at_ms {
                now_ms - self.started_at_ms
            } else {
                0
            }),
    {
        if now_ms >= self.started_at_ms {
            now_ms - self.started_at_ms
        } else {
            0
        }
    }
}

/// Record one operation of `kind` under `kind/key`.
pub fn mark(stats: &mut QueryStats, kind: QueryKind, key: &str)
    requires
        old(stats).wf(),
        old(stats).total < usize::MAX,
    ensures
        final(stats).wf(),
        final(stats).total == old(stats).total + 1,
        final(stats).counts() == record_counts_step(
            old(stats).counts(),
            logical_key_spec(kind_prefix(kind), key@),
        ),
        final(stats).lats() == old(stats).lats(),
        final(stats).maxs() == old(stats).maxs(),
        final(stats).total_db_latency_ms == old(stats).total_db_latency_ms,
        final(stats).started_at_ms == old(stats).started_at_ms,
{
    let full = logical_key(kind_prefix_str(kind), key);
    stats.record(full.as_str());
}

/// Record the latency of one operation of `kind` under `kind/key`.
pub fn mark_latency(stats: &mut QueryStats, kind: QueryKind, key: &str, ms: u128)
    requires
        old(stats).wf(),
        old(stats).total_db_latency_ms + ms <= u128::MAX,
    ensures
        final(stats).wf(),
        final(stats).total_db_latency_ms == old(stats).total_db_latency_ms + ms,
        final(stats).lats() == latency_sum_step(
            old(stats).lats(),
            logical_key_spec(kind_prefix(kind), key@),
            ms,
        ),
        final(stats).maxs() == latency_max_step(
            old(stats).maxs(),
            logical_key_spec(kind_prefix(kind), key@),
            ms,
        ),
        final(stats).total == old(stats).total,
        final(stats).counts() == old(stats).counts(),
        final(stats).started_at_ms == old(stats).started_at_ms,
{
    let full = logical_key(kind_prefix_str(kind), key);
    stats.record_latency(full.as_str(), ms);
}

} // verus!
