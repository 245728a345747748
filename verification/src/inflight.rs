//! In-flight correlation table: pairs a started database operation with its
//! later completion or failure and computes the elapsed time.
//!
//! An operation is identified by its connection description plus the
//! per-connection request number; the stored value keeps the start time and
//! enough of the operation's identity (resource, operation name) to rebuild
//! the logical key when the completion event arrives without that context.

use vstd::prelude::*;

verus! {

/// One started, not yet completed database operation.
pub struct InFlightEntry {
    /// Connection description, the first half of the identity.
    pub conn: String,
    /// Per-connection request number, the second half of the identity.
    pub request_id: i32,
    /// Timestamp (Unix ms) at which the operation started.
    pub started_at_ms: u128,
    /// Resource (collection) the operation addresses.
    pub collection: String,
    /// Operation name.
    pub op: String,
}

/// The identity under which an entry is correlated.
pub open spec fn entry_id(e: InFlightEntry) -> (Seq<char>, int) {
    (e.conn@, e.request_id as int)
}

/// What an entry contributes to the table's contents: start time, resource,
/// operation name.
pub open spec fn entry_val(e: InFlightEntry) -> (u128, Seq<char>, Seq<char>) {
    (e.started_at_ms, e.collection@, e.op@)
}

/// First position in `s` whose identity is `k`, or -1 when `k` is absent.
pub open spec fn first_id_index(s: Seq<InFlightEntry>, k: (Seq<char>, int)) -> int
    decreases s.len(),
{
    if s.len() == 0 {
        -1
    } else if entry_id(s[0]) == k {
        0
    } else {
        let r = first_id_index(s.drop_first(), k);
        if r < 0 {
            -1
        } else {
            r + 1
        }
    }
}

/// `k` occurs as an identity in `s`.
pub open spec fn has_id(s: Seq<InFlightEntry>, k: (Seq<char>, int)) -> bool {
    first_id_index(s, k) >= 0
}

/// No identity occurs twice in `s`.
pub open spec fn unique_ids(s: Seq<InFlightEntry>) -> bool {
    forall|i: int, j: int| 0 <= i < j < s.len() ==> entry_id(s[i]) != entry_id(s[j])
}

/// The contents of `s` as a map from identity to (start, resource, operation).
pub open spec fn id_map_of(s: Seq<InFlightEntry>) -> Map<
    (Seq<char>, int),
    (u128, Seq<char>, Seq<char>),
> {
    Map::new(
        |k: (Seq<char>, int)| has_id(s, k),
        |k: (Seq<char>, int)| entry_val(s[first_id_index(s, k)]),
    )
}

/// An identity occurs in `s` exactly when some entry carries it, and then
/// `first_id_index` points at a carrying entry no later than any other.
pub proof fn lemma_first_id_index(s: Seq<InFlightEntry>, k: (Seq<char>, int))
    ensures
        has_id(s, k) <==> exists|i: int| 0 <= i < s.len() && entry_id(s[i]) == k,
        has_id(s, k) ==> {
            let f = first_id_index(s, k);
            &&& 0 <= f < s.len()
            &&& entry_id(s[f]) == k
            &&& forall|j: int| 0 <= j < f ==> entry_id(s[j]) != k
        },
    decreases s.len(),
{
    if s.len() == 0 {
    } else if entry_id(s[0]) == k {
    } else {
        lemma_first_id_index(s.drop_first(), k);
        if has_id(s.drop_first(), k) {
            let fd = first_id_index(s.drop_first(), k);
            assert(s[fd + 1] == s.drop_first()[fd]);
            assert(forall|j: int|
                1 <= j < fd + 1 ==> s[j] == s.drop_first()[j - 1] && entry_id(
                    s.drop_first()[j - 1],
                ) != k);
        } else {
            assert(forall|i: int| 1 <= i < s.len() ==> s[i] == s.drop_first()[i - 1]);
            if exists|i: int| 0 <= i < s.len() && entry_id(s[i]) == k {
                let i = choose|i: int| 0 <= i < s.len() && entry_id(s[i]) == k;
                assert(entry_id(s.drop_first()[i - 1]) == k);
            }
        }
    }
}

/// Under unique identities, each entry's identity points back at that entry.
pub proof fn lemma_unique_first_id(s: Seq<InFlightEntry>, i: int)
    requires
        unique_ids(s),
        0 <= i < s.len(),
    ensures
        first_id_index(s, entry_id(s[i])) == i,
{
    lemma_first_id_index(s, entry_id(s[i]));
    let f = first_id_index(s, entry_id(s[i]));
    if f < i {
        assert(entry_id(s[f]) != entry_id(s[i]));
    }
    if i < f {
        assert(entry_id(s[i]) != entry_id(s[i]));
    }
}

/// Overwriting the entry that `first_id_index` points at updates the map at
/// that identity and keeps identities unique.
proof fn lemma_id_update(s: Seq<InFlightEntry>, i: int, e: InFlightEntry)
    requires
        unique_ids(s),
        0 <= i < s.len(),
        entry_id(s[i]) == entry_id(e),
        first_id_index(s, entry_id(e)) == i,
    ensures
        unique_ids(s.update(i, e)),
        id_map_of(s.update(i, e)) == id_map_of(s).insert(entry_id(e), entry_val(e)),
{
    let k = entry_id(e);
    let t = s.update(i, e);
    assert(forall|j: int| 0 <= j < s.len() ==> entry_id(t[j]) == entry_id(s[j]));
    assert(unique_ids(t));
    assert forall|kk: (Seq<char>, int)| #[trigger] has_id(t, kk) == (kk == k || has_id(s, kk)) by {
        lemma_first_id_index(t, kk);
        lemma_first_id_index(s, kk);
        if has_id(t, kk) {
            let f = first_id_index(t, kk);
            assert(entry_id(s[f]) == kk);
        }
        if kk == k {
            assert(entry_id(t[i]) == kk);
        } else if has_id(s, kk) {
            let f = first_id_index(s, kk);
            assert(entry_id(t[f]) == kk);
        }
    }
    assert forall|kk: (Seq<char>, int)| has_id(t, kk) implies #[trigger] id_map_of(t)[kk]
        == id_map_of(s).insert(k, entry_val(e))[kk] by {
        if kk == k {
            lemma_unique_first_id(t, i);
        } else {
            lemma_first_id_index(s, kk);
            let f = first_id_index(s, kk);
            lemma_unique_first_id(t, f);
        }
    }
    assert(id_map_of(t) =~= id_map_of(s).insert(k, entry_val(e)));
}

/// Appending an entry with a fresh identity extends the map and keeps
/// identities unique.
proof fn lemma_id_push(s: Seq<InFlightEntry>, e: InFlightEntry)
    requires
        unique_ids(s),
        !has_id(s, entry_id(e)),
    ensures
        unique_ids(s.push(e)),
        id_map_of(s.push(e)) == id_map_of(s).insert(entry_id(e), entry_val(e)),
{
    let k = entry_id(e);
    let t = s.push(e);
    lemma_first_id_index(s, k);
    assert(forall|j: int| 0 <= j < s.len() ==> t[j] == s[j]);
    assert(unique_ids(t));
    assert forall|kk: (Seq<char>, int)| #[trigger] has_id(t, kk) == (kk == k || has_id(s, kk)) by {
        lemma_first_id_index(t, kk);
        lemma_first_id_index(s, kk);
        if has_id(t, kk) {
            let f = first_id_index(t, kk);
            if f < s.len() {
                assert(entry_id(s[f]) == kk);
            }
        }
        if kk == k {
            assert(entry_id(t[s.len() as int]) == kk);
        } else if has_id(s, kk) {
            let f = first_id_index(s, kk);
            assert(entry_id(t[f]) == kk);
        }
    }
    assert forall|kk: (Seq<char>, int)| has_id(t, kk) implies #[trigger] id_map_of(t)[kk]
        == id_map_of(s).insert(k, entry_val(e))[kk] by {
        if kk == k {
            lemma_unique_first_id(t, s.len() as int);
        } else {
            lemma_first_id_index(s, kk);
            let f = first_id_index(s, kk);
            lemma_unique_first_id(t, f);
        }
    }
    assert(id_map_of(t) =~= id_map_of(s).insert(k, entry_val(e)));
}

/// Removing the only entry with an identity removes it from the map.
proof fn lemma_id_remove(s: Seq<InFlightEntry>, i: int)
    requires
        unique_ids(s),
        0 <= i < s.len(),
        first_id_index(s, entry_id(s[i])) == i,
    ensures
        unique_ids(s.remove(i)),
        id_map_of(s.remove(i)) == id_map_of(s).remove(entry_id(s[i])),
{
    let k = entry_id(s[i]);
    let t = s.remove(i);
    assert(forall|j: int| 0 <= j < i ==> t[j] == s[j]);
    assert(forall|j: int| i <= j < t.len() ==> t[j] == s[j + 1]);
    assert(unique_ids(t));
    assert forall|kk: (Seq<char>, int)| #[trigger] has_id(t, kk) == (kk != k && has_id(s, kk)) by {
        lemma_first_id_index(t, kk);
        lemma_first_id_index(s, kk);
        if has_id(t, kk) {
            let f = first_id_index(t, kk);
            if f < i {
                assert(entry_id(s[f]) == kk);
            } else {
                assert(entry_id(s[f + 1]) == kk);
            }
            if kk == k {
                let f2 = if f < i {
                    f
                } else {
                    f + 1
                };
                assert(entry_id(s[f2]) == k && f2 != i);
            }
        }
        if kk != k && has_id(s, kk) {
            let f = first_id_index(s, kk);
            if f < i {
                assert(entry_id(t[f]) == kk);
            } else {
                assert(f > i);
                assert(entry_id(t[f - 1]) == kk);
            }
        }
    }
    assert forall|kk: (Seq<char>, int)| has_id(t, kk) implies #[trigger] id_map_of(t)[kk]
        == id_map_of(s).remove(k)[kk] by {
        lemma_first_id_index(t, kk);
        let ft = first_id_index(t, kk);
        let fs = if ft < i {
            ft
        } else {
            ft + 1
        };
        assert(entry_id(s[fs]) == kk);
        lemma_unique_first_id(s, fs);
        assert(t[ft] == s[fs]);
    }
    assert(id_map_of(t) =~= id_map_of(s).remove(k));
}

/// The identity under which a command is correlated: the connection
/// description plus the per-connection request number.
pub fn inflight_key(connection_dbg: &str, request_id: i32) -> (r: (String, i32))
    ensures
        r.0@ == connection_dbg@,
        r.1 == request_id,
{
    (connection_dbg.to_owned(), request_id)
}

/// Correlation table for all operations currently in flight.
pub struct InFlightTable {
    entries: Vec<InFlightEntry>,
}

impl InFlightTable {
    /// The entries in insertion order.
    pub closed spec fn entries_seq(self) -> Seq<InFlightEntry> {
        self.entries@
    }

    /// The contents as a map from identity to (start, resource, operation).
    pub open spec fn as_map(self) -> Map<(Seq<char>, int), (u128, Seq<char>, Seq<char>)> {
        id_map_of(self.entries_seq())
    }

    /// Identities are unique.
    pub open spec fn wf(self) -> bool {
        unique_ids(self.entries_seq())
    }

    pub fn new() -> (r: Self)
        ensures
            r.wf(),
            r.as_map() == Map::<(Seq<char>, int), (u128, Seq<char>, Seq<char>)>::empty(),
    {
        let r = InFlightTable { entries: Vec::new() };
        proof {
            assert forall|k: (Seq<char>, int)| !has_id(r.entries_seq(), k) by {
                lemma_first_id_index(r.entries_seq(), k);
            }
            assert(r.as_map() =~= Map::<(Seq<char>, int), (u128, Seq<char>, Seq<char>)>::empty());
        }
        r
    }

    /// Number of operations in flight.
    pub fn len(&self) -> (n: usize)
        ensures
            n == self.entries_seq().len(),
    {
        self.entries.len()
    }

    /// Position of the entry with identity (`conn`, `request_id`), or `None`.
    fn position(&self, conn: &str, request_id: i32) -> (r: Option<usize>)
        requires
            self.wf(),
        ensures
            match r {
                Some(i) => i < self.entries_seq().len() && entry_id(self.entries_seq()[i as int])
                    == (conn@, request_id as int) && first_id_index(
                    self.entries_seq(),
                    (conn@, request_id as int),
                ) == i,
                None => !has_id(self.entries_seq(), (conn@, request_id as int)),
            },
    {
        let owned = conn.to_owned();
        let n = self.entries.len();
        let mut i: usize = 0;
        while i < n
            invariant
                self.wf(),
                owned@ == conn@,
                n == self.entries_seq().len(),
                i <= n,
                forall|j: int|
                    0 <= j < i ==> entry_id(self.entries_seq()[j]) != (conn@, request_id as int),
            decreases n - i,
        {
            if self.entries[i].request_id == request_id && self.entries[i].conn == owned {
                proof {
                    lemma_unique_first_id(self.entries_seq(), i as int);
                }
                return Some(i);
            }
            i += 1;
        }
        proof {
            lemma_first_id_index(self.entries_seq(), (conn@, request_id as int));
        }
        None
    }

    /// Start correlating an operation: store its start time and descriptor
    /// under its identity. A duplicate start silently overwrites — last start
    /// wins.
    pub fn begin(
        &mut self,
        conn: &str,
        request_id: i32,
        started_at_ms: u128,
        collection: &str,
        op: &str,
    )
        requires
            old(self).wf(),
        ensures
            final(self).wf(),
            final(self).as_map() == old(self).as_map().insert(
                (conn@, request_id as int),
                (started_at_ms, collection@, op@),
            ),
    {
        let e = InFlightEntry {
            conn: conn.to_owned(),
            request_id,
            started_at_ms,
            collection: collection.to_owned(),
            op: op.to_owned(),
        };
        let ghost old_seq = self.entries_seq();
        match self.position(conn, request_id) {
            Some(i) => {
                self.entries.remove(i);
                self.entries.insert(i, e);
                proof {
                    assert(self.entries_seq() =~= old_seq.update(
                        i as int,
                        self.entries_seq()[i as int],
                    ));
                    lemma_id_update(old_seq, i as int, self.entries_seq()[i as int]);
                }
            },
            None => {
                self.entries.push(e);
                proof {
                    assert(self.entries_seq() =~= old_seq.push(
                        self.entries_seq().last(),
                    ));
                    lemma_id_push(old_seq, self.entries_seq().last());
                }
            },
        }
    }

    /// Finish correlating an operation: remove its entry and return the
    /// elapsed time (zero if the clock moved backwards) together with the
    /// stored resource and operation name. Returns `None`, changing nothing,
    /// when no matching start exists.
    pub fn end(&mut self, conn: &str, request_id: i32, now_ms: u128) -> (r: Option<
        (u128, String, String),
    >)
        requires
            old(self).wf(),
        ensures
            final(self).wf(),
            match r {
                Some(found) => {
                    &&& old(self).as_map().dom().contains((conn@, request_id as int))
                    &&& {
                        let v = old(self).as_map()[(conn@, request_id as int)];
                        &&& found.0 == (if now_ms >= v.0 {
                            now_ms - v.0
                        } else {
                            0
                        })
                        &&& found.1@ == v.1
                        &&& found.2@ == v.2
                    }
                    &&& final(self).as_map() == old(self).as_map().remove(
                        (conn@, request_id as int),
                    )
                },
                None => {
                    &&& !old(self).as_map().dom().contains((conn@, request_id as int))
                    &&& *final(self) == *old(self)
                },
            },
    {
        let ghost old_seq = self.entries_seq();
        match self.position(conn, request_id) {
            Some(i) => {
                let e = self.entries.remove(i);
                proof {
                    lemma_id_remove(old_seq, i as int);
                }
                let elapsed = if now_ms >= e.started_at_ms {
                    now_ms - e.started_at_ms
                } else {
                    0
                };
                Some((elapsed, e.collection, e.op))
            },
            None => None,
        }
    }
}

/// After `begin` stores a descriptor under an identity, `end` on that
/// identity finds exactly that descriptor and start time — so the elapsed
/// time it reports is measured from the stored start (and, being unsigned,
/// is never negative) — and leaves the table without the identity.
pub proof fn lemma_begin_then_end(
    m: Map<(Seq<char>, int), (u128, Seq<char>, Seq<char>)>,
    id: (Seq<char>, int),
    v: (u128, Seq<char>, Seq<char>),
)
    ensures
        m.insert(id, v).dom().contains(id),
        m.insert(id, v)[id] == v,
        m.insert(id, v).remove(id) == m.remove(id),
{
    assert(m.insert(id, v).remove(id) =~= m.remove(id));
}

/// After `end` removes an identity, a second `end` on the same identity
/// finds nothing: one physical operation is never counted twice.
pub proof fn lemma_end_twice(
    m: Map<(Seq<char>, int), (u128, Seq<char>, Seq<char>)>,
    id: (Seq<char>, int),
)
    ensures
        !m.remove(id).dom().contains(id),
{
}

} // verus!
