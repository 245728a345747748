//! Association table from logical keys (strings) to copyable values.
//!
//! The aggregator keys its per-request statistics by logical key. This table
//! stores the entries in insertion order, keeps keys unique, and exposes its
//! contents as a `Map<Seq<char>, V>` so that callers can state exactly how an
//! update changes the contents.

use vstd::prelude::*;

verus! {

/// First position in `s` whose key is `k`, or -1 when `k` is absent.
pub open spec fn first_key_index<V>(s: Seq<(Seq<char>, V)>, k: Seq<char>) -> int
    decreases s.len(),
{
    if s.len() == 0 {
        -1
    } else if s[0].0 == k {
        0
    } else {
        let r = first_key_index(s.drop_first(), k);
        if r < 0 {
            -1
        } else {
            r + 1
        }
    }
}

/// `k` occurs as a key in `s`.
pub open spec fn has_key<V>(s: Seq<(Seq<char>, V)>, k: Seq<char>) -> bool {
    first_key_index(s, k) >= 0
}

/// No key occurs twice in `s`.
pub open spec fn unique_keys<V>(s: Seq<(Seq<char>, V)>) -> bool {
    forall|i: int, j: int| 0 <= i < j < s.len() ==> s[i].0 != s[j].0
}

/// The contents of `s` as a map, earliest entry of a key deciding its value.
pub open spec fn map_of<V>(s: Seq<(Seq<char>, V)>) -> Map<Seq<char>, V> {
    Map::new(|k: Seq<char>| has_key(s, k), |k: Seq<char>| s[first_key_index(s, k)].1)
}

/// A key occurs in `s` exactly when some entry carries it, and then
/// `first_key_index` points at a carrying entry no later than any other.
pub proof fn lemma_first_key_index<V>(s: Seq<(Seq<char>, V)>, k: Seq<char>)
    ensures
        has_key(s, k) <==> exists|i: int| 0 <= i < s.len() && s[i].0 == k,
        has_key(s, k) ==> {
            let f = first_key_index(s, k);
            &&& 0 <= f < s.len()
            &&& s[f].0 == k
            &&& forall|j: int| 0 <= j < f ==> s[j].0 != k
        },
    decreases s.len(),
{
    if s.len() == 0 {
    } else if s[0].0 == k {
    } else {
        lemma_first_key_index(s.drop_first(), k);
        if has_key(s.drop_first(), k) {
            let fd = first_key_index(s.drop_first(), k);
            assert(s[fd + 1] == s.drop_first()[fd]);
            assert(forall|j: int|
                1 <= j < fd + 1 ==> s[j] == s.drop_first()[j - 1] && s.drop_first()[j - 1].0 != k);
        } else {
            assert(forall|i: int| 1 <= i < s.len() ==> s[i] == s.drop_first()[i - 1]);
            if exists|i: int| 0 <= i < s.len() && s[i].0 == k {
                let i = choose|i: int| 0 <= i < s.len() && s[i].0 == k;
                assert(s.drop_first()[i - 1].0 == k);
            }
        }
    }
}

/// Under unique keys, each entry's key points back at that entry.
pub proof fn lemma_unique_first_index<V>(s: Seq<(Seq<char>, V)>, i: int)
    requires
        unique_keys(s),
        0 <= i < s.len(),
    ensures
        first_key_index(s, s[i].0) == i,
{
    lemma_first_key_index(s, s[i].0);
    let f = first_key_index(s, s[i].0);
    assert(0 <= f < s.len() && s[f].0 == s[i].0);
    if f < i {
        assert(s[f].0 != s[i].0);
    }
    if i < f {
        assert(s[i].0 != s[i].0);
    }
}

/// Association table with unique string keys and copyable values.
pub struct KeyTable<V> {
    entries: Vec<(String, V)>,
}

impl<V: Copy> KeyTable<V> {
    /// The entries as a sequence of (key, value) pairs, in insertion order.
    pub closed spec fn kvs(self) -> Seq<(Seq<char>, V)> {
        Seq::new(self.entries@.len(), |i: int| (self.entries@[i].0@, self.entries@[i].1))
    }

    /// The contents as a map from key to value.
    pub open spec fn as_map(self) -> Map<Seq<char>, V> {
        map_of(self.kvs())
    }

    /// Keys are unique.
    pub open spec fn wf(self) -> bool {
        unique_keys(self.kvs())
    }

    pub fn new() -> (r: Self)
        ensures
            r.wf(),
            r.kvs() == Seq::<(Seq<char>, V)>::empty(),
            r.as_map() == Map::<Seq<char>, V>::empty(),
    {
        let r = KeyTable { entries: Vec::new() };
        proof {
            assert(r.kvs() =~= Seq::<(Seq<char>, V)>::empty());
            assert(r.as_map() =~= Map::<Seq<char>, V>::empty());
        }
        r
    }

    /// Number of distinct keys present.
    pub fn len(&self) -> (n: usize)
        ensures
            n == self.kvs().len(),
    {
        self.entries.len()
    }

    /// The key of the entry at position `i`.
    pub fn key_at(&self, i: usize) -> (k: &String)
        requires
            i < self.kvs().len(),
        ensures
            k@ == self.kvs()[i as int].0,
    {
        &self.entries[i].0
    }

    /// The value of the entry at position `i`.
    pub fn val_at(&self, i: usize) -> (v: V)
        requires
            i < self.kvs().len(),
        ensures
            v == self.kvs()[i as int].1,
    {
        self.entries[i].1
    }

    /// Position of `key`, or `None` when absent.
    fn position(&self, key: &str) -> (r: Option<usize>)
        requires
            self.wf(),
        ensures
            match r {
                Some(i) => i < self.kvs().len() && self.kvs()[i as int].0 == key@
                    && first_key_index(self.kvs(), key@) == i,
                None => !has_key(self.kvs(), key@),
            },
    {
        let owned = key.to_owned();
        let n = self.entries.len();
        let mut i: usize = 0;
        while i < n
            invariant
                self.wf(),
                owned@ == key@,
                n == self.kvs().len(),
                i <= n,
                forall|j: int| 0 <= j < i ==> self.kvs()[j].0 != key@,
            decreases n - i,
        {
            if self.entries[i].0 == owned {
                proof {
                    lemma_unique_first_index(self.kvs(), i as int);
                }
                return Some(i);
            }
            i += 1;
        }
        proof {
            lemma_first_key_index(self.kvs(), key@);
        }
        None
    }

    /// Value stored for `key`, or `None` when absent.
    pub fn get(&self, key: &str) -> (r: Option<V>)
        requires
            self.wf(),
        ensures
            r == (if self.as_map().dom().contains(key@) {
                Some(self.as_map()[key@])
            } else {
                None::<V>
            }),
    {
        match self.position(key) {
            Some(i) => Some(self.entries[i].1),
            None => None,
        }
    }

    /// Insert `key -> v`, overwriting the value if the key is present.
    pub fn set(&mut self, key: &str, v: V)
        requires
            old(self).wf(),
        ensures
            final(self).wf(),
            final(self).as_map() == old(self).as_map().insert(key@, v),
            if has_key(old(self).kvs(), key@) {
                final(self).kvs() == old(self).kvs().update(
                    first_key_index(old(self).kvs(), key@),
                    (key@, v),
                )
            } else {
                final(self).kvs() == old(self).kvs().push((key@, v))
            },
    {
        let ghost old_kvs = self.kvs();
        match self.position(key) {
            Some(i) => {
                self.entries.remove(i);
                self.entries.insert(i, (key.to_owned(), v));
                proof {
                    assert(self.kvs() =~= old_kvs.update(i as int, (key@, v)));
                    lemma_set_update(old_kvs, i as int, key@, v);
                }
            },
            None => {
                self.entries.push((key.to_owned(), v));
                proof {
                    assert(self.kvs() =~= old_kvs.push((key@, v)));
                    lemma_set_push(old_kvs, key@, v);
                }
            },
        }
    }
}

/// Overwriting the entry that `first_key_index` points at updates the map at
/// that key and keeps keys unique.
proof fn lemma_set_update<V>(s: Seq<(Seq<char>, V)>, i: int, k: Seq<char>, v: V)
    requires
        unique_keys(s),
        0 <= i < s.len(),
        s[i].0 == k,
        first_key_index(s, k) == i,
    ensures
        unique_keys(s.update(i, (k, v))),
        map_of(s.update(i, (k, v))) == map_of(s).insert(k, v),
{
    let t = s.update(i, (k, v));
    assert(forall|j: int| 0 <= j < s.len() ==> t[j].0 == s[j].0);
    assert(unique_keys(t));
    assert forall|kk: Seq<char>| #[trigger] has_key(t, kk) == (kk == k || has_key(s, kk)) by {
        lemma_first_key_index(t, kk);
        lemma_first_key_index(s, kk);
        if has_key(t, kk) {
            let f = first_key_index(t, kk);
            assert(s[f].0 == kk);
        }
        if kk == k || has_key(s, kk) {
            if kk == k {
                assert(t[i].0 == kk);
            } else {
                let f = first_key_index(s, kk);
                assert(t[f].0 == kk);
            }
        }
    }
    assert forall|kk: Seq<char>| has_key(t, kk) implies #[trigger] map_of(t)[kk] == map_of(
        s,
    ).insert(k, v)[kk] by {
        if kk == k {
            lemma_unique_first_index(t, i);
        } else {
            lemma_first_key_index(s, kk);
            let f = first_key_index(s, kk);
            lemma_unique_first_index(t, f);
        }
    }
    assert(map_of(t) =~= map_of(s).insert(k, v));
}

/// Appending a fresh key extends the map and keeps keys unique.
proof fn lemma_set_push<V>(s: Seq<(Seq<char>, V)>, k: Seq<char>, v: V)
    requires
        unique_keys(s),
        !has_key(s, k),
    ensures
        unique_keys(s.push((k, v))),
        map_of(s.push((k, v))) == map_of(s).insert(k, v),
{
    let t = s.push((k, v));
    lemma_first_key_index(s, k);
    assert(forall|j: int| 0 <= j < s.len() ==> t[j] == s[j]);
    assert(unique_keys(t));
    assert forall|kk: Seq<char>| #[trigger] has_key(t, kk) == (kk == k || has_key(s, kk)) by {
        lemma_first_key_index(t, kk);
        lemma_first_key_index(s, kk);
        if has_key(t, kk) {
            let f = first_key_index(t, kk);
            if f < s.len() {
                assert(s[f].0 == kk);
            }
        }
        if kk == k {
            assert(t[s.len() as int].0 == kk);
        } else if has_key(s, kk) {
            let f = first_key_index(s, kk);
            assert(t[f].0 == kk);
        }
    }
    assert forall|kk: Seq<char>| has_key(t, kk) implies #[trigger] map_of(t)[kk] == map_of(
        s,
    ).insert(k, v)[kk] by {
        if kk == k {
            lemma_unique_first_index(t, s.len() as int);
        } else {
            lemma_first_key_index(s, kk);
            let f = first_key_index(s, kk);
            lemma_unique_first_index(t, f);
        }
    }
    assert(map_of(t) =~= map_of(s).insert(k, v));
}

} // verus!
