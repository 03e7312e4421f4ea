//! Association map from 32-byte keys to values.
//!
//! Holds at most one entry per key, in insertion order; lookups scan
//! linearly. The view is a [`Map`] keyed by the byte view of the key.

use vstd::prelude::*;

use crate::hash::H256;

verus! {

/// Folds an entry sequence into a map; a later entry for the same key wins.
pub open spec fn kvs_to_map<V>(s: Seq<(Seq<u8>, V)>) -> Map<Seq<u8>, V>
    decreases s.len(),
{
    if s.len() == 0 {
        Map::empty()
    } else {
        kvs_to_map(s.drop_last()).insert(s.last().0, s.last().1)
    }
}

/// No two entries share a key.
pub open spec fn distinct_keys<V>(s: Seq<(Seq<u8>, V)>) -> bool {
    forall|i: int, j: int| 0 <= i < j < s.len() ==> s[i].0 != s[j].0
}

/// A map from 32-byte keys to values, held as a vector of entries with
/// pairwise distinct keys.
pub struct H256Map<V> {
    entries: Vec<(H256, V)>,
}

impl<V> View for H256Map<V> {
    type V = Map<Seq<u8>, V>;

    open spec fn view(&self) -> Map<Seq<u8>, V> {
        kvs_to_map(self.entry_seq())
    }
}

impl<V> H256Map<V> {
    /// The entries in insertion order, keys by their byte view.
    pub closed spec fn entry_seq(&self) -> Seq<(Seq<u8>, V)> {
        self.entries@.map(|i: int, e: (H256, V)| (e.0@, e.1))
    }

    /// Key uniqueness, established by the constructor and kept by `insert`.
    pub open spec fn wf(&self) -> bool {
        distinct_keys(self.entry_seq())
    }

    pub fn new() -> (r: Self)
        ensures
            r.wf(),
            r@ == Map::<Seq<u8>, V>::empty(),
            r.entry_seq() == Seq::<(Seq<u8>, V)>::empty(),
    {
        let r = H256Map { entries: Vec::new() };
        proof {
            assert(r.entry_seq() =~= Seq::<(Seq<u8>, V)>::empty());
        }
        r
    }

    pub fn len(&self) -> (r: usize)
        ensures
            r == self.entry_seq().len(),
    {
        self.entries.len()
    }

    /// The entry at position `i` in insertion order.
    pub fn entry_at(&self, i: usize) -> (r: &(H256, V))
        requires
            i < self.entry_seq().len(),
        ensures
            r.0@ == self.entry_seq()[i as int].0,
            r.1 == self.entry_seq()[i as int].1,
    {
        &self.entries[i]
    }

    pub fn contains_key(&self, k: &H256) -> (r: bool)
        requires
            self.wf(),
        ensures
            r == self@.contains_key(k@),
    {
        self.get(k).is_some()
    }

    pub fn get(&self, k: &H256) -> (r: Option<&V>)
        requires
            self.wf(),
        ensures
            match r {
                Some(v) => self@.contains_key(k@) && *v == self@[k@],
                None => !self@.contains_key(k@),
            },
    {
        let ghost s = self.entry_seq();
        let n = self.entries.len();
        let mut i: usize = 0;
        while i < n
            invariant
                i <= n,
                n == self.entries@.len(),
                s == self.entry_seq(),
                self.wf(),
                forall|j: int| 0 <= j < i ==> s[j].0 != k@,
            decreases n - i,
        {
            if self.entries[i].0.eq_hash(k) {
                proof {
                    lemma_kvs_found(s, k@, i as int);
                }
                return Some(&self.entries[i].1);
            }
            i += 1;
        }
        proof {
            lemma_kvs_absent(s, k@);
        }
        None
    }

    pub fn insert(&mut self, k: H256, v: V)
        requires
            old(self).wf(),
        ensures
            final(self).wf(),
            final(self)@ == old(self)@.insert(k@, v),
            !old(self)@.contains_key(k@) ==> final(self).entry_seq() == old(self).entry_seq().push(
                (k@, v),
            ),
            old(self)@.contains_key(k@) ==> final(self).entry_seq().len() == old(
                self,
            ).entry_seq().len(),
    {
        let ghost s = self.entry_seq();
        let n = self.entries.len();
        let mut i: usize = 0;
        while i < n
            invariant
                i <= n,
                n == self.entries@.len(),
                self == old(self),
                s == self.entry_seq(),
                self.wf(),
                forall|j: int| 0 <= j < i ==> s[j].0 != k@,
            decreases n - i,
        {
            if self.entries[i].0.eq_hash(&k) {
                proof {
                    lemma_kvs_found(s, k@, i as int);
                }
                self.entries[i] = (k, v);
                proof {
                    assert(self.entry_seq() =~= s.update(i as int, (k@, v)));
                    lemma_kvs_update(s, k@, v, i as int);
                }
                return ;
            }
            i += 1;
        }
        proof {
            lemma_kvs_absent(s, k@);
        }
        self.entries.push((k, v));
        proof {
            assert(self.entry_seq() =~= s.push((k@, v)));
            assert(self.entry_seq().drop_last() =~= s);
        }
    }
}

/// A key found at `i` under distinct keys resolves the folded map there.
proof fn lemma_kvs_found<V>(s: Seq<(Seq<u8>, V)>, k: Seq<u8>, i: int)
    requires
        distinct_keys(s),
        0 <= i < s.len(),
        s[i].0 == k,
    ensures
        kvs_to_map(s).contains_key(k),
        kvs_to_map(s)[k] == s[i].1,
    decreases s.len(),
{
    if i == s.len() - 1 {
    } else {
        assert(distinct_keys(s.drop_last())) by {
            assert(forall|x: int, y: int|
                0 <= x < y < s.drop_last().len() ==> s.drop_last()[x].0 != s.drop_last()[y].0);
        }
        lemma_kvs_found(s.drop_last(), k, i);
        assert(s.last().0 != k);
    }
}

/// A key under none of the entries is not in the folded map.
proof fn lemma_kvs_absent<V>(s: Seq<(Seq<u8>, V)>, k: Seq<u8>)
    requires
        forall|j: int| 0 <= j < s.len() ==> s[j].0 != k,
    ensures
        !kvs_to_map(s).contains_key(k),
    decreases s.len(),
{
    if s.len() > 0 {
        lemma_kvs_absent(s.drop_last(), k);
    }
}

/// Replacing the entry that holds `k` folds to a map update at `k`.
proof fn lemma_kvs_update<V>(s: Seq<(Seq<u8>, V)>, k: Seq<u8>, v: V, i: int)
    requires
        distinct_keys(s),
        0 <= i < s.len(),
        s[i].0 == k,
    ensures
        distinct_keys(s.update(i, (k, v))),
        kvs_to_map(s.update(i, (k, v))) == kvs_to_map(s).insert(k, v),
    decreases s.len(),
{
    let t = s.update(i, (k, v));
    assert(forall|x: int| 0 <= x < s.len() && x != i ==> t[x] == s[x]);
    if i == s.len() - 1 {
        assert(t.drop_last() =~= s.drop_last());
        assert(t.last() == (k, v));
        assert(kvs_to_map(t) == kvs_to_map(s.drop_last()).insert(k, v));
        assert(kvs_to_map(s.drop_last()).insert(k, s[i].1).insert(k, v) =~= kvs_to_map(
            s.drop_last(),
        ).insert(k, v));
    } else {
        assert(distinct_keys(s.drop_last())) by {
            assert(forall|x: int, y: int|
                0 <= x < y < s.drop_last().len() ==> s.drop_last()[x].0 != s.drop_last()[y].0);
        }
        lemma_kvs_update(s.drop_last(), k, v, i);
        assert(t.drop_last() =~= s.drop_last().update(i, (k, v)));
        assert(t.last() == s.last());
        assert(s.last().0 != k);
        assert(kvs_to_map(t) == kvs_to_map(s.drop_last()).insert(k, v).insert(
            s.last().0,
            s.last().1,
        ));
        assert(kvs_to_map(s.drop_last()).insert(k, v).insert(s.last().0, s.last().1) =~= kvs_to_map(
            s.drop_last(),
        ).insert(s.last().0, s.last().1).insert(k, v));
    }
}

} // verus!
