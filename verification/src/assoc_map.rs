//! A map kept as a vector of key/value pairs in insertion order, in which no
//! key occurs twice. Its view is the mathematical map from key views to
//! values; its pairs are also visible in order, for the operations whose
//! results depend on the order of traversal.

use vstd::prelude::*;

verus! {

/// Keys that can be compared by their views at run time.
pub trait MapKey: View + Sized {
    fn key_eq(&self, other: &Self) -> (same: bool)
        ensures
            same == (self@ == other@),
    ;
}

/// The map that a sequence of pairs denotes: later pairs override earlier
/// ones (in a well-formed map no key occurs twice, so nothing is overridden).
pub open spec fn map_of<K: View, V>(s: Seq<(K, V)>) -> Map<K::V, V>
    decreases s.len(),
{
    if s.len() == 0 {
        Map::empty()
    } else {
        map_of(s.drop_last()).insert(s.last().0@, s.last().1)
    }
}

/// No two pairs have keys with the same view.
pub open spec fn keys_distinct<K: View, V>(s: Seq<(K, V)>) -> bool {
    forall|i: int, j: int| 0 <= i < j < s.len() ==> s[i].0@ != s[j].0@
}

/// The position of the pair with key `k`, if any.
pub open spec fn has_key_at<K: View, V>(s: Seq<(K, V)>, k: K::V, i: int) -> bool {
    0 <= i < s.len() && s[i].0@ == k
}

/// In a sequence without repeated keys, every pair is in the map, and every
/// key of the map comes from a pair.
pub proof fn lemma_map_of_index<K: View, V>(s: Seq<(K, V)>)
    requires
        keys_distinct(s),
    ensures
        forall|i: int|
            0 <= i < s.len() ==> #[trigger] map_of(s).contains_key(s[i].0@) && map_of(s)[s[i].0@]
                == s[i].1,
        forall|k: K::V|
            #[trigger] map_of(s).contains_key(k) ==> exists|i: int| has_key_at(s, k, i),
        map_of(s).dom().finite(),
        map_of(s).dom().len() == s.len(),
    decreases s.len(),
{
    if s.len() > 0 {
        let p = s.drop_last();
        assert(keys_distinct(p));
        lemma_map_of_index(p);
        let last = s.last();
        assert forall|i: int| 0 <= i < s.len() implies #[trigger] map_of(s).contains_key(s[i].0@)
            && map_of(s)[s[i].0@] == s[i].1 by {
            if i < s.len() - 1 {
                assert(p[i] == s[i]);
                assert(s[i].0@ != last.0@);
            }
        }
        assert forall|k: K::V| #[trigger] map_of(s).contains_key(k) implies exists|i: int|
            has_key_at(s, k, i) by {
            if k == last.0@ {
                assert(has_key_at(s, k, s.len() - 1));
            } else {
                assert(map_of(p).contains_key(k));
                let i = choose|i: int| has_key_at(p, k, i);
                assert(p[i] == s[i]);
                assert(has_key_at(s, k, i));
            }
        }
        assert(!map_of(p).contains_key(last.0@)) by {
            if map_of(p).contains_key(last.0@) {
                let i = choose|i: int| has_key_at(p, last.0@, i);
                assert(p[i] == s[i]);
            }
        }
    }
}

/// Two sequences without repeated keys that hold the same pairs up to key
/// views denote the same map when each pair of one is matched in the other.
pub proof fn lemma_map_of_ext<K: View, V>(s: Seq<(K, V)>, m: Map<K::V, V>)
    requires
        keys_distinct(s),
        forall|i: int| 0 <= i < s.len() ==> #[trigger] m.contains_key(s[i].0@) && m[s[i].0@] == s[i].1,
        forall|k: K::V| #[trigger] m.contains_key(k) ==> exists|i: int| has_key_at(s, k, i),
    ensures
        map_of(s) == m,
{
    lemma_map_of_index(s);
    assert forall|k: K::V| map_of(s).contains_key(k) <==> m.contains_key(k) by {
        if map_of(s).contains_key(k) {
            let i = choose|i: int| has_key_at(s, k, i);
            assert(m.contains_key(s[i].0@));
        }
        if m.contains_key(k) {
            let i = choose|i: int| has_key_at(s, k, i);
            assert(map_of(s).contains_key(s[i].0@));
        }
    }
    assert forall|k: K::V| map_of(s).contains_key(k) implies map_of(s)[k] == m[k] by {
        let i = choose|i: int| has_key_at(s, k, i);
        assert(map_of(s).contains_key(s[i].0@));
        assert(m.contains_key(s[i].0@));
    }
    assert(map_of(s) =~= m);
}

/// A map of keys to values, kept in insertion order without repeated keys.
#[derive(Debug)]
pub struct AssocMap<K, V> {
    entries: Vec<(K, V)>,
}

impl<K: View, V> View for AssocMap<K, V> {
    type V = Map<K::V, V>;

    open spec fn view(&self) -> Map<K::V, V> {
        map_of(self.pairs())
    }
}

impl<K: View, V> AssocMap<K, V> {
    /// The pairs in their order of insertion.
    pub closed spec fn pairs(&self) -> Seq<(K, V)> {
        self.entries@
    }

    /// No key occurs twice.
    pub open spec fn wf(&self) -> bool {
        keys_distinct(self.pairs())
    }

    pub fn new() -> (m: Self)
        ensures
            m.wf(),
            m.pairs() == Seq::<(K, V)>::empty(),
            m@ == Map::<K::V, V>::empty(),
    {
        AssocMap { entries: Vec::new() }
    }

    pub fn len(&self) -> (n: usize)
        requires
            self.wf(),
        ensures
            n == self.pairs().len(),
            n == self@.len(),
            self@.dom().finite(),
    {
        proof {
            lemma_map_of_index(self.pairs());
        }
        self.entries.len()
    }

    /// The key of the pair at position `i`.
    pub fn key_at(&self, i: usize) -> (k: &K)
        requires
            i < self.pairs().len(),
        ensures
            *k == self.pairs()[i as int].0,
    {
        &self.entries[i].0
    }

    /// The value of the pair at position `i`.
    pub fn value_at(&self, i: usize) -> (v: &V)
        requires
            i < self.pairs().len(),
        ensures
            *v == self.pairs()[i as int].1,
    {
        &self.entries[i].1
    }

    /// The pairs, in order, handed over by value.
    pub fn into_pairs(self) -> (v: Vec<(K, V)>)
        ensures
            v@ == self.pairs(),
    {
        self.entries
    }

    /// Takes out the pair at position `i`; the other pairs keep their order.
    pub fn remove_at(&mut self, i: usize) -> (r: (K, V))
        requires
            old(self).wf(),
            i < old(self).pairs().len(),
        ensures
            final(self).wf(),
            r == old(self).pairs()[i as int],
            final(self).pairs() == old(self).pairs().remove(i as int),
            final(self)@ == old(self)@.remove(r.0@),
    {
        let ghost s = self.pairs();
        let r = self.entries.remove(i);
        proof {
            let t = self.pairs();
            let k = s[i as int].0@;
            assert(keys_distinct(t)) by {
                assert forall|a: int, b: int| 0 <= a < b < t.len() implies t[a].0@ != t[b].0@ by {
                    if a < i {
                        assert(t[a] == s[a]);
                    } else {
                        assert(t[a] == s[a + 1]);
                    }
                    if b < i {
                        assert(t[b] == s[b]);
                    } else {
                        assert(t[b] == s[b + 1]);
                    }
                }
            }
            lemma_map_of_index(s);
            let m = map_of(s).remove(k);
            assert forall|kk: K::V| #[trigger] m.contains_key(kk) implies exists|j: int|
                has_key_at(t, kk, j) by {
                let j = choose|j: int| has_key_at(s, kk, j);
                if j < i {
                    assert(has_key_at(t, kk, j));
                } else {
                    assert(j != i);
                    assert(has_key_at(t, kk, j - 1));
                }
            }
            assert forall|j: int| 0 <= j < t.len() implies #[trigger] m.contains_key(t[j].0@)
                && m[t[j].0@] == t[j].1 by {
                if j < i {
                    assert(t[j] == s[j]);
                    assert(s[j].0@ != s[i as int].0@);
                    assert(map_of(s).contains_key(s[j].0@));
                } else {
                    assert(t[j] == s[j + 1]);
                    assert(s[i as int].0@ != s[j + 1].0@);
                    assert(map_of(s).contains_key(s[j + 1].0@));
                }
            }
            lemma_map_of_ext(t, m);
        }
        r
    }

    /// Puts a pair with a new key at position `i`.
    pub fn insert_at(&mut self, i: usize, k: K, v: V)
        requires
            old(self).wf(),
            i <= old(self).pairs().len(),
            !old(self)@.contains_key(k@),
        ensures
            final(self).wf(),
            final(self).pairs() == old(self).pairs().insert(i as int, (k, v)),
            final(self)@ == old(self)@.insert(k@, v),
    {
        let ghost s = self.pairs();
        let ghost kv = k@;
        self.entries.insert(i, (k, v));
        proof {
            let t = self.pairs();
            lemma_map_of_index(s);
            assert forall|j: int| 0 <= j < s.len() implies s[j].0@ != kv by {
                assert(map_of(s).contains_key(s[j].0@));
            }
            assert(keys_distinct(t)) by {
                assert forall|a: int, b: int| 0 <= a < b < t.len() implies t[a].0@ != t[b].0@ by {
                    if a < i {
                        assert(t[a] == s[a]);
                    } else if a > i {
                        assert(t[a] == s[a - 1]);
                    }
                    if b < i {
                        assert(t[b] == s[b]);
                    } else if b > i {
                        assert(t[b] == s[b - 1]);
                    }
                }
            }
            let m = map_of(s).insert(kv, v);
            assert forall|kk: K::V| #[trigger] m.contains_key(kk) implies exists|j: int|
                has_key_at(t, kk, j) by {
                if kk == kv {
                    assert(has_key_at(t, kk, i as int));
                } else {
                    let j = choose|j: int| has_key_at(s, kk, j);
                    if j < i {
                        assert(has_key_at(t, kk, j));
                    } else {
                        assert(has_key_at(t, kk, j + 1));
                    }
                }
            }
            assert forall|j: int| 0 <= j < t.len() implies #[trigger] m.contains_key(t[j].0@)
                && m[t[j].0@] == t[j].1 by {
                if j < i {
                    assert(t[j] == s[j]);
                    assert(map_of(s).contains_key(s[j].0@));
                } else if j > i {
                    assert(t[j] == s[j - 1]);
                    assert(map_of(s).contains_key(s[j - 1].0@));
                }
            }
            lemma_map_of_ext(t, m);
        }
    }

    pub proof fn lemma_view(&self)
        requires
            self.wf(),
        ensures
            forall|i: int|
                0 <= i < self.pairs().len() ==> #[trigger] self@.contains_key(self.pairs()[i].0@)
                    && self@[self.pairs()[i].0@] == self.pairs()[i].1,
            forall|k: K::V|
                #[trigger] self@.contains_key(k) ==> exists|i: int| has_key_at(self.pairs(), k, i),
            self@.dom().finite(),
            self@.len() == self.pairs().len(),
    {
        lemma_map_of_index(self.pairs());
        assert forall|i: int| 0 <= i < self.pairs().len() implies #[trigger] self@.contains_key(
            self.pairs()[i].0@,
        ) && self@[self.pairs()[i].0@] == self.pairs()[i].1 by {
            assert(map_of(self.pairs()).contains_key(self.pairs()[i].0@));
        }
        assert forall|k: K::V| #[trigger] self@.contains_key(k) implies exists|i: int|
            has_key_at(self.pairs(), k, i) by {
            assert(map_of(self.pairs()).contains_key(k));
        }
    }
}

impl AssocMap<String, String> {
    /// A copy holding the same pairs in the same order.
    pub fn copy_pairs(&self) -> (r: Self)
        ensures
            r.pairs() == self.pairs(),
    {
        let mut entries: Vec<(String, String)> = Vec::new();
        let mut i: usize = 0;
        while i < self.entries.len()
            invariant
                i <= self.entries@.len(),
                entries@ == self.entries@.subrange(0, i as int),
            decreases self.entries.len() - i,
        {
            let k = self.entries[i].0.clone();
            let v = self.entries[i].1.clone();
            entries.push((k, v));
            proof {
                assert(entries@ =~= self.entries@.subrange(0, i + 1));
            }
            i = i + 1;
        }
        proof {
            assert(entries@ =~= self.entries@);
        }
        AssocMap { entries }
    }
}

impl<K: MapKey, V> AssocMap<K, V> {
    /// The position of the pair whose key has the view of `k`.
    pub fn index_of(&self, k: &K) -> (r: Option<usize>)
        requires
            self.wf(),
        ensures
            match r {
                Some(i) => has_key_at(self.pairs(), k@, i as int),
                None => !self@.contains_key(k@),
            },
            r is Some <==> self@.contains_key(k@),
    {
        proof {
            lemma_map_of_index(self.pairs());
        }
        let mut i: usize = 0;
        while i < self.entries.len()
            invariant
                self.wf(),
                i <= self.entries@.len(),
                forall|j: int| 0 <= j < i ==> self.pairs()[j].0@ != k@,
            decreases self.entries.len() - i,
        {
            if self.entries[i].0.key_eq(k) {
                proof {
                    lemma_map_of_index(self.pairs());
                    assert(map_of(self.pairs()).contains_key(self.pairs()[i as int].0@));
                }
                return Some(i);
            }
            i = i + 1;
        }
        proof {
            if self@.contains_key(k@) {
                let j = choose|j: int| has_key_at(self.pairs(), k@, j);
            }
        }
        None
    }

    pub fn contains_key(&self, k: &K) -> (b: bool)
        requires
            self.wf(),
        ensures
            b == self@.contains_key(k@),
    {
        self.index_of(k).is_some()
    }

    pub fn get(&self, k: &K) -> (r: Option<&V>)
        requires
            self.wf(),
        ensures
            match r {
                Some(v) => self@.contains_key(k@) && *v == self@[k@],
                None => !self@.contains_key(k@),
            },
    {
        proof {
            lemma_map_of_index(self.pairs());
        }
        match self.index_of(k) {
            Some(i) => Some(&self.entries[i].1),
            None => None,
        }
    }

    /// Replaces the value of the pair at position `i`, keeping its key.
    pub fn set_value_at(&mut self, i: usize, v: V)
        requires
            old(self).wf(),
            i < old(self).pairs().len(),
        ensures
            final(self).wf(),
            final(self).pairs() == old(self).pairs().update(
                i as int,
                (old(self).pairs()[i as int].0, v),
            ),
            final(self)@ == old(self)@.insert(old(self).pairs()[i as int].0@, v),
    {
        let ghost s = self.pairs();
        let ghost k = s[i as int].0;
        let k_owned = self.entries.remove(i);
        let (key, _) = k_owned;
        self.entries.insert(i, (key, v));
        proof {
            let t = self.pairs();
            assert(t =~= s.update(i as int, (k, v)));
            assert(keys_distinct(t)) by {
                assert forall|a: int, b: int| 0 <= a < b < t.len() implies t[a].0@ != t[b].0@ by {
                    assert(t[a].0@ == s[a].0@);
                    assert(t[b].0@ == s[b].0@);
                }
            }
            lemma_map_of_index(s);
            let m = map_of(s).insert(k@, v);
            assert forall|kk: K::V| #[trigger] m.contains_key(kk) implies exists|j: int|
                has_key_at(t, kk, j) by {
                if kk == k@ {
                    assert(has_key_at(t, kk, i as int));
                } else {
                    let j = choose|j: int| has_key_at(s, kk, j);
                    assert(has_key_at(t, kk, j));
                }
            }
            assert forall|j: int| 0 <= j < t.len() implies #[trigger] m.contains_key(t[j].0@)
                && m[t[j].0@] == t[j].1 by {
                if j != i {
                    assert(t[j] == s[j]);
                    assert(map_of(s).contains_key(s[j].0@));
                    if j < i {
                        assert(s[j].0@ != s[i as int].0@);
                    } else {
                        assert(s[i as int].0@ != s[j].0@);
                    }
                } else {
                    assert(t[j] == (k, v));
                }
            }
            lemma_map_of_ext(t, m);
        }
    }

    /// Associates `v` with `k`: the pair of `k` keeps its position if there
    /// is one, else the pair goes to the end.
    pub fn insert(&mut self, k: K, v: V)
        requires
            old(self).wf(),
        ensures
            final(self).wf(),
            final(self)@ == old(self)@.insert(k@, v),
            old(self)@.contains_key(k@) ==> final(self).pairs().len() == old(self).pairs().len(),
            !old(self)@.contains_key(k@) ==> final(self).pairs() == old(self).pairs().push((k, v)),
    {
        match self.index_of(&k) {
            Some(i) => {
                self.set_value_at(i, v);
            },
            None => {
                let ghost s = self.pairs();
                self.entries.push((k, v));
                proof {
                    lemma_map_of_index(s);
                    let t = self.pairs();
                    assert(t.drop_last() =~= s);
                    assert(keys_distinct(t)) by {
                        assert forall|a: int, b: int| 0 <= a < b < t.len() implies t[a].0@
                            != t[b].0@ by {
                            if b == t.len() - 1 {
                                assert(t[a] == s[a]);
                                assert(map_of(s).contains_key(s[a].0@));
                            } else {
                                assert(t[a] == s[a]);
                                assert(t[b] == s[b]);
                            }
                        }
                    }
                }
            },
        }
    }

    /// Removes the pair of `k`, if there is one; the other pairs keep their order.
    pub fn remove(&mut self, k: &K)
        requires
            old(self).wf(),
        ensures
            final(self).wf(),
            final(self)@ == old(self)@.remove(k@),
    {
        match self.index_of(k) {
            Some(i) => {
                let ghost s = self.pairs();
                let _ = self.entries.remove(i);
                proof {
                    let t = self.pairs();
                    assert(t =~= s.remove(i as int));
                    assert(keys_distinct(t)) by {
                        assert forall|a: int, b: int| 0 <= a < b < t.len() implies t[a].0@
                            != t[b].0@ by {
                            if a < i {
                                assert(t[a] == s[a]);
                            } else {
                                assert(t[a] == s[a + 1]);
                            }
                            if b < i {
                                assert(t[b] == s[b]);
                            } else {
                                assert(t[b] == s[b + 1]);
                            }
                        }
                    }
                    lemma_map_of_index(s);
                    let m = map_of(s).remove(k@);
                    assert forall|kk: K::V| #[trigger] m.contains_key(kk) implies exists|j: int|
                        has_key_at(t, kk, j) by {
                        let j = choose|j: int| has_key_at(s, kk, j);
                        if j < i {
                            assert(has_key_at(t, kk, j));
                        } else {
                            assert(j != i);
                            assert(has_key_at(t, kk, j - 1));
                        }
                    }
                    assert forall|j: int| 0 <= j < t.len() implies #[trigger] m.contains_key(
                        t[j].0@,
                    ) && m[t[j].0@] == t[j].1 by {
                        if j < i {
                            assert(t[j] == s[j]);
                        } else {
                            assert(t[j] == s[j + 1]);
                        }
                    }
                    lemma_map_of_ext(t, m);
                }
            },
            None => {
                proof {
                    assert(self@ =~= old(self)@.remove(k@));
                }
            },
        }
    }
}

} // verus!
