//! A small key-value store with a mathematical map as its view.

use vstd::prelude::*;
use crate::primitives::StorageKey;

verus! {

/// No key occurs twice among `pairs`.
pub open spec fn distinct_keys<K, V>(pairs: Seq<(K, V)>) -> bool {
    forall|i: int, j: int|
        0 <= i < j < pairs.len() ==> #[trigger] pairs[i].0 != #[trigger] pairs[j].0
}

/// Whether one of `pairs` has the key `k`.
pub open spec fn has_key<K, V>(pairs: Seq<(K, V)>, k: K) -> bool {
    exists|i: int| 0 <= i < pairs.len() && #[trigger] pairs[i].0 == k
}

/// The position of a pair with the key `k` among `pairs`, where there is one.
pub open spec fn position_of<K, V>(pairs: Seq<(K, V)>, k: K) -> int {
    choose|i: int| 0 <= i < pairs.len() && #[trigger] pairs[i].0 == k
}

/// The map that gives each key among `pairs` the value it is paired with.
pub open spec fn map_of<K, V>(pairs: Seq<(K, V)>) -> Map<K, V> {
    Map::new(|k: K| has_key(pairs, k), |k: K| pairs[position_of(pairs, k)].1)
}

/// Where no key occurs twice, each pair is what the map gives for its key.
pub proof fn lemma_pair_in_map<K, V>(pairs: Seq<(K, V)>, i: int)
    requires
        distinct_keys(pairs),
        0 <= i < pairs.len(),
    ensures
        map_of(pairs).contains_key(pairs[i].0),
        map_of(pairs)[pairs[i].0] == pairs[i].1,
        position_of(pairs, pairs[i].0) == i,
{
    let k = pairs[i].0;
    assert(has_key(pairs, k));
    let p = position_of(pairs, k);
    assert(pairs[p].0 == k);
    if p < i {
        assert(pairs[p].0 != pairs[i].0);
    } else if i < p {
        assert(pairs[i].0 != pairs[p].0);
    }
}

/// One pair more, with a key that none of `pairs` has, adds that key to the map.
pub proof fn lemma_map_of_push<K, V>(pairs: Seq<(K, V)>, k: K, v: V)
    requires
        distinct_keys(pairs),
        !has_key(pairs, k),
    ensures
        distinct_keys(pairs.push((k, v))),
        map_of(pairs.push((k, v))) == map_of(pairs).insert(k, v),
{
    let grown = pairs.push((k, v));
    let n = pairs.len() as int;
    assert forall|a: int, b: int| 0 <= a < b < grown.len() implies #[trigger] grown[a].0
        != #[trigger] grown[b].0 by {
        if b < n {
            assert(pairs[a].0 != pairs[b].0);
        } else {
            assert(pairs[a].0 != k);
        }
    }
    assert forall|q: K| map_of(grown).contains_key(q) == map_of(pairs).insert(k, v).contains_key(
        q,
    ) by {
        if has_key(grown, q) {
            let p = position_of(grown, q);
            if p < n {
                assert(pairs[p].0 == q);
            }
        }
        if has_key(pairs, q) {
            let p = position_of(pairs, q);
            assert(grown[p].0 == q);
        }
        if q == k {
            assert(grown[n].0 == q);
        }
    }
    assert forall|q: K| map_of(grown).contains_key(q) implies map_of(grown)[q] == map_of(
        pairs,
    ).insert(k, v)[q] by {
        let p = position_of(grown, q);
        lemma_pair_in_map(grown, p);
        if p < n {
            lemma_pair_in_map(pairs, p);
        }
    }
    assert(map_of(grown) =~= map_of(pairs).insert(k, v));
}

/// A finite map from `K` to `V`, kept as a list of entries in which no key occurs twice.
pub struct StorageMap<K, V> {
    entries: Vec<(K, V)>,
}

impl<K: StorageKey, V: Copy> StorageMap<K, V> {
    /// The entries in the order in which [`Self::entry_at`] hands them out.
    pub closed spec fn entries(&self) -> Seq<(K, V)> {
        self.entries@
    }

    /// No key occurs twice among the entries.
    pub open spec fn wf(&self) -> bool {
        distinct_keys(self.entries())
    }

    /// Whether some entry has the key `k`.
    pub open spec fn has(&self, k: K) -> bool {
        has_key(self.entries(), k)
    }

    /// The position of the entry with key `k`, where there is one.
    pub open spec fn position(&self, k: K) -> int {
        position_of(self.entries(), k)
    }

    /// The map that the entries stand for.
    pub open spec fn view(&self) -> Map<K, V> {
        map_of(self.entries())
    }

    /// In a well-formed store, the entry at position `i` is what the view maps its key to.
    pub proof fn lemma_entry_in_view(&self, i: int)
        requires
            self.wf(),
            0 <= i < self.entries().len(),
        ensures
            self@.contains_key(self.entries()[i].0),
            self@[self.entries()[i].0] == self.entries()[i].1,
            self.position(self.entries()[i].0) == i,
    {
        lemma_pair_in_map(self.entries(), i);
    }

    /// The map that the first `n` entries stand for.
    pub open spec fn prefix_view(&self, n: int) -> Map<K, V> {
        Map::new(
            |k: K| self.has(k) && self.position(k) < n,
            |k: K| self.entries()[self.position(k)].1,
        )
    }

    /// All the entries together stand for the view.
    pub proof fn lemma_whole_prefix(&self)
        ensures
            self.prefix_view(self.entries().len() as int) == self@,
    {
        assert(self.prefix_view(self.entries().len() as int) =~= self@);
    }

    /// No entry stands in the empty prefix.
    pub proof fn lemma_empty_prefix(&self)
        ensures
            self.prefix_view(0) == Map::<K, V>::empty(),
    {
        assert(self.prefix_view(0) =~= Map::<K, V>::empty());
    }

    /// One entry more adds its key, which none of the entries before it has.
    pub proof fn lemma_prefix_step(&self, n: int)
        requires
            self.wf(),
            0 <= n < self.entries().len(),
        ensures
            !self.prefix_view(n).contains_key(self.entries()[n].0),
            self.prefix_view(n + 1) == self.prefix_view(n).insert(
                self.entries()[n].0,
                self.entries()[n].1,
            ),
    {
        self.lemma_entry_in_view(n);
        let grown = self.prefix_view(n).insert(self.entries()[n].0, self.entries()[n].1);
        assert forall|k: K| self.prefix_view(n + 1).contains_key(k) == grown.contains_key(k) by {
            if self.has(k) {
                self.lemma_entry_in_view(self.position(k));
            }
        }
        assert(self.prefix_view(n + 1) =~= grown);
    }

    /// An empty store.
    pub fn new() -> (s: Self)
        ensures
            s.wf(),
            s@ == Map::<K, V>::empty(),
            s.entries().len() == 0,
    {
        let s = StorageMap { entries: Vec::new() };
        proof {
            assert(s@ =~= Map::<K, V>::empty());
        }
        s
    }

    /// The number of entries.
    pub fn len(&self) -> (n: usize)
        ensures
            n == self.entries().len(),
    {
        self.entries.len()
    }

    /// The entry at position `i`.
    pub fn entry_at(&self, i: usize) -> (e: (K, V))
        requires
            i < self.entries().len(),
        ensures
            e == self.entries()[i as int],
    {
        self.entries[i]
    }

    /// The entries as a list.
    pub fn to_vec(&self) -> (list: Vec<(K, V)>)
        ensures
            list@ == self.entries(),
    {
        let mut list: Vec<(K, V)> = Vec::new();
        let mut i: usize = 0;
        while i < self.entries.len()
            invariant
                i <= self.entries().len(),
                list@ == self.entries().take(i as int),
            decreases self.entries().len() - i,
        {
            proof {
                assert(self.entries().take(i + 1) =~= self.entries().take(i as int).push(
                    self.entries()[i as int],
                ));
            }
            list.push(self.entries[i]);
            i += 1;
        }
        proof {
            assert(self.entries().take(self.entries().len() as int) =~= self.entries());
        }
        list
    }

    /// The store whose entries are `pairs`, where no key occurs twice among them.
    pub fn from_pairs(pairs: &[(K, V)]) -> (r: Option<Self>)
        ensures
            r is Some <==> distinct_keys(pairs@),
            r matches Some(store) ==> store.wf() && store.entries() == pairs@,
    {
        let mut store: StorageMap<K, V> = StorageMap::new();
        let mut i: usize = 0;
        while i < pairs.len()
            invariant
                i <= pairs@.len(),
                store.wf(),
                store.entries() == pairs@.take(i as int),
            decreases pairs@.len() - i,
        {
            let (k, v) = pairs[i];
            match store.find(&k) {
                Some(at) => {
                    proof {
                        assert(pairs@[at as int].0 == pairs@[i as int].0);
                    }
                    return None;
                },
                None => {
                    proof {
                        assert(pairs@.take(i + 1) =~= pairs@.take(i as int).push(pairs@[i as int]));
                    }
                    store.push_new(k, v);
                },
            }
            i += 1;
        }
        proof {
            assert(pairs@.take(pairs@.len() as int) =~= pairs@);
        }
        Some(store)
    }

    fn find(&self, k: &K) -> (r: Option<usize>)
        ensures
            match r {
                Some(i) => i < self.entries().len() && self.entries()[i as int].0 == *k,
                None => !self.has(*k),
            },
    {
        let mut i: usize = 0;
        while i < self.entries.len()
            invariant
                i <= self.entries().len(),
                forall|j: int| 0 <= j < i ==> (#[trigger] self.entries()[j]).0 != *k,
            decreases self.entries().len() - i,
        {
            if self.entries[i].0.same(k) {
                return Some(i);
            }
            i += 1;
        }
        None
    }

    /// Whether `k` has a value.
    pub fn contains_key(&self, k: &K) -> (r: bool)
        requires
            self.wf(),
        ensures
            r == self@.contains_key(*k),
    {
        self.find(k).is_some()
    }

    /// The value of `k`, where it has one.
    pub fn get(&self, k: &K) -> (r: Option<V>)
        requires
            self.wf(),
        ensures
            r == if self@.contains_key(*k) {
                Some(self@[*k])
            } else {
                None
            },
    {
        match self.find(k) {
            Some(i) => {
                proof {
                    self.lemma_entry_in_view(i as int);
                }
                Some(self.entries[i].1)
            },
            None => None,
        }
    }

    /// Gives the value `v` to a key `k` that has none.
    pub fn push_new(&mut self, k: K, v: V)
        requires
            old(self).wf(),
            !old(self)@.contains_key(k),
        ensures
            final(self).wf(),
            final(self)@ == old(self)@.insert(k, v),
            final(self).entries() == old(self).entries().push((k, v)),
    {
        proof {
            lemma_map_of_push(self.entries(), k, v);
        }
        self.entries.push((k, v));
    }

    /// Gives `k` the value `v`, in place of the one it had, if any.
    pub fn insert(&mut self, k: K, v: V)
        requires
            old(self).wf(),
        ensures
            final(self).wf(),
            final(self)@ == old(self)@.insert(k, v),
    {
        match self.find(&k) {
            Some(i) => {
                self.entries[i] = (k, v);
                proof {
                    let before = old(self);
                    let after = *self;
                    assert(after.entries() == before.entries().update(i as int, (k, v)));
                    assert forall|a: int, b: int| 0 <= a < b < after.entries().len() implies (
                    #[trigger] after.entries()[a]).0 != (#[trigger] after.entries()[b]).0 by {
                        assert(before.entries()[a].0 != before.entries()[b].0);
                    }
                    assert forall|q: K| after@.contains_key(q) == before@.insert(k, v).contains_key(q) by {
                        if after.has(q) {
                            let p = after.position(q);
                            assert(before.entries()[p].0 == q);
                        }
                        if before.has(q) {
                            let p = before.position(q);
                            assert(after.entries()[p].0 == q);
                        }
                        if q == k {
                            assert(after.entries()[i as int].0 == q);
                        }
                    }
                    assert forall|q: K| after@.contains_key(q) implies after@[q] == before@.insert(k, v)[q] by {
                        let p = after.position(q);
                        after.lemma_entry_in_view(p);
                        if p != i {
                            before.lemma_entry_in_view(p);
                        }
                    }
                    assert(after@ =~= before@.insert(k, v));
                }
            },
            None => {
                self.push_new(k, v);
            },
        }
    }

    /// Takes the value of `k` away, if it has one.
    pub fn remove(&mut self, k: &K)
        requires
            old(self).wf(),
        ensures
            final(self).wf(),
            final(self)@ == old(self)@.remove(*k),
    {
        match self.find(k) {
            Some(i) => {
                self.entries.remove(i);
                proof {
                    let before = old(self);
                    let after = *self;
                    assert(after.entries() == before.entries().remove(i as int));
                    assert forall|a: int, b: int| 0 <= a < b < after.entries().len() implies (
                    #[trigger] after.entries()[a]).0 != (#[trigger] after.entries()[b]).0 by {
                        let first = if a < i { a } else { a + 1 };
                        let second = if b < i { b } else { b + 1 };
                        assert(before.entries()[first].0 != before.entries()[second].0);
                    }
                    assert forall|q: K| after@.contains_key(q) == before@.remove(*k).contains_key(q) by {
                        if after.has(q) {
                            let p = after.position(q);
                            let shifted = if p < i { p } else { p + 1 };
                            assert(before.entries()[shifted].0 == q);
                            before.lemma_entry_in_view(shifted);
                            before.lemma_entry_in_view(i as int);
                        }
                        if before.has(q) && q != *k {
                            let p = before.position(q);
                            let moved = if p < i { p } else { p - 1 };
                            assert(after.entries()[moved].0 == q);
                        }
                    }
                    assert forall|q: K| after@.contains_key(q) implies after@[q] == before@.remove(*k)[q] by {
                        let p = after.position(q);
                        let shifted = if p < i { p } else { p + 1 };
                        after.lemma_entry_in_view(p);
                        before.lemma_entry_in_view(shifted);
                    }
                    assert(after@ =~= before@.remove(*k));
                }
            },
            None => {
                proof {
                    assert(self@ =~= old(self)@.remove(*k));
                }
            },
        }
    }
}

} // verus!
