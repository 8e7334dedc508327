//! Maps and sets keyed by strings, kept as vectors of distinct keys.
use vstd::prelude::*;

verus! {

/// A map from strings to values. Keys are distinct.
pub struct StrMap<V> {
    pub entries: Vec<(String, V)>,
}

impl<V> StrMap<V> {
    /// The keys are distinct.
    pub open spec fn wf(&self) -> bool {
        forall|i: int, j: int|
            0 <= i < j < self.entries@.len() ==> (#[trigger] self.entries@[i]).0@
                != (#[trigger] self.entries@[j]).0@
    }

    /// `k` is a key.
    pub open spec fn has(&self, k: Seq<char>) -> bool {
        exists|i: int| 0 <= i < self.entries@.len() && (#[trigger] self.entries@[i]).0@ == k
    }

    /// The position of the key `k`.
    pub open spec fn index_of(&self, k: Seq<char>) -> int {
        choose|i: int| 0 <= i < self.entries@.len() && (#[trigger] self.entries@[i]).0@ == k
    }


    pub proof fn lemma_index(&self, i: int)
        requires
            self.wf(),
            0 <= i < self.entries@.len(),
        ensures
            self.view().contains_key(self.entries@[i].0@),
            self.index_of(self.entries@[i].0@) == i,
            self.view()[self.entries@[i].0@] == self.entries@[i].1,
    {
        let k = self.entries@[i].0@;
        assert(self.has(k));
        let j = self.index_of(k);
        if j != i {
            if j < i {
                assert(self.entries@[j].0@ != self.entries@[i].0@);
            } else {
                assert(self.entries@[i].0@ != self.entries@[j].0@);
            }
        }
    }

    /// An empty map.
    pub fn new() -> (r: Self)
        ensures
            r.wf(),
            r.view() == Map::<Seq<char>, V>::empty(),
    {
        let r = StrMap { entries: Vec::new() };
        assert(r.view() =~= Map::<Seq<char>, V>::empty());
        r
    }

    /// The number of keys.
    pub fn len(&self) -> (n: usize)
        requires
            self.wf(),
        ensures
            n == self.view().len(),
            n == self.entries@.len(),
    {
        proof {
            self.lemma_len();
        }
        self.entries.len()
    }

    pub proof fn lemma_len(&self)
        requires
            self.wf(),
        ensures
            self.view().dom().finite(),
            self.view().len() == self.entries@.len(),
    {
        let keys = Seq::new(self.entries@.len(), |i: int| self.entries@[i].0@);
        assert forall|i: int, j: int| 0 <= i < keys.len() && 0 <= j < keys.len() && i != j implies keys[i] != keys[j] by {
            if i < j {
                assert(self.entries@[i].0@ != self.entries@[j].0@);
            } else {
                assert(self.entries@[j].0@ != self.entries@[i].0@);
            }
        }
        assert(keys.no_duplicates());
        assert(self.view().dom() =~= keys.to_set()) by {
            assert forall|k: Seq<char>| self.view().dom().contains(k) implies keys.to_set().contains(k) by {
                let i = self.index_of(k);
                assert(keys[i] == k);
            }
            assert forall|k: Seq<char>| keys.to_set().contains(k) implies self.view().dom().contains(k) by {
                let i = choose|i: int| 0 <= i < keys.len() && keys[i] == k;
                assert(self.entries@[i].0@ == k);
            }
        }
        keys.unique_seq_to_set();
    }

    /// The position of the key `k`, if it is one.
    pub fn find(&self, k: &String) -> (r: Option<usize>)
        requires
            self.wf(),
        ensures
            r matches Some(i) ==> i < self.entries@.len() && self.entries@[i as int].0@ == k@
                && self.index_of(k@) == i,
            r is None ==> !self.view().contains_key(k@),
    {
        let mut i: usize = 0;
        while i < self.entries.len()
            invariant
                self.wf(),
                i <= self.entries@.len(),
                forall|j: int| 0 <= j < i ==> (#[trigger] self.entries@[j]).0@ != k@,
            decreases self.entries.len() - i,
        {
            if self.entries[i].0 == *k {
                proof {
                    self.lemma_index(i as int);
                }
                return Some(i);
            }
            i = i + 1;
        }
        None
    }

    /// Whether `k` is a key.
    pub fn contains_key(&self, k: &String) -> (r: bool)
        requires
            self.wf(),
        ensures
            r == self.view().contains_key(k@),
    {
        match self.find(k) {
            Some(i) => {
                proof {
                    self.lemma_index(i as int);
                }
                true
            },
            None => false,
        }
    }

    /// The value of `k`, if it is a key.
    pub fn get(&self, k: &String) -> (r: Option<&V>)
        requires
            self.wf(),
        ensures
            r matches Some(v) ==> self.view().contains_key(k@) && *v == self.view()[k@],
            r is None ==> !self.view().contains_key(k@),
    {
        match self.find(k) {
            Some(i) => {
                proof {
                    self.lemma_index(i as int);
                }
                Some(&self.entries[i].1)
            },
            None => None,
        }
    }

    /// Sets the value of `k` to `v`; returns the value it had, if any.
    pub fn insert(&mut self, k: String, v: V) -> (r: Option<V>)
        requires
            old(self).wf(),
        ensures
            final(self).wf(),
            final(self).view() == old(self).view().insert(k@, v),
            r matches Some(o) ==> old(self).view().contains_key(k@) && o == old(self).view()[k@],
            r is None ==> !old(self).view().contains_key(k@),
    {
        let ghost old_map = self.view();
        match self.find(&k) {
            Some(i) => {
                proof {
                    self.lemma_index(i as int);
                }
                let ghost ks = k@;
                let old_entry = self.entries.remove(i);
                self.entries.insert(i, (k, v));
                proof {
                    assert(self.entries@ =~= old(self).entries@.update(i as int, (self.entries@[i as int])));
                    assert forall|a: int, b: int|
                        0 <= a < b < self.entries@.len() implies (#[trigger] self.entries@[a]).0@
                        != (#[trigger] self.entries@[b]).0@ by {
                        if a == i {
                            assert(old(self).entries@[b].0@ != old(self).entries@[a].0@);
                        } else if b == i {
                            assert(old(self).entries@[a].0@ != old(self).entries@[b].0@);
                        } else {
                            assert(old(self).entries@[a].0@ != old(self).entries@[b].0@);
                        }
                    }
                    assert forall|key: Seq<char>| #[trigger] self.has(key) == old(self).has(key) by {
                        if self.has(key) {
                            let j = choose|j: int| 0 <= j < self.entries@.len() && (#[trigger] self.entries@[j]).0@ == key;
                            assert(old(self).entries@[j].0@ == key);
                        }
                        if old(self).has(key) {
                            let j = choose|j: int| 0 <= j < old(self).entries@.len() && (#[trigger] old(self).entries@[j]).0@ == key;
                            assert(self.entries@[j].0@ == key);
                        }
                    }
                    assert forall|key: Seq<char>| self.has(key) implies #[trigger] self.view()[key] == old_map.insert(ks, v)[key] by {
                        let j = self.index_of(key);
                        self.lemma_index(j);
                        if j != i {
                            old(self).lemma_index(j);
                        }
                    }
                    assert(self.view() =~= old_map.insert(ks, v));
                }
                Some(old_entry.1)
            },
            None => {
                let ghost ks = k@;
                self.entries.push((k, v));
                proof {
                    let n = self.entries@.len() - 1;
                    assert forall|a: int, b: int|
                        0 <= a < b < self.entries@.len() implies (#[trigger] self.entries@[a]).0@
                        != (#[trigger] self.entries@[b]).0@ by {
                        if b == n {
                            assert(old(self).entries@[a].0@ != ks) by {
                                if old(self).entries@[a].0@ == ks {
                                    assert(old(self).has(ks));
                                }
                            }
                        } else {
                            assert(old(self).entries@[a].0@ != old(self).entries@[b].0@);
                        }
                    }
                    assert forall|key: Seq<char>| #[trigger] self.has(key) == (old(self).has(key) || key == ks) by {
                        if self.has(key) {
                            let j = choose|j: int| 0 <= j < self.entries@.len() && (#[trigger] self.entries@[j]).0@ == key;
                            if j < n {
                                assert(old(self).entries@[j].0@ == key);
                            }
                        }
                        if old(self).has(key) {
                            let j = choose|j: int| 0 <= j < old(self).entries@.len() && (#[trigger] old(self).entries@[j]).0@ == key;
                            assert(self.entries@[j].0@ == key);
                        }
                        if key == ks {
                            assert(self.entries@[n].0@ == key);
                        }
                    }
                    assert forall|key: Seq<char>| self.has(key) implies #[trigger] self.view()[key] == old_map.insert(ks, v)[key] by {
                        let j = self.index_of(key);
                        self.lemma_index(j);
                        if j != n {
                            old(self).lemma_index(j);
                        }
                    }
                    assert(self.view() =~= old_map.insert(ks, v));
                }
                None
            },
        }
    }
}

impl<V> View for StrMap<V> {
    type V = Map<Seq<char>, V>;

    /// The map that the entries stand for.
    open spec fn view(&self) -> Map<Seq<char>, V> {
        Map::new(|k: Seq<char>| self.has(k), |k: Seq<char>| self.entries@[self.index_of(k)].1)
    }
}

impl StrMap<String> {
    /// A copy of the map.
    pub fn copy(&self) -> (r: Self)
        requires
            self.wf(),
        ensures
            r.wf(),
            r@ == self@,
    {
        let mut entries: Vec<(String, String)> = Vec::new();
        let mut i: usize = 0;
        while i < self.entries.len()
            invariant
                i <= self.entries@.len(),
                entries@.len() == i,
                forall|j: int| 0 <= j < i ==> #[trigger] entries@[j] == self.entries@[j],
            decreases self.entries.len() - i,
        {
            entries.push((self.entries[i].0.clone(), self.entries[i].1.clone()));
            i = i + 1;
        }
        let r = StrMap { entries };
        assert(r.entries@ =~= self.entries@);
        assert(r@ =~= self@);
        r
    }
}

/// A set of strings, kept as a vector of distinct items.
pub struct StrSet {
    pub items: Vec<String>,
}

impl StrSet {
    /// The items are distinct.
    pub open spec fn wf(&self) -> bool {
        forall|i: int, j: int|
            0 <= i < j < self.items@.len() ==> (#[trigger] self.items@[i])@ != (#[trigger] self.items@[j])@
    }


    /// An empty set.
    pub fn new() -> (r: Self)
        ensures
            r.wf(),
            r.view() == Set::<Seq<char>>::empty(),
    {
        let r = StrSet { items: Vec::new() };
        assert(r.view() =~= Set::<Seq<char>>::empty());
        r
    }

    /// The number of items.
    pub fn len(&self) -> (n: usize)
        requires
            self.wf(),
        ensures
            n == self.view().len(),
            n == self.items@.len(),
    {
        proof {
            self.lemma_len();
        }
        self.items.len()
    }

    pub proof fn lemma_len(&self)
        requires
            self.wf(),
        ensures
            self.view().finite(),
            self.view().len() == self.items@.len(),
    {
        let keys = Seq::new(self.items@.len(), |i: int| self.items@[i]@);
        assert forall|i: int, j: int| 0 <= i < keys.len() && 0 <= j < keys.len() && i != j implies keys[i] != keys[j] by {
            if i < j {
                assert(self.items@[i]@ != self.items@[j]@);
            } else {
                assert(self.items@[j]@ != self.items@[i]@);
            }
        }
        assert(keys.no_duplicates());
        assert(self.view() =~= keys.to_set()) by {
            assert forall|k: Seq<char>| self.view().contains(k) implies keys.to_set().contains(k) by {
                let i = choose|i: int| 0 <= i < self.items@.len() && (#[trigger] self.items@[i])@ == k;
                assert(keys[i] == k);
            }
            assert forall|k: Seq<char>| keys.to_set().contains(k) implies self.view().contains(k) by {
                let i = choose|i: int| 0 <= i < keys.len() && keys[i] == k;
                assert(self.items@[i]@ == k);
            }
        }
        keys.unique_seq_to_set();
    }

    fn find(&self, k: &String) -> (r: Option<usize>)
        ensures
            r matches Some(i) ==> i < self.items@.len() && self.items@[i as int]@ == k@,
            r is None ==> !self.view().contains(k@),
    {
        let mut i: usize = 0;
        while i < self.items.len()
            invariant
                i <= self.items@.len(),
                forall|j: int| 0 <= j < i ==> (#[trigger] self.items@[j])@ != k@,
            decreases self.items.len() - i,
        {
            if self.items[i] == *k {
                return Some(i);
            }
            i = i + 1;
        }
        None
    }

    /// Whether `k` is in the set.
    pub fn contains(&self, k: &String) -> (r: bool)
        ensures
            r == self.view().contains(k@),
    {
        match self.find(k) {
            Some(i) => {
                assert(self.view().contains(k@));
                true
            },
            None => false,
        }
    }

    /// Whether the set is empty.
    pub fn is_empty(&self) -> (r: bool)
        ensures
            r == (self.view() == Set::<Seq<char>>::empty()),
            r == (self.items@.len() == 0),
    {
        if self.items.len() == 0 {
            assert(self.view() =~= Set::<Seq<char>>::empty());
            true
        } else {
            assert(self.view().contains(self.items@[0]@));
            false
        }
    }

    /// Adds `k`; returns whether it was not in the set before.
    pub fn insert(&mut self, k: String) -> (r: bool)
        requires
            old(self).wf(),
        ensures
            final(self).wf(),
            final(self).view() == old(self).view().insert(k@),
            r == !old(self).view().contains(k@),
    {
        match self.find(&k) {
            Some(i) => {
                assert(self.view().contains(k@));
                assert(self.view().insert(k@) =~= self.view());
                false
            },
            None => {
                let ghost ks = k@;
                self.items.push(k);
                proof {
                    let n = self.items@.len() - 1;
                    assert forall|a: int, b: int|
                        0 <= a < b < self.items@.len() implies (#[trigger] self.items@[a])@
                        != (#[trigger] self.items@[b])@ by {
                        if b == n {
                            if old(self).items@[a]@ == ks {
                                assert(old(self).view().contains(ks));
                            }
                        } else {
                            assert(old(self).items@[a]@ != old(self).items@[b]@);
                        }
                    }
                    assert forall|key: Seq<char>| #[trigger] self.view().contains(key) == old(self).view().insert(ks).contains(key) by {
                        if self.view().contains(key) {
                            let j = choose|j: int| 0 <= j < self.items@.len() && (#[trigger] self.items@[j])@ == key;
                            if j < n {
                                assert(old(self).items@[j]@ == key);
                            }
                        }
                        if old(self).view().contains(key) {
                            let j = choose|j: int| 0 <= j < old(self).items@.len() && (#[trigger] old(self).items@[j])@ == key;
                            assert(self.items@[j]@ == key);
                        }
                        if key == ks {
                            assert(self.items@[n]@ == key);
                        }
                    }
                    assert(self.view() =~= old(self).view().insert(ks));
                }
                true
            },
        }
    }

    /// Removes `k`; returns whether it was in the set.
    pub fn remove(&mut self, k: &String) -> (r: bool)
        requires
            old(self).wf(),
        ensures
            final(self).wf(),
            final(self).view() == old(self).view().remove(k@),
            r == old(self).view().contains(k@),
    {
        match self.find(k) {
            None => {
                assert(self.view().remove(k@) =~= self.view());
                false
            },
            Some(i) => {
                let ghost ks = k@;
                self.items.remove(i);
                proof {
                    assert forall|a: int, b: int|
                        0 <= a < b < self.items@.len() implies (#[trigger] self.items@[a])@
                        != (#[trigger] self.items@[b])@ by {
                        let oa = if a < i { a } else { a + 1 };
                        let ob = if b < i { b } else { b + 1 };
                        assert(self.items@[a] == old(self).items@[oa]);
                        assert(self.items@[b] == old(self).items@[ob]);
                        assert(old(self).items@[oa]@ != old(self).items@[ob]@);
                    }
                    assert forall|key: Seq<char>| #[trigger] self.view().contains(key) == old(self).view().remove(ks).contains(key) by {
                        if self.view().contains(key) {
                            let j = choose|j: int| 0 <= j < self.items@.len() && (#[trigger] self.items@[j])@ == key;
                            let oj = if j < i { j } else { j + 1 };
                            assert(old(self).items@[oj]@ == key);
                            if key == ks {
                                if oj < i {
                                    assert(old(self).items@[oj]@ != old(self).items@[i as int]@);
                                } else {
                                    assert(old(self).items@[i as int]@ != old(self).items@[oj]@);
                                }
                            }
                        }
                        if old(self).view().contains(key) && key != ks {
                            let j = choose|j: int| 0 <= j < old(self).items@.len() && (#[trigger] old(self).items@[j])@ == key;
                            assert(j != i);
                            let nj = if j < i { j } else { j - 1 };
                            assert(self.items@[nj]@ == key);
                        }
                    }
                    assert(self.view() =~= old(self).view().remove(ks));
                }
                true
            },
        }
    }
}

impl View for StrSet {
    type V = Set<Seq<char>>;

    /// The set that the items stand for.
    open spec fn view(&self) -> Set<Seq<char>> {
        Set::new(|k: Seq<char>| exists|i: int| 0 <= i < self.items@.len() && (#[trigger] self.items@[i])@ == k)
    }
}

} // verus!
