use vstd::prelude::*;

verus! {

/// A key of a storage map: a plain value whose equality can be tested.
pub trait StorageKey: Sized {
    fn same_key(&self, other: &Self) -> (same: bool)
        ensures
            same == (*self == *other),
    ;
}

impl StorageKey for u32 {
    fn same_key(&self, other: &Self) -> (same: bool) {
        *self == *other
    }
}

impl StorageKey for u64 {
    fn same_key(&self, other: &Self) -> (same: bool) {
        *self == *other
    }
}

impl StorageKey for (u32, u64) {
    fn same_key(&self, other: &Self) -> (same: bool) {
        self.0 == other.0 && self.1 == other.1
    }
}

impl StorageKey for (u64, u32) {
    fn same_key(&self, other: &Self) -> (same: bool) {
        self.0 == other.0 && self.1 == other.1
    }
}

/// A keyed storage item: at most one value per key.
pub struct StorageMap<K, V> {
    entries: Vec<(K, V)>,
}

impl<K: StorageKey, V> StorageMap<K, V> {
    /// The position of `k` among the entries, when it is there.
    closed spec fn holds_at(self, k: K, i: int) -> bool {
        0 <= i < self.entries@.len() && self.entries@[i].0 == k
    }

    closed spec fn has_key(self, k: K) -> bool {
        exists|i: int| self.holds_at(k, i)
    }

    closed spec fn position_of(self, k: K) -> int {
        choose|i: int| self.holds_at(k, i)
    }

    /// No key occurs twice.
    pub closed spec fn wf(self) -> bool {
        forall|i: int, j: int|
            0 <= i < self.entries@.len() && 0 <= j < self.entries@.len() && #[trigger] self.entries@[i].0
                == #[trigger] self.entries@[j].0 ==> i == j
    }

    /// The contents as a mathematical map.
    pub closed spec fn view(self) -> Map<K, V> {
        Map::new(|k: K| self.has_key(k), |k: K| self.entries@[self.position_of(k)].1)
    }

    proof fn lemma_lookup(self, k: K, i: int)
        requires
            self.wf(),
            self.holds_at(k, i),
        ensures
            self.view().contains_key(k),
            self.view()[k] == self.entries@[i].1,
    {
        assert(self.has_key(k));
        let p = self.position_of(k);
        assert(self.holds_at(k, p));
    }

    /// Only finitely many keys are stored.
    pub proof fn lemma_view_finite(self)
        ensures
            self.view().dom().finite(),
    {
        let keys = self.entries@.map_values(|e: (K, V)| e.0);
        vstd::seq_lib::seq_to_set_is_finite(keys);
        assert forall|k: K| #[trigger] self.view().dom().contains(k) implies keys.to_set().contains(k) by {
            let i = self.position_of(k);
            assert(self.holds_at(k, i));
            assert(keys[i] == k);
        }
        vstd::set_lib::lemma_set_subset_finite(keys.to_set(), self.view().dom());
    }

    pub fn new() -> (m: Self)
        ensures
            m.wf(),
            m.view() == Map::<K, V>::empty(),
    {
        let m = StorageMap { entries: Vec::new() };
        assert(m.view() =~= Map::<K, V>::empty());
        m
    }

    fn position(&self, k: &K) -> (r: Option<usize>)
        ensures
            match r {
                Some(i) => self.holds_at(*k, i as int),
                None => !self.has_key(*k),
            },
    {
        let mut i: usize = 0;
        while i < self.entries.len()
            invariant
                i <= self.entries@.len(),
                forall|j: int| 0 <= j < i ==> !self.holds_at(*k, j),
            decreases self.entries@.len() - i,
        {
            if self.entries[i].0.same_key(k) {
                return Some(i);
            }
            i = i + 1;
        }
        None
    }

    pub fn contains_key(&self, k: &K) -> (b: bool)
        requires
            self.wf(),
        ensures
            b == self.view().contains_key(*k),
    {
        self.position(k).is_some()
    }

    pub fn get(&self, k: &K) -> (r: Option<&V>)
        requires
            self.wf(),
        ensures
            match r {
                Some(v) => self.view().contains_key(*k) && *v == self.view()[*k],
                None => !self.view().contains_key(*k),
            },
    {
        match self.position(k) {
            Some(i) => {
                proof {
                    self.lemma_lookup(*k, i as int);
                }
                Some(&self.entries[i].1)
            },
            None => None,
        }
    }

    pub fn insert(&mut self, k: K, v: V)
        requires
            old(self).wf(),
        ensures
            final(self).wf(),
            final(self).view() == old(self).view().insert(k, v),
    {
        let ghost old_map = *self;
        match self.position(&k) {
            Some(i) => {
                self.entries.set(i, (k, v));
                proof {
                    assert forall|key: K| #[trigger] self.view().contains_key(key)
                        == old_map.view().insert(k, v).contains_key(key) by {
                        if key == k {
                            assert(self.holds_at(key, i as int));
                        } else if old_map.has_key(key) {
                            let p = old_map.position_of(key);
                            assert(self.holds_at(key, p));
                        } else if self.has_key(key) {
                            let p = self.position_of(key);
                            assert(old_map.holds_at(key, p));
                        }
                    }
                    assert forall|key: K| #[trigger] self.view().contains_key(key) implies self.view()[key]
                        == old_map.view().insert(k, v)[key] by {
                        if key == k {
                            self.lemma_lookup(key, i as int);
                        } else {
                            let p = self.position_of(key);
                            assert(self.holds_at(key, p));
                            assert(old_map.holds_at(key, p));
                            old_map.lemma_lookup(key, p);
                            self.lemma_lookup(key, p);
                        }
                    }
                    assert(self.view() =~= old_map.view().insert(k, v));
                }
            },
            None => {
                self.entries.push((k, v));
                proof {
                    let n = old_map.entries@.len() as int;
                    assert(self.holds_at(k, n));
                    assert forall|a: int, b: int|
                        0 <= a < self.entries@.len() && 0 <= b < self.entries@.len()
                            && #[trigger] self.entries@[a].0 == #[trigger] self.entries@[b].0 implies a
                        == b by {
                        if a < n && b < n {
                            assert(old_map.entries@[a].0 == old_map.entries@[b].0);
                        } else if a < n {
                            assert(old_map.holds_at(k, a));
                        } else if b < n {
                            assert(old_map.holds_at(k, b));
                        }
                    }
                    assert forall|key: K| #[trigger] self.view().contains_key(key)
                        == old_map.view().insert(k, v).contains_key(key) by {
                        if key == k {
                        } else if old_map.has_key(key) {
                            let p = old_map.position_of(key);
                            assert(self.holds_at(key, p));
                        } else if self.has_key(key) {
                            let p = self.position_of(key);
                            assert(old_map.holds_at(key, p));
                        }
                    }
                    assert forall|key: K| #[trigger] self.view().contains_key(key) implies self.view()[key]
                        == old_map.view().insert(k, v)[key] by {
                        if key == k {
                            self.lemma_lookup(key, n);
                        } else {
                            let p = self.position_of(key);
                            assert(self.holds_at(key, p));
                            assert(old_map.holds_at(key, p));
                            old_map.lemma_lookup(key, p);
                            self.lemma_lookup(key, p);
                        }
                    }
                    assert(self.view() =~= old_map.view().insert(k, v));
                }
            },
        }
    }

    pub fn remove(&mut self, k: &K) -> (r: Option<V>)
        requires
            old(self).wf(),
        ensures
            final(self).wf(),
            final(self).view() == old(self).view().remove(*k),
            match r {
                Some(v) => old(self).view().contains_key(*k) && v == old(self).view()[*k],
                None => !old(self).view().contains_key(*k),
            },
    {
        let ghost old_map = *self;
        match self.position(k) {
            Some(i) => {
                proof {
                    old_map.lemma_lookup(*k, i as int);
                }
                let (_, v) = self.entries.remove(i);
                proof {
                    assert forall|a: int, b: int|
                        0 <= a < self.entries@.len() && 0 <= b < self.entries@.len()
                            && #[trigger] self.entries@[a].0 == #[trigger] self.entries@[b].0 implies a
                        == b by {
                        let a0 = if a < i { a } else { a + 1 };
                        let b0 = if b < i { b } else { b + 1 };
                        assert(old_map.entries@[a0].0 == old_map.entries@[b0].0);
                    }
                    assert forall|key: K| #[trigger] self.view().contains_key(key)
                        == old_map.view().remove(*k).contains_key(key) by {
                        if self.has_key(key) {
                            let p = self.position_of(key);
                            let p0 = if p < i { p } else { p + 1 };
                            assert(old_map.holds_at(key, p0));
                            assert(key != *k);
                        } else if key != *k && old_map.has_key(key) {
                            let p0 = old_map.position_of(key);
                            assert(p0 != i);
                            let p = if p0 < i { p0 } else { p0 - 1 };
                            assert(self.holds_at(key, p));
                        }
                    }
                    assert forall|key: K| #[trigger] self.view().contains_key(key) implies self.view()[key]
                        == old_map.view().remove(*k)[key] by {
                        let p = self.position_of(key);
                        assert(self.holds_at(key, p));
                        let p0 = if p < i { p } else { p + 1 };
                        assert(old_map.holds_at(key, p0));
                        old_map.lemma_lookup(key, p0);
                        self.lemma_lookup(key, p);
                    }
                    assert(self.view() =~= old_map.view().remove(*k));
                }
                Some(v)
            },
            None => {
                proof {
                    assert(old_map.view() =~= old_map.view().remove(*k));
                }
                None
            },
        }
    }
}

impl<K: StorageKey, V: Copy> StorageMap<K, V> {
    /// The value under `k`, or `default` where there is none.
    pub fn get_or(&self, k: &K, default: V) -> (v: V)
        requires
            self.wf(),
        ensures
            v == (if self.view().contains_key(*k) {
                self.view()[*k]
            } else {
                default
            }),
    {
        match self.get(k) {
            Some(v) => *v,
            None => default,
        }
    }
}

} // verus!
