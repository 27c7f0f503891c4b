use vstd::prelude::*;

verus! {

/// An id-keyed record store: the keys are unique, and each key has one value.
pub struct Store<V> {
    keys: Vec<String>,
    vals: Vec<V>,
}

impl<V: View> Store<V> {
    /// The keys, in the order in which they were first inserted.
    pub closed spec fn key_seq(&self) -> Seq<Seq<char>> {
        self.keys@.map_values(|s: String| s@)
    }

    /// The values, position by position with `key_seq`.
    pub closed spec fn val_seq(&self) -> Seq<V> {
        self.vals@
    }

    pub open spec fn wf(&self) -> bool {
        &&& self.key_seq().len() == self.val_seq().len()
        &&& self.key_seq().no_duplicates()
    }

    /// The store as a map from key to value.
    pub open spec fn view(&self) -> Map<Seq<char>, V::V> {
        Map::new(
            |k: Seq<char>| self.key_seq().contains(k),
            |k: Seq<char>| self.val_seq()[self.key_seq().index_of(k)]@,
        )
    }

    pub proof fn lemma_view_at(&self, i: int)
        requires
            self.wf(),
            0 <= i < self.key_seq().len(),
        ensures
            self.view().contains_key(self.key_seq()[i]),
            self.view()[self.key_seq()[i]] == self.val_seq()[i]@,
    {
        let k = self.key_seq()[i];
        assert(self.key_seq().contains(k));
        let j = self.key_seq().index_of(k);
        assert(0 <= j < self.key_seq().len() && self.key_seq()[j] == k);
    }

    pub fn new() -> (r: Self)
        ensures
            r.wf(),
            r.view() == Map::<Seq<char>, V::V>::empty(),
            r.key_seq().len() == 0,
    {
        let r = Store { keys: Vec::new(), vals: Vec::new() };
        assert(r.view() =~= Map::<Seq<char>, V::V>::empty());
        r
    }

    pub fn len(&self) -> (r: usize)
        requires
            self.wf(),
        ensures
            r == self.key_seq().len(),
    {
        self.keys.len()
    }

    pub fn key_at(&self, i: usize) -> (r: &String)
        requires
            self.wf(),
            i < self.key_seq().len(),
        ensures
            r@ == self.key_seq()[i as int],
    {
        &self.keys[i]
    }

    pub fn value_at(&self, i: usize) -> (r: &V)
        requires
            self.wf(),
            i < self.key_seq().len(),
        ensures
            *r == self.val_seq()[i as int],
            r@ == self.view()[self.key_seq()[i as int]],
    {
        proof {
            self.lemma_view_at(i as int);
        }
        &self.vals[i]
    }

    /// The position of `k`, if the store holds it.
    pub fn find(&self, k: &String) -> (r: Option<usize>)
        requires
            self.wf(),
        ensures
            match r {
                Some(i) => i < self.key_seq().len() && self.key_seq()[i as int] == k@,
                None => !self.view().contains_key(k@),
            },
    {
        let n = self.keys.len();
        let mut i: usize = 0;
        while i < n
            invariant
                self.wf(),
                n == self.key_seq().len(),
                i <= n,
                forall|j: int| 0 <= j < i ==> self.key_seq()[j] != k@,
            decreases n - i,
        {
            if self.keys[i] == *k {
                return Some(i);
            }
            i = i + 1;
        }
        None
    }

    pub fn get(&self, k: &String) -> (r: Option<&V>)
        requires
            self.wf(),
        ensures
            match r {
                Some(v) => self.view().contains_key(k@) && v@ == self.view()[k@],
                None => !self.view().contains_key(k@),
            },
    {
        match self.find(k) {
            Some(i) => Some(self.value_at(i)),
            None => None,
        }
    }

    pub fn contains(&self, k: &String) -> (r: bool)
        requires
            self.wf(),
        ensures
            r == self.view().contains_key(k@),
    {
        match self.find(k) {
            Some(i) => {
                proof {
                    self.lemma_view_at(i as int);
                }
                true
            },
            None => false,
        }
    }

    /// Replaces the value at position `i`.
    pub fn update_at(&mut self, i: usize, v: V)
        requires
            old(self).wf(),
            i < old(self).key_seq().len(),
        ensures
            final(self).wf(),
            final(self).key_seq() == old(self).key_seq(),
            final(self).view() == old(self).view().insert(old(self).key_seq()[i as int], v@),
    {
        let ghost pre = *self;
        self.vals.set(i, v);
        proof {
            assert(self.key_seq() =~= pre.key_seq());
            let k = pre.key_seq()[i as int];
            assert forall|kk: Seq<char>| #[trigger] self.view().contains_key(kk) implies
                self.view()[kk] == pre.view().insert(k, v@)[kk] by {
                let j = self.key_seq().index_of(kk);
                self.lemma_view_at(j);
                pre.lemma_view_at(j);
            }
            assert(self.view() =~= pre.view().insert(k, v@));
        }
    }

    /// Sets the value of `k`, adding the key if it is new.
    pub fn insert(&mut self, k: String, v: V)
        requires
            old(self).wf(),
        ensures
            final(self).wf(),
            final(self).view() == old(self).view().insert(k@, v@),
    {
        match self.find(&k) {
            Some(i) => {
                self.update_at(i, v);
            },
            None => {
                let ghost pre = *self;
                let ghost vv = v@;
                self.keys.push(k);
                self.vals.push(v);
                proof {
                    let kv = self.keys@[self.keys@.len() - 1]@;
                    assert(self.key_seq() =~= pre.key_seq().push(kv));
                    assert(self.key_seq().no_duplicates()) by {
                        assert forall|a: int, b: int|
                            0 <= a < self.key_seq().len() && 0 <= b < self.key_seq().len() && a != b
                            implies self.key_seq()[a] != self.key_seq()[b] by {
                            if a == self.key_seq().len() - 1 {
                                assert(pre.key_seq().contains(pre.key_seq()[b]));
                            } else if b == self.key_seq().len() - 1 {
                                assert(pre.key_seq().contains(pre.key_seq()[a]));
                            }
                        }
                    }
                    let n = pre.key_seq().len() as int;
                    self.lemma_view_at(n);
                    assert forall|kk: Seq<char>| #[trigger] self.view().contains_key(kk) implies
                        self.view()[kk] == pre.view().insert(kv, vv)[kk] by {
                        let j = self.key_seq().index_of(kk);
                        self.lemma_view_at(j);
                        if j < n {
                            pre.lemma_view_at(j);
                        }
                    }
                    assert forall|kk: Seq<char>| #[trigger] pre.view().insert(kv, vv).contains_key(kk) implies
                        self.view().contains_key(kk) by {
                        if kk != kv {
                            let j = pre.key_seq().index_of(kk);
                            assert(self.key_seq()[j] == kk);
                        }
                    }
                    assert(self.view() =~= pre.view().insert(kv, vv));
                }
            },
        }
    }
    /// Deletes `k` and its value; a key that is absent leaves the store as it is.
    pub fn remove(&mut self, k: &String)
        requires
            old(self).wf(),
        ensures
            final(self).wf(),
            final(self).view() == old(self).view().remove(k@),
    {
        match self.find(k) {
            None => {
                assert(self.view() =~= self.view().remove(k@));
            },
            Some(i) => {
                let ghost pre = *self;
                self.keys.remove(i);
                self.vals.remove(i);
                proof {
                    let ks = pre.key_seq();
                    assert(self.key_seq() =~= ks.remove(i as int));
                    assert(self.key_seq().no_duplicates()) by {
                        assert forall|a: int, b: int|
                            0 <= a < self.key_seq().len() && 0 <= b < self.key_seq().len() && a != b
                            implies self.key_seq()[a] != self.key_seq()[b] by {
                            let a0 = if a < i { a } else { a + 1 };
                            let b0 = if b < i { b } else { b + 1 };
                            assert(self.key_seq()[a] == ks[a0]);
                            assert(self.key_seq()[b] == ks[b0]);
                        }
                    }
                    assert forall|kk: Seq<char>| #[trigger] self.view().contains_key(kk) implies
                        pre.view().remove(k@).contains_key(kk)
                        && self.view()[kk] == pre.view().remove(k@)[kk] by {
                        let j = self.key_seq().index_of(kk);
                        self.lemma_view_at(j);
                        let j0 = if j < i { j } else { j + 1 };
                        assert(ks[j0] == kk);
                        pre.lemma_view_at(j0);
                    }
                    assert forall|kk: Seq<char>| #[trigger] pre.view().remove(k@).contains_key(kk) implies
                        self.view().contains_key(kk) by {
                        let j0 = ks.index_of(kk);
                        assert(j0 != i);
                        let j = if j0 < i { j0 } else { j0 - 1 };
                        assert(self.key_seq()[j] == kk);
                    }
                    assert(self.view() =~= pre.view().remove(k@));
                }
            },
        }
    }
}

} // verus!
