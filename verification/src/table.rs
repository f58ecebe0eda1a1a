//! A small finite map keyed by strings, the store behind the registry, the
//! pool and the directory.

use vstd::prelude::*;

verus! {

/// A finite map from strings to values. No key is held twice.
pub struct Table<V> {
    keys: Vec<String>,
    vals: Vec<V>,
}

impl<V: View> View for Table<V> {
    type V = Map<Seq<char>, V::V>;

    closed spec fn view(&self) -> Map<Seq<char>, V::V> {
        Map::new(|k: Seq<char>| self.has(k), |k: Seq<char>| self.vals[self.slot(k)]@)
    }
}

impl<V: View> Table<V> {
    /// The two vectors run in parallel and the keys are pairwise distinct.
    pub closed spec fn wf(&self) -> bool {
        &&& self.keys.len() == self.vals.len()
        &&& forall|i: int, j: int|
            0 <= i < j < self.keys.len() ==> self.keys[i]@ != self.keys[j]@
    }

    spec fn has(&self, k: Seq<char>) -> bool {
        exists|i: int| 0 <= i < self.keys.len() && (#[trigger] self.keys[i])@ == k
    }

    spec fn slot(&self, k: Seq<char>) -> int {
        choose|i: int| 0 <= i < self.keys.len() && (#[trigger] self.keys[i])@ == k
    }

    /// The number of entries.
    pub closed spec fn spec_len(&self) -> nat {
        self.keys.len() as nat
    }

    /// The key of the entry at position `i`.
    pub closed spec fn spec_key(&self, i: int) -> Seq<char> {
        self.keys[i]@
    }

    proof fn lemma_slots(&self)
        requires
            self.wf(),
        ensures
            forall|i: int|
                0 <= i < self.keys.len() ==> self@.contains_key((#[trigger] self.keys[i])@)
                    && self@[self.keys[i]@] == self.vals[i]@,
            forall|k: Seq<char>| #[trigger]
                self@.contains_key(k) ==> 0 <= self.slot(k) < self.keys.len()
                    && self.keys[self.slot(k)]@ == k,
    {
        assert forall|i: int| 0 <= i < self.keys.len() implies self@.contains_key(
            (#[trigger] self.keys[i])@,
        ) && self@[self.keys[i]@] == self.vals[i]@ by {
            let k = self.keys[i]@;
            assert(self.has(k));
            let j = self.slot(k);
            assert(0 <= j < self.keys.len() && self.keys[j]@ == k);
            assert(j == i);
        }
    }

    /// Every key of the view sits at some position, and every position holds
    /// a key of the view.
    pub proof fn lemma_enumerated(&self)
        requires
            self.wf(),
        ensures
            forall|k: Seq<char>| #[trigger]
                self@.contains_key(k) ==> exists|i: int|
                    0 <= i < self.spec_len() && #[trigger] self.spec_key(i) == k,
            forall|i: int|
                0 <= i < self.spec_len() ==> self@.contains_key(#[trigger] self.spec_key(i)),
    {
        self.lemma_slots();
        assert forall|k: Seq<char>| #[trigger] self@.contains_key(k) implies exists|i: int|
            0 <= i < self.spec_len() && #[trigger] self.spec_key(i) == k by {
            assert(self.spec_key(self.slot(k)) == k);
        }
        assert forall|i: int| 0 <= i < self.spec_len() implies self@.contains_key(
            #[trigger] self.spec_key(i),
        ) by {
            assert(self@.contains_key(self.keys[i]@));
        }
    }

    pub fn new() -> (t: Self)
        ensures
            t.wf(),
            t@ == Map::<Seq<char>, V::V>::empty(),
    {
        let t = Table { keys: Vec::new(), vals: Vec::new() };
        assert(t@ =~= Map::<Seq<char>, V::V>::empty());
        t
    }

    pub fn len(&self) -> (n: usize)
        ensures
            n == self.spec_len(),
    {
        self.keys.len()
    }

    /// The value of the entry at position `i`.
    pub fn value_at(&self, i: usize) -> (v: &V)
        requires
            self.wf(),
            i < self.spec_len(),
        ensures
            self@.contains_key(self.spec_key(i as int)),
            v@ == self@[self.spec_key(i as int)],
    {
        proof {
            self.lemma_slots();
            assert(self@.contains_key(self.keys[i as int]@));
        }
        &self.vals[i]
    }

    fn position(&self, key: &String) -> (r: Option<usize>)
        requires
            self.wf(),
        ensures
            match r {
                Some(i) => i < self.keys.len() && self.keys[i as int]@ == key@,
                None => !self@.contains_key(key@),
            },
    {
        let mut i: usize = 0;
        while i < self.keys.len()
            invariant
                i <= self.keys.len(),
                forall|j: int| 0 <= j < i ==> (#[trigger] self.keys[j])@ != key@,
            decreases self.keys.len() - i,
        {
            if self.keys[i] == *key {
                return Some(i);
            }
            i += 1;
        }
        None
    }

    pub fn contains_key(&self, key: &String) -> (b: bool)
        requires
            self.wf(),
        ensures
            b == self@.contains_key(key@),
    {
        proof {
            self.lemma_slots();
        }
        match self.position(key) {
            Some(i) => {
                assert(self@.contains_key(self.keys[i as int]@));
                true
            },
            None => false,
        }
    }

    pub fn get(&self, key: &String) -> (r: Option<&V>)
        requires
            self.wf(),
        ensures
            match r {
                Some(v) => self@.contains_key(key@) && v@ == self@[key@],
                None => !self@.contains_key(key@),
            },
    {
        proof {
            self.lemma_slots();
        }
        match self.position(key) {
            Some(i) => {
                assert(self@.contains_key(self.keys[i as int]@));
                Some(&self.vals[i])
            },
            None => None,
        }
    }

    /// Binds `key` to `val`; an earlier value of `key` is replaced.
    pub fn insert(&mut self, key: String, val: V)
        requires
            old(self).wf(),
        ensures
            final(self).wf(),
            final(self)@ == old(self)@.insert(key@, val@),
    {
        proof {
            self.lemma_slots();
        }
        match self.position(&key) {
            Some(i) => {
                self.vals.set(i, val);
                proof {
                    self.lemma_slots();
                    assert(self.keys == old(self).keys);
                    assert forall|k: Seq<char>| #[trigger]
                        self@.contains_key(k) implies old(self)@.insert(key@, val@).contains_key(
                        k,
                    ) by {
                        assert(old(self)@.contains_key(old(self).keys[self.slot(k)]@));
                    }
                    assert forall|k: Seq<char>| #[trigger]
                        old(self)@.insert(key@, val@).contains_key(k) implies self@.contains_key(
                        k,
                    ) && self@[k] == old(self)@.insert(key@, val@)[k] by {
                        if k == key@ {
                            assert(self@.contains_key(self.keys[i as int]@));
                        } else {
                            let j = old(self).slot(k);
                            assert(self@.contains_key(self.keys[j]@));
                        }
                    }
                    assert(self@ =~= old(self)@.insert(key@, val@));
                }
            },
            None => {
                self.keys.push(key);
                self.vals.push(val);
                proof {
                    let n = old(self).keys.len() as int;
                    assert forall|i: int, j: int| 0 <= i < j < self.keys.len() implies self.keys[i]@
                        != self.keys[j]@ by {
                        if j == n {
                            assert(old(self)@.contains_key(old(self).keys[i]@));
                        }
                    }
                    self.lemma_slots();
                    assert forall|k: Seq<char>| #[trigger]
                        self@.contains_key(k) implies old(self)@.insert(key@, val@).contains_key(
                        k,
                    ) by {
                        let j = self.slot(k);
                        if j < n {
                            assert(old(self)@.contains_key(old(self).keys[j]@));
                        }
                    }
                    assert forall|k: Seq<char>| #[trigger]
                        old(self)@.insert(key@, val@).contains_key(k) implies self@.contains_key(
                        k,
                    ) && self@[k] == old(self)@.insert(key@, val@)[k] by {
                        if k == key@ {
                            assert(self@.contains_key(self.keys[n]@));
                        } else {
                            let j = old(self).slot(k);
                            assert(self@.contains_key(self.keys[j]@));
                        }
                    }
                    assert(self@ =~= old(self)@.insert(key@, val@));
                }
            },
        }
    }

    /// Takes the entry of `key` out, where there is one.
    pub fn remove(&mut self, key: &String) -> (r: Option<V>)
        requires
            old(self).wf(),
        ensures
            final(self).wf(),
            final(self)@ == old(self)@.remove(key@),
            match r {
                Some(v) => old(self)@.contains_key(key@) && v@ == old(self)@[key@],
                None => !old(self)@.contains_key(key@),
            },
    {
        proof {
            self.lemma_slots();
        }
        match self.position(key) {
            Some(i) => {
                let _ = self.keys.remove(i);
                let v = self.vals.remove(i);
                proof {
                    assert(old(self)@.contains_key(old(self).keys[i as int]@));
                    assert forall|a: int, b: int| 0 <= a < b < self.keys.len() implies self.keys[a]@
                        != self.keys[b]@ by {
                        let a0 = if a < i { a } else { a + 1 };
                        let b0 = if b < i { b } else { b + 1 };
                        assert(self.keys[a] == old(self).keys[a0]);
                        assert(self.keys[b] == old(self).keys[b0]);
                    }
                    self.lemma_slots();
                    assert forall|k: Seq<char>| #[trigger]
                        self@.contains_key(k) implies old(self)@.remove(key@).contains_key(k)
                        && self@[k] == old(self)@.remove(key@)[k] by {
                        let j = self.slot(k);
                        let j0 = if j < i { j } else { j + 1 };
                        assert(self.keys[j] == old(self).keys[j0]);
                        assert(self.vals[j] == old(self).vals[j0]);
                        assert(old(self)@.contains_key(old(self).keys[j0]@));
                        assert(self@.contains_key(self.keys[j]@));
                    }
                    assert forall|k: Seq<char>| #[trigger]
                        old(self)@.remove(key@).contains_key(k) implies self@.contains_key(k) by {
                        let j0 = old(self).slot(k);
                        let j = if j0 < i { j0 } else { j0 - 1 };
                        assert(self.keys[j] == old(self).keys[j0]);
                        assert(self@.contains_key(self.keys[j]@));
                    }
                    assert(self@ =~= old(self)@.remove(key@));
                }
                Some(v)
            },
            None => {
                proof {
                    assert(self@ =~= old(self)@.remove(key@));
                }
                None
            },
        }
    }
}

} // verus!
