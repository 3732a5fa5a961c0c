use vstd::prelude::*;

use crate::trait_ext::ValueEq;

verus! {

/// An association list with distinct keys, viewed as a `Map`. Backs the
/// long-lived stores that the tick driver mutates and worker results land in.
pub struct AssocVec<K, T> {
    entries: Vec<(K, T)>,
}

impl<K: ValueEq, T> AssocVec<K, T> {
    pub closed spec fn entries(&self) -> Seq<(K, T)> {
        self.entries@
    }

    pub open spec fn wf(&self) -> bool {
        forall|i: int, j: int|
            0 <= i < j < self.entries().len() ==> (#[trigger] self.entries()[i]).0 != (
            #[trigger] self.entries()[j]).0
    }

    pub open spec fn spec_contains(&self, k: K) -> bool {
        exists|i: int| 0 <= i < self.entries().len() && (#[trigger] self.entries()[i]).0 == k
    }

    pub open spec fn index_for(&self, k: K) -> int {
        choose|i: int| 0 <= i < self.entries().len() && (#[trigger] self.entries()[i]).0 == k
    }

    pub open spec fn view(&self) -> Map<K, T> {
        Map::new(|k: K| self.spec_contains(k), |k: K| self.entries()[self.index_for(k)].1)
    }

    /// The keys, in insertion order.
    pub open spec fn keys_seq(&self) -> Seq<K> {
        Seq::new(self.entries().len(), |i: int| self.entries()[i].0)
    }

    proof fn lemma_index_for(&self, k: K)
        requires
            self.wf(),
            self.spec_contains(k),
        ensures
            0 <= self.index_for(k) < self.entries().len(),
            self.entries()[self.index_for(k)].0 == k,
            forall|i: int|
                0 <= i < self.entries().len() && (#[trigger] self.entries()[i]).0 == k ==> i
                    == self.index_for(k),
    {
        let w = self.index_for(k);
        assert(0 <= w < self.entries().len() && self.entries()[w].0 == k);
        assert forall|i: int|
            0 <= i < self.entries().len() && (#[trigger] self.entries()[i]).0 == k implies i
            == w by {
            if i < w {
                assert(self.entries()[i].0 != self.entries()[w].0);
            } else if i > w {
                assert(self.entries()[w].0 != self.entries()[i].0);
            }
        }
    }

    pub fn new() -> (r: Self)
        ensures
            r.wf(),
            r@ == Map::<K, T>::empty(),
            r.entries() == Seq::<(K, T)>::empty(),
    {
        let r = AssocVec { entries: Vec::new() };
        proof {
            assert(r@ =~= Map::<K, T>::empty());
        }
        r
    }

    fn position_of(&self, key: &K) -> (r: Option<usize>)
        requires
            self.wf(),
        ensures
            match r {
                Some(i) => 0 <= i < self.entries().len() && self.entries()[i as int].0 == *key
                    && self.spec_contains(*key),
                None => !self.spec_contains(*key),
            },
    {
        let mut i: usize = 0;
        while i < self.entries.len()
            invariant
                0 <= i <= self.entries@.len(),
                forall|j: int| 0 <= j < i ==> (#[trigger] self.entries@[j]).0 != *key,
            decreases self.entries@.len() - i,
        {
            if self.entries[i].0.value_eq(*key) {
                return Some(i);
            }
            i = i + 1;
        }
        None
    }

    pub fn contains(&self, key: &K) -> (r: bool)
        requires
            self.wf(),
        ensures
            r == self@.dom().contains(*key),
    {
        self.position_of(key).is_some()
    }

    pub fn get(&self, key: &K) -> (r: Option<&T>)
        requires
            self.wf(),
        ensures
            match r {
                Some(v) => self@.dom().contains(*key) && *v == self@[*key],
                None => !self@.dom().contains(*key),
            },
    {
        match self.position_of(key) {
            Some(i) => {
                proof {
                    self.lemma_index_for(*key);
                }
                Some(&self.entries[i].1)
            },
            None => None,
        }
    }

    pub fn insert(&mut self, key: K, value: T)
        requires
            old(self).wf(),
        ensures
            final(self).wf(),
            final(self)@ == old(self)@.insert(key, value),
            old(self).spec_contains(key) ==> final(self).keys_seq() == old(self).keys_seq(),
            !old(self).spec_contains(key) ==> final(self).keys_seq() == old(self).keys_seq().push(
                key,
            ),
    {
        let ghost pre = *self;
        match self.position_of(&key) {
            Some(i) => {
                self.entries.set(i, (key, value));
                proof {
                    pre.lemma_index_for(key);
                    assert forall|k: K| true implies #[trigger] self.spec_contains(k)
                        == pre.spec_contains(k) by {
                        if pre.spec_contains(k) {
                            let j = pre.index_for(k);
                            pre.lemma_index_for(k);
                            assert(self.entries()[j].0 == k);
                        }
                        if self.spec_contains(k) {
                            let j = choose|j: int|
                                0 <= j < self.entries().len() && (#[trigger] self.entries()[j]).0
                                    == k;
                            assert(pre.entries()[j].0 == k || k == key);
                        }
                    }
                    assert forall|k: K| self.spec_contains(k) && k != key implies
                        self.entries()[self.index_for(k)].1 == pre.entries()[pre.index_for(k)].1
                        && self@.dom().contains(k) by {
                        self.lemma_index_for(k);
                        pre.lemma_index_for(k);
                        assert(self.entries()[pre.index_for(k)].0 == k);
                    }
                    if self.spec_contains(key) {
                        self.lemma_index_for(key);
                        assert(self.index_for(key) == i);
                    }
                    assert(final(self)@ =~= old(self)@.insert(key, value));
                    assert(final(self).keys_seq() =~= old(self).keys_seq());
                }
            },
            None => {
                self.entries.push((key, value));
                proof {
                    assert forall|k: K| pre.spec_contains(k) implies #[trigger] self.spec_contains(
                        k,
                    ) by {
                        let j = pre.index_for(k);
                        pre.lemma_index_for(k);
                        assert(self.entries()[j].0 == k);
                    }
                    assert(self.entries()[pre.entries().len() as int].0 == key);
                    assert forall|k: K| self.spec_contains(k) && k != key implies
                        pre.spec_contains(k) && self@.dom().contains(k) && self.entries()[
                            self.index_for(k)].1 == pre.entries()[pre.index_for(k)].1 by {
                        let j = choose|j: int|
                            0 <= j < self.entries().len() && (#[trigger] self.entries()[j]).0 == k;
                        assert(j < pre.entries().len());
                        assert(pre.entries()[j].0 == k);
                        self.lemma_index_for(k);
                        pre.lemma_index_for(k);
                        assert(self.entries()[pre.index_for(k)].0 == k);
                    }
                    if self.spec_contains(key) {
                        self.lemma_index_for(key);
                        assert(self.index_for(key) == pre.entries().len() as int);
                    }
                    assert(final(self)@ =~= old(self)@.insert(key, value));
                    assert(final(self).keys_seq() =~= old(self).keys_seq().push(key));
                }
            },
        }
    }

    pub fn remove(&mut self, key: &K) -> (r: Option<T>)
        requires
            old(self).wf(),
        ensures
            final(self).wf(),
            final(self)@ == old(self)@.remove(*key),
            r matches Some(v) ==> old(self)@.dom().contains(*key) && v == old(self)@[*key],
            r is None ==> !old(self)@.dom().contains(*key),
    {
        let ghost pre = *self;
        match self.position_of(key) {
            Some(i) => {
                let (_, v) = self.entries.remove(i);
                proof {
                    pre.lemma_index_for(*key);
                    pre.entries@.remove_ensures(i as int);
                    assert(pre.index_for(*key) == i);
                    assert forall|a: int, b: int|
                        0 <= a < b < self.entries().len() implies (#[trigger] self.entries()[a]).0
                        != (#[trigger] self.entries()[b]).0 by {
                        if a < i {
                            assert(pre.entries@.remove(i as int)[a] == pre.entries()[a]);
                        } else {
                            assert(pre.entries@.remove(i as int)[a] == pre.entries()[a + 1]);
                        }
                        if b < i {
                            assert(pre.entries@.remove(i as int)[b] == pre.entries()[b]);
                        } else {
                            assert(pre.entries@.remove(i as int)[b] == pre.entries()[b + 1]);
                        }
                    }
                    assert forall|k: K| self.spec_contains(k) implies pre.spec_contains(k) && k
                        != *key && self@.dom().contains(k) && self.entries()[self.index_for(k)].1
                        == pre.entries()[pre.index_for(k)].1 by {
                        let j = choose|j: int|
                            0 <= j < self.entries().len() && (#[trigger] self.entries()[j]).0 == k;
                        if j < i {
                            assert(pre.entries@.remove(i as int)[j] == pre.entries()[j]);
                            assert(pre.entries()[j].0 == k);
                            pre.lemma_index_for(k);
                        } else {
                            assert(pre.entries@.remove(i as int)[j] == pre.entries()[j + 1]);
                            assert(pre.entries()[j + 1].0 == k);
                            pre.lemma_index_for(k);
                        }
                        self.lemma_index_for(k);
                        let jp = pre.index_for(k);
                        if jp < i {
                            assert(pre.entries@.remove(i as int)[jp] == pre.entries()[jp]);
                            assert(self.entries()[jp].0 == k);
                        } else {
                            assert(jp > i);
                            assert(pre.entries@.remove(i as int)[jp - 1] == pre.entries()[jp]);
                            assert(self.entries()[jp - 1].0 == k);
                        }
                    }
                    assert forall|k: K| pre.spec_contains(k) && k != *key implies
                        #[trigger] self.spec_contains(k) by {
                        pre.lemma_index_for(k);
                        let jp = pre.index_for(k);
                        if jp < i {
                            assert(pre.entries@.remove(i as int)[jp] == pre.entries()[jp]);
                            assert(self.entries()[jp].0 == k);
                        } else {
                            assert(jp > i);
                            assert(pre.entries@.remove(i as int)[jp - 1] == pre.entries()[jp]);
                            assert(self.entries()[jp - 1].0 == k);
                        }
                    }
                    assert(final(self)@ =~= old(self)@.remove(*key));
                }
                Some(v)
            },
            None => {
                proof {
                    assert(final(self)@ =~= old(self)@.remove(*key));
                }
                None
            },
        }
    }

    pub fn len(&self) -> (r: usize)
        requires
            self.wf(),
        ensures
            r == self@.dom().len(),
            r == self.entries().len(),
    {
        proof {
            self.lemma_len();
        }
        self.entries.len()
    }

    pub fn is_empty(&self) -> (r: bool)
        requires
            self.wf(),
        ensures
            r == (self@.dom().len() == 0),
    {
        self.len() == 0
    }

    /// The map's domain has exactly one element per stored entry.
    pub proof fn lemma_len(&self)
        requires
            self.wf(),
        ensures
            self@.dom().len() == self.entries().len(),
            self@.dom().finite(),
    {
        assert(self.keys_seq().no_duplicates());
        self.keys_seq().unique_seq_to_set();
        assert forall|k: K| self.keys_seq().to_set().contains(k) implies self@.dom().contains(
            k,
        ) by {
            let j = choose|j: int| 0 <= j < self.keys_seq().len() && self.keys_seq()[j] == k;
            assert(self.entries()[j].0 == k);
        }
        assert forall|k: K| self@.dom().contains(k) implies self.keys_seq().to_set().contains(
            k,
        ) by {
            let j = choose|j: int|
                0 <= j < self.entries().len() && (#[trigger] self.entries()[j]).0 == k;
            assert(self.keys_seq()[j] == k);
        }
        assert(self@.dom() =~= self.keys_seq().to_set());
    }

    /// Every key now present, in insertion order.
    pub fn keys(&self) -> (r: Vec<K>)
        requires
            self.wf(),
        ensures
            r@ == self.keys_seq(),
            forall|i: int| 0 <= i < r@.len() ==> self@.dom().contains(#[trigger] r@[i]),
            forall|k: K| self@.dom().contains(k) ==> r@.contains(k),
    {
        let mut r: Vec<K> = Vec::new();
        let mut i: usize = 0;
        while i < self.entries.len()
            invariant
                0 <= i <= self.entries@.len(),
                r@.len() == i,
                forall|j: int| 0 <= j < i ==> r@[j] == (#[trigger] self.entries@[j]).0,
            decreases self.entries@.len() - i,
        {
            r.push(self.entries[i].0);
            i = i + 1;
        }
        proof {
            assert(r@ =~= self.keys_seq());
            assert forall|k: K| self@.dom().contains(k) implies r@.contains(k) by {
                let j = choose|j: int|
                    0 <= j < self.entries().len() && (#[trigger] self.entries()[j]).0 == k;
                assert(r@[j] == k);
            }
        }
        r
    }
}

} // verus!
