use vstd::prelude::*;

use core::marker::PhantomData;

use crate::associated_ord::AssociatedOrd;
use crate::trait_ext::{order_key_le, order_key_lt, DistanceOrd, OrderKey, ValueEq};

verus! {

/// Common surface of the work queues: membership-managing containers that hand
/// out one item at a time. Each implementation states its own stronger
/// contract on top of these.
pub trait Queue<T> {
    spec fn inv(&self) -> bool;

    spec fn size(&self) -> nat;

    fn push(&mut self, value: T)
        requires
            old(self).inv(),
        ensures
            final(self).inv(),
;

    fn pop(&mut self) -> (r: Option<T>)
        requires
            old(self).inv(),
        ensures
            final(self).inv(),
;

    fn remove(&mut self, value: &T)
        requires
            old(self).inv(),
        ensures
            final(self).inv(),
;

    fn len(&self) -> (r: usize)
        requires
            self.inv(),
        ensures
            r == self.size(),
;

    fn is_empty(&self) -> (r: bool)
        requires
            self.inv(),
        ensures
            r == (self.size() == 0),
;
}

/// A set of pending items in insertion order: pushing an already present item
/// is a no-op, popping removes the most recently inserted item.
pub struct UnorderedQueue<T, M> {
    inner: Vec<T>,
    marker: PhantomData<M>,
}

impl<T: ValueEq, M> UnorderedQueue<T, M> {
    /// The pending items, oldest first.
    pub closed spec fn contents(&self) -> Seq<T> {
        self.inner@
    }

    /// No item occurs twice.
    pub open spec fn wf(&self) -> bool {
        forall|i: int, j: int|
            0 <= i < j < self.contents().len() ==> self.contents()[i] != self.contents()[j]
    }

    pub fn new() -> (r: Self)
        ensures
            r.wf(),
            r.contents() == Seq::<T>::empty(),
    {
        UnorderedQueue { inner: Vec::new(), marker: PhantomData }
    }

    fn position_of(&self, value: &T) -> (r: Option<usize>)
        ensures
            match r {
                Some(i) => 0 <= i < self.contents().len() && self.contents()[i as int] == *value,
                None => !self.contents().contains(*value),
            },
    {
        let mut i: usize = 0;
        while i < self.inner.len()
            invariant
                0 <= i <= self.inner@.len(),
                forall|j: int| 0 <= j < i ==> self.inner@[j] != *value,
            decreases self.inner@.len() - i,
        {
            if self.inner[i].value_eq(*value) {
                return Some(i);
            }
            i = i + 1;
        }
        assert(!self.inner@.contains(*value));
        None
    }
}

impl<T: ValueEq, M> Queue<T> for UnorderedQueue<T, M> {
    open spec fn inv(&self) -> bool {
        self.wf()
    }

    open spec fn size(&self) -> nat {
        self.contents().len()
    }

    fn push(&mut self, value: T)
        ensures
            old(self).contents().contains(value) ==> final(self).contents() == old(self).contents(),
            !old(self).contents().contains(value) ==> final(self).contents() == old(self).contents().push(value),
    {
        if self.position_of(&value).is_none() {
            self.inner.push(value);
        }
    }

    fn pop(&mut self) -> (r: Option<T>)
        ensures
            old(self).contents().len() == 0 ==> r is None && final(self).contents() == old(self).contents(),
            old(self).contents().len() > 0 ==> r == Some(old(self).contents().last()) && final(self).contents() == old(self).contents().drop_last(),
    {
        self.inner.pop()
    }

    fn remove(&mut self, value: &T)
        ensures
            !old(self).contents().contains(*value) ==> final(self).contents() == old(self).contents(),
            old(self).contents().contains(*value) ==> exists|i: int|
                0 <= i < old(self).contents().len() && old(self).contents()[i] == *value && final(self).contents() == old(self).contents().remove(i),
    {
        if let Some(i) = self.position_of(value) {
            self.inner.remove(i);
        }
    }

    fn len(&self) -> (r: usize)
        ensures
            r == self.size(),
    {
        self.inner.len()
    }

    fn is_empty(&self) -> (r: bool)
        ensures
            r == (self.size() == 0),
    {
        self.inner.len() == 0
    }
}

impl<T: ValueEq, M> UnorderedQueue<T, M> {
    /// Takes every pending item out at once, oldest first.
    pub fn drain(&mut self) -> (r: Vec<T>)
        requires
            old(self).wf(),
        ensures
            final(self).wf(),
            r@ == old(self).contents(),
            final(self).contents() == Seq::<T>::empty(),
    {
        let mut taken: Vec<T> = Vec::new();
        core::mem::swap(&mut taken, &mut self.inner);
        taken
    }
}

impl<T: ValueEq, M> Default for UnorderedQueue<T, M> {
    fn default() -> (r: Self)
        ensures
            r.wf(),
            r.contents() == Seq::<T>::empty(),
    {
        UnorderedQueue { inner: Vec::new(), marker: PhantomData }
    }
}

/// Entries stand in strictly ascending key order, so every key occurs at most
/// once.
pub open spec fn entries_sorted<T>(entries: Seq<AssociatedOrd<T, OrderKey>>) -> bool {
    forall|i: int, j: int|
        0 <= i < j < entries.len() ==> order_key_lt(
            #[trigger] entries[i].ord,
            #[trigger] entries[j].ord,
        )
}

/// Every entry carries exactly the key its value derives from the given center.
pub open spec fn entries_keyed<T: DistanceOrd>(
    entries: Seq<AssociatedOrd<T, OrderKey>>,
    center: T,
) -> bool {
    forall|i: int|
        0 <= i < entries.len() ==> (#[trigger] entries[i]).ord
            == entries[i].value.distance_ord_spec(center)
}

/// The set of values the entries carry.
pub open spec fn entry_values<T>(entries: Seq<AssociatedOrd<T, OrderKey>>) -> Set<T> {
    Set::new(|t: T| exists|i: int| 0 <= i < entries.len() && (#[trigger] entries[i]).value == t)
}

/// A queue of key-ranked entries, kept sorted by ascending order key; pushing
/// a key already present is a no-op, popping takes the least key first.
pub struct OrderedQueue<T> {
    inner: Vec<AssociatedOrd<T, OrderKey>>,
}

impl<T> OrderedQueue<T> {
    /// The entries, in ascending key order.
    pub closed spec fn entries(&self) -> Seq<AssociatedOrd<T, OrderKey>> {
        self.inner@
    }

    pub open spec fn wf(&self) -> bool {
        entries_sorted(self.entries())
    }

    pub open spec fn has_key(&self, k: OrderKey) -> bool {
        exists|i: int| 0 <= i < self.entries().len() && (#[trigger] self.entries()[i]).ord == k
    }

    pub fn new() -> (r: Self)
        ensures
            r.wf(),
            r.entries() == Seq::<AssociatedOrd<T, OrderKey>>::empty(),
    {
        OrderedQueue { inner: Vec::new() }
    }
}

impl<T> Queue<AssociatedOrd<T, OrderKey>> for OrderedQueue<T> {
    open spec fn inv(&self) -> bool {
        self.wf()
    }

    open spec fn size(&self) -> nat {
        self.entries().len()
    }

    fn push(&mut self, e: AssociatedOrd<T, OrderKey>)
        ensures
            old(self).has_key(e.ord) ==> final(self).entries() == old(self).entries(),
            !old(self).has_key(e.ord) ==> exists|i: int|
                0 <= i <= old(self).entries().len() && final(self).entries() == old(self).entries().insert(i, e),
    {
        let mut i: usize = 0;
        while i < self.inner.len() && self.inner[i].ord.lt(e.ord)
            invariant
                0 <= i <= self.inner@.len(),
                self.inner@ == old(self).inner@,
                forall|j: int| 0 <= j < i ==> order_key_lt((#[trigger] self.inner@[j]).ord, e.ord),
            decreases self.inner@.len() - i,
        {
            i = i + 1;
        }
        if i < self.inner.len() && self.inner[i].ord == e.ord {
            assert(old(self).has_key(e.ord));
        } else {
            proof {
                assert forall|j: int| 0 <= j < self.inner@.len() implies (#[trigger] self.inner@[j]).ord
                    != e.ord by {
                    if j < i {
                        assert(order_key_lt(self.inner@[j].ord, e.ord));
                    } else {
                        if i < self.inner@.len() {
                            crate::trait_ext::lemma_order_key_total(self.inner@[i as int].ord, e.ord);
                            assert(order_key_lt(e.ord, self.inner@[i as int].ord));
                            if j > i {
                                crate::trait_ext::lemma_order_key_transitive(
                                    e.ord,
                                    self.inner@[i as int].ord,
                                    self.inner@[j].ord,
                                );
                            }
                        }
                    }
                }
                assert(!old(self).has_key(e.ord));
            }
            let ghost pre = self.inner@;
            self.inner.insert(i, e);
            proof {
                pre.insert_ensures(i as int, e);
                assert forall|a: int, b: int| 0 <= a < b < self.inner@.len() implies order_key_lt(
                    (#[trigger] self.inner@[a]).ord,
                    (#[trigger] self.inner@[b]).ord,
                ) by {
                    if i < pre.len() {
                        crate::trait_ext::lemma_order_key_total(pre[i as int].ord, e.ord);
                    }
                    if a == i {
                        assert(self.inner@[a] == e);
                    } else if b == i {
                        assert(self.inner@[b] == e);
                    }
                    if a > i {
                        assert(self.inner@[a] == pre[a - 1]);
                    }
                    if b > i {
                        assert(self.inner@[b] == pre[b - 1]);
                    }
                    if b < i {
                        assert(order_key_lt(pre[a].ord, pre[b].ord));
                    }
                }
            }
        }
    }

    fn pop(&mut self) -> (r: Option<AssociatedOrd<T, OrderKey>>)
        ensures
            old(self).entries().len() == 0 ==> r is None && final(self).entries() == old(self).entries(),
            old(self).entries().len() > 0 ==> r == Some(old(self).entries()[0]) && final(self).entries() == old(self).entries().subrange(1, old(self).entries().len() as int)
                && forall|j: int|
                0 <= j < old(self).entries().len() ==> order_key_le(
                    old(self).entries()[0].ord,
                    (#[trigger] old(self).entries()[j]).ord,
                ),
    {
        if self.inner.len() == 0 {
            None
        } else {
            let e = self.inner.remove(0);
            proof {
                assert(final(self).entries() =~= old(self).entries().subrange(
                    1,
                    old(self).entries().len() as int,
                ));
            }
            Some(e)
        }
    }

    /// Removes the entry carrying the given key, if one is present.
    fn remove(&mut self, e: &AssociatedOrd<T, OrderKey>)
        ensures
            !old(self).has_key(e.ord) ==> final(self).entries() == old(self).entries(),
            old(self).has_key(e.ord) ==> exists|i: int|
                0 <= i < old(self).entries().len() && (#[trigger] old(self).entries()[i]).ord
                    == e.ord && final(self).entries() == old(self).entries().remove(i),
    {
        let mut i: usize = 0;
        while i < self.inner.len()
            invariant
                0 <= i <= self.inner@.len(),
                self.inner@ == old(self).inner@,
                entries_sorted(self.inner@),
                forall|j: int| 0 <= j < i ==> (#[trigger] self.inner@[j]).ord != e.ord,
            decreases self.inner@.len() - i,
        {
            if self.inner[i].ord == e.ord {
                let ghost pre = self.inner@;
                self.inner.remove(i);
                proof {
                    pre.remove_ensures(i as int);
                    assert forall|a: int, b: int| 0 <= a < b < self.inner@.len() implies
                        order_key_lt(
                        (#[trigger] self.inner@[a]).ord,
                        (#[trigger] self.inner@[b]).ord,
                    ) by {
                        if a < i {
                            assert(pre.remove(i as int)[a] == pre[a]);
                        } else {
                            assert(pre.remove(i as int)[a] == pre[a + 1]);
                        }
                        if b < i {
                            assert(pre.remove(i as int)[b] == pre[b]);
                        } else {
                            assert(pre.remove(i as int)[b] == pre[b + 1]);
                        }
                    }
                }
                return ;
            }
            i = i + 1;
        }
    }

    fn len(&self) -> (r: usize)
        ensures
            r == self.entries().len(),
    {
        self.inner.len()
    }

    fn is_empty(&self) -> (r: bool)
        ensures
            r == (self.entries().len() == 0),
    {
        self.inner.len() == 0
    }
}

/// Sorted entries keyed to one center never carry the same value twice.
proof fn lemma_entry_values_distinct<T: DistanceOrd>(
    entries: Seq<AssociatedOrd<T, OrderKey>>,
    center: T,
)
    requires
        entries_sorted(entries),
        entries_keyed(entries, center),
    ensures
        forall|i: int, j: int|
            0 <= i < j < entries.len() ==> (#[trigger] entries[i]).value != (
            #[trigger] entries[j]).value,
{
    assert forall|i: int, j: int| 0 <= i < j < entries.len() implies (#[trigger] entries[i]).value
        != (#[trigger] entries[j]).value by {
        if entries[i].value == entries[j].value {
            assert(entries[i].ord == entries[j].ord);
            assert(order_key_lt(entries[i].ord, entries[j].ord));
        }
    }
}

/// Inserting an entry adds exactly its value to the value set.
proof fn lemma_entry_values_insert<T>(
    entries: Seq<AssociatedOrd<T, OrderKey>>,
    i: int,
    e: AssociatedOrd<T, OrderKey>,
)
    requires
        0 <= i <= entries.len(),
    ensures
        entry_values(entries.insert(i, e)) == entry_values(entries).insert(e.value),
{
    entries.insert_ensures(i, e);
    let with_e = entries.insert(i, e);
    assert forall|t: T| entry_values(with_e).contains(t) implies entry_values(entries).insert(
        e.value,
    ).contains(t) by {
        let j = choose|j: int| 0 <= j < with_e.len() && (#[trigger] with_e[j]).value == t;
        if j < i {
            assert(entries[j].value == t);
        } else if j > i {
            assert(entries[j - 1].value == t);
        }
    }
    assert forall|t: T| entry_values(entries).insert(e.value).contains(t) implies entry_values(
        with_e,
    ).contains(t) by {
        if t == e.value {
            assert(with_e[i].value == t);
        } else {
            let j = choose|j: int| 0 <= j < entries.len() && (#[trigger] entries[j]).value == t;
            if j < i {
                assert(with_e[j].value == t);
            } else {
                assert(with_e[j + 1].value == t);
            }
        }
    }
    assert(entry_values(entries.insert(i, e)) =~= entry_values(entries).insert(e.value));
}

/// Removing an entry takes exactly its value out of the value set, provided
/// no other entry carries the same value.
proof fn lemma_entry_values_remove<T>(entries: Seq<AssociatedOrd<T, OrderKey>>, i: int)
    requires
        0 <= i < entries.len(),
        forall|a: int, b: int|
            0 <= a < b < entries.len() ==> (#[trigger] entries[a]).value != (
            #[trigger] entries[b]).value,
    ensures
        entry_values(entries.remove(i)) == entry_values(entries).remove(entries[i].value),
{
    entries.remove_ensures(i);
    let without = entries.remove(i);
    assert forall|t: T| entry_values(without).contains(t) implies entry_values(entries).remove(
        entries[i].value,
    ).contains(t) by {
        let j = choose|j: int| 0 <= j < without.len() && (#[trigger] without[j]).value == t;
        if j < i {
            assert(entries[j].value == t);
        } else {
            assert(entries[j + 1].value == t);
        }
    }
    assert forall|t: T| entry_values(entries).remove(entries[i].value).contains(t) implies
        entry_values(without).contains(t) by {
        let j = choose|j: int| 0 <= j < entries.len() && (#[trigger] entries[j]).value == t;
        if j < i {
            assert(without[j].value == t);
        } else if j > i {
            assert(without[j - 1].value == t);
        }
    }
    assert(entry_values(entries.remove(i)) =~= entry_values(entries).remove(entries[i].value));
}

/// A queue of coordinates ordered by squared distance to a movable center,
/// nearest first; the coordinate itself serves as a deterministic tie-break.
pub struct DistanceOrderedQueue<T, M> {
    inner: OrderedQueue<T>,
    center: T,
    marker: PhantomData<M>,
}

impl<T: DistanceOrd, M> DistanceOrderedQueue<T, M> {
    pub closed spec fn entries(&self) -> Seq<AssociatedOrd<T, OrderKey>> {
        self.inner.entries()
    }

    pub closed spec fn center(&self) -> T {
        self.center
    }

    pub open spec fn wf(&self) -> bool {
        entries_sorted(self.entries()) && entries_keyed(self.entries(), self.center())
    }

    /// The set of coordinates now pending.
    pub open spec fn contents(&self) -> Set<T> {
        entry_values(self.entries())
    }

    pub fn new(center: T) -> (r: Self)
        ensures
            r.wf(),
            r.center() == center,
            r.contents() == Set::<T>::empty(),
    {
        let r = DistanceOrderedQueue {
            inner: OrderedQueue::new(),
            center,
            marker: PhantomData,
        };
        proof {
            assert(r.contents() =~= Set::<T>::empty());
        }
        r
    }

    /// Re-ranks every pending coordinate against a new center. The set of
    /// pending coordinates is unchanged; only the order changes.
    pub fn update_center(&mut self, center: T)
        requires
            old(self).wf(),
        ensures
            final(self).wf(),
            final(self).center() == center,
            final(self).contents() == old(self).contents(),
    {
        let mut rebuilt: OrderedQueue<T> = OrderedQueue::new();
        proof {
            assert(entry_values(rebuilt.entries()).union(entry_values(self.inner.entries()))
                =~= entry_values(old(self).entries()));
        }
        while self.inner.len() > 0
            invariant
                entries_sorted(self.inner.entries()),
                entries_keyed(self.inner.entries(), old(self).center()),
                entries_sorted(rebuilt.entries()),
                entries_keyed(rebuilt.entries(), center),
                entry_values(rebuilt.entries()).union(entry_values(self.inner.entries()))
                    == entry_values(old(self).entries()),
            decreases self.inner.entries().len(),
        {
            let ghost pre_inner = self.inner.entries();
            let ghost pre_rebuilt = rebuilt.entries();
            let e = match self.inner.pop() {
                Some(e) => e,
                None => vstd::pervasive::unreached(),
            };
            let value = e.as_value();
            let key = value.distance_ord(center);
            rebuilt.push(AssociatedOrd::new(value, key));
            proof {
                lemma_entry_values_distinct(pre_inner, old(self).center());
                lemma_entry_values_remove(pre_inner, 0);
                assert(self.inner.entries() =~= pre_inner.remove(0));
                let ghost vnew = AssociatedOrd { value, ord: key };
                if exists|i: int|
                    0 <= i < pre_rebuilt.len() && (#[trigger] pre_rebuilt[i]).ord == key {
                    let i = choose|i: int|
                        0 <= i < pre_rebuilt.len() && (#[trigger] pre_rebuilt[i]).ord == key;
                    pre_rebuilt[i].value.lemma_distance_ord_injective(value, center);
                    assert(entry_values(pre_rebuilt).contains(value));
                    assert(rebuilt.entries() == pre_rebuilt);
                } else {
                    let i = choose|i: int|
                        0 <= i <= pre_rebuilt.len() && rebuilt.entries() == pre_rebuilt.insert(
                            i,
                            vnew,
                        );
                    lemma_entry_values_insert(pre_rebuilt, i, vnew);
                    assert forall|j: int| 0 <= j < rebuilt.entries().len() implies (
                    #[trigger] rebuilt.entries()[j]).ord == rebuilt.entries()[j].value.distance_ord_spec(
                        center,
                    ) by {
                        pre_rebuilt.insert_ensures(i, vnew);
                    }
                }
                assert(entry_values(rebuilt.entries()).union(entry_values(self.inner.entries()))
                    =~= entry_values(old(self).entries()));
            }
        }
        self.inner = rebuilt;
        self.center = center;
        proof {
            assert(final(self).contents() =~= old(self).contents());
        }
    }
}

impl<T: DistanceOrd + Default, M> Default for DistanceOrderedQueue<T, M> {
    /// An empty queue centred on the element type's default origin.
    fn default() -> (r: Self)
        ensures
            r.wf(),
            r.contents() == Set::<T>::empty(),
    {
        let r = DistanceOrderedQueue {
            inner: OrderedQueue::new(),
            center: T::default(),
            marker: PhantomData,
        };
        proof {
            assert(r.contents() =~= Set::<T>::empty());
        }
        r
    }
}

impl<T: DistanceOrd, M> Queue<T> for DistanceOrderedQueue<T, M> {
    open spec fn inv(&self) -> bool {
        self.wf()
    }

    open spec fn size(&self) -> nat {
        self.entries().len()
    }

    fn push(&mut self, value: T)
        ensures
            final(self).center() == old(self).center(),
            final(self).contents() == old(self).contents().insert(value),
    {
        let key = value.distance_ord(self.center);
        let e = AssociatedOrd::new(value, key);
        let ghost pre = self.inner.entries();
        self.inner.push(e);
        proof {
            if exists|i: int| 0 <= i < pre.len() && (#[trigger] pre[i]).ord == key {
                let i = choose|i: int| 0 <= i < pre.len() && (#[trigger] pre[i]).ord == key;
                pre[i].value.lemma_distance_ord_injective(value, old(self).center());
                assert(entry_values(pre).contains(value));
                assert(final(self).contents() =~= old(self).contents().insert(value));
            } else {
                let i = choose|i: int|
                    0 <= i <= pre.len() && self.inner.entries() == pre.insert(i, e);
                lemma_entry_values_insert(pre, i, e);
                assert forall|j: int| 0 <= j < self.inner.entries().len() implies (
                #[trigger] self.inner.entries()[j]).ord
                    == self.inner.entries()[j].value.distance_ord_spec(old(self).center()) by {
                    pre.insert_ensures(i, e);
                }
            }
        }
    }

    fn pop(&mut self) -> (r: Option<T>)
        ensures
            final(self).center() == old(self).center(),
            old(self).entries().len() == 0 ==> r is None && final(self).contents() == old(
                self,
            ).contents() && final(self).size() == old(self).size(),
            old(self).entries().len() > 0 ==> final(self).size() == old(self).size() - 1,
            old(self).entries().len() > 0 ==> (r matches Some(v) && old(self).contents().contains(
                v,
            ) && (forall|u: T|
                old(self).contents().contains(u) ==> order_key_le(
                    v.distance_ord_spec(old(self).center()),
                    #[trigger] u.distance_ord_spec(old(self).center()),
                )) && final(self).contents() == old(self).contents().remove(v)),
    {
        let ghost pre = self.inner.entries();
        match self.inner.pop() {
            None => None,
            Some(e) => {
                proof {
                    lemma_entry_values_distinct(pre, old(self).center());
                    lemma_entry_values_remove(pre, 0);
                    assert(self.inner.entries() =~= pre.remove(0));
                    assert(entry_values(pre).contains(e.value)) by {
                        assert(pre[0].value == e.value);
                    }
                    assert forall|u: T| old(self).contents().contains(u) implies order_key_le(
                        e.value.distance_ord_spec(old(self).center()),
                        #[trigger] u.distance_ord_spec(old(self).center()),
                    ) by {
                        let j = choose|j: int| 0 <= j < pre.len() && (#[trigger] pre[j]).value == u;
                        assert(order_key_le(pre[0].ord, pre[j].ord));
                    }
                    assert(final(self).contents() =~= old(self).contents().remove(e.value));
                }
                Some(e.as_value())
            },
        }
    }

    fn remove(&mut self, value: &T)
        ensures
            final(self).center() == old(self).center(),
            final(self).contents() == old(self).contents().remove(*value),
    {
        let key = value.distance_ord(self.center);
        let e = AssociatedOrd::new(*value, key);
        let ghost pre = self.inner.entries();
        self.inner.remove(&e);
        proof {
            lemma_entry_values_distinct(pre, old(self).center());
            if exists|i: int| 0 <= i < pre.len() && (#[trigger] pre[i]).ord == key {
                let i = choose|i: int|
                    0 <= i < pre.len() && (#[trigger] pre[i]).ord == key && self.inner.entries()
                        == pre.remove(i);
                pre[i].value.lemma_distance_ord_injective(*value, old(self).center());
                lemma_entry_values_remove(pre, i);
            } else {
                assert forall|j: int| 0 <= j < pre.len() implies (#[trigger] pre[j]).value
                    != *value by {
                    if pre[j].value == *value {
                        assert(pre[j].ord == key);
                    }
                }
                assert(!entry_values(pre).contains(*value));
                assert(final(self).contents() =~= old(self).contents().remove(*value));
            }
        }
    }

    fn len(&self) -> (r: usize)
        ensures
            r == self.size(),
    {
        self.inner.len()
    }

    fn is_empty(&self) -> (r: bool)
        ensures
            r == (self.size() == 0),
    {
        self.inner.is_empty()
    }
}

/// Priority correctness: when a pop hands out `v1` and the next pop hands out
/// `v2`, with the center unmoved in between, `v1` is never farther from the
/// center than `v2`. The two minimality premises are exactly what two
/// successive calls of `pop` ensure.
pub proof fn lemma_pop_distance_monotonic<T: DistanceOrd>(s: Set<T>, center: T, v1: T, v2: T)
    requires
        s.contains(v1),
        forall|u: T|
            s.contains(u) ==> order_key_le(
                v1.distance_ord_spec(center),
                #[trigger] u.distance_ord_spec(center),
            ),
        s.remove(v1).contains(v2),
        forall|u: T|
            s.remove(v1).contains(u) ==> order_key_le(
                v2.distance_ord_spec(center),
                #[trigger] u.distance_ord_spec(center),
            ),
    ensures
        v1.distance_squared_spec(center) <= v2.distance_squared_spec(center),
{
    assert(s.contains(v2));
    assert(order_key_le(v1.distance_ord_spec(center), v2.distance_ord_spec(center)));
    v1.lemma_distance_ord_distance(center);
    v2.lemma_distance_ord_distance(center);
}

} // verus!
