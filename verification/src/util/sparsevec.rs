//! A vector whose slots stay in place: a removed item leaves a hole that the
//! next pushed item fills.

use vstd::prelude::*;

verus! {

/// A vector with holes. Slots never move, so an index stays valid for as
/// long as its item lives.
pub struct SparseVec<T> {
    items: Vec<Option<T>>,
    free_indices: Vec<usize>,
}

/// `free` lists slots below `n`, each of them once.
pub open spec fn is_free_list(free: Seq<usize>, n: nat) -> bool {
    &&& free.no_duplicates()
    &&& forall|k: int| 0 <= k < free.len() ==> (#[trigger] free[k]) < n
}

/// A list of distinct slots below `n` has at most `n` entries, and one with
/// `n` entries names every slot.
pub proof fn lemma_free_list_full(free: Seq<usize>, n: nat)
    requires
        is_free_list(free, n),
    ensures
        free.len() <= n,
        free.len() >= n ==> forall|i: usize| i < n ==> free.contains(i),
{
    let f = |x: usize| x as int;
    let ints = free.map_values(f);
    assert(vstd::relations::injective(f));
    free.lemma_no_duplicates_injective(f);
    ints.unique_seq_to_set();
    vstd::set_lib::lemma_int_range(0, n as int);
    let range = vstd::set_lib::set_int_range(0, n as int);
    assert(ints.to_set().subset_of(range)) by {
        assert forall|x: int| ints.to_set().contains(x) implies range.contains(x) by {
            let k = choose|k: int| 0 <= k < ints.len() && ints[k] == x;
            assert(ints[k] == free[k] as int);
        }
    }
    vstd::seq_lib::seq_to_set_is_finite(ints);
    vstd::set_lib::lemma_len_subset(ints.to_set(), range);
    if free.len() >= n {
        vstd::set_lib::lemma_subset_equality(ints.to_set(), range);
        assert forall|i: usize| i < n implies free.contains(i) by {
            assert(range.contains(i as int));
            assert(ints.to_set().contains(i as int));
            let k = choose|k: int| 0 <= k < ints.len() && ints[k] == i as int;
            assert(free[k] == i);
        }
    }
}

impl<T> SparseVec<T> {
    /// The slots in order, `None` for a hole.
    pub closed spec fn view(&self) -> Seq<Option<T>> {
        self.items@
    }

    /// The holes, most recently opened last.
    pub closed spec fn free(&self) -> Seq<usize> {
        self.free_indices@
    }

    /// The free list names exactly the holes.
    pub closed spec fn wf(&self) -> bool {
        &&& is_free_list(self.free_indices@, self.items@.len())
        &&& forall|i: int|
            0 <= i < self.items@.len() ==> ((#[trigger] self.items@[i]) is None
                <==> self.free_indices@.contains(i as usize))
    }

    /// What well-formedness says, in terms of the public view.
    pub proof fn lemma_wf(&self)
        requires
            self.wf(),
        ensures
            is_free_list(self.free(), self@.len()),
            forall|i: int|
                0 <= i < self@.len() ==> ((#[trigger] self@[i]) is None <==> self.free().contains(
                    i as usize,
                )),
    {
    }

    /// No slot holds an item.
    pub open spec fn spec_is_empty(&self) -> bool {
        forall|i: int| 0 <= i < self@.len() ==> (#[trigger] self@[i]) is None
    }

    /// A vector without slots.
    pub fn new() -> (v: Self)
        ensures
            v.wf(),
            v@ == Seq::<Option<T>>::empty(),
            v.free() == Seq::<usize>::empty(),
    {
        SparseVec { items: Vec::new(), free_indices: Vec::new() }
    }

    /// Whether no slot holds an item.
    pub fn is_empty(&self) -> (b: bool)
        requires
            self.wf(),
        ensures
            b == self.spec_is_empty(),
    {
        let slots = self.items.len();
        proof {
            lemma_free_list_full(self.free_indices@, self.items@.len());
            if self.free_indices@.len() < self.items@.len() {
                // fewer holes than slots: some slot is not a hole
                if self.spec_is_empty() {
                    let n = self.items@.len();
                    let all = Seq::new(n, |i: int| i as usize);
                    assert forall|i: int| 0 <= i < n implies self.free_indices@.contains(
                        #[trigger] all[i],
                    ) by {
                        assert(self.items@[i] is None);
                    }
                    assert(n <= usize::MAX);
                    assert forall|i: int, j: int|
                        0 <= i < all.len() && 0 <= j < all.len() && i != j implies all[i]
                        != all[j] by {}
                    lemma_distinct_within(all, self.free_indices@);
                }
            }
        }
        self.free_indices.len() >= self.items.len()
    }

    /// The number of slots, holes included.
    pub fn len(&self) -> (n: usize)
        ensures
            n == self@.len(),
    {
        self.items.len()
    }

    /// The item in slot `index`, if the slot exists and is no hole.
    pub fn get(&self, index: usize) -> (item: Option<&T>)
        ensures
            index < self@.len() ==> item == match self@[index as int] {
                Some(t) => Some(&t),
                None => None,
            },
            index >= self@.len() ==> item is None,
    {
        if index < self.items.len() {
            self.items[index].as_ref()
        } else {
            None
        }
    }

    /// Puts `item` into the most recently opened hole, or into a new slot at
    /// the end when there is no hole. Returns the slot.
    pub fn push(&mut self, item: T) -> (index: usize)
        requires
            old(self).wf(),
        ensures
            final(self).wf(),
            old(self).free().len() > 0 ==> index == old(self).free().last() && final(self).free()
                == old(self).free().drop_last() && final(self)@ == old(self)@.update(
                index as int,
                Some(item),
            ),
            old(self).free().len() == 0 ==> index == old(self)@.len() && final(self).free()
                == old(self).free() && final(self)@ == old(self)@.push(Some(item)),
            final(self)@.len() >= old(self)@.len(),
            index < final(self)@.len(),
            final(self)@[index as int] == Some(item),
            forall|i: int|
                0 <= i < final(self)@.len() && i != index ==> i < old(self)@.len()
                    && #[trigger] final(self)@[i] == old(self)@[i],
    {
        if self.free_indices.len() > 0 {
            let slots = self.items.len();
            let index = self.free_indices.pop().unwrap();
            let ghost free = self.free_indices@;
            assert(old(self).free_indices@[free.len() as int] == index);
            self.items[index] = Some(item);
            proof {
                assert(slots == self.items@.len());
                assert(!free.contains(index)) by {
                    if free.contains(index) {
                        let k = choose|k: int| 0 <= k < free.len() && free[k] == index;
                        assert(old(self).free_indices@[k] == index);
                    }
                }
                assert forall|i: int| 0 <= i < self.items@.len() implies ((
                #[trigger] self.items@[i]) is None <==> free.contains(i as usize)) by {
                    if i != index {
                        assert(self.items@[i] == old(self).items@[i]);
                        if old(self).free_indices@.contains(i as usize) {
                            let k = choose|k: int|
                                0 <= k < old(self).free_indices@.len()
                                    && old(self).free_indices@[k] == i as usize;
                            assert(k != free.len());
                            assert(free[k] == i as usize);
                        }
                        if free.contains(i as usize) {
                            let k = choose|k: int| 0 <= k < free.len() && free[k] == i as usize;
                            assert(old(self).free_indices@[k] == i as usize);
                        }
                    }
                }
                assert forall|k: int| 0 <= k < free.len() implies (#[trigger] free[k])
                    < self.items@.len() by {
                    assert(free[k] == old(self).free_indices@[k]);
                }
            }
            index
        } else {
            let index = self.items.len();
            self.items.push(Some(item));
            proof {
                assert forall|i: int| 0 <= i < self.items@.len() implies ((
                #[trigger] self.items@[i]) is None <==> self.free_indices@.contains(
                    i as usize,
                )) by {
                    if i < index {
                        assert(self.items@[i] == old(self).items@[i]);
                    }
                }
            }
            index
        }
    }

    /// Pushes every item of `other`, first to last, and leaves `other` empty.
    pub fn append(&mut self, other: &mut Vec<T>)
        requires
            old(self).wf(),
        ensures
            final(self).wf(),
            final(other)@.len() == 0,
            (final(self)@, final(self).free()) == appended(
                old(self)@,
                old(self).free(),
                old(other)@,
            ),
            final(self).occupied() == old(self).occupied() + old(other)@.len(),
    {
        let ghost total = old(other)@.len();
        while other.len() > 0
            invariant
                self.wf(),
                other@.len() <= total,
                self.occupied() == old(self).occupied() + total - other@.len(),
                appended(self@, self.free(), other@) == appended(
                    old(self)@,
                    old(self).free(),
                    old(other)@,
                ),
            decreases other@.len(),
        {
            let ghost rest = other@;
            let item = other.remove(0);
            let ghost before = *self;
            let index = self.push(item);
            proof {
                before.lemma_occupied_push(*self, index, item);
                assert(other@ =~= rest.skip(1));
                assert(rest[0] == item);
                assert((self@, self.free()) == pushed(before@, before.free(), item));
            }
        }
    }

    /// The number of slots that hold an item.
    pub open spec fn occupied(&self) -> nat {
        count_some(self@)
    }

    /// Pushing an item raises the number of items by one.
    pub proof fn lemma_occupied_push(&self, after: Self, index: usize, item: T)
        requires
            self.wf(),
            (index < self@.len() && self@[index as int] is None && after@ == self@.update(
                index as int,
                Some(item),
            )) || (index == self@.len() && after@ == self@.push(Some(item))),
        ensures
            after.occupied() == self.occupied() + 1,
    {
        if index < self@.len() {
            lemma_count_update(self@, index as int, Some(item));
        } else {
            assert(after@.drop_last() == self@);
        }
    }

    /// Empties slot `index` and hands out what was in it.
    pub fn remove(&mut self, index: usize) -> (item: Option<T>)
        requires
            old(self).wf(),
        ensures
            final(self).wf(),
            index < old(self)@.len() ==> item == old(self)@[index as int] && final(self)@
                == old(self)@.update(index as int, None),
            index >= old(self)@.len() ==> item is None && final(self)@ == old(self)@,
            item is Some ==> final(self).free() == old(self).free().push(index),
            item is None ==> final(self).free() == old(self).free(),
    {
        if index >= self.items.len() {
            return None;
        }
        let item = self.items[index].take();
        if item.is_some() {
            self.free_indices.push(index);
            proof {
                let free = self.free_indices@;
                let old_free = old(self).free_indices@;
                assert(!old_free.contains(index));
                assert forall|i: int, j: int| 0 <= i < j < free.len() implies free[i]
                    != free[j] by {
                    if j == old_free.len() {
                        assert(old_free[i] == free[i]);
                    } else {
                        assert(old_free[i] == free[i] && old_free[j] == free[j]);
                    }
                }
                assert forall|i: int| 0 <= i < self.items@.len() implies ((
                #[trigger] self.items@[i]) is None <==> free.contains(i as usize)) by {
                    if i == index {
                        assert(free[old_free.len() as int] == index);
                    } else {
                        assert(self.items@[i] == old(self).items@[i]);
                        if old_free.contains(i as usize) {
                            let k = choose|k: int|
                                0 <= k < old_free.len() && old_free[k] == i as usize;
                            assert(free[k] == i as usize);
                        }
                        if free.contains(i as usize) {
                            let k = choose|k: int| 0 <= k < free.len() && free[k] == i as usize;
                            assert(old_free[k] == i as usize);
                        }
                    }
                }
            }
        } else {
            assert(self.items@ == old(self).items@);
        }
        item
    }

    /// Keeps the items of which `keep` says `true` and opens a hole for each
    /// of the others, going through the slots in order.
    pub fn retain<F: Fn(&T) -> bool>(&mut self, keep: F)
        requires
            old(self).wf(),
            forall|t: &T| #[trigger] keep.requires((t,)),
        ensures
            final(self).wf(),
            final(self)@.len() == old(self)@.len(),
            forall|i: int|
                0 <= i < old(self)@.len() ==> match (#[trigger] old(self)@[i]) {
                    None => final(self)@[i] is None,
                    Some(t) => if keep.ensures((&t,), true) {
                        final(self)@[i] == old(self)@[i] || keep.ensures((&t,), false)
                    } else {
                        final(self)@[i] is None
                    },
                },
            forall|i: int|
                0 <= i < old(self)@.len() && (#[trigger] final(self)@[i]) is Some
                    ==> final(self)@[i]
                    == old(self)@[i] && keep.ensures((&old(self)@[i]->0,), true),
    {
        let n = self.items.len();
        let mut i: usize = 0;
        while i < n
            invariant
                self.wf(),
                n == self.items@.len(),
                n == old(self).items@.len(),
                i <= n,
                forall|t: &T| #[trigger] keep.requires((t,)),
                forall|j: int| i <= j < n ==> (#[trigger] self.items@[j]) == old(self).items@[j],
                forall|j: int|
                    0 <= j < i ==> match (#[trigger] old(self).items@[j]) {
                        None => self.items@[j] is None,
                        Some(t) => if keep.ensures((&t,), true) {
                            self.items@[j] == old(self).items@[j] || keep.ensures((&t,), false)
                        } else {
                            self.items@[j] is None
                        },
                    },
                forall|j: int|
                    0 <= j < i && (#[trigger] self.items@[j]) is Some ==> self.items@[j]
                        == old(self).items@[j] && keep.ensures((&old(self).items@[j]->0,), true),
            decreases n - i,
        {
            let kept = match &self.items[i] {
                Some(item) => keep(item),
                None => true,
            };
            if !kept {
                let ghost before = self.items@;
                let _ = self.remove(i);
                assert forall|j: int| i < j < n implies (#[trigger] self.items@[j])
                    == old(self).items@[j] by {
                    assert(before[j] == old(self).items@[j]);
                }
                assert forall|j: int| 0 <= j < i implies (#[trigger] self.items@[j])
                    == before[j] by {}
            }
            i += 1;
        }
    }
}

/// The slots and the holes after `item` was pushed: it is in the hole that
/// was opened last, or in a new slot at the end where there was no hole.
pub open spec fn pushed<T>(slots: Seq<Option<T>>, free: Seq<usize>, item: T) -> (
    Seq<Option<T>>,
    Seq<usize>,
) {
    if free.len() > 0 {
        (slots.update(free.last() as int, Some(item)), free.drop_last())
    } else {
        (slots.push(Some(item)), free)
    }
}

/// The slots and the holes after the items were pushed, first to last.
pub open spec fn appended<T>(slots: Seq<Option<T>>, free: Seq<usize>, items: Seq<T>) -> (
    Seq<Option<T>>,
    Seq<usize>,
)
    decreases items.len(),
{
    if items.len() == 0 {
        (slots, free)
    } else {
        let next = pushed(slots, free, items[0]);
        appended(next.0, next.1, items.skip(1))
    }
}

/// The number of `Some` entries of a sequence.
pub open spec fn count_some<T>(s: Seq<Option<T>>) -> nat
    decreases s.len(),
{
    if s.len() == 0 {
        0
    } else {
        count_some(s.drop_last()) + if s.last() is Some {
            1nat
        } else {
            0nat
        }
    }
}

/// Filling a hole raises the count of items by one.
pub proof fn lemma_count_update<T>(s: Seq<Option<T>>, i: int, item: Option<T>)
    requires
        0 <= i < s.len(),
        s[i] is None,
        item is Some,
    ensures
        count_some(s.update(i, item)) == count_some(s) + 1,
    decreases s.len(),
{
    let u = s.update(i, item);
    if i == s.len() - 1 {
        assert(u.drop_last() == s.drop_last());
    } else {
        assert(u.drop_last() == s.drop_last().update(i, item));
        lemma_count_update(s.drop_last(), i, item);
    }
}

/// Distinct values that all occur in `within` are no more than `within` is long.
pub proof fn lemma_distinct_within(all: Seq<usize>, within: Seq<usize>)
    requires
        all.no_duplicates(),
        forall|i: int| 0 <= i < all.len() ==> within.contains(#[trigger] all[i]),
    ensures
        all.len() <= within.len(),
{
    all.unique_seq_to_set();
    vstd::seq_lib::seq_to_set_is_finite(all);
    vstd::seq_lib::seq_to_set_is_finite(within);
    assert(all.to_set().subset_of(within.to_set())) by {
        assert forall|x: usize| all.to_set().contains(x) implies within.to_set().contains(x) by {
            let k = choose|k: int| 0 <= k < all.len() && all[k] == x;
            assert(within.contains(all[k]));
        }
    }
    vstd::set_lib::lemma_len_subset(all.to_set(), within.to_set());
    within.lemma_cardinality_of_set();
}

} // verus!
