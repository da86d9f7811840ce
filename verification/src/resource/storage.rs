//! The resources of a world, each behind a latch of its own, and the
//! registry of them behind one more.

use vstd::prelude::*;
use crate::util::rwlock::{RwLock, RwLockInner, RwLockReadGuard, RwLockWriteGuard, WRITE_LOCKED};
use crate::Poll;

verus! {

/// The cell of one resource.
pub struct ResourceCell<V> {
    value: V,
}

impl<V> ResourceCell<V> {
    /// The value of the resource.
    pub closed spec fn view(&self) -> V {
        self.value
    }

    /// A cell with the given value.
    pub fn new(resource: V) -> (cell: Self)
        ensures
            cell@ == resource,
    {
        ResourceCell { value: resource }
    }

    /// The value of the resource.
    pub fn get_ref(&self) -> (resource: &V)
        ensures
            *resource == self@,
    {
        &self.value
    }

    /// The value of the resource, to change.
    pub fn get_mut(&mut self) -> (resource: &mut V)
        ensures
            *resource == old(self)@,
            final(self)@ == *final(resource),
    {
        &mut self.value
    }

    /// Takes the cell apart.
    pub fn read(self) -> (resource: V)
        ensures
            resource == self@,
    {
        self.value
    }
}

/// One resource: its type and its cell behind a latch.
pub struct ResourceEntry<V> {
    type_id: u64,
    lock: RwLock<ResourceCell<V>>,
}

/// The registry of resources.
pub struct RawResourceStorage<V> {
    resources: Vec<ResourceEntry<V>>,
}

/// The resources of a world, behind the latch of the registry.
pub struct ResourceStorage<V> {
    raw: RwLock<RawResourceStorage<V>>,
}

/// Proof that a reader is counted on the latch of the resource `type_id`.
pub struct ResourceCellReadGuard {
    type_id: u64,
    guard: RwLockReadGuard,
}

/// Proof that the writer of the latch of the resource `type_id` is held.
pub struct ResourceCellWriteGuard {
    type_id: u64,
    guard: RwLockWriteGuard,
}

impl ResourceCellReadGuard {
    /// The type of the resource that the guard is for.
    pub closed spec fn spec_type_id(&self) -> u64 {
        self.type_id
    }

    /// The type of the resource that the guard is for.
    pub fn resource_id(&self) -> (id: u64)
        ensures
            id == self.spec_type_id(),
    {
        self.type_id
    }
}

impl ResourceCellWriteGuard {
    /// The type of the resource that the guard is for.
    pub closed spec fn spec_type_id(&self) -> u64 {
        self.type_id
    }

    /// The type of the resource that the guard is for.
    pub fn resource_id(&self) -> (id: u64)
        ensures
            id == self.spec_type_id(),
    {
        self.type_id
    }
}

impl<V> RawResourceStorage<V> {
    /// The types of the resources, in the order in which they were inserted.
    pub closed spec fn ids(&self) -> Seq<u64> {
        Seq::new(self.resources@.len(), |k: int| self.resources@[k].type_id)
    }

    /// The latch of the resource at `k`, with its cell behind it.
    pub closed spec fn latch_at(&self, k: int) -> RwLockInner<ResourceCell<V>> {
        self.resources@[k].lock@
    }

    /// No resource type occurs twice.
    pub open spec fn wf(&self) -> bool {
        self.ids().no_duplicates()
    }

    /// Whether there is a resource of the given type.
    pub open spec fn contains(&self, type_id: u64) -> bool {
        self.ids().contains(type_id)
    }

    /// Where the resource of the given type stands.
    pub open spec fn index_of(&self, type_id: u64) -> int {
        choose|k: int| 0 <= k < self.ids().len() && self.ids()[k] == type_id
    }

    /// The latch of the resource of the given type.
    pub open spec fn latch(&self, type_id: u64) -> RwLockInner<ResourceCell<V>> {
        self.latch_at(self.index_of(type_id))
    }

    /// The value of the resource of the given type.
    pub open spec fn value(&self, type_id: u64) -> V {
        self.latch(type_id).value()@
    }

    /// The resources as a map from type to latch.
    pub open spec fn view(&self) -> Map<u64, RwLockInner<ResourceCell<V>>> {
        Map::new(|id: u64| self.contains(id), |id: u64| self.latch(id))
    }

    /// A resource type stands at one place only.
    pub proof fn lemma_index_of(&self, k: int)
        requires
            self.wf(),
            0 <= k < self.ids().len(),
        ensures
            self.index_of(self.ids()[k]) == k,
            self.contains(self.ids()[k]),
    {
    }

    /// A registry without resources.
    pub fn new() -> (raw: Self)
        ensures
            raw.wf(),
            raw.ids() == Seq::<u64>::empty(),
            raw@ == Map::<u64, RwLockInner<ResourceCell<V>>>::empty(),
    {
        let raw = RawResourceStorage { resources: Vec::new() };
        assert(raw.ids() =~= Seq::<u64>::empty());
        assert(raw@ =~= Map::<u64, RwLockInner<ResourceCell<V>>>::empty());
        raw
    }

    /// The types of the resources, in the order in which they were inserted.
    pub fn resources(&self) -> (ids: Vec<u64>)
        ensures
            ids@ == self.ids(),
    {
        let mut ids: Vec<u64> = Vec::new();
        let mut k: usize = 0;
        while k < self.resources.len()
            invariant
                k <= self.resources@.len(),
                ids@.len() == k,
                forall|j: int| 0 <= j < k ==> ids@[j] == self.resources@[j].type_id,
            decreases self.resources@.len() - k,
        {
            ids.push(self.resources[k].type_id);
            k += 1;
        }
        assert(ids@ =~= self.ids());
        ids
    }

    /// Where the resource of the given type stands, if there is one.
    pub fn position(&self, type_id: u64) -> (found: Option<usize>)
        requires
            self.wf(),
        ensures
            found is Some == self.contains(type_id),
            found matches Some(k) ==> k == self.index_of(type_id) && k < self.ids().len()
                && self.ids()[k as int] == type_id,
    {
        let mut k: usize = 0;
        while k < self.resources.len()
            invariant
                self.wf(),
                k <= self.resources@.len(),
                forall|j: int| 0 <= j < k ==> self.ids()[j] != type_id,
            decreases self.resources@.len() - k,
        {
            if self.resources[k].type_id == type_id {
                proof {
                    assert(self.ids()[k as int] == type_id);
                    self.lemma_index_of(k as int);
                }
                return Some(k);
            }
            k += 1;
        }
        None
    }

    /// Inserts a resource unless there is one of its type already, and says
    /// whether it did. A new resource is idle.
    pub fn insert(&mut self, type_id: u64, resource: V) -> (inserted: bool)
        requires
            old(self).wf(),
        ensures
            final(self).wf(),
            inserted == !old(self).contains(type_id),
            inserted ==> final(self)@ == old(self)@.insert(
                type_id,
                RwLockInner::make(ResourceCell::new_spec(resource), 0, 0),
            ) && final(self).ids() == old(self).ids().push(type_id),
            !inserted ==> final(self)@ == old(self)@ && final(self).ids() == old(self).ids(),
    {
        if self.position(type_id).is_some() {
            return false;
        }
        self.push_entry(type_id, RwLock::new(ResourceCell::new(resource)));
        true
    }

    /// Adds a resource of a type that the registry does not hold yet.
    fn push_entry(&mut self, type_id: u64, lock: RwLock<ResourceCell<V>>)
        requires
            old(self).wf(),
            !old(self).contains(type_id),
        ensures
            final(self).wf(),
            final(self).ids() == old(self).ids().push(type_id),
            final(self)@ == old(self)@.insert(type_id, lock@),
            forall|k: int| 0 <= k < old(self).ids().len() ==> final(self).latch_at(k)
                == old(self).latch_at(k),
            final(self).latch_at(old(self).ids().len() as int) == lock@,
    {
        self.resources.push(ResourceEntry { type_id, lock });
        proof {
            let n = old(self).ids().len() as int;
            assert(self.ids() =~= old(self).ids().push(type_id));
            assert(self.ids()[n] == type_id);
            self.lemma_index_of(n);
            assert forall|id: u64| self.contains(id) <==> (id == type_id || old(self).contains(
                id,
            )) by {
                if self.contains(id) {
                    let k = choose|k: int| 0 <= k < self.ids().len() && self.ids()[k] == id;
                    if k < n {
                        assert(old(self).ids()[k] == id);
                    }
                }
                if old(self).contains(id) {
                    let k = choose|k: int| 0 <= k < old(self).ids().len() && old(self).ids()[k]
                        == id;
                    assert(self.ids()[k] == id);
                }
            }
            assert forall|id: u64| old(self).contains(id) implies self.latch(id)
                == old(self).latch(id) by {
                let k = old(self).index_of(id);
                assert(self.ids()[k] == id);
                self.lemma_index_of(k);
            }
            assert(self@ =~= old(self)@.insert(type_id, lock@));
        }
    }

    /// Takes the entry at `k` out of the registry.
    fn take_entry(&mut self, k: usize) -> (lock: RwLock<ResourceCell<V>>)
        requires
            old(self).wf(),
            k < old(self).ids().len(),
        ensures
            final(self).wf(),
            lock@ == old(self).latch_at(k as int),
            final(self).ids() == old(self).ids().remove(k as int),
            final(self)@ == old(self)@.remove(old(self).ids()[k as int]),
    {
        let entry = self.resources.remove(k);
        proof {
            let before = old(self).ids();
            let type_id = before[k as int];
            assert(self.ids() =~= before.remove(k as int));
            assert forall|i: int, j: int| 0 <= i < j < self.ids().len() implies self.ids()[i]
                != self.ids()[j] by {
                let p = if i < k { i } else { i + 1 };
                let q = if j < k { j } else { j + 1 };
                assert(self.ids()[i] == before[p] && self.ids()[j] == before[q]);
            }
            assert forall|id: u64| self.contains(id) <==> (id != type_id && old(self).contains(
                id,
            )) by {
                if self.contains(id) {
                    let i = choose|i: int| 0 <= i < self.ids().len() && self.ids()[i] == id;
                    let p = if i < k { i } else { i + 1 };
                    assert(before[p] == id);
                    assert(p != k);
                }
                if id != type_id && old(self).contains(id) {
                    let p = choose|p: int| 0 <= p < before.len() && before[p] == id;
                    let i = if p < k { p } else { p - 1 };
                    assert(self.ids()[i] == id);
                }
            }
            assert forall|id: u64| self.contains(id) implies self.latch(id) == old(self).latch(
                id,
            ) by {
                let i = self.index_of(id);
                let p = if i < k { i } else { i + 1 };
                assert(before[p] == id);
                old(self).lemma_index_of(p);
                assert(self.resources@[i] == old(self).resources@[p]);
            }
            assert(self@ =~= old(self)@.remove(type_id));
        }
        entry.lock
    }
}

impl<V> RawResourceStorage<V> {
    /// The same registry as `old` but for the latch of the resource
    /// `type_id`, which is `latch`.
    pub open spec fn same_but(&self, old: &Self, type_id: u64, latch: RwLockInner<ResourceCell<V>>) -> bool {
        &&& self.ids() == old.ids()
        &&& self@ == old@.insert(type_id, latch)
    }

    /// The latch of the resource at `k`, to take a step on.
    fn latch_mut(&mut self, k: usize) -> (latch: &mut RwLockInner<ResourceCell<V>>)
        requires
            old(self).wf(),
            k < old(self).ids().len(),
        ensures
            *latch == old(self).latch_at(k as int),
            final(self).ids() == old(self).ids(),
            final(self).resources@.len() == old(self).resources@.len(),
            final(self).latch_at(k as int) == *final(latch),
            forall|j: int|
                0 <= j < old(self).ids().len() && j != k ==> final(self).latch_at(j)
                    == old(self).latch_at(j),
    {
        self.resources[k].lock.inner_mut()
    }

    /// What a step on the latch at `k` does to the registry as a map.
    proof fn lemma_latch_changed(&self, old: &Self, k: int)
        requires
            old.wf(),
            0 <= k < old.ids().len(),
            self.ids() == old.ids(),
            forall|j: int| 0 <= j < old.ids().len() && j != k ==> self.latch_at(j)
                == old.latch_at(j),
        ensures
            self.wf(),
            self.same_but(old, old.ids()[k], self.latch_at(k)),
    {
        let type_id = old.ids()[k];
        old.lemma_index_of(k);
        self.lemma_index_of(k);
        assert forall|id: u64| self.contains(id) && id != type_id implies self.latch(id)
            == old.latch(id) by {
            let j = self.index_of(id);
            old.lemma_index_of(j);
        }
        assert(self@ =~= old@.insert(type_id, self.latch_at(k)));
    }

    /// Puts a new idle cell with `resource` in the place of the cell at `k`,
    /// and hands out the value of the old one.
    fn replace_at(&mut self, k: usize, resource: V) -> (previous: V)
        requires
            old(self).wf(),
            k < old(self).ids().len(),
        ensures
            final(self).wf(),
            previous == old(self).latch_at(k as int).value()@,
            final(self).same_but(
                old(self),
                old(self).ids()[k as int],
                RwLockInner::make(ResourceCell::new_spec(resource), 0, 0),
            ),
    {
        let mut lock = RwLock::new(ResourceCell::new(resource));
        core::mem::swap(&mut self.resources[k].lock, &mut lock);
        proof {
            assert(self.ids() =~= old(self).ids());
            self.lemma_latch_changed(old(self), k as int);
        }
        lock.into_value().read()
    }
}

impl<V> ResourceStorage<V> {
    /// The latch of the registry, with the registry behind it.
    pub closed spec fn latch(&self) -> RwLockInner<RawResourceStorage<V>> {
        self.raw@
    }

    /// The registry.
    pub open spec fn raw(&self) -> RawResourceStorage<V> {
        self.latch().value()
    }

    /// The registry is well-formed.
    pub open spec fn wf(&self) -> bool {
        self.raw().wf()
    }

    /// Whether a step that reads the registry may be asked for: a latch
    /// whose reader count is exhausted cannot be asked.
    pub open spec fn askable(&self) -> bool {
        self.latch().can_read() ==> !self.latch().is_saturated()
    }

    /// Whether the counters of the registry's latch are those of `old`.
    pub open spec fn same_latch(&self, old: &Self) -> bool {
        &&& self.latch().state() == old.latch().state()
        &&& self.latch().waiting_writes() == old.latch().waiting_writes()
    }

    /// Whether the resource `type_id` is there and can be taken for writing.
    pub open spec fn can_write(&self, type_id: u64) -> bool {
        self.raw().contains(type_id) ==> self.raw().latch(type_id).is_idle()
    }

    /// Storages with the same latch are the same storage.
    pub proof fn lemma_same_latch(&self, other: &Self)
        requires
            self.latch() == other.latch(),
        ensures
            *self == *other,
    {
        self.raw.lemma_view_ext(other.raw);
    }

    /// Whether a step that reads the registry may be asked for.
    pub fn is_askable(&self) -> (b: bool)
        ensures
            b == self.askable(),
    {
        !(self.raw.inner().readable() && self.raw.inner().saturated())
    }

    /// Whether every latch of the storage can count `n` more readers.
    pub fn has_reader_room(&self, n: u32) -> (b: bool)
        requires
            self.wf(),
        ensures
            b == (crate::component::archetype::storage::counters_have_room(self.latch(), n)
                && forall|id: u64|
                self.raw().contains(id)
                    ==> crate::component::archetype::storage::counters_have_room(
                    #[trigger] self.raw().latch(id),
                    n,
                )),
    {
        if !self.raw.inner().has_reader_room(n) {
            return false;
        }
        let raw = self.raw.inner().peek();
        let mut k: usize = 0;
        while k < raw.resources.len()
            invariant
                raw.wf(),
                *raw == self.raw(),
                k <= raw.resources@.len(),
                forall|j: int|
                    0 <= j < k ==> crate::component::archetype::storage::counters_have_room(
                        #[trigger] raw.latch_at(j),
                        n,
                    ),
            decreases raw.resources@.len() - k,
        {
            if !raw.resources[k].lock.inner().has_reader_room(n) {
                proof {
                    raw.lemma_index_of(k as int);
                    let id = raw.ids()[k as int];
                    assert(raw.latch(id) == raw.latch_at(k as int));
                    assert(self.raw().contains(id));
                    assert(!crate::component::archetype::storage::counters_have_room(
                        self.raw().latch(id),
                        n,
                    ));
                }
                return false;
            }
            k += 1;
        }
        proof {
            assert forall|id: u64|
                raw.contains(id) implies crate::component::archetype::storage::counters_have_room(
                #[trigger] raw.latch(id),
                n,
            ) by {
                let j = raw.index_of(id);
                assert(crate::component::archetype::storage::counters_have_room(
                    raw.latch_at(j),
                    n,
                ));
            }
        }
        true
    }

    /// A storage without resources.
    pub fn new() -> (storage: Self)
        ensures
            storage.wf(),
            storage.raw().ids() == Seq::<u64>::empty(),
            storage.latch().is_idle(),
            storage.latch().waiting_writes() == 0,
    {
        ResourceStorage { raw: RwLock::new(RawResourceStorage::new()) }
    }

    /// A storage with the given resources.
    pub fn new_with(raw: RawResourceStorage<V>) -> (storage: Self)
        ensures
            storage.raw() == raw,
            storage.latch().is_idle(),
            storage.latch().waiting_writes() == 0,
    {
        ResourceStorage { raw: RwLock::new(raw) }
    }

    /// Tries to get the registry for reading.
    pub fn try_read_raw(&mut self) -> (res: Poll<RwLockReadGuard>)
        requires
            old(self).askable(),
        ensures
            (res is Ready) == old(self).latch().can_read(),
            res is Ready ==> final(self).latch() == old(self).latch().with_state(
                (old(self).latch().state() + 1) as u32,
            ),
            res is Pending ==> final(self).latch() == old(self).latch(),
    {
        self.raw.inner_mut().try_read()
    }

    /// The registry, for the holder of a guard on it.
    pub fn raw_ref(&self, guard: &RwLockReadGuard) -> (raw: &RawResourceStorage<V>)
        ensures
            *raw == self.raw(),
    {
        guard.get_ref(self.raw.inner())
    }

    /// Gives a guard on the registry back.
    pub fn release_raw(&mut self, guard: RwLockReadGuard)
        ensures
            final(self).latch() == old(self).latch().with_state(
                old(self).latch().state().wrapping_sub(1),
            ),
    {
        guard.release(self.raw.inner_mut());
    }

    /// Inserts a resource, in the place of the one of its type if there is one.
    ///
    /// The step needs the registry to be idle, and the resource that it
    /// replaces to be idle too. Else the value comes back and nothing has
    /// changed.
    pub fn insert(&mut self, type_id: u64, resource: V) -> (res: Result<(), V>)
        requires
            old(self).wf(),
        ensures
            final(self).wf(),
            final(self).same_latch(old(self)),
            res is Ok == (old(self).latch().is_idle() && old(self).can_write(type_id)),
            res is Ok ==> final(self).raw()@ == old(self).raw()@.insert(
                type_id,
                RwLockInner::make(ResourceCell::new_spec(resource), 0, 0),
            ),
            res matches Err(back) ==> back == resource && final(self).latch() == old(self).latch(),
    {
        match self.replace(type_id, resource) {
            Ok(_) => Ok(()),
            Err(back) => Err(back),
        }
    }

    /// Inserts a resource and hands out the one of its type that was there.
    ///
    /// The step needs the registry to be idle, and the resource that it
    /// replaces to be idle too. Else the value comes back and nothing has
    /// changed.
    pub fn replace(&mut self, type_id: u64, resource: V) -> (res: Result<Option<V>, V>)
        requires
            old(self).wf(),
        ensures
            final(self).wf(),
            final(self).same_latch(old(self)),
            res is Ok == (old(self).latch().is_idle() && old(self).can_write(type_id)),
            res matches Ok(previous) ==> final(self).raw()@ == old(self).raw()@.insert(
                type_id,
                RwLockInner::make(ResourceCell::new_spec(resource), 0, 0),
            ) && previous == if old(self).raw().contains(type_id) {
                Some(old(self).raw().value(type_id))
            } else {
                None
            },
            res matches Err(back) ==> back == resource && final(self).latch() == old(self).latch(),
    {
        broadcast use {RwLockInner::lemma_make, RwLockInner::lemma_make_self};

        if !self.raw.inner().idle() {
            return Err(resource);
        }
        let raw = self.raw.inner_mut().peek_mut();
        match raw.position(type_id) {
            Some(k) => {
                if !raw.resources[k].lock.inner().idle() {
                    return Err(resource);
                }
                Ok(Some(raw.replace_at(k, resource)))
            },
            None => {
                raw.push_entry(type_id, RwLock::new(ResourceCell::new(resource)));
                Ok(None)
            },
        }
    }

    /// Removes the resource of the given type, if there is one.
    ///
    /// The step needs the registry and the resource to be idle. Else it is
    /// pending and nothing has changed.
    pub fn remove(&mut self, type_id: u64) -> (res: Poll<()>)
        requires
            old(self).wf(),
        ensures
            final(self).wf(),
            final(self).same_latch(old(self)),
            res is Ready == (old(self).latch().is_idle() && old(self).can_write(type_id)),
            res is Ready ==> final(self).raw()@ == old(self).raw()@.remove(type_id),
            res is Pending ==> final(self).latch() == old(self).latch(),
    {
        match self.take(type_id) {
            Poll::Ready(_) => Poll::Ready(()),
            Poll::Pending => Poll::Pending,
        }
    }

    /// Removes the resource of the given type and hands it out, if there is one.
    ///
    /// The step needs the registry and the resource to be idle. Else it is
    /// pending and nothing has changed.
    pub fn take(&mut self, type_id: u64) -> (res: Poll<Option<V>>)
        requires
            old(self).wf(),
        ensures
            final(self).wf(),
            final(self).same_latch(old(self)),
            res is Ready == (old(self).latch().is_idle() && old(self).can_write(type_id)),
            res matches Poll::Ready(taken) ==> final(self).raw()@ == old(self).raw()@.remove(
                type_id,
            ) && taken == if old(self).raw().contains(type_id) {
                Some(old(self).raw().value(type_id))
            } else {
                None
            },
            res is Pending ==> final(self).latch() == old(self).latch(),
    {
        broadcast use {RwLockInner::lemma_make, RwLockInner::lemma_make_self};

        if !self.raw.inner().idle() {
            return Poll::Pending;
        }
        let raw = self.raw.inner_mut().peek_mut();
        match raw.position(type_id) {
            Some(k) => {
                if !raw.resources[k].lock.inner().idle() {
                    return Poll::Pending;
                }
                let lock = raw.take_entry(k);
                Poll::Ready(Some(lock.into_value().read()))
            },
            None => {
                proof {
                    assert(raw@ =~= raw@.remove(type_id));
                }
                Poll::Ready(None)
            },
        }
    }

    /// Tries to get the resource of the given type for reading.
    ///
    /// The step is pending where the registry or the resource cannot be
    /// read now, and finds nothing where the registry is readable and holds
    /// no such resource.
    pub fn try_get_ref(&mut self, type_id: u64) -> (res: Poll<Option<ResourceCellReadGuard>>)
        requires
            old(self).wf(),
            old(self).askable(),
            old(self).raw().contains(type_id) && old(self).raw().latch(type_id).can_read()
                ==> !old(self).raw().latch(type_id).is_saturated(),
        ensures
            final(self).wf(),
            final(self).same_latch(old(self)),
            res is Pending <==> !old(self).latch().can_read() || (old(self).raw().contains(type_id)
                && !old(self).raw().latch(type_id).can_read()),
            res matches Poll::Ready(found) ==> (found is Some <==> old(self).raw().contains(
                type_id,
            )),
            res matches Poll::Ready(Some(guard)) ==> guard.spec_type_id() == type_id
                && final(self).raw().same_but(
                &old(self).raw(),
                type_id,
                old(self).raw().latch(type_id).with_state(
                    (old(self).raw().latch(type_id).state() + 1) as u32,
                ),
            ),
            !(res matches Poll::Ready(Some(_))) ==> final(self).latch() == old(self).latch(),
    {
        broadcast use {RwLockInner::lemma_make, RwLockInner::lemma_make_self};

        if !self.raw.inner().readable() {
            return Poll::Pending;
        }
        let raw = self.raw.inner_mut().peek_mut();
        let ghost start = *raw;
        match raw.position(type_id) {
            Some(k) => {
                if !raw.resources[k].lock.inner().readable() {
                    return Poll::Pending;
                }
                let latch = raw.latch_mut(k);
                match latch.try_read() {
                    Poll::Ready(guard) => {
                        proof {
                            raw.lemma_latch_changed(&start, k as int);
                        }
                        Poll::Ready(Some(ResourceCellReadGuard { type_id, guard }))
                    },
                    Poll::Pending => Poll::Pending,
                }
            },
            None => Poll::Ready(None),
        }
    }

    /// Tries to get the resource of the given type for writing.
    ///
    /// The step is pending where the registry cannot be read or the
    /// resource is in use, and finds nothing where the registry is readable
    /// and holds no such resource.
    pub fn try_get_mut(&mut self, type_id: u64) -> (res: Poll<Option<ResourceCellWriteGuard>>)
        requires
            old(self).wf(),
            old(self).askable(),
        ensures
            final(self).wf(),
            final(self).same_latch(old(self)),
            res is Pending <==> !old(self).latch().can_read() || (old(self).raw().contains(type_id)
                && !old(self).raw().latch(type_id).is_idle()),
            res matches Poll::Ready(found) ==> (found is Some <==> old(self).raw().contains(
                type_id,
            )),
            res matches Poll::Ready(Some(guard)) ==> guard.spec_type_id() == type_id
                && final(self).raw().same_but(
                &old(self).raw(),
                type_id,
                old(self).raw().latch(type_id).with_state(WRITE_LOCKED),
            ),
            !(res matches Poll::Ready(Some(_))) ==> final(self).latch() == old(self).latch(),
    {
        broadcast use {RwLockInner::lemma_make, RwLockInner::lemma_make_self};

        if !self.raw.inner().readable() {
            return Poll::Pending;
        }
        let raw = self.raw.inner_mut().peek_mut();
        let ghost start = *raw;
        match raw.position(type_id) {
            Some(k) => {
                if !raw.resources[k].lock.inner().idle() {
                    return Poll::Pending;
                }
                let latch = raw.latch_mut(k);
                match latch.try_write() {
                    Poll::Ready(guard) => {
                        proof {
                            raw.lemma_latch_changed(&start, k as int);
                        }
                        Poll::Ready(Some(ResourceCellWriteGuard { type_id, guard }))
                    },
                    Poll::Pending => Poll::Pending,
                }
            },
            None => Poll::Ready(None),
        }
    }

    /// Gets the resource of the given type for writing, and makes it with
    /// `make` where there is none.
    ///
    /// The step needs the registry to be idle, and the resource too if it
    /// is there. Else `make` comes back and nothing has changed. A resource
    /// that is made is born write-locked, for its maker.
    pub fn get_mut_or_insert<F: FnOnce() -> V>(&mut self, type_id: u64, make: F) -> (res: Result<
        ResourceCellWriteGuard,
        F,
    >)
        requires
            old(self).wf(),
            make.requires(()),
        ensures
            final(self).wf(),
            final(self).same_latch(old(self)),
            res is Ok == (old(self).latch().is_idle() && old(self).can_write(type_id)),
            res matches Ok(guard) ==> guard.spec_type_id() == type_id
                && final(self).raw().contains(type_id)
                && final(self).raw().latch(type_id).is_write_locked()
                && if old(self).raw().contains(type_id) {
                final(self).raw().same_but(
                    &old(self).raw(),
                    type_id,
                    old(self).raw().latch(type_id).with_state(WRITE_LOCKED),
                )
            } else {
                make.ensures((), final(self).raw().value(type_id)) && final(self).raw()@
                    == old(self).raw()@.insert(type_id, final(self).raw().latch(type_id))
                    && final(self).raw().latch(type_id).waiting_writes() == 0
            },
            res matches Err(back) ==> back == make && final(self).latch() == old(self).latch(),
    {
        broadcast use {RwLockInner::lemma_make, RwLockInner::lemma_make_self};

        if !self.raw.inner().idle() {
            return Err(make);
        }
        let raw = self.raw.inner_mut().peek_mut();
        let ghost start = *raw;
        match raw.position(type_id) {
            Some(k) => {
                if !raw.resources[k].lock.inner().idle() {
                    return Err(make);
                }
                let latch = raw.latch_mut(k);
                match latch.try_write() {
                    Poll::Ready(guard) => {
                        proof {
                            raw.lemma_latch_changed(&start, k as int);
                            assert(raw@.dom().contains(type_id));
                            assert(raw@[type_id].is_write_locked());
                        }
                        Ok(ResourceCellWriteGuard { type_id, guard })
                    },
                    Poll::Pending => Err(make),
                }
            },
            None => {
                let lock = RwLock::new_writing(ResourceCell::new(make()));
                let guard = lock.inner().write_unchecked();
                raw.push_entry(type_id, lock);
                proof {
                    assert(raw@.dom().contains(type_id));
                    assert(raw@[type_id] == raw.latch(type_id));
                }
                Ok(ResourceCellWriteGuard { type_id, guard })
            },
        }
    }

    /// The value of the resource that `guard` is for, if it is still there.
    pub fn read(&self, guard: &ResourceCellReadGuard) -> (resource: Option<&V>)
        requires
            self.wf(),
        ensures
            resource is Some == self.raw().contains(guard.spec_type_id()),
            resource matches Some(value) ==> *value == self.raw().value(guard.spec_type_id()),
    {
        let raw = self.raw.inner().peek();
        match raw.position(guard.type_id) {
            Some(k) => Some(guard.guard.get_ref(raw.resources[k].lock.inner()).get_ref()),
            None => None,
        }
    }

    /// The value of the resource that `guard` is for, if it is still there.
    pub fn view(&self, guard: &ResourceCellWriteGuard) -> (resource: Option<&V>)
        requires
            self.wf(),
        ensures
            resource is Some == self.raw().contains(guard.spec_type_id()),
            resource matches Some(value) ==> *value == self.raw().value(guard.spec_type_id()),
    {
        let raw = self.raw.inner().peek();
        match raw.position(guard.type_id) {
            Some(k) => Some(guard.guard.get_ref(raw.resources[k].lock.inner()).get_ref()),
            None => None,
        }
    }

    /// Puts `resource` in the place of the value that `guard` is for, and
    /// hands out the old value; hands `resource` back where the resource is
    /// gone.
    pub fn write(&mut self, guard: &ResourceCellWriteGuard, resource: V) -> (res: Result<V, V>)
        requires
            old(self).wf(),
        ensures
            final(self).wf(),
            final(self).same_latch(old(self)),
            res is Ok == old(self).raw().contains(guard.spec_type_id()),
            res matches Ok(previous) ==> previous == old(self).raw().value(guard.spec_type_id())
                && final(self).raw().same_but(
                &old(self).raw(),
                guard.spec_type_id(),
                RwLockInner::make(
                    ResourceCell::new_spec(resource),
                    old(self).raw().latch(guard.spec_type_id()).state(),
                    old(self).raw().latch(guard.spec_type_id()).waiting_writes(),
                ),
            ),
            res matches Err(back) ==> back == resource && final(self).latch() == old(self).latch(),
    {
        broadcast use {RwLockInner::lemma_make, RwLockInner::lemma_make_self};

        let raw = self.raw.inner_mut().peek_mut();
        let ghost start = *raw;
        match raw.position(guard.type_id) {
            Some(k) => {
                let latch = raw.latch_mut(k);
                let cell = guard.guard.get_mut(latch);
                let mut value = resource;
                core::mem::swap(cell.get_mut(), &mut value);
                proof {
                    raw.lemma_latch_changed(&start, k as int);
                }
                Ok(value)
            },
            None => Err(resource),
        }
    }

    /// Gives a reader's guard back.
    pub fn release_read(&mut self, guard: ResourceCellReadGuard)
        requires
            old(self).wf(),
        ensures
            final(self).wf(),
            final(self).same_latch(old(self)),
            old(self).raw().contains(guard.spec_type_id()) ==> final(self).raw().same_but(
                &old(self).raw(),
                guard.spec_type_id(),
                old(self).raw().latch(guard.spec_type_id()).with_state(
                    old(self).raw().latch(guard.spec_type_id()).state().wrapping_sub(1),
                ),
            ),
            !old(self).raw().contains(guard.spec_type_id()) ==> final(self).latch()
                == old(self).latch(),
    {
        broadcast use {RwLockInner::lemma_make, RwLockInner::lemma_make_self};

        let raw = self.raw.inner_mut().peek_mut();
        let ghost start = *raw;
        match raw.position(guard.type_id) {
            Some(k) => {
                guard.guard.release(raw.latch_mut(k));
                proof {
                    raw.lemma_latch_changed(&start, k as int);
                }
            },
            None => {},
        }
    }

    /// Gives the writer's guard back: the resource is idle again.
    pub fn release_write(&mut self, guard: ResourceCellWriteGuard)
        requires
            old(self).wf(),
        ensures
            final(self).wf(),
            final(self).same_latch(old(self)),
            old(self).raw().contains(guard.spec_type_id()) ==> final(self).raw().same_but(
                &old(self).raw(),
                guard.spec_type_id(),
                old(self).raw().latch(guard.spec_type_id()).with_state(0),
            ),
            !old(self).raw().contains(guard.spec_type_id()) ==> final(self).latch()
                == old(self).latch(),
    {
        broadcast use {RwLockInner::lemma_make, RwLockInner::lemma_make_self};

        let raw = self.raw.inner_mut().peek_mut();
        let ghost start = *raw;
        match raw.position(guard.type_id) {
            Some(k) => {
                guard.guard.release(raw.latch_mut(k));
                proof {
                    raw.lemma_latch_changed(&start, k as int);
                }
            },
            None => {},
        }
    }
}

impl<V> ResourceCell<V> {
    /// The cell with the given value.
    pub closed spec fn new_spec(resource: V) -> Self {
        ResourceCell { value: resource }
    }

    /// The cell with a value holds that value.
    pub broadcast proof fn lemma_new_spec(resource: V)
        ensures
            (#[trigger] Self::new_spec(resource))@ == resource,
    {
    }
}

} // verus!
