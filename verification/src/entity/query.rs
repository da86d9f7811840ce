//! Views of entities: the archetypes that a query of components looks at,
//! held for as long as the view lives.

use core::marker::PhantomData;
use vstd::prelude::*;
use crate::util::claims::{merged, Claim};
use crate::component::archetype::storage::{
    contains_id, holds_archetype, lemma_selected_ids, lemma_selected_ids_rising, selected_ids,
    selects, ArchetypeStorage, RawArchetypeStorage,
};
use crate::query::validate::{ClaimId, QueryValidator, QueryValidatorEntryState};
use crate::query::{Query, QueryAcquireResult};
use crate::system::SystemId;
use crate::world::{counters, Counters, LockView, World};
use crate::component::archetype::{occupied_rows, Archetype};
use crate::component::bundle::has_type_id;
use crate::component::query::{ComponentFilter, ComponentQuery, ReadOnlyComponentQuery, True};
use crate::query::ReadOnlyQuery;
use crate::entity::Entity;
use crate::util::rwlock::{RwLockInner, RwLockReadGuard, RwLockWriteGuard, WRITE_LOCKED};
use crate::Poll;

verus! {

/// The archetypes that a query of the components `Q` with the filter `F`
/// looks at: each held for reading where the query only reads, and for
/// writing where it changes components.
pub struct Entities<Q: ComponentQuery, F: ComponentFilter = True> {
    archetypes: Vec<usize>,
    guards: Vec<RwLockWriteGuard>,
    readers: Vec<RwLockReadGuard>,
    marker: PhantomData<(Q, F)>,
}

/// A latch once a view that held it has given it back: with one reader
/// less where the view only read, and idle where it held the latch for
/// writing.
pub open spec fn given_back<T>(latch: RwLockInner<T>, reads: bool) -> RwLockInner<T> {
    if reads {
        latch.with_state(latch.state().wrapping_sub(1))
    } else {
        latch.with_state(0)
    }
}

/// The entities of the archetype `a`, in the order of their rows.
pub open spec fn entities_in<V>(raw: RawArchetypeStorage<V>, a: int) -> Seq<Entity> {
    occupied_rows(raw.archetype(a).rows_high_water(), raw.archetype(a).free_rows()).map_values(
        |row: usize|
            Entity {
                archetype_id: a as usize,
                archetype_name: raw.archetype(a).name(),
                archetype_row: row,
            },
    )
}

/// The entities of the archetypes `ids`: archetype after archetype, and in
/// each the rows in rising order.
pub open spec fn entities_of<V>(raw: RawArchetypeStorage<V>, ids: Seq<usize>) -> Seq<Entity>
    decreases ids.len(),
{
    if ids.len() == 0 {
        Seq::<Entity>::empty()
    } else {
        entities_of(raw, ids.drop_last()) + entities_in(raw, ids.last() as int)
    }
}

impl<Q: ComponentQuery, F: ComponentFilter> Entities<Q, F> {
    /// The ids of the archetypes that the view holds, in rising order.
    pub closed spec fn view(&self) -> Seq<usize> {
        self.archetypes@
    }

    /// The view holds one guard for each archetype, of the kind that goes
    /// with the query, and names no archetype twice.
    pub closed spec fn wf(&self) -> bool {
        &&& if Q::reads_only() {
            self.readers@.len() == self.archetypes@.len() && self.guards@.len() == 0
        } else {
            self.guards@.len() == self.archetypes@.len() && self.readers@.len() == 0
        }
        &&& forall|i: int, j: int|
            0 <= i < j < self.archetypes@.len() ==> self.archetypes@[i] < self.archetypes@[j]
    }

    /// A well-formed view names its archetypes in rising order.
    pub proof fn lemma_rising(&self)
        requires
            self.wf(),
        ensures
            forall|i: int, j: int| 0 <= i < j < self@.len() ==> self@[i] < self@[j],
    {
    }

    /// Whether every archetype of the view is one of `raw`.
    pub open spec fn within<V>(&self, raw: RawArchetypeStorage<V>) -> bool {
        forall|k: int| 0 <= k < self@.len() ==> (#[trigger] self@[k]) < raw.len()
    }

    /// Takes every archetype that the query looks at, or none.
    ///
    /// The view is ready when the registry is readable and every archetype
    /// that the filter lets through and that has the components the query
    /// needs can be taken: it is idle, or, for a query that only reads, it
    /// admits a reader. Else the step is pending, and no latch has changed.
    pub fn acquire_archetypes_unchecked<V>(storage: &mut ArchetypeStorage<V>) -> (res: Poll<Self>)
        requires
            old(storage).wf(),
            old(storage).askable(),
            Q::reads_only() ==> old(storage).raw().readers_have_room(),
        ensures
            res is Ready == old(storage).can_query::<Q, F>(),
            final(storage).latch().state() == old(storage).latch().state(),
            final(storage).latch().waiting_writes() == old(storage).latch().waiting_writes(),
            res matches Poll::Ready(entities) ==> entities.wf() && entities@ == selected_ids::<Q,
                F>(
                old(storage).raw().components(),
            ) && final(storage).is_taken_by::<Q, F>(old(storage)),
            res is Pending ==> final(storage).raw().unchanged(&old(storage).raw()),
    {
        proof {
            old(storage).raw().lemma_len_bound();
            lemma_selected_ids_rising::<Q, F>(old(storage).raw().components());
        }
        if Q::is_read_only() {
            match storage.try_read_selected::<Q, F>() {
                Poll::Ready(held) => Poll::Ready(
                    Entities {
                        archetypes: held.0,
                        guards: Vec::new(),
                        readers: held.1,
                        marker: PhantomData,
                    },
                ),
                Poll::Pending => Poll::Pending,
            }
        } else {
            match storage.try_write_selected::<Q, F>() {
                Poll::Ready(held) => Poll::Ready(
                    Entities {
                        archetypes: held.0,
                        guards: held.1,
                        readers: Vec::new(),
                        marker: PhantomData,
                    },
                ),
                Poll::Pending => Poll::Pending,
            }
        }
    }

    /// The same view, for as long as its holder likes.
    pub fn as_static(self) -> (entities: Self)
        ensures
            entities == self,
    {
        self
    }

    /// The number of archetypes that the view holds.
    pub fn archetype_count(&self) -> (n: usize)
        ensures
            n == self@.len(),
    {
        self.archetypes.len()
    }

    /// Whether the view holds the archetype `archetype_id`.
    pub fn holds(&self, archetype_id: usize) -> (b: bool)
        ensures
            b == self@.contains(archetype_id),
    {
        let mut k: usize = 0;
        while k < self.archetypes.len()
            invariant
                k <= self.archetypes@.len(),
                forall|j: int| 0 <= j < k ==> self.archetypes@[j] != archetype_id,
            decreases self.archetypes@.len() - k,
        {
            if self.archetypes[k] == archetype_id {
                return true;
            }
            k += 1;
        }
        false
    }

    /// The entities of the view: archetype after archetype, and in each the
    /// rows in rising order.
    pub fn iter<V>(&self, storage: &ArchetypeStorage<V>) -> (entities: Vec<Entity>)
        requires
            self.wf(),
            self.within(storage.raw()),
        ensures
            entities@ == entities_of(storage.raw(), self@),
    {
        let mut entities: Vec<Entity> = Vec::new();
        let mut k: usize = 0;
        while k < self.archetypes.len()
            invariant
                self.wf(),
                self.within(storage.raw()),
                k <= self.archetypes@.len(),
                entities@ == entities_of(storage.raw(), self.archetypes@.take(k as int)),
            decreases self.archetypes@.len() - k,
        {
            let id = self.archetypes[k];
            assert(self@[k as int] < storage.raw().len());
            let archetype = if Q::is_read_only() {
                storage.archetype_ref(id, &self.readers[k])
            } else {
                storage.archetype_view(id, &self.guards[k])
            };
            let rows = archetype.rows();
            let name = archetype.archetype_name();
            let ghost before = entities@;
            let ghost wanted = entities_in(storage.raw(), id as int);
            let mut r: usize = 0;
            while r < rows.len()
                invariant
                    r <= rows@.len(),
                    wanted.len() == rows@.len(),
                    forall|j: int|
                        0 <= j < rows@.len() ==> #[trigger] wanted[j] == (Entity {
                            archetype_id: id,
                            archetype_name: name,
                            archetype_row: rows@[j],
                        }),
                    entities@ == before + wanted.take(r as int),
                decreases rows@.len() - r,
            {
                entities.push(Entity::new(id, name, rows[r]));
                proof {
                    assert(wanted.take(r + 1) =~= wanted.take(r as int).push(wanted[r as int]));
                    assert(entities@ =~= before + wanted.take(r + 1));
                }
                r += 1;
            }
            proof {
                assert(wanted.take(rows@.len() as int) == wanted);
                let next = self.archetypes@.take(k + 1);
                assert(next.drop_last() == self.archetypes@.take(k as int));
                assert(next.last() == id);
            }
            k += 1;
        }
        proof {
            assert(self.archetypes@.take(self.archetypes@.len() as int) == self.archetypes@);
        }
        entities
    }

    /// The value that `entity` has of the given component type, if the view
    /// holds its archetype, the entity lives, and it has such a component.
    pub fn get<'a, V>(&self, storage: &'a ArchetypeStorage<V>, entity: Entity, type_id: u64) -> (component: Option<&'a V>)
        requires
            self.wf(),
            self.within(storage.raw()),
            storage.wf(),
        ensures
            component is Some == (self@.contains(entity.archetype_id) && storage.raw().archetype(
                entity.archetype_id as int,
            ).is_occupied(entity.archetype_row as int) && has_type_id(
                storage.raw().archetype(entity.archetype_id as int).column_infos(),
                type_id,
            )),
            component matches Some(value) ==> Some(*value) == storage.raw().archetype(
                entity.archetype_id as int,
            ).cell(
                storage.raw().archetype(entity.archetype_id as int).column_of(type_id),
                entity.archetype_row as int,
            ),
    {
        let mut k: usize = 0;
        while k < self.archetypes.len()
            invariant
                self.wf(),
                self.within(storage.raw()),
                storage.wf(),
                k <= self.archetypes@.len(),
                forall|j: int| 0 <= j < k ==> self.archetypes@[j] != entity.archetype_id,
            decreases self.archetypes@.len() - k,
        {
            if self.archetypes[k] == entity.archetype_id {
                assert(self@[k as int] < storage.raw().len());
                let archetype = if Q::is_read_only() {
                    storage.archetype_ref(entity.archetype_id, &self.readers[k])
                } else {
                    storage.archetype_view(entity.archetype_id, &self.guards[k])
                };
                return archetype.get(entity.archetype_row, type_id);
            }
            k += 1;
        }
        None
    }

    /// The value that `entity` has of the given component type, to change,
    /// if the view holds its archetype for writing, the entity lives, and it
    /// has such a component. The view of a query that only reads hands out
    /// nothing to change.
    pub fn get_mut<'a, V>(&self, storage: &'a mut ArchetypeStorage<V>, entity: Entity, type_id: u64) -> (component: Option<&'a mut V>)
        requires
            self.wf(),
            self.within(old(storage).raw()),
            old(storage).wf(),
        ensures
            component is Some == (!Q::reads_only() && self@.contains(entity.archetype_id)
                && old(storage).raw().archetype(entity.archetype_id as int).is_occupied(entity.archetype_row as int)
                && has_type_id(
                old(storage).raw().archetype(entity.archetype_id as int).column_infos(),
                type_id,
            )),
            component matches Some(value) ==> Some(*value) == old(storage).raw().archetype(
                entity.archetype_id as int,
            ).cell(
                old(storage).raw().archetype(entity.archetype_id as int).column_of(type_id),
                entity.archetype_row as int,
            ),
            component matches Some(value) ==> final(storage).same_but(
                old(storage),
                entity.archetype_id as int,
            ) && final(storage).raw().archetype(entity.archetype_id as int).changed_cell(
                &old(storage).raw().archetype(entity.archetype_id as int),
                old(storage).raw().archetype(entity.archetype_id as int).column_of(type_id),
                entity.archetype_row as int,
                *final(value),
            ),
            component is None ==> final(storage).latch() == old(storage).latch(),
    {
        broadcast use {RwLockInner::lemma_make, RwLockInner::lemma_make_self};

        if Q::is_read_only() {
            return None;
        }
        let mut k: usize = 0;
        let mut at: Option<usize> = None;
        while k < self.archetypes.len() && at.is_none()
            invariant
                k <= self.archetypes@.len(),
                at is None ==> forall|j: int| 0 <= j < k
                    ==> self.archetypes@[j] != entity.archetype_id,
                at matches Some(found) ==> found < self.archetypes@.len()
                    && self.archetypes@[found as int]
                    == entity.archetype_id,
            decreases self.archetypes@.len() - k + if at is None { 1nat } else { 0nat },
        {
            if self.archetypes[k] == entity.archetype_id {
                at = Some(k);
            } else {
                k += 1;
            }
        }
        match at {
            Some(found) => {
                assert(self@[found as int] < storage.raw().len());
                let present = storage.archetype_view(
                    entity.archetype_id,
                    &self.guards[found],
                ).get(entity.archetype_row, type_id).is_some();
                if !present {
                    return None;
                }
                let archetype = storage.archetype_mut(entity.archetype_id, &self.guards[found]);
                archetype.get_mut(entity.archetype_row, type_id)
            },
            None => None,
        }
    }

    /// Gives every archetype of the view back: one that was held for
    /// writing is idle again, and one that was held for reading has one
    /// reader less.
    pub fn release<V>(self, storage: &mut ArchetypeStorage<V>)
        requires
            self.wf(),
            self.within(old(storage).raw()),
        ensures
            final(storage).latch().state() == old(storage).latch().state(),
            final(storage).latch().waiting_writes() == old(storage).latch().waiting_writes(),
            final(storage).raw().len() == old(storage).raw().len(),
            final(storage).raw().components() == old(storage).raw().components(),
            final(storage).raw().bundles() == old(storage).raw().bundles(),
            forall|a: usize|
                a < final(storage).raw().len() ==> #[trigger] final(storage).raw().latch(a as int)
                    == if self@.contains(a) {
                    given_back(old(storage).raw().latch(a as int), Q::reads_only())
                } else {
                    old(storage).raw().latch(a as int)
                },
    {
        if Q::is_read_only() {
            self.release_readers(storage)
        } else {
            self.release_writers(storage)
        }
    }

    /// Gives back every archetype of a view that holds them for writing:
    /// each is idle again.
    fn release_writers<V>(self, storage: &mut ArchetypeStorage<V>)
        requires
            self.guards@.len() == self.archetypes@.len(),
            self.within(old(storage).raw()),
        ensures
            final(storage).latch().state() == old(storage).latch().state(),
            final(storage).latch().waiting_writes() == old(storage).latch().waiting_writes(),
            final(storage).raw().len() == old(storage).raw().len(),
            final(storage).raw().components() == old(storage).raw().components(),
            final(storage).raw().bundles() == old(storage).raw().bundles(),
            forall|a: usize|
                a < final(storage).raw().len() ==> #[trigger] final(storage).raw().latch(a as int)
                    == if self@.contains(a) {
                    old(storage).raw().latch(a as int).with_state(0)
                } else {
                    old(storage).raw().latch(a as int)
                },
    {
        broadcast use {RwLockInner::lemma_make, RwLockInner::lemma_make_self};

        let mut archetypes = self.archetypes;
        let mut guards = self.guards;
        let ghost all = archetypes@;
        while archetypes.len() > 0
            invariant
                guards@.len() == archetypes@.len(),
                archetypes@ == all.take(archetypes@.len() as int),
                archetypes@.len() <= all.len(),
                all == self@,
                self.within(old(storage).raw()),
                storage.latch().state() == old(storage).latch().state(),
                storage.latch().waiting_writes() == old(storage).latch().waiting_writes(),
                storage.raw().len() == old(storage).raw().len(),
                storage.raw().components() == old(storage).raw().components(),
                storage.raw().bundles() == old(storage).raw().bundles(),
                forall|a: usize|
                    a < storage.raw().len() ==> #[trigger] storage.raw().latch(a as int)
                        == if all.skip(archetypes@.len() as int).contains(a) {
                        old(storage).raw().latch(a as int).with_state(0)
                    } else {
                        old(storage).raw().latch(a as int)
                    },
            decreases archetypes@.len(),
        {
            let ghost k = archetypes@.len() - 1;
            let ghost before = *storage;
            let id = archetypes.pop().unwrap();
            let guard = guards.pop().unwrap();
            assert(id == all[k]);
            assert(self@[k] < old(storage).raw().len());
            storage.release_write(id, guard);
            proof {
                broadcast use {RwLockInner::lemma_make, RwLockInner::lemma_make_self};

                assert(archetypes@ =~= all.take(k));
                let done = all.skip(k);
                let earlier = all.skip(k + 1);
                assert(done[0] == id);
                assert forall|x: usize| done.contains(x) <==> (x == id || earlier.contains(x)) by {
                    if done.contains(x) {
                        let j = choose|j: int| 0 <= j < done.len() && done[j] == x;
                        if j > 0 {
                            assert(earlier[j - 1] == x);
                        }
                    }
                    if earlier.contains(x) {
                        let j = choose|j: int| 0 <= j < earlier.len() && earlier[j] == x;
                        assert(done[j + 1] == x);
                    }
                }
                assert forall|a: usize| a < storage.raw().len() implies #[trigger] storage.raw().latch(
                    a as int,
                ) == if done.contains(a) {
                    old(storage).raw().latch(a as int).with_state(0)
                } else {
                    old(storage).raw().latch(a as int)
                } by {
                    assert(before.raw().latch(a as int) == if earlier.contains(a) {
                        old(storage).raw().latch(a as int).with_state(0)
                    } else {
                        old(storage).raw().latch(a as int)
                    });
                    if a != id {
                        assert(storage.raw().latch(a as int) == before.raw().latch(a as int));
                    } else {
                        let l = old(storage).raw().latch(a as int);
                        assert(storage.raw().latch(a as int) == before.raw().latch(
                            a as int,
                        ).with_state(0));
                        assert(l.with_state(0).value() == l.value());
                        assert(l.with_state(0).waiting_writes() == l.waiting_writes());
                        assert(l.with_state(0).with_state(0) == l.with_state(0));
                        assert(done.contains(a));
                    }
                }
            }
        }
        proof {
            assert(all.skip(0) =~= all);
        }
    }

    /// Gives back every archetype of a view that holds them for reading:
    /// each has one reader less.
    fn release_readers<V>(self, storage: &mut ArchetypeStorage<V>)
        requires
            self.readers@.len() == self.archetypes@.len(),
            forall|i: int, j: int|
                0 <= i < j < self.archetypes@.len() ==> self.archetypes@[i] < self.archetypes@[j],
            self.within(old(storage).raw()),
        ensures
            final(storage).latch().state() == old(storage).latch().state(),
            final(storage).latch().waiting_writes() == old(storage).latch().waiting_writes(),
            final(storage).raw().len() == old(storage).raw().len(),
            final(storage).raw().components() == old(storage).raw().components(),
            final(storage).raw().bundles() == old(storage).raw().bundles(),
            forall|a: usize|
                a < final(storage).raw().len() ==> #[trigger] final(storage).raw().latch(a as int)
                    == if self@.contains(a) {
                    old(storage).raw().latch(a as int).with_state(
                        old(storage).raw().latch(a as int).state().wrapping_sub(1),
                    )
                } else {
                    old(storage).raw().latch(a as int)
                },
    {
        broadcast use {RwLockInner::lemma_make, RwLockInner::lemma_make_self};

        let mut archetypes = self.archetypes;
        let mut guards = self.readers;
        let ghost all = archetypes@;
        while archetypes.len() > 0
            invariant
                guards@.len() == archetypes@.len(),
                archetypes@ == all.take(archetypes@.len() as int),
                archetypes@.len() <= all.len(),
                all == self@,
                forall|i: int, j: int| 0 <= i < j < all.len() ==> all[i] < all[j],
                self.within(old(storage).raw()),
                storage.latch().state() == old(storage).latch().state(),
                storage.latch().waiting_writes() == old(storage).latch().waiting_writes(),
                storage.raw().len() == old(storage).raw().len(),
                storage.raw().components() == old(storage).raw().components(),
                storage.raw().bundles() == old(storage).raw().bundles(),
                forall|a: usize|
                    a < storage.raw().len() ==> #[trigger] storage.raw().latch(a as int)
                        == if all.skip(archetypes@.len() as int).contains(a) {
                        old(storage).raw().latch(a as int).with_state(
                        old(storage).raw().latch(a as int).state().wrapping_sub(1),
                    )
                    } else {
                        old(storage).raw().latch(a as int)
                    },
            decreases archetypes@.len(),
        {
            let ghost k = archetypes@.len() - 1;
            let ghost before = *storage;
            let id = archetypes.pop().unwrap();
            let guard = guards.pop().unwrap();
            assert(id == all[k]);
            assert(self@[k] < old(storage).raw().len());
            storage.release_read(id, guard);
            proof {
                broadcast use {RwLockInner::lemma_make, RwLockInner::lemma_make_self};

                assert(archetypes@ =~= all.take(k));
                let done = all.skip(k);
                let earlier = all.skip(k + 1);
                assert(done[0] == id);
                assert forall|x: usize| done.contains(x) <==> (x == id || earlier.contains(x)) by {
                    if done.contains(x) {
                        let j = choose|j: int| 0 <= j < done.len() && done[j] == x;
                        if j > 0 {
                            assert(earlier[j - 1] == x);
                        }
                    }
                    if earlier.contains(x) {
                        let j = choose|j: int| 0 <= j < earlier.len() && earlier[j] == x;
                        assert(done[j + 1] == x);
                    }
                }
                assert forall|a: usize| a < storage.raw().len() implies #[trigger] storage.raw().latch(
                    a as int,
                ) == if done.contains(a) {
                    old(storage).raw().latch(a as int).with_state(
                        old(storage).raw().latch(a as int).state().wrapping_sub(1),
                    )
                } else {
                    old(storage).raw().latch(a as int)
                } by {
                    assert(before.raw().latch(a as int) == if earlier.contains(a) {
                        old(storage).raw().latch(a as int).with_state(
                        old(storage).raw().latch(a as int).state().wrapping_sub(1),
                    )
                    } else {
                        old(storage).raw().latch(a as int)
                    });
                    if a != id {
                        assert(storage.raw().latch(a as int) == before.raw().latch(a as int));
                    } else {
                        assert(!earlier.contains(a)) by {
                            if earlier.contains(a) {
                                let j = choose|j: int| 0 <= j < earlier.len() && earlier[j] == a;
                                assert(all[k + 1 + j] == a);
                                assert(all[k] < all[k + 1 + j]);
                            }
                        }
                        assert(before.raw().latch(a as int) == old(storage).raw().latch(a as int));
                        assert(done.contains(a));
                    }
                }
            }
        }
        proof {
            assert(all.skip(0) =~= all);
        }
    }
}

impl<V, Q: ReadOnlyComponentQuery, F: ComponentFilter> ReadOnlyQuery<V> for Entities<Q, F> {
    proof fn lemma_read_only() {
        Q::lemma_read_only();
    }
}

/// The locks without the writers of the archetypes `ids`.
pub open spec fn without_writers(locks: LockView, ids: Seq<usize>) -> LockView {
    LockView {
        archetype_registry: locks.archetype_registry,
        archetypes: Seq::new(
            locks.archetypes.len(),
            |a: int|
                if holds_archetype(ids, a) {
                    Counters { state: 0, waiting_writes: locks.archetypes[a].waiting_writes }
                } else {
                    locks.archetypes[a]
                },
        ),
        resource_registry: locks.resource_registry,
        resources: locks.resources,
        cmd_queue: locks.cmd_queue,
    }
}

/// The locks with one reader less on each of the archetypes `ids`.
pub open spec fn without_readers(locks: LockView, ids: Seq<usize>) -> LockView {
    LockView {
        archetype_registry: locks.archetype_registry,
        archetypes: Seq::new(
            locks.archetypes.len(),
            |a: int|
                if holds_archetype(ids, a) {
                    Counters {
                        state: locks.archetypes[a].state.wrapping_sub(1),
                        waiting_writes: locks.archetypes[a].waiting_writes,
                    }
                } else {
                    locks.archetypes[a]
                },
        ),
        resource_registry: locks.resource_registry,
        resources: locks.resources,
        cmd_queue: locks.cmd_queue,
    }
}

impl<V, Q: ComponentQuery, F: ComponentFilter> Query<V> for Entities<Q, F> {
    type Item = Entities<Q, F>;

    type State = ();

    open spec fn component_entries() -> Seq<Claim<QueryValidatorEntryState>> {
        Q::component_entries()
    }

    open spec fn resource_entries() -> Seq<Claim<QueryValidatorEntryState>> {
        Seq::empty()
    }

    open spec fn claims() -> Map<ClaimId, QueryValidatorEntryState> {
        Q::claims()
    }

    open spec fn spec_readers() -> nat {
        if Q::reads_only() {
            1
        } else {
            0
        }
    }

    open spec fn can_release(locks: LockView, item: Self::Item) -> bool {
        &&& item.wf()
        &&& forall|k: int| 0 <= k < item@.len() ==> (#[trigger] item@[k]) < locks.archetypes.len()
        &&& Q::reads_only() ==> forall|k: int|
            0 <= k < item@.len() ==> 1 <= locks.archetypes[(#[trigger] item@[k]) as int].state
                < WRITE_LOCKED
    }

    open spec fn released(locks: LockView, item: Self::Item) -> LockView {
        if Q::reads_only() {
            without_readers(locks, item@)
        } else {
            without_writers(locks, item@)
        }
    }

    open spec fn is_init_of(
        after: World<V>,
        state: Self::State,
        before: World<V>,
        system_id: Option<SystemId>,
    ) -> bool {
        after == before
    }

    open spec fn is_acquire_of(
        after: World<V>,
        state_after: Self::State,
        res: Poll<QueryAcquireResult<Self::Item>>,
        before: World<V>,
        state_before: Self::State,
    ) -> bool {
        &&& res is Ready == before.spec_archetypes().can_query::<Q, F>()
        &&& res matches Poll::Ready(found) ==> found matches QueryAcquireResult::Ready(entities)
            && entities@ == selected_ids::<Q, F>(before.spec_archetypes().raw().components())
        &&& after.same_rest(&before)
        &&& after.spec_resources() == before.spec_resources()
    }

    open spec fn is_release_of(
        after: World<V>,
        state_after: Self::State,
        before: World<V>,
        state_before: Self::State,
        item: Self::Item,
    ) -> bool {
        &&& after.same_rest(&before)
        &&& after.spec_resources() == before.spec_resources()
    }

    fn readers() -> (n: u32) {
        if Q::is_read_only() {
            1
        } else {
            0
        }
    }

    fn init_state(world: &mut World<V>, system_id: Option<SystemId>) -> (state: Self::State) {
        ()
    }

    fn acquire(world: &mut World<V>, state: &mut Self::State) -> (res: Poll<
        QueryAcquireResult<Self::Item>,
    >) {
        let ghost before = old(world).spec_archetypes().raw();
        proof {
            if Q::reads_only() {
                assert forall|a: int| 0 <= a < before.len() && (#[trigger] before.latch(
                    a,
                )).can_read() implies !before.latch(a).is_saturated() by {
                    assert(old(world).locks().archetypes[a].reader_room(1));
                }
            }
        }
        let res = Self::acquire_archetypes_unchecked(world.archetypes_mut());
        proof {
            let after = world.spec_archetypes().raw();
            before.lemma_len_bound();
            assert(before.components().len() == before.len());
            assert(world.locks().resources =~= old(world).locks().resources);
            if Q::reads_only() {
                if res is Ready {
                    let item = res->Ready_0;
                    assert(after.has_acquired_read::<Q, F>(&before));
                    assert forall|a: int| 0 <= a < before.len() implies (#[trigger] after.latch(
                        a,
                    )).value() == before.latch(a).value() && counters(after.latch(a))
                        == (if selects::<
                        Q,
                        F,
                    >(before.components()[a]) {
                        Counters {
                            state: (before.latch(a).state() + 1) as u32,
                            waiting_writes: before.latch(a).waiting_writes(),
                        }
                    } else {
                        counters(before.latch(a))
                    }) && (selects::<Q, F>(before.components()[a]) ==> before.latch(a).state() + 1
                        < WRITE_LOCKED - 1) by {
                        RwLockInner::lemma_make(
                            before.latch(a).value(),
                            (before.latch(a).state() + 1) as u32,
                            before.latch(a).waiting_writes(),
                        );
                        if selects::<Q, F>(before.components()[a]) {
                            assert(before.latch(a).can_read());
                            assert(old(world).locks().archetypes[a].reader_room(1));
                        }
                    }
                    item.lemma_rising();
                    assert forall|k: int| 0 <= k < item@.len() implies (#[trigger] item@[k])
                        < world.locks().archetypes.len()
                            && 1 <= world.locks().archetypes[item@[k] as int].state
                        < WRITE_LOCKED by {
                        assert(holds_archetype(item@, item@[k] as int));
                        lemma_selected_ids::<Q, F>(before.components(), item@[k] as int);
                        assert(after.latch(item@[k] as int).value() == before.latch(
                            item@[k] as int,
                        ).value());
                    }
                    assert(without_readers(world.locks(), item@).archetypes
                        =~= old(world).locks().archetypes) by {
                        assert forall|a: int| 0 <= a < before.len() implies without_readers(
                            world.locks(),
                            item@,
                        ).archetypes[a] == old(world).locks().archetypes[a] by {
                            lemma_selected_ids::<Q, F>(before.components(), a);
                            assert(after.latch(a).value() == before.latch(a).value());
                        }
                    }
                    assert forall|n: nat| old(world).locks().reader_room(n + 1) implies (
                    #[trigger] world.locks().reader_room(n)) by {
                        assert forall|a: int| 0 <= a < world.locks().archetypes.len() implies (
                        #[trigger] world.locks().archetypes[a]).reader_room(n) by {
                            assert(old(world).locks().archetypes[a].reader_room(n + 1));
                            assert(after.latch(a).value() == before.latch(a).value());
                        }
                        assert forall|id: u64| world.locks().resources.dom().contains(id) implies (
                        #[trigger] world.locks().resources[id]).reader_room(n) by {
                            assert(old(world).locks().resources[id].reader_room(n + 1));
                        }
                    }
                } else {
                    assert(after.unchanged(&before));
                    assert(world.locks().archetypes =~= old(world).locks().archetypes);
                    assert forall|n: nat| old(world).locks().reader_room(n + 1) implies (
                    #[trigger] world.locks().reader_room(n)) by {
                        assert forall|a: int| 0 <= a < world.locks().archetypes.len() implies (
                        #[trigger] world.locks().archetypes[a]).reader_room(n) by {
                            assert(old(world).locks().archetypes[a].reader_room(n + 1));
                        }
                        assert forall|id: u64| world.locks().resources.dom().contains(id) implies (
                        #[trigger] world.locks().resources[id]).reader_room(n) by {
                            assert(old(world).locks().resources[id].reader_room(n + 1));
                        }
                    }
                }
            }
            assert forall|a: int| 0 <= a < before.len() implies (#[trigger] after.latch(a)).value()
                == before.latch(a).value() by {
                if Q::reads_only() {
                    if res is Ready {
                        assert(after.has_acquired_read::<Q, F>(&before));
                        RwLockInner::lemma_make(
                            before.latch(a).value(),
                            (before.latch(a).state() + 1) as u32,
                            before.latch(a).waiting_writes(),
                        );
                    } else {
                        assert(after.unchanged(&before));
                    }
                } else if res is Ready {
                    assert(after.has_acquired::<Q, F>(&before));
                    RwLockInner::lemma_make(
                        before.latch(a).value(),
                        crate::util::rwlock::WRITE_LOCKED,
                        before.latch(a).waiting_writes(),
                    );
                } else {
                    assert(after.unchanged(&before));
                }
            }
            crate::component::archetype::storage::lemma_storage_wf(
                old(world).spec_archetypes(),
                world.spec_archetypes(),
            );
            if Q::reads_only() {
            } else if res is Ready {
                {
                    let item = res->Ready_0;
                    assert(after.has_acquired::<Q, F>(&before));
                    assert forall|k: int| 0 <= k < item@.len() implies (#[trigger] item@[k])
                        < world.locks().archetypes.len() by {
                        assert(holds_archetype(item@, item@[k] as int));
                        lemma_selected_ids::<Q, F>(before.components(), item@[k] as int);
                    }
                    assert(without_writers(world.locks(),
                        item@).archetypes =~= old(world).locks().archetypes) by {
                        assert forall|a: int| 0 <= a < before.len() implies without_writers(
                            world.locks(),
                            item@,
                        ).archetypes[a] == old(world).locks().archetypes[a] by {
                            lemma_selected_ids::<Q, F>(before.components(), a);
                            assert(after.latch(a) == if selects::<Q, F>(before.components()[a]) {
                                before.latch(a).with_state(crate::util::rwlock::WRITE_LOCKED)
                            } else {
                                before.latch(a)
                            });
                            if selects::<Q, F>(before.components()[a]) {
                                assert(before.latch(a).is_idle());
                                before.latch(a).lemma_write_release();
                                RwLockInner::lemma_make(
                                    before.latch(a).value(),
                                    crate::util::rwlock::WRITE_LOCKED,
                                    before.latch(a).waiting_writes(),
                                );
                            }
                        }
                    }
                    assert(forall|n: nat|
                        old(world).locks().reader_room(n) ==> #[trigger] world.locks().reader_room(
                            n,
                        )) by {
                        assert forall|n: nat| old(world).locks().reader_room(n) implies (
                        #[trigger] world.locks().reader_room(n)) by {
                            assert forall|a: int|
                                0 <= a < world.locks().archetypes.len() implies (
                            #[trigger] world.locks().archetypes[a]).reader_room(n) by {
                                assert(old(world).locks().archetypes[a].reader_room(n));
                                RwLockInner::lemma_make(
                                    before.latch(a).value(),
                                    crate::util::rwlock::WRITE_LOCKED,
                                    before.latch(a).waiting_writes(),
                                );
                            }
                        }
                    }
                }
            } else {
                assert(after.unchanged(&before));
                assert(world.locks().archetypes =~= old(world).locks().archetypes);
            }
        }
        match res {
            Poll::Ready(item) => Poll::Ready(QueryAcquireResult::Ready(item)),
            Poll::Pending => Poll::Pending,
        }
    }

    fn release(world: &mut World<V>, state: &mut Self::State, item: Self::Item) {
        let ghost before = old(world).spec_archetypes().raw();
        proof {
            before.lemma_len_bound();
        }
        item.release(world.archetypes_mut());
        proof {
            let after = world.spec_archetypes().raw();
            assert(world.locks().resources =~= old(world).locks().resources);
            if Q::reads_only() {
                assert forall|a: int| 0 <= a < before.len() implies (#[trigger] after.latch(
                    a,
                )).value() == before.latch(a).value() && world.locks().archetypes[a]
                    == without_readers(old(world).locks(), item@).archetypes[a] by {
                    assert(after.latch(a as usize as int) == if item@.contains(a as usize) {
                        given_back(before.latch(a), true)
                    } else {
                        before.latch(a)
                    });
                    if item@.contains(a as usize) {
                        let k = choose|k: int| 0 <= k < item@.len() && item@[k] == a as usize;
                        assert(item@[k] == a);
                    }
                    if holds_archetype(item@, a) {
                        let k = choose|k: int| 0 <= k < item@.len() && #[trigger] item@[k] == a;
                        assert(item@[k] == a as usize);
                    }
                    RwLockInner::lemma_make(
                        before.latch(a).value(),
                        before.latch(a).state().wrapping_sub(1),
                        before.latch(a).waiting_writes(),
                    );
                }
                assert(world.locks().archetypes =~= without_readers(
                    old(world).locks(),
                    item@,
                ).archetypes);
                crate::component::archetype::storage::lemma_storage_wf(
                    old(world).spec_archetypes(),
                    world.spec_archetypes(),
                );
            }
            assert(Q::reads_only() || world.locks().archetypes =~= without_writers(
                old(world).locks(),
                item@,
            ).archetypes) by {
                assert forall|a: int|
                    !Q::reads_only() && 0 <= a < before.len() implies world.locks().archetypes[a]
                    == without_writers(old(world).locks(), item@).archetypes[a] by {
                    assert(after.latch(a as usize as int) == if item@.contains(a as usize) {
                        before.latch(a).with_state(0)
                    } else {
                        before.latch(a)
                    });
                    if item@.contains(a as usize) {
                        let k = choose|k: int| 0 <= k < item@.len() && item@[k] == a as usize;
                        assert(item@[k] == a);
                    }
                    if holds_archetype(item@, a) {
                        let k = choose|k: int| 0 <= k < item@.len() && #[trigger] item@[k] == a;
                        assert(item@[k] == a as usize);
                    }
                    RwLockInner::lemma_make(
                        before.latch(a).value(),
                        0,
                        before.latch(a).waiting_writes(),
                    );
                }
            }
            assert forall|a: int|
                !Q::reads_only() && 0 <= a < before.len() implies (#[trigger] after.latch(
                a,
            )).value() == before.latch(a).value() by {
                assert(after.latch(a as usize as int) == if item@.contains(a as usize) {
                    before.latch(a).with_state(0)
                } else {
                    before.latch(a)
                });
                RwLockInner::lemma_make(
                    before.latch(a).value(),
                    0,
                    before.latch(a).waiting_writes(),
                );
            }
            crate::component::archetype::storage::lemma_storage_wf(
                old(world).spec_archetypes(),
                world.spec_archetypes(),
            );
        }
    }

    fn validate() -> (validator: QueryValidator) {
        Q::validate()
    }
}

} // verus!
