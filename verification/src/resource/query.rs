//! Queries of resources: one resource, read or changed.
//!
//! A query of a resource claims the resource as read, whether it reads or
//! changes it: two holders of one resource are kept apart by the latch of
//! the resource, which a second holder finds taken, not by the validator.

use core::marker::PhantomData;
use vstd::prelude::*;
use crate::util::claims::{merged, Claim};
use crate::query::validate::{ClaimId, single_claim, QueryValidator, QueryValidatorEntryState};
use crate::query::{Query, QueryAcquireResult, ReadOnlyQuery};
use crate::resource::storage::{ResourceCellReadGuard, ResourceCellWriteGuard};
use crate::resource::Resource;
use crate::system::SystemId;
use crate::util::rwlock::{RwLockInner, WRITE_LOCKED};
use crate::world::{counters, Counters, LockView, World};
use crate::Poll;

verus! {

/// What a query of a resource holds while it lives.
pub trait ResInner {
    /// The guard on the latch of the resource.
    type Guard;
}

/// A resource of the type that `R` refers to, held for reading where `R` is
/// a shared reference and for writing where it is a mutable one.
pub struct Res<R: ResInner> {
    guard: R::Guard,
}

impl<'l, R: Resource> ResInner for &'l R {
    type Guard = ResourceCellReadGuard;
}

impl<'l, R: Resource> ResInner for &'l mut R {
    type Guard = ResourceCellWriteGuard;
}

/// The locks with one reader less on the resource `id`.
pub open spec fn without_reader(locks: LockView, id: u64) -> LockView {
    LockView {
        archetype_registry: locks.archetype_registry,
        archetypes: locks.archetypes,
        resource_registry: locks.resource_registry,
        resources: locks.resources.insert(
            id,
            Counters {
                state: locks.resources[id].state.wrapping_sub(1),
                waiting_writes: locks.resources[id].waiting_writes,
            },
        ),
        cmd_queue: locks.cmd_queue,
    }
}

/// The locks without the writer of the resource `id`.
pub open spec fn without_writer(locks: LockView, id: u64) -> LockView {
    LockView {
        archetype_registry: locks.archetype_registry,
        archetypes: locks.archetypes,
        resource_registry: locks.resource_registry,
        resources: locks.resources.insert(
            id,
            Counters { state: 0, waiting_writes: locks.resources[id].waiting_writes },
        ),
        cmd_queue: locks.cmd_queue,
    }
}

impl<'l, R: Resource> Res<&'l R> {
    /// The type of the resource that the guard of this view is for.
    pub closed spec fn guarded(&self) -> u64 {
        self.guard.spec_type_id()
    }

    /// The value of the resource, if it is still there.
    pub fn get<'a, V>(&self, world: &'a World<V>) -> (resource: Option<&'a V>)
        requires
            world.wf(),
        ensures
            resource is Some == world.spec_resources().raw().contains(self.guarded()),
            resource matches Some(value) ==> *value == world.spec_resources().raw().value(
                self.guarded(),
            ),
    {
        world.resources().read(&self.guard)
    }

    /// The same view, for as long as its holder likes.
    pub fn as_static(self) -> (res: Self)
        ensures
            res == self,
    {
        self
    }
}

impl<'l, R: Resource> Res<&'l mut R> {
    /// The type of the resource that the guard of this view is for.
    pub closed spec fn guarded(&self) -> u64 {
        self.guard.spec_type_id()
    }

    /// The value of the resource, if it is still there.
    pub fn get<'a, V>(&self, world: &'a World<V>) -> (resource: Option<&'a V>)
        requires
            world.wf(),
        ensures
            resource is Some == world.spec_resources().raw().contains(self.guarded()),
            resource matches Some(value) ==> *value == world.spec_resources().raw().value(
                self.guarded(),
            ),
    {
        world.resources().view(&self.guard)
    }

    /// Puts `resource` in the place of the value of the resource and hands
    /// out the old value; hands `resource` back where the resource is gone.
    pub fn set<V>(&self, world: &mut World<V>, resource: V) -> (res: Result<V, V>)
        requires
            old(world).wf(),
        ensures
            final(world).wf(),
            final(world).same_rest(old(world)),
            final(world).spec_archetypes() == old(world).spec_archetypes(),
            res is Ok == old(world).spec_resources().raw().contains(self.guarded()),
            res matches Ok(previous) ==> previous == old(world).spec_resources().raw().value(
                self.guarded(),
            ) && final(world).spec_resources().raw().contains(self.guarded())
                && final(world).spec_resources().raw().value(self.guarded()) == resource,
            res matches Err(back) ==> back == resource,
    {
        let res = world.resources_mut().write(&self.guard, resource);
        proof {
            broadcast use {
                RwLockInner::lemma_make,
                crate::resource::storage::ResourceCell::lemma_new_spec,
            };

            if res is Ok {
                let id = self.guarded();
                let after = world.spec_resources().raw();
                assert(after@.dom().contains(id));
                assert(after@[id] == after.latch(id));
            }
        }
        res
    }

    /// The same view, for as long as its holder likes.
    pub fn as_static(self) -> (res: Self)
        ensures
            res == self,
    {
        self
    }
}

impl<'l, V, R: Resource> Query<V> for Res<&'l R> {
    type Item = Res<&'l R>;

    type State = ();

    open spec fn component_entries() -> Seq<Claim<QueryValidatorEntryState>> {
        Seq::empty()
    }

    open spec fn resource_entries() -> Seq<Claim<QueryValidatorEntryState>> {
        seq![
            Claim { id: R::spec_resource_id(), name: R::spec_resource_name(),
                state: QueryValidatorEntryState::Immutable },
        ]
    }

    open spec fn claims() -> Map<ClaimId, QueryValidatorEntryState> {
        single_claim(
            ClaimId::Resource(R::spec_resource_id()),
            QueryValidatorEntryState::Immutable,
        )
    }

    open spec fn spec_readers() -> nat {
        1
    }

    open spec fn can_release(locks: LockView, item: Self::Item) -> bool {
        &&& item.guarded() == R::spec_resource_id()
        &&& locks.resources.dom().contains(R::spec_resource_id())
        &&& 1 <= locks.resources[R::spec_resource_id()].state < WRITE_LOCKED
    }

    open spec fn released(locks: LockView, item: Self::Item) -> LockView {
        without_reader(locks, R::spec_resource_id())
    }

    open spec fn is_init_of(
        after: World<V>,
        state: Self::State,
        before: World<V>,
        system_id: Option<SystemId>,
    ) -> bool {
        after == before
    }

    open spec fn is_acquire_of(
        after: World<V>,
        state_after: Self::State,
        res: Poll<QueryAcquireResult<Self::Item>>,
        before: World<V>,
        state_before: Self::State,
    ) -> bool {
        &&& res is Pending <==> !before.spec_resources().latch().can_read()
            || (before.spec_resources().raw().contains(R::spec_resource_id())
            && !before.spec_resources().raw().latch(R::spec_resource_id()).can_read())
        &&& res matches Poll::Ready(found) ==> (found is Ready
            <==> before.spec_resources().raw().contains(R::spec_resource_id()))
        &&& after.same_rest(&before)
        &&& after.spec_archetypes() == before.spec_archetypes()
        &&& after.spec_resources().same_latch(&before.spec_resources())
        &&& res matches Poll::Ready(QueryAcquireResult::Ready(item)) ==> item.guarded()
            == R::spec_resource_id() && after.spec_resources().raw().same_but(
            &before.spec_resources().raw(),
            R::spec_resource_id(),
            before.spec_resources().raw().latch(R::spec_resource_id()).with_state(
                (before.spec_resources().raw().latch(R::spec_resource_id()).state() + 1) as u32,
            ),
        )
        &&& !(res matches Poll::Ready(QueryAcquireResult::Ready(_)))
            ==> after.spec_resources().latch() == before.spec_resources().latch()
    }

    open spec fn is_release_of(
        after: World<V>,
        state_after: Self::State,
        before: World<V>,
        state_before: Self::State,
        item: Self::Item,
    ) -> bool {
        &&& after.same_rest(&before)
        &&& after.spec_archetypes() == before.spec_archetypes()
        &&& after.spec_resources().same_latch(&before.spec_resources())
        &&& after.spec_resources().raw().same_but(
            &before.spec_resources().raw(),
            R::spec_resource_id(),
            before.spec_resources().raw().latch(R::spec_resource_id()).with_state(
                before.spec_resources().raw().latch(R::spec_resource_id()).state().wrapping_sub(1),
            ),
        )
    }

    fn readers() -> (n: u32) {
        1
    }

    fn init_state(world: &mut World<V>, system_id: Option<SystemId>) -> (state: Self::State) {
        ()
    }

    fn acquire(world: &mut World<V>, state: &mut Self::State) -> (res: Poll<
        QueryAcquireResult<Self::Item>,
    >) {
        let id = R::resource_id();
        let ghost before = old(world).spec_resources().raw();
        proof {
            assert(old(world).locks().resource_registry.reader_room(1));
            if before.contains(id) {
                assert(old(world).locks().resources.dom().contains(id));
                assert(old(world).locks().resources[id].reader_room(1));
            }
        }
        let found = world.resources_mut().try_get_ref(id);
        proof {
            broadcast use RwLockInner::lemma_make;

            let after = world.spec_resources().raw();
            assert(world.locks().archetypes =~= old(world).locks().archetypes);
            if found matches Poll::Ready(Some(_)) {
                let latch = before.latch(id).with_state((before.latch(id).state() + 1) as u32);
                assert(after@ == before@.insert(id, latch));
                assert forall|x: u64| after.contains(x) <==> (x == id || before.contains(x)) by {
                    assert(after@.dom().contains(x) <==> before@.insert(id, latch).dom().contains(
                        x,
                    ));
                }
                assert forall|x: u64| after.contains(x) implies after.latch(x) == if x == id {
                    latch
                } else {
                    before.latch(x)
                } by {
                    assert(after@[x] == before@.insert(id, latch)[x]);
                }
                assert(without_reader(world.locks(),
                    id).resources =~= old(world).locks().resources);
                assert forall|n: nat| old(world).locks().reader_room(n + 1) implies (
                #[trigger] world.locks().reader_room(n)) by {
                    assert forall|x: u64| world.locks().resources.dom().contains(x) implies (
                    #[trigger] world.locks().resources[x]).reader_room(n) by {
                        assert(old(world).locks().resources[x].reader_room(n + 1));
                    }
                    assert forall|a: int| 0 <= a < world.locks().archetypes.len() implies (
                    #[trigger] world.locks().archetypes[a]).reader_room(n) by {
                        assert(old(world).locks().archetypes[a].reader_room(n + 1));
                    }
                }
            } else {
                world.spec_resources().lemma_same_latch(&old(world).spec_resources());
                assert forall|n: nat| old(world).locks().reader_room(n + 1) implies (
                #[trigger] world.locks().reader_room(n)) by {
                    assert forall|x: u64| world.locks().resources.dom().contains(x) implies (
                    #[trigger] world.locks().resources[x]).reader_room(n) by {
                        assert(old(world).locks().resources[x].reader_room(n + 1));
                    }
                    assert forall|a: int| 0 <= a < world.locks().archetypes.len() implies (
                    #[trigger] world.locks().archetypes[a]).reader_room(n) by {
                        assert(old(world).locks().archetypes[a].reader_room(n + 1));
                    }
                }
            }
        }
        match found {
            Poll::Ready(Some(guard)) => Poll::Ready(QueryAcquireResult::Ready(Res { guard })),
            Poll::Ready(None) => Poll::Ready(
                QueryAcquireResult::DoesNotExist { name: R::resource_name() },
            ),
            Poll::Pending => Poll::Pending,
        }
    }

    fn release(world: &mut World<V>, state: &mut Self::State, item: Self::Item) {
        let ghost id = R::spec_resource_id();
        let ghost before = old(world).spec_resources().raw();
        proof {
            assert(before.contains(id));
        }
        world.resources_mut().release_read(item.guard);
        proof {
            broadcast use RwLockInner::lemma_make;

            let after = world.spec_resources().raw();
            let latch = before.latch(id).with_state(before.latch(id).state().wrapping_sub(1));
            assert(world.locks().archetypes =~= old(world).locks().archetypes);
            assert(after@ == before@.insert(id, latch));
            assert forall|x: u64| after.contains(x) <==> (x == id || before.contains(x)) by {
                assert(after@.dom().contains(x) <==> before@.insert(id, latch).dom().contains(x));
            }
            assert forall|x: u64| after.contains(x) implies after.latch(x) == if x == id {
                latch
            } else {
                before.latch(x)
            } by {
                assert(after@[x] == before@.insert(id, latch)[x]);
            }
            assert(world.locks().resources =~= without_reader(old(world).locks(), id).resources);
        }
    }

    fn validate() -> (validator: QueryValidator) {
        QueryValidator::of(
            ClaimId::Resource(R::resource_id()),
            R::resource_name(),
            QueryValidatorEntryState::Immutable,
        )
    }
}

impl<'l, V, R: Resource> ReadOnlyQuery<V> for Res<&'l R> {
    proof fn lemma_read_only() {
    }
}

impl<'l, V, R: Resource> Query<V> for Res<&'l mut R> {
    type Item = Res<&'l mut R>;

    type State = ();

    open spec fn component_entries() -> Seq<Claim<QueryValidatorEntryState>> {
        Seq::empty()
    }

    open spec fn resource_entries() -> Seq<Claim<QueryValidatorEntryState>> {
        seq![
            Claim { id: R::spec_resource_id(), name: R::spec_resource_name(),
                state: QueryValidatorEntryState::Immutable },
        ]
    }

    open spec fn claims() -> Map<ClaimId, QueryValidatorEntryState> {
        single_claim(
            ClaimId::Resource(R::spec_resource_id()),
            QueryValidatorEntryState::Immutable,
        )
    }

    open spec fn spec_readers() -> nat {
        0
    }

    open spec fn can_release(locks: LockView, item: Self::Item) -> bool {
        &&& item.guarded() == R::spec_resource_id()
        &&& locks.resources.dom().contains(R::spec_resource_id())
    }

    open spec fn released(locks: LockView, item: Self::Item) -> LockView {
        without_writer(locks, R::spec_resource_id())
    }

    open spec fn is_init_of(
        after: World<V>,
        state: Self::State,
        before: World<V>,
        system_id: Option<SystemId>,
    ) -> bool {
        after == before
    }

    open spec fn is_acquire_of(
        after: World<V>,
        state_after: Self::State,
        res: Poll<QueryAcquireResult<Self::Item>>,
        before: World<V>,
        state_before: Self::State,
    ) -> bool {
        &&& res is Pending <==> !before.spec_resources().latch().can_read()
            || (before.spec_resources().raw().contains(R::spec_resource_id())
            && !before.spec_resources().raw().latch(R::spec_resource_id()).is_idle())
        &&& res matches Poll::Ready(found) ==> (found is Ready
            <==> before.spec_resources().raw().contains(R::spec_resource_id()))
        &&& after.same_rest(&before)
        &&& after.spec_archetypes() == before.spec_archetypes()
        &&& after.spec_resources().same_latch(&before.spec_resources())
        &&& res matches Poll::Ready(QueryAcquireResult::Ready(item)) ==> item.guarded()
            == R::spec_resource_id() && after.spec_resources().raw().same_but(
            &before.spec_resources().raw(),
            R::spec_resource_id(),
            before.spec_resources().raw().latch(R::spec_resource_id()).with_state(
                WRITE_LOCKED,
            ),
        )
        &&& !(res matches Poll::Ready(QueryAcquireResult::Ready(_)))
            ==> after.spec_resources().latch() == before.spec_resources().latch()
    }

    open spec fn is_release_of(
        after: World<V>,
        state_after: Self::State,
        before: World<V>,
        state_before: Self::State,
        item: Self::Item,
    ) -> bool {
        &&& after.same_rest(&before)
        &&& after.spec_archetypes() == before.spec_archetypes()
        &&& after.spec_resources().same_latch(&before.spec_resources())
        &&& after.spec_resources().raw().same_but(
            &before.spec_resources().raw(),
            R::spec_resource_id(),
            before.spec_resources().raw().latch(R::spec_resource_id()).with_state(
                0,
            ),
        )
    }

    fn readers() -> (n: u32) {
        0
    }

    fn init_state(world: &mut World<V>, system_id: Option<SystemId>) -> (state: Self::State) {
        ()
    }

    fn acquire(world: &mut World<V>, state: &mut Self::State) -> (res: Poll<
        QueryAcquireResult<Self::Item>,
    >) {
        let id = R::resource_id();
        let ghost before = old(world).spec_resources().raw();
        proof {
            assert(old(world).locks().resource_registry.reader_room(0));
        }
        let found = world.resources_mut().try_get_mut(id);
        proof {
            broadcast use RwLockInner::lemma_make;

            let after = world.spec_resources().raw();
            assert(world.locks().archetypes =~= old(world).locks().archetypes);
            if found matches Poll::Ready(Some(_)) {
                let latch = before.latch(id).with_state(WRITE_LOCKED);
                assert(after@ == before@.insert(id, latch));
                assert forall|x: u64| after.contains(x) <==> (x == id || before.contains(x)) by {
                    assert(after@.dom().contains(x) <==> before@.insert(id, latch).dom().contains(
                        x,
                    ));
                }
                assert forall|x: u64| after.contains(x) implies after.latch(x) == if x == id {
                    latch
                } else {
                    before.latch(x)
                } by {
                    assert(after@[x] == before@.insert(id, latch)[x]);
                }
                assert(before.latch(id).is_idle());
                assert(without_writer(world.locks(),
                    id).resources =~= old(world).locks().resources);
                assert forall|n: nat| old(world).locks().reader_room(n) implies (
                #[trigger] world.locks().reader_room(n)) by {
                    assert forall|x: u64| world.locks().resources.dom().contains(x) implies (
                    #[trigger] world.locks().resources[x]).reader_room(n) by {
                        assert(old(world).locks().resources[x].reader_room(n));
                    }
                }
            } else {
                world.spec_resources().lemma_same_latch(&old(world).spec_resources());
            }
        }
        match found {
            Poll::Ready(Some(guard)) => Poll::Ready(QueryAcquireResult::Ready(Res { guard })),
            Poll::Ready(None) => Poll::Ready(
                QueryAcquireResult::DoesNotExist { name: R::resource_name() },
            ),
            Poll::Pending => Poll::Pending,
        }
    }

    fn release(world: &mut World<V>, state: &mut Self::State, item: Self::Item) {
        let ghost id = R::spec_resource_id();
        let ghost before = old(world).spec_resources().raw();
        proof {
            assert(before.contains(id));
        }
        world.resources_mut().release_write(item.guard);
        proof {
            broadcast use RwLockInner::lemma_make;

            let after = world.spec_resources().raw();
            let latch = before.latch(id).with_state(0);
            assert(world.locks().archetypes =~= old(world).locks().archetypes);
            assert(after@ == before@.insert(id, latch));
            assert forall|x: u64| after.contains(x) <==> (x == id || before.contains(x)) by {
                assert(after@.dom().contains(x) <==> before@.insert(id, latch).dom().contains(x));
            }
            assert forall|x: u64| after.contains(x) implies after.latch(x) == if x == id {
                latch
            } else {
                before.latch(x)
            } by {
                assert(after@[x] == before@.insert(id, latch)[x]);
            }
            assert(world.locks().resources =~= without_writer(old(world).locks(), id).resources);
        }
    }

    fn validate() -> (validator: QueryValidator) {
        QueryValidator::of(
            ClaimId::Resource(R::resource_id()),
            R::resource_name(),
            QueryValidatorEntryState::Immutable,
        )
    }
}

} // verus!
