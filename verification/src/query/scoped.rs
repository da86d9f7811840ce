//! A query that is acquired only for the time of a scope.

use vstd::prelude::*;
use crate::util::claims::{merged, Claim};
use crate::query::{Query, QueryAcquireResult};
use crate::system::SystemId;
use crate::world::World;
use crate::Poll;

verus! {

/// A query that its holder acquires when it needs it, and gives back when
/// it is done, instead of holding it for the whole run of a system.
pub struct Scoped<V, Q: Query<V>> {
    state: Q::State,
    marker: core::marker::PhantomData<V>,
}

impl<V, Q: Query<V>> Scoped<V, Q> {
    /// The state of the inner query.
    pub closed spec fn state(&self) -> Q::State {
        self.state
    }

    /// Tries to acquire the inner query; see [`Query::acquire`].
    pub fn maybe_lock(&mut self, world: &mut World<V>) -> (res: Poll<QueryAcquireResult<Q::Item>>)
        requires
            old(world).wf(),
            old(world).locks().reader_room(Q::spec_readers()),
        ensures
            final(world).wf(),
            res matches Poll::Ready(QueryAcquireResult::Ready(item)) ==> Q::can_release(
                final(world).locks(),
                item,
            ) && Q::released(final(world).locks(), item) == old(world).locks(),
            !(res matches Poll::Ready(QueryAcquireResult::Ready(_))) ==> final(world).locks()
                == old(world).locks(),
            Q::is_acquire_of(
                *final(world),
                final(self).state(),
                res,
                *old(world),
                old(self).state(),
            ),
    {
        Q::acquire(world, &mut self.state)
    }

    /// Gives back what [`Scoped::maybe_lock`] acquired; see [`Query::release`].
    pub fn unlock(&mut self, world: &mut World<V>, item: Q::Item)
        requires
            old(world).wf(),
            Q::can_release(old(world).locks(), item),
        ensures
            final(world).wf(),
            final(world).locks() == Q::released(old(world).locks(), item),
            Q::is_release_of(
                *final(world),
                final(self).state(),
                *old(world),
                old(self).state(),
                item,
            ),
    {
        Q::release(world, &mut self.state, item)
    }
}

impl<V, Q: Query<V>> Query<V> for Scoped<V, Q> {
    type Item = Scoped<V, Q>;

    type State = Option<SystemId>;

    open spec fn component_entries() -> Seq<Claim<crate::query::validate::QueryValidatorEntryState>> {
        Q::component_entries()
    }

    open spec fn resource_entries() -> Seq<Claim<crate::query::validate::QueryValidatorEntryState>> {
        Q::resource_entries()
    }

    open spec fn claims() -> Map<crate::query::validate::ClaimId,
        crate::query::validate::QueryValidatorEntryState> {
        Q::claims()
    }

    open spec fn spec_readers() -> nat {
        0
    }

    open spec fn can_release(locks: crate::world::LockView, item: Self::Item) -> bool {
        true
    }

    open spec fn released(locks: crate::world::LockView,
        item: Self::Item) -> crate::world::LockView {
        locks
    }

    open spec fn is_init_of(
        after: World<V>,
        state: Self::State,
        before: World<V>,
        system_id: Option<SystemId>,
    ) -> bool {
        after == before && state == system_id
    }

    open spec fn is_acquire_of(
        after: World<V>,
        state_after: Self::State,
        res: Poll<QueryAcquireResult<Self::Item>>,
        before: World<V>,
        state_before: Self::State,
    ) -> bool {
        &&& state_after == state_before
        &&& res matches Poll::Ready(QueryAcquireResult::Ready(scoped)) && Q::is_init_of(
            after,
            scoped.state(),
            before,
            state_before,
        )
    }

    open spec fn is_release_of(
        after: World<V>,
        state_after: Self::State,
        before: World<V>,
        state_before: Self::State,
        item: Self::Item,
    ) -> bool {
        after == before && state_after == state_before
    }

    fn readers() -> (n: u32) {
        0
    }

    fn init_state(world: &mut World<V>, system_id: Option<SystemId>) -> (state: Self::State) {
        system_id
    }

    fn acquire(world: &mut World<V>, state: &mut Self::State) -> (res: Poll<
        QueryAcquireResult<Self::Item>,
    >) {
        let inner = Q::init_state(world, *state);
        Poll::Ready(
            QueryAcquireResult::Ready(Scoped { state: inner, marker: core::marker::PhantomData }),
        )
    }

    fn release(world: &mut World<V>, state: &mut Self::State, item: Self::Item) {
    }

    fn validate() -> (validator: crate::query::validate::QueryValidator) {
        Q::validate()
    }
}

} // verus!
