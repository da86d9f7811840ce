//! A query with its world-independent state, kept for repeated acquisition.

use vstd::prelude::*;
use crate::query::{Query, QueryAcquireResult};
use crate::system::SystemId;
use crate::world::World;
use crate::Poll;

verus! {

/// A query together with the state that it keeps between acquisitions.
pub struct PersistentQueryState<V, Q: Query<V>> {
    state: Q::State,
    marker: core::marker::PhantomData<V>,
}

impl<V, Q: Query<V>> PersistentQueryState<V, Q> {
    /// The state of the query.
    pub closed spec fn state(&self) -> Q::State {
        self.state
    }

    /// Makes the state of the query `Q` for the given world.
    pub fn new(world: &mut World<V>, system_id: Option<SystemId>) -> (state: Self)
        requires
            old(world).wf(),
        ensures
            final(world).wf(),
            final(world).locks() == old(world).locks(),
            Q::is_init_of(*final(world), state.state(), *old(world), system_id),
    {
        PersistentQueryState { state: Q::init_state(world, system_id),
            marker: core::marker::PhantomData }
    }

    /// Tries to acquire what the query asks for; see [`Query::acquire`].
    pub fn try_acquire(&mut self, world: &mut World<V>) -> (res: Poll<QueryAcquireResult<Q::Item>>)
        requires
            old(world).wf(),
            old(world).locks().reader_room(Q::spec_readers()),
        ensures
            final(world).wf(),
            res matches Poll::Ready(QueryAcquireResult::Ready(item)) ==> Q::can_release(
                final(world).locks(),
                item,
            ) && Q::released(final(world).locks(), item) == old(world).locks(),
            !(res matches Poll::Ready(QueryAcquireResult::Ready(_))) ==> final(world).locks()
                == old(world).locks(),
            Q::is_acquire_of(
                *final(world),
                final(self).state(),
                res,
                *old(world),
                old(self).state(),
            ),
    {
        Q::acquire(world, &mut self.state)
    }

    /// A future-like handle that acquires by being polled.
    pub fn acquire(self) -> (future: QueryAcquireFuture<V, Q>)
        ensures
            future.state() == self.state(),
    {
        QueryAcquireFuture { state: self.state, marker: core::marker::PhantomData }
    }
}

/// An acquisition that is repeated until it is ready or finds that what it
/// asks for does not exist.
pub struct QueryAcquireFuture<V, Q: Query<V>> {
    state: Q::State,
    marker: core::marker::PhantomData<V>,
}

impl<V, Q: Query<V>> QueryAcquireFuture<V, Q> {
    /// The state of the query.
    pub closed spec fn state(&self) -> Q::State {
        self.state
    }

    /// An acquisition of the query `Q` with the given state.
    pub fn new(state: Q::State) -> (future: Self)
        ensures
            future.state() == state,
    {
        QueryAcquireFuture { state, marker: core::marker::PhantomData }
    }

    /// One attempt; see [`Query::acquire`].
    pub fn poll(&mut self, world: &mut World<V>) -> (res: Poll<QueryAcquireResult<Q::Item>>)
        requires
            old(world).wf(),
            old(world).locks().reader_room(Q::spec_readers()),
        ensures
            final(world).wf(),
            res matches Poll::Ready(QueryAcquireResult::Ready(item)) ==> Q::can_release(
                final(world).locks(),
                item,
            ) && Q::released(final(world).locks(), item) == old(world).locks(),
            !(res matches Poll::Ready(QueryAcquireResult::Ready(_))) ==> final(world).locks()
                == old(world).locks(),
            Q::is_acquire_of(
                *final(world),
                final(self).state(),
                res,
                *old(world),
                old(self).state(),
            ),
    {
        Q::acquire(world, &mut self.state)
    }
}

} // verus!
