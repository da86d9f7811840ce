//! Values that a system keeps for itself from one run to the next.

use vstd::prelude::*;
use crate::util::claims::{merged, Claim};
use crate::query::validate::{ClaimId, QueryValidator, QueryValidatorEntryState};
use crate::query::{Query, QueryAcquireResult, ReadOnlyQuery};
use crate::system::SystemId;
use crate::world::{LockView, World};
use crate::Poll;

verus! {

/// A value that belongs to one system: it starts as the default of its
/// type, and what a run leaves in it the next run finds.
pub struct Local<T> {
    value: T,
}

impl<T> Local<T> {
    /// The value.
    pub closed spec fn view(&self) -> T {
        self.value
    }

    /// The value.
    pub fn get(&self) -> (value: &T)
        ensures
            *value == self@,
    {
        &self.value
    }

    /// The value, to change.
    pub fn get_mut(&mut self) -> (value: &mut T)
        ensures
            *value == old(self)@,
            final(self)@ == *final(value),
    {
        &mut self.value
    }

    /// Puts another value in the place of the value.
    pub fn set(&mut self, value: T)
        ensures
            final(self)@ == value,
    {
        self.value = value;
    }
}

impl<V, T: Default> Query<V> for Local<T> {
    type Item = Local<T>;

    type State = Option<T>;

    open spec fn component_entries() -> Seq<Claim<QueryValidatorEntryState>> {
        Seq::empty()
    }

    open spec fn resource_entries() -> Seq<Claim<QueryValidatorEntryState>> {
        Seq::empty()
    }

    open spec fn claims() -> Map<ClaimId, QueryValidatorEntryState> {
        Map::empty()
    }

    open spec fn spec_readers() -> nat {
        0
    }

    open spec fn can_release(locks: LockView, item: Self::Item) -> bool {
        true
    }

    open spec fn released(locks: LockView, item: Self::Item) -> LockView {
        locks
    }

    open spec fn is_init_of(
        after: World<V>,
        state: Self::State,
        before: World<V>,
        system_id: Option<SystemId>,
    ) -> bool {
        &&& after == before
        &&& state matches Some(value) && call_ensures(T::default, (), value)
    }

    open spec fn is_acquire_of(
        after: World<V>,
        state_after: Self::State,
        res: Poll<QueryAcquireResult<Self::Item>>,
        before: World<V>,
        state_before: Self::State,
    ) -> bool {
        &&& after == before
        &&& match state_before {
            Some(value) => res matches Poll::Ready(QueryAcquireResult::Ready(local)) && local@
                == value,
            None => res is Pending,
        }
        &&& state_after is None
    }

    open spec fn is_release_of(
        after: World<V>,
        state_after: Self::State,
        before: World<V>,
        state_before: Self::State,
        item: Self::Item,
    ) -> bool {
        after == before && state_after == Some(item@)
    }

    fn readers() -> (n: u32) {
        0
    }

    fn init_state(world: &mut World<V>, system_id: Option<SystemId>) -> (state: Self::State) {
        Some(T::default())
    }

    fn acquire(world: &mut World<V>, state: &mut Self::State) -> (res: Poll<
        QueryAcquireResult<Self::Item>,
    >) {
        match state.take() {
            Some(value) => Poll::Ready(QueryAcquireResult::Ready(Local { value })),
            None => Poll::Pending,
        }
    }

    fn release(world: &mut World<V>, state: &mut Self::State, item: Self::Item) {
        *state = Some(item.value);
    }

    fn validate() -> (validator: QueryValidator) {
        QueryValidator::empty()
    }
}

impl<V, T: Default> ReadOnlyQuery<V> for Local<T> {
    proof fn lemma_read_only() {
    }
}

} // verus!
