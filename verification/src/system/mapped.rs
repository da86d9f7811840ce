//! A system whose result is put through a function.

use core::marker::PhantomData;
use vstd::prelude::*;
use crate::util::claims::{merged, Claim};
use crate::query::validate::{ClaimId, QueryValidator, QueryValidatorEntryState};
use crate::query::{not_ready, QueryAcquireResult};
use crate::system::{IntoSystem, ReadOnlySystem, System, SystemId};
use crate::world::World;
use crate::Poll;

verus! {

/// A function from what a system returns to what the mapped system returns.
pub trait SystemMap<X, Return> {
    /// Whether this function and `out` are what applying the function
    /// `before` to `value` makes.
    spec fn is_apply_of(&self, out: Return, before: &Self, value: X) -> bool;

    /// Applies the function.
    fn apply(&mut self, value: X) -> (out: Return)
        ensures
            final(self).is_apply_of(out, old(self), value),
    ;
}

/// A thing that turns into a system that returns values of type `X`, and a
/// function for those values.
pub struct IntoMappedSystem<X, A, B> {
    pub a: A,
    pub b: B,
    pub marker: PhantomData<X>,
}

/// A system that returns values of type `X`, and a function for those values.
pub struct MappedSystem<X, A, B> {
    a: A,
    b: B,
    marker: PhantomData<X>,
}

impl<X, A, B> MappedSystem<X, A, B> {
    /// The system.
    pub closed spec fn inner(&self) -> A {
        self.a
    }

    /// The function.
    pub closed spec fn function(&self) -> B {
        self.b
    }
}

impl<V, X, Return, A, B> System<V, Return> for MappedSystem<X, A, B> where
    A: System<V, X>,
    B: SystemMap<X, Return>,
 {
    type Passed = A::Passed;

    open spec fn is_running(&self) -> bool {
        self.inner().is_running()
    }

    open spec fn spec_readers(&self) -> nat {
        self.inner().spec_readers()
    }

    open spec fn is_cancel_of(&self, before: &Self) -> bool {
        self.inner().is_cancel_of(&before.inner()) && self.function() == before.function()
    }

    open spec fn is_start_of(&self, before: &Self, passed: Self::Passed) -> bool {
        self.inner().is_start_of(&before.inner(), passed) && self.function() == before.function()
    }

    open spec fn is_poll_of(
        &self,
        after: &World<V>,
        res: Poll<QueryAcquireResult<Return>>,
        before: &Self,
        world: &World<V>,
    ) -> bool {
        exists|found: Poll<QueryAcquireResult<X>>| #[trigger]
            self.inner().is_poll_of(after, found, &before.inner(), world) && match found {
                Poll::Ready(QueryAcquireResult::Ready(value)) => res is Ready && res->Ready_0
                    is Ready && self.function().is_apply_of(
                    res->Ready_0->Ready_0,
                    &before.function(),
                    value,
                ),
                _ => self.function() == before.function() && res == not_ready::<X, Return>(found),
            }
    }

    fn readers(&self) -> (n: u32) {
        self.a.readers()
    }

    fn running(&self) -> (b: bool) {
        self.a.running()
    }

    fn cancel(&mut self) {
        self.a.cancel();
    }

    fn start(&mut self, passed: Self::Passed) {
        self.a.start(passed);
    }

    fn poll(&mut self, world: &mut World<V>) -> (res: Poll<QueryAcquireResult<Return>>) {
        let found = self.a.poll(world);
        let ghost got = found;
        proof {
            assert(self.inner().is_poll_of(world, got, &old(self).inner(), old(world)));
        }
        match found {
            Poll::Ready(QueryAcquireResult::Ready(out)) => {
                let mapped = self.b.apply(out);
                proof {
                    assert(self.inner().is_poll_of(world, got, &old(self).inner(), old(world)));
                }
                Poll::Ready(QueryAcquireResult::Ready(mapped))
            },
            Poll::Ready(QueryAcquireResult::DoesNotExist { name }) => Poll::Ready(
                QueryAcquireResult::DoesNotExist { name },
            ),
            Poll::Pending => Poll::Pending,
        }
    }
}

impl<V, X, Return, A, B> ReadOnlySystem<V, Return> for MappedSystem<X, A, B> where
    A: ReadOnlySystem<V, X>,
    B: SystemMap<X, Return>,
 {

}

impl<V, X, Return, A, B> IntoSystem<V, Return> for IntoMappedSystem<X, A, B> where
    A: IntoSystem<V, X>,
    B: SystemMap<X, Return>,
 {
    type System = MappedSystem<X, A::System, B>;

    open spec fn component_entries() -> Seq<Claim<QueryValidatorEntryState>> {
        A::component_entries()
    }

    open spec fn resource_entries() -> Seq<Claim<QueryValidatorEntryState>> {
        A::resource_entries()
    }

    open spec fn claims() -> Map<ClaimId, QueryValidatorEntryState> {
        A::claims()
    }

    open spec fn is_system_of(
        &self,
        system: Self::System,
        after: &World<V>,
        before: &World<V>,
        system_id: Option<SystemId>,
    ) -> bool {
        self.a.is_system_of(system.inner(), after, before, system_id) && system.function()
            == self.b
    }

    fn validate() -> (validator: QueryValidator) {
        A::validate()
    }

    fn into_system(self, world: &mut World<V>, system_id: Option<SystemId>) -> (system: Self::System) {
        let a = self.a.into_system(world, system_id);
        MappedSystem { a, b: self.b, marker: PhantomData }
    }

    fn into_system_unchecked(self, world: &mut World<V>, system_id: Option<SystemId>) -> (system: Self::System) {
        let a = self.a.into_system_unchecked(world, system_id);
        MappedSystem { a, b: self.b, marker: PhantomData }
    }
}

/// The system that runs `a` and applies `with` to what it returns.
pub fn map_system<X, A, B>(a: A, with: B) -> (mapped: IntoMappedSystem<X, A, B>)
    ensures
        mapped.a == a,
        mapped.b == with,
{
    IntoMappedSystem { a, b: with, marker: PhantomData }
}

} // verus!
