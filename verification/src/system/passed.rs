//! A system that is started with the same value each time.

use vstd::prelude::*;
use crate::util::claims::{merged, Claim};
use crate::query::validate::{ClaimId, QueryValidator, QueryValidatorEntryState};
use crate::query::QueryAcquireResult;
use crate::system::piped::In;
use crate::system::{IntoSystem, ReadOnlySystem, System, SystemId};
use crate::world::World;
use crate::Poll;

verus! {

/// A thing that turns into a system, and the value that the system is
/// started with.
pub struct IntoPassedSystem<Passed, S> {
    pub system: S,
    pub passed: Passed,
}

/// A system and the value that it is started with.
pub struct PassedSystem<Passed, S> {
    system: S,
    passed: Passed,
}

impl<Passed, S> PassedSystem<Passed, S> {
    /// The system.
    pub closed spec fn inner(&self) -> S {
        self.system
    }

    /// The value that the system is started with.
    pub closed spec fn passed(&self) -> Passed {
        self.passed
    }
}

impl<V, Passed: Copy, Return, S> System<V, Return> for PassedSystem<Passed, S> where
    S: System<V, Return, Passed = In<Passed>>,
 {
    type Passed = ();

    open spec fn is_running(&self) -> bool {
        self.inner().is_running()
    }

    open spec fn spec_readers(&self) -> nat {
        self.inner().spec_readers()
    }

    open spec fn is_cancel_of(&self, before: &Self) -> bool {
        self.inner().is_cancel_of(&before.inner()) && self.passed() == before.passed()
    }

    open spec fn is_start_of(&self, before: &Self, passed: Self::Passed) -> bool {
        self.inner().is_start_of(&before.inner(), In(before.passed())) && self.passed()
            == before.passed()
    }

    open spec fn is_poll_of(
        &self,
        after: &World<V>,
        res: Poll<QueryAcquireResult<Return>>,
        before: &Self,
        world: &World<V>,
    ) -> bool {
        self.inner().is_poll_of(after, res, &before.inner(), world) && self.passed()
            == before.passed()
    }

    fn readers(&self) -> (n: u32) {
        self.system.readers()
    }

    fn running(&self) -> (b: bool) {
        self.system.running()
    }

    fn cancel(&mut self) {
        self.system.cancel();
    }

    fn start(&mut self, passed: Self::Passed) {
        self.system.start(In(self.passed));
    }

    fn poll(&mut self, world: &mut World<V>) -> (res: Poll<QueryAcquireResult<Return>>) {
        self.system.poll(world)
    }
}

impl<V, Passed: Copy, Return, S> IntoSystem<V, Return> for IntoPassedSystem<Passed, S> where
    S: IntoSystem<V, Return>,
    S::System: System<V, Return, Passed = In<Passed>>,
 {
    type System = PassedSystem<Passed, S::System>;

    open spec fn component_entries() -> Seq<Claim<QueryValidatorEntryState>> {
        S::component_entries()
    }

    open spec fn resource_entries() -> Seq<Claim<QueryValidatorEntryState>> {
        S::resource_entries()
    }

    open spec fn claims() -> Map<ClaimId, QueryValidatorEntryState> {
        S::claims()
    }

    open spec fn is_system_of(
        &self,
        system: Self::System,
        after: &World<V>,
        before: &World<V>,
        system_id: Option<SystemId>,
    ) -> bool {
        self.system.is_system_of(system.inner(), after, before, system_id) && system.passed()
            == self.passed
    }

    fn validate() -> (validator: QueryValidator) {
        S::validate()
    }

    fn into_system(self, world: &mut World<V>, system_id: Option<SystemId>) -> (system: Self::System) {
        let system = self.system.into_system(world, system_id);
        PassedSystem { system, passed: self.passed }
    }

    fn into_system_unchecked(self, world: &mut World<V>, system_id: Option<SystemId>) -> (system: Self::System) {
        let system = self.system.into_system_unchecked(world, system_id);
        PassedSystem { system, passed: self.passed }
    }
}

/// The system that starts `system` with `passed`, each time it is started.
pub fn pass<Passed, S>(system: S, passed: Passed) -> (bound: IntoPassedSystem<Passed, S>)
    ensures
        bound.system == system,
        bound.passed == passed,
{
    IntoPassedSystem { system, passed }
}

impl<V, Passed: Copy, Return, S> ReadOnlySystem<V, Return> for PassedSystem<Passed, S> where
    S: ReadOnlySystem<V, Return, Passed = In<Passed>>,
 {

}

} // verus!
