//! Scheduled systems: a system with what it waits for and what gates it.

use vstd::prelude::*;
use crate::query::QueryAcquireResult;
use crate::system::{drive, is_drive_of, System};
use crate::world::World;
use crate::Poll;

pub mod condition;
pub mod scheduled;

pub use condition::{ConditionSystemConfig, IntoConditionSystemConfig};
pub use scheduled::{
    IntoScheduledSystemConfig, ScheduledAction, ScheduledEvent, ScheduledState,
    ScheduledSystemConfig,
};

verus! {

/// A system whose kind is forgotten: all that is known is what it is
/// started with and what it returns.
pub trait TypeErasedSystem<V, Passed, Return> {
    /// Whether a run is under way.
    spec fn erased_is_running(&self) -> bool;

    /// The number of readers that one poll may add to one latch.
    spec fn erased_readers(&self) -> nat;

    /// Whether this system, the world `after` and `res` are what driving
    /// the system `before` one step with `passed` makes of it and of the
    /// world `world`.
    spec fn is_erased_run_of(
        &self,
        after: &World<V>,
        res: Poll<QueryAcquireResult<Return>>,
        before: &Self,
        world: &World<V>,
        passed: Passed,
    ) -> bool;

    /// Starts a run with `passed` unless one is under way, and polls it
    /// once; a run that has finished is followed by the settling of the
    /// commands. See [`drive`].
    fn acquire_and_run(&mut self, passed: Passed, world: &mut World<V>) -> (res: Poll<
        QueryAcquireResult<Return>,
    >)
        requires
            old(world).wf(),
            old(world).locks().reader_room(old(self).erased_readers()),
        ensures
            final(world).wf(),
            final(self).erased_is_running() == (res is Pending),
            final(self).erased_readers() == old(self).erased_readers(),
            res is Pending ==> final(world).locks() == old(world).locks(),
            final(self).is_erased_run_of(final(world), res, old(self), old(world), passed),
    ;
}

impl<V, Passed, Return, S: System<V, Return, Passed = Passed>> TypeErasedSystem<
    V,
    Passed,
    Return,
> for S {
    open spec fn erased_is_running(&self) -> bool {
        self.is_running()
    }

    open spec fn erased_readers(&self) -> nat {
        self.spec_readers()
    }

    open spec fn is_erased_run_of(
        &self,
        after: &World<V>,
        res: Poll<QueryAcquireResult<Return>>,
        before: &Self,
        world: &World<V>,
        passed: Passed,
    ) -> bool {
        is_drive_of(self, after, res, before, world, passed)
    }

    fn acquire_and_run(&mut self, passed: Passed, world: &mut World<V>) -> (res: Poll<
        QueryAcquireResult<Return>,
    >) {
        drive(self, passed, world)
    }
}

} // verus!
