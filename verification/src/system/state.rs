//! A system that is kept for repeated runs.

use vstd::prelude::*;
use crate::query::QueryAcquireResult;
use crate::system::{drive, is_drive_of, System};
use crate::world::World;
use crate::Poll;

verus! {

/// A system that is kept between runs, with the state of its queries.
pub struct PersistentSystemState<S> {
    system: S,
}

impl<S> PersistentSystemState<S> {
    /// The system.
    pub closed spec fn system(&self) -> S {
        self.system
    }

    /// Keeps a system for repeated runs.
    pub fn new(system: S) -> (state: Self)
        ensures
            state.system() == system,
    {
        PersistentSystemState { system }
    }

    /// Starts a run with `passed`, unless one is under way, and polls it
    /// once; a run that has finished is followed by the settling of the
    /// commands. See [`drive`].
    pub fn run_with<V, Return>(&mut self, passed: S::Passed, world: &mut World<V>) -> (res: Poll<
        QueryAcquireResult<Return>,
    >) where S: System<V, Return>
        requires
            old(world).wf(),
            old(world).locks().reader_room(old(self).system().spec_readers()),
        ensures
            final(world).wf(),
            final(self).system().is_running() == (res is Pending),
            final(self).system().spec_readers() == old(self).system().spec_readers(),
            res is Pending ==> final(world).locks() == old(world).locks(),
            is_drive_of(
                &final(self).system(),
                final(world),
                res,
                &old(self).system(),
                old(world),
                passed,
            ),
    {
        drive(&mut self.system, passed, world)
    }

    /// Starts a run, unless one is under way, and polls it once; a run that
    /// has finished is followed by the settling of the commands. See
    /// [`drive`].
    pub fn run<V, Return>(&mut self, world: &mut World<V>) -> (res: Poll<QueryAcquireResult<Return>>) where
        S: System<V, Return, Passed = ()>,

        requires
            old(world).wf(),
            old(world).locks().reader_room(old(self).system().spec_readers()),
        ensures
            final(world).wf(),
            final(self).system().is_running() == (res is Pending),
            final(self).system().spec_readers() == old(self).system().spec_readers(),
            res is Pending ==> final(world).locks() == old(world).locks(),
            is_drive_of(
                &final(self).system(),
                final(world),
                res,
                &old(self).system(),
                old(world),
                (),
            ),
    {
        self.run_with((), world)
    }
}

} // verus!
