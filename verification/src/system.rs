//! Systems: units of work that acquire what they ask for, run, and give it back.
//!
//! A system is started with what is passed to it and then polled until it
//! is ready. Between two polls a system holds no latch of the world.

use vstd::prelude::*;
use crate::query::validate::{ClaimId, QueryValidator, QueryValidatorEntryState};
use crate::query::QueryAcquireResult;
use crate::world::World;
use crate::Poll;

pub mod function;
pub mod mapped;
pub mod parallel;
pub mod param;
pub mod passed;
pub mod piped;
pub mod series;
pub mod state;

pub use function::{into_function_system, FunctionSystem, IntoFunctionSystem, SystemBody};
pub use mapped::{map_system, IntoMappedSystem, MappedSystem, SystemMap};
pub use parallel::{parallel, IntoParallelSystem, ParallelSystem};
pub use param::Local;
pub use passed::{pass, IntoPassedSystem, PassedSystem};
pub use piped::{pipe, In, IntoPipedSystem, PipedSystem};
pub use series::{then, IntoSeriesSystem, SeriesSystem};
pub use state::PersistentSystemState;

verus! {

/// The identity of a system among the systems of an application.
#[derive(Clone, Copy, Debug, PartialEq, Eq, Structural)]
pub struct SystemId(pub u64);

impl SystemId {
    /// An identity that no earlier call with this counter has given out,
    /// for as long as the counter has not gone round.
    pub fn unique(next: &mut u64) -> (id: Self)
        ensures
            id == SystemId(*old(next)),
            *final(next) == old(next).wrapping_add(1),
    {
        let id = SystemId(*next);
        *next = next.wrapping_add(1);
        id
    }
}

/// What can be passed to a system when it is started.
pub trait SystemPassable {

}

impl SystemPassable for () {

}

/// A unit of work on a world whose values are of type `V`.
pub trait System<V, Return> {
    /// What is passed to the system when it is started.
    type Passed;

    /// Whether the system has been started and is not ready yet.
    spec fn is_running(&self) -> bool;

    /// The number of readers that one poll may add to one latch.
    spec fn spec_readers(&self) -> nat;

    /// Whether this system is what giving the run up makes of `before`.
    spec fn is_cancel_of(&self, before: &Self) -> bool;

    /// Whether this system is what starting it with `passed` makes of
    /// `before`.
    spec fn is_start_of(&self, before: &Self, passed: Self::Passed) -> bool;

    /// Whether this system, the world `after` and `res` are what one poll
    /// makes of the system `before` and the world `world`.
    spec fn is_poll_of(
        &self,
        after: &World<V>,
        res: Poll<QueryAcquireResult<Return>>,
        before: &Self,
        world: &World<V>,
    ) -> bool;

    /// The number of readers that one poll may add to one latch, for
    /// whoever has to make room before it polls.
    fn readers(&self) -> (n: u32)
        ensures
            crate::query::counts(n, self.spec_readers()),
    ;

    /// Whether the system has been started and is not ready yet.
    fn running(&self) -> (b: bool)
        ensures
            b == self.is_running(),
    ;

    /// Gives the run up, if there is one.
    fn cancel(&mut self)
        ensures
            !final(self).is_running(),
            final(self).spec_readers() == old(self).spec_readers(),
            final(self).is_cancel_of(old(self)),
    ;

    /// Starts the system.
    fn start(&mut self, passed: Self::Passed)
        requires
            !old(self).is_running(),
        ensures
            final(self).is_running(),
            final(self).spec_readers() == old(self).spec_readers(),
            final(self).is_start_of(old(self), passed),
    ;

    /// Polls the system: it acquires what it asks for, runs and gives
    /// everything back in one step, or it is pending and has changed no
    /// latch. A system that finds that something it asks for does not exist
    /// is ready with that finding.
    fn poll(&mut self, world: &mut World<V>) -> (res: Poll<QueryAcquireResult<Return>>)
        requires
            old(self).is_running(),
            old(world).wf(),
            old(world).locks().reader_room(old(self).spec_readers()),
        ensures
            final(world).wf(),
            final(world).locks() == old(world).locks(),
            final(self).is_running() == (res is Pending),
            final(self).spec_readers() == old(self).spec_readers(),
            final(self).is_poll_of(final(world), res, old(self), old(world)),
    ;
}

/// Whether the system `after`, the world `world_after` and `res` are what
/// driving the system `before` one step makes of it and of the world
/// `world`: unless a run is under way, the system is started with `passed`;
/// it is polled once; and when that poll has finished the run, the commands
/// of the world are settled (see [`World::settle_commands`]).
pub open spec fn is_drive_of<V, Return, S: System<V, Return>>(
    after: &S,
    world_after: &World<V>,
    res: Poll<QueryAcquireResult<Return>>,
    before: &S,
    world: &World<V>,
    passed: S::Passed,
) -> bool {
    exists|started: S, polled: World<V>| #[trigger]
        after.is_poll_of(&polled, res, &started, world) && (if before.is_running() {
            started == *before
        } else {
            started.is_start_of(before, passed)
        }) && (if res is Ready {
            world_after.is_settle_of(&polled)
        } else {
            *world_after == polled
        })
}

/// Drives a system one step: starts a run with `passed` unless one is
/// under way, and polls it once. When the run has finished, the commands
/// that wait in the queue are settled: the system has given back what it
/// held, so that the changes it asked for can be made.
pub fn drive<V, Return, S: System<V, Return>>(
    system: &mut S,
    passed: S::Passed,
    world: &mut World<V>,
) -> (res: Poll<QueryAcquireResult<Return>>)
    requires
        old(world).wf(),
        old(world).locks().reader_room(old(system).spec_readers()),
    ensures
        final(world).wf(),
        final(system).is_running() == (res is Pending),
        final(system).spec_readers() == old(system).spec_readers(),
        res is Pending ==> final(world).locks() == old(world).locks(),
        is_drive_of(final(system), final(world), res, old(system), old(world), passed),
{
    if !system.running() {
        system.start(passed);
    }
    let ghost started = *system;
    let res = system.poll(world);
    let ghost polled = *world;
    if res.is_ready() {
        let _ = world.settle_commands();
    }
    proof {
        assert(system.is_poll_of(&polled, res, &started, old(world)));
    }
    res
}

/// Drives a system one step where every latch of the world has room for
/// the readers that the step may add; see [`drive`]. Where a latch has no
/// such room, nothing is done.
pub fn try_drive<V, Return, S: System<V, Return>>(
    system: &mut S,
    passed: S::Passed,
    world: &mut World<V>,
) -> (res: Option<Poll<QueryAcquireResult<Return>>>)
    requires
        old(world).wf(),
    ensures
        final(world).wf(),
        res is Some == old(world).locks().reader_room(old(system).spec_readers()),
        res matches Some(step) ==> final(system).is_running() == (step is Pending) && is_drive_of(
            final(system),
            final(world),
            step,
            old(system),
            old(world),
            passed,
        ),
        res is None ==> *final(system) == *old(system) && *final(world) == *old(world),
        final(system).spec_readers() == old(system).spec_readers(),
{
    let n = system.readers();
    proof {
        crate::query::lemma_counted_room(world.locks(), n, system.spec_readers());
    }
    if world.has_reader_room(n) {
        Some(drive(system, passed, world))
    } else {
        None
    }
}

/// A system that reads only.
pub trait ReadOnlySystem<V, Return>: System<V, Return> {

}

/// What can be turned into a system.
pub trait IntoSystem<V, Return>: Sized {
    /// The system that `self` turns into.
    type System: System<V, Return>;

    /// The values that the system will access, each with the way it does.
    spec fn claims() -> Map<ClaimId, QueryValidatorEntryState>;

    /// The component types that the system accesses, in the order in which
    /// its validator lists them, each with its name and the way it is
    /// accessed.
    spec fn component_entries() -> Seq<crate::util::claims::Claim<QueryValidatorEntryState>>;

    /// The resource types that the system accesses, in the order in which
    /// its validator lists them, each with its name and the way it is
    /// accessed.
    spec fn resource_entries() -> Seq<crate::util::claims::Claim<QueryValidatorEntryState>>;

    /// Whether `system` and the world `after` are what turning `self` into
    /// a system for the holder `system_id` makes of the world `before`.
    spec fn is_system_of(
        &self,
        system: Self::System,
        after: &World<V>,
        before: &World<V>,
        system_id: Option<SystemId>,
    ) -> bool;

    /// The validator of the system: the join of what its queries ask for.
    fn validate() -> (validator: QueryValidator)
        ensures
            validator.wf(),
            validator@ == Self::claims(),
            validator.component_entries() == Self::component_entries(),
            validator.resource_entries() == Self::resource_entries(),
    ;

    /// Turns `self` into a system for the given world. A system whose
    /// queries conflict cannot be made: see [`IntoSystem::validate`].
    fn into_system(self, world: &mut World<V>, system_id: Option<SystemId>) -> (system: Self::System)
        requires
            old(world).wf(),
            !crate::util::claims::map_has_error(Self::claims()),
        ensures
            final(world).wf(),
            final(world).locks() == old(world).locks(),
            !system.is_running(),
            self.is_system_of(system, final(world), old(world), system_id),
    ;

    /// Turns `self` into a system for the given world, without looking at
    /// its queries.
    fn into_system_unchecked(self, world: &mut World<V>, system_id: Option<SystemId>) -> (system: Self::System)
        requires
            old(world).wf(),
        ensures
            final(world).wf(),
            final(world).locks() == old(world).locks(),
            !system.is_running(),
            self.is_system_of(system, final(world), old(world), system_id),
    ;
}

/// What can be turned into a system that is started with a value.
pub trait IntoSystemPassable<V, Passed: Copy, Return>: IntoSystem<V, Return> where
    Self::System: System<V, Return, Passed = In<Passed>>,
 {

}

impl<V, Passed: Copy, Return, S: IntoSystem<V, Return>> IntoSystemPassable<V, Passed, Return> for S where
    S::System: System<V, Return, Passed = In<Passed>>,
 {

}

/// What can be turned into a system that returns nothing.
pub trait IntoUnitSystem<V>: IntoSystem<V, ()> {

}

impl<V, S: IntoSystem<V, ()>> IntoUnitSystem<V> for S {

}

/// What can be turned into a system that returns `true` or `false`.
pub trait IntoBoolSystem<V>: IntoSystem<V, bool> {

}

impl<V, S: IntoSystem<V, bool>> IntoBoolSystem<V> for S {

}

/// What can be turned into a system that reads only.
pub trait IntoReadOnlySystem<V, Return>: IntoSystem<V, Return> where
    <Self as IntoSystem<V, Return>>::System: ReadOnlySystem<V, Return>,
 {

}

} // verus!
