//! Commands: the end of a system that defers changes to the world.

use vstd::prelude::*;
use crate::app::AppExit;
use crate::component::bundle::Bundle;
use crate::entity::Entity;
use crate::world::{Command, World};

verus! {

/// The end at which a system issues changes that are made later, when no
/// system holds the world.
#[derive(Clone, Copy, Debug)]
pub struct Commands {
    _private: (),
}

impl Commands {
    /// The end for commands; every system may have one.
    pub fn new() -> Self {
        Commands { _private: () }
    }

    /// Whether the application is exiting.
    pub fn is_exiting<V>(&self, world: &World<V>) -> (b: bool)
        ensures
            b == world.spec_is_exiting(),
    {
        world.is_exiting()
    }

    /// Signals that the application is to end; see [`World::exit`].
    pub fn exit<V>(&self, world: &mut World<V>, status: AppExit)
        requires
            old(world).wf(),
            old(world).exit_state() == 0,
        ensures
            final(world).wf(),
            final(world).exit_state() == 2,
            final(world).exit_status() == Some(status),
            final(world).spec_resources() == old(world).spec_resources(),
            final(world).spec_archetypes() == old(world).spec_archetypes(),
            final(world).queue_latch() == old(world).queue_latch(),
            final(world).ran() == old(world).ran(),
            final(world).spec_events() == old(world).spec_events(),
    {
        world.exit(status)
    }

    /// Signals that the application is to end, unless it is ending
    /// already; see [`World::try_exit`].
    pub fn try_exit<V>(&self, world: &mut World<V>, status: AppExit) -> (signalled: bool)
        requires
            old(world).wf(),
        ensures
            final(world).wf(),
            signalled == (old(world).exit_state() == 0),
            signalled ==> final(world).exit_state() == 2 && final(world).exit_status() == Some(
                status,
            ),
            !signalled ==> final(world).exit_state() == old(world).exit_state()
                && final(world).exit_status() == old(world).exit_status(),
            final(world).spec_resources() == old(world).spec_resources(),
            final(world).spec_archetypes() == old(world).spec_archetypes(),
            final(world).queue_latch() == old(world).queue_latch(),
            final(world).ran() == old(world).ran(),
            final(world).spec_events() == old(world).spec_events(),
    {
        world.try_exit(status)
    }

    /// Issues `command`: it is put at the end of the queue, and the world
    /// is not changed otherwise. Where the queue is in use, the command
    /// comes back and nothing has changed.
    pub fn issue<V>(&self, world: &mut World<V>, command: Command<V>) -> (res: Result<
        (),
        Command<V>,
    >)
        ensures
            res is Ok == old(world).queue_latch().is_idle(),
            res is Ok ==> final(world).is_enqueue_of(old(world), command),
            res matches Err(back) ==> back == command && final(world).unchanged(old(world)),
    {
        world.enqueue(command)
    }

    /// Issues the insertion of a resource; see [`Commands::issue`].
    pub fn insert_resource<V>(&self, world: &mut World<V>, type_id: u64, resource: V) -> (res: Result<
        (),
        Command<V>,
    >)
        ensures
            res is Ok == old(world).queue_latch().is_idle(),
            res is Ok ==> final(world).is_enqueue_of(
                old(world),
                Command::InsertResource { type_id, resource },
            ),
            res is Err ==> res == Err::<(), Command<V>>(
                Command::InsertResource { type_id, resource },
            ) && final(world).unchanged(old(world)),
    {
        self.issue(world, Command::InsertResource { type_id, resource })
    }

    /// Issues the removal of a resource; see [`Commands::issue`].
    pub fn remove_resource<V>(&self, world: &mut World<V>, type_id: u64) -> (res: Result<
        (),
        Command<V>,
    >)
        ensures
            res is Ok == old(world).queue_latch().is_idle(),
            res is Ok ==> final(world).is_enqueue_of(
                old(world),
                Command::RemoveResource { type_id },
            ),
            res is Err ==> res == Err::<(), Command<V>>(Command::RemoveResource { type_id })
                && final(world).unchanged(old(world)),
    {
        self.issue(world, Command::RemoveResource { type_id })
    }

    /// Issues the spawning of an entity; see [`Commands::issue`].
    pub fn spawn<V>(&self, world: &mut World<V>, bundle: Bundle<V>) -> (res: Result<(), Command<V>>)
        ensures
            res is Ok == old(world).queue_latch().is_idle(),
            res is Ok ==> final(world).is_enqueue_of(old(world), Command::Spawn { bundle }),
            res is Err ==> res == Err::<(), Command<V>>(Command::Spawn { bundle })
                && final(world).unchanged(old(world)),
    {
        self.issue(world, Command::Spawn { bundle })
    }

    /// Issues the despawning of an entity; see [`Commands::issue`].
    pub fn despawn<V>(&self, world: &mut World<V>, entity: Entity) -> (res: Result<(), Command<V>>)
        ensures
            res is Ok == old(world).queue_latch().is_idle(),
            res is Ok ==> final(world).is_enqueue_of(old(world), Command::Despawn { entity }),
            res is Err ==> res == Err::<(), Command<V>>(Command::Despawn { entity })
                && final(world).unchanged(old(world)),
    {
        self.issue(world, Command::Despawn { entity })
    }

    /// Issues one run of a system; see [`Commands::issue`].
    pub fn run_system<V>(&self, world: &mut World<V>, system: u64) -> (res: Result<(), Command<V>>)
        ensures
            res is Ok == old(world).queue_latch().is_idle(),
            res is Ok ==> final(world).is_enqueue_of(old(world), Command::RunSystem { system }),
            res is Err ==> res == Err::<(), Command<V>>(Command::RunSystem { system })
                && final(world).unchanged(old(world)),
    {
        self.issue(world, Command::RunSystem { system })
    }
}

} // verus!
