//! The world: the resources and the entities of an application, its exit
//! state, and the queue of changes that wait to be made.

use vstd::prelude::*;
use crate::app::AppExit;
use crate::component::archetype::storage::ArchetypeStorage;
use crate::component::bundle::Bundle;
use crate::entity::Entity;
use crate::query::event::EventBus;
use crate::query::state::PersistentQueryState;
use crate::query::Query;
use crate::resource::storage::{ResourceCellReadGuard, ResourceCellWriteGuard};
use crate::system::SystemId;
use crate::resource::storage::{ResourceCell, ResourceStorage};
use crate::util::rwlock::{RwLock, RwLockInner, WRITE_LOCKED};
use crate::Poll;

pub mod commands;

pub use commands::Commands;

verus! {

/// The two counters of a latch.
pub struct Counters {
    pub state: u32,
    pub waiting_writes: u32,
}

/// The counters of a latch.
pub open spec fn counters<T>(latch: RwLockInner<T>) -> Counters {
    Counters { state: latch.state(), waiting_writes: latch.waiting_writes() }
}

/// The counters of every latch of a world: who holds what.
pub struct LockView {
    pub archetype_registry: Counters,
    pub archetypes: Seq<Counters>,
    pub resource_registry: Counters,
    pub resources: Map<u64, Counters>,
    pub cmd_queue: Counters,
}

impl Counters {
    /// Whether `n` more readers can be counted without exhausting the counter.
    pub open spec fn reader_room(&self, n: nat) -> bool {
        self.state == WRITE_LOCKED || self.state + n < WRITE_LOCKED - 1
    }
}

impl LockView {
    /// Whether every latch can count `n` more readers.
    pub open spec fn reader_room(&self, n: nat) -> bool {
        &&& self.archetype_registry.reader_room(n)
        &&& self.resource_registry.reader_room(n)
        &&& self.cmd_queue.reader_room(n)
        &&& forall|a: int| 0 <= a < self.archetypes.len()
            ==> (#[trigger] self.archetypes[a]).reader_room(n)
        &&& forall|id: u64| self.resources.dom().contains(id)
            ==> (#[trigger] self.resources[id]).reader_room(n)
    }
}

/// A change to the world that waits in the queue.
pub enum Command<V> {
    /// Insert a resource, in the place of the one of its type.
    InsertResource { type_id: u64, resource: V },
    /// Remove the resource of a type.
    RemoveResource { type_id: u64 },
    /// Spawn an entity.
    Spawn { bundle: Bundle<V> },
    /// Despawn an entity.
    Despawn { entity: Entity },
    /// Run a system once.
    RunSystem { system: u64 },
}

/// What became of a command that was applied.
pub enum CommandOutcome<V> {
    /// The change was made.
    Done,
    /// The latches did not allow the change now; the command comes back.
    Pending(Command<V>),
    /// The system is to be run by whoever runs systems.
    RunSystem(u64),
}

/// The resources and the entities of an application, its exit state, and
/// the queue of changes that wait to be made.
pub struct World<V> {
    is_exiting: u8,
    exit_status: Option<AppExit>,
    resources: ResourceStorage<V>,
    archetypes: ArchetypeStorage<V>,
    cmd_queue: RwLock<Vec<Command<V>>>,
    ran_systems: Vec<u64>,
    events: EventBus<V>,
}

impl<V> World<V> {
    /// The exit state: `0` not exiting, `2` exiting with a status, `3`
    /// exiting with the status taken.
    pub closed spec fn exit_state(&self) -> u8 {
        self.is_exiting
    }

    /// The status with which the application ends, while nobody has taken it.
    pub closed spec fn exit_status(&self) -> Option<AppExit> {
        self.exit_status
    }

    /// The resources of the world.
    pub closed spec fn spec_resources(&self) -> ResourceStorage<V> {
        self.resources
    }

    /// The archetypes of the world.
    pub closed spec fn spec_archetypes(&self) -> ArchetypeStorage<V> {
        self.archetypes
    }

    /// The latch of the command queue, with the queue behind it.
    pub closed spec fn queue_latch(&self) -> RwLockInner<Vec<Command<V>>> {
        self.cmd_queue@
    }

    /// The commands that wait, the one issued first at the front.
    pub open spec fn queue(&self) -> Seq<Command<V>> {
        self.queue_latch().value()@
    }

    /// The systems that have run, each once.
    pub closed spec fn ran(&self) -> Seq<u64> {
        self.ran_systems@
    }

    /// The channels of events.
    pub closed spec fn spec_events(&self) -> EventBus<V> {
        self.events
    }

    /// Whether the application is exiting.
    pub open spec fn spec_is_exiting(&self) -> bool {
        self.exit_state() >= 2
    }

    /// The invariant of the world: its storages are well-formed, and while
    /// it is exiting with the status not taken, the status is there.
    pub open spec fn wf(&self) -> bool {
        &&& self.spec_resources().wf()
        &&& self.spec_archetypes().wf()
        &&& self.spec_events().wf()
        &&& self.exit_state() == 0 || self.exit_state() == 2 || self.exit_state() == 3
        &&& self.exit_state() == 2 <==> self.exit_status() is Some
    }

    /// The counters of every latch of the world.
    pub open spec fn locks(&self) -> LockView {
        LockView {
            archetype_registry: counters(self.spec_archetypes().latch()),
            archetypes: Seq::new(
                self.spec_archetypes().raw().len(),
                |a: int| counters(self.spec_archetypes().raw().latch(a)),
            ),
            resource_registry: counters(self.spec_resources().latch()),
            resources: Map::new(
                |id: u64| self.spec_resources().raw().contains(id),
                |id: u64| counters(self.spec_resources().raw().latch(id)),
            ),
            cmd_queue: counters(self.queue_latch()),
        }
    }

    /// Whether this world is `old` but for its resources and archetypes.
    pub open spec fn same_rest(&self, old: &Self) -> bool {
        &&& self.exit_state() == old.exit_state()
        &&& self.exit_status() == old.exit_status()
        &&& self.queue_latch() == old.queue_latch()
        &&& self.ran() == old.ran()
        &&& self.spec_events() == old.spec_events()
    }

    /// Whether this world is `old` but for its channels of events.
    pub open spec fn same_but_events(&self, old: &Self) -> bool {
        &&& self.exit_state() == old.exit_state()
        &&& self.exit_status() == old.exit_status()
        &&& self.queue_latch() == old.queue_latch()
        &&& self.ran() == old.ran()
        &&& self.spec_resources() == old.spec_resources()
        &&& self.spec_archetypes() == old.spec_archetypes()
    }

    /// Returns the resources of the world.
    pub fn resources(&self) -> (resources: &ResourceStorage<V>)
        ensures
            *resources == self.spec_resources(),
    {
        &self.resources
    }

    /// Returns the archetypes of the world.
    pub fn archetypes(&self) -> (archetypes: &ArchetypeStorage<V>)
        ensures
            *archetypes == self.spec_archetypes(),
    {
        &self.archetypes
    }

    /// The resources of the world, to take a step on.
    pub fn resources_mut(&mut self) -> (resources: &mut ResourceStorage<V>)
        ensures
            *resources == old(self).spec_resources(),
            final(self).spec_resources() == *final(resources),
            final(self).spec_archetypes() == old(self).spec_archetypes(),
            final(self).same_rest(old(self)),
    {
        &mut self.resources
    }

    /// The archetypes of the world, to take a step on.
    pub fn archetypes_mut(&mut self) -> (archetypes: &mut ArchetypeStorage<V>)
        ensures
            *archetypes == old(self).spec_archetypes(),
            final(self).spec_archetypes() == *final(archetypes),
            final(self).spec_resources() == old(self).spec_resources(),
            final(self).same_rest(old(self)),
    {
        &mut self.archetypes
    }

    /// The channels of events, to take a step on.
    pub fn events_mut(&mut self) -> (events: &mut EventBus<V>)
        ensures
            *events == old(self).spec_events(),
            final(self).spec_events() == *final(events),
            final(self).spec_resources() == old(self).spec_resources(),
            final(self).spec_archetypes() == old(self).spec_archetypes(),
            final(self).exit_state() == old(self).exit_state(),
            final(self).exit_status() == old(self).exit_status(),
            final(self).queue_latch() == old(self).queue_latch(),
            final(self).ran() == old(self).ran(),
    {
        &mut self.events
    }

    /// A world with nothing in it.
    pub fn new() -> (world: Self)
        ensures
            world.wf(),
            world.exit_state() == 0,
            world.queue() == Seq::<Command<V>>::empty(),
            world.queue_latch().is_idle(),
            world.ran() == Seq::<u64>::empty(),
            world.spec_archetypes().raw().len() == 0,
            world.spec_resources().raw().ids() == Seq::<u64>::empty(),
    {
        World {
            is_exiting: 0,
            exit_status: None,
            resources: ResourceStorage::new(),
            archetypes: ArchetypeStorage::new(),
            cmd_queue: RwLock::new(Vec::new()),
            ran_systems: Vec::new(),
            events: EventBus::new(),
        }
    }

    /// A world with the given resources and nothing else in it.
    pub fn new_with(resources: ResourceStorage<V>) -> (world: Self)
        requires
            resources.wf(),
        ensures
            world.wf(),
            world.exit_state() == 0,
            world.spec_resources() == resources,
            world.queue() == Seq::<Command<V>>::empty(),
            world.queue_latch().is_idle(),
            world.ran() == Seq::<u64>::empty(),
            world.spec_archetypes().raw().len() == 0,
    {
        World {
            is_exiting: 0,
            exit_status: None,
            resources,
            archetypes: ArchetypeStorage::new(),
            cmd_queue: RwLock::new(Vec::new()),
            ran_systems: Vec::new(),
            events: EventBus::new(),
        }
    }

    /// Returns `true` if the application is exiting and its shutdown
    /// schedules are to run.
    pub fn is_exiting(&self) -> (b: bool)
        ensures
            b == self.spec_is_exiting(),
    {
        self.is_exiting >= 2
    }

    /// Takes the exit status, which is there once: the application is
    /// exiting and nobody has taken the status before.
    pub fn take_exit_status(&mut self) -> (status: AppExit)
        requires
            old(self).wf(),
            old(self).exit_state() == 2,
        ensures
            final(self).wf(),
            Some(status) == old(self).exit_status(),
            final(self).exit_state() == 3,
            final(self).exit_status() is None,
            final(self).spec_resources() == old(self).spec_resources(),
            final(self).spec_archetypes() == old(self).spec_archetypes(),
            final(self).queue_latch() == old(self).queue_latch(),
            final(self).ran() == old(self).ran(),
            final(self).spec_events() == old(self).spec_events(),
    {
        self.is_exiting = 3;
        self.exit_status.take().unwrap()
    }

    /// Signals that the application is to end, with the given status. It
    /// can be signalled once: see [`World::try_exit`] for a world that may
    /// be exiting already.
    pub fn exit(&mut self, status: AppExit)
        requires
            old(self).wf(),
            old(self).exit_state() == 0,
        ensures
            final(self).wf(),
            final(self).exit_state() == 2,
            final(self).exit_status() == Some(status),
            final(self).spec_resources() == old(self).spec_resources(),
            final(self).spec_archetypes() == old(self).spec_archetypes(),
            final(self).queue_latch() == old(self).queue_latch(),
            final(self).ran() == old(self).ran(),
            final(self).spec_events() == old(self).spec_events(),
    {
        self.exit_status = Some(status);
        self.is_exiting = 2;
    }

    /// Signals that the application is to end, unless it is ending
    /// already: then nothing changes, and `false` is returned.
    pub fn try_exit(&mut self, status: AppExit) -> (signalled: bool)
        requires
            old(self).wf(),
        ensures
            final(self).wf(),
            signalled == (old(self).exit_state() == 0),
            signalled ==> final(self).exit_state() == 2 && final(self).exit_status() == Some(
                status,
            ),
            !signalled ==> final(self).exit_state() == old(self).exit_state()
                && final(self).exit_status() == old(self).exit_status(),
            final(self).spec_resources() == old(self).spec_resources(),
            final(self).spec_archetypes() == old(self).spec_archetypes(),
            final(self).queue_latch() == old(self).queue_latch(),
            final(self).ran() == old(self).ran(),
            final(self).spec_events() == old(self).spec_events(),
    {
        if self.is_exiting == 0 {
            self.exit_status = Some(status);
            self.is_exiting = 2;
            true
        } else {
            false
        }
    }

    /// Whether the system `system` has run.
    pub fn has_run(&self, system: u64) -> (b: bool)
        ensures
            b == self.ran().contains(system),
    {
        crate::component::archetype::storage::contains_id(&self.ran_systems, system)
    }

    /// Whether this world is `old` with the note that the system `system`
    /// has run.
    pub open spec fn is_mark_ran_of(&self, old: &Self, system: u64) -> bool {
        &&& self.ran() == if old.ran().contains(system) {
            old.ran()
        } else {
            old.ran().push(system)
        }
        &&& self.ran().contains(system)
        &&& self.spec_resources() == old.spec_resources()
        &&& self.spec_archetypes() == old.spec_archetypes()
        &&& self.queue_latch() == old.queue_latch()
        &&& self.exit_state() == old.exit_state()
        &&& self.exit_status() == old.exit_status()
        &&& self.spec_events() == old.spec_events()
    }

    /// Notes that the system `system` has run.
    pub fn mark_ran(&mut self, system: u64)
        ensures
            final(self).is_mark_ran_of(old(self), system),
    {
        if !self.has_run(system) {
            self.ran_systems.push(system);
            assert(self.ran_systems@[self.ran_systems@.len() - 1] == system);
        }
    }

    /// Puts a command at the end of the queue. Where the queue is in use,
    /// the command comes back and nothing has changed.
    pub fn enqueue(&mut self, command: Command<V>) -> (res: Result<(), Command<V>>)
        ensures
            res is Ok == old(self).queue_latch().is_idle(),
            res is Ok ==> final(self).queue() == old(self).queue().push(command),
            res matches Err(back) ==> back == command && final(self).queue_latch()
                == old(self).queue_latch(),
            final(self).queue_latch().state() == old(self).queue_latch().state(),
            final(self).queue_latch().waiting_writes() == old(self).queue_latch().waiting_writes(),
            final(self).spec_resources() == old(self).spec_resources(),
            final(self).spec_archetypes() == old(self).spec_archetypes(),
            final(self).exit_state() == old(self).exit_state(),
            final(self).exit_status() == old(self).exit_status(),
            final(self).ran() == old(self).ran(),
            final(self).spec_events() == old(self).spec_events(),
    {
        broadcast use {RwLockInner::lemma_make, RwLockInner::lemma_make_self};

        if !self.cmd_queue.inner().idle() {
            return Err(command);
        }
        self.cmd_queue.inner_mut().peek_mut().push(command);
        Ok(())
    }

    /// Takes every command out of the queue, the one issued first at the
    /// front. Where the queue is in use, the step is pending and nothing
    /// has changed.
    pub fn drain_commands(&mut self) -> (res: Poll<Vec<Command<V>>>)
        ensures
            res is Ready == old(self).queue_latch().is_idle(),
            res matches Poll::Ready(commands) ==> commands@ == old(self).queue()
                && final(self).queue() == Seq::<Command<V>>::empty(),
            res is Pending ==> final(self).queue_latch() == old(self).queue_latch(),
            final(self).queue_latch().state() == old(self).queue_latch().state(),
            final(self).queue_latch().waiting_writes() == old(self).queue_latch().waiting_writes(),
            final(self).spec_resources() == old(self).spec_resources(),
            final(self).spec_archetypes() == old(self).spec_archetypes(),
            final(self).exit_state() == old(self).exit_state(),
            final(self).exit_status() == old(self).exit_status(),
            final(self).ran() == old(self).ran(),
            final(self).spec_events() == old(self).spec_events(),
    {
        broadcast use {RwLockInner::lemma_make, RwLockInner::lemma_make_self};

        if !self.cmd_queue.inner().idle() {
            return Poll::Pending;
        }
        let mut commands: Vec<Command<V>> = Vec::new();
        core::mem::swap(self.cmd_queue.inner_mut().peek_mut(), &mut commands);
        Poll::Ready(commands)
    }
}

impl<V> World<V> {
    /// Whether the registries may be asked: a latch whose reader count is
    /// exhausted cannot be asked.
    pub open spec fn askable(&self) -> bool {
        self.spec_archetypes().askable() && self.spec_resources().askable()
    }

    /// Whether this world is `old` with `command` at the end of the queue
    /// and nothing else changed.
    pub open spec fn is_enqueue_of(&self, old: &Self, command: Command<V>) -> bool {
        &&& self.queue() == old.queue().push(command)
        &&& self.queue_latch().state() == old.queue_latch().state()
        &&& self.queue_latch().waiting_writes() == old.queue_latch().waiting_writes()
        &&& self.spec_resources() == old.spec_resources()
        &&& self.spec_archetypes() == old.spec_archetypes()
        &&& self.exit_state() == old.exit_state()
        &&& self.exit_status() == old.exit_status()
        &&& self.ran() == old.ran()
        &&& self.spec_events() == old.spec_events()
    }

    /// Whether this world is `old` in every part.
    pub open spec fn unchanged(&self, old: &Self) -> bool {
        &&& self.queue_latch() == old.queue_latch()
        &&& self.spec_resources().latch() == old.spec_resources().latch()
        &&& self.spec_archetypes().latch() == old.spec_archetypes().latch()
        &&& self.exit_state() == old.exit_state()
        &&& self.exit_status() == old.exit_status()
        &&& self.ran() == old.ran()
        &&& self.spec_events() == old.spec_events()
    }

    /// Spawns an entity with the components of `bundle`.
    ///
    /// The step is atomic; where the latches do not allow it now, the
    /// bundle comes back and nothing has changed. A bundle that holds a
    /// component type twice cannot be spawned.
    pub fn spawn(&mut self, bundle: Bundle<V>) -> (res: Result<Entity, Bundle<V>>)
        requires
            old(self).wf(),
            old(self).spec_archetypes().askable(),
            bundle.is_valid(),
            old(self).spec_archetypes().has_room_for(&bundle),
        ensures
            final(self).wf(),
            final(self).same_rest(old(self)),
            final(self).spec_resources() == old(self).spec_resources(),
            res is Ok == old(self).spec_archetypes().can_spawn(&bundle),
            res matches Ok(entity) ==> final(self).spec_archetypes().is_spawn_of(
                &old(self).spec_archetypes(),
                &bundle,
                entity,
            ),
            res matches Err(back) ==> back == bundle && final(self).spec_archetypes().latch()
                == old(self).spec_archetypes().latch(),
    {
        self.archetypes.spawn(bundle)
    }

    /// Spawns an entity with the components of `bundle`; see [`World::spawn`].
    pub fn spawn_unchecked(&mut self, bundle: Bundle<V>) -> (res: Result<Entity, Bundle<V>>)
        requires
            old(self).wf(),
            old(self).spec_archetypes().askable(),
            bundle.is_valid(),
            old(self).spec_archetypes().has_room_for(&bundle),
        ensures
            final(self).wf(),
            final(self).same_rest(old(self)),
            final(self).spec_resources() == old(self).spec_resources(),
            res is Ok == old(self).spec_archetypes().can_spawn(&bundle),
            res matches Ok(entity) ==> final(self).spec_archetypes().is_spawn_of(
                &old(self).spec_archetypes(),
                &bundle,
                entity,
            ),
            res matches Err(back) ==> back == bundle && final(self).spec_archetypes().latch()
                == old(self).spec_archetypes().latch(),
    {
        self.archetypes.spawn_unchecked(bundle)
    }

    /// Removes an entity, if it lives.
    ///
    /// The step is atomic; where the latches do not allow it now, it is
    /// pending and nothing has changed.
    pub fn despawn(&mut self, entity: Entity) -> (res: Poll<()>)
        requires
            old(self).wf(),
            old(self).spec_archetypes().askable(),
        ensures
            final(self).wf(),
            final(self).same_rest(old(self)),
            final(self).spec_resources() == old(self).spec_resources(),
            res is Pending <==> !old(self).spec_archetypes().latch().can_read() || (
            entity.archetype_id < old(self).spec_archetypes().raw().len()
                && !old(self).spec_archetypes().raw().latch(entity.archetype_id as int).is_idle()),
            res is Ready ==> final(self).spec_archetypes().is_despawn_of(
                &old(self).spec_archetypes(),
                entity,
            ),
            res is Pending ==> final(self).spec_archetypes().latch()
                == old(self).spec_archetypes().latch(),
    {
        self.archetypes.despawn(entity)
    }

    /// Removes an entity that lives; see [`World::despawn`].
    pub fn despawn_unchecked(&mut self, entity: Entity) -> (res: Poll<()>)
        requires
            old(self).wf(),
            old(self).spec_archetypes().askable(),
            entity.archetype_id < old(self).spec_archetypes().raw().len(),
            old(self).spec_archetypes().raw().archetype(entity.archetype_id as int).is_occupied(
                entity.archetype_row as int,
            ),
        ensures
            final(self).wf(),
            final(self).same_rest(old(self)),
            final(self).spec_resources() == old(self).spec_resources(),
            res is Pending <==> !old(self).spec_archetypes().latch().can_read()
                || !old(self).spec_archetypes().raw().latch(entity.archetype_id as int).is_idle(),
            res is Ready ==> final(self).spec_archetypes().is_despawn_of(
                &old(self).spec_archetypes(),
                entity,
            ),
            res is Pending ==> final(self).spec_archetypes().latch()
                == old(self).spec_archetypes().latch(),
    {
        self.archetypes.despawn_unchecked(entity)
    }

    /// Inserts a resource, in the place of the one of its type if there is one.
    ///
    /// The step needs the registry of resources to be idle, and the
    /// resource that it replaces too. Else the value comes back and nothing
    /// has changed.
    pub fn insert_resource(&mut self, type_id: u64, resource: V) -> (res: Result<(), V>)
        requires
            old(self).wf(),
        ensures
            final(self).wf(),
            final(self).same_rest(old(self)),
            final(self).spec_archetypes() == old(self).spec_archetypes(),
            final(self).spec_resources().same_latch(&old(self).spec_resources()),
            res is Ok == (old(self).spec_resources().latch().is_idle()
                && old(self).spec_resources().can_write(type_id)),
            res is Ok ==> final(self).spec_resources().raw()@
                == old(self).spec_resources().raw()@.insert(
                type_id,
                RwLockInner::make(ResourceCell::new_spec(resource), 0, 0),
            ),
            res matches Err(back) ==> back == resource && final(self).spec_resources().latch()
                == old(self).spec_resources().latch(),
    {
        self.resources.insert(type_id, resource)
    }

    /// Inserts a resource and hands out the one of its type that was
    /// there; see [`World::insert_resource`].
    pub fn replace_resource(&mut self, type_id: u64, resource: V) -> (res: Result<Option<V>, V>)
        requires
            old(self).wf(),
        ensures
            final(self).wf(),
            final(self).same_rest(old(self)),
            final(self).spec_archetypes() == old(self).spec_archetypes(),
            final(self).spec_resources().same_latch(&old(self).spec_resources()),
            res is Ok == (old(self).spec_resources().latch().is_idle()
                && old(self).spec_resources().can_write(type_id)),
            res matches Ok(previous) ==> final(self).spec_resources().raw()@
                == old(self).spec_resources().raw()@.insert(
                type_id,
                RwLockInner::make(ResourceCell::new_spec(resource), 0, 0),
            ) && previous == if old(self).spec_resources().raw().contains(type_id) {
                Some(old(self).spec_resources().raw().value(type_id))
            } else {
                None
            },
            res matches Err(back) ==> back == resource && final(self).spec_resources().latch()
                == old(self).spec_resources().latch(),
    {
        self.resources.replace(type_id, resource)
    }

    /// Removes the resource of the given type, if there is one.
    ///
    /// The step needs the registry of resources and the resource to be
    /// idle. Else it is pending and nothing has changed.
    pub fn remove_resource(&mut self, type_id: u64) -> (res: Poll<()>)
        requires
            old(self).wf(),
        ensures
            final(self).wf(),
            final(self).same_rest(old(self)),
            final(self).spec_archetypes() == old(self).spec_archetypes(),
            final(self).spec_resources().same_latch(&old(self).spec_resources()),
            res is Ready == (old(self).spec_resources().latch().is_idle()
                && old(self).spec_resources().can_write(type_id)),
            res is Ready ==> final(self).spec_resources().raw()@
                == old(self).spec_resources().raw()@.remove(type_id),
            res is Pending ==> final(self).spec_resources().latch()
                == old(self).spec_resources().latch(),
    {
        self.resources.remove(type_id)
    }

    /// Removes the resource of the given type and hands it out, if there
    /// is one; see [`World::remove_resource`].
    pub fn take_resource(&mut self, type_id: u64) -> (res: Poll<Option<V>>)
        requires
            old(self).wf(),
        ensures
            final(self).wf(),
            final(self).same_rest(old(self)),
            final(self).spec_archetypes() == old(self).spec_archetypes(),
            final(self).spec_resources().same_latch(&old(self).spec_resources()),
            res is Ready == (old(self).spec_resources().latch().is_idle()
                && old(self).spec_resources().can_write(type_id)),
            res matches Poll::Ready(taken) ==> final(self).spec_resources().raw()@
                == old(self).spec_resources().raw()@.remove(type_id) && taken
                == if old(self).spec_resources().raw().contains(type_id) {
                Some(old(self).spec_resources().raw().value(type_id))
            } else {
                None
            },
            res is Pending ==> final(self).spec_resources().latch()
                == old(self).spec_resources().latch(),
    {
        self.resources.take(type_id)
    }

    /// Makes the state of the query `Q` for this world, to acquire it again
    /// and again. A query whose parts conflict cannot be made: see
    /// [`Query::validate`].
    pub fn query<Q: Query<V>>(&mut self, system_id: Option<SystemId>) -> (state: PersistentQueryState<
        V,
        Q,
    >)
        requires
            old(self).wf(),
            !crate::util::claims::map_has_error(Q::claims()),
        ensures
            final(self).wf(),
            final(self).locks() == old(self).locks(),
            Q::is_init_of(*final(self), state.state(), *old(self), system_id),
    {
        let validator = Q::validate();
        proof {
            validator.lemma_violation();
        }
        validator.panic_on_violation();
        PersistentQueryState::new(self, system_id)
    }

    /// Makes the state of the query `Q` for this world, without looking at
    /// its parts.
    pub fn query_unchecked<Q: Query<V>>(&mut self, system_id: Option<SystemId>) -> (state: PersistentQueryState<
        V,
        Q,
    >)
        requires
            old(self).wf(),
        ensures
            final(self).wf(),
            final(self).locks() == old(self).locks(),
            Q::is_init_of(*final(self), state.state(), *old(self), system_id),
    {
        PersistentQueryState::new(self, system_id)
    }

    /// Tries to get the resource of the given type for reading; see
    /// [`ResourceStorage::try_get_ref`].
    pub fn get_resource_ref(&mut self, type_id: u64) -> (res: Poll<Option<ResourceCellReadGuard>>)
        requires
            old(self).wf(),
            old(self).spec_resources().askable(),
            old(self).spec_resources().raw().contains(type_id)
                && old(self).spec_resources().raw().latch(type_id).can_read()
                ==> !old(self).spec_resources().raw().latch(type_id).is_saturated(),
        ensures
            final(self).wf(),
            final(self).same_rest(old(self)),
            final(self).spec_archetypes() == old(self).spec_archetypes(),
            res is Pending <==> !old(self).spec_resources().latch().can_read()
                || (old(self).spec_resources().raw().contains(type_id)
                && !old(self).spec_resources().raw().latch(
                type_id,
            ).can_read()),
            res matches Poll::Ready(found) ==> (found is Some
                <==> old(self).spec_resources().raw().contains(type_id)),
            res matches Poll::Ready(Some(guard)) ==> guard.spec_type_id() == type_id,
            !(res matches Poll::Ready(Some(_))) ==> final(self).spec_resources().latch()
                == old(self).spec_resources().latch(),
    {
        self.resources.try_get_ref(type_id)
    }

    /// Tries to get the resource of the given type for writing; see
    /// [`ResourceStorage::try_get_mut`].
    pub fn get_resource_mut(&mut self, type_id: u64) -> (res: Poll<Option<ResourceCellWriteGuard>>)
        requires
            old(self).wf(),
            old(self).spec_resources().askable(),
        ensures
            final(self).wf(),
            final(self).same_rest(old(self)),
            final(self).spec_archetypes() == old(self).spec_archetypes(),
            res is Pending <==> !old(self).spec_resources().latch().can_read()
                || (old(self).spec_resources().raw().contains(type_id)
                && !old(self).spec_resources().raw().latch(
                type_id,
            ).is_idle()),
            res matches Poll::Ready(found) ==> (found is Some
                <==> old(self).spec_resources().raw().contains(type_id)),
            res matches Poll::Ready(Some(guard)) ==> guard.spec_type_id() == type_id,
            !(res matches Poll::Ready(Some(_))) ==> final(self).spec_resources().latch()
                == old(self).spec_resources().latch(),
    {
        self.resources.try_get_mut(type_id)
    }

    /// Spawns the entities of `bundles`, one after the other; see
    /// [`ArchetypeStorage::spawn_batch`].
    pub fn spawn_batch(&mut self, bundles: Vec<Bundle<V>>) -> (res: (Vec<Entity>, Vec<Bundle<V>>))
        requires
            old(self).wf(),
            old(self).spec_archetypes().askable(),
            forall|k: int| 0 <= k < bundles@.len() ==> (#[trigger] bundles@[k]).is_valid(),
            forall|a: int|
                0 <= a < old(self).spec_archetypes().raw().len()
                    ==> (#[trigger] old(self).spec_archetypes().raw().archetype(a)).rows_high_water() + bundles@.len()
                    <= usize::MAX,
            bundles@.len() < usize::MAX,
        ensures
            final(self).wf(),
            final(self).same_rest(old(self)),
            final(self).spec_resources() == old(self).spec_resources(),
            res.0@.len() + res.1@.len() == bundles@.len(),
            res.1@ == bundles@.skip(res.0@.len() as int),
            final(self).spec_archetypes().is_batch_of(&old(self).spec_archetypes(), bundles@,
                res.0@),
            res.1@.len() > 0 ==> !final(self).spec_archetypes().can_spawn(&res.1@[0]),
    {
        self.archetypes.spawn_batch(bundles)
    }

    /// Whether the registries may be asked.
    pub fn is_askable(&self) -> (b: bool)
        ensures
            b == self.askable(),
    {
        self.archetypes.is_askable() && self.resources.is_askable()
    }

    /// Whether every latch of the world can count `n` more readers.
    pub fn has_reader_room(&self, n: u32) -> (b: bool)
        requires
            self.wf(),
        ensures
            b == self.locks().reader_room(n as nat),
    {
        let b = self.archetypes.has_reader_room(n) && self.resources.has_reader_room(n)
            && self.cmd_queue.inner().has_reader_room(n);
        proof {
            if b {
                assert forall|a: int| 0 <= a < self.locks().archetypes.len() implies (
                #[trigger] self.locks().archetypes[a]).reader_room(n as nat) by {
                    assert(crate::component::archetype::storage::counters_have_room(
                        self.spec_archetypes().raw().latch(a),
                        n,
                    ));
                }
                assert forall|id: u64| self.locks().resources.dom().contains(id) implies (
                #[trigger] self.locks().resources[id]).reader_room(n as nat) by {
                    assert(crate::component::archetype::storage::counters_have_room(
                        self.spec_resources().raw().latch(id),
                        n,
                    ));
                }
            } else if self.locks().reader_room(n as nat) {
                if !(forall|a: int|
                    0 <= a < self.spec_archetypes().raw().len()
                        ==> crate::component::archetype::storage::counters_have_room(
                        #[trigger] self.spec_archetypes().raw().latch(a),
                        n,
                    )) {
                    let a = choose|a: int|
                        0 <= a < self.spec_archetypes().raw().len()
                            && !crate::component::archetype::storage::counters_have_room(
                            #[trigger] self.spec_archetypes().raw().latch(a),
                            n,
                        );
                    assert(self.locks().archetypes[a].reader_room(n as nat));
                }
                if !(forall|id: u64|
                    self.spec_resources().raw().contains(id)
                        ==> crate::component::archetype::storage::counters_have_room(
                        #[trigger] self.spec_resources().raw().latch(id),
                        n,
                    )) {
                    let id = choose|id: u64|
                        self.spec_resources().raw().contains(id)
                            && !crate::component::archetype::storage::counters_have_room(
                            #[trigger] self.spec_resources().raw().latch(id),
                            n,
                        );
                    assert(self.locks().resources.dom().contains(id));
                    assert(self.locks().resources[id].reader_room(n as nat));
                }
            }
        }
        b
    }

    /// The number of commands that a drain would take now: all that wait,
    /// or none where the queue is in use.
    pub fn drainable_commands(&self) -> (n: usize)
        ensures
            n == if self.queue_latch().is_idle() {
                self.queue().len()
            } else {
                0
            },
    {
        broadcast use {RwLockInner::lemma_make, RwLockInner::lemma_make_self};

        if self.cmd_queue.inner().idle() {
            self.cmd_queue.inner().peek().len()
        } else {
            0
        }
    }

    /// Whether the exit status is there to be taken.
    pub fn has_exit_status(&self) -> (b: bool)
        ensures
            b == (self.exit_state() == 2),
    {
        self.is_exiting == 2
    }

    /// Whether `command` can be applied.
    pub fn can_apply_command(&self, command: &Command<V>) -> (b: bool)
        requires
            self.wf(),
        ensures
            b == self.can_apply(command),
    {
        match command {
            Command::Spawn { bundle } => {
                if bundle.validate().has_violation() {
                    false
                } else {
                    self.archetypes.has_room(bundle)
                }
            },
            _ => true,
        }
    }

    /// Whether `command` can be applied: a bundle that is to be spawned
    /// holds no component type twice, and its archetype has room.
    pub open spec fn can_apply(&self, command: &Command<V>) -> bool {
        match *command {
            Command::Spawn { bundle } => bundle.is_valid() && self.spec_archetypes().has_room_for(
                &bundle,
            ),
            _ => true,
        }
    }

    /// Whether this world is `old` after `command` was applied with the
    /// given outcome.
    ///
    /// A command is done exactly when the latches allow its change, and
    /// then the change is made; else it is pending, it comes back, and
    /// nothing has changed. A command to run a system changes nothing.
    pub open spec fn is_apply_of(
        &self,
        old: &Self,
        command: Command<V>,
        outcome: CommandOutcome<V>,
    ) -> bool {
        &&& self.same_rest(old)
        &&& outcome matches CommandOutcome::Pending(back) ==> back == command
            && self.spec_resources().latch() == old.spec_resources().latch()
            && self.spec_archetypes().latch() == old.spec_archetypes().latch()
        &&& match command {
            Command::InsertResource { type_id, resource } => {
                &&& self.spec_archetypes() == old.spec_archetypes()
                &&& !(outcome is RunSystem)
                &&& outcome is Done == (old.spec_resources().latch().is_idle()
                    && old.spec_resources().can_write(type_id))
                &&& outcome is Done ==> self.spec_resources().raw()@
                    == old.spec_resources().raw()@.insert(
                    type_id,
                    RwLockInner::make(ResourceCell::new_spec(resource), 0, 0),
                )
            },
            Command::RemoveResource { type_id } => {
                &&& self.spec_archetypes() == old.spec_archetypes()
                &&& !(outcome is RunSystem)
                &&& outcome is Done == (old.spec_resources().latch().is_idle()
                    && old.spec_resources().can_write(type_id))
                &&& outcome is Done ==> self.spec_resources().raw()@
                    == old.spec_resources().raw()@.remove(type_id)
            },
            Command::Spawn { bundle } => {
                &&& self.spec_resources() == old.spec_resources()
                &&& !(outcome is RunSystem)
                &&& outcome is Done == old.spec_archetypes().can_spawn(&bundle)
                &&& outcome is Done ==> exists|entity: Entity|
                    self.spec_archetypes().is_spawn_of(&old.spec_archetypes(), &bundle, entity)
            },
            Command::Despawn { entity } => {
                &&& self.spec_resources() == old.spec_resources()
                &&& !(outcome is RunSystem)
                &&& outcome is Done == (old.spec_archetypes().latch().can_read() && (
                entity.archetype_id < old.spec_archetypes().raw().len()
                    ==> old.spec_archetypes().raw().latch(entity.archetype_id as int).is_idle()))
                &&& outcome is Done ==> self.spec_archetypes().is_despawn_of(
                    &old.spec_archetypes(),
                    entity,
                )
            },
            Command::RunSystem { system } => {
                &&& outcome == CommandOutcome::<V>::RunSystem(system)
                &&& self.spec_resources() == old.spec_resources()
                &&& self.spec_archetypes() == old.spec_archetypes()
            },
        }
    }

    /// Makes the change that `command` asks for, if the latches allow it
    /// now. A command to run a system is handed on to whoever runs systems.
    pub fn apply_command(&mut self, command: Command<V>) -> (outcome: CommandOutcome<V>)
        requires
            old(self).wf(),
            old(self).askable(),
            old(self).can_apply(&command),
        ensures
            final(self).wf(),
            final(self).is_apply_of(old(self), command, outcome),
    {
        match command {
            Command::InsertResource { type_id, resource } => {
                match self.resources.insert(type_id, resource) {
                    Ok(_) => CommandOutcome::Done,
                    Err(back) => CommandOutcome::Pending(
                        Command::InsertResource { type_id, resource: back },
                    ),
                }
            },
            Command::RemoveResource { type_id } => {
                match self.resources.remove(type_id) {
                    Poll::Ready(_) => CommandOutcome::Done,
                    Poll::Pending => CommandOutcome::Pending(Command::RemoveResource { type_id }),
                }
            },
            Command::Spawn { bundle } => {
                match self.archetypes.spawn(bundle) {
                    Ok(_) => CommandOutcome::Done,
                    Err(back) => CommandOutcome::Pending(Command::Spawn { bundle: back }),
                }
            },
            Command::Despawn { entity } => {
                match self.archetypes.despawn(entity) {
                    Poll::Ready(_) => CommandOutcome::Done,
                    Poll::Pending => CommandOutcome::Pending(Command::Despawn { entity }),
                }
            },
            Command::RunSystem { system } => CommandOutcome::RunSystem(system),
        }
    }
}

/// What became of the commands of a queue that was flushed.
pub struct Flushed<V> {
    /// The systems that commands asked to run, in the order of the commands.
    pub systems: Vec<u64>,
    /// The commands that could not be applied, in the order in which they
    /// were issued: those whose change the latches did not allow, and those
    /// that cannot be applied at all.
    pub left: Vec<Command<V>>,
}

impl<V> World<V> {
    /// Whether this world is `old` with an empty queue.
    pub open spec fn is_drain_of(&self, old: &Self) -> bool {
        &&& self.queue() == Seq::<Command<V>>::empty()
        &&& self.queue_latch().state() == old.queue_latch().state()
        &&& self.queue_latch().waiting_writes() == old.queue_latch().waiting_writes()
        &&& self.spec_resources() == old.spec_resources()
        &&& self.spec_archetypes() == old.spec_archetypes()
        &&& self.exit_state() == old.exit_state()
        &&& self.exit_status() == old.exit_status()
        &&& self.ran() == old.ran()
        &&& self.spec_events() == old.spec_events()
    }

    /// Whether `after` is `before` with `command` tried: applied if it could
    /// be asked for, and noted in `left` or in `systems` as its outcome says.
    pub open spec fn is_flush_step(
        after: &Self,
        before: &Self,
        command: Command<V>,
        left_before: Seq<Command<V>>,
        left: Seq<Command<V>>,
        systems_before: Seq<u64>,
        systems: Seq<u64>,
    ) -> bool {
        if before.askable() && before.can_apply(&command) {
            exists|outcome: CommandOutcome<V>| #[trigger]
                after.is_apply_of(before, command, outcome) && match outcome {
                    CommandOutcome::Done => left == left_before && systems == systems_before,
                    CommandOutcome::Pending(back) => left == left_before.push(back) && systems
                        == systems_before,
                    CommandOutcome::RunSystem(system) => left == left_before && systems
                        == systems_before.push(system),
                }
        } else {
            *after == *before && left == left_before.push(command) && systems == systems_before
        }
    }

    /// Whether this world is `old` with its queue emptied and the commands
    /// `commands` tried in order, which left `left` and asked for `systems`.
    pub open spec fn is_flush_of(
        &self,
        old: &Self,
        commands: Seq<Command<V>>,
        left: Seq<Command<V>>,
        systems: Seq<u64>,
    ) -> bool
        decreases commands.len(),
    {
        if commands.len() == 0 {
            self.is_drain_of(old) && left == Seq::<Command<V>>::empty() && systems == Seq::<
                u64,
            >::empty()
        } else {
            exists|middle: Self, left_before: Seq<Command<V>>, systems_before: Seq<u64>|
                {
                    &&& middle.is_flush_of(old, commands.drop_last(), left_before, systems_before)
                    &&& middle.wf()
                    &&& #[trigger] Self::is_flush_step(
                        self,
                        &middle,
                        commands.last(),
                        left_before,
                        left,
                        systems_before,
                        systems,
                    )
                }
        }
    }

    /// Takes every command out of the queue and applies them in order.
    ///
    /// Commands that are issued while the queue is flushed wait for the
    /// next flush. Where the queue is in use, the step is pending and
    /// nothing has changed.
    pub fn flush_commands(&mut self) -> (res: Poll<Flushed<V>>)
        requires
            old(self).wf(),
        ensures
            final(self).wf(),
            res is Ready == old(self).queue_latch().is_idle(),
            res matches Poll::Ready(flushed) ==> final(self).is_flush_of(
                old(self),
                old(self).queue(),
                flushed.left@,
                flushed.systems@,
            ),
            res is Pending ==> final(self).unchanged(old(self)),
    {
        let mut commands = match self.drain_commands() {
            Poll::Ready(commands) => commands,
            Poll::Pending => {
                return Poll::Pending;
            },
        };
        let ghost all = commands@;
        let mut systems: Vec<u64> = Vec::new();
        let mut left: Vec<Command<V>> = Vec::new();
        let ghost mut done: int = 0;
        proof {
            assert(all.take(0) =~= Seq::<Command<V>>::empty());
        }
        while commands.len() > 0
            invariant
                self.wf(),
                all == old(self).queue(),
                0 <= done <= all.len(),
                commands@ == all.skip(done),
                self.is_flush_of(old(self), all.take(done), left@, systems@),
            decreases commands@.len(),
        {
            let ghost before = *self;
            let ghost left_before = left@;
            let ghost systems_before = systems@;
            let command = commands.remove(0);
            proof {
                assert(command == all[done]);
                assert(commands@ =~= all.skip(done + 1));
                assert(all.take(done + 1).drop_last() =~= all.take(done));
                assert(all.take(done + 1).last() == command);
            }
            if self.is_askable() && self.can_apply_command(&command) {
                let outcome = self.apply_command(command);
                proof {
                    assert(self.is_apply_of(&before, command, outcome));
                }
                match outcome {
                    CommandOutcome::Done => {},
                    CommandOutcome::Pending(back) => {
                        left.push(back);
                    },
                    CommandOutcome::RunSystem(system) => {
                        systems.push(system);
                    },
                }
                proof {
                    assert(Self::is_flush_step(
                        self,
                        &before,
                        command,
                        left_before,
                        left@,
                        systems_before,
                        systems@,
                    ));
                }
            } else {
                left.push(command);
                proof {
                    assert(Self::is_flush_step(
                        self,
                        &before,
                        command,
                        left_before,
                        left@,
                        systems_before,
                        systems@,
                    ));
                }
            }
            proof {
                assert(before.is_flush_of(
                    old(self),
                    all.take(done + 1).drop_last(),
                    left_before,
                    systems_before,
                ));
                done = done + 1;
            }
        }
        proof {
            assert(all.take(all.len() as int) == all);
        }
        Poll::Ready(Flushed { systems, left })
    }
}

/// The commands that wait after a flush that left `left` and was asked for
/// the systems `systems`: the commands that could not be applied, and behind
/// them one command for each system that is to be run.
pub open spec fn waiting_after<V>(left: Seq<Command<V>>, systems: Seq<u64>) -> Seq<Command<V>> {
    left + Seq::new(systems.len(), |k: int| Command::RunSystem { system: systems[k] })
}

impl<V> World<V> {
    /// Whether this world is `old` with `commands` as its queue and nothing
    /// else changed.
    pub open spec fn is_requeue_of(&self, old: &Self, commands: Seq<Command<V>>) -> bool {
        &&& self.queue() == commands
        &&& self.queue_latch().state() == old.queue_latch().state()
        &&& self.queue_latch().waiting_writes() == old.queue_latch().waiting_writes()
        &&& self.spec_resources() == old.spec_resources()
        &&& self.spec_archetypes() == old.spec_archetypes()
        &&& self.exit_state() == old.exit_state()
        &&& self.exit_status() == old.exit_status()
        &&& self.ran() == old.ran()
        &&& self.spec_events() == old.spec_events()
    }

    /// Whether this world is what settling the commands makes of `old`: the
    /// queue is flushed, and what the flush could not apply waits in the
    /// queue again, with the systems that commands asked for behind it.
    /// Where the queue is in use, nothing has changed.
    pub open spec fn is_settle_of(&self, old: &Self) -> bool {
        if old.queue_latch().is_idle() {
            exists|flushed: Self, left: Seq<Command<V>>, systems: Seq<u64>| #[trigger]
                flushed.is_flush_of(old, old.queue(), left, systems) && self.is_requeue_of(
                    &flushed,
                    waiting_after(left, systems),
                )
        } else {
            self.unchanged(old)
        }
    }

    /// A flush leaves the queue empty and its latch as it was.
    pub proof fn lemma_flush_empties_queue(
        &self,
        old: &Self,
        commands: Seq<Command<V>>,
        left: Seq<Command<V>>,
        systems: Seq<u64>,
    )
        requires
            self.is_flush_of(old, commands, left, systems),
        ensures
            self.queue() == Seq::<Command<V>>::empty(),
            self.queue_latch().state() == old.queue_latch().state(),
            self.queue_latch().waiting_writes() == old.queue_latch().waiting_writes(),
        decreases commands.len(),
    {
        if commands.len() > 0 {
            let (middle, left_before, systems_before) = choose|
                middle: Self,
                left_before: Seq<Command<V>>,
                systems_before: Seq<u64>,
            |
                {
                    &&& middle.is_flush_of(old, commands.drop_last(), left_before, systems_before)
                    &&& middle.wf()
                    &&& #[trigger] Self::is_flush_step(
                        self,
                        &middle,
                        commands.last(),
                        left_before,
                        left,
                        systems_before,
                        systems,
                    )
                };
            middle.lemma_flush_empties_queue(old, commands.drop_last(), left_before,
                systems_before);
        }
    }

    /// Settles the commands: flushes the queue, and puts what the flush
    /// could not apply back into the queue, in order, with one command
    /// behind it for each system that a command asked to run. These wait
    /// for the next flush, or for whoever runs systems. Where the queue is
    /// in use, nothing is done.
    pub fn settle_commands(&mut self) -> (settled: bool)
        requires
            old(self).wf(),
        ensures
            final(self).wf(),
            settled == old(self).queue_latch().is_idle(),
            final(self).is_settle_of(old(self)),
    {
        let flushed = match self.flush_commands() {
            Poll::Ready(flushed) => flushed,
            Poll::Pending => {
                return false;
            },
        };
        let ghost after_flush = *self;
        let Flushed { systems, left } = flushed;
        let ghost all_left = left@;
        proof {
            after_flush.lemma_flush_empties_queue(
                old(self),
                old(self).queue(),
                all_left,
                systems@,
            );
        }
        let mut left = left;
        let ghost mut done: int = 0;
        proof {
            assert(all_left.take(0) =~= Seq::<Command<V>>::empty());
        }
        while left.len() > 0
            invariant
                self.wf(),
                0 <= done <= all_left.len(),
                left@ == all_left.skip(done),
                self.is_requeue_of(&after_flush, all_left.take(done)),
                after_flush.queue_latch().is_idle(),
            decreases left@.len(),
        {
            let command = left.remove(0);
            proof {
                assert(command == all_left[done]);
                assert(left@ =~= all_left.skip(done + 1));
                assert(all_left.take(done + 1) =~= all_left.take(done).push(command));
            }
            let _ = self.enqueue(command);
            proof {
                done = done + 1;
            }
        }
        proof {
            assert(all_left.take(done) =~= all_left);
            assert(waiting_after(all_left, systems@.take(0)) =~= all_left);
        }
        let mut k: usize = 0;
        while k < systems.len()
            invariant
                self.wf(),
                k <= systems@.len(),
                self.is_requeue_of(&after_flush, waiting_after(all_left, systems@.take(k as int))),
                after_flush.queue_latch().is_idle(),
            decreases systems@.len() - k,
        {
            let system = systems[k];
            proof {
                assert(waiting_after(all_left, systems@.take(k + 1)) =~= waiting_after(
                    all_left,
                    systems@.take(k as int),
                ).push(Command::RunSystem { system }));
            }
            let _ = self.enqueue(Command::RunSystem { system });
            k += 1;
        }
        proof {
            assert(systems@.take(k as int) =~= systems@);
        }
        true
    }
}

/// Command deferral: a change that is issued as a command is not made when
/// it is issued. The world is as it was but for the queue, whose last
/// command it is; the change is made when the queue is drained and the
/// command applied.
pub proof fn lemma_command_deferral<V>(before: World<V>, after: World<V>, command: Command<V>)
    requires
        after.is_enqueue_of(&before, command),
    ensures
        after.spec_resources() == before.spec_resources(),
        after.spec_archetypes() == before.spec_archetypes(),
        after.locks() == before.locks(),
        after.queue().len() == before.queue().len() + 1,
        after.queue().last() == command,
        forall|k: int| 0 <= k < before.queue().len() ==> after.queue()[k] == before.queue()[k],
{
}

} // verus!
