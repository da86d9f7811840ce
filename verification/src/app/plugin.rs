//! Plugins: collections of setup of an application.

use vstd::prelude::*;
use crate::app::cycle_scheduler::CycleSchedulerFuture;
use crate::app::{App, Runner};
use crate::resource::storage::ResourceStorage;
use crate::schedule::label::{Cycle, PreStartup, CYCLE, PRE_STARTUP};
use crate::schedule::ScheduleStorage;
use crate::world::World;

verus! {

/// A collection of setup of an application. It is run when the plugin is
/// installed, which happens once for each plugin.
pub trait Plugin<V, S>: Sized {
    /// The id of the plugin.
    spec fn spec_plugin_id() -> u64;

    /// Whether the plugin can set this application up.
    spec fn can_build(self, app: &App<V, S>) -> bool;

    /// What the plugin does to an application.
    spec fn built(self, before: &App<V, S>, after: &App<V, S>) -> bool;

    /// The id of the plugin.
    fn plugin_id() -> (id: u64)
        ensures
            id == Self::spec_plugin_id(),
    ;

    /// Sets the application up.
    fn build(self, app: &mut App<V, S>)
        requires
            old(app).wf(),
            self.can_build(old(app)),
        ensures
            final(app).wf(),
            final(app).installed() == old(app).installed(),
            self.built(old(app), final(app)),
    ;
}

/// The id of [`CycleSchedulerPlugin`].
pub const CYCLE_SCHEDULER_PLUGIN: u64 = 0;

/// The id of [`CtrlCPlugin`].
pub const CTRLC_PLUGIN: u64 = 1;

/// The id of the resource that [`CtrlCPlugin`] inserts.
pub const CTRLC_STATUS: u64 = 0;

/// The plugin that makes the cycle scheduler the runner of an application.
#[derive(Clone, Copy, Debug, Default)]
pub struct CycleSchedulerPlugin;

impl<V, S> Plugin<V, S> for CycleSchedulerPlugin {
    open spec fn spec_plugin_id() -> u64 {
        CYCLE_SCHEDULER_PLUGIN
    }

    open spec fn can_build(self, app: &App<V, S>) -> bool {
        app.runner() is None
    }

    open spec fn built(self, before: &App<V, S>, after: &App<V, S>) -> bool {
        &&& after.runner() == Some(Runner::CycleScheduler)
        &&& after.schedules() == before.schedules()
        &&& after.resources() == before.resources()
    }

    fn plugin_id() -> (id: u64) {
        CYCLE_SCHEDULER_PLUGIN
    }

    fn build(self, app: &mut App<V, S>) {
        app.set_runner(Runner::CycleScheduler);
    }
}

impl CycleSchedulerPlugin {
    /// Sets out to run the application with the cycle scheduler: makes the
    /// world of the resources of the application, takes its systems, and
    /// makes a scheduler that has not started anything.
    pub fn run<V, S>(self, app: App<V, S>) -> (res: (World<V>, ScheduleStorage<S>, CycleSchedulerFuture))
        requires
            app.wf(),
            app.resources() is Some,
            app.schedules() is Some,
        ensures
            res.0.wf(),
            res.0.exit_state() == 0,
            res.0.spec_resources().raw() == app.resources()->0,
            res.0.spec_archetypes().raw().len() == 0,
            res.1 == app.schedules()->0,
            res.1.wf(),
            res.2.wf(),
            res.2.state() == crate::app::cycle_scheduler::CycleSchedulerState::Init,
            forall|finished: Seq<bool>| #[trigger] res.2.pollable(&res.0, finished),
    {
        let mut app = app;
        let resources = app.take_resources();
        let world = World::new_with(ResourceStorage::new_with(resources));
        let schedules = app.take_schedules();
        let scheduler = CycleSchedulerFuture::new();
        (world, schedules, scheduler)
    }
}

/// The plugin that ends the application when it is interrupted from the
/// keyboard: it inserts the status to end with as a resource, a system
/// that sets the handler up before anything else runs, and a system that
/// looks for the interrupt in every cycle.
pub struct CtrlCPlugin<V, S> {
    /// The status that the application ends with when it is interrupted.
    pub exit_status: V,
    /// The system that sets the handler up.
    pub set_handler: S,
    /// The system that ends the application once the interrupt has come.
    pub exit_with_status: S,
}

impl<V, S> Plugin<V, S> for CtrlCPlugin<V, S> {
    open spec fn spec_plugin_id() -> u64 {
        CTRLC_PLUGIN
    }

    open spec fn can_build(self, app: &App<V, S>) -> bool {
        &&& app.schedules() is Some
        &&& app.resources() is Some
        &&& !app.resources()->0.contains(CTRLC_STATUS)
    }

    open spec fn built(self, before: &App<V, S>, after: &App<V, S>) -> bool {
        &&& after.runner() == before.runner()
        &&& after.resources() is Some
        &&& after.resources()->0.contains(CTRLC_STATUS)
        &&& after.resources()->0.value(CTRLC_STATUS) == self.exit_status
        &&& after.schedules() is Some
        &&& after.schedules()->0.schedule(PRE_STARTUP) == before.schedules()->0.schedule(
            PRE_STARTUP,
        ).push(self.set_handler)
        &&& after.schedules()->0.schedule(CYCLE) == before.schedules()->0.schedule(CYCLE).push(
            self.exit_with_status,
        )
    }

    fn plugin_id() -> (id: u64) {
        CTRLC_PLUGIN
    }

    fn build(self, app: &mut App<V, S>) {
        app.insert_resource(CTRLC_STATUS, self.exit_status);
        proof {
            broadcast use {
                crate::util::rwlock::RwLockInner::lemma_make,
                crate::resource::storage::ResourceCell::lemma_new_spec,
            };

            let resources = app.resources()->0;
            assert(resources@.dom().contains(CTRLC_STATUS));
            assert(resources@[CTRLC_STATUS] == resources.latch(CTRLC_STATUS));
        }
        app.add_systems(PreStartup, self.set_handler);
        app.add_systems(Cycle, self.exit_with_status);
    }
}

} // verus!
