//! The highest level: an application, what is installed in it, and how it ends.

use vstd::prelude::*;
use crate::component::archetype::storage::contains_id;
use crate::resource::storage::{RawResourceStorage, ResourceCell, ResourceStorage};
use crate::schedule::{ScheduleLabel, ScheduleStorage};
use crate::util::rwlock::RwLockInner;
use crate::world::World;

pub mod cycle_scheduler;
pub mod plugin;

pub use plugin::{CtrlCPlugin, CycleSchedulerPlugin, Plugin};

verus! {

/// The status with which an application ends.
#[derive(Debug)]
pub enum AppExit {
    /// The application ended without any problem.
    Success,
    /// The application met an error, which the message describes.
    Failure(String),
}

impl AppExit {
    /// Whether the application ended without any problem.
    pub fn is_ok(&self) -> (b: bool)
        ensures
            b == (*self is Success),
    {
        match self {
            AppExit::Success => true,
            AppExit::Failure(_) => false,
        }
    }
}

/// Who runs an application.
#[derive(Clone, Copy, Debug, PartialEq, Eq, Structural)]
pub enum Runner {
    /// The cycle scheduler of this crate.
    CycleScheduler,
    /// A runner of the application's own, by its number.
    Custom(u64),
}

/// An application while it is put together: what is installed in it, who
/// will run it, its systems and the resources that it starts with.
pub struct App<V, S> {
    installed_plugins: Vec<u64>,
    runner: Option<Runner>,
    schedules: Option<ScheduleStorage<S>>,
    resources: Option<RawResourceStorage<V>>,
}

impl<V, S> App<V, S> {
    /// The plugins that are installed, in the order in which they were.
    pub closed spec fn installed(&self) -> Seq<u64> {
        self.installed_plugins@
    }

    /// Who will run the application, once that is settled.
    pub closed spec fn runner(&self) -> Option<Runner> {
        self.runner
    }

    /// The systems, until they are taken.
    pub closed spec fn schedules(&self) -> Option<ScheduleStorage<S>> {
        self.schedules
    }

    /// The resources, until they are taken.
    pub closed spec fn resources(&self) -> Option<RawResourceStorage<V>> {
        self.resources
    }

    /// What is still in the application is well-formed, and no plugin is
    /// installed twice.
    pub open spec fn wf(&self) -> bool {
        &&& self.installed().no_duplicates()
        &&& self.schedules() matches Some(schedules) ==> schedules.wf()
        &&& self.resources() matches Some(resources) ==> resources.wf()
    }

    /// Whether this application is set up as `other` is: with the same
    /// runner, systems and resources.
    pub open spec fn same_setup(&self, other: &Self) -> bool {
        &&& self.runner() == other.runner()
        &&& self.schedules() == other.schedules()
        &&& self.resources() == other.resources()
    }

    /// An application with nothing in it.
    pub fn new() -> (app: Self)
        ensures
            app.wf(),
            app.installed() == Seq::<u64>::empty(),
            app.runner() is None,
            app.schedules() is Some,
            app.resources() is Some,
            app.resources()->0.ids() == Seq::<u64>::empty(),
            forall|label: u64| #[trigger] app.schedules()->0.schedule(label) == Seq::<S>::empty(),
    {
        App {
            installed_plugins: Vec::new(),
            runner: None,
            schedules: Some(ScheduleStorage::new()),
            resources: Some(RawResourceStorage::new()),
        }
    }

    /// Installs a plugin: notes it as installed and lets it set the
    /// application up. A plugin can be installed once.
    pub fn add_plugin<P: Plugin<V, S>>(&mut self, plugin: P)
        requires
            old(self).wf(),
            !old(self).installed().contains(P::spec_plugin_id()),
            plugin.can_build(old(self)),
        ensures
            final(self).wf(),
            final(self).installed() == old(self).installed().push(P::spec_plugin_id()),
            exists|built: Self| #[trigger]
                plugin.built(old(self), &built) && final(self).same_setup(&built),
    {
        plugin.build(self);
        let ghost built = *self;
        self.installed_plugins.push(P::plugin_id());
        proof {
            assert(plugin.built(old(self), &built) && self.same_setup(&built));
            let before = old(self).installed_plugins@;
            assert forall|i: int, j: int|
                0 <= i < j < self.installed_plugins@.len() implies self.installed_plugins@[i]
                != self.installed_plugins@[j] by {
                if j == before.len() {
                    assert(before[i] == self.installed_plugins@[i]);
                    assert(before.contains(before[i]));
                }
            }
        }
    }

    /// Whether the plugin with the given id is installed.
    pub fn has_plugin(&self, plugin_id: u64) -> (b: bool)
        ensures
            b == self.installed().contains(plugin_id),
    {
        contains_id(&self.installed_plugins, plugin_id)
    }

    /// Whether it is settled who runs the application.
    pub fn has_runner(&self) -> (b: bool)
        ensures
            b == (self.runner() is Some),
    {
        self.runner.is_some()
    }

    /// Whether the systems are still in the application.
    pub fn has_schedules(&self) -> (b: bool)
        ensures
            b == (self.schedules() is Some),
    {
        self.schedules.is_some()
    }

    /// Whether the resources are still in the application.
    pub fn has_resources(&self) -> (b: bool)
        ensures
            b == (self.resources() is Some),
    {
        self.resources.is_some()
    }

    /// Settles who runs the application, which is settled once.
    pub fn set_runner(&mut self, runner: Runner)
        requires
            old(self).runner() is None,
        ensures
            final(self).runner() == Some(runner),
            final(self).installed() == old(self).installed(),
            final(self).schedules() == old(self).schedules(),
            final(self).resources() == old(self).resources(),
    {
        self.runner = Some(runner);
    }

    /// Adds a system under the label `run_on`, while the systems are there.
    pub fn add_systems<L: ScheduleLabel>(&mut self, run_on: L, system: S)
        requires
            old(self).wf(),
            old(self).schedules() is Some,
        ensures
            final(self).wf(),
            final(self).schedules() is Some,
            final(self).schedules()->0.schedule(run_on.spec_label_id())
                == old(self).schedules()->0.schedule(run_on.spec_label_id()).push(system),
            forall|other: u64|
                other != run_on.spec_label_id()
                    ==> #[trigger] final(self).schedules()->0.schedule(other)
                    == old(self).schedules()->0.schedule(other),
            final(self).installed() == old(self).installed(),
            final(self).runner() == old(self).runner(),
            final(self).resources() == old(self).resources(),
    {
        let mut schedules = self.schedules.take().unwrap();
        schedules.add_systems(run_on, system);
        self.schedules = Some(schedules);
    }

    /// Takes the systems out of the application, which can be done once.
    pub fn take_schedules(&mut self) -> (schedules: ScheduleStorage<S>)
        requires
            old(self).schedules() is Some,
        ensures
            Some(schedules) == old(self).schedules(),
            final(self).schedules() is None,
            final(self).installed() == old(self).installed(),
            final(self).runner() == old(self).runner(),
            final(self).resources() == old(self).resources(),
    {
        self.schedules.take().unwrap()
    }

    /// Inserts a resource that the application starts with. There is one
    /// resource of a type at most, and the resources have to be there.
    pub fn insert_resource(&mut self, type_id: u64, resource: V)
        requires
            old(self).wf(),
            old(self).resources() is Some,
            !old(self).resources()->0.contains(type_id),
        ensures
            final(self).wf(),
            final(self).resources() is Some,
            final(self).resources()->0@ == old(self).resources()->0@.insert(
                type_id,
                RwLockInner::make(ResourceCell::new_spec(resource), 0, 0),
            ),
            final(self).resources()->0.ids() == old(self).resources()->0.ids().push(type_id),
            final(self).installed() == old(self).installed(),
            final(self).runner() == old(self).runner(),
            final(self).schedules() == old(self).schedules(),
    {
        let mut resources = self.resources.take().unwrap();
        let _ = resources.insert(type_id, resource);
        self.resources = Some(resources);
    }

    /// Whether a resource of the given type can be inserted: the resources
    /// are there and hold none of that type.
    pub fn can_insert_resource(&self, type_id: u64) -> (b: bool)
        requires
            self.wf(),
        ensures
            b == (self.resources() is Some && !self.resources()->0.contains(type_id)),
    {
        match &self.resources {
            Some(resources) => resources.position(type_id).is_none(),
            None => false,
        }
    }

    /// Takes the resources out of the application, which can be done once.
    pub fn take_resources(&mut self) -> (resources: RawResourceStorage<V>)
        requires
            old(self).resources() is Some,
        ensures
            Some(resources) == old(self).resources(),
            final(self).resources() is None,
            final(self).installed() == old(self).installed(),
            final(self).runner() == old(self).runner(),
            final(self).schedules() == old(self).schedules(),
    {
        self.resources.take().unwrap()
    }

    /// Hands the application to its runner: says who it is. An application
    /// without a runner cannot be run.
    pub fn run(self) -> (res: (Runner, Self))
        requires
            self.runner() is Some,
        ensures
            Some(res.0) == self.runner(),
            res.1.runner() is None,
            res.1.installed() == self.installed(),
            res.1.schedules() == self.schedules(),
            res.1.resources() == self.resources(),
    {
        let mut app = self;
        let runner = app.runner.take().unwrap();
        (runner, app)
    }
}

} // verus!
