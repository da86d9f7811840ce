//! Schedules: the systems of an application, grouped under labels.

use vstd::prelude::*;

pub mod label;
pub mod system;

pub use label::{Always, Cycle, PostShutdown, PreStartup, ScheduleLabel, Shutdown, Startup};

verus! {

/// The systems that run under one label.
pub struct Schedule<S> {
    label: u64,
    systems: Vec<S>,
}

/// The systems of an application, grouped under the labels that they were
/// added under. Two labels are the same exactly when their ids are equal;
/// the id of a label is a function of its value.
pub struct ScheduleStorage<S> {
    schedules: Vec<Schedule<S>>,
}

impl<S> ScheduleStorage<S> {
    /// The labels, in the order in which they were first used.
    pub closed spec fn labels(&self) -> Seq<u64> {
        Seq::new(self.schedules@.len(), |k: int| self.schedules@[k].label)
    }

    /// The systems of the label at `k`, in the order in which they were added.
    pub closed spec fn systems_at(&self, k: int) -> Seq<S> {
        self.schedules@[k].systems@
    }

    /// No label is listed twice.
    pub open spec fn wf(&self) -> bool {
        self.labels().no_duplicates()
    }

    /// Where the label stands.
    pub open spec fn index_of(&self, label: u64) -> int {
        choose|k: int| 0 <= k < self.labels().len() && self.labels()[k] == label
    }

    /// The systems under the label, in the order in which they were added;
    /// none where nothing was added under it.
    pub open spec fn schedule(&self, label: u64) -> Seq<S> {
        if self.labels().contains(label) {
            self.systems_at(self.index_of(label))
        } else {
            Seq::empty()
        }
    }

    /// Schedules without systems.
    pub fn new() -> (storage: Self)
        ensures
            storage.wf(),
            forall|label: u64| #[trigger] storage.schedule(label) == Seq::<S>::empty(),
    {
        let storage = ScheduleStorage { schedules: Vec::new() };
        assert(storage.labels() =~= Seq::<u64>::empty());
        storage
    }

    /// Where the label stands, if anything was added under it.
    fn position(&self, label: u64) -> (found: Option<usize>)
        requires
            self.wf(),
        ensures
            found is Some == self.labels().contains(label),
            found matches Some(k) ==> k == self.index_of(label) && k < self.labels().len(),
    {
        let mut k: usize = 0;
        while k < self.schedules.len()
            invariant
                self.wf(),
                k <= self.schedules@.len(),
                forall|j: int| 0 <= j < k ==> self.labels()[j] != label,
            decreases self.schedules@.len() - k,
        {
            if self.schedules[k].label == label {
                assert(self.labels()[k as int] == label);
                return Some(k);
            }
            k += 1;
        }
        None
    }

    /// Adds a system at the end of the schedule of the label `run_on`.
    pub fn add_systems<L: ScheduleLabel>(&mut self, run_on: L, system: S)
        requires
            old(self).wf(),
        ensures
            final(self).wf(),
            final(self).schedule(run_on.spec_label_id()) == old(self).schedule(
                run_on.spec_label_id(),
            ).push(system),
            forall|other: u64|
                other != run_on.spec_label_id() ==> #[trigger] final(self).schedule(other)
                    == old(self).schedule(other),
    {
        let label = run_on.label_id();
        match self.position(label) {
            Some(k) => {
                self.schedules[k].systems.push(system);
                proof {
                    assert(self.labels() =~= old(self).labels());
                    assert forall|other: u64| other != label implies #[trigger] self.schedule(
                        other,
                    ) == old(self).schedule(other) by {
                        if old(self).labels().contains(other) {
                            let j = old(self).index_of(other);
                            assert(self.systems_at(j) == old(self).systems_at(j));
                        }
                    }
                }
            },
            None => {
                let mut systems = Vec::new();
                systems.push(system);
                self.schedules.push(Schedule { label, systems });
                proof {
                    let n = old(self).labels().len() as int;
                    assert(self.labels() =~= old(self).labels().push(label));
                    assert(self.labels()[n] == label);
                    assert(self.systems_at(n) =~= Seq::<S>::empty().push(system));
                    assert forall|other: u64| other != label implies #[trigger] self.schedule(
                        other,
                    ) == old(self).schedule(other) by {
                        if old(self).labels().contains(other) {
                            let j = old(self).index_of(other);
                            assert(self.labels()[j] == other);
                            assert(self.systems_at(j) == old(self).systems_at(j));
                        }
                        if self.labels().contains(other) {
                            let j = self.index_of(other);
                            assert(old(self).labels()[j] == other);
                        }
                    }
                }
            },
        }
    }

    /// The number of systems under the label with the given id.
    pub fn count(&self, label: u64) -> (n: usize)
        requires
            self.wf(),
        ensures
            n == self.schedule(label).len(),
    {
        match self.position(label) {
            Some(k) => self.schedules[k].systems.len(),
            None => 0,
        }
    }

    /// The system at `index` of the schedule of the label with the given id.
    pub fn get(&self, label: u64, index: usize) -> (system: Option<&S>)
        requires
            self.wf(),
        ensures
            system is Some == (index < self.schedule(label).len()),
            system matches Some(s) ==> *s == self.schedule(label)[index as int],
    {
        match self.position(label) {
            Some(k) => {
                if index < self.schedules[k].systems.len() {
                    Some(&self.schedules[k].systems[index])
                } else {
                    None
                }
            },
            None => None,
        }
    }

    /// The systems under the label `schedule`, in the order in which they
    /// were added.
    pub fn get_schedule<L: ScheduleLabel>(&self, schedule: L) -> (systems: &[S])
        requires
            self.wf(),
        ensures
            systems@ == self.schedule(schedule.spec_label_id()),
    {
        match self.position(schedule.label_id()) {
            Some(k) => self.schedules[k].systems.as_slice(),
            None => {
                let empty: &[S] = &[];
                assert(empty@ =~= Seq::<S>::empty());
                empty
            },
        }
    }
}

} // verus!
