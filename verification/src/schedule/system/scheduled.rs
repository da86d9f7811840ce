//! A system as it stands in a schedule: what it depends on, what gates it,
//! and how far one run of it has come.

use vstd::prelude::*;
use crate::component::archetype::storage::contains_id;
use crate::schedule::system::condition::{ConditionSystemConfig, IntoConditionSystemConfig};
use crate::world::World;

verus! {

/// How far one run of a scheduled system has come.
#[derive(Clone, Copy, Debug, PartialEq, Eq, Structural)]
pub enum ScheduledState {
    /// The run waits for the systems it depends on.
    Waiting,
    /// The condition of the system is running.
    Condition,
    /// The body of the system is running.
    Body,
    /// The run is over.
    Done,
}

/// What happened since the last step of a run.
#[derive(Clone, Copy, Debug, PartialEq, Eq, Structural)]
pub enum ScheduledEvent {
    /// The run is polled.
    Polled,
    /// The condition has returned.
    ConditionReturned(bool),
    /// The body has returned.
    BodyReturned,
}

/// What is to be done next for a run.
#[derive(Clone, Copy, Debug, PartialEq, Eq, Structural)]
pub enum ScheduledAction {
    /// Give way to other tasks, and poll the run again.
    Yield,
    /// Run the condition.
    RunCondition,
    /// Run the body.
    RunBody,
    /// Nothing: the run is over.
    Finish,
}

/// A system of the kind `S` as it stands in a schedule, with a condition
/// of the kind `C`.
pub struct ScheduledSystemConfig<S, C> {
    ids: Vec<u64>,
    depends_ids: Vec<u64>,
    run_if: Option<ConditionSystemConfig<C>>,
    run: S,
    state: ScheduledState,
}

/// Whether every system of `depends` is among `ran`.
pub open spec fn dependencies_met(depends: Seq<u64>, ran: Seq<u64>) -> bool {
    forall|k: int| 0 <= k < depends.len() ==> ran.contains(#[trigger] depends[k])
}

/// The step of a run: the state after the event, and what is to be done.
///
/// A run that depends on other systems waits until all of them have run,
/// and is over at once when the application is exiting while it waits.
/// Then its condition runs, if it has one; the body runs unless the
/// condition returned `false`.
pub open spec fn scheduled_step(
    state: ScheduledState,
    event: ScheduledEvent,
    depends: Seq<u64>,
    gated: bool,
    ran: Seq<u64>,
    exiting: bool,
) -> (ScheduledState, ScheduledAction) {
    match (state, event) {
        (ScheduledState::Waiting, ScheduledEvent::Polled) => {
            if depends.len() > 0 && exiting {
                (ScheduledState::Done, ScheduledAction::Finish)
            } else if depends.len() > 0 && !dependencies_met(depends, ran) {
                (ScheduledState::Waiting, ScheduledAction::Yield)
            } else if gated {
                (ScheduledState::Condition, ScheduledAction::RunCondition)
            } else {
                (ScheduledState::Body, ScheduledAction::RunBody)
            }
        },
        (ScheduledState::Condition, ScheduledEvent::ConditionReturned(go)) => {
            if go {
                (ScheduledState::Body, ScheduledAction::RunBody)
            } else {
                (ScheduledState::Done, ScheduledAction::Finish)
            }
        },
        (ScheduledState::Body, ScheduledEvent::BodyReturned) => (
            ScheduledState::Done,
            ScheduledAction::Finish,
        ),
        (ScheduledState::Done, _) => (ScheduledState::Done, ScheduledAction::Finish),
        (ScheduledState::Waiting, _) => (ScheduledState::Waiting, ScheduledAction::Yield),
        (ScheduledState::Condition, _) => (ScheduledState::Condition, ScheduledAction::Yield),
        (ScheduledState::Body, _) => (ScheduledState::Body, ScheduledAction::Yield),
    }
}

impl<S, C> ScheduledSystemConfig<S, C> {
    /// The identities of the system.
    pub closed spec fn ids(&self) -> Seq<u64> {
        self.ids@
    }

    /// The systems that have to have run before this one does.
    pub closed spec fn depends_ids(&self) -> Seq<u64> {
        self.depends_ids@
    }

    /// The condition, if the system has one.
    pub closed spec fn gate(&self) -> Option<ConditionSystemConfig<C>> {
        self.run_if
    }

    /// The system.
    pub closed spec fn system(&self) -> S {
        self.run
    }

    /// How far the current run has come.
    pub closed spec fn state(&self) -> ScheduledState {
        self.state
    }

    /// A system in a schedule, with the given identity, without
    /// dependencies and without a condition.
    pub fn new(id: u64, run: S) -> (config: Self)
        ensures
            config.ids() == seq![id],
            config.depends_ids() == Seq::<u64>::empty(),
            config.gate() is None,
            config.system() == run,
            config.state() == ScheduledState::Waiting,
    {
        let mut ids = Vec::new();
        ids.push(id);
        ScheduledSystemConfig {
            ids,
            depends_ids: Vec::new(),
            run_if: None,
            run,
            state: ScheduledState::Waiting,
        }
    }

    /// The same system, which also waits for the systems `after`.
    pub fn depends_on(self, after: &Vec<u64>) -> (config: Self)
        ensures
            config.ids() == self.ids(),
            config.gate() == self.gate(),
            config.system() == self.system(),
            config.state() == self.state(),
            config.depends_ids().len() <= self.depends_ids().len() + after@.len(),
            forall|id: u64|
                #![trigger config.depends_ids().contains(id)]
                config.depends_ids().contains(id) <==> (self.depends_ids().contains(id)
                    || after@.contains(id)),
    {
        let mut config = self;
        let mut k: usize = 0;
        while k < after.len()
            invariant
                k <= after@.len(),
                config.ids@ == self.ids@,
                config.run_if == self.run_if,
                config.run == self.run,
                config.state == self.state,
                config.depends_ids@.len() <= self.depends_ids@.len() + k,
                forall|id: u64|
                    #![trigger config.depends_ids@.contains(id)]
                    #![trigger after@.take(k as int).contains(id)]
                    config.depends_ids@.contains(id) <==> (self.depends_ids@.contains(id)
                        || after@.take(k as int).contains(id)),
            decreases after@.len() - k,
        {
            let ghost before = config.depends_ids@;
            let ghost seen = after@.take(k as int);
            let ghost next = after@.take(k + 1);
            if !contains_id(&config.depends_ids, after[k]) {
                config.depends_ids.push(after[k]);
            }
            proof {
                assert(next =~= seen.push(after@[k as int]));
                assert forall|id: u64|
                    #![trigger config.depends_ids@.contains(id)]
                    #![trigger next.contains(id)]
                    config.depends_ids@.contains(id) <==> (self.depends_ids@.contains(id)
                        || next.contains(id)) by {
                    assert(before.contains(id) <==> (self.depends_ids@.contains(id)
                        || seen.contains(id)));
                    if next.contains(id) {
                        let j = choose|j: int| 0 <= j < next.len() && next[j] == id;
                        if j < k {
                            assert(seen[j] == id);
                        }
                    }
                    if seen.contains(id) {
                        let j = choose|j: int| 0 <= j < seen.len() && seen[j] == id;
                        assert(next[j] == id);
                    }
                    assert(next[k as int] == after@[k as int]);
                    if config.depends_ids@.contains(id) {
                        let j = choose|j: int|
                            0 <= j < config.depends_ids@.len() && config.depends_ids@[j] == id;
                        if j < before.len() {
                            assert(before[j] == id);
                        }
                    }
                    if before.contains(id) {
                        let j = choose|j: int| 0 <= j < before.len() && before[j] == id;
                        assert(config.depends_ids@[j] == id);
                    }
                    if id == after@[k as int] && !before.contains(id) {
                        assert(config.depends_ids@[before.len() as int] == id);
                    }
                }
            }
            k += 1;
        }
        proof {
            assert(after@.take(after@.len() as int) == after@);
        }
        config
    }

    /// The same system, gated by `condition`. A system has one condition
    /// at most.
    pub fn run_if<I: IntoConditionSystemConfig<C>>(self, condition: I) -> (config: Self)
        requires
            self.gate() is None,
        ensures
            config.ids() == self.ids(),
            config.depends_ids() == self.depends_ids(),
            config.system() == self.system(),
            config.state() == self.state(),
            config.gate() matches Some(gate) && gate@ == condition.spec_condition(),
    {
        ScheduledSystemConfig {
            ids: self.ids,
            depends_ids: self.depends_ids,
            run_if: Some(condition.into_condition_system_config()),
            run: self.run,
            state: self.state,
        }
    }

    /// Whether every system that this one depends on has run.
    pub fn dependencies_ran<V>(&self, world: &World<V>) -> (met: bool)
        ensures
            met == dependencies_met(self.depends_ids(), world.ran()),
    {
        let mut k: usize = 0;
        while k < self.depends_ids.len()
            invariant
                k <= self.depends_ids@.len(),
                forall|j: int| 0 <= j < k ==> world.ran().contains(#[trigger] self.depends_ids@[j]),
            decreases self.depends_ids@.len() - k,
        {
            if !world.has_run(self.depends_ids[k]) {
                return false;
            }
            k += 1;
        }
        true
    }

    /// Starts a new run of the system.
    pub fn restart(&mut self)
        ensures
            final(self).state() == ScheduledState::Waiting,
            final(self).ids() == old(self).ids(),
            final(self).depends_ids() == old(self).depends_ids(),
            final(self).gate() == old(self).gate(),
            final(self).system() == old(self).system(),
    {
        self.state = ScheduledState::Waiting;
    }

    /// Takes one step of the current run: says what is to be done after
    /// `event`, given which systems have run and whether the application
    /// is exiting.
    pub fn acquire_and_run<V>(&mut self, world: &World<V>, event: ScheduledEvent) -> (action: ScheduledAction)
        ensures
            (final(self).state(), action) == scheduled_step(
                old(self).state(),
                event,
                old(self).depends_ids(),
                old(self).gate() is Some,
                world.ran(),
                world.spec_is_exiting(),
            ),
            final(self).ids() == old(self).ids(),
            final(self).depends_ids() == old(self).depends_ids(),
            final(self).gate() == old(self).gate(),
            final(self).system() == old(self).system(),
    {
        match (self.state, event) {
            (ScheduledState::Waiting, ScheduledEvent::Polled) => {
                if self.depends_ids.len() > 0 {
                    if world.is_exiting() {
                        self.state = ScheduledState::Done;
                        return ScheduledAction::Finish;
                    }
                    if !self.dependencies_ran(world) {
                        return ScheduledAction::Yield;
                    }
                }
                if self.run_if.is_some() {
                    self.state = ScheduledState::Condition;
                    ScheduledAction::RunCondition
                } else {
                    self.state = ScheduledState::Body;
                    ScheduledAction::RunBody
                }
            },
            (ScheduledState::Condition, ScheduledEvent::ConditionReturned(go)) => {
                if go {
                    self.state = ScheduledState::Body;
                    ScheduledAction::RunBody
                } else {
                    self.state = ScheduledState::Done;
                    ScheduledAction::Finish
                }
            },
            (ScheduledState::Body, ScheduledEvent::BodyReturned) => {
                self.state = ScheduledState::Done;
                ScheduledAction::Finish
            },
            (ScheduledState::Done, _) => ScheduledAction::Finish,
            _ => ScheduledAction::Yield,
        }
    }

    /// The condition, to run it.
    pub fn gate_mut(&mut self) -> (gate: &mut Option<ConditionSystemConfig<C>>)
        ensures
            *gate == old(self).gate(),
            final(self).gate() == *final(gate),
            final(self).ids() == old(self).ids(),
            final(self).depends_ids() == old(self).depends_ids(),
            final(self).system() == old(self).system(),
            final(self).state() == old(self).state(),
    {
        &mut self.run_if
    }

    /// The system, to look at.
    pub fn system_ref(&self) -> (run: &S)
        ensures
            *run == self.system(),
    {
        &self.run
    }

    /// The system, to run.
    pub fn system_mut(&mut self) -> (run: &mut S)
        ensures
            *run == old(self).system(),
            final(self).system() == *final(run),
            final(self).ids() == old(self).ids(),
            final(self).depends_ids() == old(self).depends_ids(),
            final(self).gate() == old(self).gate(),
            final(self).state() == old(self).state(),
    {
        &mut self.run
    }
}

/// What can be turned into a scheduled system.
pub trait IntoScheduledSystemConfig<S, C>: Sized {
    /// Turns `self` into a scheduled system.
    fn into_scheduled_system_config(self) -> (config: ScheduledSystemConfig<S, C>);
}

impl<S, C> IntoScheduledSystemConfig<S, C> for ScheduledSystemConfig<S, C> {
    fn into_scheduled_system_config(self) -> (config: ScheduledSystemConfig<S, C>) {
        self
    }
}

} // verus!
