//! The cycle scheduler: a state machine that takes an application through
//! its phases.
//!
//! The scheduler does not run anything itself. Whoever drives it polls the
//! tasks that are in flight, tells the scheduler which of them have
//! completed, and starts the tasks that the scheduler hands out.

use vstd::prelude::*;
use crate::app::AppExit;
use crate::schedule::label::{ALWAYS, CYCLE, POST_SHUTDOWN, PRE_STARTUP, SHUTDOWN, STARTUP};
use crate::schedule::ScheduleStorage;
use crate::util::sparsevec::SparseVec;
use crate::world::{Command, World};
use crate::Poll;

verus! {

/// The phase that the scheduler is in.
#[derive(Clone, Copy, Debug, PartialEq, Eq, Structural)]
pub enum CycleSchedulerState {
    /// Nothing has been started yet.
    Init,
    /// The systems of `PreStartup` are running.
    PreStartup,
    /// The systems of `Startup` and `Cycle` are running.
    Main,
    /// The systems of `Shutdown` are running, and those of `Startup` and
    /// `Cycle` are finishing.
    Shutdown,
    /// The systems of `PostShutdown` are running.
    PostShutdown,
}

/// How a task runs.
#[derive(Clone, Copy, Debug, PartialEq, Eq, Structural)]
pub enum TaskKind {
    /// One run of a system.
    OneShot,
    /// Runs of a system, one after the other, until the application exits.
    Looping,
    /// A command that is being applied.
    Command,
}

/// A task that the scheduler has started: a system of a schedule, or a command.
#[derive(Clone, Copy, Debug, PartialEq, Eq, Structural)]
pub struct Task {
    pub kind: TaskKind,
    pub label: u64,
    pub index: usize,
}

/// What one poll of the scheduler has done.
pub struct SchedulerPoll<V> {
    /// The tasks of `Always` that were started, in order.
    pub started_always: Vec<Task>,
    /// The tasks that were put into slots, each with its slot: first one
    /// task for each command, in the order of the commands, then the tasks
    /// of the systems that were started.
    pub placed: Vec<(usize, Task)>,
    /// The commands that were taken from the queue, in order.
    pub commands: Vec<Command<V>>,
    /// The exit status, once everything is over.
    pub result: Poll<AppExit>,
}

/// The state machine of the cycle scheduler.
pub struct CycleSchedulerFuture {
    state: CycleSchedulerState,
    always_futures: Vec<Task>,
    futures: SparseVec<Task>,
}

/// Whether `finished` says that the task at `i` has completed.
pub open spec fn is_finished(finished: Seq<bool>, i: int) -> bool {
    0 <= i < finished.len() && finished[i]
}

/// The tasks of `tasks` that have not completed, in order.
pub open spec fn retained_always(tasks: Seq<Task>, finished: Seq<bool>) -> Seq<Task>
    decreases tasks.len(),
{
    if tasks.len() == 0 {
        Seq::empty()
    } else if is_finished(finished, tasks.len() - 1) {
        retained_always(tasks.drop_last(), finished)
    } else {
        retained_always(tasks.drop_last(), finished).push(tasks.last())
    }
}

/// The slots with those emptied whose task has completed.
pub open spec fn retained(slots: Seq<Option<Task>>, finished: Seq<bool>) -> Seq<Option<Task>> {
    Seq::new(
        slots.len(),
        |i: int|
            if is_finished(finished, i) {
                None
            } else {
                slots[i]
            },
    )
}

/// Whether no slot holds a task.
pub open spec fn all_empty(slots: Seq<Option<Task>>) -> bool {
    forall|i: int| 0 <= i < slots.len() ==> (#[trigger] slots[i]) is None
}

/// The tasks for the `count` systems of a schedule, in the order of the schedule.
pub open spec fn label_tasks(kind: TaskKind, label: u64, count: nat) -> Seq<Task> {
    Seq::new(count, |i: int| Task { kind, label, index: i as usize })
}

/// The tasks that apply `count` commands.
pub open spec fn command_tasks(count: nat) -> Seq<Task> {
    Seq::new(count, |i: int| Task { kind: TaskKind::Command, label: 0, index: i as usize })
}

/// The phase after a poll in which the slots were `idle` (no task left in
/// flight) or not, and the application was `exiting` or not.
pub open spec fn next_state(state: CycleSchedulerState, idle: bool, exiting: bool) -> CycleSchedulerState {
    match state {
        CycleSchedulerState::Init => CycleSchedulerState::PreStartup,
        CycleSchedulerState::PreStartup => if idle {
            CycleSchedulerState::Main
        } else {
            CycleSchedulerState::PreStartup
        },
        CycleSchedulerState::Main => if exiting {
            CycleSchedulerState::Shutdown
        } else {
            CycleSchedulerState::Main
        },
        CycleSchedulerState::Shutdown => if idle {
            CycleSchedulerState::PostShutdown
        } else {
            CycleSchedulerState::Shutdown
        },
        CycleSchedulerState::PostShutdown => CycleSchedulerState::PostShutdown,
    }
}

/// The tasks that a poll starts in the slots, in order.
pub open spec fn tasks_to_start<S>(
    state: CycleSchedulerState,
    idle: bool,
    exiting: bool,
    schedules: &ScheduleStorage<S>,
) -> Seq<Task> {
    match state {
        CycleSchedulerState::Init => label_tasks(
            TaskKind::OneShot,
            PRE_STARTUP,
            schedules.schedule(PRE_STARTUP).len(),
        ),
        CycleSchedulerState::PreStartup => if idle {
            label_tasks(TaskKind::OneShot, STARTUP, schedules.schedule(STARTUP).len())
                + label_tasks(TaskKind::Looping, CYCLE, schedules.schedule(CYCLE).len())
        } else {
            Seq::empty()
        },
        CycleSchedulerState::Main => if exiting {
            label_tasks(TaskKind::OneShot, SHUTDOWN, schedules.schedule(SHUTDOWN).len())
        } else {
            Seq::empty()
        },
        CycleSchedulerState::Shutdown => if idle {
            label_tasks(TaskKind::OneShot, POST_SHUTDOWN, schedules.schedule(POST_SHUTDOWN).len())
        } else {
            Seq::empty()
        },
        CycleSchedulerState::PostShutdown => Seq::empty(),
    }
}

/// The tasks of `Always` that a poll starts, in order.
pub open spec fn always_to_start<S>(state: CycleSchedulerState, schedules: &ScheduleStorage<S>) -> Seq<
    Task,
> {
    if state is Init {
        label_tasks(TaskKind::Looping, ALWAYS, schedules.schedule(ALWAYS).len())
    } else {
        Seq::empty()
    }
}

/// Whether a system task under `label` may be in flight in the phase `state`.
pub open spec fn label_allowed(state: CycleSchedulerState, label: u64) -> bool {
    match state {
        CycleSchedulerState::Init => false,
        CycleSchedulerState::PreStartup => label == PRE_STARTUP,
        CycleSchedulerState::Main => label == STARTUP || label == CYCLE,
        CycleSchedulerState::Shutdown => label == STARTUP || label == CYCLE || label == SHUTDOWN,
        CycleSchedulerState::PostShutdown => label == POST_SHUTDOWN,
    }
}

/// Phase ordering, as what may be in flight: every system task in the
/// slots belongs to a schedule of the current phase.
pub open spec fn phase_ordered(state: CycleSchedulerState, slots: Seq<Option<Task>>) -> bool {
    forall|i: int|
        0 <= i < slots.len() && (#[trigger] slots[i]) is Some && !(slots[i]->0.kind is Command)
            ==> label_allowed(state, slots[i]->0.label)
}

/// Whether `after` is `before` with the tasks of `placed` put into slots
/// that were empty or new, and nothing else changed.
pub open spec fn placed_into(
    before: Seq<Option<Task>>,
    after: Seq<Option<Task>>,
    placed: Seq<(usize, Task)>,
) -> bool {
    &&& after.len() >= before.len()
    &&& forall|j: int|
        0 <= j < placed.len() ==> (#[trigger] placed[j]).0 < after.len()
            && after[placed[j].0 as int]
            == Some(placed[j].1) && (placed[j].0 < before.len()
                ==> before[placed[j].0 as int] is None)
    &&& forall|j: int, k: int|
        0 <= j < k < placed.len() ==> (#[trigger] placed[j]).0 != (#[trigger] placed[k]).0
    &&& forall|i: int|
        0 <= i < after.len() && !(#[trigger] is_placed(placed, i)) ==> i < before.len() && after[i]
            == before[i]
}

/// Whether a task was put into the slot `i`.
pub open spec fn is_placed(placed: Seq<(usize, Task)>, i: int) -> bool {
    exists|j: int| 0 <= j < placed.len() && (#[trigger] placed[j]).0 == i
}

/// The tasks of a list of placed tasks.
pub open spec fn tasks_of(placed: Seq<(usize, Task)>) -> Seq<Task> {
    Seq::new(placed.len(), |j: int| placed[j].1)
}

impl CycleSchedulerFuture {
    /// The phase.
    pub closed spec fn state(&self) -> CycleSchedulerState {
        self.state
    }

    /// The tasks of `Always` that are in flight.
    pub closed spec fn always(&self) -> Seq<Task> {
        self.always_futures@
    }

    /// The slots of the tasks that are in flight, `None` for an empty slot.
    pub closed spec fn slots(&self) -> Seq<Option<Task>> {
        self.futures@
    }

    /// The invariant of the scheduler: its slots are well-formed, and every
    /// system task in flight belongs to a schedule of the current phase.
    pub closed spec fn wf(&self) -> bool {
        &&& self.futures.wf()
        &&& phase_ordered(self.state, self.futures@)
    }

    /// What the invariant says of the tasks in flight.
    pub proof fn lemma_phase_ordered(&self)
        requires
            self.wf(),
        ensures
            phase_ordered(self.state(), self.slots()),
    {
    }

    /// A scheduler that has not started anything.
    pub fn new() -> (scheduler: Self)
        ensures
            scheduler.wf(),
            scheduler.state() == CycleSchedulerState::Init,
            scheduler.always() == Seq::<Task>::empty(),
            scheduler.slots() == Seq::<Option<Task>>::empty(),
    {
        CycleSchedulerFuture {
            state: CycleSchedulerState::Init,
            always_futures: Vec::new(),
            futures: SparseVec::new(),
        }
    }

    /// The phase.
    pub fn phase(&self) -> (state: CycleSchedulerState)
        ensures
            state == self.state(),
    {
        self.state
    }

    /// The number of slots.
    pub fn slot_count(&self) -> (n: usize)
        ensures
            n == self.slots().len(),
    {
        self.futures.len()
    }

    /// The task in the slot `slot`, if there is one.
    pub fn task(&self, slot: usize) -> (task: Option<Task>)
        ensures
            slot < self.slots().len() ==> task == self.slots()[slot as int],
            slot >= self.slots().len() ==> task is None,
    {
        match self.futures.get(slot) {
            Some(task) => Some(*task),
            None => None,
        }
    }

    /// Drops the tasks of `Always` that have completed.
    fn retain_always(&mut self, finished: &Vec<bool>)
        ensures
            final(self).always_futures@ == retained_always(old(self).always_futures@, finished@),
            final(self).state == old(self).state,
            final(self).futures == old(self).futures,
    {
        let mut kept: Vec<Task> = Vec::new();
        let mut i: usize = 0;
        while i < self.always_futures.len()
            invariant
                i <= self.always_futures@.len(),
                self.always_futures@ == old(self).always_futures@,
                self.state == old(self).state,
                self.futures == old(self).futures,
                kept@ == retained_always(self.always_futures@.take(i as int), finished@),
            decreases self.always_futures@.len() - i,
        {
            let ghost next = self.always_futures@.take(i + 1);
            proof {
                assert(next.drop_last() == self.always_futures@.take(i as int));
                assert(next.last() == self.always_futures@[i as int]);
            }
            if !(i < finished.len() && finished[i]) {
                kept.push(self.always_futures[i]);
            }
            i += 1;
        }
        proof {
            assert(self.always_futures@.take(self.always_futures@.len() as int)
                == self.always_futures@);
        }
        self.always_futures = kept;
    }

    /// Empties the slots of the tasks that have completed.
    fn retain_futures(&mut self, finished: &Vec<bool>)
        requires
            old(self).futures.wf(),
        ensures
            final(self).futures.wf(),
            final(self).futures@ == retained(old(self).futures@, finished@),
            final(self).state == old(self).state,
            final(self).always_futures == old(self).always_futures,
    {
        let n = self.futures.len();
        let mut i: usize = 0;
        while i < n
            invariant
                i <= n,
                n == self.futures@.len(),
                n == old(self).futures@.len(),
                self.futures.wf(),
                self.state == old(self).state,
                self.always_futures == old(self).always_futures,
                forall|j: int|
                    0 <= j < n ==> #[trigger] self.futures@[j] == if j < i && is_finished(
                        finished@,
                        j,
                    ) {
                        None
                    } else {
                        old(self).futures@[j]
                    },
            decreases n - i,
        {
            if i < finished.len() && finished[i] {
                let _ = self.futures.remove(i);
            }
            i += 1;
        }
        assert(self.futures@ =~= retained(old(self).futures@, finished@));
    }

    /// Puts a task into a slot and notes where.
    fn place(&mut self, task: Task, placed: &mut Vec<(usize, Task)>, Ghost(before): Ghost<
        Seq<Option<Task>>,
    >)
        requires
            old(self).futures.wf(),
            placed_into(before, old(self).futures@, old(placed)@),
        ensures
            final(self).futures.wf(),
            final(self).state == old(self).state,
            final(self).always_futures == old(self).always_futures,
            placed_into(before, final(self).futures@, final(placed)@),
            final(placed)@.len() == old(placed)@.len() + 1,
            final(placed)@.drop_last() == old(placed)@,
            final(placed)@.last().1 == task,
            tasks_of(final(placed)@) == tasks_of(old(placed)@).push(task),
            final(self).futures@.len() >= old(self).futures@.len(),
            forall|i: int|
                0 <= i < final(self).futures@.len() ==> (#[trigger] final(self).futures@[i] == Some(
                    task,
                ) || (i < old(self).futures@.len() && final(self).futures@[i]
                    == old(self).futures@[i])),
    {
        let ghost middle = self.futures@;
        let ghost earlier = placed@;
        proof {
            self.futures.lemma_wf();
        }
        let slot = self.futures.push(task);
        placed.push((slot, task));
        proof {
            let after = self.futures@;
            let pl = placed@;
            assert(pl.drop_last() =~= earlier);
            assert(tasks_of(placed@) =~= tasks_of(earlier).push(task));
            assert(slot < middle.len() ==> middle[slot as int] is None) by {
                if slot < middle.len() {
                    let free = old(self).futures.free();
                    assert(free[free.len() - 1] == slot);
                    assert(free.contains(slot));
                }
            }
            assert forall|j: int| 0 <= j < placed@.len() implies (#[trigger] placed@[j]).0
                < after.len() && after[placed@[j].0 as int] == Some(placed@[j].1) && (placed@[j].0
                < before.len() ==> before[placed@[j].0 as int] is None) by {
                if j < earlier.len() {
                    assert(placed@[j] == earlier[j]);
                    assert(middle[earlier[j].0 as int] is Some);
                    assert(earlier[j].0 != slot);
                    assert(after[earlier[j].0 as int] == middle[earlier[j].0 as int]);
                } else {
                    assert(placed@[j] == (slot, task));
                    if slot < before.len() {
                        if !is_placed(earlier, slot as int) {
                            assert(middle[slot as int] == before[slot as int]);
                        } else {
                            let k = choose|k: int|
                                0 <= k < earlier.len() && (#[trigger] earlier[k]).0 == slot;
                            assert(middle[earlier[k].0 as int] is Some);
                        }
                    }
                }
            }
            assert forall|j: int, k: int| 0 <= j < k < placed@.len() implies (
            #[trigger] placed@[j]).0 != (#[trigger] placed@[k]).0 by {
                if k < earlier.len() {
                    assert(placed@[j] == earlier[j] && placed@[k] == earlier[k]);
                } else {
                    assert(placed@[j] == earlier[j]);
                    assert(placed@[k] == (slot, task));
                    assert(middle[earlier[j].0 as int] is Some);
                }
            }
            assert(after.len() >= before.len());
            assert(forall|j: int|
                0 <= j < pl.len() ==> (#[trigger] pl[j]).0 < after.len() && after[pl[j].0 as int]
                    == Some(pl[j].1) && (pl[j].0 < before.len()
                        ==> before[pl[j].0 as int] is None));
            assert(forall|j: int, k: int|
                0 <= j < k < pl.len() ==> (#[trigger] pl[j]).0 != (#[trigger] pl[k]).0);
            assert forall|i: int| 0 <= i < after.len() && !(#[trigger] is_placed(pl, i)) implies i
                < before.len() && after[i] == before[i] by {
                assert(pl[earlier.len() as int].0 == slot);
                assert(i != slot);
                assert(after[i] == middle[i]);
                assert(!is_placed(earlier, i) ==> i < before.len() && middle[i] == before[i]);
                if is_placed(earlier, i) {
                    let j = choose|j: int| 0 <= j < earlier.len() && (#[trigger] earlier[j]).0 == i;
                    assert(pl[j] == earlier[j]);
                }
            }
        }
    }

    /// Starts a task for every system of the schedule of `label`.
    fn run_label<S>(
        &mut self,
        schedules: &ScheduleStorage<S>,
        kind: TaskKind,
        label: u64,
        placed: &mut Vec<(usize, Task)>,
        Ghost(before): Ghost<Seq<Option<Task>>>,
    )
        requires
            schedules.wf(),
            old(self).futures.wf(),
            placed_into(before, old(self).futures@, old(placed)@),
            !(kind is Command),
        ensures
            final(self).futures.wf(),
            final(self).state == old(self).state,
            final(self).always_futures == old(self).always_futures,
            placed_into(before, final(self).futures@, final(placed)@),
            tasks_of(final(placed)@) == tasks_of(old(placed)@) + label_tasks(
                kind,
                label,
                schedules.schedule(label).len(),
            ),
            final(self).futures@.len() >= old(self).futures@.len(),
            forall|i: int|
                0 <= i < final(self).futures@.len()
                    ==> ((#[trigger] final(self).futures@[i]) is Some
                    && final(self).futures@[i]->0.label == label && final(self).futures@[i]->0.kind
                    == kind) || (i < old(self).futures@.len() && final(self).futures@[i]
                        == old(self).futures@[i]),
    {
        let count = schedules.count(label);
        let mut index: usize = 0;
        proof {
            assert(tasks_of(placed@) + label_tasks(kind, label, 0) =~= tasks_of(placed@));
        }
        while index < count
            invariant
                index <= count,
                count == schedules.schedule(label).len(),
                self.futures.wf(),
                self.state == old(self).state,
                self.always_futures == old(self).always_futures,
                placed_into(before, self.futures@, placed@),
                tasks_of(placed@) == tasks_of(old(placed)@) + label_tasks(kind, label,
                    index as nat),
                self.futures@.len() >= old(self).futures@.len(),
                forall|i: int|
                    0 <= i < self.futures@.len() ==> ((#[trigger] self.futures@[i]) is Some
                        && self.futures@[i]->0.label == label && self.futures@[i]->0.kind == kind)
                        || (i < old(self).futures@.len() && self.futures@[i]
                            == old(self).futures@[i]),
            decreases count - index,
        {
            let ghost slots = self.futures@;
            let task = Task { kind, label, index };
            self.place(task, placed, Ghost(before));
            proof {
                assert(label_tasks(kind, label, (index + 1) as nat) =~= label_tasks(
                    kind,
                    label,
                    index as nat,
                ).push(task));
                assert forall|i: int| 0 <= i < self.futures@.len() implies ((
                #[trigger] self.futures@[i]) is Some && self.futures@[i]->0.label == label
                    && self.futures@[i]->0.kind == kind) || (i < old(self).futures@.len()
                    && self.futures@[i] == old(self).futures@[i]) by {
                    if self.futures@[i] != Some(task) {
                        assert(self.futures@[i] == slots[i]);
                    }
                }
            }
            index += 1;
        }
    }

    /// Starts a task for each of `count` commands, in order.
    fn push_commands(
        &mut self,
        count: usize,
        placed: &mut Vec<(usize, Task)>,
        Ghost(before): Ghost<Seq<Option<Task>>>,
    )
        requires
            old(self).futures.wf(),
            phase_ordered(old(self).state, old(self).futures@),
            placed_into(before, old(self).futures@, old(placed)@),
            old(placed)@.len() == 0,
        ensures
            final(self).futures.wf(),
            phase_ordered(final(self).state, final(self).futures@),
            final(self).state == old(self).state,
            final(self).always_futures == old(self).always_futures,
            placed_into(before, final(self).futures@, final(placed)@),
            tasks_of(final(placed)@) == command_tasks(count as nat),
            count > 0 ==> !all_empty(final(self).futures@),
            count == 0 ==> final(self).futures@ == old(self).futures@,
    {
        let mut k: usize = 0;
        proof {
            assert(tasks_of(placed@) =~= command_tasks(0));
        }
        while k < count
            invariant
                k <= count,
                self.futures.wf(),
                phase_ordered(self.state, self.futures@),
                self.state == old(self).state,
                self.always_futures == old(self).always_futures,
                placed_into(before, self.futures@, placed@),
                tasks_of(placed@) == command_tasks(k as nat),
                k > 0 ==> !all_empty(self.futures@),
                k == 0 ==> self.futures@ == old(self).futures@,
            decreases count - k,
        {
            let ghost slots = self.futures@;
            let task = Task { kind: TaskKind::Command, label: 0, index: k };
            self.place(task, placed, Ghost(before));
            proof {
                assert(command_tasks((k + 1) as nat) =~= command_tasks(k as nat).push(task));
                let slot = placed@.last().0;
                assert(placed@[placed@.len() - 1] == placed@.last());
                assert(self.futures@[slot as int] == Some(task));
                assert forall|i: int|
                    0 <= i < self.futures@.len() && (#[trigger] self.futures@[i]) is Some && !(
                    self.futures@[i]->0.kind is Command) implies label_allowed(
                    self.state,
                    self.futures@[i]->0.label,
                ) by {
                    assert(self.futures@[i] != Some(task));
                    assert(self.futures@[i] == slots[i]);
                }
            }
            k += 1;
        }
    }

    /// Starts a task of `Always` for every system of that schedule.
    fn run_label_always<S>(&mut self, schedules: &ScheduleStorage<S>) -> (started: Vec<Task>)
        requires
            schedules.wf(),
        ensures
            started@ == label_tasks(TaskKind::Looping, ALWAYS, schedules.schedule(ALWAYS).len()),
            final(self).always_futures@ == old(self).always_futures@ + started@,
            final(self).state == old(self).state,
            final(self).futures == old(self).futures,
    {
        let count = schedules.count(ALWAYS);
        let mut started: Vec<Task> = Vec::new();
        let mut index: usize = 0;
        proof {
            assert(started@ =~= label_tasks(TaskKind::Looping, ALWAYS, 0));
            assert(self.always_futures@ =~= old(self).always_futures@ + started@);
        }
        while index < count
            invariant
                index <= count,
                count == schedules.schedule(ALWAYS).len(),
                started@ == label_tasks(TaskKind::Looping, ALWAYS, index as nat),
                self.always_futures@ == old(self).always_futures@ + started@,
                self.state == old(self).state,
                self.futures == old(self).futures,
            decreases count - index,
        {
            let task = Task { kind: TaskKind::Looping, label: ALWAYS, index };
            let ghost before = started@;
            started.push(task);
            self.always_futures.push(task);
            proof {
                assert(started@ =~= label_tasks(TaskKind::Looping, ALWAYS, (index + 1) as nat));
                assert(self.always_futures@ =~= old(self).always_futures@ + started@);
            }
            index += 1;
        }
        started
    }

    /// Whether the scheduler can be polled with this world, after the tasks
    /// that `finished` names have completed: the poll that ends the last
    /// phase, which is in flight of nothing and finds no command, takes the
    /// exit status of the world, which has to be there still.
    pub open spec fn pollable<V>(&self, world: &World<V>, finished: Seq<bool>) -> bool {
        self.state() is PostShutdown && all_empty(retained(self.slots(), finished))
            && drained_commands(world).len() == 0 ==> world.exit_state() == 2
    }

    /// Whether the scheduler can be polled with this world, after the tasks
    /// that `finished` names have completed.
    pub fn is_pollable<V>(&self, world: &World<V>, finished: &Vec<bool>) -> (b: bool)
        ensures
            b == self.pollable(world, finished@),
    {
        match self.state {
            CycleSchedulerState::PostShutdown => {},
            _ => {
                return true;
            },
        }
        if world.has_exit_status() || world.drainable_commands() > 0 {
            return true;
        }
        let ghost kept = retained(self.slots(), finished@);
        let mut i: usize = 0;
        while i < self.futures.len()
            invariant
                i <= self.futures@.len(),
                kept == retained(self.slots(), finished@),
                forall|j: int| 0 <= j < i ==> (#[trigger] kept[j]) is None,
            decreases self.futures@.len() - i,
        {
            let done = i < finished.len() && finished[i];
            if self.futures.get(i).is_some() && !done {
                assert(kept[i as int] is Some);
                return true;
            }
            i += 1;
        }
        false
    }

    /// One poll of the scheduler.
    ///
    /// `finished_always` and `finished` say which tasks have completed
    /// since the last poll: the one by the place of the task among those of
    /// `Always`, the other by slot. The poll drops those tasks, takes the
    /// commands from the queue of the world if the queue is free and starts
    /// a task for each, and then goes on to the next phase where the phase
    /// is over:
    ///
    /// | phase | is over | then are started |
    /// |---|---|---|
    /// | `Init` | at once | `Always`, looping, and `PreStartup` |
    /// | `PreStartup` | when no task is in flight | `Startup`, and `Cycle`, looping |
    /// | `Main` | when the application is exiting | `Shutdown` |
    /// | `Shutdown` | when no task is in flight | `PostShutdown` |
    /// | `PostShutdown` | when no task is in flight | nothing: the poll is ready with the exit status |
    pub fn poll<V, S>(
        &mut self,
        world: &mut World<V>,
        schedules: &ScheduleStorage<S>,
        finished_always: &Vec<bool>,
        finished: &Vec<bool>,
    ) -> (out: SchedulerPoll<V>)
        requires
            old(self).wf(),
            old(world).wf(),
            schedules.wf(),
            old(self).pollable(old(world), finished@),
        ensures
            final(self).wf(),
            final(world).wf(),
            final(world).spec_resources() == old(world).spec_resources(),
            final(world).spec_archetypes() == old(world).spec_archetypes(),
            final(world).ran() == old(world).ran(),
            final(world).spec_events() == old(world).spec_events(),
            final(world).queue_latch().state() == old(world).queue_latch().state(),
            final(world).queue_latch().waiting_writes()
                == old(world).queue_latch().waiting_writes(),
            is_poll_of(
                old(self).state(),
                old(self).always(),
                old(self).slots(),
                old(world),
                schedules,
                finished_always@,
                finished@,
                final(self).state(),
                final(self).always(),
                final(self).slots(),
                final(world),
                out,
            ),
    {
        let ghost start_state = self.state;
        self.retain_always(finished_always);
        self.retain_futures(finished);
        let ghost kept = self.futures@;
        proof {
            assert(phase_ordered(self.state, kept)) by {
                assert forall|i: int|
                    0 <= i < kept.len() && (#[trigger] kept[i]) is Some && !(
                    kept[i]->0.kind is Command) implies label_allowed(self.state,
                        kept[i]->0.label) by {
                    assert(kept[i] == old(self).futures@[i]);
                }
            }
        }
        let mut placed: Vec<(usize, Task)> = Vec::new();
        let commands = match world.drain_commands() {
            Poll::Ready(commands) => commands,
            Poll::Pending => Vec::new(),
        };
        proof {
            assert(tasks_of(placed@) =~= Seq::<Task>::empty());
        }
        self.push_commands(commands.len(), &mut placed, Ghost(kept));
        let idle = self.futures.is_empty();
        let exiting = world.is_exiting();
        let ghost after_commands = self.futures@;
        let ghost placed_commands = placed@;
        proof {
            assert(idle == (all_empty(kept) && commands@.len() == 0));
        }
        let mut started_always: Vec<Task> = Vec::new();
        let mut result: Poll<AppExit> = Poll::Pending;
        match self.state {
            CycleSchedulerState::Init => {
                started_always = self.run_label_always(schedules);
                self.run_label(schedules, TaskKind::OneShot, PRE_STARTUP, &mut placed, Ghost(kept));
                self.state = CycleSchedulerState::PreStartup;
            },
            CycleSchedulerState::PreStartup => {
                if idle {
                    self.run_label(schedules, TaskKind::OneShot, STARTUP, &mut placed, Ghost(kept));
                    self.run_label(schedules, TaskKind::Looping, CYCLE, &mut placed, Ghost(kept));
                    self.state = CycleSchedulerState::Main;
                }
            },
            CycleSchedulerState::Main => {
                if exiting {
                    self.run_label(schedules, TaskKind::OneShot, SHUTDOWN, &mut placed,
                        Ghost(kept));
                    self.state = CycleSchedulerState::Shutdown;
                }
            },
            CycleSchedulerState::Shutdown => {
                if idle {
                    self.run_label(
                        schedules,
                        TaskKind::OneShot,
                        POST_SHUTDOWN,
                        &mut placed,
                        Ghost(kept),
                    );
                    self.state = CycleSchedulerState::PostShutdown;
                }
            },
            CycleSchedulerState::PostShutdown => {
                if idle {
                    result = Poll::Ready(world.take_exit_status());
                }
            },
        }
        proof {
            let drained = drained_commands(old(world));
            assert(commands@ == drained);
            assert(self.always_futures@ =~= retained_always(
                old(self).always_futures@,
                finished_always@,
            ) + always_to_start(start_state, schedules));
            assert(tasks_of(placed@) =~= command_tasks(drained.len()) + tasks_to_start(
                start_state,
                idle,
                exiting,
                schedules,
            ));
            assert(started_always@ =~= always_to_start(start_state, schedules));
            assert forall|i: int|
                0 <= i < self.futures@.len() && (#[trigger] self.futures@[i]) is Some && !(
                self.futures@[i]->0.kind is Command) implies label_allowed(
                self.state,
                self.futures@[i]->0.label,
            ) by {
                if i < after_commands.len() && self.futures@[i] == after_commands[i] {
                    assert(label_allowed(start_state, after_commands[i]->0.label));
                    if idle {
                        assert(after_commands[i] is None);
                    }
                }
            }
        }
        SchedulerPoll { started_always, placed, commands, result }
    }
}

/// The commands that a poll takes from the queue of the world: all of them
/// if the queue is free, none if it is in use.
pub open spec fn drained_commands<V>(world: &World<V>) -> Seq<Command<V>> {
    if world.queue_latch().is_idle() {
        world.queue()
    } else {
        Seq::empty()
    }
}

/// What one poll does, from the state before it to the state after it.
pub open spec fn is_poll_of<V, S>(
    state: CycleSchedulerState,
    always: Seq<Task>,
    slots: Seq<Option<Task>>,
    world: &World<V>,
    schedules: &ScheduleStorage<S>,
    finished_always: Seq<bool>,
    finished: Seq<bool>,
    new_state: CycleSchedulerState,
    new_always: Seq<Task>,
    new_slots: Seq<Option<Task>>,
    new_world: &World<V>,
    out: SchedulerPoll<V>,
) -> bool {
    let kept = retained(slots, finished);
    let drained = drained_commands(world);
    let idle = all_empty(kept) && drained.len() == 0;
    let exiting = world.spec_is_exiting();
    &&& new_state == next_state(state, idle, exiting)
    &&& out.started_always@ == always_to_start(state, schedules)
    &&& new_always == retained_always(always, finished_always) + out.started_always@
    &&& out.commands@ == drained
    &&& tasks_of(out.placed@) == command_tasks(drained.len()) + tasks_to_start(
        state,
        idle,
        exiting,
        schedules,
    )
    &&& placed_into(kept, new_slots, out.placed@)
    &&& new_world.queue() == if world.queue_latch().is_idle() {
        Seq::<Command<V>>::empty()
    } else {
        world.queue()
    }
    &&& out.result is Ready == (state is PostShutdown && idle)
    &&& match out.result {
        Poll::Ready(status) => Some(status) == world.exit_status() && new_world.exit_state() == 3,
        Poll::Pending => new_world.exit_state() == world.exit_state() && new_world.exit_status()
            == world.exit_status(),
    }
}

/// Phase ordering. After a poll that starts the systems of `Startup`, no
/// task of `PreStartup` is in flight, and after one that starts the systems
/// of `PostShutdown`, no task of `Shutdown`, `Cycle` or `Startup` is: such
/// systems are started only when no task is in flight, and every system
/// task in flight belongs to a schedule of the current phase.
pub proof fn lemma_phase_ordering(scheduler: CycleSchedulerFuture, slot: int)
    requires
        scheduler.wf(),
        0 <= slot < scheduler.slots().len(),
        scheduler.slots()[slot] is Some,
        !(scheduler.slots()[slot]->0.kind is Command),
    ensures
        scheduler.slots()[slot]->0.label == PRE_STARTUP ==> scheduler.state() is PreStartup,
        scheduler.slots()[slot]->0.label == POST_SHUTDOWN ==> scheduler.state() is PostShutdown,
        scheduler.state() is Main || scheduler.state() is Shutdown
            ==> scheduler.slots()[slot]->0.label != PRE_STARTUP && scheduler.slots()[slot]->0.label
            != POST_SHUTDOWN,
        !(scheduler.state() is Init),
{
    scheduler.lemma_phase_ordered();
    assert(label_allowed(scheduler.state(), scheduler.slots()[slot]->0.label));
}

/// The systems of a later phase are started only when no task of the
/// phase before is left: when a poll starts a task of `Startup`, `Cycle` or
/// `PostShutdown`, no task was in flight after the completed ones were
/// dropped, and no command waited.
pub proof fn lemma_started_after_completion<S>(
    state: CycleSchedulerState,
    idle: bool,
    exiting: bool,
    schedules: &ScheduleStorage<S>,
    k: int,
)
    requires
        0 <= k < tasks_to_start(state, idle, exiting, schedules).len(),
    ensures
        ({
            let label = tasks_to_start(state, idle, exiting, schedules)[k].label;
            &&& (label == STARTUP || label == CYCLE) ==> state is PreStartup && idle
            &&& label == POST_SHUTDOWN ==> state is Shutdown && idle
            &&& label == SHUTDOWN ==> state is Main && exiting
            &&& label == PRE_STARTUP ==> state is Init
        }),
{
}

/// The place of a phase in the order of the phases.
pub open spec fn phase_rank(state: CycleSchedulerState) -> nat {
    match state {
        CycleSchedulerState::Init => 0,
        CycleSchedulerState::PreStartup => 1,
        CycleSchedulerState::Main => 2,
        CycleSchedulerState::Shutdown => 3,
        CycleSchedulerState::PostShutdown => 4,
    }
}

/// The phase of a scheduler that was in the phase `state` after the polls
/// `polls`; each poll is given by whether nothing was in flight and
/// whether the application was exiting.
pub open spec fn phase_after(state: CycleSchedulerState, polls: Seq<(bool, bool)>) -> CycleSchedulerState
    decreases polls.len(),
{
    if polls.len() == 0 {
        state
    } else {
        next_state(phase_after(state, polls.drop_last()), polls.last().0, polls.last().1)
    }
}

/// The number of polls among `polls` that end the phase `phase`. These are
/// the polls that start the systems of the phase after it.
pub open spec fn endings(
    state: CycleSchedulerState,
    polls: Seq<(bool, bool)>,
    phase: CycleSchedulerState,
) -> nat
    decreases polls.len(),
{
    if polls.len() == 0 {
        0
    } else {
        endings(state, polls.drop_last(), phase) + if phase_after(state, polls.drop_last())
            == phase && next_state(phase, polls.last().0, polls.last().1) != phase {
            1nat
        } else {
            0nat
        }
    }
}

/// A poll that does not end the phase starts no system.
pub proof fn lemma_starts_end_the_phase<S>(
    state: CycleSchedulerState,
    idle: bool,
    exiting: bool,
    schedules: &ScheduleStorage<S>,
)
    requires
        next_state(state, idle, exiting) == state,
    ensures
        tasks_to_start(state, idle, exiting, schedules) == Seq::<Task>::empty(),
        always_to_start(state, schedules) == Seq::<Task>::empty(),
{
}

/// The run of an application as a whole: whatever the polls find, the
/// phases come in their order, one poll goes on by one phase at most, and
/// every phase but the last is ended by exactly one poll once the run has
/// gone beyond it, and by none before. With
/// [`lemma_starts_end_the_phase`], the systems of `PreStartup`, of
/// `Startup` and `Cycle`, of `Shutdown` and of `PostShutdown` are each
/// started by one poll of the run, in this order, and by no other.
pub proof fn lemma_run_in_order(polls: Seq<(bool, bool)>, phase: CycleSchedulerState)
    requires
        !(phase is PostShutdown),
    ensures
        phase_rank(phase_after(CycleSchedulerState::Init, polls)) <= polls.len(),
        polls.len() > 0 ==> phase_rank(phase_after(CycleSchedulerState::Init, polls.drop_last()))
            <= phase_rank(phase_after(CycleSchedulerState::Init, polls)) <= phase_rank(
            phase_after(CycleSchedulerState::Init, polls.drop_last()),
        ) + 1,
        endings(CycleSchedulerState::Init, polls, phase) == if phase_rank(
            phase_after(CycleSchedulerState::Init, polls),
        ) > phase_rank(phase) {
            1nat
        } else {
            0nat
        },
    decreases polls.len(),
{
    if polls.len() > 0 {
        lemma_run_in_order(polls.drop_last(), phase);
    }
}

/// What is to be done with a looping system after a poll.
#[derive(Clone, Copy, Debug, PartialEq, Eq, Structural)]
pub enum CycleAction {
    /// The run of the body goes on: poll again.
    Wait,
    /// The body has returned and is to be run once more.
    Restart,
    /// The body has returned for the last time: the task is complete.
    Finish,
}

/// A system that is run again and again until the application begins to exit.
///
/// The task starts with its body running. Whenever the body has returned,
/// the task looks at the world: if the application is exiting, the task is
/// complete, else the body is run once more.
pub struct SystemCycleFuture {
    finished: bool,
}

/// The step of a looping system: whether it is complete after the poll,
/// and what is to be done.
pub open spec fn cycle_step(finished: bool, body_returned: bool, exiting: bool) -> (bool, CycleAction) {
    if finished {
        (true, CycleAction::Finish)
    } else if !body_returned {
        (false, CycleAction::Wait)
    } else if exiting {
        (true, CycleAction::Finish)
    } else {
        (false, CycleAction::Restart)
    }
}

/// The number of times the body is run once more over a sequence of polls,
/// each of which says whether the body has returned and whether the
/// application is exiting.
pub open spec fn restarts(finished: bool, polls: Seq<(bool, bool)>) -> nat
    decreases polls.len(),
{
    if polls.len() == 0 {
        0
    } else {
        let step = cycle_step(finished, polls[0].0, polls[0].1);
        restarts(step.0, polls.skip(1)) + if step.1 is Restart {
            1nat
        } else {
            0nat
        }
    }
}

/// The number of polls at which the body has returned.
pub open spec fn completions(polls: Seq<(bool, bool)>) -> nat
    decreases polls.len(),
{
    if polls.len() == 0 {
        0
    } else {
        completions(polls.skip(1)) + if polls[0].0 {
            1nat
        } else {
            0nat
        }
    }
}

impl SystemCycleFuture {
    /// Whether the task is complete.
    pub closed spec fn finished(&self) -> bool {
        self.finished
    }

    /// A looping task whose body has just been started.
    pub fn new() -> (cycle: Self)
        ensures
            !cycle.finished(),
    {
        SystemCycleFuture { finished: false }
    }

    /// One poll of the task: `body_returned` says whether the run of the
    /// body has returned since the last poll.
    pub fn poll<V>(&mut self, body_returned: bool, world: &World<V>) -> (action: CycleAction)
        ensures
            (final(self).finished(), action) == cycle_step(
                old(self).finished(),
                body_returned,
                world.spec_is_exiting(),
            ),
    {
        if self.finished {
            CycleAction::Finish
        } else if !body_returned {
            CycleAction::Wait
        } else if world.is_exiting() {
            self.finished = true;
            CycleAction::Finish
        } else {
            CycleAction::Restart
        }
    }
}

/// Cycle looping, before the exit: while the application is not exiting,
/// the body is run once more each time it has returned. A body that has
/// returned `N` times has been started `N` times again.
pub proof fn lemma_cycle_loops_until_exit(polls: Seq<(bool, bool)>)
    requires
        forall|i: int| 0 <= i < polls.len() ==> !(#[trigger] polls[i]).1,
    ensures
        restarts(false, polls) == completions(polls),
    decreases polls.len(),
{
    if polls.len() > 0 {
        assert(!polls[0].1);
        assert forall|i: int| 0 <= i < polls.skip(1).len() implies !(#[trigger] polls.skip(1)[i]).1 by {
            assert(polls.skip(1)[i] == polls[i + 1]);
        }
        lemma_cycle_loops_until_exit(polls.skip(1));
    }
}

/// Cycle looping, after the exit: a looping system that is complete is
/// never run again, whatever happens.
pub proof fn lemma_cycle_stops_after_exit(polls: Seq<(bool, bool)>)
    ensures
        restarts(true, polls) == 0,
    decreases polls.len(),
{
    if polls.len() > 0 {
        lemma_cycle_stops_after_exit(polls.skip(1));
    }
}

/// Cycle looping, at the exit: the body that returns while the application
/// is exiting is not run again, then or later.
pub proof fn lemma_cycle_stops_at_exit(polls: Seq<(bool, bool)>)
    requires
        polls.len() > 0,
        polls[0].0,
        polls[0].1,
    ensures
        restarts(false, polls) == 0,
{
    lemma_cycle_stops_after_exit(polls.skip(1));
}

} // verus!
