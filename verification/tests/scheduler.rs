use axecs::app::cycle_scheduler::{
    CycleAction, CycleSchedulerFuture, CycleSchedulerState, SystemCycleFuture, Task, TaskKind,
};
use axecs::app::plugin::{CtrlCPlugin, CycleSchedulerPlugin, CTRLC_STATUS};
use axecs::app::{App, AppExit, Plugin, Runner};
use axecs::schedule::label::{ScheduleLabel, ALWAYS, CYCLE, POST_SHUTDOWN, PRE_STARTUP, SHUTDOWN, STARTUP};
use axecs::schedule::system::condition::condition;
use axecs::schedule::system::{ScheduledAction, ScheduledEvent, ScheduledSystemConfig};
use axecs::schedule::{Always, Cycle, PostShutdown, PreStartup, ScheduleStorage, Shutdown, Startup};
use axecs::world::{Command, Commands, World};
use axecs::Poll;

/// Drives a scheduler whose systems are names: each system completes at
/// the poll after the one that started it, and a system named `exit`
/// followed by a digit signals the exit on that run of it.
struct Driver {
    world: World<u8>,
    schedules: ScheduleStorage<&'static str>,
    scheduler: CycleSchedulerFuture,
    always: Vec<(Task, SystemCycleFuture)>,
    slots: Vec<Option<(Task, SystemCycleFuture)>>,
    log: Vec<String>,
    runs: Vec<(&'static str, u32)>,
}

impl Driver {
    fn new(schedules: ScheduleStorage<&'static str>) -> Self {
        Driver {
            world: World::new(),
            schedules,
            scheduler: CycleSchedulerFuture::new(),
            always: Vec::new(),
            slots: Vec::new(),
            log: Vec::new(),
            runs: Vec::new(),
        }
    }

    fn run_body(&mut self, task: Task) {
        if task.kind == TaskKind::Command {
            self.log.push(String::from("command"));
            return;
        }
        let name = *self.schedules.get(task.label, task.index).unwrap();
        self.log.push(format!("{}:{}", self.scheduler_phase(), name));
        let count = match self.runs.iter_mut().find(|(n, _)| *n == name) {
            Some((_, count)) => {
                *count += 1;
                *count
            }
            None => {
                self.runs.push((name, 1));
                1
            }
        };
        if let Some(at) = name.strip_prefix("exit") {
            if at == count.to_string() {
                Commands::new().exit(&mut self.world, AppExit::Success);
            }
        }
    }

    fn scheduler_phase(&self) -> &'static str {
        match self.scheduler.phase() {
            CycleSchedulerState::Init => "init",
            CycleSchedulerState::PreStartup => "pre",
            CycleSchedulerState::Main => "main",
            CycleSchedulerState::Shutdown => "shutdown",
            CycleSchedulerState::PostShutdown => "post",
        }
    }

    /// One poll of the whole: every task in flight runs once, then the scheduler.
    fn poll(&mut self) -> Poll<AppExit> {
        let mut finished_always = Vec::new();
        for k in 0..self.always.len() {
            let task = self.always[k].0;
            self.run_body(task);
            let action = self.always[k].1.poll(true, &self.world);
            finished_always.push(action == CycleAction::Finish);
        }
        let mut finished = Vec::new();
        for slot in 0..self.slots.len() {
            let task = match &self.slots[slot] {
                Some((task, _)) => *task,
                None => {
                    finished.push(false);
                    continue;
                }
            };
            self.run_body(task);
            let done = match task.kind {
                TaskKind::Looping => {
                    let action = self.slots[slot].as_mut().unwrap().1.poll(true, &self.world);
                    assert!(action != CycleAction::Wait);
                    action == CycleAction::Finish
                }
                _ => true,
            };
            finished.push(done);
        }
        let mut kept = Vec::new();
        for (entry, done) in self.always.drain(..).zip(finished_always.iter()) {
            if !done {
                kept.push(entry);
            }
        }
        self.always = kept;
        for slot in 0..self.slots.len() {
            if finished[slot] {
                self.slots[slot] = None;
            }
        }
        assert!(self.scheduler.phase() != CycleSchedulerState::PostShutdown || self.world.is_exiting());
        let out =
            self.scheduler.poll(&mut self.world, &self.schedules, &finished_always, &finished);
        for task in out.started_always {
            self.always.push((task, SystemCycleFuture::new()));
        }
        for (slot, task) in out.placed {
            while self.slots.len() <= slot {
                self.slots.push(None);
            }
            assert!(self.slots[slot].is_none());
            assert_eq!(self.scheduler.task(slot), Some(task));
            self.slots[slot] = Some((task, SystemCycleFuture::new()));
        }
        assert_eq!(self.scheduler.slot_count(), self.slots.len());
        for slot in 0..self.slots.len() {
            assert_eq!(self.scheduler.task(slot), self.slots[slot].as_ref().map(|e| e.0));
        }
        out.result
    }

    fn run(&mut self, limit: usize) -> AppExit {
        for _ in 0..limit {
            if let Poll::Ready(status) = self.poll() {
                return status;
            }
        }
        panic!("the application did not end: {:?}", self.log);
    }
}

#[test]
fn phases_run_in_order() {
    let mut schedules = ScheduleStorage::new();
    schedules.add_systems(PreStartup, "P");
    schedules.add_systems(Cycle, "exit3");
    schedules.add_systems(Shutdown, "D");
    let mut driver = Driver::new(schedules);
    let status = driver.run(20);
    assert!(status.is_ok());
    assert_eq!(
        driver.log,
        vec!["pre:P", "main:exit3", "main:exit3", "main:exit3", "shutdown:D"]
    );
    assert_eq!(driver.scheduler.phase(), CycleSchedulerState::PostShutdown);
}

#[test]
fn every_phase_waits_for_the_one_before() {
    let mut schedules = ScheduleStorage::new();
    schedules.add_systems(PostShutdown, "last");
    schedules.add_systems(Shutdown, "down-a");
    schedules.add_systems(Shutdown, "down-b");
    schedules.add_systems(Startup, "start");
    schedules.add_systems(Cycle, "tick");
    schedules.add_systems(Cycle, "exit2");
    schedules.add_systems(PreStartup, "first-a");
    schedules.add_systems(PreStartup, "first-b");
    schedules.add_systems(Always, "watch");
    let mut driver = Driver::new(schedules);
    let status = driver.run(30);
    assert!(status.is_ok());
    let log: Vec<&str> = driver.log.iter().map(|line| line.as_str()).collect();
    assert_eq!(
        log,
        vec![
            "pre:watch",
            "pre:first-a",
            "pre:first-b",
            // the slots of the two systems of `PreStartup` are used again,
            // the one that was freed last first
            "main:watch",
            "main:tick",
            "main:start",
            "main:exit2",
            "main:watch",
            "main:tick",
            "main:exit2",
            // `watch` and `tick` had returned before the exit was signalled:
            // they run once more and then see it
            "shutdown:watch",
            "shutdown:tick",
            "shutdown:down-b",
            "shutdown:down-a",
            "post:last",
        ]
    );
}

#[test]
fn application_without_systems_ends_when_told() {
    let mut driver = Driver::new(ScheduleStorage::new());
    assert!(driver.poll().is_pending());
    assert_eq!(driver.scheduler.phase(), CycleSchedulerState::PreStartup);
    assert!(driver.poll().is_pending());
    assert_eq!(driver.scheduler.phase(), CycleSchedulerState::Main);
    assert!(driver.poll().is_pending());
    assert_eq!(driver.scheduler.phase(), CycleSchedulerState::Main);
    assert!(driver.world.try_exit(AppExit::Failure(String::from("^C"))));
    assert!(driver.poll().is_pending());
    assert_eq!(driver.scheduler.phase(), CycleSchedulerState::Shutdown);
    assert!(driver.poll().is_pending());
    assert_eq!(driver.scheduler.phase(), CycleSchedulerState::PostShutdown);
    match driver.poll() {
        Poll::Ready(AppExit::Failure(message)) => assert_eq!(message, "^C"),
        _ => panic!("the application ends with the status it was told"),
    }
}

#[test]
fn commands_are_tasks_that_hold_a_phase_open() {
    let mut schedules = ScheduleStorage::new();
    schedules.add_systems(Startup, "start");
    let mut world: World<u8> = World::new();
    let mut scheduler = CycleSchedulerFuture::new();
    assert!(Commands::new().insert_resource(&mut world, 1, 9).is_ok());
    let out = scheduler.poll(&mut world, &schedules, &vec![], &vec![]);
    assert_eq!(out.commands.len(), 1);
    assert!(matches!(out.commands[0], Command::InsertResource { type_id: 1, resource: 9 }));
    assert_eq!(out.placed, vec![(0, Task { kind: TaskKind::Command, label: 0, index: 0 })]);
    assert_eq!(scheduler.phase(), CycleSchedulerState::PreStartup);
    // the command is in flight: the phase stays
    let out = scheduler.poll(&mut world, &schedules, &vec![], &vec![false]);
    assert!(out.placed.is_empty());
    assert_eq!(scheduler.phase(), CycleSchedulerState::PreStartup);
    // the command is done: the next phase begins, in the slot that was freed
    let out = scheduler.poll(&mut world, &schedules, &vec![], &vec![true]);
    assert_eq!(out.placed, vec![(0, Task { kind: TaskKind::OneShot, label: STARTUP, index: 0 })]);
    assert_eq!(scheduler.phase(), CycleSchedulerState::Main);
}

#[test]
fn looping_system_runs_until_exit() {
    let mut world: World<u8> = World::new();
    let mut cycle = SystemCycleFuture::new();
    assert_eq!(cycle.poll(false, &world), CycleAction::Wait);
    assert_eq!(cycle.poll(true, &world), CycleAction::Restart);
    assert_eq!(cycle.poll(true, &world), CycleAction::Restart);
    assert_eq!(cycle.poll(false, &world), CycleAction::Wait);
    world.exit(AppExit::Success);
    assert_eq!(cycle.poll(false, &world), CycleAction::Wait);
    assert_eq!(cycle.poll(true, &world), CycleAction::Finish);
    assert_eq!(cycle.poll(true, &world), CycleAction::Finish);
    assert_eq!(cycle.poll(false, &world), CycleAction::Finish);
}

/// A label with a value: each level is a label of its own.
#[derive(Clone, Copy, PartialEq, Eq)]
struct Level(u64);

impl ScheduleLabel for Level {
    fn spec_label_id(&self) -> u64 {
        100 + self.0
    }

    fn label_id(&self) -> u64 {
        100 + self.0
    }
}

#[test]
fn labels_of_one_type_are_told_apart_by_value() {
    let mut schedules = ScheduleStorage::new();
    schedules.add_systems(Level(1), 'a');
    schedules.add_systems(Level(2), 'b');
    schedules.add_systems(Level(1), 'c');
    assert_eq!(schedules.get_schedule(Level(1)), &['a', 'c']);
    assert_eq!(schedules.get_schedule(Level(2)), &['b']);
    assert!(schedules.get_schedule(Level(3)).is_empty());
    assert!(schedules.get_schedule(Cycle).is_empty());
    assert_eq!(schedules.count(101), 2);
    assert_eq!(schedules.count(102), 1);
}

#[test]
fn schedule_storage_groups_by_label() {
    #[derive(Clone, Copy)]
    struct Custom;
    impl ScheduleLabel for Custom {
        fn spec_label_id(&self) -> u64 {
            40
        }

        fn label_id(&self) -> u64 {
            40
        }
    }
    let mut schedules = ScheduleStorage::new();
    schedules.add_systems(Cycle, 'a');
    schedules.add_systems(Custom, 'b');
    schedules.add_systems(Cycle, 'c');
    assert_eq!(schedules.get_schedule(Cycle), &['a', 'c']);
    assert_eq!(schedules.get_schedule(Custom), &['b']);
    assert!(schedules.get_schedule(Startup).is_empty());
    assert_eq!(schedules.count(CYCLE), 2);
    assert_eq!(schedules.count(40), 1);
    assert_eq!(schedules.get(CYCLE, 1), Some(&'c'));
    assert_eq!(schedules.get(CYCLE, 2), None);
    assert_eq!(
        [ALWAYS, PRE_STARTUP, STARTUP, CYCLE, SHUTDOWN, POST_SHUTDOWN],
        [0, 1, 2, 3, 4, 5]
    );
}

#[test]
fn scheduled_system_waits_for_dependencies_and_condition() {
    let mut world: World<u8> = World::new();
    let mut plain: ScheduledSystemConfig<&str, &str> = ScheduledSystemConfig::new(1, "body");
    assert_eq!(plain.acquire_and_run(&world, ScheduledEvent::Polled), ScheduledAction::RunBody);
    assert_eq!(plain.acquire_and_run(&world, ScheduledEvent::Polled), ScheduledAction::Yield);
    assert_eq!(plain.acquire_and_run(&world, ScheduledEvent::BodyReturned), ScheduledAction::Finish);
    assert_eq!(plain.acquire_and_run(&world, ScheduledEvent::Polled), ScheduledAction::Finish);
    plain.restart();
    assert_eq!(plain.acquire_and_run(&world, ScheduledEvent::Polled), ScheduledAction::RunBody);
    assert_eq!(*plain.system_ref(), "body");

    let mut gated = ScheduledSystemConfig::new(2, "body")
        .depends_on(&vec![7, 8, 7])
        .run_if(condition("gate"));
    assert_eq!(gated.acquire_and_run(&world, ScheduledEvent::Polled), ScheduledAction::Yield);
    world.mark_ran(7);
    assert!(!gated.dependencies_ran(&world));
    assert_eq!(gated.acquire_and_run(&world, ScheduledEvent::Polled), ScheduledAction::Yield);
    world.mark_ran(8);
    assert!(gated.dependencies_ran(&world));
    assert_eq!(gated.acquire_and_run(&world, ScheduledEvent::Polled), ScheduledAction::RunCondition);
    assert_eq!(
        gated.acquire_and_run(&world, ScheduledEvent::ConditionReturned(false)),
        ScheduledAction::Finish
    );
    gated.restart();
    assert_eq!(gated.acquire_and_run(&world, ScheduledEvent::Polled), ScheduledAction::RunCondition);
    assert_eq!(
        gated.acquire_and_run(&world, ScheduledEvent::ConditionReturned(true)),
        ScheduledAction::RunBody
    );
    assert_eq!(gated.acquire_and_run(&world, ScheduledEvent::BodyReturned), ScheduledAction::Finish);

    // a run that waits for others is over when the application exits
    let mut waiting: ScheduledSystemConfig<&str, &str> =
        ScheduledSystemConfig::new(3, "body").depends_on(&vec![99]);
    assert_eq!(waiting.acquire_and_run(&world, ScheduledEvent::Polled), ScheduledAction::Yield);
    world.exit(AppExit::Success);
    assert_eq!(waiting.acquire_and_run(&world, ScheduledEvent::Polled), ScheduledAction::Finish);
}

#[test]
fn app_is_put_together_and_handed_to_its_runner() {
    let mut app: App<i32, &'static str> = App::new();
    assert!(!app.has_plugin(<CycleSchedulerPlugin as Plugin<i32, &'static str>>::plugin_id()));
    app.add_plugin(CycleSchedulerPlugin);
    assert!(app.has_plugin(<CycleSchedulerPlugin as Plugin<i32, &'static str>>::plugin_id()));
    app.add_plugin(CtrlCPlugin { exit_status: -1, set_handler: "handler", exit_with_status: "watch" });
    assert!(!app.can_insert_resource(CTRLC_STATUS));
    assert!(app.can_insert_resource(5));
    app.insert_resource(5, 50);
    app.add_systems(Startup, "hello");
    let (runner, app) = app.run();
    assert_eq!(runner, Runner::CycleScheduler);
    let (mut world, schedules, scheduler) = CycleSchedulerPlugin.run(app);
    assert_eq!(scheduler.phase(), CycleSchedulerState::Init);
    assert_eq!(schedules.get_schedule(PreStartup), &["handler"]);
    assert_eq!(schedules.get_schedule(Cycle), &["watch"]);
    assert_eq!(schedules.get_schedule(Startup), &["hello"]);
    assert!(matches!(world.take_resource(5), Poll::Ready(Some(50))));
    assert!(matches!(world.take_resource(CTRLC_STATUS), Poll::Ready(Some(-1))));
}

#[test]
fn app_hands_out_its_parts_once() {
    let mut app: App<i32, u8> = App::new();
    app.set_runner(Runner::Custom(3));
    app.add_systems(Cycle, 1);
    let schedules = app.take_schedules();
    assert_eq!(schedules.count(CYCLE), 1);
    let resources = app.take_resources();
    assert!(resources.resources().is_empty());
    assert!(!app.can_insert_resource(1));
    let (runner, _) = app.run();
    assert_eq!(runner, Runner::Custom(3));
}
