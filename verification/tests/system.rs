use axecs::component::query::True;
use axecs::entity::Entities;
use axecs::query::{Query, QueryAcquireResult};
use axecs::resource::{Res, Resource};
use axecs::system::{
    into_function_system, parallel, pass, pipe, then, In, IntoFunctionSystem, IntoSystem,
    PersistentSystemState, System, SystemBody, SystemId, SystemMap,
};
use axecs::schedule::system::TypeErasedSystem;
use axecs::world::{Command, Commands, World};
use axecs::Poll;

struct Counter;

impl Resource for Counter {
    fn spec_resource_id() -> u64 {
        1
    }

    fn resource_id() -> u64 {
        1
    }

    fn spec_resource_name() -> &'static str {
        Self::resource_name()
    }

    fn resource_name() -> &'static str {
        "tests::Counter"
    }
}

/// A body without queries that does nothing.
struct NoParams;

impl SystemBody<usize, (), (), ()> for NoParams {
    fn is_run_of(
        &self,
        _after: &World<usize>,
        _item_after: (),
        _out: (),
        _before: &Self,
        _world: &World<usize>,
        _item: (),
        _passed: (),
    ) -> bool {
        true
    }

    fn run(&mut self, _world: &mut World<usize>, _item: &mut (), _passed: ()) {}
}

/// A body that looks at entities and does nothing.
struct Simple;

impl SystemBody<usize, Entities<(), True>, (), ()> for Simple {
    fn is_run_of(
        &self,
        _after: &World<usize>,
        _item_after: Entities<(), True>,
        _out: (),
        _before: &Self,
        _world: &World<usize>,
        _item: Entities<(), True>,
        _passed: (),
    ) -> bool {
        true
    }

    fn run(&mut self, _world: &mut World<usize>, _item: &mut Entities<(), True>, _passed: ()) {}
}

/// A body that returns a number.
struct ReturnsUsize;

impl SystemBody<usize, (), (), usize> for ReturnsUsize {
    fn is_run_of(
        &self,
        _after: &World<usize>,
        _item_after: (),
        _out: usize,
        _before: &Self,
        _world: &World<usize>,
        _item: (),
        _passed: (),
    ) -> bool {
        true
    }

    fn run(&mut self, _world: &mut World<usize>, _item: &mut (), _passed: ()) -> usize {
        123
    }
}

/// A body that is started with a number and adds it to the counter.
struct TakesUsize;

impl<'a> SystemBody<usize, Res<&'a mut Counter>, In<usize>, ()> for TakesUsize {
    fn is_run_of(
        &self,
        _after: &World<usize>,
        _item_after: Res<&'a mut Counter>,
        _out: (),
        _before: &Self,
        _world: &World<usize>,
        _item: Res<&'a mut Counter>,
        _passed: In<usize>,
    ) -> bool {
        true
    }

    fn run(&mut self, world: &mut World<usize>, item: &mut Res<&'a mut Counter>, passed: In<usize>) {
        let now = *item.get(world).unwrap();
        let _ = item.set(world, now + passed.into_inner());
    }
}

/// A body that counts its runs in the counter.
struct Tick;

impl<'a> SystemBody<usize, Res<&'a mut Counter>, (), ()> for Tick {
    fn is_run_of(
        &self,
        _after: &World<usize>,
        _item_after: Res<&'a mut Counter>,
        _out: (),
        _before: &Self,
        _world: &World<usize>,
        _item: Res<&'a mut Counter>,
        _passed: (),
    ) -> bool {
        true
    }

    fn run(&mut self, world: &mut World<usize>, item: &mut Res<&'a mut Counter>, _passed: ()) {
        let now = *item.get(world).unwrap();
        let _ = item.set(world, now + 1);
    }
}

struct Double;

impl SystemMap<usize, usize> for Double {
    fn is_apply_of(&self, out: usize, _before: &Self, value: usize) -> bool {
        out == value * 2
    }

    fn apply(&mut self, value: usize) -> usize {
        value * 2
    }
}

fn require_into_schedulable_system<S: IntoSystem<usize, ()>>(_system: S)
where
    S::System: System<usize, (), Passed = ()>,
{
}

fn simple_system() -> IntoFunctionSystem<usize, Entities<(), True>, Simple, ()> {
    into_function_system(1, "simple_system", Simple)
}

fn system_no_params() -> IntoFunctionSystem<usize, (), NoParams, ()> {
    into_function_system(2, "system_no_params", NoParams)
}

fn system_returns_usize() -> IntoFunctionSystem<usize, (), ReturnsUsize, ()> {
    into_function_system(3, "system_returns_usize", ReturnsUsize)
}

fn system_takes_usize<'a>() -> IntoFunctionSystem<usize, Res<&'a mut Counter>, TakesUsize, In<usize>> {
    into_function_system(4, "system_takes_usize", TakesUsize)
}

fn tick<'a>() -> IntoFunctionSystem<usize, Res<&'a mut Counter>, Tick, ()> {
    into_function_system(5, "tick", Tick)
}

fn counter(world: &mut World<usize>) -> usize {
    let mut state = ();
    match <Res<&Counter> as Query<usize>>::acquire(world, &mut state) {
        Poll::Ready(QueryAcquireResult::Ready(res)) => {
            let value = *res.get(world).unwrap();
            <Res<&Counter> as Query<usize>>::release(world, &mut state, res);
            value
        }
        _ => panic!("the counter is there and free"),
    }
}

#[test]
fn test_system_impl() {
    require_into_schedulable_system(simple_system());

    require_into_schedulable_system(system_no_params());

    // require_into_schedulable_system(system_returns_usize()); // Will not compile.

    require_into_schedulable_system(pipe(system_returns_usize(), system_takes_usize()));
}

#[test]
fn function_system_runs_and_notes_that_it_ran() {
    let mut world: World<usize> = World::new();
    let mut system = system_returns_usize().into_system(&mut world, None);
    assert!(!system.running());
    system.start(());
    assert!(system.running());
    assert!(!world.has_run(3));
    assert!(matches!(system.poll(&mut world), Poll::Ready(QueryAcquireResult::Ready(123))));
    assert!(!system.running());
    assert!(world.has_run(3));
    assert_eq!(system.source(), "system_returns_usize");
}

#[test]
fn piped_system_passes_the_result_on() {
    let mut world: World<usize> = World::new();
    assert!(world.insert_resource(1, 1000).is_ok());
    let mut system =
        pipe(system_returns_usize(), system_takes_usize()).into_system(&mut world, None);
    system.start(());
    assert!(matches!(system.poll(&mut world), Poll::Ready(QueryAcquireResult::Ready(()))));
    assert_eq!(counter(&mut world), 1123);
    assert!(world.has_run(3) && world.has_run(4));
}

#[test]
fn piped_system_waits_for_its_second_part() {
    let mut world: World<usize> = World::new();
    assert!(world.insert_resource(1, 0).is_ok());
    let mut state = ();
    let held = match <Res<&Counter> as Query<usize>>::acquire(&mut world, &mut state) {
        Poll::Ready(QueryAcquireResult::Ready(res)) => res,
        _ => panic!("the counter is there and free"),
    };
    let mut system = PersistentSystemState::new(
        pipe(system_returns_usize(), system_takes_usize()).into_system(&mut world, None),
    );
    assert!(system.run(&mut world).is_pending());
    assert!(world.has_run(3) && !world.has_run(4));
    assert!(system.run(&mut world).is_pending());
    <Res<&Counter> as Query<usize>>::release(&mut world, &mut state, held);
    assert!(system.run(&mut world).is_ready());
    assert_eq!(counter(&mut world), 123);
}

#[test]
fn system_with_a_missing_resource_says_so() {
    let mut world: World<usize> = World::new();
    let mut system = tick().into_system(&mut world, None);
    system.start(());
    match system.poll(&mut world) {
        Poll::Ready(QueryAcquireResult::DoesNotExist { name }) => {
            assert_eq!(name, "tests::Counter")
        }
        _ => panic!("the counter does not exist"),
    }
    assert!(!system.running());
    assert!(!world.has_run(5));
}

#[test]
fn series_parallel_passed_and_mapped_systems() {
    let mut world: World<usize> = World::new();
    assert!(world.insert_resource(1, 0).is_ok());
    let mut series = then(tick(), tick()).into_system(&mut world, None);
    series.start(());
    assert!(series.poll(&mut world).is_ready());
    assert_eq!(counter(&mut world), 2);

    let mut both = parallel(tick(), tick()).into_system(&mut world, None);
    both.start(());
    assert!(both.poll(&mut world).is_ready());
    assert_eq!(counter(&mut world), 4);

    let mut bound = pass(system_takes_usize(), 10usize).into_system(&mut world, None);
    bound.start(());
    assert!(bound.poll(&mut world).is_ready());
    bound.start(());
    assert!(bound.poll(&mut world).is_ready());
    assert_eq!(counter(&mut world), 24);

    let mut mapped =
        axecs::system::map_system(system_returns_usize(), Double).into_system(&mut world, None);
    mapped.start(());
    assert!(matches!(mapped.poll(&mut world), Poll::Ready(QueryAcquireResult::Ready(246))));
}

#[test]
fn validators_of_systems_join_what_their_queries_claim() {
    type Conflict<'a> = (Res<&'a mut Counter>, Res<&'a mut Counter>);
    assert!(!<Conflict as Query<usize>>::validate().has_violation());
    let joined = <axecs::system::IntoSeriesSystem<
        IntoFunctionSystem<usize, (), NoParams, ()>,
        IntoFunctionSystem<usize, (), NoParams, ()>,
    > as IntoSystem<usize, ()>>::validate();
    assert!(!joined.has_violation());
}

#[test]
fn system_ids_are_given_out_in_order() {
    let mut next = 5;
    assert_eq!(SystemId::unique(&mut next), SystemId(5));
    assert_eq!(SystemId::unique(&mut next), SystemId(6));
    let mut next = u64::MAX;
    assert_eq!(SystemId::unique(&mut next), SystemId(u64::MAX));
    assert_eq!(SystemId::unique(&mut next), SystemId(0));
}

/// A body that asks for the counter to be set to 77 and for the system 5
/// to be run.
struct Asks;

impl SystemBody<usize, Commands, (), ()> for Asks {
    fn is_run_of(
        &self,
        _after: &World<usize>,
        _item_after: Commands,
        _out: (),
        _before: &Self,
        _world: &World<usize>,
        _item: Commands,
        _passed: (),
    ) -> bool {
        true
    }

    fn run(&mut self, world: &mut World<usize>, item: &mut Commands, _passed: ()) {
        assert!(item.insert_resource(world, 1, 77).is_ok());
        assert!(item.run_system(world, 5).is_ok());
    }
}

fn asks() -> IntoFunctionSystem<usize, Commands, Asks, ()> {
    into_function_system(9, "asks", Asks)
}

#[test]
fn poll_alone_leaves_the_commands_in_the_queue() {
    let mut world: World<usize> = World::new();
    let mut system = asks().into_system(&mut world, None);
    system.start(());
    assert!(system.poll(&mut world).is_ready());
    assert!(matches!(world.get_resource_ref(1), Poll::Ready(None)));
    match world.drain_commands() {
        Poll::Ready(commands) => assert_eq!(commands.len(), 2),
        Poll::Pending => panic!("the queue is free"),
    }
}

#[test]
fn commands_of_a_system_are_applied_after_its_run() {
    let mut world: World<usize> = World::new();
    let mut system = PersistentSystemState::new(asks().into_system(&mut world, None));
    assert!(system.run(&mut world).is_ready());
    assert_eq!(counter(&mut world), 77);
    assert!(world.has_run(9));
    match world.drain_commands() {
        Poll::Ready(commands) => {
            assert_eq!(commands.len(), 1);
            assert!(matches!(commands[0], Command::RunSystem { system: 5 }));
        }
        Poll::Pending => panic!("the queue is free"),
    }
}

#[test]
fn erased_system_settles_its_commands_too() {
    let mut world: World<usize> = World::new();
    let mut system = asks().into_system(&mut world, None);
    assert!(system.acquire_and_run((), &mut world).is_ready());
    assert_eq!(counter(&mut world), 77);
}

#[test]
fn command_that_cannot_be_applied_waits_in_the_queue() {
    let mut world: World<usize> = World::new();
    assert!(world.insert_resource(1, 5).is_ok());
    let mut state = ();
    let held = match <Res<&Counter> as Query<usize>>::acquire(&mut world, &mut state) {
        Poll::Ready(QueryAcquireResult::Ready(res)) => res,
        _ => panic!("the counter is there and free"),
    };
    let mut system = PersistentSystemState::new(asks().into_system(&mut world, None));
    assert!(system.run(&mut world).is_ready());
    <Res<&Counter> as Query<usize>>::release(&mut world, &mut state, held);
    assert_eq!(counter(&mut world), 5);
    match world.drain_commands() {
        Poll::Ready(commands) => {
            assert_eq!(commands.len(), 2);
            assert!(matches!(commands[0], Command::InsertResource { type_id: 1, resource: 77 }));
            assert!(matches!(commands[1], Command::RunSystem { system: 5 }));
        }
        Poll::Pending => panic!("the queue is free"),
    }
}

#[test]
fn systems_say_how_many_readers_a_poll_may_add() {
    let mut world: World<usize> = World::new();
    assert_eq!(<() as Query<usize>>::readers(), 0);
    assert_eq!(<Res<&Counter> as Query<usize>>::readers(), 1);
    assert_eq!(<Res<&mut Counter> as Query<usize>>::readers(), 0);
    assert_eq!(<(Res<&Counter>, Res<&Counter>, ()) as Query<usize>>::readers(), 2);
    assert_eq!(<Entities<(), True> as Query<usize>>::readers(), 1);
    let system = pipe(system_returns_usize(), system_takes_usize()).into_system(&mut world, None);
    assert_eq!(system.readers(), 0);
}

#[test]
fn try_drive_runs_a_system_where_there_is_room() {
    let mut world: World<usize> = World::new();
    let mut system = asks().into_system(&mut world, None);
    match axecs::system::try_drive(&mut system, (), &mut world) {
        Some(step) => assert!(step.is_ready()),
        None => panic!("a new world has room for readers"),
    }
    assert_eq!(counter(&mut world), 77);
}
