use axecs::app::AppExit;
use axecs::component::query::{ComponentQuery, True};
use axecs::component::{Bundle, Component, ComponentTypeInfo};
use axecs::entity::{Entities, Entity};
use axecs::query::event::{Event, EventReader, EventWriter};
use axecs::query::{PersistentQueryState, Query, QueryAcquireResult, Scoped};
use axecs::resource::{Res, Resource};
use axecs::system::Local;
use axecs::world::{Command, CommandOutcome, Commands, World};
use axecs::Poll;

struct Health;

impl Component for Health {
    fn spec_type_info() -> ComponentTypeInfo {
        Self::type_info()
    }

    fn type_info() -> ComponentTypeInfo {
        ComponentTypeInfo::new(1, 4, 4, "game::Health")
    }
}

struct Score;

impl Resource for Score {
    fn spec_resource_id() -> u64 {
        10
    }

    fn resource_id() -> u64 {
        10
    }

    fn spec_resource_name() -> &'static str {
        Self::resource_name()
    }

    fn resource_name() -> &'static str {
        "game::Score"
    }
}

struct Clock;

impl Resource for Clock {
    fn spec_resource_id() -> u64 {
        11
    }

    fn resource_id() -> u64 {
        11
    }

    fn spec_resource_name() -> &'static str {
        Self::resource_name()
    }

    fn resource_name() -> &'static str {
        "game::Clock"
    }
}

struct Hit;

impl Event for Hit {
    fn spec_event_id() -> u64 {
        1
    }

    fn event_id() -> u64 {
        1
    }
}

struct Miss;

impl Event for Miss {
    fn spec_event_id() -> u64 {
        2
    }

    fn event_id() -> u64 {
        2
    }
}

fn item<T>(poll: Poll<QueryAcquireResult<T>>) -> T {
    match poll {
        Poll::Ready(QueryAcquireResult::Ready(item)) => item,
        Poll::Ready(QueryAcquireResult::DoesNotExist { name }) => panic!("{} does not exist", name),
        Poll::Pending => panic!("the query is pending"),
    }
}

fn is_missing<T>(poll: &Poll<QueryAcquireResult<T>>) -> bool {
    matches!(poll, Poll::Ready(QueryAcquireResult::DoesNotExist { .. }))
}

#[test]
fn exit_is_signalled_once() {
    let mut world: World<i32> = World::new();
    assert!(!world.is_exiting());
    assert!(world.try_exit(AppExit::Failure(String::from("first"))));
    assert!(world.is_exiting());
    assert!(!world.try_exit(AppExit::Success));
    match world.take_exit_status() {
        AppExit::Failure(message) => assert_eq!(message, "first"),
        AppExit::Success => panic!("the first status stands"),
    }
    assert!(world.is_exiting());
    let mut world: World<i32> = World::new();
    world.exit(AppExit::Success);
    assert!(world.take_exit_status().is_ok());
}

#[test]
fn resources_are_inserted_replaced_and_taken() {
    let mut world: World<i32> = World::new();
    assert!(world.insert_resource(10, 5).is_ok());
    assert!(matches!(world.replace_resource(10, 6), Ok(Some(5))));
    assert!(matches!(world.replace_resource(11, 1), Ok(None)));
    assert!(matches!(world.take_resource(10), Poll::Ready(Some(6))));
    assert!(matches!(world.take_resource(10), Poll::Ready(None)));
    assert!(world.remove_resource(11).is_ready());
    assert!(matches!(world.take_resource(11), Poll::Ready(None)));
}

#[test]
fn resource_in_use_is_neither_replaced_nor_taken() {
    let mut world: World<i32> = World::new();
    assert!(world.insert_resource(10, 5).is_ok());
    let mut state = ();
    let held = item(<Res<&Score> as Query<i32>>::acquire(&mut world, &mut state));
    assert!(matches!(world.insert_resource(10, 6), Err(6)));
    assert!(world.take_resource(10).is_pending());
    assert_eq!(held.get(&world), Some(&5));
    <Res<&Score> as Query<i32>>::release(&mut world, &mut state, held);
    assert!(world.insert_resource(10, 6).is_ok());
}

#[test]
fn reader_and_writer_of_a_resource_exclude_each_other() {
    let mut world: World<i32> = World::new();
    assert!(world.insert_resource(10, 5).is_ok());
    let mut state = ();
    let writer = item(<Res<&mut Score> as Query<i32>>::acquire(&mut world, &mut state));
    assert!(<Res<&Score> as Query<i32>>::acquire(&mut world, &mut state).is_pending());
    assert!(<Res<&mut Score> as Query<i32>>::acquire(&mut world, &mut state).is_pending());
    assert!(matches!(writer.set(&mut world, 8), Ok(5)));
    assert_eq!(writer.get(&world), Some(&8));
    <Res<&mut Score> as Query<i32>>::release(&mut world, &mut state, writer);
    let first = item(<Res<&Score> as Query<i32>>::acquire(&mut world, &mut state));
    let second = item(<Res<&Score> as Query<i32>>::acquire(&mut world, &mut state));
    assert!(<Res<&mut Score> as Query<i32>>::acquire(&mut world, &mut state).is_pending());
    assert_eq!(first.get(&world), Some(&8));
    assert_eq!(second.as_static().get(&world), Some(&8));
}

#[test]
fn missing_resource_is_reported() {
    let mut world: World<i32> = World::new();
    let mut state = ();
    let found = <Res<&Score> as Query<i32>>::acquire(&mut world, &mut state);
    assert!(is_missing(&found));
    match found {
        Poll::Ready(result) => {
            assert!(!result.is_ready());
            assert_eq!(result.missing(), Some(String::from("Query requested non-existant Score")));
        }
        Poll::Pending => unreachable!(),
    }
    let optional = item(<Option<Res<&Score>> as Query<i32>>::acquire(&mut world, &mut state));
    assert!(optional.is_none());
    assert!(QueryAcquireResult::Ready(3).missing().is_none());
    assert_eq!(QueryAcquireResult::Ready(3).unwrap(), 3);
}

#[test]
fn tuple_of_queries_acquires_all_or_nothing() {
    let mut world: World<i32> = World::new();
    assert!(world.insert_resource(10, 1).is_ok());
    assert!(world.insert_resource(11, 2).is_ok());
    let mut unit = ();
    let clock = item(<Res<&mut Clock> as Query<i32>>::acquire(&mut world, &mut unit));

    type Both<'a> = (Res<&'a mut Score>, Res<&'a mut Clock>);
    let mut state = <Both as Query<i32>>::init_state(&mut world, None);
    // the second part is contended: the first part is given back
    assert!(<Both as Query<i32>>::acquire(&mut world, &mut state).is_pending());
    let score = item(<Res<&mut Score> as Query<i32>>::acquire(&mut world, &mut unit));
    <Res<&mut Score> as Query<i32>>::release(&mut world, &mut unit, score);

    <Res<&mut Clock> as Query<i32>>::release(&mut world, &mut unit, clock);
    let both = item(<Both as Query<i32>>::acquire(&mut world, &mut state));
    assert_eq!(both.0.get(&world), Some(&1));
    assert_eq!(both.1.get(&world), Some(&2));
    assert!(<Res<&Score> as Query<i32>>::acquire(&mut world, &mut unit).is_pending());
    <Both as Query<i32>>::release(&mut world, &mut state, both);
    assert!(<Res<&Score> as Query<i32>>::acquire(&mut world, &mut unit).is_ready());
}

#[test]
fn tuple_with_a_missing_part_gives_the_rest_back() {
    let mut world: World<i32> = World::new();
    assert!(world.insert_resource(10, 1).is_ok());
    type Three<'a> = (Res<&'a mut Score>, (), Res<&'a Clock>);
    let mut state = <Three as Query<i32>>::init_state(&mut world, None);
    assert!(is_missing(&<Three as Query<i32>>::acquire(&mut world, &mut state)));
    let mut unit = ();
    assert!(<Res<&mut Score> as Query<i32>>::acquire(&mut world, &mut unit).is_ready());
}

#[test]
fn mutable_and_shared_access_to_one_component_is_refused() {
    let validator = <(&mut Health, &Health) as ComponentQuery>::validate();
    assert!(validator.has_violation());
    assert_eq!(
        validator.to_string(),
        "Query would violate the borrow checker rules:\n  Already mutably borrowed Health"
    );
    let validator = <Entities<(&mut Health, &Health), True> as Query<i32>>::validate();
    assert!(validator.has_violation());
    assert!(!<(&Health, &Health) as ComponentQuery>::validate().has_violation());
    assert!(!<(Entity, Option<&mut Health>) as ComponentQuery>::validate().has_violation());
}

#[test]
fn entities_query_through_the_world() {
    let mut world: World<i32> = World::new();
    let spawned = match world.spawn(Bundle::named("(Health,)").with(Health::type_info(), 100)) {
        Ok(entity) => entity,
        Err(_) => panic!("the world is idle"),
    };
    let mut query: PersistentQueryState<i32, Entities<&mut Health>> =
        PersistentQueryState::new(&mut world, None);
    let entities = item(query.try_acquire(&mut world));
    assert!(query.try_acquire(&mut world).is_pending());
    assert!(world.despawn(spawned).is_pending());
    let found = entities.iter(world.archetypes());
    assert_eq!(found.len(), 1);
    assert_eq!(found[0].archetype_id(), spawned.archetype_id());
    assert_eq!(found[0].archetype_row(), spawned.archetype_row());
    assert_eq!(entities.get(world.archetypes(), found[0], 1), Some(&100));
    let mut state = ();
    <Entities<&mut Health> as Query<i32>>::release(&mut world, &mut state, entities);
    assert!(world.despawn(spawned).is_ready());
    let entities = item(query.try_acquire(&mut world));
    assert!(entities.iter(world.archetypes()).is_empty());
}

#[test]
fn commands_are_deferred() {
    let mut world: World<i32> = World::new();
    assert!(world.insert_resource(10, 1).is_ok());
    let commands = Commands::new();
    assert!(commands.insert_resource(&mut world, 10, 2).is_ok());
    assert!(commands.insert_resource(&mut world, 11, 3).is_ok());
    assert!(commands.spawn(&mut world, Bundle::new().with(Health::type_info(), 50)).is_ok());
    assert!(commands.remove_resource(&mut world, 11).is_ok());
    assert!(commands.run_system(&mut world, 77).is_ok());
    // nothing has happened yet
    let mut state = ();
    let score = item(<Res<&Score> as Query<i32>>::acquire(&mut world, &mut state));
    assert_eq!(score.get(&world), Some(&1));
    <Res<&Score> as Query<i32>>::release(&mut world, &mut state, score);
    assert!(is_missing(&<Res<&Clock> as Query<i32>>::acquire(&mut world, &mut state)));

    let drained = match world.drain_commands() {
        Poll::Ready(commands) => commands,
        Poll::Pending => panic!("the queue is free"),
    };
    assert_eq!(drained.len(), 5);
    assert!(matches!(world.drain_commands(), Poll::Ready(rest) if rest.is_empty()));
    let mut outcomes = Vec::new();
    for command in drained {
        outcomes.push(match world.apply_command(command) {
            CommandOutcome::Done => 0,
            CommandOutcome::Pending(_) => 1,
            CommandOutcome::RunSystem(system) => system,
        });
    }
    assert_eq!(outcomes, vec![0, 0, 0, 0, 77]);
    let score = item(<Res<&Score> as Query<i32>>::acquire(&mut world, &mut state));
    assert_eq!(score.get(&world), Some(&2));
    assert!(is_missing(&<Res<&Clock> as Query<i32>>::acquire(&mut world, &mut state)));
    let entities = item(<Entities<&Health> as Query<i32>>::acquire(&mut world, &mut state));
    assert_eq!(entities.iter(world.archetypes()).len(), 1);
}

#[test]
fn queue_is_flushed_in_order() {
    let mut world: World<i32> = World::new();
    assert!(world.insert_resource(11, 0).is_ok());
    let mut state = ();
    let held = item(<Res<&Clock> as Query<i32>>::acquire(&mut world, &mut state));
    let commands = Commands::new();
    assert!(commands.insert_resource(&mut world, 10, 1).is_ok());
    assert!(commands.insert_resource(&mut world, 11, 5).is_ok());
    assert!(commands.run_system(&mut world, 3).is_ok());
    assert!(commands.insert_resource(&mut world, 10, 2).is_ok());
    assert!(commands
        .spawn(&mut world, Bundle::new().with(Health::type_info(), 1).with(Health::type_info(), 2))
        .is_ok());
    assert!(commands.run_system(&mut world, 4).is_ok());
    let flushed = match world.flush_commands() {
        Poll::Ready(flushed) => flushed,
        Poll::Pending => panic!("the queue is free"),
    };
    assert_eq!(flushed.systems, vec![3, 4]);
    // the clock is held, and the bundle holds a component type twice
    assert_eq!(flushed.left.len(), 2);
    assert!(matches!(flushed.left[0], Command::InsertResource { type_id: 11, resource: 5 }));
    assert!(matches!(flushed.left[1], Command::Spawn { .. }));
    assert_eq!(held.get(&world), Some(&0));
    let score = item(<Res<&Score> as Query<i32>>::acquire(&mut world, &mut state));
    assert_eq!(score.get(&world), Some(&2));
    assert!(matches!(world.flush_commands(), Poll::Ready(flushed) if flushed.left.is_empty()));
}

#[test]
fn command_waits_for_the_latches() {
    let mut world: World<i32> = World::new();
    assert!(world.insert_resource(10, 1).is_ok());
    let mut state = ();
    let held = item(<Res<&Score> as Query<i32>>::acquire(&mut world, &mut state));
    let command = match world.apply_command(Command::InsertResource { type_id: 10, resource: 9 }) {
        CommandOutcome::Pending(command) => command,
        _ => panic!("the resource is held"),
    };
    assert_eq!(held.get(&world), Some(&1));
    <Res<&Score> as Query<i32>>::release(&mut world, &mut state, held);
    assert!(matches!(world.apply_command(command), CommandOutcome::Done));
    let now = item(<Res<&Score> as Query<i32>>::acquire(&mut world, &mut state));
    assert_eq!(now.get(&world), Some(&9));
}

#[test]
fn events_reach_every_reader_in_order() {
    let mut world: World<i32> = World::new();
    let mut reader_state = <EventReader<Hit> as Query<i32>>::init_state(&mut world, None);
    <EventWriter<Hit> as Query<i32>>::init_state(&mut world, None);
    let mut unit = ();
    let writer = item(<EventWriter<Hit> as Query<i32>>::acquire(&mut world, &mut unit));
    let reader = item(<EventReader<Hit> as Query<i32>>::acquire(&mut world, &mut reader_state));
    world.events_mut().send_batch(&writer, &vec![1, 2, 3]);
    assert_eq!(world.events_mut().try_read(&reader), Some(1));
    assert_eq!(world.events_mut().try_read(&reader), Some(2));
    assert_eq!(world.events_mut().try_read(&reader), Some(3));
    assert_eq!(world.events_mut().try_read(&reader), None);

    // a reader that comes later hears only what is sent from then on
    let late = world.events_mut().reader::<Hit>();
    world.events_mut().send(&writer, 4);
    assert_eq!(world.events_mut().try_read(&late), Some(4));
    assert_eq!(world.events_mut().try_read(&late), None);
    assert_eq!(world.events_mut().try_read(&reader.share()), Some(4));

    // other types of event have channels of their own
    let other = world.events_mut().reader::<Miss>();
    world.events_mut().send(&writer, 5);
    assert_eq!(world.events_mut().try_read(&other), None);
    let miss = world.events_mut().writer::<Miss>();
    world.events_mut().send(&miss, 6);
    assert_eq!(world.events_mut().try_read(&other), Some(6));
    assert_eq!(world.events_mut().try_read(&reader), Some(5));
}

#[test]
fn local_keeps_its_value_between_acquisitions() {
    let mut world: World<i32> = World::new();
    let mut state = <Local<u32> as Query<i32>>::init_state(&mut world, None);
    let mut local = item(<Local<u32> as Query<i32>>::acquire(&mut world, &mut state));
    assert_eq!(*local.get(), 0);
    assert!(<Local<u32> as Query<i32>>::acquire(&mut world, &mut state).is_pending());
    *local.get_mut() += 5;
    <Local<u32> as Query<i32>>::release(&mut world, &mut state, local);
    let mut local = item(<Local<u32> as Query<i32>>::acquire(&mut world, &mut state));
    assert_eq!(*local.get(), 5);
    local.set(1);
    assert_eq!(*local.get(), 1);
}

#[test]
fn scoped_query_is_acquired_on_demand() {
    let mut world: World<i32> = World::new();
    assert!(world.insert_resource(10, 4).is_ok());
    type Inner<'a> = Res<&'a mut Score>;
    let mut state = <Scoped<i32, Inner> as Query<i32>>::init_state(&mut world, None);
    let mut scoped = item(<Scoped<i32, Inner> as Query<i32>>::acquire(&mut world, &mut state));
    // holding the scoped query holds nothing
    assert!(world.take_resource(10).is_pending() == false);
    assert!(world.insert_resource(10, 4).is_ok());
    let score = item(scoped.maybe_lock(&mut world));
    assert!(world.take_resource(10).is_pending());
    assert_eq!(score.get(&world), Some(&4));
    scoped.unlock(&mut world, score);
    assert!(matches!(world.take_resource(10), Poll::Ready(Some(4))));
    assert!(is_missing(&scoped.maybe_lock(&mut world)));
}
