use axecs::component::archetype::{Archetype, ArchetypeCell, ArchetypeColumn, ArchetypeStorage};
use axecs::component::query::True;
use axecs::component::{Bundle, Component, ComponentTypeInfo};
use axecs::entity::{Entities, Entity};
use axecs::future::UntilExitFuture;
use axecs::util::text::to_decimal;
use axecs::world::World;
use axecs::Poll;

struct Name;

impl Component for Name {
    fn spec_type_info() -> ComponentTypeInfo {
        Self::type_info()
    }

    fn type_info() -> ComponentTypeInfo {
        ComponentTypeInfo::new(1, 8, 8, "game::Name")
    }
}

fn name() -> ComponentTypeInfo {
    Name::type_info()
}

fn age() -> ComponentTypeInfo {
    ComponentTypeInfo::new(2, 1, 1, "game::stats::Age")
}

#[test]
fn decimal_digits() {
    assert_eq!(to_decimal(0), "0");
    assert_eq!(to_decimal(7), "7");
    assert_eq!(to_decimal(10), "10");
    assert_eq!(to_decimal(1234567890), "1234567890");
    assert_eq!(to_decimal(usize::MAX), usize::MAX.to_string());
}

#[test]
fn entity_is_written_with_archetype_and_row() {
    let entity = Entity::new(3, "(game::Name, game::stats::Age)", 12);
    assert_eq!(entity.to_string(), "Entity(a<(Name, Age)>:r12)");
}

#[test]
fn archetype_is_written_with_columns_and_count() {
    let bundle = |n: &'static str, a: &'static str| Bundle::new().with(age(), a).with(name(), n);
    let mut archetype = Archetype::new(0, "people", bundle("", "").type_info());
    assert_eq!(archetype.to_string(), "Archetype<(Name, Age,)>[_; 0]");
    let first = archetype.spawn_unchecked(bundle("ada", "36"));
    archetype.spawn_unchecked(bundle("bob", "41"));
    archetype.spawn_unchecked(bundle("cy", "19"));
    archetype.despawn_unchecked(first);
    assert_eq!(archetype.len(), 2);
    assert_eq!(archetype.column_count(), 2);
    assert_eq!(archetype.column_types(), vec![1, 2]);
    assert_eq!(archetype.to_string(), "Archetype<(Name, Age,)>[_; 2]");
    assert!(!archetype.has_row(first));
    assert!(archetype.has_row(1) && archetype.has_row(2) && !archetype.has_row(3));
    assert_eq!(archetype.rows(), vec![1, 2]);
    assert_eq!(archetype.get_column_cells_ref(1), Some(vec![&"bob", &"cy"]));
    assert_eq!(archetype.get_column_cells_ref(2), Some(vec![&"41", &"19"]));
    assert_eq!(archetype.get_column_cells_ref(3), None);
    assert_eq!(archetype.get(1, 2), Some(&"41"));
    assert_eq!(archetype.get(0, 2), None);
    assert_eq!(archetype.get(1, 9), None);
    assert_eq!(archetype.get_column_ref(2).unwrap().name(), "game::stats::Age");
    assert_eq!(archetype.get_column_ref(2).unwrap().type_id(), 2);
    assert_eq!(archetype.get_column_ref(2).unwrap().type_layout().align(), 1);
    let empty: Archetype<u8> = Archetype::new(4, "nothing", Vec::new());
    assert_eq!(empty.to_string(), "Archetype<()>[_; 0]");
    assert_eq!(empty.archetype_id(), 4);
    assert_eq!(empty.archetype_name(), "nothing");
}

#[test]
fn taking_an_archetype_apart_drops_every_live_value_once() {
    let bundle = |n: &'static str, a: &'static str| Bundle::new().with(name(), n).with(age(), a);
    let mut archetype = Archetype::new(0, "people", bundle("", "").type_info());
    for (n, a) in [("ada", "36"), ("bob", "41"), ("cy", "19"), ("di", "77")] {
        archetype.spawn_unchecked(bundle(n, a));
    }
    archetype.despawn_unchecked(2);
    archetype.despawn_unchecked(0);
    archetype.spawn_unchecked(bundle("eve", "23"));
    let dropped = archetype.dealloc();
    assert_eq!(dropped, vec![vec!["eve", "bob", "di"], vec!["23", "41", "77"]]);
}

#[test]
fn column_and_cell_follow_their_occupancy() {
    let mut cell = ArchetypeCell::new(5);
    assert!(cell.is_occupied());
    assert_eq!(*cell.get_ref(), 5);
    *cell.get_mut() = 6;
    assert_eq!(cell.read(), 6);
    assert!(!cell.is_occupied());
    cell.write(7);
    cell.drop();
    assert!(!cell.is_occupied());

    let mut column = ArchetypeColumn::new(name());
    column.push('a');
    column.push('b');
    column.push('c');
    assert_eq!(column.len(), 3);
    column.drop(1);
    assert!(!column.is_occupied(1));
    column.write(1, 'x');
    assert_eq!(*column.get_ref(1), 'x');
    *column.get_mut(0) = 'z';
    assert_eq!(column.read(2), 'c');
    assert_eq!(column.drop_dealloc_except(&vec![2]), vec!['z', 'x']);
}

#[test]
fn archetypes_are_found_by_their_component_types() {
    let mut storage: ArchetypeStorage<u8> = ArchetypeStorage::new();
    assert!(matches!(storage.get_ref(&vec![1, 2]), Poll::Ready(None)));
    assert!(storage.spawn(Bundle::new().with(name(), 1).with(age(), 2)).is_ok());
    let (id, reader) = match storage.get_ref(&vec![2, 1]) {
        Poll::Ready(Some(held)) => held,
        _ => panic!("the archetype exists and is idle"),
    };
    assert_eq!(id, 0);
    assert_eq!(storage.archetype_ref(id, &reader).len(), 1);
    assert!(storage.get_mut(&vec![1, 2]).is_pending());
    assert!(storage.get_ref_by_id(0).is_ready());
    assert!(matches!(storage.get_ref_by_id(5), Poll::Ready(None)));
    assert!(matches!(storage.get_mut(&vec![1]), Poll::Ready(None)));
}

#[test]
fn batch_spawns_until_the_latches_say_no() {
    let mut storage: ArchetypeStorage<u8> = ArchetypeStorage::new();
    let bundles = vec![
        Bundle::new().with(name(), 1),
        Bundle::new().with(name(), 2),
        Bundle::new().with(age(), 3),
    ];
    let (entities, rest) = storage.spawn_batch(bundles);
    assert!(rest.is_empty());
    let places: Vec<(usize, usize)> =
        entities.iter().map(|e| (e.archetype_id(), e.archetype_row())).collect();
    assert_eq!(places, vec![(0, 0), (0, 1), (1, 0)]);

    let held = match storage.get_mut_by_id(1) {
        Poll::Ready(Some(guard)) => guard,
        _ => panic!("the archetype is idle"),
    };
    let bundles = vec![
        Bundle::new().with(name(), 4),
        Bundle::new().with(age(), 5),
        Bundle::new().with(name(), 6),
    ];
    let (entities, rest) = storage.spawn_batch(bundles);
    assert_eq!(entities.len(), 1);
    assert_eq!(entities[0].archetype_row(), 2);
    assert_eq!(rest.len(), 2);
    storage.release_write(1, held);
    let (entities, rest) = storage.spawn_batch(rest);
    assert_eq!(entities.len(), 2);
    assert!(rest.is_empty());
}

#[test]
fn entities_view_changes_values() {
    let mut world: World<i64> = World::new();
    let mut spawned = Vec::new();
    for value in [5, 6, 7] {
        match world.spawn(Bundle::new().with(name(), value)) {
            Ok(entity) => spawned.push(entity),
            Err(_) => panic!("the world is idle"),
        }
    }
    let entities = match Entities::<&mut Name, True>::acquire_archetypes_unchecked(world.archetypes_mut()) {
        Poll::Ready(entities) => entities,
        Poll::Pending => panic!("the world is idle"),
    };
    for entity in entities.iter(world.archetypes()) {
        *entities.get_mut(world.archetypes_mut(), entity, 1).unwrap() += 256;
    }
    assert!(entities.get_mut(world.archetypes_mut(), spawned[0], 2).is_none());
    assert!(entities.get_mut(world.archetypes_mut(), Entity::new(0, "", 9), 1).is_none());
    assert!(entities.get_mut(world.archetypes_mut(), Entity::new(3, "", 0), 1).is_none());
    let values: Vec<i64> = spawned
        .iter()
        .map(|entity| *entities.get(world.archetypes(), *entity, 1).unwrap())
        .collect();
    assert_eq!(values, vec![261, 262, 263]);
    assert_eq!(entities.archetype_count(), 1);
    entities.as_static().release(world.archetypes_mut());
}

#[test]
fn until_exit_gives_up_when_the_application_exits() {
    let mut world: World<u8> = World::new();
    let ready = UntilExitFuture::new(|| Poll::Ready(3));
    let pending = UntilExitFuture::new(|| Poll::<u8>::Pending);
    assert!(matches!(ready.poll(&world), Poll::Ready(Some(3))));
    assert!(pending.poll(&world).is_pending());
    assert!(world.try_exit(axecs::app::AppExit::Success));
    assert!(matches!(ready.poll(&world), Poll::Ready(None)));
    assert!(matches!(pending.poll(&world), Poll::Ready(None)));
}
