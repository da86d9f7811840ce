use axecs::component::archetype::ArchetypeStorage;
use axecs::component::query::{And, Or, True, With, Without, Xor, Not, Nand, Nor, Xnor, False, ComponentFilter};
use axecs::component::{Bundle, Component, ComponentTypeInfo};
use axecs::entity::{Entities, Entity};
use axecs::Poll;

struct ComponentA;
struct ComponentB;
struct ComponentC;

impl Component for ComponentA {
    fn spec_type_info() -> ComponentTypeInfo {
        Self::type_info()
    }

    fn type_info() -> ComponentTypeInfo {
        ComponentTypeInfo::new(1, 4, 4, "scene::ComponentA")
    }
}

impl Component for ComponentB {
    fn spec_type_info() -> ComponentTypeInfo {
        Self::type_info()
    }

    fn type_info() -> ComponentTypeInfo {
        ComponentTypeInfo::new(2, 4, 4, "scene::ComponentB")
    }
}

impl Component for ComponentC {
    fn spec_type_info() -> ComponentTypeInfo {
        Self::type_info()
    }

    fn type_info() -> ComponentTypeInfo {
        ComponentTypeInfo::new(3, 4, 4, "scene::ComponentC")
    }
}

fn a() -> ComponentTypeInfo {
    ComponentA::type_info()
}

fn b() -> ComponentTypeInfo {
    ComponentB::type_info()
}

fn c() -> ComponentTypeInfo {
    ComponentC::type_info()
}

fn spawn(storage: &mut ArchetypeStorage<i32>, bundle: Bundle<i32>) -> Entity {
    match storage.spawn(bundle) {
        Ok(entity) => entity,
        Err(_) => panic!("the storage is idle"),
    }
}

fn acquire<Q: axecs::component::query::ComponentQuery, F: ComponentFilter>(
    storage: &mut ArchetypeStorage<i32>,
) -> Entities<Q, F> {
    match Entities::<Q, F>::acquire_archetypes_unchecked(storage) {
        Poll::Ready(entities) => entities,
        Poll::Pending => panic!("the storage is idle"),
    }
}

#[test]
fn bundles_with_the_same_components_share_an_archetype() {
    let mut storage = ArchetypeStorage::new();
    let first = spawn(&mut storage, Bundle::named("(A, B)").with(a(), 1).with(b(), 2));
    let second = spawn(&mut storage, Bundle::named("(B, A)").with(b(), 3).with(a(), 4));
    assert_eq!(first.archetype_id(), second.archetype_id());
    assert_eq!(first.archetype_row(), 0);
    assert_eq!(second.archetype_row(), 1);
    assert_eq!(first.archetype_name(), "(A, B)");
    assert_eq!(second.archetype_name(), "(A, B)");

    let entities = acquire::<&ComponentA, True>(&mut storage);
    let found = entities.iter(&storage);
    let values: Vec<i32> =
        found.iter().map(|entity| *entities.get(&storage, *entity, 1).unwrap()).collect();
    assert_eq!(values, vec![1, 4]);
    let values: Vec<i32> =
        found.iter().map(|entity| *entities.get(&storage, *entity, 2).unwrap()).collect();
    assert_eq!(values, vec![2, 3]);
    entities.release(&mut storage);
}

#[test]
fn bundle_cache_is_filled_by_lookups() {
    let mut storage = ArchetypeStorage::new();
    spawn(&mut storage, Bundle::new().with(a(), 1).with(b(), 2));
    spawn(&mut storage, Bundle::new().with(b(), 3).with(a(), 4));
    spawn(&mut storage, Bundle::new().with(b(), 5).with(a(), 6));
    let guard = match storage.try_read_raw() {
        Poll::Ready(guard) => guard,
        Poll::Pending => panic!("the registry is idle"),
    };
    let raw = storage.raw_ref(&guard);
    assert_eq!(raw.archetype_bundles(), vec![(vec![1, 2], 0), (vec![2, 1], 0)]);
    assert_eq!(raw.archetype_components(), vec![(vec![1, 2], 0)]);
    assert_eq!(raw.archetypes().len(), 1);
    assert_eq!(raw.find(&vec![2, 1]), Some(0));
    assert_eq!(raw.find(&vec![2]), None);
    storage.release_raw(guard);
}

#[test]
fn despawned_row_is_used_again() {
    let mut storage = ArchetypeStorage::new();
    let first = spawn(&mut storage, Bundle::new().with(a(), 1).with(b(), 2));
    assert_eq!(first.archetype_row(), 0);
    assert!(storage.despawn(first).is_ready());
    let second = spawn(&mut storage, Bundle::new().with(a(), 3).with(b(), 4));
    assert_eq!(second.archetype_row(), 0);
    assert_eq!(second.archetype_id(), first.archetype_id());

    let entities = acquire::<(&ComponentA, &ComponentB), True>(&mut storage);
    let found = entities.iter(&storage);
    assert_eq!(found.len(), 1);
    assert_eq!(found[0].archetype_row(), 0);
    assert_eq!(*entities.get(&storage, found[0], 1).unwrap(), 3);
    assert_eq!(*entities.get(&storage, found[0], 2).unwrap(), 4);
    entities.release(&mut storage);
}

#[test]
fn despawn_moves_no_other_row() {
    let mut storage = ArchetypeStorage::new();
    let e0 = spawn(&mut storage, Bundle::new().with(a(), 10));
    let e1 = spawn(&mut storage, Bundle::new().with(a(), 11));
    let e2 = spawn(&mut storage, Bundle::new().with(a(), 12));
    assert!(storage.despawn(e1).is_ready());
    let entities = acquire::<&ComponentA, True>(&mut storage);
    let found = entities.iter(&storage);
    let rows: Vec<usize> = found.iter().map(|entity| entity.archetype_row()).collect();
    assert_eq!(rows, vec![e0.archetype_row(), e2.archetype_row()]);
    assert_eq!(*entities.get(&storage, e0, 1).unwrap(), 10);
    assert_eq!(*entities.get(&storage, e2, 1).unwrap(), 12);
    assert!(entities.get(&storage, e1, 1).is_none());
    entities.release(&mut storage);
    // despawning an entity that is gone, or that never was, changes nothing
    assert!(storage.despawn(e1).is_ready());
    assert!(storage.despawn(Entity::new(17, "", 0)).is_ready());
    let e3 = spawn(&mut storage, Bundle::new().with(a(), 13));
    assert_eq!(e3.archetype_row(), e1.archetype_row());
}

#[test]
fn most_recently_freed_row_is_used_first() {
    let mut storage = ArchetypeStorage::new();
    let rows: Vec<Entity> =
        (0..4).map(|i| spawn(&mut storage, Bundle::new().with(a(), i))).collect();
    assert!(storage.despawn(rows[1]).is_ready());
    assert!(storage.despawn(rows[3]).is_ready());
    assert_eq!(spawn(&mut storage, Bundle::new().with(a(), 7)).archetype_row(), 3);
    assert_eq!(spawn(&mut storage, Bundle::new().with(a(), 8)).archetype_row(), 1);
    assert_eq!(spawn(&mut storage, Bundle::new().with(a(), 9)).archetype_row(), 4);
}

#[test]
fn different_components_make_different_archetypes() {
    let mut storage = ArchetypeStorage::new();
    let only_a = spawn(&mut storage, Bundle::new().with(a(), 1));
    let a_and_b = spawn(&mut storage, Bundle::new().with(a(), 2).with(b(), 3));
    let nothing = spawn(&mut storage, Bundle::new());
    let again = spawn(&mut storage, Bundle::new());
    assert_eq!(only_a.archetype_id(), 0);
    assert_eq!(a_and_b.archetype_id(), 1);
    assert_eq!(nothing.archetype_id(), 2);
    assert_eq!(again.archetype_id(), 2);
    assert_eq!(again.archetype_row(), 1);
}

#[test]
fn filters_select_archetypes() {
    let mut storage = ArchetypeStorage::new();
    spawn(&mut storage, Bundle::new().with(a(), 1));
    spawn(&mut storage, Bundle::new().with(a(), 2).with(b(), 3));
    spawn(&mut storage, Bundle::new().with(a(), 4).with(c(), 5));
    spawn(&mut storage, Bundle::new().with(b(), 6));

    fn values<F: ComponentFilter>(storage: &mut ArchetypeStorage<i32>) -> Vec<i32> {
        let entities = acquire::<&ComponentA, F>(storage);
        let out = entities
            .iter(storage)
            .iter()
            .map(|entity| *entities.get(storage, *entity, 1).unwrap())
            .collect();
        entities.release(storage);
        out
    }
    assert_eq!(values::<True>(&mut storage), vec![1, 2, 4]);
    assert_eq!(values::<False>(&mut storage), Vec::<i32>::new());
    assert_eq!(values::<With<ComponentB>>(&mut storage), vec![2]);
    assert_eq!(values::<Without<ComponentB>>(&mut storage), vec![1, 4]);
    assert_eq!(values::<Not<With<ComponentB>>>(&mut storage), vec![1, 4]);
    assert_eq!(values::<And<(With<ComponentB>, With<ComponentC>)>>(&mut storage), Vec::<i32>::new());
    assert_eq!(values::<Nand<(With<ComponentB>, With<ComponentC>)>>(&mut storage), vec![1, 2, 4]);
    assert_eq!(values::<Or<(With<ComponentB>, With<ComponentC>)>>(&mut storage), vec![2, 4]);
    assert_eq!(values::<Nor<(With<ComponentB>, With<ComponentC>)>>(&mut storage), vec![1]);
    assert_eq!(values::<Xor<(With<ComponentA>, With<ComponentB>)>>(&mut storage), vec![1, 4]);
    assert_eq!(values::<Xnor<(With<ComponentA>, With<ComponentB>)>>(&mut storage), vec![2]);
    assert_eq!(
        values::<Xor<(With<ComponentA>, With<ComponentB>, With<ComponentC>)>>(&mut storage),
        vec![1]
    );
}

#[test]
fn contended_query_takes_nothing() {
    let mut storage = ArchetypeStorage::new();
    spawn(&mut storage, Bundle::new().with(a(), 1));
    let second = spawn(&mut storage, Bundle::new().with(a(), 2).with(b(), 3));
    spawn(&mut storage, Bundle::new().with(a(), 4).with(c(), 5));
    // somebody holds the second archetype
    let held = match storage.get_mut_by_id(second.archetype_id()) {
        Poll::Ready(Some(guard)) => guard,
        _ => panic!("the archetype is idle"),
    };
    // a query that needs all three is pending, and has taken none of them
    assert!(Entities::<&ComponentA, True>::acquire_archetypes_unchecked(&mut storage).is_pending());
    for id in [0, 2] {
        match storage.get_mut_by_id(id) {
            Poll::Ready(Some(guard)) => storage.release_write(id, guard),
            _ => panic!("the archetype was left locked"),
        }
    }
    // a query that does not need the held archetype is ready
    let others = acquire::<&ComponentA, Without<ComponentB>>(&mut storage);
    assert_eq!(others.iter(&storage).len(), 2);
    assert!(others.holds(0) && others.holds(2) && !others.holds(1));
    // and while it holds its archetypes, nobody else gets them
    assert!(storage.get_mut_by_id(0).is_pending());
    assert!(storage.despawn(Entity::new(0, "", 0)).is_pending());
    others.release(&mut storage);
    storage.release_write(second.archetype_id(), held);
    let all = acquire::<&ComponentA, True>(&mut storage);
    assert_eq!(all.iter(&storage).len(), 3);
    all.release(&mut storage);
}

#[test]
fn spawn_into_a_held_archetype_hands_the_bundle_back() {
    let mut storage = ArchetypeStorage::new();
    let first = spawn(&mut storage, Bundle::new().with(a(), 1));
    let held = match storage.get_mut_by_id(first.archetype_id()) {
        Poll::Ready(Some(guard)) => guard,
        _ => panic!("the archetype is idle"),
    };
    let back = match storage.spawn(Bundle::new().with(a(), 2)) {
        Ok(_) => panic!("the archetype is held"),
        Err(bundle) => bundle,
    };
    assert_eq!(back.len(), 1);
    storage.release_write(first.archetype_id(), held);
    assert_eq!(spawn(&mut storage, back).archetype_row(), 1);
}

#[test]
fn registry_guard_blocks_creation_only() {
    let mut storage = ArchetypeStorage::new();
    spawn(&mut storage, Bundle::new().with(a(), 1));
    let guard = match storage.try_read_raw() {
        Poll::Ready(guard) => guard,
        Poll::Pending => panic!("the registry is idle"),
    };
    assert_eq!(storage.raw_ref(&guard).archetype_count(), 1);
    assert_eq!(storage.raw_ref(&guard).archetype_components(), vec![(vec![1], 0)]);
    // an archetype that exists can be spawned into while the registry is read
    assert!(storage.spawn(Bundle::new().with(a(), 2)).is_ok());
    // a new archetype cannot be made
    assert!(storage.spawn(Bundle::new().with(b(), 3)).is_err());
    storage.release_raw(guard);
    assert!(storage.spawn(Bundle::new().with(b(), 3)).is_ok());
}

#[test]
fn read_only_views_share_their_archetypes() {
    let mut storage = ArchetypeStorage::new();
    let entity = spawn(&mut storage, Bundle::new().with(a(), 1));
    let first = acquire::<&ComponentA, True>(&mut storage);
    let second = acquire::<&ComponentA, True>(&mut storage);
    assert_eq!(first.iter(&storage).len(), 1);
    assert_eq!(second.get(&storage, entity, 1), Some(&1));
    // a view of a query that only reads hands out nothing to change
    assert!(second.get_mut(&mut storage, entity, 1).is_none());
    // a view that changes components waits for every reader
    assert!(Entities::<&mut ComponentA, True>::acquire_archetypes_unchecked(&mut storage)
        .is_pending());
    first.release(&mut storage);
    assert!(Entities::<&mut ComponentA, True>::acquire_archetypes_unchecked(&mut storage)
        .is_pending());
    second.release(&mut storage);
    let writer = acquire::<&mut ComponentA, True>(&mut storage);
    // and while it holds the archetype, no reader is admitted
    assert!(Entities::<&ComponentA, True>::acquire_archetypes_unchecked(&mut storage).is_pending());
    match writer.get_mut(&mut storage, entity, 1) {
        Some(value) => *value = 9,
        None => panic!("the entity lives and has the component"),
    }
    writer.release(&mut storage);
    let reader = acquire::<&ComponentA, True>(&mut storage);
    assert_eq!(reader.get(&storage, entity, 1), Some(&9));
    reader.release(&mut storage);
    // every latch is idle again
    assert!(storage.get_mut_by_id(0).is_ready());
}

#[test]
fn mixed_query_takes_its_archetypes_for_writing() {
    let mut storage = ArchetypeStorage::new();
    spawn(&mut storage, Bundle::new().with(a(), 1).with(b(), 2));
    let view = acquire::<(&ComponentA, &mut ComponentB), True>(&mut storage);
    assert!(Entities::<&ComponentA, True>::acquire_archetypes_unchecked(&mut storage).is_pending());
    view.release(&mut storage);
}
