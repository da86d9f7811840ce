use axecs::component::archetype::Archetype;
use axecs::component::{Bundle, ComponentTypeInfo};

fn one() -> ComponentTypeInfo {
    ComponentTypeInfo::new(1, 8, 8, "tests::ComponentOne")
}

fn two() -> ComponentTypeInfo {
    ComponentTypeInfo::new(2, 8, 8, "tests::ComponentTwo")
}

fn three() -> ComponentTypeInfo {
    ComponentTypeInfo::new(3, 8, 8, "tests::ComponentThree")
}

fn bundle(a: usize, b: usize) -> Bundle<usize> {
    Bundle::named("(ComponentOne, ComponentTwo)").with(one(), a).with(two(), b)
}

#[test]
fn miri_archetype_column_mut_iter() {
    // Create a new archetype.
    let mut archetype: Archetype<usize> =
        Archetype::new(0, "(ComponentOne, ComponentTwo)", bundle(0, 0).type_info());

    // Spawn entities.
    let entity0_row = archetype.spawn_unchecked(bundle(123, 456));
    assert_eq!(entity0_row, 0);

    let entity1_row = archetype.spawn_unchecked(bundle(789, 101112));
    assert_eq!(entity1_row, 1);

    // Despawn entity.
    archetype.despawn_unchecked(entity0_row);

    // Reuse open rows.
    let entity2_row = archetype.spawn_unchecked(bundle(131415, 161718));
    assert_eq!(entity2_row, 0);

    // Columns don't exist.
    let Some(_) = archetype.get_column_mut(one().type_id()) else {
        panic!("Column for ComponentOne should exist, but it does not.")
    };
    let Some(_) = archetype.get_column_mut(two().type_id()) else {
        panic!("Column for ComponentTwo should exist, but it does not.")
    };
    let None = archetype.get_column_mut(three().type_id()) else {
        panic!("Column for ComponentThree should not exist, but it does.")
    };

    // Mutable query sanity check
    for (i, row) in archetype.rows().into_iter().enumerate() {
        let one_value = *archetype.get_mut(row, one().type_id()).unwrap();
        let two_value = *archetype.get_mut(row, two().type_id()).unwrap();
        match i {
            /* entity1 */
            1 => {
                assert_eq!(one_value, 789);
                assert_eq!(two_value, 101112);
            }
            /* entity2 */
            0 => {
                assert_eq!(one_value, 131415);
                assert_eq!(two_value, 161718);
            }
            _ => unreachable!(),
        }
    }

    // Drop all occupied rows.
    drop(archetype);
}
