use naia_core::variant::Variant;
use naia_core::world::{EntityKey, World};

#[test]
fn world_spawns_and_despawns() {
    let mut world = World::new();
    assert!(world.entities().is_empty());
    let a = world.spawn_entity().unwrap();
    let b = world.spawn_entity().unwrap();
    assert_ne!(a, b);
    assert!(world.has_entity(&a));
    assert!(world.has_entity(&b));
    let mut keys = world.entities();
    keys.sort_by_key(|k| k.value);
    let mut expected = vec![a, b];
    expected.sort_by_key(|k| k.value);
    assert_eq!(keys, expected);
    world.despawn_entity(&a);
    assert!(!world.has_entity(&a));
    assert_eq!(world.entities(), vec![b]);
    // a key that was removed is not the key of a later entity
    let c = world.spawn_entity().unwrap();
    assert_ne!(a, c);
    assert!(!world.has_entity(&a));
    assert!(world.has_entity(&c));
    assert!(!world.has_entity(&EntityKey { value: 12345 }));
}

#[test]
fn world_files_components_by_kind() {
    let mut world = World::new();
    let e = world.spawn_entity().unwrap();
    assert!(world.insert_component(&e, Variant::new(3, vec![vec![1]]).unwrap()));
    assert!(world.insert_component(&e, Variant::new(4, vec![vec![2]]).unwrap()));
    // an entity has one component of a kind: the caller looks first
    assert!(world.has_component_of_type(&e, 3));
    // an entity that the world does not hold gets no component
    let gone = world.spawn_entity().unwrap();
    world.despawn_entity(&gone);
    assert!(!world.insert_component(&gone, Variant::new(3, vec![vec![9]]).unwrap()));
    assert!(world.has_component_of_type(&e, 3));
    assert!(!world.has_component_of_type(&e, 5));
    let got = world.get_component_from_type(&e, 3).unwrap();
    assert_eq!(got.get_prop(0), Some(&vec![1]));
    assert!(world.get_component_from_type(&e, 5).is_none());
    assert!(world.has_component(&e, 4));
    assert!(!world.has_component(&e, 5));
    assert_eq!(world.get_component(&e, 4).unwrap().get_prop(0), Some(&vec![2]));
    assert!(world.get_component(&e, 5).is_none());
    let mut kinds: Vec<u16> = world.get_components(&e).iter().map(|c| c.naia_id()).collect();
    kinds.sort();
    assert_eq!(kinds, vec![3, 4]);
    let removed = world.remove_component(&e, 3).unwrap();
    assert_eq!(removed.get_prop(0), Some(&vec![1]));
    assert!(world.remove_component(&e, 3).is_none());
    assert!(!world.has_component_of_type(&e, 3));
    assert_eq!(world.get_components(&e).len(), 1);
}

#[test]
fn world_ignores_unknown_entities() {
    let mut world = World::new();
    let e = world.spawn_entity().unwrap();
    world.despawn_entity(&e);
    assert!(!world.insert_component(&e, Variant::empty(1)));
    assert!(!world.has_component_of_type(&e, 1));
    assert!(world.get_component_from_type(&e, 1).is_none());
    assert!(world.remove_component(&e, 1).is_none());
    assert!(world.get_components(&e).is_empty());
    world.despawn_entity(&e);
}
