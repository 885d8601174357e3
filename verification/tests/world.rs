use cubic::world::{EntityId, World};

#[test]
fn spawn_hands_out_consecutive_ids() {
    let mut world = World::new();
    assert!(world.can_spawn());
    assert_eq!(world.spawn(), 0);
    assert_eq!(world.spawn(), 1);
    assert_eq!(world.spawn(), 2);
}

#[test]
fn despawned_ids_are_recycled_most_recent_first() {
    let mut world = World::default();
    let a = world.spawn();
    let b = world.spawn();
    let c = world.spawn();
    world.despawn(a);
    world.despawn(c);
    assert_eq!(world.spawn(), c);
    assert_eq!(world.spawn(), a);
    assert_eq!(world.spawn(), 3);
    let _ = b;
}

#[test]
fn get_after_insert_returns_the_component() {
    let mut store: Vec<Option<&str>> = Vec::new();
    World::insert(&mut store, 3, "three");
    assert_eq!(store.len(), 4);
    assert_eq!(World::get(&store, 3), Some(&"three"));
    assert_eq!(World::get(&store, 2), None);
    assert_eq!(World::get(&store, 40), None);
    assert!(World::has(&store, 3));
    assert!(!World::has(&store, 0));
}

#[test]
fn insert_replaces_and_keeps_other_ids() {
    let mut store: Vec<Option<i32>> = Vec::new();
    World::insert(&mut store, 0, 10);
    World::insert(&mut store, 2, 20);
    World::insert(&mut store, 0, 11);
    assert_eq!(store, vec![Some(11), None, Some(20)]);
}

#[test]
fn remove_takes_the_component_out() {
    let mut store: Vec<Option<i32>> = Vec::new();
    World::insert(&mut store, 1, 5);
    assert_eq!(World::remove(&mut store, 1), Some(5));
    assert_eq!(World::remove(&mut store, 1), None);
    assert_eq!(World::remove(&mut store, 9), None);
    assert!(!World::has(&store, 1));
    assert_eq!(store.len(), 2);
}

#[test]
fn get_mut_edits_in_place() {
    let mut store: Vec<Option<i32>> = Vec::new();
    World::insert(&mut store, 2, 1);
    if let Some(c) = World::get_mut(&mut store, 2) {
        *c += 41;
    }
    assert_eq!(World::get(&store, 2), Some(&42));
    assert!(World::get_mut(&mut store, 0).is_none());
    assert!(World::get_mut(&mut store, 7).is_none());
}

#[test]
fn clear_at_empties_one_slot() {
    let mut store: Vec<Option<u8>> = vec![Some(1), Some(2)];
    World::clear_at(&mut store, 0);
    World::clear_at(&mut store, 5);
    assert_eq!(store, vec![None, Some(2)]);
}

#[test]
fn ids_with_and_iter_list_occupied_slots_in_order() {
    let mut store: Vec<Option<char>> = Vec::new();
    World::insert(&mut store, 4, 'd');
    World::insert(&mut store, 1, 'a');
    World::insert(&mut store, 2, 'b');
    World::remove(&mut store, 2);
    let ids: Vec<EntityId> = World::ids_with(&store);
    assert_eq!(ids, vec![1, 4]);
    let pairs = World::iter(&store);
    assert_eq!(pairs, vec![(1, &'a'), (4, &'d')]);
    let empty: Vec<Option<char>> = Vec::new();
    assert!(World::ids_with(&empty).is_empty());
}

#[test]
fn recycled_id_carries_no_component_once_its_slot_is_cleared() {
    let mut world = World::new();
    let mut store: Vec<Option<u32>> = Vec::new();
    let a = world.spawn();
    let b = world.spawn();
    World::insert(&mut store, a, 1);
    World::insert(&mut store, b, 2);
    World::clear_at(&mut store, a);
    world.despawn(a);
    let c = world.spawn();
    assert_eq!(c, a);
    assert!(!World::has(&store, c));
    assert_eq!(World::get(&store, b), Some(&2));
}
