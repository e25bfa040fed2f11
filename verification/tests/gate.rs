use level_progression::component::{Bundle, Key};
use level_progression::world::World;

#[test]
fn door_without_keys_lets_the_player_through() {
    let mut world = World::new();
    let door = world.create_door("cave_2".to_string());
    assert!(world.is_door(door));
    assert!(world.can_pass(door));
}

#[test]
fn nothing_but_a_living_door_lets_the_player_through() {
    let mut world = World::new();
    let wall = world.spawn(Bundle::wall());
    let door = world.create_door("cave_2".to_string());
    assert!(!world.can_pass(wall));
    assert!(!world.can_pass(99));
    world.despawn(door);
    assert!(!world.can_pass(door));
}

#[test]
fn must_destroy_key_shuts_its_door_until_it_is_gone() {
    let mut world = World::new();
    let door = world.create_door("cave_2".to_string());
    let key = world.create_key(Key::MustDestroy, door).unwrap();
    assert_eq!(world.get(door).unwrap().keys.0, vec![key]);
    assert_eq!(world.get(key).unwrap().key_of.unwrap().0, door);
    assert!(!world.can_pass(door));
    world.despawn(key);
    assert!(world.can_pass(door));
    assert!(world.get(door).unwrap().keys.0.is_empty());
    assert!(!world.get(door).unwrap().locked);
}

#[test]
fn must_keep_keys_do_not_shut_a_door_by_being_there() {
    let mut world = World::new();
    let door = world.create_door("cave_2".to_string());
    world.create_key(Key::MustKeep, door).unwrap();
    let destroy = world.create_key(Key::MustDestroy, door).unwrap();
    world.create_key(Key::MustKeep, door).unwrap();
    assert!(!world.can_pass(door));
    world.despawn(destroy);
    assert!(world.can_pass(door));
    assert_eq!(world.get(door).unwrap().keys.0.len(), 2);
}

#[test]
fn every_must_destroy_key_has_to_go() {
    let mut world = World::new();
    let door = world.create_door("cave_2".to_string());
    let first = world.create_key(Key::MustDestroy, door).unwrap();
    let second = world.create_key(Key::MustDestroy, door).unwrap();
    world.despawn(first);
    assert!(!world.can_pass(door));
    world.despawn(second);
    assert!(world.can_pass(door));
}

#[test]
fn losing_a_must_keep_key_locks_the_door_for_good() {
    let mut world = World::new();
    let door = world.create_door("cave_2".to_string());
    let kept = world.create_key(Key::MustKeep, door).unwrap();
    assert!(world.can_pass(door));
    world.despawn(kept);
    assert!(world.get(door).unwrap().locked);
    assert!(!world.can_pass(door));
    let later = world.create_key(Key::MustDestroy, door).unwrap();
    assert!(!world.can_pass(door));
    world.despawn(later);
    assert!(!world.can_pass(door));
    assert!(world.set_door_target(door, "cave_3".to_string()));
    assert!(!world.can_pass(door));
}

#[test]
fn a_key_needs_a_door() {
    let mut world = World::new();
    let wall = world.spawn(Bundle::wall());
    assert_eq!(world.create_key(Key::MustKeep, wall), None);
    assert_eq!(world.create_key(Key::MustKeep, 17), None);
    assert_eq!(world.next_id(), 1);
}

#[test]
fn a_key_without_a_door_gates_nothing() {
    let mut world = World::new();
    let door = world.create_door("cave_2".to_string());
    let stray = world.spawn(Bundle::key(Key::MustDestroy));
    assert_eq!(world.get(stray).unwrap().key_of, None);
    assert!(world.can_pass(door));
    world.despawn(stray);
    assert!(world.can_pass(door));
    assert!(!world.get(door).unwrap().locked);
}

#[test]
fn keys_forget_a_door_that_goes() {
    let mut world = World::new();
    let door = world.create_door("cave_2".to_string());
    let key = world.create_key(Key::MustKeep, door).unwrap();
    world.despawn(door);
    assert!(!world.contains(door));
    assert!(world.contains(key));
    assert_eq!(world.get(key).unwrap().key_of, None);
    assert_eq!(world.get(key).unwrap().bundle.key, Some(Key::MustKeep));
}

#[test]
fn each_door_keeps_its_own_keys() {
    let mut world = World::new();
    let left = world.create_door("cave_2".to_string());
    let right = world.create_door("cave_3".to_string());
    let a = world.create_key(Key::MustDestroy, left).unwrap();
    let b = world.create_key(Key::MustKeep, right).unwrap();
    let c = world.create_key(Key::MustDestroy, left).unwrap();
    assert_eq!(world.get(left).unwrap().keys.0, vec![a, c]);
    assert_eq!(world.get(right).unwrap().keys.0, vec![b]);
    assert!(world.can_pass(right));
    world.despawn(b);
    assert!(world.get(right).unwrap().locked);
    assert!(!world.get(left).unwrap().locked);
    world.despawn(a);
    assert_eq!(world.get(left).unwrap().keys.0, vec![c]);
}

#[test]
fn set_door_target_changes_doors_only() {
    let mut world = World::new();
    let wall = world.spawn(Bundle::wall());
    let door = world.create_door("cave_2".to_string());
    assert!(!world.set_door_target(wall, "cave_9".to_string()));
    assert!(!world.set_door_target(40, "cave_9".to_string()));
    assert_eq!(world.get(wall).unwrap().bundle, Bundle::wall());
    assert!(world.set_door_target(door, "cave_9".to_string()));
    assert_eq!(world.get(door).unwrap().bundle, Bundle::door("cave_9".to_string()));
}

#[test]
fn single_door_is_the_only_door() {
    let mut world = World::new();
    assert_eq!(world.single_door(), None);
    world.spawn(Bundle::wall());
    let door = world.create_door("cave_2".to_string());
    assert_eq!(world.single_door(), Some(door));
    let other = world.create_door("cave_3".to_string());
    assert_eq!(world.single_door(), None);
    world.despawn(door);
    assert_eq!(world.single_door(), Some(other));
}
