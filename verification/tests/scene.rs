use level_progression::component::{Bundle, Key, SceneRoot, Transform, Weapon};
use level_progression::scene::{scene_asset, scene_file, Scene, SceneEntity};
use level_progression::world::World;

/// The transform at (`x`, `y`), unturned and in its own size.
fn place(x: f32, y: f32) -> Transform {
    Transform::from_xy(x.to_bits(), y.to_bits())
}

fn entity(bundle: Bundle, child_of: Option<usize>, key_of: Option<usize>) -> SceneEntity {
    SceneEntity { bundle, child_of, key_of, locked: false }
}

/// A world with gaps, unsaved entities and every relation.
fn busy_world() -> World {
    let mut world = World::new();
    world.spawn(Bundle::bullet());
    let gone = world.spawn(Bundle::wall());
    let player = world.spawn(Bundle::player().with_transform(place(-7.0, 9.0)));
    world.spawn_child(player, Bundle::weapon(Weapon::GravityGun)).unwrap();
    let root = world.spawn(Bundle::level_geometry().with_name("Level Geometry".to_string()));
    world.spawn(Bundle::bullet());
    let door = world.create_door("cave_2".to_string());
    world.spawn_child(root, Bundle::wall()).unwrap();
    world.create_key(Key::MustDestroy, door).unwrap();
    let debug = world.spawn(Bundle::empty());
    world.spawn_child(debug, Bundle::kill_box()).unwrap();
    world.spawn_child(root, Bundle::key(Key::MustKeep)).unwrap();
    world.despawn(gone);
    world
}

#[test]
fn paths_are_made_of_the_identifier() {
    assert_eq!(scene_file("shotgun_1"), "assets/scenes/shotgun_1.scn.ron");
    assert_eq!(scene_asset("shotgun_1"), "scenes/shotgun_1.scn.ron");
    assert_eq!(scene_file(""), "assets/scenes/.scn.ron");
    assert_eq!(scene_asset("a/b c"), "scenes/a/b c.scn.ron");
}

#[test]
fn snapshot_holds_the_saved_entities_by_place() {
    let scene = busy_world().scene();
    let expected = vec![
        entity(Bundle::player().with_transform(place(-7.0, 9.0)), None, None),
        entity(Bundle::weapon(Weapon::GravityGun), Some(0), None),
        entity(Bundle::level_geometry().with_name("Level Geometry".to_string()), None, None),
        entity(Bundle::door("cave_2".to_string()), None, None),
        entity(Bundle::wall(), Some(2), None),
        entity(Bundle::key(Key::MustDestroy), None, Some(3)),
        entity(Bundle::kill_box(), None, None),
        entity(Bundle::key(Key::MustKeep), Some(2), None),
    ];
    assert_eq!(scene.entities, expected);
    assert!(scene.is_valid());
}

#[test]
fn snapshot_of_nothing_is_empty() {
    let mut world = World::new();
    assert!(world.scene().entities.is_empty());
    world.spawn(Bundle::bullet());
    world.spawn_scene_root("cave_1".to_string());
    assert!(world.scene().entities.is_empty());
}

#[test]
fn snapshot_keeps_locks_and_forgets_bullets() {
    let mut world = World::new();
    let door = world.create_door("cave_2".to_string());
    let kept = world.create_key(Key::MustKeep, door).unwrap();
    world.despawn(kept);
    assert!(world.get(door).unwrap().locked);
    let mut odd = Bundle::wall();
    odd.bullet = true;
    world.spawn(odd);
    let scene = world.scene();
    let mut locked_door = entity(Bundle::door("cave_2".to_string()), None, None);
    locked_door.locked = true;
    assert_eq!(scene.entities, vec![locked_door, entity(Bundle::wall(), None, None)]);

    let mut fresh = World::new();
    let holder = fresh.spawn_scene_root("cave_1".to_string());
    assert!(fresh.instantiate(holder, &scene));
    assert!(fresh.get(1).unwrap().locked);
    assert!(!fresh.can_pass(1));
    assert!(!fresh.get(2).unwrap().locked);
    assert_eq!(fresh.scene(), scene);
}

#[test]
fn a_lock_outlasts_save_reset_and_load() {
    let mut world = World::new();
    let door = world.create_door("cave_2".to_string());
    let kept = world.create_key(Key::MustKeep, door).unwrap();
    let open = world.create_door("cave_3".to_string());
    world.despawn(kept);
    let scene = world.scene();
    world.despawn_level();
    assert!(!world.contains(door));
    let holder = world.spawn_scene_root("cave_1".to_string());
    assert!(world.instantiate(holder, &scene));
    world.remove_dynamic_scene_root();
    let (door, open) = (holder + 1 + door, holder + open);
    assert!(world.get(door).unwrap().locked);
    assert!(!world.can_pass(door));
    assert!(world.can_pass(open));
    let later = world.create_key(Key::MustDestroy, door).unwrap();
    world.despawn(later);
    assert!(!world.can_pass(door));
}

#[test]
fn a_snapshot_comes_to_life_below_its_placeholder() {
    let scene = busy_world().scene();
    let mut world = World::new();
    world.spawn(Bundle::bullet());
    let holder = world.spawn_scene_root("cave_1".to_string());
    assert!(world.instantiate(holder, &scene));
    assert_eq!(world.next_id(), 10);
    assert_eq!(world.get(holder).unwrap().scene_root, Some(SceneRoot::Instanced));
    let parents: Vec<Option<usize>> = (2..10).map(|id| world.get(id).unwrap().child_of).collect();
    assert_eq!(
        parents,
        vec![Some(1), Some(2), Some(1), Some(1), Some(4), Some(1), Some(1), Some(4)]
    );
    assert_eq!(world.get(7).unwrap().key_of.unwrap().0, 5);
    assert_eq!(world.get(5).unwrap().keys.0, vec![7]);
    assert_eq!(world.get(9).unwrap().key_of, None);
    assert!(!world.can_pass(5));
    for (id, saved) in (2..10).zip(&scene.entities) {
        assert_eq!(world.get(id).unwrap().bundle, saved.bundle);
    }

    world.remove_dynamic_scene_root();
    assert!(!world.contains(holder));
    let parents: Vec<Option<usize>> = (2..10).map(|id| world.get(id).unwrap().child_of).collect();
    assert_eq!(parents, vec![None, Some(2), None, None, Some(4), None, None, Some(4)]);
    assert_eq!(world.scene(), scene);
}

#[test]
fn saving_what_was_loaded_gives_the_same_snapshot() {
    let saved = busy_world().scene();
    let mut world = World::new();
    let holder = world.spawn_scene_root("cave_1".to_string());
    assert!(world.instantiate(holder, &saved));
    assert_eq!(world.scene(), saved);
    world.remove_dynamic_scene_root();
    assert_eq!(world.scene(), saved);
    world.despawn_level();
    let again = world.spawn_scene_root("cave_1".to_string());
    assert!(world.instantiate(again, &saved));
    assert_eq!(world.scene(), saved);
}

#[test]
fn only_a_pending_placeholder_takes_a_snapshot() {
    let scene = busy_world().scene();
    let mut world = World::new();
    let wall = world.spawn(Bundle::wall());
    let holder = world.spawn_scene_root("cave_1".to_string());
    assert!(!world.instantiate(wall, &scene));
    assert!(!world.instantiate(99, &scene));
    assert_eq!(world.next_id(), 2);
    assert!(world.instantiate(holder, &scene));
    assert!(!world.instantiate(holder, &scene));
    assert_eq!(world.next_id(), 10);
    world.despawn(holder);
    assert!(!world.instantiate(holder, &scene));
}

#[test]
fn an_unsound_snapshot_is_not_brought_to_life() {
    let forward_parent = Scene {
        entities: vec![entity(Bundle::wall(), Some(1), None), entity(Bundle::wall(), None, None)],
    };
    let own_parent = Scene { entities: vec![entity(Bundle::wall(), Some(0), None)] };
    let no_door = Scene {
        entities: vec![
            entity(Bundle::wall(), None, None),
            entity(Bundle::key(Key::MustKeep), None, Some(0)),
        ],
    };
    let no_key = Scene {
        entities: vec![
            entity(Bundle::door("cave_2".to_string()), None, None),
            entity(Bundle::wall(), None, Some(0)),
        ],
    };
    let late_door = Scene {
        entities: vec![
            entity(Bundle::key(Key::MustKeep), None, Some(1)),
            entity(Bundle::door("cave_2".to_string()), None, None),
        ],
    };
    for scene in [forward_parent, own_parent, no_door, no_key, late_door] {
        assert!(!scene.is_valid());
        let mut world = World::new();
        let holder = world.spawn_scene_root("cave_1".to_string());
        assert!(!world.instantiate(holder, &scene));
        assert_eq!(world.next_id(), 1);
        assert_eq!(world.get(holder).unwrap().scene_root, Some(SceneRoot::Pending));
    }
    assert!(Scene { entities: vec![] }.is_valid());
}

#[test]
fn what_is_loaded_is_saved_again_whatever_the_file_said() {
    let mut odd = Bundle::wall();
    odd.bullet = true;
    odd.serialize = false;
    let scene = Scene { entities: vec![entity(odd, None, None)] };
    let mut world = World::new();
    let holder = world.spawn_scene_root("cave_1".to_string());
    assert!(world.instantiate(holder, &scene));
    assert_eq!(world.get(1).unwrap().bundle, Bundle::wall());
    assert_eq!(world.scene().entities, vec![entity(Bundle::wall(), None, None)]);
}
