use level_progression::component::{
    rectangle, Bundle, Key, RigidBody, SceneRoot, SerializedColliderConstructor, Transform,
    Weapon, HEIGHT, WIDTH,
};
use level_progression::world::World;

/// The transform at (`x`, `y`), unturned and in its own size.
fn place(x: f32, y: f32) -> Transform {
    Transform::from_xy(x.to_bits(), y.to_bits())
}

#[test]
fn handles_rise_and_are_never_reused() {
    let mut world = World::new();
    assert_eq!(world.next_id(), 0);
    let a = world.spawn(Bundle::wall());
    let b = world.spawn(Bundle::wall());
    assert_eq!((a, b), (0, 1));
    world.despawn(b);
    assert!(!world.contains(b));
    assert!(world.get(b).is_none());
    let c = world.spawn(Bundle::wall());
    assert_eq!(c, 2);
    assert_eq!(world.next_id(), 3);
}

#[test]
fn a_child_needs_a_living_parent() {
    let mut world = World::new();
    let root = world.spawn(Bundle::level_geometry());
    let child = world.spawn_child(root, Bundle::wall()).unwrap();
    assert_eq!(world.get(child).unwrap().child_of, Some(root));
    world.despawn(root);
    assert_eq!(world.spawn_child(root, Bundle::wall()), None);
    assert_eq!(world.spawn_child(77, Bundle::wall()), None);
    assert_eq!(world.next_id(), 2);
}

#[test]
fn despawn_takes_all_that_stands_below() {
    let mut world = World::new();
    let root = world.spawn(Bundle::level_geometry());
    let other = world.spawn(Bundle::level_geometry());
    let child = world.spawn_child(root, Bundle::wall()).unwrap();
    let grandchild = world.spawn_child(child, Bundle::kill_box()).unwrap();
    let cousin = world.spawn_child(other, Bundle::wall()).unwrap();
    world.despawn(root);
    assert!(!world.contains(root));
    assert!(!world.contains(child));
    assert!(!world.contains(grandchild));
    assert!(world.contains(other));
    assert!(world.contains(cousin));
}

#[test]
fn despawn_of_a_branch_leaves_the_parent() {
    let mut world = World::new();
    let root = world.spawn(Bundle::level_geometry());
    let child = world.spawn_child(root, Bundle::wall()).unwrap();
    let grandchild = world.spawn_child(child, Bundle::wall()).unwrap();
    world.despawn(child);
    assert!(world.contains(root));
    assert!(!world.contains(child));
    assert!(!world.contains(grandchild));
    world.despawn(child);
    world.despawn(500);
    assert!(world.contains(root));
}

#[test]
fn a_kept_key_that_goes_with_its_parent_locks_the_door() {
    let mut world = World::new();
    let root = world.spawn(Bundle::level_geometry());
    let door = world.create_door("cave_2".to_string());
    let crate_ = world.spawn_child(root, Bundle::wall()).unwrap();
    let key = world.create_key(Key::MustKeep, door).unwrap();
    let hidden = world.spawn_child(crate_, Bundle::key(Key::MustDestroy)).unwrap();
    assert!(world.contains(hidden));
    assert!(world.can_pass(door));
    world.despawn(key);
    assert!(world.get(door).unwrap().locked);
    world.despawn(root);
    assert!(world.contains(door));
}

#[test]
fn despawn_level_spares_what_is_not_saved() {
    let mut world = World::new();
    let root = world.spawn(Bundle::level_geometry());
    let wall = world.spawn_child(root, Bundle::wall()).unwrap();
    let player = world.spawn(Bundle::player());
    let weapon = world.spawn_child(player, Bundle::weapon(Weapon::Shotgun)).unwrap();
    let bullet = world.spawn(Bundle::bullet());
    let holder = world.spawn_scene_root("shotgun_1".to_string());
    let debug = world.spawn(Bundle::empty());
    let ward = world.spawn_child(debug, Bundle::wall()).unwrap();
    world.despawn_level();
    for gone in [root, wall, player, weapon, holder] {
        assert!(!world.contains(gone));
    }
    for left in [bullet, debug, ward] {
        assert!(world.contains(left));
    }
}

#[test]
fn new_level_spawns_the_player_and_the_boundary() {
    let mut world = World::new();
    world.new_level();
    assert_eq!(world.next_id(), 7);
    let at = |x: f32, y: f32| Some(place(x, y));
    let size = |w: i32, h: i32| Some(SerializedColliderConstructor { x_length: w, y_length: h });

    let player = world.get(0).unwrap();
    assert_eq!(player.bundle.name.as_deref(), Some("Player"));
    assert_eq!(player.bundle.transform, at(-400.0, 0.0));
    assert!(player.bundle.player && player.bundle.serialize);
    assert_eq!(player.bundle.rigid_body, Some(RigidBody::Dynamic));
    assert_eq!(player.child_of, None);

    let root = world.get(1).unwrap();
    assert_eq!(root.bundle.name.as_deref(), Some("Level Geometry"));
    assert_eq!(root.bundle.transform, at(0.0, 0.0));
    assert!(root.bundle.level_geometry && root.bundle.serialize);
    assert_eq!(root.child_of, None);

    let kill_box = world.get(2).unwrap();
    assert_eq!(kill_box.bundle.name, None);
    assert_eq!(kill_box.bundle.transform, at(0.0, -200.0));
    assert_eq!(kill_box.bundle.collider, size(128, 25));
    assert!(kill_box.bundle.kill_box && kill_box.bundle.sensor);
    assert!(kill_box.bundle.collision_events && kill_box.bundle.serialize);
    assert_eq!(kill_box.bundle.rigid_body, Some(RigidBody::Static));
    assert_eq!(kill_box.child_of, Some(1));

    let walls = [
        (3, "Bottom Wall", at(0.0, -360.0), size(1280, 25)),
        (4, "Left Wall", at(-640.0, 0.0), size(25, 720)),
        (5, "Right Wall", at(640.0, 0.0), size(25, 720)),
        (6, "Top Wall", at(0.0, 360.0), size(1280, 25)),
    ];
    for (id, name, transform, collider) in walls {
        let wall = world.get(id).unwrap();
        assert_eq!(wall.bundle.name.as_deref(), Some(name));
        assert_eq!(wall.bundle.transform, transform);
        assert_eq!(wall.bundle.collider, collider);
        assert!(wall.bundle.wall && wall.bundle.serialize && !wall.bundle.sensor);
        assert_eq!(wall.bundle.rigid_body, Some(RigidBody::Static));
        assert_eq!(wall.child_of, Some(1));
    }
    assert_eq!((WIDTH, HEIGHT), (1280, 720));
    assert_eq!(f32::from_bits(player.bundle.transform.unwrap().x), -400.0);
    assert_eq!(f32::from_bits(kill_box.bundle.transform.unwrap().y), -200.0);
}

#[test]
fn new_level_counts_on_from_what_is_there() {
    let mut world = World::new();
    world.spawn(Bundle::bullet());
    world.spawn(Bundle::bullet());
    world.new_level();
    assert_eq!(world.next_id(), 9);
    assert!(world.get(2).unwrap().bundle.player);
    assert!(world.get(3).unwrap().bundle.level_geometry);
    for id in 4..9 {
        assert_eq!(world.get(id).unwrap().child_of, Some(3));
    }
}

#[test]
fn bundles_carry_what_their_kind_needs() {
    let door = Bundle::door("cave_2".to_string());
    assert!(door.serialize && door.sensor && door.collision_events);
    assert_eq!(door.rigid_body, Some(RigidBody::Static));
    assert_eq!(door.transform, Some(Transform::default()));
    assert_eq!(door.collider, Some(rectangle(20, 20)));
    assert_eq!(door.door.as_ref().unwrap().0, "cave_2");

    let key = Bundle::key(Key::MustKeep);
    assert!(key.serialize && key.sensor && key.collision_events);
    assert_eq!(key.collider, Some(rectangle(20, 20)));
    assert_eq!(key.key, Some(Key::MustKeep));

    let bullet = Bundle::bullet();
    assert!(bullet.bullet && !bullet.serialize);
    assert_eq!(bullet.rigid_body, Some(RigidBody::Dynamic));

    let weapon = Bundle::weapon(Weapon::AssaultRifle);
    assert_eq!(weapon.name.as_deref(), Some("Assault Rifle"));
    assert_eq!(weapon.weapon, Some(Weapon::AssaultRifle));
    assert_eq!(Weapon::Shotgun.name(), "Shotgun");
    assert_eq!(Weapon::GravityGun.name(), "Gravity Gun");

    assert_eq!(Bundle::empty().with_name("x".to_string()).name.as_deref(), Some("x"));
    assert_eq!(
        Bundle::wall().with_transform(place(3.0, -4.0)).transform,
        Some(place(3.0, -4.0))
    );
    assert_eq!(Bundle::wall().with_collider(rectangle(200, 25)).collider, Some(rectangle(200, 25)));
    assert_eq!(Bundle::wall().clone(), Bundle::wall());
}

#[test]
fn a_save_keeps_all_of_a_bundle_but_the_bullet_marker() {
    let mut odd = Bundle::door("cave_2".to_string()).with_name("odd".to_string());
    odd.bullet = true;
    odd.serialize = false;
    let kept = odd.persistent();
    assert!(kept.serialize);
    assert!(!kept.bullet);
    let mut expected = Bundle::door("cave_2".to_string()).with_name("odd".to_string());
    expected.serialize = true;
    assert_eq!(kept, expected);
    assert_eq!(kept.persistent(), kept);
}

#[test]
fn finished_placeholders_are_cleared_away() {
    let mut world = World::new();
    let holder = world.spawn_scene_root("cave_2".to_string());
    assert_eq!(world.get(holder).unwrap().scene_root, Some(SceneRoot::Pending));
    assert_eq!(world.get(holder).unwrap().bundle.name.as_deref(), Some("cave_2"));
    let waiting = world.spawn_child(holder, Bundle::wall()).unwrap();
    world.remove_dynamic_scene_root();
    assert!(world.contains(holder));
    assert_eq!(world.get(waiting).unwrap().child_of, Some(holder));
}

#[test]
fn despawn_children_leaves_the_parent() {
    let mut world = World::new();
    let root = world.spawn(Bundle::level_geometry());
    let a = world.spawn_child(root, Bundle::wall()).unwrap();
    let b = world.spawn_child(a, Bundle::wall()).unwrap();
    let c = world.spawn_child(root, Bundle::wall()).unwrap();
    let other = world.spawn(Bundle::wall());
    world.despawn_children(root);
    for gone in [a, b, c] {
        assert!(!world.contains(gone));
    }
    assert!(world.contains(root));
    assert!(world.contains(other));
    world.despawn_children(900);
    assert!(world.contains(root));
}

#[test]
fn select_weapon_replaces_what_the_player_carries() {
    let mut world = World::new();
    let player = world.spawn(Bundle::player());
    let first = world.select_weapon(player, Weapon::Shotgun).unwrap();
    assert_eq!(world.get(first).unwrap().bundle, Bundle::weapon(Weapon::Shotgun));
    assert_eq!(world.get(first).unwrap().child_of, Some(player));
    let second = world.select_weapon(player, Weapon::GravityGun).unwrap();
    assert!(!world.contains(first));
    assert_eq!(world.get(second).unwrap().bundle, Bundle::weapon(Weapon::GravityGun));
    assert!(!world.get(second).unwrap().bundle.selected_weapon);
    assert_eq!(world.select_weapon(99, Weapon::Shotgun), None);
    world.despawn(player);
    assert_eq!(world.select_weapon(player, Weapon::Shotgun), None);
    assert_eq!(world.next_id(), 3);
}

#[test]
fn pick_up_makes_the_weapon_the_selected_one() {
    let mut world = World::new();
    let player = world.spawn(Bundle::player());
    let mut carried = Bundle::weapon(Weapon::Shotgun);
    carried.selected_weapon = true;
    let old = world.spawn_child(player, carried).unwrap();
    let lying = world.spawn(Bundle::weapon(Weapon::AssaultRifle));
    let wall = world.spawn(Bundle::wall());

    assert_eq!(world.pick_up(player, wall), None);
    assert_eq!(world.pick_up(player, 99), None);
    assert_eq!(world.pick_up(99, lying), None);
    assert!(world.contains(old) && world.contains(lying));

    let taken = world.pick_up(player, lying).unwrap();
    assert!(!world.contains(old));
    assert!(!world.contains(lying));
    let mut expected = Bundle::weapon(Weapon::AssaultRifle);
    expected.selected_weapon = true;
    assert_eq!(world.get(taken).unwrap().bundle, expected);
    assert_eq!(world.get(taken).unwrap().child_of, Some(player));
    assert_eq!(world.pick_up(player, lying), None);
}

#[test]
fn a_copy_stands_beside_what_it_copies() {
    let mut world = World::new();
    let root = world.spawn(Bundle::level_geometry());
    let door = world.create_door("cave_2".to_string());
    let key = world.create_key(Key::MustKeep, door).unwrap();
    let wall = world
        .spawn_child(root, Bundle::wall().with_name("w".to_string()).with_collider(rectangle(9, 9)))
        .unwrap();
    let at = place(5.0, -6.0);

    let copy = world.clone_and_spawn(wall, at).unwrap();
    let record = world.get(copy).unwrap();
    assert_eq!(record.child_of, Some(root));
    assert_eq!(
        record.bundle,
        Bundle::wall().with_name("w".to_string()).with_collider(rectangle(9, 9)).with_transform(at)
    );

    let stray = world.clone_and_spawn(key, at).unwrap();
    assert_eq!(world.get(stray).unwrap().key_of, None);
    assert_eq!(world.get(stray).unwrap().bundle.key, Some(Key::MustKeep));
    assert_eq!(world.get(door).unwrap().keys.0, vec![key]);

    let twin = world.clone_and_spawn(door, at).unwrap();
    assert!(world.get(twin).unwrap().keys.0.is_empty());
    assert_eq!(world.clone_and_spawn(77, at), None);
}

#[test]
fn moving_changes_one_component() {
    let mut world = World::new();
    let wall = world.spawn(Bundle::wall());
    assert!(world.set_transform(wall, place(1.0, 2.0)));
    assert_eq!(
        world.get(wall).unwrap().bundle,
        Bundle::wall().with_transform(place(1.0, 2.0))
    );
    assert!(!world.set_transform(5, place(1.0, 2.0)));
    world.despawn(wall);
    assert!(!world.set_transform(wall, place(1.0, 2.0)));
}
