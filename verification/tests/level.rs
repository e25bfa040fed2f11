use level_progression::component::{Bundle, Key, SceneRoot, Transform};
use level_progression::level::{Controller, Handler, Level, Request};

/// The transform at (`x`, `y`), unturned and in its own size.
fn place(x: f32, y: f32) -> Transform {
    Transform::from_xy(x.to_bits(), y.to_bits())
}

fn load(placeholder: usize, level: &str) -> Request {
    Request::Load { placeholder, path: format!("scenes/{level}.scn.ron") }
}

/// A controller whose world holds a player below no parent, a root with one
/// wall, and a door to "cave_2".
fn small_level() -> (Controller, usize, usize, usize) {
    let mut c = Controller::new();
    c.set_level("cave_1".to_string());
    let player = c.spawn(Bundle::player().with_transform(place(12.0, 34.0)));
    let root = c.spawn(Bundle::level_geometry());
    c.spawn_child(root, Bundle::wall()).unwrap();
    let door = c.create_door("cave_2".to_string());
    (c, player, root, door)
}

#[test]
fn a_game_starts_in_the_default_level() {
    let mut c = Controller::new();
    assert_eq!(c.level().0, "shotgun_1");
    assert_eq!(Level::default(), Level("shotgun_1".to_string()));
    assert_eq!(c.world().next_id(), 0);
    assert_eq!(c.deserialize_level(), load(0, "shotgun_1"));
    let holder = c.world().get(0).unwrap();
    assert_eq!(holder.scene_root, Some(SceneRoot::Pending));
    assert_eq!(holder.bundle.name.as_deref(), Some("shotgun_1"));
    assert!(!holder.bundle.serialize);
}

#[test]
fn door_with_a_must_destroy_key_opens_once_the_key_is_shot() {
    let (mut c, player, root, door) = small_level();
    let key = c.create_key(Key::MustDestroy, door).unwrap();
    let bullet = c.spawn(Bundle::bullet());

    assert_eq!(c.collision(door, player), (None, None));
    assert_eq!(c.level().0, "cave_1");
    assert!(c.world().contains(root));

    assert_eq!(c.collision(key, bullet), (Some(Handler::DestroyKey), None));
    assert!(!c.world().contains(key));
    assert!(!c.world().contains(bullet));
    assert_eq!(c.level().0, "cave_1");

    let next = c.world().next_id();
    assert_eq!(c.collision(door, player), (Some(Handler::Door), Some(load(next, "cave_2"))));
    assert_eq!(c.level().0, "cave_2");
    for gone in [player, root, door] {
        assert!(!c.world().contains(gone));
    }
    assert_eq!(c.world().get(next).unwrap().scene_root, Some(SceneRoot::Pending));

    let mut cave_2 = Controller::new();
    cave_2.set_level("cave_2".to_string());
    cave_2.new_level();
    let text = match cave_2.serialize_level() {
        Request::Save { path, text } => {
            assert_eq!(path, "assets/scenes/cave_2.scn.ron");
            text
        },
        other => panic!("{other:?}"),
    };
    assert!(c.scene_loaded(next, &text));
    let new_root = c.world().get(next + 2).unwrap();
    assert!(new_root.bundle.level_geometry);
    assert_eq!(new_root.child_of, Some(next));
    c.remove_dynamic_scene_root();
    assert!(!c.world().contains(next));
    assert_eq!(c.world().get(next + 2).unwrap().child_of, None);
    assert_eq!(c.world().get(next + 3).unwrap().child_of, Some(next + 2));
}

#[test]
fn a_level_without_a_file_is_empty() {
    let (mut c, player, _, door) = small_level();
    let next = c.world().next_id();
    assert_eq!(c.collision(door, player).0, Some(Handler::Door));
    assert!(c.scene_loaded(next, ""));
    assert_eq!(c.world().next_id(), next + 1);
    c.remove_dynamic_scene_root();
    for id in 0..=next {
        assert!(!c.world().contains(id));
    }
}

#[test]
fn door_that_lost_a_must_keep_key_never_opens() {
    let (mut c, player, root, door) = small_level();
    let kept = c.create_key(Key::MustKeep, door).unwrap();
    let destroy = c.create_key(Key::MustDestroy, door).unwrap();
    c.despawn(kept);
    assert!(c.world().get(door).unwrap().locked);
    assert_eq!(c.collision(door, player), (None, None));
    c.despawn(destroy);
    assert_eq!(c.collision(door, player), (None, None));
    let later = c.create_key(Key::MustDestroy, door).unwrap();
    c.despawn(later);
    assert_eq!(c.collision(door, player), (None, None));
    assert_eq!(c.level().0, "cave_1");
    assert!(c.world().contains(root));
}

#[test]
fn a_shot_must_keep_key_locks_its_door() {
    let (mut c, player, _, door) = small_level();
    let kept = c.create_key(Key::MustKeep, door).unwrap();
    let bullet = c.spawn(Bundle::bullet());
    assert_eq!(c.collision(kept, bullet).0, Some(Handler::DestroyKey));
    assert!(c.world().get(door).unwrap().locked);
    assert_eq!(c.collision(door, player), (None, None));
}

#[test]
fn kill_box_resets_the_level_in_place() {
    let (mut c, player, root, door) = small_level();
    let text = match c.serialize_level() {
        Request::Save { text, .. } => text,
        other => panic!("{other:?}"),
    };
    let kill_box = c.spawn_child(root, Bundle::kill_box()).unwrap();
    let next = c.world().next_id();
    assert_eq!(c.collision(kill_box, player), (Some(Handler::KillBox), Some(load(next, "cave_1"))));
    assert_eq!(c.level().0, "cave_1");
    for gone in [player, root, door, kill_box] {
        assert!(!c.world().contains(gone));
    }
    assert!(c.scene_loaded(next, &text));
    let respawned = c.world().get(next + 1).unwrap();
    assert!(respawned.bundle.player);
    assert_eq!(respawned.bundle.transform, Some(place(12.0, 34.0)));
    assert!(c.world().get(next + 2).unwrap().bundle.level_geometry);
    assert_eq!(c.world().next_id(), next + 5);
}

#[test]
fn the_kill_box_is_tried_before_the_door() {
    let (mut c, player, _, _) = small_level();
    let mut both = Bundle::door("cave_7".to_string());
    both.kill_box = true;
    let both = c.spawn(both);
    assert_eq!(c.route(both, player), Some(Handler::KillBox));
    assert_eq!(c.collision(both, player).0, Some(Handler::KillBox));
    assert_eq!(c.level().0, "cave_1");
}

#[test]
fn the_door_is_tried_before_the_key() {
    let (mut c, _, _, _) = small_level();
    let mut both = Bundle::door("cave_7".to_string());
    both.key = Some(Key::MustKeep);
    let both = c.spawn(both);
    let mut shooter = Bundle::player();
    shooter.bullet = true;
    let shooter = c.spawn(shooter);
    assert_eq!(c.route(both, shooter), Some(Handler::Door));
}

#[test]
fn other_pairs_are_ignored() {
    let (mut c, player, root, door) = small_level();
    let key = c.create_key(Key::MustKeep, door).unwrap();
    let bullet = c.spawn(Bundle::bullet());
    let kill_box = c.spawn(Bundle::kill_box());
    let before = c.world().next_id();
    for (first, second) in [
        (player, door),
        (player, kill_box),
        (bullet, key),
        (key, player),
        (kill_box, bullet),
        (door, bullet),
        (root, player),
        (key, 900),
        (900, player),
        (door, door),
    ] {
        assert_eq!(c.collision(first, second), (None, None), "{first} {second}");
    }
    assert_eq!(c.world().next_id(), before);
    assert_eq!(c.level().0, "cave_1");
    for left in [player, root, door, key, bullet, kill_box] {
        assert!(c.world().contains(left));
    }
}

#[test]
fn reset_keeps_the_identifier_and_transition_sets_it() {
    let (mut c, _, _, _) = small_level();
    let next = c.world().next_id();
    assert_eq!(c.reset_level(), load(next, "cave_1"));
    assert_eq!(c.level().0, "cave_1");
    assert_eq!(c.transition("cave_5".to_string()), load(next + 1, "cave_5"));
    assert_eq!(c.level().0, "cave_5");
    assert_eq!(c.world().get(next + 1).unwrap().bundle.name.as_deref(), Some("cave_5"));
    c.new_level();
    c.despawn_level();
    c.remove_dynamic_scene_root();
    assert_eq!(c.level().0, "cave_5");
}

#[test]
fn two_resets_leave_one_load() {
    let (mut c, _, _, _) = small_level();
    let stray = c.spawn(Bundle::bullet());
    let text = match c.serialize_level() {
        Request::Save { text, .. } => text,
        other => panic!("{other:?}"),
    };
    let next = c.world().next_id();
    let first = c.reset_level();
    let second = c.reset_level();
    assert_eq!(first, load(next, "cave_1"));
    assert_eq!(second, load(next + 1, "cave_1"));
    assert!(!c.world().contains(next));
    assert!(c.world().contains(next + 1));
    assert_eq!(c.world().next_id(), next + 2);

    assert!(!c.scene_loaded(next, &text));
    assert_eq!(c.world().next_id(), next + 2);
    assert!(c.scene_loaded(next + 1, &text));
    assert!(!c.scene_loaded(next + 1, &text));
    c.remove_dynamic_scene_root();
    let mut roots = 0;
    let mut players = 0;
    for id in 0..c.world().next_id() {
        if let Some(e) = c.world().get(id) {
            roots += e.bundle.level_geometry as usize;
            players += e.bundle.player as usize;
        }
    }
    assert_eq!((roots, players), (1, 1));
    assert!(c.world().contains(stray));
}

#[test]
fn a_reset_abandons_a_load_that_is_under_way() {
    let (mut c, _, _, _) = small_level();
    let pending = match c.reset_level() {
        Request::Load { placeholder, .. } => placeholder,
        other => panic!("{other:?}"),
    };
    let next = match c.transition("cave_2".to_string()) {
        Request::Load { placeholder, .. } => placeholder,
        other => panic!("{other:?}"),
    };
    assert!(!c.world().contains(pending));
    assert!(!c.scene_loaded(pending, ""));
    assert!(c.scene_loaded(next, ""));
}

#[test]
fn copy_saves_under_the_old_name_and_loads_the_new() {
    let (mut c, player, _, _) = small_level();
    let next = c.world().next_id();
    let (save, load_new) = c.copy_level("cave_1b".to_string());
    match save {
        Request::Save { path, text } => {
            assert_eq!(path, "assets/scenes/cave_1.scn.ron");
            assert_eq!(text.lines().count(), 4);
        },
        other => panic!("{other:?}"),
    }
    assert_eq!(load_new, load(next, "cave_1b"));
    assert_eq!(c.level().0, "cave_1b");
    assert!(!c.world().contains(player));
}

#[test]
fn make_level_bootstraps_and_saves_under_the_new_name() {
    let (mut c, player, _, _) = small_level();
    let next = c.world().next_id();
    match c.make_level("cave_9".to_string()) {
        Request::Save { path, text } => {
            assert_eq!(path, "assets/scenes/cave_9.scn.ron");
            assert_eq!(text.lines().count(), 7);
        },
        other => panic!("{other:?}"),
    }
    assert_eq!(c.level().0, "cave_9");
    assert!(!c.world().contains(player));
    assert!(c.world().get(next).unwrap().bundle.player);
    assert_eq!(c.world().next_id(), next + 7);
}

#[test]
fn new_level_touches_neither_identifier_nor_content() {
    let (mut c, player, root, door) = small_level();
    c.new_level();
    assert_eq!(c.level().0, "cave_1");
    for left in [player, root, door] {
        assert!(c.world().contains(left));
    }
}

#[test]
fn editor_operations_reach_the_world() {
    let mut c = Controller::new();
    let door = c.create_door("cave_2".to_string());
    assert!(c.set_door_target(door, "cave_3".to_string()));
    assert!(!c.set_door_target(door + 1, "cave_3".to_string()));
    let key = c.create_key(Key::MustDestroy, door).unwrap();
    assert_eq!(c.create_key(Key::MustDestroy, key), None);
    assert_eq!(c.spawn_child(50, Bundle::wall()), None);
    assert!(!c.world().can_pass(door));
    c.despawn(key);
    assert!(c.world().can_pass(door));
    assert_eq!(c.world().get(door).unwrap().bundle.door.as_ref().unwrap().0, "cave_3");
}

#[test]
fn the_controller_hands_on_what_the_game_does() {
    let mut c = Controller::new();
    let player = c.spawn(Bundle::player());
    let lying = c.spawn(Bundle::weapon(level_progression::component::Weapon::Shotgun));
    let carried = c.select_weapon(player, level_progression::component::Weapon::GravityGun).unwrap();
    let taken = c.pick_up(player, lying).unwrap();
    assert!(c.world().contains(carried));
    assert!(c.world().get(taken).unwrap().bundle.selected_weapon);
    c.despawn_children(player);
    assert!(!c.world().contains(carried) && !c.world().contains(taken));
    assert!(c.set_transform(player, place(3.0, 4.0)));
    let copy = c.clone_and_spawn(player, place(0.0, 0.0)).unwrap();
    assert!(c.world().get(copy).unwrap().bundle.player);
    assert_eq!(c.world().get(player).unwrap().bundle.transform, Some(place(3.0, 4.0)));
}
