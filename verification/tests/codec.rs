use level_progression::codec::{decode, encode};
use level_progression::component::{rectangle, Bundle, Key, Transform, Weapon};
use level_progression::scene::{Scene, SceneEntity};
use level_progression::world::World;

/// The transform at (`x`, `y`), unturned and in its own size.
fn place(x: f32, y: f32) -> Transform {
    Transform::from_xy(x.to_bits(), y.to_bits())
}

fn entity(bundle: Bundle, child_of: Option<usize>, key_of: Option<usize>) -> SceneEntity {
    SceneEntity { bundle, child_of, key_of, locked: false }
}

fn one(bundle: Bundle) -> Scene {
    Scene { entities: vec![entity(bundle, None, None)] }
}

#[test]
fn each_entity_is_one_line() {
    let mut world = World::new();
    world.new_level();
    let door = world.create_door("cave_2".to_string());
    world.create_key(Key::MustKeep, door).unwrap();
    let text = encode(&world.scene());
    let expected = "\
_ _ 6:Player 3284664320,0,0,0,0,0,1065353216,1065353216,1065353216,1065353216 _ dynamic _ _ _ 1001000000
_ _ 14:Level Geometry 0,0,0,0,0,0,1065353216,1065353216,1065353216,1065353216 _ _ _ _ _ 1000100000
1 _ _ 0,3276275712,0,0,0,0,1065353216,1065353216,1065353216,1065353216 128,25 static _ _ _ 1110001000
1 _ 11:Bottom Wall 0,3283353600,0,0,0,0,1065353216,1065353216,1065353216,1065353216 1280,25 static _ _ _ 1000010000
1 _ 9:Left Wall 3290431488,0,0,0,0,0,1065353216,1065353216,1065353216,1065353216 25,720 static _ _ _ 1000010000
1 _ 10:Right Wall 1142947840,0,0,0,0,0,1065353216,1065353216,1065353216,1065353216 25,720 static _ _ _ 1000010000
1 _ 8:Top Wall 0,1135869952,0,0,0,0,1065353216,1065353216,1065353216,1065353216 1280,25 static _ _ _ 1000010000
_ _ _ 0,0,0,0,0,0,1065353216,1065353216,1065353216,1065353216 20,20 static 6:cave_2 _ _ 1110000000
_ 7 _ 0,0,0,0,0,0,1065353216,1065353216,1065353216,1065353216 20,20 static _ must_keep _ 1110000000
";
    assert_eq!(text, expected);
    assert_eq!(decode(expected), Some(world.scene()));
}

#[test]
fn the_empty_snapshot_is_the_empty_text() {
    assert_eq!(encode(&Scene { entities: vec![] }), "");
    assert_eq!(decode(""), Some(Scene { entities: vec![] }));
}

#[test]
fn every_field_is_read_back() {
    let mut all = Bundle::empty();
    all.serialize = true;
    all.sensor = true;
    all.collision_events = true;
    all.player = true;
    all.level_geometry = true;
    all.wall = true;
    all.kill_box = true;
    all.bullet = true;
    all.selected_weapon = true;
    let scenes = [
        one(Bundle::empty()),
        one(all),
        one(Bundle::weapon(Weapon::Shotgun)),
        one(Bundle::weapon(Weapon::AssaultRifle)),
        one(Bundle::weapon(Weapon::GravityGun)),
        one(Bundle::key(Key::MustDestroy)),
        one(Bundle::key(Key::MustKeep)),
        one(Bundle::player()),
        one(Bundle::wall().with_transform(place(f32::MIN, f32::MAX))),
        one(Bundle::wall().with_transform(place(f32::NAN, -0.0))),
        one(Bundle::wall().with_transform(place(0.1, f32::INFINITY))),
        one(Bundle::wall().with_transform(Transform {
            x: 1,
            y: 2,
            z: 3,
            rotation_x: 4,
            rotation_y: 5,
            rotation_z: 6,
            rotation_w: 7,
            scale_x: 8,
            scale_y: 9,
            scale_z: u32::MAX,
        })),
        one(Bundle::wall().with_collider(rectangle(-1, 0))),
        one(Bundle::wall().with_collider(rectangle(i32::MAX, i32::MIN))),
        Scene {
            entities: vec![
                entity(Bundle::door(String::new()), None, None),
                entity(Bundle::key(Key::MustKeep), Some(0), Some(0)),
                entity(Bundle::wall(), Some(usize::MAX), Some(usize::MAX)),
            ],
        },
    ];
    for scene in scenes {
        assert_eq!(decode(&encode(&scene)), Some(scene));
    }
}

#[test]
fn names_may_hold_anything() {
    for name in ["", " ", "_", "a b", "line\nbreak", "12:34", "né — 漢字 🎮", "-", "0"] {
        let scene = Scene {
            entities: vec![
                entity(Bundle::door(name.to_string()).with_name(name.to_string()), None, None),
                entity(Bundle::wall(), Some(0), None),
            ],
        };
        let text = encode(&scene);
        assert_eq!(decode(&text), Some(scene), "{name:?}");
    }
    assert_eq!(
        encode(&one(Bundle::empty().with_name("né 漢".to_string()))),
        "_ _ 4:né 漢 _ _ _ _ _ _ 0000000000\n"
    );
}

#[test]
fn the_lock_is_the_last_flag() {
    let mut door = entity(Bundle::door("cave_2".to_string()), None, None);
    door.locked = true;
    let scene = Scene { entities: vec![door] };
    let text = "_ _ _ 0,0,0,0,0,0,1065353216,1065353216,1065353216,1065353216 20,20 static 6:cave_2 _ _ 1110000001\n";
    assert_eq!(encode(&scene), text);
    assert_eq!(decode(text), Some(scene));
    let unlocked = decode("_ _ _ 0,0,0,0,0,0,1065353216,1065353216,1065353216,1065353216 20,20 static 6:cave_2 _ _ 1110000000\n").unwrap();
    assert!(!unlocked.entities[0].locked);
}

#[test]
fn numbers_are_written_without_ado() {
    let scene = one(Bundle::empty().with_transform(place(-400.0, 0.5)));
    assert_eq!(
        encode(&scene),
        "_ _ _ 3284664320,1056964608,0,0,0,0,1065353216,1065353216,1065353216,1065353216 _ _ _ _ _ \
         0000000000\n"
    );
    let scene = one(Bundle::empty().with_collider(rectangle(-2147483648, 2147483647)));
    assert_eq!(encode(&scene), "_ _ _ _ -2147483648,2147483647 _ _ _ _ 0000000000\n");
    let scene = one(Bundle::empty().with_collider(rectangle(0, -10)));
    assert_eq!(encode(&scene), "_ _ _ _ 0,-10 _ _ _ _ 0000000000\n");
    let scene = Scene { entities: vec![entity(Bundle::empty(), Some(1090), Some(7))] };
    assert_eq!(encode(&scene), "1090 7 _ _ _ _ _ _ _ 0000000000\n");
}

#[test]
fn leading_zeros_and_minus_zero_are_read() {
    let scene =
        Scene { entities: vec![entity(Bundle::empty().with_collider(rectangle(0, 7)), Some(3), None)] };
    assert_eq!(decode("003 _ _ _ -0,007 _ _ _ _ 0000000000\n"), Some(scene));
    let turned = Transform { x: 1, y: 2, z: 3, ..place(0.0, 0.0) };
    assert_eq!(
        decode("_ _ _ 01,2,003,0,0,0,1065353216,1065353216,1065353216,1065353216 _ _ _ _ _ 0000000000\n"),
        Some(one(Bundle::empty().with_transform(turned)))
    );
    assert_eq!(
        decode("_ _ 02:ab _ _ _ _ _ _ 0000000000\n"),
        Some(one(Bundle::empty().with_name("ab".to_string())))
    );
}

#[test]
fn what_is_no_line_is_no_snapshot() {
    let good = "_ _ _ _ _ _ _ _ _ 0000000000\n";
    assert!(decode(good).is_some());
    assert!(decode(&format!("{good}{good}")).is_some());
    let bad = [
        "_ _ _ _ _ _ _ _ _ 0000000000",
        "_ _ _ _ _ _ _ _ _ 000000000\n",
        "_ _ _ _ _ _ _ _ _ 00000000000\n",
        "_ _ _ _ _ _ _ _ _ 0000000002\n",
        "_ _ _ _ _ _ _ _ _  0000000000\n",
        " _ _ _ _ _ _ _ _ _ 0000000000\n",
        "_ _ _ _ _ _ _ _ _ 0000000000\n\n",
        "_ _ _ _ _ _ _ _ _ 0000000000\r\n",
        "_ _ _ _ _ _ _ _ 0000000000\n",
        "_ _ _ _ _ _ _ _ _ _ 0000000000\n",
        "\n",
        "x",
        "-1 _ _ _ _ _ _ _ _ 0000000000\n",
        "+1 _ _ _ _ _ _ _ _ 0000000000\n",
        "99999999999999999999999 _ _ _ _ _ _ _ _ 0000000000\n",
        "_ _ 3:ab _ _ _ _ _ _ 0000000000\n",
        "_ _ 1:ab _ _ _ _ _ _ 0000000000\n",
        "_ _ 2ab _ _ _ _ _ _ 0000000000\n",
        "_ _ :ab _ _ _ _ _ _ 0000000000\n",
        "_ _ 99:ab _ _ _ _ _ _ 0000000000\n",
        "_ _ _ _ 1 _ _ _ _ 0000000000\n",
        "_ _ _ _ 1, _ _ _ _ 0000000000\n",
        "_ _ _ _ ,1 _ _ _ _ 0000000000\n",
        "_ _ _ _ 1,2,3 _ _ _ _ 0000000000\n",
        "_ _ _ _ 2147483648,0 _ _ _ _ 0000000000\n",
        "_ _ _ _ 0,-2147483649 _ _ _ _ 0000000000\n",
        "_ _ _ _ --1,0 _ _ _ _ 0000000000\n",
        "_ _ _ _ - _ _ _ _ 0000000000\n",
        "_ _ _ 1,2 _ _ _ _ _ 0000000000\n",
        "_ _ _ 1,2,3,4,5,6,7,8,9 _ _ _ _ _ 0000000000\n",
        "_ _ _ 1,2,3,4,5,6,7,8,9,10,11 _ _ _ _ _ 0000000000\n",
        "_ _ _ 1,2,3,4,5,6,7,8,9, _ _ _ _ _ 0000000000\n",
        "_ _ _ 1,2,3,4,5,6,7,8,9,-1 _ _ _ _ _ 0000000000\n",
        "_ _ _ 1,2,3,4,5,6,7,8,9,4294967296 _ _ _ _ _ 0000000000\n",
        "_ _ _ 1,,3,4,5,6,7,8,9,10 _ _ _ _ _ 0000000000\n",
        "_ _ _ _ _ Static _ _ _ 0000000000\n",
        "_ _ _ _ _ stati _ _ _ 0000000000\n",
        "_ _ _ _ _ statics _ _ _ 0000000000\n",
        "_ _ _ _ _ _ _ must_ _ 0000000000\n",
        "_ _ _ _ _ _ _ must_keeps _ 0000000000\n",
        "_ _ _ _ _ _ _ _ rocket 0000000000\n",
        "_ _ _ _ _ _ _ _ gravity_gu 0000000000\n",
    ];
    for text in bad {
        assert_eq!(decode(text), None, "{text:?}");
        assert_eq!(decode(&format!("{good}{text}")), None, "{text:?}");
    }
}

#[test]
fn a_level_comes_back_from_its_text() {
    let mut world = World::new();
    world.new_level();
    let door = world.create_door("cave_2".to_string());
    world.create_key(Key::MustDestroy, door).unwrap();
    world.create_key(Key::MustKeep, door).unwrap();
    let text = encode(&world.scene());

    let mut fresh = World::new();
    let holder = fresh.spawn_scene_root("cave_1".to_string());
    assert!(fresh.instantiate(holder, &decode(&text).unwrap()));
    fresh.remove_dynamic_scene_root();
    assert_eq!(encode(&fresh.scene()), text);
    assert_eq!(fresh.scene(), world.scene());
    assert_eq!(fresh.get(8).unwrap().keys.0, vec![9, 10]);
    assert!(!fresh.can_pass(8));
}
