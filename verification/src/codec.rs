//! The text of a saved level: one line for each saved entity, with its
//! fields in a fixed order and a single space between them.
//!
//! A line holds the place of the parent, the place of the owning door, the
//! name, the transform, the collision volume, the kind of body, the level a
//! door leads to, the kind of key, the weapon, and ten flags: nine markers of
//! the bundle and the lock of a door. A field that
//! an entity does not have is written `_`. A number is written in decimal,
//! numbers that belong together with commas between them, and a piece of
//! text as the count of its characters, a colon, and the characters. A
//! transform is written as the ten numbers that hold the bits of its fields,
//! so that it is read back bit for bit.

use crate::component::{
    text, Bundle, BundleView, Door, Key, RigidBody, SerializedColliderConstructor, Transform,
    Weapon,
};
use crate::scene::{Scene, SceneEntity, SceneEntityView, SceneView};
use crate::text::{
    chars_of, has_at, is_digit, lemma_has_at_head, lemma_has_at_split, lemma_print_nat,
    lemma_read_nat, print_nat, push_nat, read_nat, read_number,
};
use vstd::prelude::*;
use vstd::string::StringExecFns;

verus! {

/// The text `t` has the character `c` at the place `at`.
pub open spec fn char_at(t: Seq<char>, at: int, c: char) -> bool {
    0 <= at < t.len() && t[at] == c
}

/// How a place in a snapshot is written, or that there is none.
pub open spec fn print_link(link: Option<usize>) -> Seq<char> {
    match link {
        Some(n) => print_nat(n as nat),
        None => seq!['_'],
    }
}

/// Reads what [`print_link`] writes.
pub open spec fn read_link(t: Seq<char>, at: int) -> Option<(Option<usize>, int)> {
    if char_at(t, at, '_') {
        Some((None, at + 1))
    } else {
        match read_nat(t, at, usize::MAX as nat) {
            Some((n, next)) => Some((Some(n as usize), next)),
            None => None,
        }
    }
}

/// How a whole number is written: a minus sign if it is below zero, and the
/// digits of its size.
pub open spec fn print_int(i: int) -> Seq<char> {
    if i < 0 {
        seq!['-'] + print_nat((-i) as nat)
    } else {
        print_nat(i as nat)
    }
}

/// Reads what [`print_int`] writes of a number of 32 bits.
pub open spec fn read_i32(t: Seq<char>, at: int) -> Option<(i32, int)> {
    if char_at(t, at, '-') {
        match read_nat(t, at + 1, 0x8000_0000) {
            Some((n, next)) => Some(((-(n as int)) as i32, next)),
            None => None,
        }
    } else {
        match read_nat(t, at, 0x7fff_ffff) {
            Some((n, next)) => Some((n as i32, next)),
            None => None,
        }
    }
}

/// How a pair of numbers is written.
pub open spec fn print_pair(x: i32, y: i32) -> Seq<char> {
    print_int(x as int) + seq![','] + print_int(y as int)
}

/// Reads what [`print_pair`] writes.
pub open spec fn read_pair(t: Seq<char>, at: int) -> Option<((i32, i32), int)> {
    match read_i32(t, at) {
        Some((x, comma)) => if char_at(t, comma, ',') {
            match read_i32(t, comma + 1) {
                Some((y, next)) => Some(((x, y), next)),
                None => None,
            }
        } else {
            None
        },
        None => None,
    }
}

/// How numbers that belong together are written: in decimal, with a comma
/// between one and the next.
pub open spec fn print_numbers(numbers: Seq<u32>) -> Seq<char>
    decreases numbers.len(),
{
    if numbers.len() == 0 {
        Seq::empty()
    } else if numbers.len() == 1 {
        print_nat(numbers[0] as nat)
    } else {
        print_numbers(numbers.drop_last()).push(',') + print_nat(numbers.last() as nat)
    }
}

/// Reads `count` numbers of 32 bits with commas between them.
pub open spec fn read_numbers(t: Seq<char>, at: int, count: nat) -> Option<(Seq<u32>, int)>
    decreases count,
{
    if count == 0 {
        None
    } else if count == 1 {
        match read_nat(t, at, u32::MAX as nat) {
            Some((n, next)) => Some((seq![n as u32], next)),
            None => None,
        }
    } else {
        match read_numbers(t, at, (count - 1) as nat) {
            Some((numbers, comma)) => if char_at(t, comma, ',') {
                match read_nat(t, comma + 1, u32::MAX as nat) {
                    Some((n, next)) => Some((numbers.push(n as u32), next)),
                    None => None,
                }
            } else {
                None
            },
            None => None,
        }
    }
}

/// The ten numbers of a transform, in the order in which a line holds them:
/// the place, the turn, the size.
pub open spec fn numbers_of(transform: Transform) -> Seq<u32> {
    seq![
        transform.x,
        transform.y,
        transform.z,
        transform.rotation_x,
        transform.rotation_y,
        transform.rotation_z,
        transform.rotation_w,
        transform.scale_x,
        transform.scale_y,
        transform.scale_z,
    ]
}

/// The transform that ten numbers give.
pub open spec fn transform_of(numbers: Seq<u32>) -> Transform {
    Transform {
        x: numbers[0],
        y: numbers[1],
        z: numbers[2],
        rotation_x: numbers[3],
        rotation_y: numbers[4],
        rotation_z: numbers[5],
        rotation_w: numbers[6],
        scale_x: numbers[7],
        scale_y: numbers[8],
        scale_z: numbers[9],
    }
}

/// How a transform is written, or that there is none.
pub open spec fn print_transform(transform: Option<Transform>) -> Seq<char> {
    match transform {
        Some(t) => print_numbers(numbers_of(t)),
        None => seq!['_'],
    }
}

/// Reads what [`print_transform`] writes.
pub open spec fn read_transform(t: Seq<char>, at: int) -> Option<(Option<Transform>, int)> {
    if char_at(t, at, '_') {
        Some((None, at + 1))
    } else {
        match read_numbers(t, at, 10) {
            Some((numbers, next)) => Some((Some(transform_of(numbers)), next)),
            None => None,
        }
    }
}

/// How a collision volume is written, or that there is none.
pub open spec fn print_collider(collider: Option<SerializedColliderConstructor>) -> Seq<char> {
    match collider {
        Some(c) => print_pair(c.x_length, c.y_length),
        None => seq!['_'],
    }
}

/// Reads what [`print_collider`] writes.
pub open spec fn read_collider(t: Seq<char>, at: int) -> Option<
    (Option<SerializedColliderConstructor>, int),
> {
    if char_at(t, at, '_') {
        Some((None, at + 1))
    } else {
        match read_pair(t, at) {
            Some(((x, y), next)) => Some(
                (Some(SerializedColliderConstructor { x_length: x, y_length: y }), next),
            ),
            None => None,
        }
    }
}

/// How a piece of text is written, or that there is none.
pub open spec fn print_text(text: Option<Seq<char>>) -> Seq<char> {
    match text {
        Some(s) => print_nat(s.len()) + seq![':'] + s,
        None => seq!['_'],
    }
}

/// Reads what [`print_text`] writes.
pub open spec fn read_text(t: Seq<char>, at: int) -> Option<(Option<Seq<char>>, int)> {
    if char_at(t, at, '_') {
        Some((None, at + 1))
    } else {
        match read_nat(t, at, usize::MAX as nat) {
            Some((n, colon)) => if char_at(t, colon, ':') && colon + 1 + n <= t.len() {
                Some((Some(t.subrange(colon + 1, colon + 1 + n)), colon + 1 + n))
            } else {
                None
            },
            None => None,
        }
    }
}

/// How the kind of a body is written, or that there is none.
pub open spec fn print_body(body: Option<RigidBody>) -> Seq<char> {
    match body {
        Some(RigidBody::Static) => "static"@,
        Some(RigidBody::Dynamic) => "dynamic"@,
        None => seq!['_'],
    }
}

/// Reads what [`print_body`] writes.
pub open spec fn read_body(t: Seq<char>, at: int) -> Option<(Option<RigidBody>, int)> {
    if char_at(t, at, '_') {
        Some((None, at + 1))
    } else if has_at(t, at, "static"@) {
        Some((Some(RigidBody::Static), at + "static"@.len()))
    } else if has_at(t, at, "dynamic"@) {
        Some((Some(RigidBody::Dynamic), at + "dynamic"@.len()))
    } else {
        None
    }
}

/// How the kind of a key is written, or that there is none.
pub open spec fn print_key(key: Option<Key>) -> Seq<char> {
    match key {
        Some(Key::MustDestroy) => "must_destroy"@,
        Some(Key::MustKeep) => "must_keep"@,
        None => seq!['_'],
    }
}

/// Reads what [`print_key`] writes.
pub open spec fn read_key(t: Seq<char>, at: int) -> Option<(Option<Key>, int)> {
    if char_at(t, at, '_') {
        Some((None, at + 1))
    } else if has_at(t, at, "must_destroy"@) {
        Some((Some(Key::MustDestroy), at + "must_destroy"@.len()))
    } else if has_at(t, at, "must_keep"@) {
        Some((Some(Key::MustKeep), at + "must_keep"@.len()))
    } else {
        None
    }
}

/// How a weapon is written, or that there is none.
pub open spec fn print_weapon(weapon: Option<Weapon>) -> Seq<char> {
    match weapon {
        Some(Weapon::Shotgun) => "shotgun"@,
        Some(Weapon::AssaultRifle) => "assault_rifle"@,
        Some(Weapon::GravityGun) => "gravity_gun"@,
        None => seq!['_'],
    }
}

/// Reads what [`print_weapon`] writes.
pub open spec fn read_weapon(t: Seq<char>, at: int) -> Option<(Option<Weapon>, int)> {
    if char_at(t, at, '_') {
        Some((None, at + 1))
    } else if has_at(t, at, "shotgun"@) {
        Some((Some(Weapon::Shotgun), at + "shotgun"@.len()))
    } else if has_at(t, at, "assault_rifle"@) {
        Some((Some(Weapon::AssaultRifle), at + "assault_rifle"@.len()))
    } else if has_at(t, at, "gravity_gun"@) {
        Some((Some(Weapon::GravityGun), at + "gravity_gun"@.len()))
    } else {
        None
    }
}

/// The flags of a bundle, in the order in which a line holds them: the
/// persistence tag, sensor, collision events, player, level geometry, wall,
/// kill box, bullet, selected weapon.
pub open spec fn flags_of(b: BundleView) -> Seq<bool> {
    seq![
        b.serialize,
        b.sensor,
        b.collision_events,
        b.player,
        b.level_geometry,
        b.wall,
        b.kill_box,
        b.bullet,
        b.selected_weapon,
    ]
}

/// The flags of the line of a saved entity: the flags of its bundle, and
/// last whether it is locked.
pub open spec fn line_flags(e: SceneEntityView) -> Seq<bool> {
    flags_of(e.bundle).push(e.locked)
}

/// How one flag is written.
pub open spec fn flag_char(flag: bool) -> char {
    if flag {
        '1'
    } else {
        '0'
    }
}

/// How flags are written: one character for each.
pub open spec fn print_flags(flags: Seq<bool>) -> Seq<char> {
    Seq::new(flags.len(), |i: int| flag_char(flags[i]))
}

/// Reads `count` flags.
pub open spec fn read_flags(t: Seq<char>, at: int, count: nat) -> Option<(Seq<bool>, int)>
    decreases count,
{
    if count == 0 {
        Some((Seq::empty(), at))
    } else {
        match read_flags(t, at, (count - 1) as nat) {
            Some((flags, last)) => if char_at(t, last, '1') {
                Some((flags.push(true), last + 1))
            } else if char_at(t, last, '0') {
                Some((flags.push(false), last + 1))
            } else {
                None
            },
            None => None,
        }
    }
}

/// The fields of a line, as they are read one after another.
pub struct Fields {
    pub child_of: Option<usize>,
    pub key_of: Option<usize>,
    pub name: Option<Seq<char>>,
    pub transform: Option<Transform>,
    pub collider: Option<SerializedColliderConstructor>,
    pub rigid_body: Option<RigidBody>,
    pub door: Option<Seq<char>>,
    pub key: Option<Key>,
    pub weapon: Option<Weapon>,
    pub flags: Seq<bool>,
}

/// The fields of the line of a saved entity.
pub open spec fn fields_of(e: SceneEntityView) -> Fields {
    Fields {
        child_of: e.child_of,
        key_of: e.key_of,
        name: e.bundle.name,
        transform: e.bundle.transform,
        collider: e.bundle.collider,
        rigid_body: e.bundle.rigid_body,
        door: e.bundle.door,
        key: e.bundle.key,
        weapon: e.bundle.weapon,
        flags: line_flags(e),
    }
}

/// The saved entity that a line with ten flags gives.
pub open spec fn entity_of(f: Fields) -> SceneEntityView {
    SceneEntityView {
        bundle: BundleView {
            serialize: f.flags[0],
            name: f.name,
            transform: f.transform,
            collider: f.collider,
            rigid_body: f.rigid_body,
            sensor: f.flags[1],
            collision_events: f.flags[2],
            player: f.flags[3],
            level_geometry: f.flags[4],
            wall: f.flags[5],
            kill_box: f.flags[6],
            bullet: f.flags[7],
            door: f.door,
            key: f.key,
            weapon: f.weapon,
            selected_weapon: f.flags[8],
        },
        child_of: f.child_of,
        key_of: f.key_of,
        locked: f.flags[9],
    }
}

/// The first four fields of the line of a saved entity.
pub open spec fn print_head(e: SceneEntityView) -> Seq<char> {
    print_link(e.child_of).push(' ') + print_link(e.key_of).push(' ') + print_text(
        e.bundle.name,
    ).push(' ') + print_transform(e.bundle.transform).push(' ')
}

/// The fifth to the seventh field of the line of a saved entity.
pub open spec fn print_middle(e: SceneEntityView) -> Seq<char> {
    print_collider(e.bundle.collider).push(' ') + print_body(e.bundle.rigid_body).push(' ')
        + print_text(e.bundle.door).push(' ')
}

/// The last three fields of the line of a saved entity, and its end.
pub open spec fn print_tail(e: SceneEntityView) -> Seq<char> {
    print_key(e.bundle.key).push(' ') + print_weapon(e.bundle.weapon).push(' ') + print_flags(
        line_flags(e),
    ).push('\n')
}

/// The line of a saved entity.
pub open spec fn print_entity(e: SceneEntityView) -> Seq<char> {
    print_head(e) + print_middle(e) + print_tail(e)
}

/// The place behind the character `c`, if `c` stands at `at`.
pub open spec fn skip_char(t: Seq<char>, at: int, c: char) -> Option<int> {
    if char_at(t, at, c) {
        Some(at + 1)
    } else {
        None
    }
}

/// Reads the first four fields of a line.
pub open spec fn read_head(t: Seq<char>, at: int) -> Option<
    (Option<usize>, Option<usize>, Option<Seq<char>>, Option<Transform>, int),
> {
    match read_link(t, at) {
        Some((child_of, a)) => match skip_char(t, a, ' ') {
            Some(a) => match read_link(t, a) {
                Some((key_of, a)) => match skip_char(t, a, ' ') {
                    Some(a) => match read_text(t, a) {
                        Some((name, a)) => match skip_char(t, a, ' ') {
                            Some(a) => match read_transform(t, a) {
                                Some((transform, a)) => match skip_char(t, a, ' ') {
                                    Some(a) => Some((child_of, key_of, name, transform, a)),
                                    None => None,
                                },
                                None => None,
                            },
                            None => None,
                        },
                        None => None,
                    },
                    None => None,
                },
                None => None,
            },
            None => None,
        },
        None => None,
    }
}

/// Reads the fifth to the seventh field of a line.
pub open spec fn read_middle(t: Seq<char>, at: int) -> Option<
    (Option<SerializedColliderConstructor>, Option<RigidBody>, Option<Seq<char>>, int),
> {
    match read_collider(t, at) {
        Some((collider, a)) => match skip_char(t, a, ' ') {
            Some(a) => match read_body(t, a) {
                Some((rigid_body, a)) => match skip_char(t, a, ' ') {
                    Some(a) => match read_text(t, a) {
                        Some((door, a)) => match skip_char(t, a, ' ') {
                            Some(a) => Some((collider, rigid_body, door, a)),
                            None => None,
                        },
                        None => None,
                    },
                    None => None,
                },
                None => None,
            },
            None => None,
        },
        None => None,
    }
}

/// Reads the last three fields of a line and its end.
pub open spec fn read_tail(t: Seq<char>, at: int) -> Option<
    (Option<Key>, Option<Weapon>, Seq<bool>, int),
> {
    match read_key(t, at) {
        Some((key, a)) => match skip_char(t, a, ' ') {
            Some(a) => match read_weapon(t, a) {
                Some((weapon, a)) => match skip_char(t, a, ' ') {
                    Some(a) => match read_flags(t, a, 10) {
                        Some((flags, a)) => match skip_char(t, a, '\n') {
                            Some(a) => Some((key, weapon, flags, a)),
                            None => None,
                        },
                        None => None,
                    },
                    None => None,
                },
                None => None,
            },
            None => None,
        },
        None => None,
    }
}

/// Reads the line of a saved entity that begins at `at`, and gives the place
/// behind the line with it.
pub open spec fn read_entity(t: Seq<char>, at: int) -> Option<(SceneEntityView, int)> {
    match read_head(t, at) {
        Some((child_of, key_of, name, transform, a)) => match read_middle(t, a) {
            Some((collider, rigid_body, door, a)) => match read_tail(t, a) {
                Some((key, weapon, flags, a)) => Some(
                    (
                        entity_of(
                            Fields {
                                child_of,
                                key_of,
                                name,
                                transform,
                                collider,
                                rigid_body,
                                door,
                                key,
                                weapon,
                                flags,
                            },
                        ),
                        a,
                    ),
                ),
                None => None,
            },
            None => None,
        },
        None => None,
    }
}

/// The text of a snapshot: the lines of its entities, in their order.
pub open spec fn print_scene(s: SceneView) -> Seq<char>
    decreases s.len(),
{
    if s.len() == 0 {
        Seq::empty()
    } else {
        print_entity(s[0]) + print_scene(s.skip(1))
    }
}

/// Reads lines from `at` to the end of the text. There is no snapshot if a
/// line is not the line of an entity.
pub open spec fn read_scene(t: Seq<char>, at: int) -> Option<SceneView>
    decreases t.len() - at,
{
    if at >= t.len() {
        Some(Seq::empty())
    } else {
        match read_entity(t, at) {
            Some((e, next)) => if next > at {
                match read_scene(t, next) {
                    Some(rest) => Some(seq![e] + rest),
                    None => None,
                }
            } else {
                None
            },
            None => None,
        }
    }
}

/// The snapshot that the text `t` holds, if it holds one.
pub open spec fn scene_in(t: Seq<char>) -> Option<SceneView> {
    read_scene(t, 0)
}

/// A text that holds a piece and a character behind it holds the piece, and
/// the character behind it.
pub proof fn lemma_piece(t: Seq<char>, at: int, piece: Seq<char>, end: char)
    requires
        has_at(t, at, piece.push(end)),
    ensures
        has_at(t, at, piece),
        char_at(t, at + piece.len(), end),
{
    assert(piece.push(end) =~= piece + seq![end]);
    lemma_has_at_split(t, at, piece, seq![end]);
    lemma_has_at_head(t, at + piece.len(), seq![end]);
}

/// What [`print_link`] writes is read back.
pub proof fn lemma_read_link(t: Seq<char>, at: int, link: Option<usize>, end: char)
    requires
        has_at(t, at, print_link(link).push(end)),
        !is_digit(end),
    ensures
        read_link(t, at) == Some((link, at + print_link(link).len())),
        char_at(t, at + print_link(link).len(), end),
{
    lemma_piece(t, at, print_link(link), end);
    lemma_has_at_head(t, at, print_link(link).push(end));
    match link {
        Some(n) => {
            lemma_print_nat(n as nat);
            lemma_read_nat(t, at, n as nat, usize::MAX as nat);
        },
        None => {},
    }
}

/// What [`print_int`] writes of a number of 32 bits is read back.
pub proof fn lemma_read_i32(t: Seq<char>, at: int, i: i32, end: char)
    requires
        has_at(t, at, print_int(i as int).push(end)),
        !is_digit(end),
    ensures
        read_i32(t, at) == Some((i, at + print_int(i as int).len())),
        char_at(t, at + print_int(i as int).len(), end),
{
    lemma_piece(t, at, print_int(i as int), end);
    lemma_has_at_head(t, at, print_int(i as int).push(end));
    if i < 0 {
        let size = (-(i as int)) as nat;
        lemma_has_at_split(t, at, seq!['-'], print_nat(size));
        lemma_read_nat(t, at + 1, size, 0x8000_0000);
    } else {
        lemma_print_nat(i as nat);
        lemma_read_nat(t, at, i as nat, 0x7fff_ffff);
    }
}

/// What [`print_pair`] writes is read back.
pub proof fn lemma_read_pair(t: Seq<char>, at: int, x: i32, y: i32, end: char)
    requires
        has_at(t, at, print_pair(x, y).push(end)),
        !is_digit(end),
    ensures
        read_pair(t, at) == Some(((x, y), at + print_pair(x, y).len())),
        char_at(t, at + print_pair(x, y).len(), end),
        print_pair(x, y).len() > 0,
        print_pair(x, y)[0] != '_',
{
    let first = print_int(x as int).push(',');
    let second = print_int(y as int).push(end);
    assert(print_pair(x, y).push(end) =~= first + second);
    lemma_has_at_split(t, at, first, second);
    lemma_read_i32(t, at, x, ',');
    lemma_read_i32(t, at + first.len(), y, end);
    if x >= 0 {
        lemma_print_nat(x as nat);
    }
}

/// Numbers that are written with commas between them are read back.
pub proof fn lemma_read_numbers(t: Seq<char>, at: int, numbers: Seq<u32>, end: char)
    requires
        has_at(t, at, print_numbers(numbers).push(end)),
        !is_digit(end),
        numbers.len() >= 1,
    ensures
        read_numbers(t, at, numbers.len()) == Some((numbers, at + print_numbers(numbers).len())),
        char_at(t, at + print_numbers(numbers).len(), end),
        print_numbers(numbers).len() > 0,
        is_digit(print_numbers(numbers)[0]),
    decreases numbers.len(),
{
    let whole = print_numbers(numbers);
    lemma_print_nat(numbers.last() as nat);
    if numbers.len() == 1 {
        assert(numbers.last() == numbers[0]);
        lemma_piece(t, at, whole, end);
        lemma_read_nat(t, at, numbers[0] as nat, u32::MAX as nat);
        assert(seq![numbers[0]] =~= numbers);
    } else {
        let front = numbers.drop_last();
        let before = print_numbers(front).push(',');
        let last = print_nat(numbers.last() as nat).push(end);
        assert(whole.push(end) =~= before + last);
        lemma_has_at_split(t, at, before, last);
        lemma_read_numbers(t, at, front, ',');
        lemma_piece(t, at + before.len(), print_nat(numbers.last() as nat), end);
        lemma_read_nat(t, at + before.len(), numbers.last() as nat, u32::MAX as nat);
        assert(front.push(numbers.last()) =~= numbers);
        assert(whole[0] == print_numbers(front)[0]);
    }
}

/// What [`print_transform`] writes is read back.
pub proof fn lemma_read_transform(t: Seq<char>, at: int, transform: Option<Transform>, end: char)
    requires
        has_at(t, at, print_transform(transform).push(end)),
        !is_digit(end),
    ensures
        read_transform(t, at) == Some((transform, at + print_transform(transform).len())),
        char_at(t, at + print_transform(transform).len(), end),
{
    lemma_piece(t, at, print_transform(transform), end);
    match transform {
        Some(placed) => {
            lemma_read_numbers(t, at, numbers_of(placed), end);
            lemma_has_at_head(t, at, print_transform(transform));
            assert(transform_of(numbers_of(placed)) == placed);
        },
        None => {
            lemma_has_at_head(t, at, print_transform(transform));
        },
    }
}

/// What [`print_collider`] writes is read back.
pub proof fn lemma_read_collider(
    t: Seq<char>,
    at: int,
    collider: Option<SerializedColliderConstructor>,
    end: char,
)
    requires
        has_at(t, at, print_collider(collider).push(end)),
        !is_digit(end),
    ensures
        read_collider(t, at) == Some((collider, at + print_collider(collider).len())),
        char_at(t, at + print_collider(collider).len(), end),
{
    lemma_piece(t, at, print_collider(collider), end);
    lemma_has_at_head(t, at, print_collider(collider).push(end));
    match collider {
        Some(c) => {
            lemma_read_pair(t, at, c.x_length, c.y_length, end);
        },
        None => {},
    }
}

/// What [`print_text`] writes is read back, if the count of the characters
/// fits.
pub proof fn lemma_read_text(t: Seq<char>, at: int, text: Option<Seq<char>>, end: char)
    requires
        has_at(t, at, print_text(text).push(end)),
        text matches Some(s) ==> s.len() <= usize::MAX,
    ensures
        read_text(t, at) == Some((text, at + print_text(text).len())),
        char_at(t, at + print_text(text).len(), end),
{
    lemma_piece(t, at, print_text(text), end);
    lemma_has_at_head(t, at, print_text(text).push(end));
    match text {
        Some(s) => {
            let count = print_nat(s.len()).push(':');
            assert(print_text(text) =~= count + s);
            lemma_has_at_split(t, at, count, s);
            lemma_piece(t, at, print_nat(s.len()), ':');
            lemma_print_nat(s.len());
            lemma_read_nat(t, at, s.len(), usize::MAX as nat);
        },
        None => {},
    }
}

/// What [`print_body`] writes is read back.
pub proof fn lemma_read_body(t: Seq<char>, at: int, body: Option<RigidBody>, end: char)
    requires
        has_at(t, at, print_body(body).push(end)),
    ensures
        read_body(t, at) == Some((body, at + print_body(body).len())),
        char_at(t, at + print_body(body).len(), end),
{
    reveal_strlit("static");
    reveal_strlit("dynamic");
    lemma_piece(t, at, print_body(body), end);
    lemma_has_at_head(t, at, print_body(body));
    if has_at(t, at, "static"@) {
        lemma_has_at_head(t, at, "static"@);
    }
}

/// What [`print_key`] writes is read back.
pub proof fn lemma_read_key(t: Seq<char>, at: int, key: Option<Key>, end: char)
    requires
        has_at(t, at, print_key(key).push(end)),
    ensures
        read_key(t, at) == Some((key, at + print_key(key).len())),
        char_at(t, at + print_key(key).len(), end),
{
    reveal_strlit("must_destroy");
    reveal_strlit("must_keep");
    lemma_piece(t, at, print_key(key), end);
    lemma_has_at_head(t, at, print_key(key));
    if key == Some(Key::MustKeep) && has_at(t, at, "must_destroy"@) {
        assert(t.subrange(at, at + 12)[5] == 'd');
        assert(t.subrange(at, at + 9)[5] == 'k');
    }
}

/// What [`print_weapon`] writes is read back.
pub proof fn lemma_read_weapon(t: Seq<char>, at: int, weapon: Option<Weapon>, end: char)
    requires
        has_at(t, at, print_weapon(weapon).push(end)),
    ensures
        read_weapon(t, at) == Some((weapon, at + print_weapon(weapon).len())),
        char_at(t, at + print_weapon(weapon).len(), end),
{
    reveal_strlit("shotgun");
    reveal_strlit("assault_rifle");
    reveal_strlit("gravity_gun");
    lemma_piece(t, at, print_weapon(weapon), end);
    lemma_has_at_head(t, at, print_weapon(weapon));
    if has_at(t, at, "shotgun"@) {
        lemma_has_at_head(t, at, "shotgun"@);
    }
    if has_at(t, at, "assault_rifle"@) {
        lemma_has_at_head(t, at, "assault_rifle"@);
    }
}

/// The first `count` of the flags that a text holds are read back.
pub proof fn lemma_read_flags(t: Seq<char>, at: int, flags: Seq<bool>, count: nat)
    requires
        has_at(t, at, print_flags(flags)),
        count <= flags.len(),
    ensures
        read_flags(t, at, count) == Some((flags.take(count as int), at + count)),
    decreases count,
{
    if count == 0 {
        assert(flags.take(0) =~= Seq::<bool>::empty());
    } else {
        lemma_read_flags(t, at, flags, (count - 1) as nat);
        let last = at + count - 1;
        assert(t.subrange(at, at + flags.len())[count - 1] == print_flags(flags)[count - 1]);
        assert(flags.take(count as int) =~= flags.take(count - 1).push(flags[count - 1]));
    }
}

/// The counts of the characters of all names in the snapshot fit.
pub open spec fn writable(s: SceneView) -> bool {
    forall|i: int|
        0 <= i < s.len() ==> {
            &&& (#[trigger] s[i]).bundle.name matches Some(name) ==> name.len() <= usize::MAX
            &&& s[i].bundle.door matches Some(level) ==> level.len() <= usize::MAX
        }
}

/// The first four fields of a line are read back.
pub proof fn lemma_read_head(t: Seq<char>, at: int, e: SceneEntityView)
    requires
        has_at(t, at, print_head(e)),
        e.bundle.name matches Some(name) ==> name.len() <= usize::MAX,
    ensures
        read_head(t, at) == Some(
            (e.child_of, e.key_of, e.bundle.name, e.bundle.transform, at + print_head(e).len()),
        ),
{
    let parent = print_link(e.child_of).push(' ');
    let owner = print_link(e.key_of).push(' ');
    let name = print_text(e.bundle.name).push(' ');
    let place = print_transform(e.bundle.transform).push(' ');
    lemma_has_at_split(t, at, parent + owner + name, place);
    lemma_has_at_split(t, at, parent + owner, name);
    lemma_has_at_split(t, at, parent, owner);
    let at_owner = at + parent.len();
    let at_name = at_owner + owner.len();
    let at_place = at_name + name.len();
    lemma_read_link(t, at, e.child_of, ' ');
    lemma_read_link(t, at_owner, e.key_of, ' ');
    lemma_read_text(t, at_name, e.bundle.name, ' ');
    lemma_read_transform(t, at_place, e.bundle.transform, ' ');
}

/// The fifth to the seventh field of a line are read back.
pub proof fn lemma_read_middle(t: Seq<char>, at: int, e: SceneEntityView)
    requires
        has_at(t, at, print_middle(e)),
        e.bundle.door matches Some(level) ==> level.len() <= usize::MAX,
    ensures
        read_middle(t, at) == Some(
            (e.bundle.collider, e.bundle.rigid_body, e.bundle.door, at + print_middle(e).len()),
        ),
{
    let volume = print_collider(e.bundle.collider).push(' ');
    let body = print_body(e.bundle.rigid_body).push(' ');
    let level = print_text(e.bundle.door).push(' ');
    lemma_has_at_split(t, at, volume + body, level);
    lemma_has_at_split(t, at, volume, body);
    let at_body = at + volume.len();
    let at_level = at_body + body.len();
    lemma_read_collider(t, at, e.bundle.collider, ' ');
    lemma_read_body(t, at_body, e.bundle.rigid_body, ' ');
    lemma_read_text(t, at_level, e.bundle.door, ' ');
}

/// The last three fields of a line and its end are read back.
pub proof fn lemma_read_tail(t: Seq<char>, at: int, e: SceneEntityView)
    requires
        has_at(t, at, print_tail(e)),
    ensures
        read_tail(t, at) == Some(
            (e.bundle.key, e.bundle.weapon, line_flags(e), at + print_tail(e).len()),
        ),
        print_tail(e).len() > 0,
{
    let kind = print_key(e.bundle.key).push(' ');
    let weapon = print_weapon(e.bundle.weapon).push(' ');
    let flags = print_flags(line_flags(e)).push('\n');
    lemma_has_at_split(t, at, kind + weapon, flags);
    lemma_has_at_split(t, at, kind, weapon);
    let at_weapon = at + kind.len();
    let at_flags = at_weapon + weapon.len();
    lemma_read_key(t, at, e.bundle.key, ' ');
    lemma_read_weapon(t, at_weapon, e.bundle.weapon, ' ');
    lemma_piece(t, at_flags, print_flags(line_flags(e)), '\n');
    lemma_read_flags(t, at_flags, line_flags(e), 10);
    assert(line_flags(e).take(10) =~= line_flags(e));
}

/// The line of a saved entity is read back as that entity.
pub proof fn lemma_read_entity(t: Seq<char>, at: int, e: SceneEntityView)
    requires
        has_at(t, at, print_entity(e)),
        e.bundle.name matches Some(name) ==> name.len() <= usize::MAX,
        e.bundle.door matches Some(level) ==> level.len() <= usize::MAX,
    ensures
        read_entity(t, at) == Some((e, at + print_entity(e).len())),
        print_entity(e).len() > 0,
{
    lemma_has_at_split(t, at, print_head(e) + print_middle(e), print_tail(e));
    lemma_has_at_split(t, at, print_head(e), print_middle(e));
    lemma_read_head(t, at, e);
    lemma_read_middle(t, at + print_head(e).len(), e);
    lemma_read_tail(t, at + print_head(e).len() + print_middle(e).len(), e);
    assert(entity_of(fields_of(e)) == e);
}

/// The entities of the snapshot behind the first have names that fit if
/// all have.
proof fn lemma_writable_rest(s: SceneView)
    requires
        writable(s),
        s.len() > 0,
    ensures
        writable(s.skip(1)),
        s[0].bundle.name matches Some(name) ==> name.len() <= usize::MAX,
        s[0].bundle.door matches Some(level) ==> level.len() <= usize::MAX,
{
    let rest = s.skip(1);
    assert forall|i: int| 0 <= i < rest.len() implies {
        &&& (#[trigger] rest[i]).bundle.name matches Some(name) ==> name.len() <= usize::MAX
        &&& rest[i].bundle.door matches Some(level) ==> level.len() <= usize::MAX
    } by {
        assert(rest[i] == s[i + 1]);
    }
}

/// What is read from `at` on, where the line of `e` is read at `at` and the
/// snapshot `rest` behind it.
proof fn lemma_read_scene_step(t: Seq<char>, at: int, e: SceneEntityView, next: int, rest: SceneView)
    requires
        0 <= at < next <= t.len(),
        read_entity(t, at) == Some((e, next)),
        read_scene(t, next) == Some(rest),
    ensures
        read_scene(t, at) == Some(seq![e] + rest),
{
}

/// The text of a snapshot, standing at the end of a text, is read back as
/// that snapshot.
pub proof fn lemma_read_scene(t: Seq<char>, at: int, s: SceneView)
    requires
        has_at(t, at, print_scene(s)),
        at + print_scene(s).len() == t.len(),
        writable(s),
    ensures
        read_scene(t, at) == Some(s),
    decreases s.len(),
{
    if s.len() > 0 {
        let rest = s.skip(1);
        let line = print_entity(s[0]);
        lemma_writable_rest(s);
        lemma_has_at_split(t, at, line, print_scene(rest));
        lemma_read_entity(t, at, s[0]);
        lemma_read_scene(t, at + line.len(), rest);
        lemma_read_scene_step(t, at, s[0], at + line.len(), rest);
        assert(seq![s[0]] + rest =~= s);
    } else {
        assert(s =~= Seq::<SceneEntityView>::empty());
    }
}

/// Writing a snapshot and reading the text gives the snapshot again.
pub proof fn law_text_round_trip(s: SceneView)
    requires
        writable(s),
    ensures
        scene_in(print_scene(s)) == Some(s),
{
    let t = print_scene(s);
    assert(t.subrange(0, t.len() as int) =~= t);
    lemma_read_scene(t, 0, s);
}

/// Writes a place in a snapshot behind `out`, or that there is none.
fn push_link(out: &mut String, link: Option<usize>)
    ensures
        final(out)@ == old(out)@ + print_link(link),
{
    match link {
        Some(n) => {
            push_nat(out, n as u64);
        },
        None => {
            proof {
                reveal_strlit("_");
            }
            out.append("_");
            assert(out@ =~= old(out)@ + print_link(link));
        },
    }
}

/// Writes a whole number behind `out`.
fn push_int(out: &mut String, i: i32)
    ensures
        final(out)@ == old(out)@ + print_int(i as int),
{
    if i < 0 {
        proof {
            reveal_strlit("-");
        }
        out.append("-");
        push_nat(out, (-(i as i64)) as u64);
        assert(out@ =~= old(out)@ + print_int(i as int));
    } else {
        push_nat(out, i as u64);
    }
}

/// Writes a pair of numbers behind `out`.
fn push_pair(out: &mut String, x: i32, y: i32)
    ensures
        final(out)@ == old(out)@ + print_pair(x, y),
{
    proof {
        reveal_strlit(",");
    }
    push_int(out, x);
    out.append(",");
    push_int(out, y);
    assert(out@ =~= old(out)@ + print_pair(x, y));
}

/// Writes a number behind what is written of the numbers that belong
/// together with it.
fn push_next(
    out: &mut String,
    Ghost(before): Ghost<Seq<char>>,
    Ghost(front): Ghost<Seq<u32>>,
    first: bool,
    n: u32,
)
    requires
        old(out)@ == before + print_numbers(front),
        first == (front.len() == 0),
    ensures
        final(out)@ == before + print_numbers(front.push(n)),
{
    proof {
        reveal_strlit(",");
        assert(front.push(n).drop_last() =~= front);
    }
    if !first {
        out.append(",");
    }
    push_nat(out, n as u64);
    proof {
        if front.len() == 0 {
            assert(print_numbers(front) =~= Seq::<char>::empty());
            assert(out@ =~= before + print_numbers(front.push(n)));
        } else {
            assert(out@ =~= before + print_numbers(front.push(n)));
        }
    }
}

/// Writes the ten numbers of a transform behind `out`.
fn push_transform(out: &mut String, t: Transform)
    ensures
        final(out)@ == old(out)@ + print_numbers(numbers_of(t)),
{
    let ghost before = out@;
    let ghost all = numbers_of(t);
    proof {
        assert(print_numbers(all.take(0)) =~= Seq::<char>::empty());
        assert(out@ =~= before + print_numbers(all.take(0)));
        assert forall|k: int| 0 <= k < 10 implies all.take(k).push(all[k]) =~= all.take(k + 1) by {}
    }
    push_next(out, Ghost(before), Ghost(all.take(0)), true, t.x);
    push_next(out, Ghost(before), Ghost(all.take(1)), false, t.y);
    push_next(out, Ghost(before), Ghost(all.take(2)), false, t.z);
    push_next(out, Ghost(before), Ghost(all.take(3)), false, t.rotation_x);
    push_next(out, Ghost(before), Ghost(all.take(4)), false, t.rotation_y);
    push_next(out, Ghost(before), Ghost(all.take(5)), false, t.rotation_z);
    push_next(out, Ghost(before), Ghost(all.take(6)), false, t.rotation_w);
    push_next(out, Ghost(before), Ghost(all.take(7)), false, t.scale_x);
    push_next(out, Ghost(before), Ghost(all.take(8)), false, t.scale_y);
    push_next(out, Ghost(before), Ghost(all.take(9)), false, t.scale_z);
    assert(all.take(10) =~= all);
}

/// Writes that a field is not there.
fn push_none(out: &mut String)
    ensures
        final(out)@ == old(out)@ + seq!['_'],
{
    proof {
        reveal_strlit("_");
    }
    out.append("_");
    assert(out@ =~= old(out)@ + seq!['_']);
}

/// Writes a piece of text behind `out`, or that there is none.
fn push_text(out: &mut String, piece: Option<&str>)
    ensures
        final(out)@ == old(out)@ + print_text(
            match piece {
                Some(s) => Some(s@),
                None => None,
            },
        ),
        piece matches Some(s) ==> s@.len() <= usize::MAX,
{
    match piece {
        Some(s) => {
            proof {
                reveal_strlit(":");
            }
            push_nat(out, s.unicode_len() as u64);
            out.append(":");
            out.append(s);
            assert(out@ =~= old(out)@ + print_text(Some(s@)));
        },
        None => {
            push_none(out);
        },
    }
}

/// Writes one field of a line and the character that ends it.
fn push_end(out: &mut String, Ghost(field): Ghost<Seq<char>>, Ghost(before): Ghost<Seq<char>>, last: bool)
    requires
        old(out)@ == before + field,
    ensures
        final(out)@ == before + field.push(
            if last {
                '\n'
            } else {
                ' '
            },
        ),
{
    proof {
        reveal_strlit(" ");
        reveal_strlit("\n");
    }
    if last {
        out.append("\n");
        assert(out@ =~= before + field.push('\n'));
    } else {
        out.append(" ");
        assert(out@ =~= before + field.push(' '));
    }
}

/// Writes the kind of body, the kind of key or the weapon of a bundle.
fn push_word(out: &mut String, word: &str)
    ensures
        final(out)@ == old(out)@ + word@,
{
    out.append(word);
}

/// The word for a kind of body.
fn body_word(body: Option<RigidBody>) -> (word: &'static str)
    ensures
        word@ == print_body(body),
{
    proof {
        reveal_strlit("_");
    }
    let word = match body {
        Some(RigidBody::Static) => "static",
        Some(RigidBody::Dynamic) => "dynamic",
        None => "_",
    };
    assert(word@ =~= print_body(body));
    word
}

/// The word for a kind of key.
fn key_word(key: Option<Key>) -> (word: &'static str)
    ensures
        word@ == print_key(key),
{
    proof {
        reveal_strlit("_");
    }
    let word = match key {
        Some(Key::MustDestroy) => "must_destroy",
        Some(Key::MustKeep) => "must_keep",
        None => "_",
    };
    assert(word@ =~= print_key(key));
    word
}

/// The word for a weapon.
fn weapon_word(weapon: Option<Weapon>) -> (word: &'static str)
    ensures
        word@ == print_weapon(weapon),
{
    proof {
        reveal_strlit("_");
    }
    let word = match weapon {
        Some(Weapon::Shotgun) => "shotgun",
        Some(Weapon::AssaultRifle) => "assault_rifle",
        Some(Weapon::GravityGun) => "gravity_gun",
        None => "_",
    };
    assert(word@ =~= print_weapon(weapon));
    word
}

/// Writes one flag behind `out`.
fn push_flag(out: &mut String, flag: bool)
    ensures
        final(out)@ == old(out)@.push(flag_char(flag)),
{
    proof {
        reveal_strlit("0");
        reveal_strlit("1");
    }
    if flag {
        out.append("1");
    } else {
        out.append("0");
    }
    assert(out@ =~= old(out)@.push(flag_char(flag)));
}

/// Writes the flags of the line of `e` behind `out`.
fn push_flags(out: &mut String, e: &SceneEntity)
    ensures
        final(out)@ == old(out)@ + print_flags(line_flags(e@)),
{
    let b = &e.bundle;
    push_flag(out, b.serialize);
    push_flag(out, b.sensor);
    push_flag(out, b.collision_events);
    push_flag(out, b.player);
    push_flag(out, b.level_geometry);
    push_flag(out, b.wall);
    push_flag(out, b.kill_box);
    push_flag(out, b.bullet);
    push_flag(out, b.selected_weapon);
    push_flag(out, e.locked);
    assert(out@ =~= old(out)@ + print_flags(line_flags(e@)));
}

/// The text of an optional piece of text.
fn as_text(piece: &Option<String>) -> (s: Option<&str>)
    ensures
        match s {
            Some(s) => text(*piece) == Some(s@),
            None => text(*piece) is None,
        },
{
    match piece {
        Some(s) => Some(s.as_str()),
        None => None,
    }
}

/// The level that an optional door leads to.
fn as_target(door: &Option<Door>) -> (s: Option<&str>)
    ensures
        match s {
            Some(s) => crate::component::target(*door) == Some(s@),
            None => crate::component::target(*door) is None,
        },
{
    match door {
        Some(d) => Some(d.0.as_str()),
        None => None,
    }
}

/// Writes the first four fields of the line of `e` behind `out`.
fn push_head(out: &mut String, e: &SceneEntity)
    ensures
        final(out)@ == old(out)@ + print_head(e@),
        e@.bundle.name matches Some(name) ==> name.len() <= usize::MAX,
{
    let ghost start = out@;
    push_link(out, e.child_of);
    push_end(out, Ghost(print_link(e.child_of)), Ghost(start), false);
    let ghost a = out@;
    push_link(out, e.key_of);
    push_end(out, Ghost(print_link(e.key_of)), Ghost(a), false);
    let ghost b = out@;
    push_text(out, as_text(&e.bundle.name));
    push_end(out, Ghost(print_text(e@.bundle.name)), Ghost(b), false);
    let ghost c = out@;
    match e.bundle.transform {
        Some(t) => {
            push_transform(out, t);
        },
        None => {
            push_none(out);
        },
    }
    push_end(out, Ghost(print_transform(e@.bundle.transform)), Ghost(c), false);
    assert(out@ =~= start + print_head(e@));
}

/// Writes the fifth to the seventh field of the line of `e` behind `out`.
fn push_middle(out: &mut String, e: &SceneEntity)
    ensures
        final(out)@ == old(out)@ + print_middle(e@),
        e@.bundle.door matches Some(level) ==> level.len() <= usize::MAX,
{
    let ghost start = out@;
    match e.bundle.collider {
        Some(c) => {
            push_pair(out, c.x_length, c.y_length);
        },
        None => {
            push_none(out);
        },
    }
    push_end(out, Ghost(print_collider(e@.bundle.collider)), Ghost(start), false);
    let ghost a = out@;
    push_word(out, body_word(e.bundle.rigid_body));
    push_end(out, Ghost(print_body(e@.bundle.rigid_body)), Ghost(a), false);
    let ghost b = out@;
    push_text(out, as_target(&e.bundle.door));
    push_end(out, Ghost(print_text(e@.bundle.door)), Ghost(b), false);
    assert(out@ =~= start + print_middle(e@));
}

/// Writes the last three fields of the line of `e` and its end behind
/// `out`.
fn push_tail(out: &mut String, e: &SceneEntity)
    ensures
        final(out)@ == old(out)@ + print_tail(e@),
{
    let ghost start = out@;
    push_word(out, key_word(e.bundle.key));
    push_end(out, Ghost(print_key(e@.bundle.key)), Ghost(start), false);
    let ghost a = out@;
    push_word(out, weapon_word(e.bundle.weapon));
    push_end(out, Ghost(print_weapon(e@.bundle.weapon)), Ghost(a), false);
    let ghost b = out@;
    push_flags(out, e);
    push_end(out, Ghost(print_flags(line_flags(e@))), Ghost(b), true);
    assert(out@ =~= start + print_tail(e@));
}

/// Writes the snapshot `scene` as text: one line for each saved entity.
pub fn encode(scene: &Scene) -> (written: String)
    ensures
        written@ == print_scene(scene@),
        writable(scene@),
        scene_in(written@) == Some(scene@),
{
    let mut out = String::new();
    let mut i: usize = 0;
    proof {
        assert(scene@.skip(0) =~= scene@);
        assert(out@ + print_scene(scene@) =~= print_scene(scene@));
    }
    while i < scene.entities.len()
        invariant
            i <= scene.entities.len(),
            print_scene(scene@) == out@ + print_scene(scene@.skip(i as int)),
            forall|j: int|
                0 <= j < i ==> {
                    &&& (#[trigger] scene@[j]).bundle.name matches Some(name) ==> name.len()
                        <= usize::MAX
                    &&& scene@[j].bundle.door matches Some(level) ==> level.len() <= usize::MAX
                },
        decreases scene.entities.len() - i,
    {
        let e = &scene.entities[i];
        let ghost before = out@;
        let ghost rest = scene@.skip(i as int);
        proof {
            assert(rest[0] == e@);
            assert(rest.skip(1) =~= scene@.skip(i + 1));
        }
        push_head(&mut out, e);
        push_middle(&mut out, e);
        push_tail(&mut out, e);
        proof {
            assert(out@ =~= before + print_entity(e@));
            assert(out@ + print_scene(scene@.skip(i + 1)) =~= before + print_scene(rest));
        }
        i += 1;
    }
    proof {
        assert(scene@.skip(i as int) =~= Seq::<SceneEntityView>::empty());
        assert(out@ =~= print_scene(scene@));
        law_text_round_trip(scene@);
    }
    out
}

/// Whether the character `c` stands at `at`.
fn is_char(chars: &Vec<char>, at: usize, c: char) -> (found: bool)
    ensures
        found == char_at(chars@, at as int, c),
{
    at < chars.len() && chars[at] == c
}

/// Whether `word` stands at `at`.
fn word_at(chars: &Vec<char>, at: usize, word: &str) -> (found: bool)
    requires
        at <= chars.len(),
    ensures
        found == has_at(chars@, at as int, word@),
{
    let n = word.unicode_len();
    if chars.len() - at < n {
        return false;
    }
    let mut i: usize = 0;
    while i < n
        invariant
            i <= n,
            n == word@.len(),
            at + n <= chars.len(),
            forall|j: int| 0 <= j < i ==> chars@[at + j] == word@[j],
        decreases n - i,
    {
        if chars[at + i] != word.get_char(i) {
            assert(chars@.subrange(at as int, at + n)[i as int] != word@[i as int]);
            return false;
        }
        i += 1;
    }
    assert(chars@.subrange(at as int, at + n) =~= word@);
    true
}

/// Reads a place in a snapshot, or that there is none.
fn read_link_at(chars: &Vec<char>, at: usize) -> (read: Option<(Option<usize>, usize)>)
    requires
        at <= chars.len(),
    ensures
        match read {
            Some((link, next)) => read_link(chars@, at as int) == Some((link, next as int))
                && next <= chars.len(),
            None => read_link(chars@, at as int) is None,
        },
{
    if is_char(chars, at, '_') {
        Some((None, at + 1))
    } else {
        match read_number(chars, at, usize::MAX as u64) {
            Some((n, next)) => Some((Some(n as usize), next)),
            None => None,
        }
    }
}

/// Reads a whole number of 32 bits.
fn read_i32_at(chars: &Vec<char>, at: usize) -> (read: Option<(i32, usize)>)
    requires
        at <= chars.len(),
    ensures
        match read {
            Some((i, next)) => read_i32(chars@, at as int) == Some((i, next as int)) && next
                <= chars.len(),
            None => read_i32(chars@, at as int) is None,
        },
{
    if is_char(chars, at, '-') {
        match read_number(chars, at + 1, 0x8000_0000) {
            Some((n, next)) => Some(((-(n as i64)) as i32, next)),
            None => None,
        }
    } else {
        match read_number(chars, at, 0x7fff_ffff) {
            Some((n, next)) => Some((n as i32, next)),
            None => None,
        }
    }
}

/// Reads a pair of numbers.
fn read_pair_at(chars: &Vec<char>, at: usize) -> (read: Option<((i32, i32), usize)>)
    requires
        at <= chars.len(),
    ensures
        match read {
            Some((pair, next)) => read_pair(chars@, at as int) == Some((pair, next as int))
                && next <= chars.len(),
            None => read_pair(chars@, at as int) is None,
        },
{
    let (x, comma) = match read_i32_at(chars, at) {
        Some(read) => read,
        None => {
            return None;
        },
    };
    if !is_char(chars, comma, ',') {
        return None;
    }
    match read_i32_at(chars, comma + 1) {
        Some((y, next)) => Some(((x, y), next)),
        None => None,
    }
}

/// Reads ten numbers of 32 bits with commas between them.
fn read_numbers_at(chars: &Vec<char>, at: usize) -> (read: Option<(Vec<u32>, usize)>)
    requires
        at <= chars.len(),
    ensures
        match read {
            Some((numbers, next)) => read_numbers(chars@, at as int, 10) == Some(
                (numbers@, next as int),
            ) && next <= chars.len() && numbers.len() == 10,
            None => read_numbers(chars@, at as int, 10) is None,
        },
{
    let mut numbers: Vec<u32> = Vec::new();
    let mut next = match read_number(chars, at, 0xffff_ffff) {
        Some((n, next)) => {
            numbers.push(n as u32);
            assert(numbers@ =~= seq![n as u32]);
            next
        },
        None => {
            proof {
                lemma_numbers_stop(chars@, at as int, 0, 10);
            }
            return None;
        },
    };
    let mut k: usize = 1;
    while k < 10
        invariant
            1 <= k <= 10,
            at <= chars.len(),
            next <= chars.len(),
            numbers.len() == k,
            read_numbers(chars@, at as int, k as nat) == Some((numbers@, next as int)),
        decreases 10 - k,
    {
        if !is_char(chars, next, ',') {
            proof {
                lemma_numbers_stop(chars@, at as int, k as nat, 10);
            }
            return None;
        }
        match read_number(chars, next + 1, 0xffff_ffff) {
            Some((n, after)) => {
                numbers.push(n as u32);
                next = after;
            },
            None => {
                proof {
                    lemma_numbers_stop(chars@, at as int, k as nat, 10);
                }
                return None;
            },
        }
        k += 1;
    }
    Some((numbers, next))
}

/// Where the number behind the first `k` cannot be read, no more numbers
/// can be read either.
proof fn lemma_numbers_stop(t: Seq<char>, at: int, k: nat, count: nat)
    requires
        k < count,
        read_numbers(t, at, k + 1) is None,
    ensures
        read_numbers(t, at, count) is None,
    decreases count,
{
    if count > k + 1 {
        lemma_numbers_stop(t, at, k, (count - 1) as nat);
    }
}

/// Reads a transform, or that there is none.
fn read_transform_at(chars: &Vec<char>, at: usize) -> (read: Option<(Option<Transform>, usize)>)
    requires
        at <= chars.len(),
    ensures
        match read {
            Some((transform, next)) => read_transform(chars@, at as int) == Some(
                (transform, next as int),
            ) && next <= chars.len(),
            None => read_transform(chars@, at as int) is None,
        },
{
    if is_char(chars, at, '_') {
        Some((None, at + 1))
    } else {
        match read_numbers_at(chars, at) {
            Some((n, next)) => Some(
                (
                    Some(
                        Transform {
                            x: n[0],
                            y: n[1],
                            z: n[2],
                            rotation_x: n[3],
                            rotation_y: n[4],
                            rotation_z: n[5],
                            rotation_w: n[6],
                            scale_x: n[7],
                            scale_y: n[8],
                            scale_z: n[9],
                        },
                    ),
                    next,
                ),
            ),
            None => None,
        }
    }
}

/// Reads a collision volume, or that there is none.
fn read_collider_at(chars: &Vec<char>, at: usize) -> (read: Option<
    (Option<SerializedColliderConstructor>, usize),
>)
    requires
        at <= chars.len(),
    ensures
        match read {
            Some((collider, next)) => read_collider(chars@, at as int) == Some(
                (collider, next as int),
            ) && next <= chars.len(),
            None => read_collider(chars@, at as int) is None,
        },
{
    if is_char(chars, at, '_') {
        Some((None, at + 1))
    } else {
        match read_pair_at(chars, at) {
            Some(((x, y), next)) => Some(
                (Some(SerializedColliderConstructor { x_length: x, y_length: y }), next),
            ),
            None => None,
        }
    }
}

/// Reads a piece of text, or that there is none. `chars` holds the
/// characters of `line`.
fn read_text_at(line: &str, chars: &Vec<char>, at: usize) -> (read: Option<(Option<String>, usize)>)
    requires
        chars@ == line@,
        at <= chars.len(),
    ensures
        match read {
            Some((piece, next)) => read_text(chars@, at as int) == Some((text(piece), next as int))
                && next <= chars.len(),
            None => read_text(chars@, at as int) is None,
        },
{
    if is_char(chars, at, '_') {
        return Some((None, at + 1));
    }
    let (n, colon) = match read_number(chars, at, usize::MAX as u64) {
        Some(read) => read,
        None => {
            return None;
        },
    };
    let n = n as usize;
    if !is_char(chars, colon, ':') || chars.len() - colon - 1 < n {
        return None;
    }
    let piece = line.substring_char(colon + 1, colon + 1 + n);
    Some((Some(piece.to_owned()), colon + 1 + n))
}

/// Reads the kind of a body, or that there is none.
fn read_body_at(chars: &Vec<char>, at: usize) -> (read: Option<(Option<RigidBody>, usize)>)
    requires
        at <= chars.len(),
    ensures
        match read {
            Some((body, next)) => read_body(chars@, at as int) == Some((body, next as int))
                && next <= chars.len(),
            None => read_body(chars@, at as int) is None,
        },
{
    proof {
        reveal_strlit("static");
        reveal_strlit("dynamic");
    }
    if is_char(chars, at, '_') {
        Some((None, at + 1))
    } else if word_at(chars, at, "static") {
        Some((Some(RigidBody::Static), at + 6))
    } else if word_at(chars, at, "dynamic") {
        Some((Some(RigidBody::Dynamic), at + 7))
    } else {
        None
    }
}

/// Reads the kind of a key, or that there is none.
fn read_key_at(chars: &Vec<char>, at: usize) -> (read: Option<(Option<Key>, usize)>)
    requires
        at <= chars.len(),
    ensures
        match read {
            Some((key, next)) => read_key(chars@, at as int) == Some((key, next as int)) && next
                <= chars.len(),
            None => read_key(chars@, at as int) is None,
        },
{
    proof {
        reveal_strlit("must_destroy");
        reveal_strlit("must_keep");
    }
    if is_char(chars, at, '_') {
        Some((None, at + 1))
    } else if word_at(chars, at, "must_destroy") {
        Some((Some(Key::MustDestroy), at + 12))
    } else if word_at(chars, at, "must_keep") {
        Some((Some(Key::MustKeep), at + 9))
    } else {
        None
    }
}

/// Reads a weapon, or that there is none.
fn read_weapon_at(chars: &Vec<char>, at: usize) -> (read: Option<(Option<Weapon>, usize)>)
    requires
        at <= chars.len(),
    ensures
        match read {
            Some((weapon, next)) => read_weapon(chars@, at as int) == Some((weapon, next as int))
                && next <= chars.len(),
            None => read_weapon(chars@, at as int) is None,
        },
{
    proof {
        reveal_strlit("shotgun");
        reveal_strlit("assault_rifle");
        reveal_strlit("gravity_gun");
    }
    if is_char(chars, at, '_') {
        Some((None, at + 1))
    } else if word_at(chars, at, "shotgun") {
        Some((Some(Weapon::Shotgun), at + 7))
    } else if word_at(chars, at, "assault_rifle") {
        Some((Some(Weapon::AssaultRifle), at + 13))
    } else if word_at(chars, at, "gravity_gun") {
        Some((Some(Weapon::GravityGun), at + 11))
    } else {
        None
    }
}

/// Reads the ten flags of a line.
fn read_flags_at(chars: &Vec<char>, at: usize) -> (read: Option<(Vec<bool>, usize)>)
    requires
        at <= chars.len(),
    ensures
        match read {
            Some((flags, next)) => read_flags(chars@, at as int, 10) == Some(
                (flags@, next as int),
            ) && next <= chars.len() && flags.len() == 10,
            None => read_flags(chars@, at as int, 10) is None,
        },
{
    let mut flags: Vec<bool> = Vec::new();
    let mut k: usize = 0;
    while k < 10
        invariant
            k <= 10,
            at + k <= chars.len(),
            flags.len() == k,
            read_flags(chars@, at as int, k as nat) == Some((flags@, at + k)),
        decreases 10 - k,
    {
        if is_char(chars, at + k, '1') {
            flags.push(true);
        } else if is_char(chars, at + k, '0') {
            flags.push(false);
        } else {
            proof {
                lemma_flags_stop(chars@, at as int, k as nat, 10);
            }
            return None;
        }
        k += 1;
    }
    Some((flags, at + 10))
}

/// Where no flag can be read, no more flags can be read either.
proof fn lemma_flags_stop(t: Seq<char>, at: int, k: nat, count: nat)
    requires
        k < count,
        read_flags(t, at, k) matches Some((flags, last)) && !char_at(t, last, '1') && !char_at(
            t,
            last,
            '0',
        ),
    ensures
        read_flags(t, at, count) is None,
    decreases count,
{
    if count > k + 1 {
        lemma_flags_stop(t, at, k, (count - 1) as nat);
    }
}

/// Reads the first four fields of a line.
fn read_head_at(line: &str, chars: &Vec<char>, at: usize) -> (read: Option<
    (Option<usize>, Option<usize>, Option<String>, Option<Transform>, usize),
>)
    requires
        chars@ == line@,
        at <= chars.len(),
    ensures
        match read {
            Some((child_of, key_of, name, transform, next)) => read_head(chars@, at as int)
                == Some((child_of, key_of, text(name), transform, next as int)) && next
                <= chars.len(),
            None => read_head(chars@, at as int) is None,
        },
{
    let (child_of, a) = match read_link_at(chars, at) {
        Some(read) => read,
        None => {
            return None;
        },
    };
    if !is_char(chars, a, ' ') {
        return None;
    }
    let (key_of, a) = match read_link_at(chars, a + 1) {
        Some(read) => read,
        None => {
            return None;
        },
    };
    if !is_char(chars, a, ' ') {
        return None;
    }
    let (name, a) = match read_text_at(line, chars, a + 1) {
        Some(read) => read,
        None => {
            return None;
        },
    };
    if !is_char(chars, a, ' ') {
        return None;
    }
    let (transform, a) = match read_transform_at(chars, a + 1) {
        Some(read) => read,
        None => {
            return None;
        },
    };
    if !is_char(chars, a, ' ') {
        return None;
    }
    Some((child_of, key_of, name, transform, a + 1))
}

/// Reads the fifth to the seventh field of a line.
fn read_middle_at(line: &str, chars: &Vec<char>, at: usize) -> (read: Option<
    (Option<SerializedColliderConstructor>, Option<RigidBody>, Option<String>, usize),
>)
    requires
        chars@ == line@,
        at <= chars.len(),
    ensures
        match read {
            Some((collider, rigid_body, door, next)) => read_middle(chars@, at as int) == Some(
                (collider, rigid_body, text(door), next as int),
            ) && next <= chars.len(),
            None => read_middle(chars@, at as int) is None,
        },
{
    let (collider, a) = match read_collider_at(chars, at) {
        Some(read) => read,
        None => {
            return None;
        },
    };
    if !is_char(chars, a, ' ') {
        return None;
    }
    let (rigid_body, a) = match read_body_at(chars, a + 1) {
        Some(read) => read,
        None => {
            return None;
        },
    };
    if !is_char(chars, a, ' ') {
        return None;
    }
    let (door, a) = match read_text_at(line, chars, a + 1) {
        Some(read) => read,
        None => {
            return None;
        },
    };
    if !is_char(chars, a, ' ') {
        return None;
    }
    Some((collider, rigid_body, door, a + 1))
}

/// Reads the last three fields of a line and its end.
fn read_tail_at(chars: &Vec<char>, at: usize) -> (read: Option<
    (Option<Key>, Option<Weapon>, Vec<bool>, usize),
>)
    requires
        at <= chars.len(),
    ensures
        match read {
            Some((key, weapon, flags, next)) => read_tail(chars@, at as int) == Some(
                (key, weapon, flags@, next as int),
            ) && next <= chars.len() && flags.len() == 10,
            None => read_tail(chars@, at as int) is None,
        },
{
    let (key, a) = match read_key_at(chars, at) {
        Some(read) => read,
        None => {
            return None;
        },
    };
    if !is_char(chars, a, ' ') {
        return None;
    }
    let (weapon, a) = match read_weapon_at(chars, a + 1) {
        Some(read) => read,
        None => {
            return None;
        },
    };
    if !is_char(chars, a, ' ') {
        return None;
    }
    let (flags, a) = match read_flags_at(chars, a + 1) {
        Some(read) => read,
        None => {
            return None;
        },
    };
    if !is_char(chars, a, '\n') {
        return None;
    }
    Some((key, weapon, flags, a + 1))
}

/// Reads the line of a saved entity that begins at `at`.
fn read_entity_at(line: &str, chars: &Vec<char>, at: usize) -> (read: Option<(SceneEntity, usize)>)
    requires
        chars@ == line@,
        at <= chars.len(),
    ensures
        match read {
            Some((e, next)) => read_entity(chars@, at as int) == Some((e@, next as int)) && next
                <= chars.len(),
            None => read_entity(chars@, at as int) is None,
        },
{
    let (child_of, key_of, name, transform, a) = match read_head_at(line, chars, at) {
        Some(read) => read,
        None => {
            return None;
        },
    };
    let (collider, rigid_body, door, a) = match read_middle_at(line, chars, a) {
        Some(read) => read,
        None => {
            return None;
        },
    };
    let (key, weapon, flags, a) = match read_tail_at(chars, a) {
        Some(read) => read,
        None => {
            return None;
        },
    };
    let bundle = Bundle {
        serialize: flags[0],
        name,
        transform,
        collider,
        rigid_body,
        sensor: flags[1],
        collision_events: flags[2],
        player: flags[3],
        level_geometry: flags[4],
        wall: flags[5],
        kill_box: flags[6],
        bullet: flags[7],
        door: match door {
            Some(level) => Some(Door(level)),
            None => None,
        },
        key,
        weapon,
        selected_weapon: flags[8],
    };
    Some((SceneEntity { bundle, child_of, key_of, locked: flags[9] }, a))
}

/// Reads the text of a saved level. There is no snapshot if some line is
/// not the line of an entity.
pub fn decode(written: &str) -> (scene: Option<Scene>)
    ensures
        match scene {
            Some(scene) => scene_in(written@) == Some(scene@),
            None => scene_in(written@) is None,
        },
{
    let chars = chars_of(written);
    let mut entities: Vec<SceneEntity> = Vec::new();
    let mut at: usize = 0;
    while at < chars.len()
        invariant
            at <= chars.len(),
            chars@ == written@,
            scene_in(chars@) == match read_scene(chars@, at as int) {
                Some(rest) => Some(entities@.map_values(|e: SceneEntity| e@) + rest),
                None => None,
            },
        decreases chars.len() - at,
    {
        let ghost done = entities@.map_values(|e: SceneEntity| e@);
        match read_entity_at(written, &chars, at) {
            Some((e, next)) => {
                if next <= at {
                    return None;
                }
                proof {
                    let longer = done.push(e@);
                    assert(entities@.push(e).map_values(|e: SceneEntity| e@) =~= longer);
                    if let Some(rest) = read_scene(chars@, next as int) {
                        assert(done + (seq![e@] + rest) =~= longer + rest);
                    }
                }
                entities.push(e);
                at = next;
            },
            None => {
                return None;
            },
        }
    }
    proof {
        let done = entities@.map_values(|e: SceneEntity| e@);
        assert(done + Seq::<SceneEntityView>::empty() =~= done);
    }
    Some(Scene { entities })
}

} // verus!
