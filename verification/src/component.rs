//! The components an entity can carry, and the bundles that spawn them
//! together.

use vstd::prelude::*;

verus! {

/// The width of the playing field, in world units.
pub const WIDTH: i32 = 1280;

/// The height of the playing field, in world units.
pub const HEIGHT: i32 = 720;

/// The handle of an entity. Handles are given out in rising order and never
/// reused.
pub type EntityId = usize;

/// The bits of the single-precision number one.
pub const ONE: u32 = 0x3f80_0000;

/// Where the player of a fresh level stands: the bits of minus four hundred.
pub const PLAYER_X: u32 = 0xc3c8_0000;

/// Where the kill box of a fresh level hangs: the bits of minus two hundred.
pub const KILL_BOX_Y: u32 = 0xc348_0000;

/// The right edge of the playing field: the bits of half its width.
pub const RIGHT: u32 = 0x4420_0000;

/// The left edge of the playing field: the bits of minus half its width.
pub const LEFT: u32 = 0xc420_0000;

/// The upper edge of the playing field: the bits of half its height.
pub const TOP: u32 = 0x43b4_0000;

/// The lower edge of the playing field: the bits of minus half its height.
pub const BOTTOM: u32 = 0xc3b4_0000;

/// Where an entity stands, how it is turned and how large it is drawn. Each
/// field holds the bits of a single-precision number. The engine carries
/// these numbers and never computes on them, so a transform comes back from
/// a save bit for bit.
#[derive(Clone, Copy, Debug, PartialEq, Eq, Structural)]
pub struct Transform {
    pub x: u32,
    pub y: u32,
    pub z: u32,
    pub rotation_x: u32,
    pub rotation_y: u32,
    pub rotation_z: u32,
    pub rotation_w: u32,
    pub scale_x: u32,
    pub scale_y: u32,
    pub scale_z: u32,
}

impl Transform {
    /// The transform that places an entity at (`x`, `y`), unturned and in
    /// its own size.
    pub open spec fn at(x: u32, y: u32) -> Transform {
        Transform {
            x,
            y,
            z: 0,
            rotation_x: 0,
            rotation_y: 0,
            rotation_z: 0,
            rotation_w: ONE,
            scale_x: ONE,
            scale_y: ONE,
            scale_z: ONE,
        }
    }

    /// The transform that places an entity at the place whose coordinates
    /// have the bits `x` and `y`, unturned and in its own size.
    pub fn from_xy(x: u32, y: u32) -> (t: Transform)
        ensures
            t == Transform::at(x, y),
    {
        Transform {
            x,
            y,
            z: 0,
            rotation_x: 0,
            rotation_y: 0,
            rotation_z: 0,
            rotation_w: ONE,
            scale_x: ONE,
            scale_y: ONE,
            scale_z: ONE,
        }
    }
}

impl Default for Transform {
    /// The origin, unturned and in its own size.
    fn default() -> (t: Transform)
        ensures
            t == Transform::at(0, 0),
    {
        Transform::from_xy(0, 0)
    }
}

/// The description from which the physics side builds a rectangular
/// collision volume, in whole world units.
#[derive(Clone, Copy, Debug, PartialEq, Eq, Structural)]
pub struct SerializedColliderConstructor {
    pub x_length: i32,
    pub y_length: i32,
}

/// The collider description of a `width` by `height` rectangle.
pub fn rectangle(width: i32, height: i32) -> (c: SerializedColliderConstructor)
    ensures
        c == (SerializedColliderConstructor { x_length: width, y_length: height }),
{
    SerializedColliderConstructor { x_length: width, y_length: height }
}

/// How the physics side moves a body.
#[derive(Clone, Copy, Debug, PartialEq, Eq, Structural)]
pub enum RigidBody {
    Static,
    Dynamic,
}

/// The weapons whose selection is saved with a level.
#[derive(Clone, Copy, Debug, PartialEq, Eq, Structural)]
pub enum Weapon {
    Shotgun,
    AssaultRifle,
    GravityGun,
}

impl Weapon {
    /// The name under which the weapon is spawned.
    pub open spec fn title(self) -> Seq<char> {
        match self {
            Weapon::Shotgun => "Shotgun"@,
            Weapon::AssaultRifle => "Assault Rifle"@,
            Weapon::GravityGun => "Gravity Gun"@,
        }
    }

    /// The name under which the weapon is spawned.
    pub fn name(self) -> (name: String)
        ensures
            name@ == self.title(),
    {
        match self {
            Weapon::Shotgun => "Shotgun".to_owned(),
            Weapon::AssaultRifle => "Assault Rifle".to_owned(),
            Weapon::GravityGun => "Gravity Gun".to_owned(),
        }
    }
}

/// The two kinds of key. A door stays shut while one of its `MustDestroy`
/// keys exists, and is locked for good when one of its `MustKeep` keys goes.
#[derive(Clone, Copy, Debug, PartialEq, Eq, Structural)]
pub enum Key {
    MustDestroy,
    MustKeep,
}

/// A door, holding the identifier of the level it leads to.
#[derive(Debug, PartialEq, Eq)]
pub struct Door(pub String);

impl View for Door {
    type V = Seq<char>;

    open spec fn view(&self) -> Seq<char> {
        self.0@
    }
}

impl Clone for Door {
    fn clone(&self) -> (d: Door)
        ensures
            d@ == self@,
    {
        Door(self.0.clone())
    }
}

/// The back-reference of a key to the door that owns it.
#[derive(Clone, Copy, Debug, PartialEq, Eq, Structural)]
pub struct KeyOf(pub EntityId);

/// The state of the placeholder under which a saved level is loaded.
#[derive(Clone, Copy, Debug, PartialEq, Eq, Structural)]
pub enum SceneRoot {
    /// The load has been asked for and has not come back.
    Pending,
    /// The saved entities stand below the placeholder.
    Instanced,
}

/// The view of an optional piece of text.
pub open spec fn text(s: Option<String>) -> Option<Seq<char>> {
    match s {
        Some(s) => Some(s@),
        None => None,
    }
}

/// The view of an optional door.
pub open spec fn target(d: Option<Door>) -> Option<Seq<char>> {
    match d {
        Some(d) => Some(d@),
        None => None,
    }
}

/// The components that are spawned together on one entity. The relations of
/// an entity to others (its parent, its door, its keys) are not part of its
/// bundle: the world keeps them.
#[derive(Debug, PartialEq, Eq)]
pub struct Bundle {
    /// The persistence tag: the entity is saved with its level.
    pub serialize: bool,
    pub name: Option<String>,
    pub transform: Option<Transform>,
    pub collider: Option<SerializedColliderConstructor>,
    pub rigid_body: Option<RigidBody>,
    /// The entity is a trigger volume: it reports contacts and blocks nothing.
    pub sensor: bool,
    /// Contacts of the entity are reported as collision events.
    pub collision_events: bool,
    pub player: bool,
    /// The root container of a level's geometry.
    pub level_geometry: bool,
    pub wall: bool,
    pub kill_box: bool,
    /// A projectile. Bullets are never saved.
    pub bullet: bool,
    pub door: Option<Door>,
    pub key: Option<Key>,
    pub weapon: Option<Weapon>,
    pub selected_weapon: bool,
}

/// The mathematical value of a [`Bundle`].
pub struct BundleView {
    pub serialize: bool,
    pub name: Option<Seq<char>>,
    pub transform: Option<Transform>,
    pub collider: Option<SerializedColliderConstructor>,
    pub rigid_body: Option<RigidBody>,
    pub sensor: bool,
    pub collision_events: bool,
    pub player: bool,
    pub level_geometry: bool,
    pub wall: bool,
    pub kill_box: bool,
    pub bullet: bool,
    pub door: Option<Seq<char>>,
    pub key: Option<Key>,
    pub weapon: Option<Weapon>,
    pub selected_weapon: bool,
}

impl View for Bundle {
    type V = BundleView;

    open spec fn view(&self) -> BundleView {
        BundleView {
            serialize: self.serialize,
            name: text(self.name),
            transform: self.transform,
            collider: self.collider,
            rigid_body: self.rigid_body,
            sensor: self.sensor,
            collision_events: self.collision_events,
            player: self.player,
            level_geometry: self.level_geometry,
            wall: self.wall,
            kill_box: self.kill_box,
            bullet: self.bullet,
            door: target(self.door),
            key: self.key,
            weapon: self.weapon,
            selected_weapon: self.selected_weapon,
        }
    }
}

impl BundleView {
    /// The bundle without any component.
    pub open spec fn empty() -> BundleView {
        BundleView {
            serialize: false,
            name: None,
            transform: None,
            collider: None,
            rigid_body: None,
            sensor: false,
            collision_events: false,
            player: false,
            level_geometry: false,
            wall: false,
            kill_box: false,
            bullet: false,
            door: None,
            key: None,
            weapon: None,
            selected_weapon: false,
        }
    }

    /// A static body that is saved with its level.
    pub open spec fn fixture() -> BundleView {
        BundleView { serialize: true, rigid_body: Some(RigidBody::Static), ..Self::empty() }
    }

    /// A fixture that reports contacts and blocks nothing.
    pub open spec fn trigger() -> BundleView {
        BundleView { sensor: true, collision_events: true, ..Self::fixture() }
    }

    /// A trigger of the size of a door or a key, at the origin.
    pub open spec fn gate_piece() -> BundleView {
        BundleView {
            transform: Some(Transform::at(0, 0)),
            collider: Some(SerializedColliderConstructor { x_length: 20, y_length: 20 }),
            ..Self::trigger()
        }
    }

    /// A wall.
    pub open spec fn wall() -> BundleView {
        BundleView { wall: true, ..Self::fixture() }
    }

    /// A kill box.
    pub open spec fn kill_box() -> BundleView {
        BundleView { kill_box: true, ..Self::trigger() }
    }

    /// A door to the level `level`.
    pub open spec fn door(level: Seq<char>) -> BundleView {
        BundleView { door: Some(level), ..Self::gate_piece() }
    }

    /// A key of the kind `kind`.
    pub open spec fn key(kind: Key) -> BundleView {
        BundleView { key: Some(kind), ..Self::gate_piece() }
    }

    /// The player: a dynamic body at the origin.
    pub open spec fn player() -> BundleView {
        BundleView {
            serialize: true,
            transform: Some(Transform::at(0, 0)),
            rigid_body: Some(RigidBody::Dynamic),
            player: true,
            ..Self::empty()
        }
    }

    /// The root container of a level's geometry, at the origin.
    pub open spec fn level_geometry() -> BundleView {
        BundleView {
            serialize: true,
            transform: Some(Transform::at(0, 0)),
            level_geometry: true,
            ..Self::empty()
        }
    }

    /// A weapon under its name.
    pub open spec fn weapon(weapon: Weapon) -> BundleView {
        BundleView {
            serialize: true,
            name: Some(weapon.title()),
            weapon: Some(weapon),
            ..Self::empty()
        }
    }

    /// A weapon under its name, marked as the selected one.
    pub open spec fn selected(weapon: Weapon) -> BundleView {
        BundleView { selected_weapon: true, ..Self::weapon(weapon) }
    }

    /// The placeholder of a load of the level `level`: nothing but the name
    /// of the level.
    pub open spec fn holder(level: Seq<char>) -> BundleView {
        BundleView { name: Some(level), ..Self::empty() }
    }

    /// A bullet: a dynamic body that is never saved.
    pub open spec fn bullet() -> BundleView {
        BundleView { rigid_body: Some(RigidBody::Dynamic), bullet: true, ..Self::empty() }
    }

    /// What a save keeps of a bundle: every component but the bullet marker,
    /// under the persistence tag.
    pub open spec fn persistent(self) -> BundleView {
        BundleView { serialize: true, bullet: false, ..self }
    }
}

impl Bundle {
    /// The bundle without any component.
    pub fn empty() -> (b: Bundle)
        ensures
            b@ == BundleView::empty(),
    {
        Bundle {
            serialize: false,
            name: None,
            transform: None,
            collider: None,
            rigid_body: None,
            sensor: false,
            collision_events: false,
            player: false,
            level_geometry: false,
            wall: false,
            kill_box: false,
            bullet: false,
            door: None,
            key: None,
            weapon: None,
            selected_weapon: false,
        }
    }

    /// A wall: a static body that is saved with its level.
    pub fn wall() -> (b: Bundle)
        ensures
            b@ == BundleView::wall(),
    {
        let mut b = Bundle::empty();
        b.serialize = true;
        b.rigid_body = Some(RigidBody::Static);
        b.wall = true;
        b
    }

    /// A kill box: a static trigger volume that is saved with its level.
    pub fn kill_box() -> (b: Bundle)
        ensures
            b@ == BundleView::kill_box(),
    {
        let mut b = Bundle::empty();
        b.serialize = true;
        b.rigid_body = Some(RigidBody::Static);
        b.sensor = true;
        b.collision_events = true;
        b.kill_box = true;
        b
    }

    /// A door to `level`: a static trigger volume of 20 by 20 units at the
    /// origin, saved with its level.
    pub fn door(level: String) -> (b: Bundle)
        ensures
            b@ == BundleView::door(level@),
    {
        let mut b = Bundle::empty();
        b.serialize = true;
        b.transform = Some(Transform::from_xy(0, 0));
        b.collider = Some(rectangle(20, 20));
        b.rigid_body = Some(RigidBody::Static);
        b.sensor = true;
        b.collision_events = true;
        b.door = Some(Door(level));
        b
    }

    /// A key of the given kind: a static trigger volume of 20 by 20 units at
    /// the origin, saved with its level.
    pub fn key(kind: Key) -> (b: Bundle)
        ensures
            b@ == BundleView::key(kind),
    {
        let mut b = Bundle::empty();
        b.serialize = true;
        b.transform = Some(Transform::from_xy(0, 0));
        b.collider = Some(rectangle(20, 20));
        b.rigid_body = Some(RigidBody::Static);
        b.sensor = true;
        b.collision_events = true;
        b.key = Some(kind);
        b
    }

    /// The player: a dynamic body at the origin, saved with its level.
    pub fn player() -> (b: Bundle)
        ensures
            b@ == BundleView::player(),
    {
        let mut b = Bundle::empty();
        b.serialize = true;
        b.transform = Some(Transform::from_xy(0, 0));
        b.rigid_body = Some(RigidBody::Dynamic);
        b.player = true;
        b
    }

    /// The root container of a level's geometry, at the origin.
    pub fn level_geometry() -> (b: Bundle)
        ensures
            b@ == BundleView::level_geometry(),
    {
        let mut b = Bundle::empty();
        b.serialize = true;
        b.transform = Some(Transform::from_xy(0, 0));
        b.level_geometry = true;
        b
    }

    /// A weapon under its name, saved with its level.
    pub fn weapon(weapon: Weapon) -> (b: Bundle)
        ensures
            b@ == BundleView::weapon(weapon),
    {
        let mut b = Bundle::empty();
        b.serialize = true;
        b.name = Some(weapon.name());
        b.weapon = Some(weapon);
        b
    }

    /// A bullet: a dynamic body that is never saved.
    pub fn bullet() -> (b: Bundle)
        ensures
            b@ == BundleView::bullet(),
    {
        let mut b = Bundle::empty();
        b.rigid_body = Some(RigidBody::Dynamic);
        b.bullet = true;
        b
    }

    /// The same bundle under the name `name`.
    pub fn with_name(self, name: String) -> (b: Bundle)
        ensures
            b@ == (BundleView { name: Some(name@), ..self@ }),
    {
        let mut b = self;
        b.name = Some(name);
        b
    }

    /// The same bundle at `transform`.
    pub fn with_transform(self, transform: Transform) -> (b: Bundle)
        ensures
            b@ == (BundleView { transform: Some(transform), ..self@ }),
    {
        let mut b = self;
        b.transform = Some(transform);
        b
    }

    /// The same bundle with the collision volume `collider`.
    pub fn with_collider(self, collider: SerializedColliderConstructor) -> (b: Bundle)
        ensures
            b@ == (BundleView { collider: Some(collider), ..self@ }),
    {
        let mut b = self;
        b.collider = Some(collider);
        b
    }

    /// What a save keeps of this bundle.
    pub fn persistent(&self) -> (b: Bundle)
        ensures
            b@ == self@.persistent(),
    {
        let mut b = self.clone();
        b.serialize = true;
        b.bullet = false;
        b
    }
}

impl Clone for Bundle {
    fn clone(&self) -> (b: Bundle)
        ensures
            b@ == self@,
    {
        Bundle {
            serialize: self.serialize,
            name: match &self.name {
                Some(name) => Some(name.clone()),
                None => None,
            },
            transform: self.transform,
            collider: self.collider,
            rigid_body: self.rigid_body,
            sensor: self.sensor,
            collision_events: self.collision_events,
            player: self.player,
            level_geometry: self.level_geometry,
            wall: self.wall,
            kill_box: self.kill_box,
            bullet: self.bullet,
            door: match &self.door {
                Some(door) => Some(door.clone()),
                None => None,
            },
            key: self.key,
            weapon: self.weapon,
            selected_weapon: self.selected_weapon,
        }
    }
}

} // verus!
