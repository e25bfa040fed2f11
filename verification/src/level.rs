//! The level lifecycle: the identifier of the active level, and the
//! operations that replace the content of the world.

use crate::codec::{decode, encode, print_scene, scene_in};
use crate::component::{Bundle, BundleView, EntityId, Key, SceneRoot, Transform, Weapon};
use crate::model::{
    after_removal, alive, armed, bootstrapped, can_pass, can_pick_up, children_of, cleaned,
    disarmed, duplicated, is_door, level_roots, moved, picked_up, retargeted, spawned,
    well_formed, WorldView,
};
use crate::scene::{
    instantiable, instantiated, scene_asset, scene_asset_path, scene_file, scene_file_path,
    scene_of,
};
use crate::world::World;
use vstd::prelude::*;

verus! {

/// The identifier of the active level.
#[derive(Debug, PartialEq, Eq)]
pub struct Level(pub String);

impl View for Level {
    type V = Seq<char>;

    open spec fn view(&self) -> Seq<char> {
        self.0@
    }
}

impl Default for Level {
    /// The level that a game starts in.
    fn default() -> (level: Level)
        ensures
            level@ == "shotgun_1"@,
    {
        Level("shotgun_1".to_owned())
    }
}

/// What the engine asks of the outside.
#[derive(Debug, PartialEq, Eq)]
pub enum Request {
    /// Read the text of the file at `path` and hand it in for
    /// `placeholder`.
    Load { placeholder: EntityId, path: String },
    /// Write `text` to the file at `path`, creating or replacing it.
    Save { path: String, text: String },
}

/// The mathematical value of a [`Request`].
pub enum RequestView {
    Load { placeholder: EntityId, path: Seq<char> },
    Save { path: Seq<char>, text: Seq<char> },
}

impl View for Request {
    type V = RequestView;

    open spec fn view(&self) -> RequestView {
        match self {
            Request::Load { placeholder, path } => RequestView::Load {
                placeholder: *placeholder,
                path: path@,
            },
            Request::Save { path, text } => RequestView::Save { path: path@, text: text@ },
        }
    }
}

/// The view of an optional request.
pub open spec fn asked(request: Option<Request>) -> Option<RequestView> {
    match request {
        Some(r) => Some(r@),
        None => None,
    }
}

/// The handlers of a collision, in the order in which they are tried.
#[derive(Clone, Copy, Debug, PartialEq, Eq, Structural)]
pub enum Handler {
    /// The player touched a kill box: the level is reset.
    KillBox,
    /// The player touched a door that lets it through: the level changes.
    Door,
    /// A bullet hit a key: both are despawned.
    DestroyKey,
}

/// The mathematical value of the engine: the identifier of the active level
/// and the world.
pub struct ControllerView {
    pub level: Seq<char>,
    pub world: WorldView,
}

/// The entity `id` is a player.
pub open spec fn is_player(w: WorldView, id: int) -> bool {
    alive(w, id) && w[id]->0.bundle.player
}

/// The kill-box handler takes the collision: the first participant is a kill
/// box and the second is a player.
pub open spec fn killbox(w: WorldView, first: int, second: int) -> bool {
    alive(w, first) && w[first]->0.bundle.kill_box && is_player(w, second)
}

/// The door handler takes the collision: the first participant is a door
/// that lets the player through and the second is a player.
pub open spec fn door(w: WorldView, first: int, second: int) -> bool {
    can_pass(w, first) && is_player(w, second)
}

/// The key handler takes the collision: the first participant is a key and
/// the second is a bullet.
pub open spec fn destroy_key(w: WorldView, first: int, second: int) -> bool {
    &&& alive(w, first)
    &&& w[first]->0.bundle.key is Some
    &&& alive(w, second)
    &&& w[second]->0.bundle.bullet
}

/// The one handler that a collision is given to, or none.
pub open spec fn route(w: WorldView, first: int, second: int) -> Option<Handler> {
    if killbox(w, first, second) {
        Some(Handler::KillBox)
    } else if door(w, first, second) {
        Some(Handler::Door)
    } else if destroy_key(w, first, second) {
        Some(Handler::DestroyKey)
    } else {
        None
    }
}

impl ControllerView {
    /// The engine with every root of the level despawned.
    pub open spec fn despawn_level(self) -> ControllerView {
        ControllerView { world: after_removal(self.world, level_roots(self.world)), ..self }
    }

    /// The engine with the placeholder for a load of the active level
    /// spawned.
    pub open spec fn deserialize_level(self) -> ControllerView {
        ControllerView {
            world: spawned(
                self.world,
                BundleView::holder(self.level),
                None,
                None,
                Some(SceneRoot::Pending),
            ),
            ..self
        }
    }

    /// The request that goes with that placeholder.
    pub open spec fn load_request(self) -> RequestView {
        RequestView::Load {
            placeholder: self.world.len() as usize,
            path: scene_asset_path(self.level),
        }
    }

    /// The request to save the world under the active level's name: the
    /// text of the world's snapshot, for the file of the level.
    pub open spec fn save_request(self) -> RequestView {
        RequestView::Save {
            path: scene_file_path(self.level),
            text: print_scene(scene_of(self.world)),
        }
    }

    /// The engine after the text `written` has arrived for `placeholder`:
    /// the snapshot that the text holds is brought to life below the
    /// placeholder. Nothing changes if the text holds no snapshot.
    pub open spec fn scene_loaded(self, placeholder: int, written: Seq<char>) -> ControllerView {
        match scene_in(written) {
            Some(scene) => self.with_world(instantiated(self.world, placeholder, scene)),
            None => self,
        }
    }

    /// The engine after a reset: the level's content is despawned, then the
    /// load of the active level is begun.
    pub open spec fn reset_level(self) -> ControllerView {
        self.despawn_level().deserialize_level()
    }

    /// The request that a reset makes.
    pub open spec fn reset_request(self) -> RequestView {
        self.despawn_level().load_request()
    }

    /// The engine with `level` as the identifier of the active level.
    pub open spec fn named(self, level: Seq<char>) -> ControllerView {
        ControllerView { level, ..self }
    }

    /// The engine after a transition to `level`: the identifier is set, and
    /// with it in place the level is reset.
    pub open spec fn transition(self, level: Seq<char>) -> ControllerView {
        self.named(level).reset_level()
    }

    /// The engine with a fresh level spawned.
    pub open spec fn new_level(self) -> ControllerView {
        ControllerView { world: bootstrapped(self.world), ..self }
    }

    /// The engine after the level `level` is made: the identifier is set,
    /// the old content is despawned, and a fresh level is spawned.
    pub open spec fn make_level(self, level: Seq<char>) -> ControllerView {
        self.named(level).despawn_level().new_level()
    }

    /// The engine with another world.
    pub open spec fn with_world(self, world: WorldView) -> ControllerView {
        ControllerView { world, ..self }
    }

    /// The engine after the collision of `first` with `second` is handled.
    pub open spec fn collision(self, first: int, second: int) -> ControllerView {
        match route(self.world, first, second) {
            Some(Handler::KillBox) => self.reset_level(),
            Some(Handler::Door) => self.transition(self.world[first]->0.bundle.door->0),
            Some(Handler::DestroyKey) => ControllerView {
                world: after_removal(after_removal(self.world, set![first]), set![second]),
                ..self
            },
            None => self,
        }
    }

    /// The request that handling the collision of `first` with `second`
    /// makes.
    pub open spec fn collision_request(self, first: int, second: int) -> Option<RequestView> {
        match route(self.world, first, second) {
            Some(Handler::KillBox) => Some(self.reset_request()),
            Some(Handler::Door) => Some(
                self.named(self.world[first]->0.bundle.door->0).reset_request(),
            ),
            _ => None,
        }
    }
}

/// The lifecycle controller: it owns the identifier of the active level and
/// the world, and nothing else changes either.
pub struct Controller {
    level: Level,
    world: World,
}

impl View for Controller {
    type V = ControllerView;

    closed spec fn view(&self) -> ControllerView {
        ControllerView { level: self.level@, world: self.world@ }
    }
}

impl Controller {
    /// The engine at the start of a game: the default level is active and
    /// the world is empty.
    pub fn new() -> (c: Controller)
        ensures
            c@ == (ControllerView { level: "shotgun_1"@, world: Seq::empty() }),
    {
        Controller { level: Level::default(), world: World::new() }
    }

    /// The identifier of the active level.
    pub fn level(&self) -> (level: &Level)
        ensures
            level@ == self@.level,
    {
        &self.level
    }

    /// The world.
    pub fn world(&self) -> (world: &World)
        ensures
            world@ == self@.world,
            well_formed(world@),
    {
        let n = self.world.next_id();
        &self.world
    }

    /// Makes `level` the identifier of the active level. The world is left
    /// as it is.
    pub fn set_level(&mut self, level: String)
        ensures
            final(self)@ == old(self)@.named(level@),
    {
        self.level = Level(level);
    }

    /// Despawns every root of the level with all that stands below it.
    pub fn despawn_level(&mut self)
        ensures
            final(self)@ == old(self)@.despawn_level(),
    {
        self.world.despawn_level();
    }

    /// Begins the load of the active level: spawns a placeholder named after
    /// the level and returns the request to load the level's snapshot for
    /// it.
    pub fn deserialize_level(&mut self) -> (request: Request)
        ensures
            final(self)@ == old(self)@.deserialize_level(),
            request@ == old(self)@.load_request(),
    {
        let placeholder = self.world.spawn_scene_root(self.level.0.clone());
        Request::Load { placeholder, path: scene_asset(self.level.0.as_str()) }
    }

    /// Takes the snapshot of the world and returns the request to write its
    /// text to the file of the active level. The text reads back as the
    /// snapshot.
    pub fn serialize_level(&self) -> (request: Request)
        ensures
            request@ == self@.save_request(),
            scene_in(print_scene(scene_of(self@.world))) == Some(scene_of(self@.world)),
    {
        let scene = self.world.scene();
        Request::Save { path: scene_file(self.level.0.as_str()), text: encode(&scene) }
    }

    /// Resets the level: despawns its content, then begins the load of the
    /// active level. The identifier stays as it is.
    pub fn reset_level(&mut self) -> (request: Request)
        ensures
            final(self)@ == old(self)@.reset_level(),
            request@ == old(self)@.reset_request(),
    {
        self.despawn_level();
        self.deserialize_level()
    }

    /// Moves to the level `level`: sets the identifier, and only then
    /// despawns the old content and begins the load of the new.
    pub fn transition(&mut self, level: String) -> (request: Request)
        ensures
            final(self)@ == old(self)@.transition(level@),
            request@ == old(self)@.named(level@).reset_request(),
    {
        self.set_level(level);
        self.reset_level()
    }

    /// Spawns a fresh level. Neither the identifier nor any file is touched.
    pub fn new_level(&mut self)
        ensures
            final(self)@ == old(self)@.new_level(),
    {
        self.world.new_level();
    }

    /// Saves the world under the active level's name, makes `level` the
    /// active level, and resets. The reset loads the file of the new name:
    /// until something is saved under it, the new level is empty.
    pub fn copy_level(&mut self, level: String) -> (requests: (Request, Request))
        ensures
            final(self)@ == old(self)@.transition(level@),
            requests.0@ == old(self)@.save_request(),
            requests.1@ == old(self)@.named(level@).reset_request(),
    {
        let save = self.serialize_level();
        let load = self.transition(level);
        (save, load)
    }

    /// Takes the text of a saved level that has arrived for `placeholder`
    /// and brings the snapshot it holds to life below the placeholder.
    /// Returns whether that was done; nothing changes if the text holds no
    /// snapshot, if the snapshot is not sound, or if `placeholder` does not
    /// wait for a load any more.
    pub fn scene_loaded(&mut self, placeholder: EntityId, written: &str) -> (done: bool)
        ensures
            done == match scene_in(written@) {
                Some(scene) => instantiable(old(self)@.world, placeholder as int, scene),
                None => false,
            },
            final(self)@ == old(self)@.scene_loaded(placeholder as int, written@),
    {
        match decode(written) {
            Some(scene) => self.world.instantiate(placeholder, &scene),
            None => false,
        }
    }

    /// Clears away the placeholders whose entities have arrived. Meant to
    /// run once in every tick.
    pub fn remove_dynamic_scene_root(&mut self)
        ensures
            final(self)@ == (ControllerView { world: cleaned(old(self)@.world), ..old(self)@ }),
    {
        self.world.remove_dynamic_scene_root();
    }

    /// The one handler that the collision of `first` with `second` is given
    /// to, or none: the kill box before the door, the door before the key.
    pub fn route(&self, first: EntityId, second: EntityId) -> (handler: Option<Handler>)
        ensures
            handler == route(self@.world, first as int, second as int),
    {
        let player = match self.world.get(second) {
            Some(e) => e.bundle.player,
            None => false,
        };
        let bullet = match self.world.get(second) {
            Some(e) => e.bundle.bullet,
            None => false,
        };
        match self.world.get(first) {
            Some(e) => {
                if e.bundle.kill_box && player {
                    Some(Handler::KillBox)
                } else if player && self.world.can_pass(first) {
                    Some(Handler::Door)
                } else if e.bundle.key.is_some() && bullet {
                    Some(Handler::DestroyKey)
                } else {
                    None
                }
            },
            None => None,
        }
    }

    /// Handles the begin of a collision between `first`, the static side,
    /// and `second`, the moving side. At most one handler runs: a kill box
    /// resets the level, a door that lets the player through moves to the
    /// level it leads to, and a key hit by a bullet is despawned together
    /// with the bullet. Any other pair is ignored.
    pub fn collision(&mut self, first: EntityId, second: EntityId) -> (handled: (
        Option<Handler>,
        Option<Request>,
    ))
        ensures
            handled.0 == route(old(self)@.world, first as int, second as int),
            final(self)@ == old(self)@.collision(first as int, second as int),
            asked(handled.1) == old(self)@.collision_request(first as int, second as int),
    {
        let handler = self.route(first, second);
        let request = match handler {
            Some(Handler::KillBox) => Some(self.reset_level()),
            Some(Handler::Door) => {
                let level = match self.world.get(first) {
                    Some(e) => match &e.bundle.door {
                        Some(d) => d.0.clone(),
                        None => String::new(),
                    },
                    None => String::new(),
                };
                Some(self.transition(level))
            },
            Some(Handler::DestroyKey) => {
                self.world.despawn(first);
                self.world.despawn(second);
                None
            },
            None => None,
        };
        (handler, request)
    }

    /// Makes the level `level`: sets the identifier, despawns the old
    /// content, spawns a fresh level, and returns the request to save it
    /// under the new name.
    pub fn make_level(&mut self, level: String) -> (request: Request)
        ensures
            final(self)@ == old(self)@.make_level(level@),
            request@ == old(self)@.make_level(level@).save_request(),
    {
        self.set_level(level);
        self.despawn_level();
        self.new_level();
        self.serialize_level()
    }

    /// Spawns an entity with `bundle` and without relations, and returns its
    /// handle.
    pub fn spawn(&mut self, bundle: Bundle) -> (id: EntityId)
        ensures
            id == old(self)@.world.len(),
            final(self)@ == old(self)@.with_world(
                spawned(old(self)@.world, bundle@, None, None, None),
            ),
    {
        self.world.spawn(bundle)
    }

    /// Spawns an entity with `bundle` below `parent` and returns its handle.
    /// Nothing is spawned if `parent` does not exist.
    pub fn spawn_child(&mut self, parent: EntityId, bundle: Bundle) -> (id: Option<EntityId>)
        ensures
            alive(old(self)@.world, parent as int) ==> id == Some(old(self)@.world.len() as usize)
                && final(self)@ == old(self)@.with_world(
                spawned(old(self)@.world, bundle@, Some(parent), None, None),
            ),
            !alive(old(self)@.world, parent as int) ==> id is None && final(self)@ == old(self)@,
    {
        self.world.spawn_child(parent, bundle)
    }

    /// Despawns the entity `id` with all that stands below it. A door that
    /// loses a key it must keep by this is locked.
    pub fn despawn(&mut self, id: EntityId)
        ensures
            final(self)@ == old(self)@.with_world(
                after_removal(old(self)@.world, set![id as int]),
            ),
    {
        self.world.despawn(id);
    }

    /// Despawns all that stands below the entity `parent`, and leaves
    /// `parent`.
    pub fn despawn_children(&mut self, parent: EntityId)
        ensures
            final(self)@ == old(self)@.with_world(
                after_removal(old(self)@.world, children_of(old(self)@.world, parent)),
            ),
    {
        self.world.despawn_children(parent);
    }

    /// Gives the player `player` the weapon `weapon`: despawns what stands
    /// below the player and spawns the weapon below it. Returns the handle
    /// of the weapon; nothing changes if `player` does not exist.
    pub fn select_weapon(&mut self, player: EntityId, weapon: Weapon) -> (id: Option<EntityId>)
        ensures
            final(self)@ == old(self)@.with_world(armed(old(self)@.world, player, weapon)),
            id == if alive(old(self)@.world, player as int) {
                Some(old(self)@.world.len() as usize)
            } else {
                None
            },
    {
        self.world.select_weapon(player, weapon)
    }

    /// Lets `player` pick up the weapon `pickup` that lies in the level:
    /// despawns the weapons that were selected and the one that lay there,
    /// and spawns the weapon below the player as the selected one. Returns
    /// the handle of the weapon; nothing changes if `player` or `pickup`
    /// does not exist or `pickup` is no weapon.
    pub fn pick_up(&mut self, player: EntityId, pickup: EntityId) -> (id: Option<EntityId>)
        ensures
            final(self)@ == old(self)@.with_world(picked_up(old(self)@.world, player, pickup)),
            id == if can_pick_up(old(self)@.world, player, pickup) && alive(
                disarmed(old(self)@.world, pickup),
                player as int,
            ) {
                Some(old(self)@.world.len() as usize)
            } else {
                None
            },
    {
        self.world.pick_up(player, pickup)
    }

    /// Spawns a copy of the entity `id` at `transform`, below the parent of
    /// `id` if it has one, and returns its handle. Nothing is spawned if
    /// `id` does not exist.
    pub fn clone_and_spawn(&mut self, id: EntityId, transform: Transform) -> (copy: Option<
        EntityId,
    >)
        ensures
            final(self)@ == old(self)@.with_world(
                duplicated(old(self)@.world, id as int, transform),
            ),
            copy == if alive(old(self)@.world, id as int) {
                Some(old(self)@.world.len() as usize)
            } else {
                None
            },
    {
        self.world.clone_and_spawn(id, transform)
    }

    /// Spawns a key of the kind `kind` that the door `door` owns, and returns
    /// its handle. Nothing is spawned if `door` is not a door.
    pub fn create_key(&mut self, kind: Key, door: EntityId) -> (id: Option<EntityId>)
        ensures
            is_door(old(self)@.world, door as int) ==> id == Some(
                old(self)@.world.len() as usize,
            ) && final(self)@ == old(self)@.with_world(
                spawned(old(self)@.world, BundleView::key(kind), None, Some(door), None),
            ),
            !is_door(old(self)@.world, door as int) ==> id is None && final(self)@ == old(self)@,
    {
        self.world.create_key(kind, door)
    }

    /// Moves the entity `id` to `transform`. Returns whether `id` exists;
    /// nothing changes if it does not.
    pub fn set_transform(&mut self, id: EntityId, transform: Transform) -> (done: bool)
        ensures
            done == alive(old(self)@.world, id as int),
            final(self)@ == old(self)@.with_world(moved(old(self)@.world, id as int, transform)),
    {
        self.world.set_transform(id, transform)
    }

    /// Spawns a door to the level `level` and returns its handle.
    pub fn create_door(&mut self, level: String) -> (id: EntityId)
        ensures
            id == old(self)@.world.len(),
            final(self)@ == (ControllerView {
                world: spawned(old(self)@.world, BundleView::door(level@), None, None, None),
                ..old(self)@
            }),
    {
        self.world.create_door(level)
    }

    /// Points the door `door` at the level `level`. Returns whether `door`
    /// is a door; nothing changes if it is not.
    pub fn set_door_target(&mut self, door: EntityId, level: String) -> (done: bool)
        ensures
            done == (alive(old(self)@.world, door as int) && old(
                self,
            )@.world[door as int]->0.bundle.door is Some),
            final(self)@ == (ControllerView {
                world: retargeted(old(self)@.world, door as int, level@),
                ..old(self)@
            }),
    {
        self.world.set_door_target(door, level)
    }
}

} // verus!
