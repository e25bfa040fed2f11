//! The mathematical model of the entity graph: what a world is, when it is
//! well formed, and what each operation makes of it.

use crate::component::{
    BundleView, EntityId, Key, SceneRoot, SerializedColliderConstructor, Transform, Weapon,
    BOTTOM, HEIGHT, KILL_BOX_Y, LEFT, PLAYER_X, RIGHT, TOP, WIDTH,
};
use vstd::prelude::*;

verus! {

/// The mathematical value of an entity: its bundle and its relations.
pub struct EntityView {
    pub bundle: BundleView,
    /// The parent of the entity, if it has one.
    pub child_of: Option<EntityId>,
    /// The door that owns this key, if one does.
    pub key_of: Option<EntityId>,
    /// The keys that this door owns, in the order of their handles.
    pub keys: Seq<EntityId>,
    /// The permanent lock of a door.
    pub locked: bool,
    /// Set on the placeholder of a load.
    pub scene_root: Option<SceneRoot>,
}

/// A world: one slot for each handle ever given out, empty once its entity
/// is gone.
pub type WorldView = Seq<Option<EntityView>>;

/// The entity `id` exists in `w`.
pub open spec fn alive(w: WorldView, id: int) -> bool {
    0 <= id < w.len() && w[id] is Some
}

/// The handles in `s` rise strictly; so none occurs twice.
pub open spec fn ascending(s: Seq<EntityId>) -> bool {
    forall|i: int, j: int| 0 <= i < j < s.len() ==> s[i] < s[j]
}

/// The relations of the living entity `i` are sound: its parent and its door
/// exist and are older than it, its door lists it, and each key it lists
/// exists and points back at it.
pub open spec fn entity_ok(w: WorldView, i: int) -> bool {
    let e = w[i]->0;
    &&& e.child_of matches Some(p) ==> p < i && alive(w, p as int)
    &&& e.key_of matches Some(d) ==> {
        &&& d < i
        &&& alive(w, d as int)
        &&& w[d as int]->0.bundle.door is Some
        &&& e.bundle.key is Some
        &&& w[d as int]->0.keys.contains(i as usize)
    }
    &&& ascending(e.keys)
    &&& forall|j: int|
        0 <= j < e.keys.len() ==> {
            &&& alive(w, #[trigger] e.keys[j] as int)
            &&& w[e.keys[j] as int]->0.key_of == Some(i as usize)
        }
}

/// Every living entity of `w` has sound relations. The two sides of the
/// relation between doors and keys agree: a door lists a key if and only if
/// the key points at the door.
pub open spec fn well_formed(w: WorldView) -> bool {
    &&& w.len() <= usize::MAX
    &&& forall|i: int| alive(w, i) ==> #[trigger] entity_ok(w, i)
}

/// The door `door` lets the player through: it exists, is a door, is not
/// locked, and none of the keys it owns must be destroyed.
pub open spec fn can_pass(w: WorldView, door: int) -> bool {
    &&& alive(w, door)
    &&& w[door]->0.bundle.door is Some
    &&& !w[door]->0.locked
    &&& forall|j: int|
        0 <= j < w[door]->0.keys.len() ==> w[#[trigger] w[door]->0.keys[j] as int]->0.bundle.key
            != Some(Key::MustDestroy)
}

/// An entity with `bundle` can be spawned below `parent` as a key of `door`:
/// the parent exists, and the door exists, is a door, and the bundle holds a
/// key.
pub open spec fn can_spawn(
    w: WorldView,
    bundle: BundleView,
    parent: Option<EntityId>,
    door: Option<EntityId>,
) -> bool {
    &&& parent matches Some(p) ==> alive(w, p as int)
    &&& door matches Some(d) ==> alive(w, d as int) && w[d as int]->0.bundle.door is Some
        && bundle.key is Some
}

/// The entity that a spawn makes.
pub open spec fn fresh(
    bundle: BundleView,
    parent: Option<EntityId>,
    door: Option<EntityId>,
    scene_root: Option<SceneRoot>,
) -> EntityView {
    EntityView {
        bundle,
        child_of: parent,
        key_of: door,
        keys: Seq::empty(),
        locked: false,
        scene_root,
    }
}

/// The world after a spawn: the new entity takes the next handle, and its
/// door, if it has one, lists it last.
pub open spec fn spawned(
    w: WorldView,
    bundle: BundleView,
    parent: Option<EntityId>,
    door: Option<EntityId>,
    scene_root: Option<SceneRoot>,
) -> WorldView {
    let listed = match door {
        Some(d) => w.update(
            d as int,
            Some(EntityView { keys: w[d as int]->0.keys.push(w.len() as usize), ..w[d as int]->0 }),
        ),
        None => w,
    };
    listed.push(Some(fresh(bundle, parent, door, scene_root)))
}

/// A spawn keeps a world well formed.
pub proof fn lemma_spawned_well_formed(
    w: WorldView,
    bundle: BundleView,
    parent: Option<EntityId>,
    door: Option<EntityId>,
    scene_root: Option<SceneRoot>,
)
    requires
        well_formed(w),
        can_spawn(w, bundle, parent, door),
        w.len() < usize::MAX,
    ensures
        well_formed(spawned(w, bundle, parent, door, scene_root)),
{
    let v = spawned(w, bundle, parent, door, scene_root);
    let n = w.len() as int;
    assert forall|i: int| alive(v, i) implies #[trigger] entity_ok(v, i) by {
        if i < n {
            assert(alive(w, i));
            assert(entity_ok(w, i));
            let e = w[i]->0;
            let f = v[i]->0;
            assert forall|j: int| 0 <= j < f.keys.len() implies {
                &&& alive(v, #[trigger] f.keys[j] as int)
                &&& v[f.keys[j] as int]->0.key_of == Some(i as usize)
            } by {
                if j < e.keys.len() {
                    assert(alive(w, e.keys[j] as int));
                }
            }
            assert(ascending(f.keys)) by {
                assert forall|a: int, b: int| 0 <= a < b < f.keys.len() implies f.keys[a]
                    < f.keys[b] by {
                    if b < e.keys.len() {
                    } else {
                        assert(alive(w, e.keys[a] as int));
                    }
                }
            }
            if let Some(d) = e.key_of {
                assert(entity_ok(w, d as int));
                let k = choose|k: int| 0 <= k < w[d as int]->0.keys.len() && w[d as int]->0.keys[k] == i as usize;
                assert(v[d as int]->0.keys[k] == i as usize);
            }
        } else {
            if let Some(d) = door {
                let ks = v[d as int]->0.keys;
                assert(ks[ks.len() - 1] == n as usize);
            }
        }
    }
}

/// The entity `i` goes when the entities in `seeds` are despawned: it is one
/// of them, or its parent goes.
pub open spec fn condemned(w: WorldView, seeds: Set<int>, i: int) -> bool
    decreases i,
{
    if !alive(w, i) {
        false
    } else if seeds.contains(i) {
        true
    } else {
        match w[i]->0.child_of {
            Some(p) => p < i && condemned(w, seeds, p as int),
            None => false,
        }
    }
}

/// The test that a key passes if it stays when `seeds` are despawned.
pub open spec fn spared(w: WorldView, seeds: Set<int>) -> spec_fn(EntityId) -> bool {
    |k: EntityId| !condemned(w, seeds, k as int)
}

/// One of `keys` goes with `seeds` and is a key that its door must keep.
pub open spec fn loses_kept_key(w: WorldView, seeds: Set<int>, keys: Seq<EntityId>) -> bool {
    exists|j: int|
        0 <= j < keys.len() && condemned(w, seeds, #[trigger] keys[j] as int) && w[keys[j] as int]->0.bundle.key
            == Some(Key::MustKeep)
}

/// What becomes of an entity that stays when `seeds` are despawned: it
/// forgets a door that goes, it drops from its list the keys that go, and it
/// is locked if one of those was a key it must keep.
pub open spec fn survivor(w: WorldView, seeds: Set<int>, e: EntityView) -> EntityView {
    EntityView {
        key_of: match e.key_of {
            Some(d) => if condemned(w, seeds, d as int) {
                None
            } else {
                Some(d)
            },
            None => None,
        },
        keys: e.keys.filter(spared(w, seeds)),
        locked: e.locked || loses_kept_key(w, seeds, e.keys),
        ..e
    }
}

/// The world after the entities in `seeds` are despawned, each with all that
/// stands below it.
pub open spec fn after_removal(w: WorldView, seeds: Set<int>) -> WorldView {
    Seq::new(
        w.len(),
        |i: int|
            if alive(w, i) && !condemned(w, seeds, i) {
                Some(survivor(w, seeds, w[i]->0))
            } else {
                None
            },
    )
}

/// What passes a test out of rising handles rises too, and was among them.
pub proof fn lemma_filter_ascending(s: Seq<EntityId>, keep: spec_fn(EntityId) -> bool)
    requires
        ascending(s),
    ensures
        ascending(s.filter(keep)),
        forall|i: int| 0 <= i < s.filter(keep).len() ==> s.contains(#[trigger] s.filter(keep)[i]),
        forall|i: int| 0 <= i < s.filter(keep).len() ==> keep(#[trigger] s.filter(keep)[i]),
    decreases s.len(),
{
    reveal(Seq::filter);
    if s.len() > 0 {
        let front = s.drop_last();
        lemma_filter_ascending(front, keep);
        let kept = front.filter(keep);
        let out = s.filter(keep);
        assert forall|i: int| 0 <= i < out.len() implies s.contains(#[trigger] out[i]) && keep(
            out[i],
        ) by {
            if i < kept.len() {
                assert(out[i] == kept[i]);
                let at = choose|at: int| 0 <= at < front.len() && front[at] == kept[i];
                assert(s[at] == out[i]);
            } else {
                assert(out[i] == s[s.len() - 1]);
            }
        }
        assert forall|a: int, b: int| 0 <= a < b < out.len() implies out[a] < out[b] by {
            if b < kept.len() {
                assert(out[a] == kept[a] && out[b] == kept[b]);
            } else {
                assert(out[a] == kept[a]);
                let at = choose|at: int| 0 <= at < front.len() && front[at] == kept[a];
                assert(s[at] < s[s.len() - 1]);
            }
        }
    }
}

/// Despawning keeps a world well formed.
pub proof fn lemma_removal_well_formed(w: WorldView, seeds: Set<int>)
    requires
        well_formed(w),
    ensures
        well_formed(after_removal(w, seeds)),
{
    let v = after_removal(w, seeds);
    assert forall|i: int| alive(v, i) implies #[trigger] entity_ok(v, i) by {
        assert(alive(w, i));
        assert(entity_ok(w, i));
        let e = w[i]->0;
        let f = v[i]->0;
        lemma_filter_ascending(e.keys, spared(w, seeds));
        assert forall|j: int| 0 <= j < f.keys.len() implies {
            &&& alive(v, #[trigger] f.keys[j] as int)
            &&& v[f.keys[j] as int]->0.key_of == Some(i as usize)
        } by {
            let k = f.keys[j];
            assert(e.keys.contains(k));
            let at = choose|at: int| 0 <= at < e.keys.len() && e.keys[at] == k;
            assert(alive(w, e.keys[at] as int));
            assert(spared(w, seeds)(k));
        }
        if let Some(d) = f.key_of {
            assert(alive(w, d as int));
            assert(entity_ok(w, d as int));
            let listed = w[d as int]->0.keys;
            let at = choose|at: int| 0 <= at < listed.len() && listed[at] == i as usize;
            assert(spared(w, seeds)(listed[at]));
            listed.lemma_filter_contains(spared(w, seeds), at);
        }
    }
}

/// The entity `i` is a door.
pub open spec fn is_door(w: WorldView, i: int) -> bool {
    alive(w, i) && w[i]->0.bundle.door is Some
}

/// The doors with a handle below `n`, in the order of their handles.
pub open spec fn doors_upto(w: WorldView, n: int) -> Seq<EntityId>
    decreases n,
{
    if n <= 0 {
        Seq::empty()
    } else if is_door(w, n - 1) {
        doors_upto(w, n - 1).push((n - 1) as usize)
    } else {
        doors_upto(w, n - 1)
    }
}

/// The door of the level, if the level has exactly one.
pub open spec fn single_door(w: WorldView) -> Option<EntityId> {
    let doors = doors_upto(w, w.len() as int);
    if doors.len() == 1 {
        Some(doors[0])
    } else {
        None
    }
}

/// Every door listed below `n` is a door with a handle below `n`.
pub proof fn lemma_doors_upto(w: WorldView, n: int, j: int)
    requires
        0 <= j < doors_upto(w, n).len(),
        w.len() <= usize::MAX,
    ensures
        doors_upto(w, n)[j] < n,
        is_door(w, doors_upto(w, n)[j] as int),
    decreases n,
{
    if n > 0 {
        if is_door(w, n - 1) {
            if j < doors_upto(w, n - 1).len() {
                lemma_doors_upto(w, n - 1, j);
            }
        } else {
            lemma_doors_upto(w, n - 1, j);
        }
    }
}

/// The single door of a level is a door.
pub proof fn lemma_single_door(w: WorldView)
    requires
        w.len() <= usize::MAX,
    ensures
        single_door(w) matches Some(d) ==> is_door(w, d as int),
{
    if doors_upto(w, w.len() as int).len() == 1 {
        lemma_doors_upto(w, w.len() as int, 0);
    }
}

/// The entities that stand directly below `parent`.
pub open spec fn children_of(w: WorldView, parent: EntityId) -> Set<int> {
    Set::new(|i: int| alive(w, i) && w[i]->0.child_of == Some(parent))
}

/// The weapons that are selected.
pub open spec fn selected_weapons(w: WorldView) -> Set<int> {
    Set::new(|i: int| alive(w, i) && w[i]->0.bundle.selected_weapon)
}

/// The world after the copy of the entity `id` is spawned at `transform`,
/// below the parent of `id` if it has one. Nothing changes if `id` does not
/// exist. The copy has the bundle of `id` and none of its keys.
pub open spec fn duplicated(w: WorldView, id: int, transform: Transform) -> WorldView {
    if alive(w, id) {
        spawned(
            w,
            BundleView { transform: Some(transform), ..w[id]->0.bundle },
            w[id]->0.child_of,
            None,
            None,
        )
    } else {
        w
    }
}

/// The world after the player `player` is given the weapon `weapon`: what
/// stood below the player is despawned, and the weapon is spawned below it.
/// Nothing changes if `player` does not exist.
pub open spec fn armed(w: WorldView, player: EntityId, weapon: Weapon) -> WorldView {
    if alive(w, player as int) {
        spawned(
            after_removal(w, children_of(w, player)),
            BundleView::weapon(weapon),
            Some(player),
            None,
            None,
        )
    } else {
        w
    }
}

/// The weapon `pickup` can be picked up by `player`: both exist and
/// `pickup` is a weapon.
pub open spec fn can_pick_up(w: WorldView, player: EntityId, pickup: EntityId) -> bool {
    alive(w, player as int) && alive(w, pickup as int) && w[pickup as int]->0.bundle.weapon
        is Some
}

/// The world after every selected weapon and the weapon `pickup` are
/// despawned.
pub open spec fn disarmed(w: WorldView, pickup: EntityId) -> WorldView {
    after_removal(after_removal(w, selected_weapons(w)), set![pickup as int])
}

/// The world after `player` picks up the weapon `pickup`: the weapons that
/// were selected and the one that lay in the level are despawned, and the
/// weapon is spawned below the player as the selected one, if the player is
/// still there. Nothing changes if the weapon cannot be picked up.
pub open spec fn picked_up(w: WorldView, player: EntityId, pickup: EntityId) -> WorldView {
    if can_pick_up(w, player, pickup) {
        if alive(disarmed(w, pickup), player as int) {
            spawned(
                disarmed(w, pickup),
                BundleView::selected(w[pickup as int]->0.bundle.weapon->0),
                Some(player),
                None,
                None,
            )
        } else {
            disarmed(w, pickup)
        }
    } else {
        w
    }
}

/// The entity `i` is a root of the level: it has no parent, and it is saved
/// with the level or is the placeholder of a load.
pub open spec fn level_root(w: WorldView, i: int) -> bool {
    &&& alive(w, i)
    &&& w[i]->0.child_of is None
    &&& w[i]->0.bundle.serialize || w[i]->0.scene_root is Some
}

/// The roots of the level.
pub open spec fn level_roots(w: WorldView) -> Set<int> {
    Set::new(|i: int| level_root(w, i))
}

/// The world after the door `door` is pointed at the level `level`. Nothing
/// changes if `door` is not a door.
pub open spec fn retargeted(w: WorldView, door: int, level: Seq<char>) -> WorldView {
    if alive(w, door) && w[door]->0.bundle.door is Some {
        w.update(
            door,
            Some(
                EntityView {
                    bundle: BundleView { door: Some(level), ..w[door]->0.bundle },
                    ..w[door]->0
                },
            ),
        )
    } else {
        w
    }
}

/// The world `v` has the entities of `w` with the relations they have in
/// `w`: the same entities live, each with its door and its keys, with its
/// parent or without one, and what is a door or a key in `w` is one in `v`.
pub open spec fn same_relations(w: WorldView, v: WorldView) -> bool {
    &&& v.len() == w.len()
    &&& forall|i: int|
        0 <= i < w.len() ==> {
            &&& (#[trigger] v[i]) is Some == w[i] is Some
            &&& w[i] matches Some(e) ==> {
                &&& v[i]->0.child_of == e.child_of || v[i]->0.child_of is None
                &&& v[i]->0.key_of == e.key_of
                &&& v[i]->0.keys == e.keys
                &&& v[i]->0.bundle.door is Some == e.bundle.door is Some
                &&& v[i]->0.bundle.key is Some == e.bundle.key is Some
            }
        }
}

/// A change that keeps the entities and their relations keeps the world
/// well formed.
pub proof fn lemma_same_relations_well_formed(w: WorldView, v: WorldView)
    requires
        well_formed(w),
        same_relations(w, v),
    ensures
        well_formed(v),
{
    assert forall|i: int| alive(v, i) implies #[trigger] entity_ok(v, i) by {
        assert(alive(w, i) && entity_ok(w, i));
        let e = w[i]->0;
        assert(v[i]->0.keys == e.keys);
        assert forall|j: int| 0 <= j < e.keys.len() implies {
            &&& alive(v, #[trigger] e.keys[j] as int)
            &&& v[e.keys[j] as int]->0.key_of == Some(i as usize)
        } by {
            assert(alive(w, e.keys[j] as int));
            assert(v[e.keys[j] as int] is Some);
        }
        if let Some(p) = v[i]->0.child_of {
            assert(alive(w, p as int));
            assert(v[p as int] is Some);
        }
        if let Some(d) = v[i]->0.key_of {
            assert(alive(w, d as int));
            assert(v[d as int] is Some);
        }
    }
}

/// The world with the entity `id` locked, if `locked` says so. Nothing
/// changes if `id` does not exist.
pub open spec fn with_lock(w: WorldView, id: int, locked: bool) -> WorldView {
    if locked && alive(w, id) {
        w.update(id, Some(EntityView { locked: true, ..w[id]->0 }))
    } else {
        w
    }
}

/// A lock keeps a world well formed.
pub proof fn lemma_with_lock_well_formed(w: WorldView, id: int, locked: bool)
    requires
        well_formed(w),
    ensures
        well_formed(with_lock(w, id, locked)),
{
    lemma_same_relations_well_formed(w, with_lock(w, id, locked));
}

/// The world after the entity `id` is moved to `transform`. Nothing changes
/// if `id` does not exist.
pub open spec fn moved(w: WorldView, id: int, transform: Transform) -> WorldView {
    if alive(w, id) {
        w.update(
            id,
            Some(
                EntityView {
                    bundle: BundleView { transform: Some(transform), ..w[id]->0.bundle },
                    ..w[id]->0
                },
            ),
        )
    } else {
        w
    }
}

/// Moving an entity keeps a world well formed.
pub proof fn lemma_moved_well_formed(w: WorldView, id: int, transform: Transform)
    requires
        well_formed(w),
    ensures
        well_formed(moved(w, id, transform)),
{
    lemma_same_relations_well_formed(w, moved(w, id, transform));
}

/// Pointing a door elsewhere keeps a world well formed.
pub proof fn lemma_retargeted_well_formed(w: WorldView, door: int, level: Seq<char>)
    requires
        well_formed(w),
    ensures
        well_formed(retargeted(w, door, level)),
{
    lemma_same_relations_well_formed(w, retargeted(w, door, level));
}

/// A bundle under a name, at a place, with a rectangular collision volume.
pub open spec fn placed(
    bundle: BundleView,
    name: Option<Seq<char>>,
    x: u32,
    y: u32,
    width: int,
    height: int,
) -> BundleView {
    BundleView {
        name,
        transform: Some(Transform::at(x, y)),
        collider: Some(
            SerializedColliderConstructor { x_length: width as i32, y_length: height as i32 },
        ),
        ..bundle
    }
}

/// The player of a fresh level.
pub open spec fn fresh_player() -> BundleView {
    BundleView {
        name: Some("Player"@),
        transform: Some(Transform::at(PLAYER_X, 0)),
        ..BundleView::player()
    }
}

/// The root of the geometry of a fresh level.
pub open spec fn fresh_geometry() -> BundleView {
    BundleView { name: Some("Level Geometry"@), ..BundleView::level_geometry() }
}

/// The kill box of a fresh level.
pub open spec fn fresh_kill_box() -> BundleView {
    placed(BundleView::kill_box(), None, 0, KILL_BOX_Y, WIDTH / 10, 25)
}

/// The four boundary walls of a fresh level: below, left, right, above.
pub open spec fn fresh_wall(side: int) -> BundleView {
    if side == 0 {
        placed(BundleView::wall(), Some("Bottom Wall"@), 0, BOTTOM, WIDTH as int, 25)
    } else if side == 1 {
        placed(BundleView::wall(), Some("Left Wall"@), LEFT, 0, 25, HEIGHT as int)
    } else if side == 2 {
        placed(BundleView::wall(), Some("Right Wall"@), RIGHT, 0, 25, HEIGHT as int)
    } else {
        placed(BundleView::wall(), Some("Top Wall"@), 0, TOP, WIDTH as int, 25)
    }
}

/// The world after a fresh level is spawned into it: a player, and a root of
/// the level's geometry with a kill box and four boundary walls below it.
pub open spec fn bootstrapped(w: WorldView) -> WorldView {
    let root = (w.len() + 1) as usize;
    let with_player = spawned(w, fresh_player(), None, None, None);
    let with_root = spawned(with_player, fresh_geometry(), None, None, None);
    let with_kill_box = spawned(with_root, fresh_kill_box(), Some(root), None, None);
    let below = spawned(with_kill_box, fresh_wall(0), Some(root), None, None);
    let left = spawned(below, fresh_wall(1), Some(root), None, None);
    let right = spawned(left, fresh_wall(2), Some(root), None, None);
    spawned(right, fresh_wall(3), Some(root), None, None)
}

/// A fresh level keeps a world well formed.
pub proof fn lemma_bootstrapped_well_formed(w: WorldView)
    requires
        well_formed(w),
        w.len() + 7 <= usize::MAX,
    ensures
        well_formed(bootstrapped(w)),
{
    let root = (w.len() + 1) as usize;
    lemma_spawned_well_formed(w, fresh_player(), None, None, None);
    let with_player = spawned(w, fresh_player(), None, None, None);
    lemma_spawned_well_formed(with_player, fresh_geometry(), None, None, None);
    let with_root = spawned(with_player, fresh_geometry(), None, None, None);
    lemma_spawned_well_formed(with_root, fresh_kill_box(), Some(root), None, None);
    let with_kill_box = spawned(with_root, fresh_kill_box(), Some(root), None, None);
    lemma_spawned_well_formed(with_kill_box, fresh_wall(0), Some(root), None, None);
    let below = spawned(with_kill_box, fresh_wall(0), Some(root), None, None);
    lemma_spawned_well_formed(below, fresh_wall(1), Some(root), None, None);
    let left = spawned(below, fresh_wall(1), Some(root), None, None);
    lemma_spawned_well_formed(left, fresh_wall(2), Some(root), None, None);
    let right = spawned(left, fresh_wall(2), Some(root), None, None);
    lemma_spawned_well_formed(right, fresh_wall(3), Some(root), None, None);
}

/// The entity `i` is the placeholder of a load whose entities have arrived.
pub open spec fn finished_root(w: WorldView, i: int) -> bool {
    alive(w, i) && w[i]->0.scene_root == Some(SceneRoot::Instanced)
}

/// The placeholders whose entities have arrived.
pub open spec fn finished_roots(w: WorldView) -> Set<int> {
    Set::new(|i: int| finished_root(w, i))
}

/// The world after the children of every finished placeholder are moved to
/// the top of the graph.
pub open spec fn released(w: WorldView) -> WorldView {
    Seq::new(
        w.len(),
        |i: int|
            match w[i] {
                Some(e) => Some(
                    EntityView {
                        child_of: match e.child_of {
                            Some(p) => if finished_root(w, p as int) {
                                None
                            } else {
                                Some(p)
                            },
                            None => None,
                        },
                        ..e
                    },
                ),
                None => None,
            },
    )
}

/// The world after the finished placeholders are cleared away: their
/// children stand at the top of the graph and the placeholders are gone.
pub open spec fn cleaned(w: WorldView) -> WorldView {
    after_removal(released(w), finished_roots(w))
}

/// Releasing the children of finished placeholders keeps a world well
/// formed.
pub proof fn lemma_released_well_formed(w: WorldView)
    requires
        well_formed(w),
    ensures
        well_formed(released(w)),
{
    lemma_same_relations_well_formed(w, released(w));
}

/// Clearing away the finished placeholders keeps a world well formed.
pub proof fn lemma_cleaned_well_formed(w: WorldView)
    requires
        well_formed(w),
    ensures
        well_formed(cleaned(w)),
{
    lemma_released_well_formed(w);
    lemma_removal_well_formed(released(w), finished_roots(w));
}

/// The world with the placeholder `holder` marked as finished.
pub open spec fn finished(w: WorldView, holder: int) -> WorldView {
    w.update(
        holder,
        Some(EntityView { scene_root: Some(SceneRoot::Instanced), ..w[holder]->0 }),
    )
}

/// Marking a placeholder as finished keeps a world well formed.
pub proof fn lemma_finished_well_formed(w: WorldView, holder: int)
    requires
        well_formed(w),
        alive(w, holder),
    ensures
        well_formed(finished(w, holder)),
{
    lemma_same_relations_well_formed(w, finished(w, holder));
}

} // verus!
