//! What holds of the engine whatever is done with it.

use crate::codec::{law_text_round_trip, scene_in, writable};
use crate::command::CommandView;
use crate::component::{BundleView, EntityId, Key, SceneRoot, Transform};
use crate::level::{door, route, ControllerView, Handler};
use crate::model::{
    after_removal, alive, armed, bootstrapped, can_pass, can_pick_up, can_spawn, children_of,
    cleaned, condemned, duplicated, entity_ok, picked_up, selected_weapons,
    finished, fresh, level_root, level_roots, lemma_cleaned_well_formed,
    lemma_finished_well_formed, lemma_removal_well_formed, lemma_retargeted_well_formed,
    lemma_bootstrapped_well_formed, lemma_moved_well_formed,
    lemma_spawned_well_formed,
    lemma_with_lock_well_formed, with_lock,
    loses_kept_key, moved, retargeted, single_door, spared, spawned, survivor,
    well_formed, WorldView,
};
use crate::scene::{
    grown, instantiable, instantiated, lemma_rank_rises, lemma_scene_len, lemma_scene_of_ok,
    lemma_scene_place, lemma_scene_source, rank, restored_door, restored_parent, saved,
    scene_entity, scene_of, scene_ok, scene_upto, SceneView,
};
use vstd::prelude::*;

verus! {

/// One change of the world: each operation of the engine on the world is
/// one of these or a run of them.
pub enum Step {
    /// An entity is spawned, if it can be.
    Spawn {
        bundle: BundleView,
        parent: Option<EntityId>,
        owner: Option<EntityId>,
        scene_root: Option<SceneRoot>,
    },
    /// An entity is despawned with all that stands below it.
    Despawn { id: EntityId },
    /// Some entities are despawned, each with all that stands below it.
    Remove { seeds: Set<int> },
    /// Every root of the level is despawned.
    DespawnLevel,
    /// A door is pointed at another level.
    SetDoorTarget { door: EntityId, level: Seq<char> },
    /// An entity is moved.
    SetTransform { id: EntityId, transform: Transform },
    /// A fresh level is spawned.
    NewLevel,
    /// A snapshot is brought to life below a placeholder.
    Instantiate { holder: EntityId, scene: SceneView },
    /// The finished placeholders are cleared away.
    RemoveSceneRoots,
}

/// The world after one change.
pub open spec fn step(w: WorldView, s: Step) -> WorldView {
    match s {
        Step::Spawn { bundle, parent, owner, scene_root } => if can_spawn(w, bundle, parent, owner)
            && w.len() < usize::MAX {
            spawned(w, bundle, parent, owner, scene_root)
        } else {
            w
        },
        Step::Despawn { id } => after_removal(w, set![id as int]),
        Step::Remove { seeds } => after_removal(w, seeds),
        Step::DespawnLevel => after_removal(w, level_roots(w)),
        Step::SetDoorTarget { door, level } => retargeted(w, door as int, level),
        Step::SetTransform { id, transform } => moved(w, id as int, transform),
        Step::NewLevel => bootstrapped(w),
        Step::Instantiate { holder, scene } => instantiated(w, holder as int, scene),
        Step::RemoveSceneRoots => cleaned(w),
    }
}

/// The world after a run of changes.
pub open spec fn run(w: WorldView, steps: Seq<Step>) -> WorldView
    decreases steps.len(),
{
    if steps.len() == 0 {
        w
    } else {
        step(run(w, steps.drop_last()), steps.last())
    }
}

/// The operations of the world that are not single changes are runs of
/// changes: the copy of an entity is a spawn, a weapon given to the player
/// is a despawn and a spawn, and a weapon picked up is two despawns and a
/// spawn.
pub proof fn law_world_operations_are_runs(
    w: WorldView,
    id: EntityId,
    transform: Transform,
    player: EntityId,
    weapon: crate::component::Weapon,
    pickup: EntityId,
)
    requires
        well_formed(w),
        w.len() < usize::MAX,
    ensures
        duplicated(w, id as int, transform) == if alive(w, id as int) {
            step(
                w,
                Step::Spawn {
                    bundle: BundleView { transform: Some(transform), ..w[id as int]->0.bundle },
                    parent: w[id as int]->0.child_of,
                    owner: None,
                    scene_root: None,
                },
            )
        } else {
            w
        },
        armed(w, player, weapon) == if alive(w, player as int) {
            run(
                w,
                seq![
                    Step::Remove { seeds: children_of(w, player) },
                    Step::Spawn {
                        bundle: BundleView::weapon(weapon),
                        parent: Some(player),
                        owner: None,
                        scene_root: None,
                    }
                ],
            )
        } else {
            w
        },
        picked_up(w, player, pickup) == if can_pick_up(w, player, pickup) {
            run(
                w,
                seq![
                    Step::Remove { seeds: selected_weapons(w) },
                    Step::Despawn { id: pickup },
                    Step::Spawn {
                        bundle: BundleView::selected(w[pickup as int]->0.bundle.weapon->0),
                        parent: Some(player),
                        owner: None,
                        scene_root: None,
                    }
                ],
            )
        } else {
            w
        },
{
    if alive(w, id as int) {
        assert(entity_ok(w, id as int));
    }
    if alive(w, player as int) {
        let first = Step::Remove { seeds: children_of(w, player) };
        let second = Step::Spawn {
            bundle: BundleView::weapon(weapon),
            parent: Some(player),
            owner: None,
            scene_root: None,
        };
        lemma_run_of_two(w, first, second);
        lemma_children_spare_parent(w, player, player as int);
    }
    if can_pick_up(w, player, pickup) {
        let first = Step::Remove { seeds: selected_weapons(w) };
        let second = Step::Despawn { id: pickup };
        let third = Step::Spawn {
            bundle: BundleView::selected(w[pickup as int]->0.bundle.weapon->0),
            parent: Some(player),
            owner: None,
            scene_root: None,
        };
        let steps = seq![first, second, third];
        lemma_run_of_two(w, first, second);
        assert(step(w, first).len() == w.len());
        assert(step(step(w, first), second).len() == w.len());
        assert(steps.drop_last() =~= seq![first, second]);
        assert(run(w, steps) == step(step(step(w, first), second), third));
    }
}

/// The despawn of the children of an entity spares the entity and all that
/// is older.
proof fn lemma_children_spare_parent(w: WorldView, parent: EntityId, i: int)
    requires
        well_formed(w),
        i <= parent,
    ensures
        !condemned(w, children_of(w, parent), i),
    decreases i,
{
    if alive(w, i) {
        assert(entity_ok(w, i));
        if let Some(p) = w[i]->0.child_of {
            if p < i {
                lemma_children_spare_parent(w, parent, p as int);
            }
        }
    }
}

/// The operations of the engine change the world by runs of changes: a
/// reset is the despawn of the level and the spawn of a placeholder, a
/// transition is a reset under the new identifier, and a level is made by
/// the despawn of the old one and the spawn of a fresh one.
pub proof fn law_engine_operations_are_runs(c: ControllerView, level: Seq<char>)
    requires
        c.world.len() < usize::MAX,
    ensures
        c.reset_level().world == run(
            c.world,
            seq![
                Step::DespawnLevel,
                Step::Spawn {
                    bundle: BundleView::holder(c.level),
                    parent: None,
                    owner: None,
                    scene_root: Some(SceneRoot::Pending),
                }
            ],
        ),
        c.transition(level).world == run(
            c.world,
            seq![
                Step::DespawnLevel,
                Step::Spawn {
                    bundle: BundleView::holder(level),
                    parent: None,
                    owner: None,
                    scene_root: Some(SceneRoot::Pending),
                }
            ],
        ),
        c.make_level(level).world == run(c.world, seq![Step::DespawnLevel, Step::NewLevel]),
{
    assert(step(c.world, Step::DespawnLevel).len() == c.world.len());
    lemma_run_of_two(
        c.world,
        Step::DespawnLevel,
        Step::Spawn {
            bundle: BundleView::holder(c.level),
            parent: None,
            owner: None,
            scene_root: Some(SceneRoot::Pending),
        },
    );
    lemma_run_of_two(
        c.world,
        Step::DespawnLevel,
        Step::Spawn {
            bundle: BundleView::holder(level),
            parent: None,
            owner: None,
            scene_root: Some(SceneRoot::Pending),
        },
    );
    lemma_run_of_two(c.world, Step::DespawnLevel, Step::NewLevel);
}

/// A run of two changes is the second change after the first.
proof fn lemma_run_of_two(w: WorldView, first: Step, second: Step)
    ensures
        run(w, seq![first, second]) == step(step(w, first), second),
{
    let steps = seq![first, second];
    assert(steps.drop_last() =~= seq![first]);
    assert(seq![first].drop_last() =~= Seq::<Step>::empty());
    assert(run(w, Seq::<Step>::empty()) == w);
    assert(run(w, seq![first]) == step(w, first));
}

/// The door `door` is out of play in `w`: it is gone or locked.
pub open spec fn barred(w: WorldView, door: int) -> bool {
    !alive(w, door) || w[door]->0.locked
}

/// The two sides of the relation between doors and keys agree: a door
/// lists a key if and only if the key exists and points back at the door,
/// and it lists no key twice.
pub proof fn law_keys_mirror_back_references(w: WorldView, door: EntityId, key: EntityId)
    requires
        well_formed(w),
        alive(w, door as int),
    ensures
        w[door as int]->0.keys.contains(key) <==> alive(w, key as int) && w[key as int]->0.key_of
            == Some(door),
        w[door as int]->0.keys.no_duplicates(),
{
    assert(entity_ok(w, door as int));
    let keys = w[door as int]->0.keys;
    if keys.contains(key) {
        let at = choose|at: int| 0 <= at < keys.len() && keys[at] == key;
        assert(alive(w, keys[at] as int));
    }
    if alive(w, key as int) && w[key as int]->0.key_of == Some(door) {
        assert(entity_ok(w, key as int));
    }
}

/// A door does not let the player through while it owns a living key that
/// must be destroyed, whatever other keys it owns.
pub proof fn law_shut_while_must_destroy_key_lives(w: WorldView, door: EntityId, key: EntityId)
    requires
        well_formed(w),
        alive(w, key as int),
        w[key as int]->0.key_of == Some(door),
        w[key as int]->0.bundle.key == Some(Key::MustDestroy),
    ensures
        !can_pass(w, door as int),
{
    assert(entity_ok(w, key as int));
    let keys = w[door as int]->0.keys;
    let at = choose|at: int| 0 <= at < keys.len() && keys[at] == key;
    assert(w[keys[at] as int]->0.bundle.key == Some(Key::MustDestroy));
}

/// A door that is not locked lets the player through once none of the keys
/// it owns must be destroyed, whatever keys of the other kind it owns.
pub proof fn law_open_without_must_destroy_key(w: WorldView, door: EntityId)
    requires
        well_formed(w),
        alive(w, door as int),
        w[door as int]->0.bundle.door is Some,
        !w[door as int]->0.locked,
        forall|key: int|
            alive(w, key) && w[key]->0.key_of == Some(door) ==> w[key]->0.bundle.key
                != Some(Key::MustDestroy),
    ensures
        can_pass(w, door as int),
{
    assert(entity_ok(w, door as int));
    let keys = w[door as int]->0.keys;
    assert forall|j: int| 0 <= j < keys.len() implies w[#[trigger] keys[j] as int]->0.bundle.key
        != Some(Key::MustDestroy) by {
        assert(alive(w, keys[j] as int));
    }
}

/// After a despawn, a door that stays lets the player through if it was not
/// locked, if every key it owned that had to be destroyed went, and if no
/// key it owned that had to be kept went.
pub proof fn law_open_once_keys_destroyed(w: WorldView, seeds: Set<int>, door: EntityId)
    requires
        well_formed(w),
        alive(w, door as int),
        !condemned(w, seeds, door as int),
        w[door as int]->0.bundle.door is Some,
        !w[door as int]->0.locked,
        forall|key: int|
            alive(w, key) && w[key]->0.key_of == Some(door) ==> match w[key]->0.bundle.key {
                Some(Key::MustDestroy) => condemned(w, seeds, key),
                Some(Key::MustKeep) => !condemned(w, seeds, key),
                None => true,
            },
    ensures
        can_pass(after_removal(w, seeds), door as int),
{
    let v = after_removal(w, seeds);
    assert(entity_ok(w, door as int));
    lemma_removal_well_formed(w, seeds);
    assert(entity_ok(v, door as int));
    let keys = w[door as int]->0.keys;
    if loses_kept_key(w, seeds, keys) {
        let j = choose|j: int|
            0 <= j < keys.len() && condemned(w, seeds, #[trigger] keys[j] as int) && w[keys[j] as int]->0.bundle.key
                == Some(Key::MustKeep);
        assert(alive(w, keys[j] as int));
    }
    let left = v[door as int]->0.keys;
    assert forall|j: int| 0 <= j < left.len() implies v[#[trigger] left[j] as int]->0.bundle.key
        != Some(Key::MustDestroy) by {
        assert(alive(v, left[j] as int));
        assert(v[left[j] as int]->0.key_of == Some(door));
        assert(alive(w, left[j] as int));
        assert(entity_ok(w, left[j] as int));
    }
}

/// When a key that its door must keep is despawned and the door stays, the
/// door is locked and lets nobody through.
pub proof fn law_lost_key_locks_door(
    w: WorldView,
    seeds: Set<int>,
    door: EntityId,
    key: EntityId,
)
    requires
        well_formed(w),
        alive(w, key as int),
        w[key as int]->0.key_of == Some(door),
        w[key as int]->0.bundle.key == Some(Key::MustKeep),
        condemned(w, seeds, key as int),
        !condemned(w, seeds, door as int),
    ensures
        alive(after_removal(w, seeds), door as int),
        after_removal(w, seeds)[door as int]->0.locked,
        !can_pass(after_removal(w, seeds), door as int),
{
    assert(entity_ok(w, key as int));
    let keys = w[door as int]->0.keys;
    let at = choose|at: int| 0 <= at < keys.len() && keys[at] == key;
    assert(condemned(w, seeds, keys[at] as int));
}

/// No single change unlocks a door: one that is gone or locked stays gone
/// or locked.
pub proof fn law_step_keeps_locks(w: WorldView, s: Step, door: EntityId)
    requires
        door < w.len(),
        barred(w, door as int),
    ensures
        step(w, s).len() >= w.len(),
        barred(step(w, s), door as int),
{
    match s {
        Step::Instantiate { holder, scene } => {
            if instantiable(w, holder as int, scene) {
                let marked = finished(w, holder as int);
                let v = grown(marked, scene, marked.len() as int, holder, scene.len() as int);
                lemma_grown_keeps(marked, scene, holder, scene.len() as int);
                assert(alive(v, door as int) == alive(marked, door as int));
                if alive(marked, door as int) {
                    assert(v[door as int]->0.locked == marked[door as int]->0.locked);
                }
            }
        },
        _ => {},
    }
}

/// No single change brings a despawned entity back: its handle stays
/// without an entity.
pub proof fn law_step_keeps_gone(w: WorldView, s: Step, id: EntityId)
    requires
        id < w.len(),
        !alive(w, id as int),
    ensures
        step(w, s).len() >= w.len(),
        !alive(step(w, s), id as int),
{
    law_step_keeps_locks(w, s, id);
    match s {
        Step::Instantiate { holder, scene } => {
            if instantiable(w, holder as int, scene) {
                let marked = finished(w, holder as int);
                let v = grown(marked, scene, marked.len() as int, holder, scene.len() as int);
                lemma_grown_keeps(marked, scene, holder, scene.len() as int);
                assert(alive(v, id as int) == alive(marked, id as int));
            }
        },
        _ => {},
    }
}

/// An entity that is despawned is gone for good: no run of changes gives
/// its handle to another entity. So a key that had to be destroyed and was
/// never comes back to shut its door.
pub proof fn law_gone_forever(w: WorldView, steps: Seq<Step>, id: EntityId)
    requires
        id < w.len(),
        !alive(w, id as int),
    ensures
        run(w, steps).len() >= w.len(),
        !alive(run(w, steps), id as int),
    decreases steps.len(),
{
    if steps.len() > 0 {
        law_gone_forever(w, steps.drop_last(), id);
        law_step_keeps_gone(run(w, steps.drop_last()), steps.last(), id);
    }
}

/// Once a door is locked, no run of changes makes it let the player through
/// again: not new keys, and not their removal.
pub proof fn law_locked_forever(w: WorldView, steps: Seq<Step>, door: EntityId)
    requires
        door < w.len(),
        barred(w, door as int),
    ensures
        run(w, steps).len() >= w.len(),
        barred(run(w, steps), door as int),
        !can_pass(run(w, steps), door as int),
    decreases steps.len(),
{
    if steps.len() > 0 {
        law_locked_forever(w, steps.drop_last(), door);
        law_step_keeps_locks(run(w, steps.drop_last()), steps.last(), door);
    }
}

/// The entity `e` is what the saved entity `from` is brought back as: it has
/// what the save kept of the bundle, it stands below its saved parent or
/// else below the placeholder, it is a key of its saved door, it is locked
/// if and only if it was locked when it was saved, and it is no
/// placeholder.
pub open spec fn restored(
    e: crate::model::EntityView,
    from: crate::scene::SceneEntityView,
    base: int,
    holder: EntityId,
) -> bool {
    &&& e.bundle == from.bundle.persistent()
    &&& e.child_of == Some(restored_parent(from, base, holder))
    &&& e.key_of == restored_door(from, base)
    &&& e.locked == from.locked
    &&& e.scene_root is None
}

/// Spawning the entities of a sound snapshot keeps a world well formed,
/// gives each of them the next handle, and leaves the older entities alive
/// or gone, and locked or not, as they were.
pub proof fn lemma_grown_keeps(w: WorldView, s: SceneView, holder: EntityId, n: int)
    requires
        alive(w, holder as int),
        scene_ok(s),
        0 <= n <= s.len(),
        w.len() + s.len() <= usize::MAX,
    ensures
        well_formed(w) ==> well_formed(grown(w, s, w.len() as int, holder, n)),
        grown(w, s, w.len() as int, holder, n).len() == w.len() + n,
        forall|i: int|
            0 <= i < w.len() ==> alive(grown(w, s, w.len() as int, holder, n), i) == alive(w, i),
        forall|i: int|
            alive(w, i) ==> (#[trigger] grown(w, s, w.len() as int, holder, n)[i])->0.locked
                == w[i]->0.locked,
        forall|i: int|
            alive(w, i) ==> (#[trigger] grown(w, s, w.len() as int, holder, n)[i])->0.bundle
                == w[i]->0.bundle,
        forall|q: int|
            0 <= q < n ==> alive(grown(w, s, w.len() as int, holder, n), w.len() + q) && (
            #[trigger] grown(w, s, w.len() as int, holder, n)[w.len() + q])->0.bundle
                == s[q].bundle.persistent(),
        forall|q: int|
            0 <= q < n ==> restored(
                (#[trigger] grown(w, s, w.len() as int, holder, n)[w.len() + q])->0,
                s[q],
                w.len() as int,
                holder,
            ),
    decreases n,
{
    if n > 0 {
        let base = w.len() as int;
        lemma_grown_keeps(w, s, holder, n - 1);
        let v = grown(w, s, base, holder, n - 1);
        let e = s[n - 1];
        if let Some(d) = e.key_of {
            assert(alive(v, base + d) && v[base + d]->0.bundle == s[d as int].bundle.persistent());
        }
        if let Some(q) = e.child_of {
            assert(alive(v, base + q));
        }
        let fresh = spawned(
            v,
            e.bundle.persistent(),
            Some(restored_parent(e, base, holder)),
            restored_door(e, base),
            None,
        );
        if well_formed(w) {
            lemma_spawned_well_formed(
                v,
                e.bundle.persistent(),
                Some(restored_parent(e, base, holder)),
                restored_door(e, base),
                None,
            );
            lemma_with_lock_well_formed(fresh, v.len() as int, e.locked);
        }
        let u = grown(w, s, base, holder, n);
        assert(u == with_lock(fresh, v.len() as int, e.locked));
        assert forall|q: int| 0 <= q < n implies alive(u, base + q) && (#[trigger] u[base + q])->0.bundle
            == s[q].bundle.persistent() by {
            if q < n - 1 {
                assert(alive(v, base + q) && v[base + q]->0.bundle == s[q].bundle.persistent());
            }
        }
        assert forall|i: int| alive(w, i) implies (#[trigger] u[i])->0.locked == w[i]->0.locked by {
            assert(v[i]->0.locked == w[i]->0.locked);
        }
        assert forall|i: int| alive(w, i) implies (#[trigger] u[i])->0.bundle == w[i]->0.bundle by {
            assert(v[i]->0.bundle == w[i]->0.bundle);
        }
        assert forall|q: int| 0 <= q < n implies restored(
            (#[trigger] u[base + q])->0,
            s[q],
            base,
            holder,
        ) by {
            if q < n - 1 {
                assert(restored(v[base + q]->0, s[q], base, holder));
            }
        }
    }
}

/// Every change keeps a world well formed: parents and doors exist, and the
/// list of keys of a door and the back-references of the keys agree.
pub proof fn law_step_well_formed(w: WorldView, s: Step)
    requires
        well_formed(w),
        s is NewLevel ==> w.len() + 7 <= usize::MAX,
    ensures
        well_formed(step(w, s)),
{
    match s {
        Step::Spawn { bundle, parent, owner, scene_root } => {
            if can_spawn(w, bundle, parent, owner) && w.len() < usize::MAX {
                lemma_spawned_well_formed(w, bundle, parent, owner, scene_root);
            }
        },
        Step::Despawn { id } => {
            lemma_removal_well_formed(w, set![id as int]);
        },
        Step::Remove { seeds } => {
            lemma_removal_well_formed(w, seeds);
        },
        Step::DespawnLevel => {
            lemma_removal_well_formed(w, level_roots(w));
        },
        Step::SetDoorTarget { door, level } => {
            lemma_retargeted_well_formed(w, door as int, level);
        },
        Step::SetTransform { id, transform } => {
            lemma_moved_well_formed(w, id as int, transform);
        },
        Step::NewLevel => {
            lemma_bootstrapped_well_formed(w);
        },
        Step::Instantiate { holder, scene } => {
            if instantiable(w, holder as int, scene) {
                lemma_finished_well_formed(w, holder as int);
                lemma_grown_keeps(finished(w, holder as int), scene, holder, scene.len() as int);
            }
        },
        Step::RemoveSceneRoots => {
            lemma_cleaned_well_formed(w);
        },
    }
}

/// A door that is gone or locked never takes a collision, whatever touches
/// it and whatever keys it owns.
pub proof fn law_locked_door_never_transitions(w: WorldView, first: EntityId, second: EntityId)
    requires
        barred(w, first as int),
    ensures
        !door(w, first as int, second as int),
        route(w, first as int, second as int) != Some(Handler::Door),
{
}

/// After the level is despawned, no root of the level is left.
pub proof fn law_despawn_level_leaves_no_root(w: WorldView)
    ensures
        forall|i: int| !level_root(after_removal(w, level_roots(w)), i),
{
    let v = after_removal(w, level_roots(w));
    assert forall|i: int| !level_root(v, i) by {
        if level_root(v, i) {
            assert(level_root(w, i));
            assert(level_roots(w).contains(i));
        }
    }
}

/// A level that has just been made has exactly one root of level geometry:
/// whatever roots the old level had are gone, and the fresh level brings
/// one.
pub proof fn law_made_level_has_one_root(c: ControllerView, level: Seq<char>)
    requires
        c.world.len() + 7 <= usize::MAX,
    ensures
        forall|i: int|
            (level_root(c.make_level(level).world, i) && c.make_level(
                level,
            ).world[i]->0.bundle.level_geometry) <==> i == c.world.len() + 1,
{
    let rest = c.named(level).despawn_level().world;
    let made = c.make_level(level).world;
    law_despawn_level_leaves_no_root(c.world);
    assert forall|i: int| (level_root(made, i) && made[i]->0.bundle.level_geometry) <==> i
        == c.world.len() + 1 by {
        if 0 <= i < rest.len() {
            assert(!level_root(rest, i));
            assert(made[i] == rest[i]);
        }
    }
}

/// A test that all of `s` passes leaves `s` as it is.
proof fn lemma_filter_all(s: Seq<EntityId>, keep: spec_fn(EntityId) -> bool)
    requires
        forall|j: int| 0 <= j < s.len() ==> keep(#[trigger] s[j]),
    ensures
        s.filter(keep) == s,
    decreases s.len(),
{
    reveal(Seq::filter);
    if s.len() > 0 {
        lemma_filter_all(s.drop_last(), keep);
        assert(s.drop_last().push(s.last()) =~= s);
    }
}

/// Despawning the newest entity of a world, when nothing is related to it,
/// empties its slot and changes nothing else.
proof fn lemma_remove_newest(w: WorldView, seeds: Set<int>)
    requires
        well_formed(w),
        w.len() > 0,
        w[w.len() - 1] is Some,
        w[w.len() - 1]->0.key_of is None,
        forall|i: int| alive(w, i) ==> (seeds.contains(i) <==> i == w.len() - 1),
    ensures
        after_removal(w, seeds) == w.drop_last().push(None),
{
    let last = w.len() - 1;
    assert forall|i: int| condemned(w, seeds, i) == (i == last) by {
        lemma_condemned_only_newest(w, seeds, i);
    }
    let v = after_removal(w, seeds);
    assert forall|i: int| 0 <= i < last implies v[i] == w[i] by {
        if alive(w, i) {
            assert(entity_ok(w, i));
            let e = w[i]->0;
            assert forall|j: int| 0 <= j < e.keys.len() implies spared(w, seeds)(
                #[trigger] e.keys[j],
            ) by {
                assert(alive(w, e.keys[j] as int));
            }
            lemma_filter_all(e.keys, spared(w, seeds));
            if loses_kept_key(w, seeds, e.keys) {
                let j = choose|j: int|
                    0 <= j < e.keys.len() && condemned(w, seeds, #[trigger] e.keys[j] as int)
                        && w[e.keys[j] as int]->0.bundle.key == Some(Key::MustKeep);
                assert(alive(w, e.keys[j] as int));
            }
            assert(survivor(w, seeds, e) == e);
        }
    }
    assert(v =~= w.drop_last().push(None));
}

/// With the newest entity as the only seed, nothing else is condemned.
proof fn lemma_condemned_only_newest(w: WorldView, seeds: Set<int>, i: int)
    requires
        well_formed(w),
        w.len() > 0,
        w[w.len() - 1] is Some,
        forall|i: int| alive(w, i) ==> (seeds.contains(i) <==> i == w.len() - 1),
    ensures
        condemned(w, seeds, i) == (i == w.len() - 1),
    decreases i,
{
    if alive(w, i) && i != w.len() - 1 {
        if let Some(p) = w[i]->0.child_of {
            if p < i {
                lemma_condemned_only_newest(w, seeds, p as int);
            }
        }
    }
}

/// The placeholder that a load of the level `level` spawns.
pub open spec fn placeholder(level: Seq<char>) -> crate::model::EntityView {
    fresh(
        BundleView::holder(level),
        None,
        None,
        Some(SceneRoot::Pending),
    )
}

/// A reset never changes the identifier of the active level, and neither
/// does any other operation but a transition. A transition to a level sets
/// the identifier while the old content still stands, and then resets.
pub proof fn law_identifier(c: ControllerView, level: Seq<char>, first: EntityId, second: EntityId)
    ensures
        c.reset_level().level == c.level,
        c.despawn_level().level == c.level,
        c.deserialize_level().level == c.level,
        c.new_level().level == c.level,
        c.named(level).world == c.world,
        c.named(level).level == level,
        c.transition(level) == c.named(level).despawn_level().deserialize_level(),
        c.transition(level).level == level,
        c.collision(first as int, second as int).level == match route(
            c.world,
            first as int,
            second as int,
        ) {
            Some(Handler::Door) => c.world[first as int]->0.bundle.door->0,
            _ => c.level,
        },
{
}

/// After a reset, the one root of the level is the placeholder of the load
/// that the reset began; and a second reset right after the first leaves
/// what one reset leaves, but for the first placeholder's slot, which is
/// empty. A snapshot that arrives for the first placeholder changes
/// nothing.
pub proof fn law_reset_twice(c: ControllerView, late: SceneView)
    requires
        well_formed(c.world),
        c.world.len() + 2 <= usize::MAX,
    ensures
        ({
            let rest = c.despawn_level().world;
            let once = c.reset_level();
            let twice = once.reset_level();
            &&& twice.level == c.level
            &&& once.world == rest.push(Some(placeholder(c.level)))
            &&& twice.world == rest.push(None).push(Some(placeholder(c.level)))
            &&& level_roots(once.world) == set![rest.len() as int]
            &&& level_roots(twice.world) == set![rest.len() as int + 1]
            &&& instantiated(twice.world, rest.len() as int, late) == twice.world
        }),
{
    let rest = c.despawn_level().world;
    let once = c.reset_level();
    let twice = once.reset_level();
    let holder = placeholder(c.level);
    law_despawn_level_leaves_no_root(c.world);
    lemma_removal_well_formed(c.world, level_roots(c.world));
    assert(once.world == rest.push(Some(holder)));
    assert forall|i: int| level_root(once.world, i) == (i == rest.len()) by {
        if 0 <= i < rest.len() {
            assert(!level_root(rest, i));
        }
    }
    assert(level_roots(once.world) =~= set![rest.len() as int]);
    lemma_spawned_well_formed(
        rest,
        BundleView::holder(c.level),
        None,
        None,
        Some(SceneRoot::Pending),
    );
    lemma_remove_newest(once.world, level_roots(once.world));
    assert(once.world.drop_last() =~= rest);
    let gap = rest.push(None);
    assert(twice.world == gap.push(Some(holder)));
    assert forall|i: int| level_root(twice.world, i) == (i == rest.len() + 1) by {
        if 0 <= i < rest.len() {
            assert(!level_root(rest, i));
        }
    }
    assert(level_roots(twice.world) =~= set![rest.len() as int + 1]);
}

/// The handle under which the saved entity `i` of `w` comes back, when the
/// snapshot of `w` is brought to life in a world that has given out `base`
/// handles.
pub open spec fn returns_as(w: WorldView, base: nat, i: EntityId) -> EntityId {
    (base + rank(w, i as int)) as usize
}

/// Where the relation of a saved entity to `link` points once the snapshot
/// is brought back: at the handle under which `link` comes back, if it is
/// saved too.
pub open spec fn returning_link(w: WorldView, base: nat, link: Option<EntityId>) -> Option<
    EntityId,
> {
    match link {
        Some(to) => if saved(w, to as int) {
            Some(returns_as(w, base, to))
        } else {
            None
        },
        None => None,
    }
}

/// Saving a world and bringing the snapshot back to life yields the same
/// graph under new handles. As many entities come back as were saved, and
/// each saved entity `i` comes back with what the save keeps of its bundle,
/// below its parent if that was saved too and else below the placeholder,
/// as a key of its door if that was saved too, and locked if and only if it
/// was locked when it was saved: a door that was locked lets nobody through
/// after save and load either. Two saved entities come back under two
/// handles.
pub proof fn law_round_trip(
    w: WorldView,
    into: WorldView,
    holder: EntityId,
    i: EntityId,
    j: EntityId,
)
    requires
        well_formed(w),
        well_formed(into),
        alive(into, holder as int),
        into[holder as int]->0.scene_root == Some(SceneRoot::Pending),
        into.len() + scene_of(w).len() <= usize::MAX,
        saved(w, i as int),
        saved(w, j as int),
    ensures
        ({
            let v = instantiated(into, holder as int, scene_of(w));
            let e = v[returns_as(w, into.len(), i) as int]->0;
            &&& instantiable(into, holder as int, scene_of(w))
            &&& well_formed(v)
            &&& v.len() == into.len() + rank(w, w.len() as int)
            &&& alive(v, returns_as(w, into.len(), i) as int)
            &&& e.bundle == w[i as int]->0.bundle.persistent()
            &&& e.child_of == match returning_link(w, into.len(), w[i as int]->0.child_of) {
                Some(p) => Some(p),
                None => Some(holder),
            }
            &&& e.key_of == returning_link(w, into.len(), w[i as int]->0.key_of)
            &&& e.locked == w[i as int]->0.locked
            &&& w[i as int]->0.locked ==> !can_pass(v, returns_as(w, into.len(), i) as int)
            &&& e.scene_root is None
            &&& i != j ==> returns_as(w, into.len(), i) != returns_as(w, into.len(), j)
        }),
{
    let s = scene_of(w);
    let n = w.len() as int;
    let base = into.len() as int;
    lemma_scene_of_ok(w);
    lemma_scene_len(w, n);
    lemma_scene_place(w, n, i as int);
    let marked = finished(into, holder as int);
    lemma_finished_well_formed(into, holder as int);
    lemma_grown_keeps(marked, s, holder, s.len() as int);
    let v = grown(marked, s, base, holder, s.len() as int);
    let q = rank(w, i as int) as int;
    assert(restored(v[base + q]->0, s[q], base, holder));
    assert(entity_ok(w, i as int));
    if let Some(p) = w[i as int]->0.child_of {
        lemma_scene_len(w, p as int);
    }
    if let Some(d) = w[i as int]->0.key_of {
        lemma_scene_len(w, d as int);
    }
    if i < j {
        lemma_rank_rises(w, i as int, j as int);
    }
    if j < i {
        lemma_rank_rises(w, j as int, i as int);
    }
    lemma_scene_place(w, n, j as int);
}

/// A lock outlasts save and load: when the text that a save writes of a
/// world with a locked, saved door arrives for a placeholder, the door
/// comes back locked and lets nobody through.
pub proof fn law_lock_outlasts_save_and_load(
    from: ControllerView,
    into: ControllerView,
    holder: EntityId,
    door: EntityId,
)
    requires
        well_formed(from.world),
        writable(scene_of(from.world)),
        well_formed(into.world),
        alive(into.world, holder as int),
        into.world[holder as int]->0.scene_root == Some(SceneRoot::Pending),
        into.world.len() + scene_of(from.world).len() <= usize::MAX,
        saved(from.world, door as int),
        from.world[door as int]->0.locked,
    ensures
        from.save_request() matches crate::level::RequestView::Save { text, .. } && ({
            let loaded = into.scene_loaded(holder as int, text).world;
            let back = returns_as(from.world, into.world.len(), door) as int;
            &&& alive(loaded, back)
            &&& loaded[back]->0.locked
            &&& !can_pass(loaded, back)
        }),
{
    law_text_round_trip(scene_of(from.world));
    law_round_trip(from.world, into.world, holder, door, door);
}

/// The bundles of the snapshot `s` hold only what a save keeps.
pub open spec fn plain(s: SceneView) -> bool {
    forall|q: int| 0 <= q < s.len() ==> (#[trigger] s[q]).bundle == s[q].bundle.persistent()
}

/// The snapshot of a world holds only what a save keeps.
pub proof fn lemma_scene_of_plain(w: WorldView)
    ensures
        plain(scene_of(w)),
{
    let s = scene_of(w);
    let n = w.len() as int;
    lemma_scene_len(w, n);
    assert forall|q: int| 0 <= q < s.len() implies (#[trigger] s[q]).bundle
        == s[q].bundle.persistent() by {
        let i = lemma_scene_source(w, n, q);
        lemma_scene_place(w, n, i);
    }
}

/// Where nothing below `n` is saved, the snapshot of what is below `n` is
/// empty.
proof fn lemma_nothing_saved(w: WorldView, n: int)
    requires
        forall|i: int| 0 <= i < n ==> !saved(w, i),
    ensures
        scene_upto(w, n) == Seq::<crate::scene::SceneEntityView>::empty(),
        rank(w, n) == 0,
    decreases n,
{
    if n > 0 {
        lemma_nothing_saved(w, n - 1);
    }
}

/// In a world that holds, above `base` handles of which none is saved, the
/// entities of the snapshot `s` as they are brought back, the snapshot of
/// what is below `base + k` is the first `k` entities of `s`.
proof fn lemma_snapshot_of_restored(
    v: WorldView,
    s: SceneView,
    base: int,
    holder: EntityId,
    k: int,
)
    requires
        0 <= k <= s.len(),
        0 <= holder < base,
        base + s.len() <= usize::MAX,
        v.len() == base + s.len(),
        scene_ok(s),
        plain(s),
        forall|i: int| 0 <= i < base ==> !saved(v, i),
        forall|q: int|
            0 <= q < s.len() ==> alive(v, base + q) && restored(
                (#[trigger] v[base + q])->0,
                s[q],
                base,
                holder,
            ),
    ensures
        scene_upto(v, base + k) == s.take(k),
        rank(v, base + k) == k,
    decreases k,
{
    if k == 0 {
        lemma_nothing_saved(v, base);
        assert(s.take(0) =~= Seq::<crate::scene::SceneEntityView>::empty());
    } else {
        lemma_snapshot_of_restored(v, s, base, holder, k - 1);
        let q = k - 1;
        assert(alive(v, base + q) && restored(v[base + q]->0, s[q], base, holder));
        assert(saved(v, base + q));
        if let Some(p) = s[q].child_of {
            lemma_snapshot_of_restored(v, s, base, holder, p as int);
            assert(alive(v, base + p) && restored(v[base + p]->0, s[p as int], base, holder));
        }
        if let Some(d) = s[q].key_of {
            lemma_snapshot_of_restored(v, s, base, holder, d as int);
            assert(alive(v, base + d) && restored(v[base + d]->0, s[d as int], base, holder));
        }
        assert(scene_entity(v, base + q) == s[q]);
        assert(s.take(k) =~= s.take(q).push(s[q]));
    }
}

/// Saving, loading and saving again gives the first snapshot again: when a
/// snapshot that holds only what a save keeps is brought to life in a world
/// without saved entities, the snapshot of that world is the one that was
/// brought to life.
pub proof fn law_snapshot_survives_load(into: WorldView, holder: EntityId, s: SceneView)
    requires
        well_formed(into),
        instantiable(into, holder as int, s),
        plain(s),
        forall|i: int| !saved(into, i),
    ensures
        scene_of(instantiated(into, holder as int, s)) == s,
{
    let base = into.len() as int;
    let marked = finished(into, holder as int);
    lemma_grown_keeps(marked, s, holder, s.len() as int);
    let v = grown(marked, s, base, holder, s.len() as int);
    assert forall|i: int| 0 <= i < base implies !saved(v, i) by {
        assert(!saved(into, i));
        if alive(marked, i) {
            assert(v[i]->0.bundle == marked[i]->0.bundle);
        }
    }
    lemma_snapshot_of_restored(v, s, base, holder, s.len() as int);
    assert(s.take(s.len() as int) =~= s);
}

/// The snapshot of a world comes back from a load as it went out: in a
/// world without saved entities, bringing the snapshot of `w` to life
/// yields a world whose snapshot is that of `w`.
pub proof fn law_save_load_save(w: WorldView, into: WorldView, holder: EntityId)
    requires
        well_formed(w),
        well_formed(into),
        alive(into, holder as int),
        into[holder as int]->0.scene_root == Some(SceneRoot::Pending),
        into.len() + scene_of(w).len() <= usize::MAX,
        forall|i: int| !saved(into, i),
    ensures
        scene_of(instantiated(into, holder as int, scene_of(w))) == scene_of(w),
{
    lemma_scene_of_ok(w);
    lemma_scene_of_plain(w);
    law_snapshot_survives_load(into, holder, scene_of(w));
}

/// A level that is saved to a file and loaded from that file comes back as
/// it was saved: the text that a save writes holds the snapshot of the
/// world, and when that text arrives for a placeholder in a world without
/// saved entities, the snapshot of that world is the snapshot that was
/// saved.
pub proof fn law_file_round_trip(from: ControllerView, into: ControllerView, holder: EntityId)
    requires
        well_formed(from.world),
        writable(scene_of(from.world)),
        well_formed(into.world),
        alive(into.world, holder as int),
        into.world[holder as int]->0.scene_root == Some(SceneRoot::Pending),
        into.world.len() + scene_of(from.world).len() <= usize::MAX,
        forall|i: int| !saved(into.world, i),
    ensures
        from.save_request() matches crate::level::RequestView::Save { text, .. } && scene_in(text)
            == Some(scene_of(from.world)) && scene_of(
            into.scene_loaded(holder as int, text).world,
        ) == scene_of(from.world),
{
    law_text_round_trip(scene_of(from.world));
    law_save_load_save(from.world, into.world, holder);
}

/// A reset keeps every lock.
proof fn lemma_reset_keeps_locks(c: ControllerView, door: EntityId)
    requires
        door < c.world.len(),
        barred(c.world, door as int),
    ensures
        c.reset_level().world.len() >= c.world.len(),
        barred(c.reset_level().world, door as int),
{
    law_step_keeps_locks(c.world, Step::DespawnLevel, door);
}

/// No operation of the engine unlocks a door: after a reset, a transition,
/// a fresh level, a new level made, a collision handled, a text loaded or a
/// command carried out, a door that was gone or locked is gone or locked.
pub proof fn law_engine_keeps_locks(
    c: ControllerView,
    door: EntityId,
    level: Seq<char>,
    first: EntityId,
    second: EntityId,
    written: Seq<char>,
    command: CommandView,
)
    requires
        well_formed(c.world),
        door < c.world.len(),
        barred(c.world, door as int),
    ensures
        barred(c.despawn_level().world, door as int),
        barred(c.deserialize_level().world, door as int),
        barred(c.reset_level().world, door as int),
        barred(c.transition(level).world, door as int),
        barred(c.new_level().world, door as int),
        barred(c.make_level(level).world, door as int),
        barred(c.collision(first as int, second as int).world, door as int),
        barred(c.scene_loaded(first as int, written).world, door as int),
        barred(c.command(command).world, door as int),
{
    law_step_keeps_locks(c.world, Step::DespawnLevel, door);
    law_step_keeps_locks(c.world, Step::NewLevel, door);
    law_step_keeps_locks(c.despawn_level().world, Step::NewLevel, door);
    lemma_reset_keeps_locks(c, door);
    lemma_reset_keeps_locks(c.named(level), door);
    law_step_keeps_locks(c.world, Step::Despawn { id: first }, door);
    law_step_keeps_locks(
        after_removal(c.world, set![first as int]),
        Step::Despawn { id: second },
        door,
    );
    if let Some(scene) = scene_in(written) {
        law_step_keeps_locks(c.world, Step::Instantiate { holder: first, scene }, door);
    }
    match command {
        CommandView::Make(to) => {
            law_step_keeps_locks(c.named(to).despawn_level().world, Step::NewLevel, door);
        },
        CommandView::Load(to) => {
            lemma_reset_keeps_locks(c.named(to), door);
        },
        CommandView::Copy(to) => {
            lemma_reset_keeps_locks(c.named(to), door);
        },
        CommandView::SetDoor(to) => {
            if let Some(d) = single_door(c.world) {
                law_step_keeps_locks(c.world, Step::SetDoorTarget { door: d, level: to }, door);
            }
        },
        CommandView::Keep | CommandView::Destroy => {
            crate::model::lemma_single_door(c.world);
        },
        _ => {},
    }
}

} // verus!
