//! Saved levels: the snapshot of the entities that are saved with a level,
//! and the way back from a snapshot to live entities.

use crate::component::{Bundle, BundleView, EntityId, SceneRoot};
use crate::model::{alive, entity_ok, finished, spawned, well_formed, with_lock, WorldView};
use crate::world::World;
use vstd::prelude::*;
use vstd::string::StringExecFns;

verus! {

/// One saved entity. Its parent and its door are given by their places in
/// the snapshot.
#[derive(Debug, PartialEq, Eq)]
pub struct SceneEntity {
    pub bundle: Bundle,
    /// The place of the parent in the snapshot, if the parent is saved too.
    pub child_of: Option<usize>,
    /// The place of the owning door in the snapshot, if it is saved too.
    pub key_of: Option<usize>,
    /// The permanent lock of a door. A lock outlasts save and load.
    pub locked: bool,
}

/// The mathematical value of a [`SceneEntity`].
pub struct SceneEntityView {
    pub bundle: BundleView,
    pub child_of: Option<usize>,
    pub key_of: Option<usize>,
    pub locked: bool,
}

impl View for SceneEntity {
    type V = SceneEntityView;

    open spec fn view(&self) -> SceneEntityView {
        SceneEntityView {
            bundle: self.bundle@,
            child_of: self.child_of,
            key_of: self.key_of,
            locked: self.locked,
        }
    }
}

/// The snapshot of a level: its saved entities, in the order of their
/// handles.
#[derive(Debug, PartialEq, Eq)]
pub struct Scene {
    pub entities: Vec<SceneEntity>,
}

/// The mathematical value of a [`Scene`].
pub type SceneView = Seq<SceneEntityView>;

impl View for Scene {
    type V = SceneView;

    open spec fn view(&self) -> SceneView {
        self.entities@.map_values(|e: SceneEntity| e@)
    }
}

/// A snapshot can be brought to life: each entity's parent and door stand
/// before it, its door is a door, and what has a door is a key.
pub open spec fn scene_ok(s: SceneView) -> bool {
    forall|i: int|
        0 <= i < s.len() ==> {
            &&& (#[trigger] s[i]).child_of matches Some(p) ==> p < i
            &&& s[i].key_of matches Some(d) ==> d < i && s[d as int].bundle.door is Some
                && s[i].bundle.key is Some
        }
}

/// The entity `i` of `w` is saved with the level.
pub open spec fn saved(w: WorldView, i: int) -> bool {
    alive(w, i) && w[i]->0.bundle.serialize
}

/// How many entities with a handle below `i` are saved: the place of the
/// entity `i` in the snapshot, if it is saved.
pub open spec fn rank(w: WorldView, i: int) -> nat
    decreases i,
{
    if i <= 0 {
        0
    } else {
        rank(w, i - 1) + if saved(w, i - 1) {
            1nat
        } else {
            0nat
        }
    }
}

/// The place in the snapshot of the entity that `link` names, if there is
/// one and it is saved.
pub open spec fn saved_link(w: WorldView, link: Option<EntityId>) -> Option<usize> {
    match link {
        Some(to) => if saved(w, to as int) {
            Some(rank(w, to as int) as usize)
        } else {
            None
        },
        None => None,
    }
}

/// What the snapshot keeps of the entity `i`.
pub open spec fn scene_entity(w: WorldView, i: int) -> SceneEntityView {
    SceneEntityView {
        bundle: w[i]->0.bundle.persistent(),
        child_of: saved_link(w, w[i]->0.child_of),
        key_of: saved_link(w, w[i]->0.key_of),
        locked: w[i]->0.locked,
    }
}

/// The snapshot of the entities with a handle below `n`.
pub open spec fn scene_upto(w: WorldView, n: int) -> SceneView
    decreases n,
{
    if n <= 0 {
        Seq::empty()
    } else if saved(w, n - 1) {
        scene_upto(w, n - 1).push(scene_entity(w, n - 1))
    } else {
        scene_upto(w, n - 1)
    }
}

/// The snapshot of `w`.
pub open spec fn scene_of(w: WorldView) -> SceneView {
    scene_upto(w, w.len() as int)
}

/// The snapshot of the entities below `n` has one place for each that is
/// saved, and no entity has a place beyond its handle.
pub proof fn lemma_scene_len(w: WorldView, n: int)
    ensures
        scene_upto(w, n).len() == rank(w, n),
        n >= 0 ==> rank(w, n) <= n,
        n <= 0 ==> rank(w, n) == 0,
    decreases n,
{
    if n > 0 {
        lemma_scene_len(w, n - 1);
    }
}

/// A saved entity has its place before the place of every later handle.
pub proof fn lemma_rank_rises(w: WorldView, i: int, j: int)
    requires
        0 <= i <= j,
    ensures
        rank(w, i) <= rank(w, j),
        i < j && saved(w, i) ==> rank(w, i) < rank(w, j),
    decreases j - i,
{
    if i < j {
        lemma_rank_rises(w, i, j - 1);
    }
}

/// The snapshot holds, at the place of each saved entity, what it keeps of
/// that entity.
pub proof fn lemma_scene_place(w: WorldView, n: int, i: int)
    requires
        0 <= i < n,
        saved(w, i),
    ensures
        rank(w, i) < scene_upto(w, n).len(),
        scene_upto(w, n)[rank(w, i) as int] == scene_entity(w, i),
    decreases n,
{
    lemma_scene_len(w, n - 1);
    lemma_scene_len(w, n);
    if i < n - 1 {
        lemma_scene_place(w, n - 1, i);
    }
}

/// Every place of the snapshot is the place of a saved entity.
pub proof fn lemma_scene_source(w: WorldView, n: int, q: int) -> (i: int)
    requires
        0 <= q < rank(w, n),
    ensures
        0 <= i < n,
        saved(w, i),
        rank(w, i) == q,
    decreases n,
{
    lemma_scene_len(w, n);
    if saved(w, n - 1) && rank(w, n - 1) == q {
        n - 1
    } else {
        lemma_scene_source(w, n - 1, q)
    }
}

/// The snapshot of a well-formed world can be brought to life.
pub proof fn lemma_scene_of_ok(w: WorldView)
    requires
        well_formed(w),
    ensures
        scene_ok(scene_of(w)),
{
    let s = scene_of(w);
    let n = w.len() as int;
    lemma_scene_len(w, n);
    assert forall|q: int| 0 <= q < s.len() implies {
        &&& (#[trigger] s[q]).child_of matches Some(p) ==> p < q
        &&& s[q].key_of matches Some(d) ==> d < q && s[d as int].bundle.door is Some
            && s[q].bundle.key is Some
    } by {
        let i = lemma_scene_source(w, n, q);
        lemma_scene_place(w, n, i);
        assert(entity_ok(w, i));
        if let Some(p) = w[i]->0.child_of {
            if saved(w, p as int) {
                lemma_rank_rises(w, p as int, i);
                lemma_scene_len(w, p as int);
            }
        }
        if let Some(d) = w[i]->0.key_of {
            if saved(w, d as int) {
                lemma_rank_rises(w, d as int, i);
                lemma_scene_len(w, d as int);
                lemma_scene_place(w, n, d as int);
            }
        }
    }
}

/// The parent of a saved entity, once it is brought back below the
/// placeholder `holder`, with the first entity of its snapshot at `base`.
pub open spec fn restored_parent(e: SceneEntityView, base: int, holder: EntityId) -> EntityId {
    match e.child_of {
        Some(q) => (base + q) as usize,
        None => holder,
    }
}

/// The door of a saved key, once it is brought back.
pub open spec fn restored_door(e: SceneEntityView, base: int) -> Option<EntityId> {
    match e.key_of {
        Some(d) => Some((base + d) as usize),
        None => None,
    }
}

/// The world after the saved entity `e` is brought back into `w`: it is
/// spawned with what the save kept of its bundle, below its saved parent or
/// else below the placeholder `holder`, as a key of its saved door, and it
/// is locked if it was locked when it was saved.
pub open spec fn brought_back(
    w: WorldView,
    e: SceneEntityView,
    base: int,
    holder: EntityId,
) -> WorldView {
    with_lock(
        spawned(
            w,
            e.bundle.persistent(),
            Some(restored_parent(e, base, holder)),
            restored_door(e, base),
            None,
        ),
        w.len() as int,
        e.locked,
    )
}

/// The world after the first `n` entities of the snapshot `s` are brought
/// back below the placeholder `holder`, the first of them at `base`.
pub open spec fn grown(w: WorldView, s: SceneView, base: int, holder: EntityId, n: int) -> WorldView
    decreases n,
{
    if n <= 0 {
        w
    } else {
        brought_back(grown(w, s, base, holder, n - 1), s[n - 1], base, holder)
    }
}

/// The snapshot `s` can be brought to life below `holder`: `holder` is the
/// placeholder of a load that has not come back, the snapshot is sound, and
/// there are handles left for its entities.
pub open spec fn instantiable(w: WorldView, holder: int, s: SceneView) -> bool {
    &&& alive(w, holder)
    &&& w[holder]->0.scene_root == Some(SceneRoot::Pending)
    &&& scene_ok(s)
    &&& w.len() + s.len() <= usize::MAX
}

/// The world after the snapshot `s` is brought to life below the placeholder
/// `holder`. Nothing changes if it cannot be.
pub open spec fn instantiated(w: WorldView, holder: int, s: SceneView) -> WorldView {
    if instantiable(w, holder, s) {
        grown(finished(w, holder), s, w.len() as int, holder as usize, s.len() as int)
    } else {
        w
    }
}

/// The path of the file that holds the snapshot of the level `level`.
pub open spec fn scene_file_path(level: Seq<char>) -> Seq<char> {
    "assets/scenes/"@ + level + ".scn.ron"@
}

/// The path under which the asset loader finds the snapshot of the level
/// `level`.
pub open spec fn scene_asset_path(level: Seq<char>) -> Seq<char> {
    "scenes/"@ + level + ".scn.ron"@
}

/// The path of the file that holds the snapshot of the level `level`:
/// `assets/scenes/`, the identifier, and `.scn.ron`.
pub fn scene_file(level: &str) -> (path: String)
    ensures
        path@ == scene_file_path(level@),
{
    String::from_str("assets/scenes/").concat(level).concat(".scn.ron")
}

/// The path under which the asset loader finds the snapshot of the level
/// `level`: `scenes/`, the identifier, and `.scn.ron`.
pub fn scene_asset(level: &str) -> (path: String)
    ensures
        path@ == scene_asset_path(level@),
{
    String::from_str("scenes/").concat(level).concat(".scn.ron")
}

impl Scene {
    /// Whether the snapshot can be brought to life.
    pub fn is_valid(&self) -> (valid: bool)
        ensures
            valid == scene_ok(self@),
    {
        let mut i: usize = 0;
        while i < self.entities.len()
            invariant
                i <= self.entities.len(),
                forall|j: int|
                    0 <= j < i ==> {
                        &&& (#[trigger] self@[j]).child_of matches Some(p) ==> p < j
                        &&& self@[j].key_of matches Some(d) ==> d < j && self@[d as int].bundle.door
                            is Some && self@[j].bundle.key is Some
                    },
            decreases self.entities.len() - i,
        {
            let e = &self.entities[i];
            assert(self@[i as int] == e@);
            let parent_ok = match e.child_of {
                Some(p) => p < i,
                None => true,
            };
            let door_ok = match e.key_of {
                Some(d) => {
                    if d < i {
                        assert(self@[d as int] == self.entities[d as int]@);
                        self.entities[d].bundle.door.is_some() && e.bundle.key.is_some()
                    } else {
                        false
                    }
                },
                None => true,
            };
            if !parent_ok || !door_ok {
                return false;
            }
            i += 1;
        }
        true
    }
}

impl World {
    /// The snapshot of the world: every entity that carries the persistence
    /// tag, with what a save keeps of its bundle and with its parent and its
    /// door given by their places in the snapshot.
    pub fn scene(&self) -> (scene: Scene)
        ensures
            scene@ == scene_of(self@),
    {
        let n = self.next_id();
        let mut entities: Vec<SceneEntity> = Vec::new();
        let mut ranks: Vec<usize> = Vec::new();
        let mut i: usize = 0;
        while i < n
            invariant
                i <= n,
                n == self@.len(),
                well_formed(self@),
                ranks.len() == i,
                forall|j: int| 0 <= j < i ==> ranks[j] == rank(self@, j),
                entities.len() == rank(self@, i as int),
                entities@.map_values(|e: SceneEntity| e@) == scene_upto(self@, i as int),
            decreases n - i,
        {
            proof {
                lemma_scene_len(self@, i as int);
                lemma_scene_len(self@, i + 1);
            }
            ranks.push(entities.len());
            match self.get(i) {
                Some(e) => {
                    if e.bundle.serialize {
                        assert(entity_ok(self@, i as int));
                        let child_of = match e.child_of {
                            Some(p) => self.saved_place(p, &ranks),
                            None => None,
                        };
                        let key_of = match e.key_of {
                            Some(d) => self.saved_place(d.0, &ranks),
                            None => None,
                        };
                        let ghost before = entities@.map_values(|e: SceneEntity| e@);
                        let saved = SceneEntity {
                            bundle: e.bundle.persistent(),
                            child_of,
                            key_of,
                            locked: e.locked,
                        };
                        assert(saved@ == scene_entity(self@, i as int));
                        entities.push(saved);
                        assert(entities@.map_values(|e: SceneEntity| e@) =~= before.push(
                            scene_entity(self@, i as int),
                        ));
                    }
                },
                None => {},
            }
            i += 1;
        }
        Scene { entities }
    }

    /// The place in the snapshot of the entity `to`, if it is saved.
    fn saved_place(&self, to: EntityId, ranks: &Vec<usize>) -> (place: Option<usize>)
        requires
            to < ranks.len() <= self@.len(),
            ranks[to as int] == rank(self@, to as int),
        ensures
            place == saved_link(self@, Some(to)),
    {
        match self.get(to) {
            Some(e) => if e.bundle.serialize {
                Some(ranks[to])
            } else {
                None
            },
            None => None,
        }
    }

    /// Brings the snapshot `scene` to life below the placeholder `holder`:
    /// each saved entity is spawned with what the save kept of its bundle,
    /// below its saved parent or else below the placeholder, a door that
    /// was locked when it was saved is locked again, and the placeholder is
    /// marked as finished. Returns whether that was done;
    /// nothing changes if `holder` is not the placeholder of a load that has
    /// not come back, or if the snapshot is not sound.
    pub fn instantiate(&mut self, holder: EntityId, scene: &Scene) -> (done: bool)
        ensures
            done == instantiable(old(self)@, holder as int, scene@),
            final(self)@ == instantiated(old(self)@, holder as int, scene@),
            well_formed(final(self)@),
    {
        let pending = match self.get(holder) {
            Some(e) => matches!(e.scene_root, Some(SceneRoot::Pending)),
            None => false,
        };
        let base = self.next_id();
        if !pending || !scene.is_valid() || scene.entities.len() > usize::MAX - base {
            return false;
        }
        self.finish_scene_root(holder);
        let ghost marked = self@;
        let mut i: usize = 0;
        while i < scene.entities.len()
            invariant
                i <= scene.entities.len(),
                base == marked.len(),
                base + scene.entities.len() <= usize::MAX,
                scene_ok(scene@),
                alive(marked, holder as int),
                well_formed(self@),
                self@ == grown(marked, scene@, base as int, holder, i as int),
                self@.len() == base + i,
                alive(self@, holder as int),
                forall|q: int|
                    0 <= q < i ==> alive(self@, base + q) && (#[trigger] self@[base + q])->0.bundle
                        == scene@[q].bundle.persistent(),
            decreases scene.entities.len() - i,
        {
            let e = &scene.entities[i];
            assert(scene@[i as int] == e@);
            let parent = match e.child_of {
                Some(q) => base + q,
                None => holder,
            };
            let door = match e.key_of {
                Some(d) => Some(base + d),
                None => None,
            };
            let ghost v = self@;
            proof {
                if let Some(d) = e.key_of {
                    assert(alive(v, base + d) && v[base + d]->0.bundle == scene@[d as int].bundle.persistent());
                }
                if let Some(q) = e.child_of {
                    assert(alive(v, base + q));
                }
            }
            let id = self.insert(e.bundle.persistent(), Some(parent), door, None);
            self.lock(id, e.locked);
            proof {
                assert forall|q: int| 0 <= q < i + 1 implies alive(self@, base + q) && (
                #[trigger] self@[base + q])->0.bundle == scene@[q].bundle.persistent() by {
                    if q < i {
                        assert(alive(v, base + q) && v[base + q]->0.bundle
                            == scene@[q].bundle.persistent());
                    }
                }
            }
            i += 1;
        }
        true
    }
}

} // verus!
