//! The entity graph in executable form.

use crate::component::{
    rectangle, Bundle, BundleView, Door, EntityId, Key, KeyOf, SceneRoot, Transform, Weapon,
    BOTTOM, HEIGHT, KILL_BOX_Y, LEFT, PLAYER_X, RIGHT, TOP, WIDTH,
};
use crate::model::{
    after_removal, alive, armed, bootstrapped, can_pass, can_pick_up, can_spawn, children_of,
    cleaned, condemned, disarmed, doors_upto, duplicated, entity_ok, finished, finished_root,
    finished_roots, is_door, lemma_finished_well_formed, lemma_moved_well_formed,
    lemma_released_well_formed, lemma_removal_well_formed, lemma_retargeted_well_formed,
    lemma_spawned_well_formed, lemma_with_lock_well_formed, level_root, level_roots,
    loses_kept_key, moved, picked_up, released, retargeted, selected_weapons, single_door,
    spared, spawned, well_formed, with_lock, EntityView, WorldView,
};
use vstd::prelude::*;

verus! {

/// The keys that a door owns, in the order of their handles.
#[derive(Debug, PartialEq, Eq)]
pub struct Keys(pub Vec<EntityId>);

impl View for Keys {
    type V = Seq<EntityId>;

    open spec fn view(&self) -> Seq<EntityId> {
        self.0@
    }
}

/// An entity: its bundle and its relations to other entities.
#[derive(Debug, PartialEq, Eq)]
pub struct Entity {
    pub bundle: Bundle,
    /// The parent of the entity, if it has one.
    pub child_of: Option<EntityId>,
    /// The door that owns this key, if one does.
    pub key_of: Option<KeyOf>,
    /// The keys that this door owns.
    pub keys: Keys,
    /// The permanent lock of a door.
    pub locked: bool,
    /// Set on the placeholder of a load.
    pub scene_root: Option<SceneRoot>,
}

impl View for Entity {
    type V = EntityView;

    open spec fn view(&self) -> EntityView {
        EntityView {
            bundle: self.bundle@,
            child_of: self.child_of,
            key_of: match self.key_of {
                Some(k) => Some(k.0),
                None => None,
            },
            keys: self.keys@,
            locked: self.locked,
            scene_root: self.scene_root,
        }
    }
}

/// The view of a slot.
pub open spec fn slot_view(slot: Option<Entity>) -> Option<EntityView> {
    match slot {
        Some(e) => Some(e@),
        None => None,
    }
}

/// The view of all slots.
pub open spec fn slots_view(slots: Seq<Option<Entity>>) -> WorldView {
    slots.map_values(|slot: Option<Entity>| slot_view(slot))
}

/// The handles that `seeds` marks.
pub open spec fn seed_set(seeds: Seq<bool>) -> Set<int> {
    Set::new(|i: int| 0 <= i < seeds.len() && seeds[i])
}

/// Marks every entity that goes when the marked `seeds` are despawned. A
/// parent is older than its children, so one pass in the order of the
/// handles reaches all of them.
fn condemn(slots: &Vec<Option<Entity>>, seeds: &Vec<bool>) -> (marks: Vec<bool>)
    requires
        seeds.len() == slots.len(),
    ensures
        marks.len() == slots.len(),
        forall|i: int|
            0 <= i < marks.len() ==> marks[i] == condemned(
                slots_view(slots@),
                seed_set(seeds@),
                i,
            ),
{
    let mut marks: Vec<bool> = Vec::new();
    let mut i: usize = 0;
    while i < slots.len()
        invariant
            i <= slots.len(),
            seeds.len() == slots.len(),
            marks.len() == i,
            forall|j: int|
                0 <= j < i ==> marks[j] == condemned(slots_view(slots@), seed_set(seeds@), j),
        decreases slots.len() - i,
    {
        let mark = match &slots[i] {
            None => false,
            Some(e) => seeds[i] || match e.child_of {
                Some(p) => p < i && marks[p],
                None => false,
            },
        };
        marks.push(mark);
        i += 1;
    }
    marks
}

/// Despawns the marked entities and mends the relations of those that stay.
/// A door is older than its keys, so when the pass comes to a door the keys
/// that go with it are still there to be read.
fn sweep(slots: &mut Vec<Option<Entity>>, marks: &Vec<bool>, Ghost(seeds): Ghost<Set<int>>)
    requires
        well_formed(slots_view(old(slots)@)),
        marks.len() == old(slots).len(),
        forall|i: int|
            0 <= i < marks.len() ==> marks[i] == condemned(slots_view(old(slots)@), seeds, i),
    ensures
        slots_view(final(slots)@) == after_removal(slots_view(old(slots)@), seeds),
{
    let ghost w = slots_view(slots@);
    let n = slots.len();
    let mut i: usize = 0;
    while i < n
        invariant
            i <= n,
            slots.len() == n,
            marks.len() == n,
            w.len() == n,
            well_formed(w),
            forall|j: int| 0 <= j < n ==> marks[j] == condemned(w, seeds, j),
            forall|j: int| 0 <= j < i ==> slot_view(#[trigger] slots[j]) == after_removal(w, seeds)[j],
            forall|j: int| i <= j < n ==> slot_view(#[trigger] slots[j]) == w[j],
        decreases n - i,
    {
        if marks[i] {
            slots.set(i, None);
        } else {
            let mut kept: Vec<EntityId> = Vec::new();
            let mut lock = false;
            let mut forget = false;
            match &slots[i] {
                Some(e) => {
                    assert(slot_view(slots[i as int]) == w[i as int]);
                    assert(alive(w, i as int) && entity_ok(w, i as int));
                    let keys = &e.keys.0;
                    let mut j: usize = 0;
                    while j < keys.len()
                        invariant
                            j <= keys.len(),
                            i < n,
                            slots.len() == n,
                            marks.len() == n,
                            w.len() == n,
                            well_formed(w),
                            alive(w, i as int),
                            keys@ == w[i as int]->0.keys,
                            forall|j: int| 0 <= j < n ==> marks[j] == condemned(w, seeds, j),
                            forall|j: int| i <= j < n ==> slot_view(#[trigger] slots[j]) == w[j],
                            kept@ == keys@.take(j as int).filter(spared(w, seeds)),
                            lock == loses_kept_key(w, seeds, keys@.take(j as int)),
                        decreases keys.len() - j,
                    {
                        let k = keys[j];
                        proof {
                            assert(entity_ok(w, i as int));
                            assert(alive(w, keys@[j as int] as int));
                            assert(entity_ok(w, k as int));
                            assert(slot_view(slots[k as int]) == w[k as int]);
                            let front = keys@.take(j as int);
                            assert(keys@.take(j + 1) =~= front.push(k));
                            front.lemma_filter_push(k, spared(w, seeds));
                            lemma_loses_kept_key_push(w, seeds, front, k);
                        }
                        if marks[k] {
                            match &slots[k] {
                                Some(key) => {
                                    if matches!(key.bundle.key, Some(Key::MustKeep)) {
                                        lock = true;
                                    }
                                },
                                None => {},
                            }
                        } else {
                            kept.push(k);
                        }
                        j += 1;
                    }
                    assert(keys@.take(keys.len() as int) =~= keys@);
                    forget = match e.key_of {
                        Some(d) => marks[d.0],
                        None => false,
                    };
                },
                None => {},
            }
            match &mut slots[i] {
                Some(e) => {
                    e.keys = Keys(kept);
                    if lock {
                        e.locked = true;
                    }
                    if forget {
                        e.key_of = None;
                    }
                },
                None => {},
            }
        }
        i += 1;
    }
    assert(slots_view(slots@) =~= after_removal(w, seeds));
}

/// Whether `keys` with `k` behind them lose a key that must be kept.
proof fn lemma_loses_kept_key_push(w: WorldView, seeds: Set<int>, keys: Seq<EntityId>, k: EntityId)
    ensures
        loses_kept_key(w, seeds, keys.push(k)) == (loses_kept_key(w, seeds, keys) || (condemned(
            w,
            seeds,
            k as int,
        ) && w[k as int]->0.bundle.key == Some(Key::MustKeep))),
{
    let longer = keys.push(k);
    if loses_kept_key(w, seeds, keys) {
        let j = choose|j: int|
            0 <= j < keys.len() && condemned(w, seeds, #[trigger] keys[j] as int) && w[keys[j] as int]->0.bundle.key
                == Some(Key::MustKeep);
        assert(longer[j] == keys[j]);
    }
    if condemned(w, seeds, k as int) && w[k as int]->0.bundle.key == Some(Key::MustKeep) {
        assert(longer[keys.len() as int] == k);
    }
    if loses_kept_key(w, seeds, longer) {
        let j = choose|j: int|
            0 <= j < longer.len() && condemned(w, seeds, #[trigger] longer[j] as int) && w[longer[j] as int]->0.bundle.key
                == Some(Key::MustKeep);
        if j < keys.len() {
            assert(keys[j] == longer[j]);
        }
    }
}

/// The entity graph. Handles are slot numbers; the slot of a despawned entity
/// stays empty, so a handle never comes to name another entity.
pub struct World {
    slots: Vec<Option<Entity>>,
}

impl View for World {
    type V = WorldView;

    closed spec fn view(&self) -> WorldView {
        slots_view(self.slots@)
    }
}

impl World {
    #[verifier::type_invariant]
    spec fn inv(self) -> bool {
        well_formed(self@)
    }

    /// The world without entities.
    pub fn new() -> (world: World)
        ensures
            world@ == Seq::<Option<EntityView>>::empty(),
            well_formed(world@),
    {
        let world = World { slots: Vec::new() };
        assert(world@ =~= Seq::<Option<EntityView>>::empty());
        world
    }

    /// The handle that the next spawn gives out.
    pub fn next_id(&self) -> (id: EntityId)
        ensures
            id == self@.len(),
            well_formed(self@),
    {
        proof {
            use_type_invariant(self);
        }
        self.slots.len()
    }

    /// Whether the entity `id` exists.
    pub fn contains(&self, id: EntityId) -> (found: bool)
        ensures
            found == alive(self@, id as int),
    {
        id < self.slots.len() && self.slots[id].is_some()
    }

    /// The entity `id`, if it exists.
    pub fn get(&self, id: EntityId) -> (found: Option<&Entity>)
        ensures
            well_formed(self@),
            match found {
                Some(e) => alive(self@, id as int) && e@ == self@[id as int]->0,
                None => !alive(self@, id as int),
            },
    {
        proof {
            use_type_invariant(self);
        }
        if id < self.slots.len() {
            self.slots[id].as_ref()
        } else {
            None
        }
    }

    /// Spawns an entity with `bundle` below `parent` as a key of `door`.
    pub(crate) fn insert(
        &mut self,
        bundle: Bundle,
        parent: Option<EntityId>,
        door: Option<EntityId>,
        scene_root: Option<SceneRoot>,
    ) -> (id: EntityId)
        requires
            can_spawn(old(self)@, bundle@, parent, door),
        ensures
            id == old(self)@.len(),
            final(self)@ == spawned(old(self)@, bundle@, parent, door, scene_root),
            well_formed(final(self)@),
    {
        proof {
            use_type_invariant(&*self);
        }
        let ghost before = self@;
        let id = self.slots.len();
        let mut slots = Vec::new();
        std::mem::swap(&mut slots, &mut self.slots);
        if let Some(d) = door {
            match &mut slots[d] {
                Some(owner) => {
                    owner.keys.0.push(id);
                },
                None => {},
            }
        }
        let key_of = match door {
            Some(d) => Some(KeyOf(d)),
            None => None,
        };
        slots.push(
            Some(
                Entity {
                    bundle,
                    child_of: parent,
                    key_of,
                    keys: Keys(Vec::new()),
                    locked: false,
                    scene_root,
                },
            ),
        );
        proof {
            assert(slots_view(slots@) =~= spawned(
                before,
                bundle@,
                parent,
                door,
                scene_root,
            ));
            assert(before.len() + 1 == slots.len());
            lemma_spawned_well_formed(before, bundle@, parent, door, scene_root);
        }
        self.slots = slots;
        id
    }

    /// Despawns the entities that `seeds` marks, each with all that stands
    /// below it.
    fn remove(&mut self, seeds: &Vec<bool>)
        requires
            seeds.len() == old(self)@.len(),
        ensures
            final(self)@ == after_removal(old(self)@, seed_set(seeds@)),
            well_formed(final(self)@),
    {
        proof {
            use_type_invariant(&*self);
            lemma_removal_well_formed(self@, seed_set(seeds@));
        }
        let mut slots = Vec::new();
        std::mem::swap(&mut slots, &mut self.slots);
        let marks = condemn(&slots, seeds);
        sweep(&mut slots, &marks, Ghost(seed_set(seeds@)));
        self.slots = slots;
    }

    /// As many unset marks as there are slots.
    fn no_seeds(&self) -> (seeds: Vec<bool>)
        ensures
            seeds.len() == self@.len(),
            forall|i: int| 0 <= i < seeds.len() ==> !seeds[i],
    {
        let mut seeds: Vec<bool> = Vec::new();
        let mut i: usize = 0;
        while i < self.slots.len()
            invariant
                i <= self.slots.len(),
                seeds.len() == i,
                forall|j: int| 0 <= j < seeds.len() ==> !seeds[j],
            decreases self.slots.len() - i,
        {
            seeds.push(false);
            i += 1;
        }
        seeds
    }

    /// Spawns an entity with `bundle` and without relations, and returns its
    /// handle.
    pub fn spawn(&mut self, bundle: Bundle) -> (id: EntityId)
        ensures
            id == old(self)@.len(),
            final(self)@ == spawned(old(self)@, bundle@, None, None, None),
            well_formed(final(self)@),
    {
        self.insert(bundle, None, None, None)
    }

    /// Spawns an entity with `bundle` below `parent` and returns its handle.
    /// Nothing is spawned if `parent` does not exist.
    pub fn spawn_child(&mut self, parent: EntityId, bundle: Bundle) -> (id: Option<EntityId>)
        ensures
            well_formed(final(self)@),
            alive(old(self)@, parent as int) ==> id == Some(old(self)@.len() as usize)
                && final(self)@ == spawned(old(self)@, bundle@, Some(parent), None, None),
            !alive(old(self)@, parent as int) ==> id is None && final(self)@ == old(self)@,
    {
        proof {
            use_type_invariant(&*self);
        }
        if self.contains(parent) {
            Some(self.insert(bundle, Some(parent), None, None))
        } else {
            None
        }
    }

    /// Spawns a door to the level `level` and returns its handle.
    pub fn create_door(&mut self, level: String) -> (id: EntityId)
        ensures
            id == old(self)@.len(),
            final(self)@ == spawned(old(self)@, BundleView::door(level@), None, None, None),
            well_formed(final(self)@),
    {
        self.insert(Bundle::door(level), None, None, None)
    }

    /// Whether the entity `id` exists and is a door.
    pub fn is_door(&self, id: EntityId) -> (found: bool)
        ensures
            found == (alive(self@, id as int) && self@[id as int]->0.bundle.door is Some),
    {
        match self.get(id) {
            Some(e) => e.bundle.door.is_some(),
            None => false,
        }
    }

    /// The door of the level, if the level has exactly one.
    pub fn single_door(&self) -> (door: Option<EntityId>)
        ensures
            door == single_door(self@),
    {
        let mut count: usize = 0;
        let mut last: EntityId = 0;
        let mut i: usize = 0;
        while i < self.slots.len()
            invariant
                i <= self.slots.len(),
                count == doors_upto(self@, i as int).len(),
                count <= i,
                count > 0 ==> last == doors_upto(self@, i as int)[0],
            decreases self.slots.len() - i,
        {
            let found = match &self.slots[i] {
                Some(e) => e.bundle.door.is_some(),
                None => false,
            };
            assert(found == is_door(self@, i as int));
            if found {
                if count == 0 {
                    last = i;
                }
                count += 1;
            }
            i += 1;
        }
        if count == 1 {
            Some(last)
        } else {
            None
        }
    }

    /// Points the door `door` at the level `level`. Returns whether `door`
    /// is a door; nothing changes if it is not.
    pub fn set_door_target(&mut self, door: EntityId, level: String) -> (done: bool)
        ensures
            done == (alive(old(self)@, door as int) && old(self)@[door as int]->0.bundle.door
                is Some),
            final(self)@ == retargeted(old(self)@, door as int, level@),
            well_formed(final(self)@),
    {
        proof {
            use_type_invariant(&*self);
            lemma_retargeted_well_formed(self@, door as int, level@);
        }
        if !self.is_door(door) {
            return false;
        }
        let ghost before = self@;
        let mut slots = Vec::new();
        std::mem::swap(&mut slots, &mut self.slots);
        match &mut slots[door] {
            Some(e) => {
                e.bundle.door = Some(Door(level));
            },
            None => {},
        }
        assert(slots_view(slots@) =~= retargeted(before, door as int, level@));
        self.slots = slots;
        true
    }

    /// Moves the entity `id` to `transform`. Returns whether `id` exists;
    /// nothing changes if it does not.
    pub fn set_transform(&mut self, id: EntityId, transform: Transform) -> (done: bool)
        ensures
            done == alive(old(self)@, id as int),
            final(self)@ == moved(old(self)@, id as int, transform),
            well_formed(final(self)@),
    {
        proof {
            use_type_invariant(&*self);
            lemma_moved_well_formed(self@, id as int, transform);
        }
        if !self.contains(id) {
            return false;
        }
        let ghost before = self@;
        let mut slots = Vec::new();
        std::mem::swap(&mut slots, &mut self.slots);
        match &mut slots[id] {
            Some(e) => {
                e.bundle.transform = Some(transform);
            },
            None => {},
        }
        assert(slots_view(slots@) =~= moved(before, id as int, transform));
        self.slots = slots;
        true
    }

    /// Spawns a key of the kind `kind` that the door `door` owns, and returns
    /// its handle. Nothing is spawned if `door` is not a door.
    pub fn create_key(&mut self, kind: Key, door: EntityId) -> (id: Option<EntityId>)
        ensures
            well_formed(final(self)@),
            alive(old(self)@, door as int) && old(self)@[door as int]->0.bundle.door is Some ==> id
                == Some(old(self)@.len() as usize) && final(self)@ == spawned(
                old(self)@,
                BundleView::key(kind),
                None,
                Some(door),
                None,
            ),
            !(alive(old(self)@, door as int) && old(self)@[door as int]->0.bundle.door is Some)
                ==> id is None && final(self)@ == old(self)@,
    {
        proof {
            use_type_invariant(&*self);
        }
        if self.is_door(door) {
            Some(self.insert(Bundle::key(kind), None, Some(door), None))
        } else {
            None
        }
    }

    /// Whether the door `door` lets the player through: it is a door, it is
    /// not locked, and none of its keys must be destroyed.
    pub fn can_pass(&self, door: EntityId) -> (open: bool)
        ensures
            open == can_pass(self@, door as int),
    {
        proof {
            use_type_invariant(self);
        }
        match self.get(door) {
            Some(e) => {
                if e.bundle.door.is_none() || e.locked {
                    return false;
                }
                assert(entity_ok(self@, door as int));
                let keys = &e.keys.0;
                let mut j: usize = 0;
                while j < keys.len()
                    invariant
                        j <= keys.len(),
                        well_formed(self@),
                        alive(self@, door as int),
                        keys@ == self@[door as int]->0.keys,
                        forall|i: int|
                            0 <= i < j ==> self@[#[trigger] keys@[i] as int]->0.bundle.key != Some(
                                Key::MustDestroy,
                            ),
                    decreases keys.len() - j,
                {
                    assert(entity_ok(self@, door as int));
                    assert(alive(self@, keys@[j as int] as int));
                    match self.get(keys[j]) {
                        Some(key) => {
                            if matches!(key.bundle.key, Some(Key::MustDestroy)) {
                                return false;
                            }
                        },
                        None => {},
                    }
                    j += 1;
                }
                true
            },
            None => false,
        }
    }

    /// Despawns the entity `id` with all that stands below it. A key that
    /// goes is struck from its door's list, and the door is locked if it had
    /// to keep the key; a key whose door goes forgets the door. Nothing
    /// changes if `id` does not exist.
    pub fn despawn(&mut self, id: EntityId)
        ensures
            final(self)@ == after_removal(old(self)@, set![id as int]),
            well_formed(final(self)@),
    {
        let mut seeds = self.no_seeds();
        if id < seeds.len() {
            seeds.set(id, true);
        }
        proof {
            use_type_invariant(&*self);
            lemma_removal_same_living_seeds(self@, seed_set(seeds@), set![id as int]);
        }
        self.remove(&seeds);
    }

    /// Despawns all that stands below the entity `parent`, and leaves
    /// `parent`.
    pub fn despawn_children(&mut self, parent: EntityId)
        ensures
            final(self)@ == after_removal(old(self)@, children_of(old(self)@, parent)),
            well_formed(final(self)@),
    {
        let mut seeds: Vec<bool> = Vec::new();
        let mut i: usize = 0;
        while i < self.slots.len()
            invariant
                i <= self.slots.len(),
                seeds.len() == i,
                forall|j: int| 0 <= j < i ==> seeds[j] == children_of(self@, parent).contains(j),
            decreases self.slots.len() - i,
        {
            let seed = match &self.slots[i] {
                Some(e) => match e.child_of {
                    Some(p) => p == parent,
                    None => false,
                },
                None => false,
            };
            seeds.push(seed);
            i += 1;
        }
        assert(seed_set(seeds@) =~= children_of(self@, parent));
        self.remove(&seeds);
    }

    /// Despawns every selected weapon with all that stands below it.
    fn despawn_selected_weapons(&mut self)
        ensures
            final(self)@ == after_removal(old(self)@, selected_weapons(old(self)@)),
            well_formed(final(self)@),
    {
        let mut seeds: Vec<bool> = Vec::new();
        let mut i: usize = 0;
        while i < self.slots.len()
            invariant
                i <= self.slots.len(),
                seeds.len() == i,
                forall|j: int| 0 <= j < i ==> seeds[j] == selected_weapons(self@).contains(j),
            decreases self.slots.len() - i,
        {
            let seed = match &self.slots[i] {
                Some(e) => e.bundle.selected_weapon,
                None => false,
            };
            seeds.push(seed);
            i += 1;
        }
        assert(seed_set(seeds@) =~= selected_weapons(self@));
        self.remove(&seeds);
    }

    /// Gives the player `player` the weapon `weapon`: despawns what stands
    /// below the player and spawns the weapon below it. Returns the handle
    /// of the weapon; nothing changes if `player` does not exist.
    pub fn select_weapon(&mut self, player: EntityId, weapon: Weapon) -> (id: Option<EntityId>)
        ensures
            final(self)@ == armed(old(self)@, player, weapon),
            well_formed(final(self)@),
            id == if alive(old(self)@, player as int) {
                Some(old(self)@.len() as usize)
            } else {
                None
            },
    {
        proof {
            use_type_invariant(&*self);
        }
        if !self.contains(player) {
            return None;
        }
        let ghost before = self@;
        assert(!condemned(before, children_of(before, player), player as int)) by {
            assert(entity_ok(before, player as int));
            if let Some(p) = before[player as int]->0.child_of {
                lemma_child_is_no_ancestor(before, player, p as int);
            }
        }
        self.despawn_children(player);
        self.spawn_child(player, Bundle::weapon(weapon))
    }

    /// Lets `player` pick up the weapon `pickup` that lies in the level:
    /// despawns the weapons that were selected and the one that lay there,
    /// and spawns the weapon below the player as the selected one. Returns
    /// the handle of the weapon; nothing changes if `player` or `pickup`
    /// does not exist or `pickup` is no weapon.
    pub fn pick_up(&mut self, player: EntityId, pickup: EntityId) -> (id: Option<EntityId>)
        ensures
            final(self)@ == picked_up(old(self)@, player, pickup),
            well_formed(final(self)@),
            id == if can_pick_up(old(self)@, player, pickup) && alive(
                disarmed(old(self)@, pickup),
                player as int,
            ) {
                Some(old(self)@.len() as usize)
            } else {
                None
            },
    {
        proof {
            use_type_invariant(&*self);
        }
        let weapon = match self.get(pickup) {
            Some(e) => e.bundle.weapon,
            None => None,
        };
        match weapon {
            Some(weapon) => {
                if !self.contains(player) {
                    return None;
                }
                self.despawn_selected_weapons();
                self.despawn(pickup);
                let mut taken = Bundle::weapon(weapon);
                taken.selected_weapon = true;
                self.spawn_child(player, taken)
            },
            None => None,
        }
    }

    /// Spawns a copy of the entity `id` at `transform`, below the parent of
    /// `id` if it has one, and returns its handle. The copy has the bundle
    /// of `id`; it owns no keys and belongs to no door. Nothing is spawned
    /// if `id` does not exist.
    pub fn clone_and_spawn(&mut self, id: EntityId, transform: Transform) -> (copy: Option<
        EntityId,
    >)
        ensures
            final(self)@ == duplicated(old(self)@, id as int, transform),
            well_formed(final(self)@),
            copy == if alive(old(self)@, id as int) {
                Some(old(self)@.len() as usize)
            } else {
                None
            },
    {
        proof {
            use_type_invariant(&*self);
        }
        let (bundle, parent) = match self.get(id) {
            Some(e) => {
                assert(entity_ok(self@, id as int));
                (e.bundle.clone().with_transform(transform), e.child_of)
            },
            None => {
                return None;
            },
        };
        Some(self.insert(bundle, parent, None, None))
    }

    /// Despawns every root of the level with all that stands below it: each
    /// entity without a parent that is saved with the level or is the
    /// placeholder of a load.
    pub fn despawn_level(&mut self)
        ensures
            final(self)@ == after_removal(old(self)@, level_roots(old(self)@)),
            well_formed(final(self)@),
    {
        let mut seeds: Vec<bool> = Vec::new();
        let mut i: usize = 0;
        while i < self.slots.len()
            invariant
                i <= self.slots.len(),
                seeds.len() == i,
                forall|j: int| 0 <= j < i ==> seeds[j] == level_root(self@, j),
            decreases self.slots.len() - i,
        {
            let seed = match &self.slots[i] {
                Some(e) => e.child_of.is_none() && (e.bundle.serialize || e.scene_root.is_some()),
                None => false,
            };
            seeds.push(seed);
            i += 1;
        }
        assert(seed_set(seeds@) =~= level_roots(self@));
        self.remove(&seeds);
    }

    /// Spawns the placeholder of a load under the name `name` and returns its
    /// handle.
    pub fn spawn_scene_root(&mut self, name: String) -> (id: EntityId)
        ensures
            id == old(self)@.len(),
            final(self)@ == spawned(
                old(self)@,
                BundleView::holder(name@),
                None,
                None,
                Some(SceneRoot::Pending),
            ),
            well_formed(final(self)@),
    {
        self.insert(Bundle::empty().with_name(name), None, None, Some(SceneRoot::Pending))
    }

    /// Locks the entity `id`, if `locked` says so.
    pub(crate) fn lock(&mut self, id: EntityId, locked: bool)
        ensures
            final(self)@ == with_lock(old(self)@, id as int, locked),
            well_formed(final(self)@),
    {
        proof {
            use_type_invariant(&*self);
            lemma_with_lock_well_formed(self@, id as int, locked);
        }
        if !locked || !self.contains(id) {
            return ;
        }
        let ghost before = self@;
        let mut slots = Vec::new();
        std::mem::swap(&mut slots, &mut self.slots);
        match &mut slots[id] {
            Some(e) => {
                e.locked = true;
            },
            None => {},
        }
        assert(slots_view(slots@) =~= with_lock(before, id as int, locked));
        self.slots = slots;
    }

    /// Marks the placeholder `holder` as finished.
    pub(crate) fn finish_scene_root(&mut self, holder: EntityId)
        requires
            alive(old(self)@, holder as int),
        ensures
            final(self)@ == finished(old(self)@, holder as int),
            well_formed(final(self)@),
    {
        proof {
            use_type_invariant(&*self);
            lemma_finished_well_formed(self@, holder as int);
        }
        let ghost before = self@;
        let mut slots = Vec::new();
        std::mem::swap(&mut slots, &mut self.slots);
        match &mut slots[holder] {
            Some(e) => {
                e.scene_root = Some(SceneRoot::Instanced);
            },
            None => {},
        }
        assert(slots_view(slots@) =~= finished(before, holder as int));
        self.slots = slots;
    }

    /// Clears away the placeholders whose entities have arrived: their
    /// children move to the top of the graph and the placeholders are
    /// despawned.
    pub fn remove_dynamic_scene_root(&mut self)
        ensures
            final(self)@ == cleaned(old(self)@),
            well_formed(final(self)@),
    {
        proof {
            use_type_invariant(&*self);
            lemma_released_well_formed(self@);
        }
        let ghost w = self@;
        let mut slots = Vec::new();
        std::mem::swap(&mut slots, &mut self.slots);
        let n = slots.len();
        let mut seeds: Vec<bool> = Vec::new();
        let mut i: usize = 0;
        while i < n
            invariant
                i <= n,
                slots.len() == n,
                seeds.len() == i,
                w.len() == n,
                well_formed(w),
                forall|j: int| 0 <= j < i ==> seeds[j] == finished_root(w, j),
                forall|j: int| 0 <= j < i ==> slot_view(#[trigger] slots[j]) == released(w)[j],
                forall|j: int| i <= j < n ==> slot_view(#[trigger] slots[j]) == w[j],
            decreases n - i,
        {
            let mut seed = false;
            let mut release = false;
            match &slots[i] {
                Some(e) => {
                    assert(slot_view(slots[i as int]) == w[i as int]);
                    assert(alive(w, i as int) && entity_ok(w, i as int));
                    seed = matches!(e.scene_root, Some(SceneRoot::Instanced));
                    if let Some(p) = e.child_of {
                        assert(slot_view(slots[p as int]) == released(w)[p as int]);
                        release = match &slots[p] {
                            Some(parent) => matches!(parent.scene_root, Some(SceneRoot::Instanced)),
                            None => false,
                        };
                    }
                },
                None => {},
            }
            if release {
                match &mut slots[i] {
                    Some(e) => {
                        e.child_of = None;
                    },
                    None => {},
                }
            }
            seeds.push(seed);
            i += 1;
        }
        assert(slots_view(slots@) =~= released(w));
        assert(seed_set(seeds@) =~= finished_roots(w));
        self.slots = slots;
        self.remove(&seeds);
    }

    /// Spawns a fresh level: a player left of the middle, and a root of the
    /// level's geometry with a kill box and the four boundary walls below
    /// it.
    pub fn new_level(&mut self)
        ensures
            final(self)@ == bootstrapped(old(self)@),
            well_formed(final(self)@),
    {
        proof {
            reveal_strlit("Player");
            reveal_strlit("Level Geometry");
            reveal_strlit("Bottom Wall");
            reveal_strlit("Left Wall");
            reveal_strlit("Right Wall");
            reveal_strlit("Top Wall");
        }
        self.insert(
            Bundle::player().with_name("Player".to_owned()).with_transform(
                Transform::from_xy(PLAYER_X, 0),
            ),
            None,
            None,
            None,
        );
        let root = self.insert(
            Bundle::level_geometry().with_name("Level Geometry".to_owned()),
            None,
            None,
            None,
        );
        self.insert(
            Bundle::kill_box().with_transform(Transform::from_xy(0, KILL_BOX_Y)).with_collider(
                rectangle(WIDTH / 10, 25),
            ),
            Some(root),
            None,
            None,
        );
        self.insert(
            Bundle::wall().with_name("Bottom Wall".to_owned()).with_transform(
                Transform::from_xy(0, BOTTOM),
            ).with_collider(rectangle(WIDTH, 25)),
            Some(root),
            None,
            None,
        );
        self.insert(
            Bundle::wall().with_name("Left Wall".to_owned()).with_transform(
                Transform::from_xy(LEFT, 0),
            ).with_collider(rectangle(25, HEIGHT)),
            Some(root),
            None,
            None,
        );
        self.insert(
            Bundle::wall().with_name("Right Wall".to_owned()).with_transform(
                Transform::from_xy(RIGHT, 0),
            ).with_collider(rectangle(25, HEIGHT)),
            Some(root),
            None,
            None,
        );
        self.insert(
            Bundle::wall().with_name("Top Wall".to_owned()).with_transform(
                Transform::from_xy(0, TOP),
            ).with_collider(rectangle(WIDTH, 25)),
            Some(root),
            None,
            None,
        );
    }
}

/// An entity is not condemned by the despawn of its own children: what is
/// condemned by that stands below one of them, and so is younger than the
/// entity.
proof fn lemma_child_is_no_ancestor(w: WorldView, parent: EntityId, i: int)
    requires
        well_formed(w),
        i <= parent,
    ensures
        !condemned(w, children_of(w, parent), i),
    decreases i,
{
    if alive(w, i) {
        assert(entity_ok(w, i));
        if let Some(p) = w[i]->0.child_of {
            if p < i {
                lemma_child_is_no_ancestor(w, parent, p as int);
            }
        }
    }
}

/// Seeds that agree on the living entities despawn the same.
proof fn lemma_removal_same_living_seeds(w: WorldView, a: Set<int>, b: Set<int>)
    requires
        forall|i: int| alive(w, i) ==> (a.contains(i) <==> b.contains(i)),
    ensures
        after_removal(w, a) == after_removal(w, b),
{
    assert forall|i: int| condemned(w, a, i) == condemned(w, b, i) by {
        lemma_condemned_same_living_seeds(w, a, b, i);
    }
    assert(spared(w, a) =~= spared(w, b));
    assert forall|keys: Seq<EntityId>| #[trigger]
        loses_kept_key(w, a, keys) == loses_kept_key(w, b, keys) by {
        if loses_kept_key(w, a, keys) {
            let j = choose|j: int|
                0 <= j < keys.len() && condemned(w, a, #[trigger] keys[j] as int) && w[keys[j] as int]->0.bundle.key
                    == Some(Key::MustKeep);
            assert(condemned(w, b, keys[j] as int));
        }
        if loses_kept_key(w, b, keys) {
            let j = choose|j: int|
                0 <= j < keys.len() && condemned(w, b, #[trigger] keys[j] as int) && w[keys[j] as int]->0.bundle.key
                    == Some(Key::MustKeep);
            assert(condemned(w, a, keys[j] as int));
        }
    }
    assert(after_removal(w, a) =~= after_removal(w, b));
}

/// Seeds that agree on the living entities condemn the same.
proof fn lemma_condemned_same_living_seeds(w: WorldView, a: Set<int>, b: Set<int>, i: int)
    requires
        forall|i: int| alive(w, i) ==> (a.contains(i) <==> b.contains(i)),
    ensures
        condemned(w, a, i) == condemned(w, b, i),
    decreases i,
{
    if alive(w, i) && !a.contains(i) {
        if let Some(p) = w[i]->0.child_of {
            if p < i {
                lemma_condemned_same_living_seeds(w, a, b, p as int);
            }
        }
    }
}

} // verus!
