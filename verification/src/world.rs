//! A world of entities whose components are kept per stage.
//!
//! Every component of an entity carries the stage that added it. A reader at
//! some stage sees exactly the components added at that stage or before it;
//! a writer at some stage may add components, and may change or remove only
//! those that its own stage added.

use vstd::prelude::*;

use crate::component::ComponentId;
use crate::stage::{Stage, StageComponentId};

verus! {

/// A handle for one entity of a [`World`].
#[derive(Copy, Clone, Debug, Hash, PartialEq, Eq, Structural, PartialOrd, Ord)]
pub struct Entity(u32);

impl View for Entity {
    type V = u32;

    /// The index of the entity in its world.
    closed spec fn view(&self) -> u32 {
        self.0
    }
}

impl Entity {
    /// Returns the index of this entity in its world.
    pub fn index(self) -> (index: u32)
        ensures
            index == self@,
    {
        self.0
    }
}

/// Why a [`World`] refused an operation.
#[derive(Copy, Clone, Debug, PartialEq, Eq, Structural)]
pub enum StageError {
    /// The entity was never spawned in this world.
    NoSuchEntity,
    /// The entity has no such component.
    MissingComponent,
    /// The component was added at an earlier stage, and is immutable now.
    AddedAtEarlierStage,
    /// The component is added at a later stage, and is not visible yet.
    AddedAtLaterStage,
    /// Components already live at the stage that was to receive others.
    TargetStageNotEmpty,
}

/// What the world keeps of one component of one entity.
#[derive(Copy, Clone, Debug, PartialEq, Eq, Structural)]
struct Slot {
    entity: Entity,
    id: StageComponentId,
    value: i32,
}

/// The components of a world: for each entity and component type that it
/// has, the stage that added the component and the component's value.
pub type Table = Map<(Entity, ComponentId), (Stage, i32)>;

spec fn key_of(slot: Slot) -> (Entity, ComponentId) {
    (slot.entity, slot.id.component_id)
}

spec fn entry_of(slot: Slot) -> (Stage, i32) {
    (slot.id.stage, slot.value)
}

spec fn has_key(slots: Seq<Slot>, k: (Entity, ComponentId)) -> bool {
    exists|i: int| 0 <= i < slots.len() && key_of(#[trigger] slots[i]) == k
}

spec fn keys_unique(slots: Seq<Slot>) -> bool {
    forall|i: int, j: int|
        0 <= i < slots.len() && 0 <= j < slots.len() && i != j ==> key_of(#[trigger] slots[i])
            != key_of(#[trigger] slots[j])
}

spec fn table_of(slots: Seq<Slot>) -> Table {
    Map::new(
        |k: (Entity, ComponentId)| has_key(slots, k),
        |k: (Entity, ComponentId)|
            entry_of(slots[choose|i: int| 0 <= i < slots.len() && key_of(#[trigger] slots[i]) == k]),
    )
}

/// Each slot stands in the table under its key, with its stage and value.
proof fn lemma_table_at(slots: Seq<Slot>, i: int)
    requires
        keys_unique(slots),
        0 <= i < slots.len(),
    ensures
        table_of(slots).contains_key(key_of(slots[i])),
        table_of(slots)[key_of(slots[i])] == entry_of(slots[i]),
{
    let k = key_of(slots[i]);
    assert(has_key(slots, k));
    let j = choose|j: int| 0 <= j < slots.len() && key_of(#[trigger] slots[j]) == k;
    assert(key_of(slots[j]) == k);
}

/// Writing a slot whose key is new, or replacing the slot of the same key,
/// sets that key in the table and keeps every other.
proof fn lemma_table_put(old: Seq<Slot>, new: Seq<Slot>, i: int, slot: Slot)
    requires
        keys_unique(old),
        0 <= i <= old.len(),
        i < old.len() ==> key_of(old[i]) == key_of(slot) && new == old.update(i, slot),
        i == old.len() ==> !has_key(old, key_of(slot)) && new == old.push(slot),
    ensures
        keys_unique(new),
        table_of(new) == table_of(old).insert(key_of(slot), entry_of(slot)),
{
    let k = key_of(slot);
    assert forall|a: int, b: int|
        0 <= a < new.len() && 0 <= b < new.len() && a != b implies key_of(#[trigger] new[a])
        != key_of(#[trigger] new[b]) by {
        if a == i {
            if b < old.len() {
                assert(key_of(old[b]) != k) by {
                    if i == old.len() {
                        if key_of(old[b]) == k {
                            assert(has_key(old, k));
                        }
                    }
                }
            }
        } else if b == i {
            if a < old.len() {
                assert(key_of(old[a]) != k) by {
                    if i == old.len() {
                        if key_of(old[a]) == k {
                            assert(has_key(old, k));
                        }
                    }
                }
            }
        }
    }
    let t_old = table_of(old);
    let t_new = table_of(new);
    let expected = t_old.insert(k, entry_of(slot));
    assert forall|q: (Entity, ComponentId)| #[trigger] t_new.contains_key(q) <==> expected.contains_key(q) by {
        if q == k {
            assert(new[i] == slot);
            assert(has_key(new, q));
        } else {
            if has_key(new, q) {
                let a = choose|a: int| 0 <= a < new.len() && key_of(#[trigger] new[a]) == q;
                assert(a != i);
                assert(old[a] == new[a]);
                assert(has_key(old, q));
            }
            if has_key(old, q) {
                let a = choose|a: int| 0 <= a < old.len() && key_of(#[trigger] old[a]) == q;
                assert(a != i);
                assert(old[a] == new[a]);
                assert(has_key(new, q));
            }
        }
    }
    assert forall|q: (Entity, ComponentId)| #[trigger] t_new.contains_key(q) implies t_new[q]
        == expected[q] by {
        if q == k {
            assert(new[i] == slot);
            lemma_table_at(new, i);
        } else {
            let a = choose|a: int| 0 <= a < new.len() && key_of(#[trigger] new[a]) == q;
            assert(a != i);
            assert(old[a] == new[a]);
            lemma_table_at(new, a);
            lemma_table_at(old, a);
        }
    }
    assert(t_new =~= expected);
}

/// Dropping the slot at `i` drops its key from the table and keeps every other.
proof fn lemma_table_remove(old: Seq<Slot>, i: int)
    requires
        keys_unique(old),
        0 <= i < old.len(),
    ensures
        keys_unique(old.remove(i)),
        table_of(old.remove(i)) == table_of(old).remove(key_of(old[i])),
{
    let new = old.remove(i);
    let k = key_of(old[i]);
    assert forall|a: int, b: int|
        0 <= a < new.len() && 0 <= b < new.len() && a != b implies key_of(#[trigger] new[a])
        != key_of(#[trigger] new[b]) by {
        let oa = if a < i { a } else { a + 1 };
        let ob = if b < i { b } else { b + 1 };
        assert(new[a] == old[oa]);
        assert(new[b] == old[ob]);
    }
    let t_old = table_of(old);
    let t_new = table_of(new);
    let expected = t_old.remove(k);
    assert forall|q: (Entity, ComponentId)| #[trigger] t_new.contains_key(q) <==> expected.contains_key(q) by {
        if has_key(new, q) {
            let a = choose|a: int| 0 <= a < new.len() && key_of(#[trigger] new[a]) == q;
            let oa = if a < i { a } else { a + 1 };
            assert(new[a] == old[oa]);
            assert(has_key(old, q));
            assert(oa != i);
        }
        if has_key(old, q) && q != k {
            let a = choose|a: int| 0 <= a < old.len() && key_of(#[trigger] old[a]) == q;
            assert(a != i);
            let na = if a < i { a } else { a - 1 };
            assert(new[na] == old[a]);
            assert(has_key(new, q));
        }
    }
    assert forall|q: (Entity, ComponentId)| #[trigger] t_new.contains_key(q) implies t_new[q]
        == expected[q] by {
        let a = choose|a: int| 0 <= a < new.len() && key_of(#[trigger] new[a]) == q;
        let oa = if a < i { a } else { a + 1 };
        assert(new[a] == old[oa]);
        lemma_table_at(new, a);
        lemma_table_at(old, oa);
    }
    assert(t_new =~= expected);
}

/// A world of entities and their staged components.
pub struct World {
    stage: Stage,
    entities: u32,
    slots: Vec<Slot>,
    removed: Vec<(Entity, StageComponentId)>,
}

impl World {
    /// The stage at which this world reads and writes now.
    pub closed spec fn current(&self) -> Stage {
        self.stage
    }

    /// How many entities were spawned in this world.
    pub closed spec fn entity_count(&self) -> nat {
        self.entities as nat
    }

    /// The components of this world, each with the stage that added it.
    pub closed spec fn table(&self) -> Table {
        table_of(self.slots@)
    }

    /// Every removal so far: the entity, and the component with the stage
    /// at which it was removed.
    pub closed spec fn removals(&self) -> Seq<(Entity, StageComponentId)> {
        self.removed@
    }

    /// The world's internal invariant: one slot per entity and component
    /// type, and only for spawned entities.
    pub closed spec fn wf(&self) -> bool {
        &&& keys_unique(self.slots@)
        &&& forall|i: int|
            0 <= i < self.slots@.len() ==> (#[trigger] self.slots@[i]).entity@ < self.entities
    }

    /// Whether `entity` has a component of type `component` that a reader at
    /// stage `at` sees: one added at `at` or before.
    pub open spec fn visible(&self, entity: Entity, component: ComponentId, at: Stage) -> bool {
        &&& self.table().contains_key((entity, component))
        &&& self.table()[(entity, component)].0@ <= at@
    }

    /// The value that a reader at stage `at` sees of the given component.
    pub open spec fn visible_value(&self, entity: Entity, component: ComponentId, at: Stage) -> Option<
        i32,
    > {
        if self.visible(entity, component, at) {
            Some(self.table()[(entity, component)].1)
        } else {
            None
        }
    }

    /// Whether `entity` has everything in `with` and nothing in `without`,
    /// as the current stage sees it.
    pub open spec fn matches(
        &self,
        entity: Entity,
        with: Seq<ComponentId>,
        without: Seq<ComponentId>,
    ) -> bool {
        &&& forall|j: int| 0 <= j < with.len() ==> self.visible(entity, #[trigger] with[j], self.current())
        &&& forall|j: int|
            0 <= j < without.len() ==> !self.visible(entity, #[trigger] without[j], self.current())
    }

    /// The removals of `component` that a reader at stage `at` sees: those made
    /// at `at` or before.
    pub open spec fn removals_seen(&self, component: ComponentId, at: Stage) -> Seq<
        (Entity, StageComponentId),
    > {
        self.removals().filter(Self::removal_seen_by(component, at))
    }

    /// What inserting the given component at stage `at` answers: refused
    /// for an entity that was never spawned, and for a component that an
    /// earlier stage added; accepted otherwise, also over a component that a
    /// later stage added, which it replaces.
    pub open spec fn insert_outcome(&self, at: Stage, entity: Entity, component: ComponentId) -> Result<
        (),
        StageError,
    > {
        if entity@ >= self.entity_count() {
            Err(StageError::NoSuchEntity)
        } else if self.table().contains_key((entity, component)) && self.table()[(
        entity,
        component,
        )].0@ < at@ {
            Err(StageError::AddedAtEarlierStage)
        } else {
            Ok(())
        }
    }

    /// What removing the given component at the current stage answers: the
    /// removed value when the current stage added it; nothing when the entity
    /// has no such component that the current stage sees; refused for an
    /// entity that was never spawned and for a component that an earlier
    /// stage added.
    pub open spec fn remove_outcome(&self, entity: Entity, component: ComponentId) -> Result<
        Option<i32>,
        StageError,
    > {
        let key = (entity, component);
        if entity@ >= self.entity_count() {
            Err(StageError::NoSuchEntity)
        } else if !self.table().contains_key(key) {
            Ok(None)
        } else if self.table()[key].0@ < self.current()@ {
            Err(StageError::AddedAtEarlierStage)
        } else if self.table()[key].0@ > self.current()@ {
            Ok(None)
        } else {
            Ok(Some(self.table()[key].1))
        }
    }

    /// What changing the value of the given component at the current stage
    /// answers: accepted only for a component that the current stage added.
    pub open spec fn set_value_outcome(&self, entity: Entity, component: ComponentId) -> Result<
        (),
        StageError,
    > {
        let key = (entity, component);
        if entity@ >= self.entity_count() {
            Err(StageError::NoSuchEntity)
        } else if !self.table().contains_key(key) {
            Err(StageError::MissingComponent)
        } else if self.table()[key].0@ < self.current()@ {
            Err(StageError::AddedAtEarlierStage)
        } else if self.table()[key].0@ > self.current()@ {
            Err(StageError::AddedAtLaterStage)
        } else {
            Ok(())
        }
    }

    /// Whether a recorded removal is of `component`, made at stage `at` or before.
    pub open spec fn removal_seen_by(component: ComponentId, at: Stage) -> spec_fn(
        (Entity, StageComponentId),
    ) -> bool {
        |r: (Entity, StageComponentId)| r.1.component_id == component && r.1.stage@ <= at@
    }

    /// The component types that `entity` has, whichever stage added them.
    pub open spec fn components_of(&self, entity: Entity) -> Set<ComponentId> {
        Set::new(|c: ComponentId| self.table().contains_key((entity, c)))
    }

    /// What moving every component of stage `from` to stage `to` answers:
    /// refused when `to` is another stage that already holds components.
    pub open spec fn rewrite_outcome(&self, from: Stage, to: Stage) -> Result<(), StageError> {
        if from != to && exists|k: (Entity, ComponentId)|
            #[trigger] self.table().contains_key(k) && self.table()[k].0 == to {
            Err(StageError::TargetStageNotEmpty)
        } else {
            Ok(())
        }
    }

    /// The table after every component of stage `from` moved to stage `to`.
    pub open spec fn rewritten(table: Table, from: Stage, to: Stage) -> Table {
        table.map_values(
            |entry: (Stage, i32)|
                if entry.0 == from {
                    (to, entry.1)
                } else {
                    entry
                },
        )
    }

    /// Creates an empty world at stage zero.
    pub fn new() -> (world: World)
        ensures
            world.wf(),
            world.current()@ == 0,
            world.entity_count() == 0,
            world.table() == Table::empty(),
            world.removals() == Seq::<(Entity, StageComponentId)>::empty(),
    {
        let world = World {
            stage: Stage::new(0),
            entities: 0,
            slots: Vec::new(),
            removed: Vec::new(),
        };
        assert(world.table() =~= Table::empty());
        world
    }

    /// The stage at which this world reads and writes now.
    pub fn stage(&self) -> (stage: Stage)
        ensures
            stage == self.current(),
    {
        self.stage
    }

    /// Moves this world to the given stage; its contents stay as they are.
    pub fn set_stage(&mut self, stage: Stage)
        requires
            old(self).wf(),
        ensures
            final(self).wf(),
            final(self).current() == stage,
            final(self).entity_count() == old(self).entity_count(),
            final(self).table() == old(self).table(),
            final(self).removals() == old(self).removals(),
    {
        self.stage = stage;
    }

    /// Spawns an entity without components.
    pub fn spawn_empty(&mut self) -> (entity: Entity)
        requires
            old(self).wf(),
            old(self).entity_count() < u32::MAX,
        ensures
            final(self).wf(),
            entity@ == old(self).entity_count(),
            final(self).entity_count() == old(self).entity_count() + 1,
            final(self).current() == old(self).current(),
            final(self).table() == old(self).table(),
            final(self).removals() == old(self).removals(),
            forall|c: ComponentId| !final(self).table().contains_key((entity, c)),
    {
        let entity = Entity(self.entities);
        proof {
            assert forall|c: ComponentId| !self.table().contains_key((entity, c)) by {
                if has_key(self.slots@, (entity, c)) {
                    let i = choose|i: int|
                        0 <= i < self.slots@.len() && key_of(#[trigger] self.slots@[i]) == (
                        entity,
                        c,
                    );
                    assert(self.slots@[i].entity@ < self.entities);
                }
            }
        }
        self.entities = self.entities + 1;
        entity
    }

    /// The position of the slot of the given entity and component type.
    fn find(&self, entity: Entity, component: ComponentId) -> (found: Option<usize>)
        requires
            self.wf(),
        ensures
            found is None ==> !self.table().contains_key((entity, component)),
            found matches Some(i) ==> {
                &&& i < self.slots@.len()
                &&& key_of(self.slots@[i as int]) == (entity, component)
                &&& self.table().contains_key((entity, component))
                &&& self.table()[(entity, component)] == entry_of(self.slots@[i as int])
            },
    {
        let n = self.slots.len();
        let mut i: usize = 0;
        while i < n
            invariant
                self.wf(),
                n == self.slots@.len(),
                i <= n,
                forall|j: int| 0 <= j < i ==> key_of(#[trigger] self.slots@[j]) != (entity, component),
            decreases n - i,
        {
            let slot = self.slots[i];
            if slot.entity == entity && slot.id.component_id == component {
                proof {
                    lemma_table_at(self.slots@, i as int);
                }
                return Some(i);
            }
            i = i + 1;
        }
        None
    }

    /// The value of the given component, as the current stage sees it.
    pub fn get(&self, entity: Entity, component: ComponentId) -> (value: Option<i32>)
        requires
            self.wf(),
        ensures
            value == self.visible_value(entity, component, self.current()),
    {
        match self.find(entity, component) {
            Some(i) => {
                let slot = self.slots[i];
                if slot.id.stage.get() <= self.stage.get() {
                    Some(slot.value)
                } else {
                    None
                }
            },
            None => None,
        }
    }
    /// Adds (or replaces) a component of `entity` as stage `at` does, whatever
    /// the current stage is.
    pub fn insert_at(&mut self, at: Stage, entity: Entity, component: ComponentId, value: i32) -> (result: Result<(), StageError>)
        requires
            old(self).wf(),
        ensures
            final(self).wf(),
            result == old(self).insert_outcome(at, entity, component),
            result is Ok ==> final(self).table() == old(self).table().insert(
                (entity, component),
                (at, value),
            ),
            result is Err ==> final(self).table() == old(self).table(),
            final(self).current() == old(self).current(),
            final(self).entity_count() == old(self).entity_count(),
            final(self).removals() == old(self).removals(),
    {
        if entity.0 >= self.entities {
            return Err(StageError::NoSuchEntity);
        }
        let slot = Slot { entity, id: StageComponentId::new(component, at), value };
        let ghost old_slots = self.slots@;
        match self.find(entity, component) {
            Some(i) => {
                if self.slots[i].id.stage.get() < at.get() {
                    return Err(StageError::AddedAtEarlierStage);
                }
                self.slots.set(i, slot);
                proof {
                    lemma_table_put(old_slots, self.slots@, i as int, slot);
                }
            },
            None => {
                proof {
                    if has_key(old_slots, key_of(slot)) {
                        let j = choose|j: int|
                            0 <= j < old_slots.len() && key_of(#[trigger] old_slots[j]) == key_of(
                            slot,
                        );
                        lemma_table_at(old_slots, j);
                    }
                }
                self.slots.push(slot);
                proof {
                    lemma_table_put(old_slots, self.slots@, old_slots.len() as int, slot);
                }
            },
        }
        Ok(())
    }

    /// Adds (or replaces) a component of `entity` at the current stage.
    pub fn insert(&mut self, entity: Entity, component: ComponentId, value: i32) -> (result: Result<(), StageError>)
        requires
            old(self).wf(),
        ensures
            final(self).wf(),
            result == old(self).insert_outcome(old(self).current(), entity, component),
            result is Ok ==> final(self).table() == old(self).table().insert(
                (entity, component),
                (old(self).current(), value),
            ),
            result is Err ==> final(self).table() == old(self).table(),
            final(self).current() == old(self).current(),
            final(self).entity_count() == old(self).entity_count(),
            final(self).removals() == old(self).removals(),
    {
        let at = self.stage;
        self.insert_at(at, entity, component, value)
    }

    /// Removes a component of `entity` at the current stage, and records the
    /// removal at that stage.
    pub fn remove(&mut self, entity: Entity, component: ComponentId) -> (result: Result<Option<i32>, StageError>)
        requires
            old(self).wf(),
        ensures
            final(self).wf(),
            result == old(self).remove_outcome(entity, component),
            result matches Ok(Some(_)) ==> {
                &&& final(self).table() == old(self).table().remove((entity, component))
                &&& final(self).removals() == old(self).removals().push(
                    (entity, (StageComponentId { component_id: component, stage: old(self).current() })),
                )
            },
            !(result matches Ok(Some(_))) ==> {
                &&& final(self).table() == old(self).table()
                &&& final(self).removals() == old(self).removals()
            },
            final(self).current() == old(self).current(),
            final(self).entity_count() == old(self).entity_count(),
    {
        if entity.0 >= self.entities {
            return Err(StageError::NoSuchEntity);
        }
        match self.find(entity, component) {
            Some(i) => {
                let slot = self.slots[i];
                if slot.id.stage.get() < self.stage.get() {
                    Err(StageError::AddedAtEarlierStage)
                } else if slot.id.stage.get() > self.stage.get() {
                    Ok(None)
                } else {
                    let ghost old_slots = self.slots@;
                    self.slots.remove(i);
                    proof {
                        lemma_table_remove(old_slots, i as int);
                    }
                    self.removed.push((entity, StageComponentId::new(component, self.stage)));
                    Ok(Some(slot.value))
                }
            },
            None => Ok(None),
        }
    }

    /// Changes the value of a component that the current stage added.
    pub fn set_value(&mut self, entity: Entity, component: ComponentId, value: i32) -> (result: Result<(), StageError>)
        requires
            old(self).wf(),
        ensures
            final(self).wf(),
            result == old(self).set_value_outcome(entity, component),
            result is Ok ==> final(self).table() == old(self).table().insert(
                (entity, component),
                (old(self).current(), value),
            ),
            result is Err ==> final(self).table() == old(self).table(),
            final(self).current() == old(self).current(),
            final(self).entity_count() == old(self).entity_count(),
            final(self).removals() == old(self).removals(),
    {
        if entity.0 >= self.entities {
            return Err(StageError::NoSuchEntity);
        }
        match self.find(entity, component) {
            Some(i) => {
                let slot = self.slots[i];
                if slot.id.stage.get() < self.stage.get() {
                    Err(StageError::AddedAtEarlierStage)
                } else if slot.id.stage.get() > self.stage.get() {
                    Err(StageError::AddedAtLaterStage)
                } else {
                    let ghost old_slots = self.slots@;
                    let new_slot = Slot { entity, id: StageComponentId::new(component, self.stage), value };
                    self.slots.set(i, new_slot);
                    proof {
                        lemma_table_put(old_slots, self.slots@, i as int, new_slot);
                    }
                    Ok(())
                }
            },
            None => Err(StageError::MissingComponent),
        }
    }
    /// Whether the current stage sees a component of type `component` on `entity`.
    fn sees(&self, entity: Entity, component: ComponentId) -> (seen: bool)
        requires
            self.wf(),
        ensures
            seen == self.visible(entity, component, self.current()),
    {
        self.get(entity, component).is_some()
    }

    /// Whether `entity` has everything in `with` and nothing in `without`,
    /// as the current stage sees it.
    fn matches_filter(&self, entity: Entity, with: &Vec<ComponentId>, without: &Vec<ComponentId>) -> (m: bool)
        requires
            self.wf(),
        ensures
            m == self.matches(entity, with@, without@),
    {
        let mut j: usize = 0;
        while j < with.len()
            invariant
                self.wf(),
                j <= with@.len(),
                forall|k: int| 0 <= k < j ==> self.visible(entity, #[trigger] with@[k], self.current()),
            decreases with@.len() - j,
        {
            if !self.sees(entity, with[j]) {
                return false;
            }
            j = j + 1;
        }
        let mut j: usize = 0;
        while j < without.len()
            invariant
                self.wf(),
                j <= without@.len(),
                forall|k: int| 0 <= k < with@.len() ==> self.visible(entity, #[trigger] with@[k], self.current()),
                forall|k: int| 0 <= k < j ==> !self.visible(entity, #[trigger] without@[k], self.current()),
            decreases without@.len() - j,
        {
            if self.sees(entity, without[j]) {
                return false;
            }
            j = j + 1;
        }
        true
    }

    /// The entities that have every component type in `with` and none in
    /// `without`, as the current stage sees them, in the order of spawning.
    pub fn query(&self, with: &Vec<ComponentId>, without: &Vec<ComponentId>) -> (found: Vec<Entity>)
        requires
            self.wf(),
        ensures
            forall|k: int|
                0 <= k < found@.len() ==> (#[trigger] found@[k])@ < self.entity_count()
                    && self.matches(found@[k], with@, without@),
            forall|k: int, l: int|
                0 <= k < l < found@.len() ==> (#[trigger] found@[k])@ < (#[trigger] found@[l])@,
            forall|e: Entity|
                e@ < self.entity_count() && self.matches(e, with@, without@) ==> #[trigger] found@.contains(e),
    {
        let mut found: Vec<Entity> = Vec::new();
        let mut i: u32 = 0;
        while i < self.entities
            invariant
                self.wf(),
                i <= self.entities,
                forall|k: int|
                    0 <= k < found@.len() ==> (#[trigger] found@[k])@ < i
                        && self.matches(found@[k], with@, without@),
                forall|k: int, l: int|
                    0 <= k < l < found@.len() ==> (#[trigger] found@[k])@ < (#[trigger] found@[l])@,
                forall|e: Entity|
                    e@ < i && self.matches(e, with@, without@) ==> #[trigger] found@.contains(e),
            decreases self.entities - i,
        {
            let entity = Entity(i);
            if self.matches_filter(entity, with, without) {
                let ghost before = found@;
                found.push(entity);
                proof {
                    assert(found@[before.len() as int] == entity);
                    assert forall|e: Entity|
                        e@ < i + 1 && self.matches(e, with@, without@) implies #[trigger] found@.contains(e) by {
                        if e@ == i {
                            assert(e == entity);
                            assert(found@[before.len() as int] == e);
                        } else {
                            assert(before.contains(e));
                            let k = choose|k: int| 0 <= k < before.len() && before[k] == e;
                            assert(found@[k] == e);
                        }
                    }
                }
            } else {
                proof {
                    assert forall|e: Entity|
                        e@ < i + 1 && self.matches(e, with@, without@) implies #[trigger] found@.contains(e) by {
                        if e@ == i {
                            assert(e == entity);
                        }
                    }
                }
            }
            i = i + 1;
        }
        found
    }

    /// How many removals of `component` the current stage sees: those made at
    /// the current stage or before it.
    pub fn removed_count(&self, component: ComponentId) -> (count: usize)
        requires
            self.wf(),
        ensures
            count == self.removals_seen(component, self.current()).len(),
    {
        let ghost seen = Self::removal_seen_by(component, self.stage);
        let n = self.removed.len();
        let mut count: usize = 0;
        let mut i: usize = 0;
        while i < n
            invariant
                n == self.removed@.len(),
                i <= n,
                seen == Self::removal_seen_by(component, self.stage),
                count == self.removed@.take(i as int).filter(seen).len(),
                count <= i,
            decreases n - i,
        {
            let r = self.removed[i];
            proof {
                assert(self.removed@.take(i + 1) =~= self.removed@.take(i as int).push(r));
                self.removed@.take(i as int).lemma_filter_push(r, seen);
            }
            if r.1.component_id == component && r.1.stage.get() <= self.stage.get() {
                count = count + 1;
            }
            i = i + 1;
        }
        proof {
            assert(self.removed@.take(n as int) =~= self.removed@);
        }
        count
    }

    /// How many component types `entity` has, whichever stage added them.
    pub fn component_count(&self, entity: Entity) -> (count: usize)
        requires
            self.wf(),
        ensures
            self.components_of(entity).finite(),
            count == self.components_of(entity).len(),
    {
        let n = self.slots.len();
        let mut count: usize = 0;
        let mut i: usize = 0;
        let ghost mut acc: Set<ComponentId> = Set::empty();
        while i < n
            invariant
                self.wf(),
                n == self.slots@.len(),
                i <= n,
                acc.finite(),
                count == acc.len(),
                count <= i,
                forall|c: ComponentId|
                    #[trigger] acc.contains(c) <==> exists|j: int|
                        0 <= j < i && key_of(#[trigger] self.slots@[j]) == (entity, c),
            decreases n - i,
        {
            let slot = self.slots[i];
            if slot.entity == entity {
                let ghost c = slot.id.component_id;
                proof {
                    if acc.contains(c) {
                        let j = choose|j: int| 0 <= j < i && key_of(#[trigger] self.slots@[j]) == (entity, c);
                        assert(key_of(self.slots@[i as int]) == (entity, c));
                    }
                    let next = acc.insert(c);
                    assert forall|d: ComponentId|
                        #[trigger] next.contains(d) <==> exists|j: int|
                            0 <= j < i + 1 && key_of(#[trigger] self.slots@[j]) == (entity, d) by {
                        if d == c {
                            assert(key_of(self.slots@[i as int]) == (entity, d));
                        }
                    }
                    acc = next;
                }
                count = count + 1;
            } else {
                proof {
                    assert forall|d: ComponentId|
                        #[trigger] acc.contains(d) <==> exists|j: int|
                            0 <= j < i + 1 && key_of(#[trigger] self.slots@[j]) == (entity, d) by {
                        if exists|j: int| 0 <= j < i + 1 && key_of(#[trigger] self.slots@[j]) == (entity, d) {
                            let j = choose|j: int| 0 <= j < i + 1 && key_of(#[trigger] self.slots@[j]) == (entity, d);
                            assert(j != i);
                        }
                    }
                }
            }
            i = i + 1;
        }
        proof {
            assert(acc =~= self.components_of(entity));
        }
        count
    }

    /// Moves every component of stage `from` to stage `to`, provided that
    /// `to` is empty; the new stage must be empty, otherwise the two could
    /// not be merged safely.
    pub fn rewrite_all_stage(&mut self, from: Stage, to: Stage) -> (result: Result<(), StageError>)
        requires
            old(self).wf(),
        ensures
            final(self).wf(),
            result == old(self).rewrite_outcome(from, to),
            result is Ok ==> final(self).table() == Self::rewritten(old(self).table(), from, to),
            result is Err ==> final(self).table() == old(self).table(),
            final(self).current() == old(self).current(),
            final(self).entity_count() == old(self).entity_count(),
            final(self).removals() == old(self).removals(),
    {
        let n = self.slots.len();
        if from != to {
            let mut i: usize = 0;
            while i < n
                invariant
                    self.wf(),
                    n == self.slots@.len(),
                    i <= n,
                    from != to,
                    self.slots@ == old(self).slots@,
                    forall|j: int| 0 <= j < i ==> (#[trigger] self.slots@[j]).id.stage != to,
                decreases n - i,
            {
                if self.slots[i].id.stage == to {
                    proof {
                        lemma_table_at(self.slots@, i as int);
                        let k = key_of(self.slots@[i as int]);
                        assert(self.table().contains_key(k) && self.table()[k].0 == to);
                    }
                    return Err(StageError::TargetStageNotEmpty);
                }
                i = i + 1;
            }
            proof {
                assert forall|k: (Entity, ComponentId)|
                    #[trigger] self.table().contains_key(k) implies self.table()[k].0 != to by {
                    let j = choose|j: int| 0 <= j < self.slots@.len() && key_of(#[trigger] self.slots@[j]) == k;
                    lemma_table_at(self.slots@, j);
                }
            }
        }
        let ghost old_slots = self.slots@;
        let ghost stage0 = self.stage;
        let ghost entities0 = self.entities;
        let ghost removed0 = self.removed@;
        let mut i: usize = 0;
        while i < n
            invariant
                self.stage == stage0,
                self.entities == entities0,
                self.removed@ == removed0,
                forall|j: int| 0 <= j < n ==> (#[trigger] old_slots[j]).entity@ < entities0,
                n == self.slots@.len(),
                n == old_slots.len(),
                i <= n,
                keys_unique(old_slots),
                forall|j: int| 0 <= j < n ==> #[trigger] key_of(self.slots@[j]) == key_of(old_slots[j]),
                forall|j: int| 0 <= j < n ==> (#[trigger] self.slots@[j]).entity == old_slots[j].entity,
                forall|j: int|
                    0 <= j < i ==> #[trigger] entry_of(self.slots@[j]) == (if old_slots[j].id.stage == from {
                        (to, old_slots[j].value)
                    } else {
                        entry_of(old_slots[j])
                    }),
                forall|j: int| i <= j < n ==> #[trigger] self.slots@[j] == old_slots[j],
            decreases n - i,
        {
            let slot = self.slots[i];
            if slot.id.stage == from {
                self.slots.set(i, Slot { entity: slot.entity, id: StageComponentId::new(slot.id.component_id, to), value: slot.value });
            }
            i = i + 1;
        }
        proof {
            let old_table = table_of(old_slots);
            let expected = Self::rewritten(old_table, from, to);
            assert(keys_unique(self.slots@)) by {
                assert forall|a: int, b: int|
                    0 <= a < self.slots@.len() && 0 <= b < self.slots@.len() && a != b implies key_of(#[trigger] self.slots@[a])
                    != key_of(#[trigger] self.slots@[b]) by {
                    assert(key_of(self.slots@[a]) == key_of(old_slots[a]));
                    assert(key_of(self.slots@[b]) == key_of(old_slots[b]));
                }
            }
            assert forall|k: (Entity, ComponentId)| #[trigger] self.table().contains_key(k) <==> expected.contains_key(k) by {
                if has_key(self.slots@, k) {
                    let j = choose|j: int| 0 <= j < self.slots@.len() && key_of(#[trigger] self.slots@[j]) == k;
                    assert(key_of(old_slots[j]) == k);
                    assert(has_key(old_slots, k));
                }
                if has_key(old_slots, k) {
                    let j = choose|j: int| 0 <= j < old_slots.len() && key_of(#[trigger] old_slots[j]) == k;
                    assert(key_of(self.slots@[j]) == k);
                    assert(has_key(self.slots@, k));
                }
            }
            assert forall|k: (Entity, ComponentId)| #[trigger] self.table().contains_key(k) implies self.table()[k] == expected[k] by {
                let j = choose|j: int| 0 <= j < self.slots@.len() && key_of(#[trigger] self.slots@[j]) == k;
                assert(key_of(old_slots[j]) == k);
                lemma_table_at(self.slots@, j);
                lemma_table_at(old_slots, j);
            }
            assert(self.table() =~= expected);
        }
        Ok(())
    }
}

} // verus!

verus! {

/// Whether every reader at a stage before `at` sees the same in `before` and
/// in `after`: the same components with the same values, and the same
/// removals.
pub open spec fn same_below(before: World, after: World, at: Stage) -> bool {
    forall|t: Stage, e: Entity, c: ComponentId|
        t@ < at@ ==> {
            &&& #[trigger] after.visible_value(e, c, t) == before.visible_value(e, c, t)
            &&& after.removals_seen(c, t) == before.removals_seen(c, t)
        }
}

/// Two entities are the same exactly when their indices are.
pub proof fn entity_index_identifies(a: Entity, b: Entity)
    ensures
        (a@ == b@) == (a == b),
{
}

/// A component stays visible, with its value, at every stage after one that
/// sees it.
pub proof fn visible_at_later_stages(w: World, e: Entity, c: ComponentId, s: Stage, t: Stage)
    requires
        s@ <= t@,
        w.visible(e, c, s),
    ensures
        w.visible(e, c, t),
        w.visible_value(e, c, t) == w.visible_value(e, c, s),
{
}

/// Read after write: a component written at stage `at` is seen with the
/// written value at `at` and at every later stage, and at no earlier stage.
pub proof fn insert_then_get(
    before: World,
    after: World,
    at: Stage,
    e: Entity,
    c: ComponentId,
    v: i32,
    t: Stage,
)
    requires
        before.insert_outcome(at, e, c) is Ok,
        after.table() == before.table().insert((e, c), (at, v)),
    ensures
        after.visible_value(e, c, t) == (if at@ <= t@ {
            Some(v)
        } else {
            None
        }),
{
}

/// An insertion at stage `at` changes nothing that an earlier stage sees.
pub proof fn insert_unseen_before(
    before: World,
    after: World,
    at: Stage,
    e: Entity,
    c: ComponentId,
    v: i32,
)
    requires
        before.insert_outcome(at, e, c) is Ok,
        after.table() == before.table().insert((e, c), (at, v)),
        after.removals() == before.removals(),
    ensures
        same_below(before, after, at),
{
}

/// A change of value at the current stage changes nothing that an earlier
/// stage sees.
pub proof fn set_value_unseen_before(before: World, after: World, e: Entity, c: ComponentId, v: i32)
    requires
        before.set_value_outcome(e, c) is Ok,
        after.table() == before.table().insert((e, c), (before.current(), v)),
        after.removals() == before.removals(),
    ensures
        same_below(before, after, before.current()),
{
}

/// A removal at the current stage changes nothing that an earlier stage
/// sees, neither the components nor the removals; every stage from the
/// current one on sees the component gone and one more removal of it.
pub proof fn remove_unseen_before(before: World, after: World, e: Entity, c: ComponentId)
    requires
        before.remove_outcome(e, c) matches Ok(Some(_)),
        after.table() == before.table().remove((e, c)),
        after.removals() == before.removals().push(
            (e, (StageComponentId { component_id: c, stage: before.current() })),
        ),
    ensures
        same_below(before, after, before.current()),
        forall|t: Stage|
            before.current()@ <= t@ ==> #[trigger] after.visible_value(e, c, t) is None
                && after.removals_seen(c, t).len() == before.removals_seen(c, t).len() + 1,
        forall|c2: ComponentId, t: Stage|
            c2 != c ==> #[trigger] after.removals_seen(c2, t) == before.removals_seen(c2, t),
{
    let r = (e, (StageComponentId { component_id: c, stage: before.current() }));
    assert forall|t: Stage, c2: ComponentId|
        true implies #[trigger] after.removals_seen(c2, t) == if World::removal_seen_by(c2, t)(r) {
            before.removals_seen(c2, t).push(r)
        } else {
            before.removals_seen(c2, t)
        } by {
        before.removals().lemma_filter_push(r, World::removal_seen_by(c2, t));
    }
}

/// A component that an earlier stage added is immutable: inserting over it,
/// changing it and removing it at the current stage are all refused, and a
/// refusal leaves the world as it was.
pub proof fn earlier_components_are_immutable(w: World, e: Entity, c: ComponentId)
    requires
        e@ < w.entity_count(),
        w.table().contains_key((e, c)),
        w.table()[(e, c)].0@ < w.current()@,
    ensures
        w.insert_outcome(w.current(), e, c) == Err::<(), StageError>(StageError::AddedAtEarlierStage),
        w.set_value_outcome(e, c) == Err::<(), StageError>(StageError::AddedAtEarlierStage),
        w.remove_outcome(e, c) == Err::<Option<i32>, StageError>(StageError::AddedAtEarlierStage),
{
}

/// Only a component that the current stage added can be changed or removed.
pub proof fn only_current_stage_is_writable(w: World, e: Entity, c: ComponentId)
    ensures
        w.set_value_outcome(e, c) is Ok <==> {
            &&& e@ < w.entity_count()
            &&& w.table().contains_key((e, c))
            &&& w.table()[(e, c)].0@ == w.current()@
        },
        w.remove_outcome(e, c) matches Ok(Some(_)) <==> {
            &&& e@ < w.entity_count()
            &&& w.table().contains_key((e, c))
            &&& w.table()[(e, c)].0@ == w.current()@
        },
{
}

/// Moving stage `from` to stage `to` makes each of its components visible
/// exactly from `to` on, with its value; other components stay as they were.
pub proof fn rewrite_moves_visibility(before: World, after: World, from: Stage, to: Stage)
    requires
        after.table() == World::rewritten(before.table(), from, to),
    ensures
        forall|e: Entity, c: ComponentId, t: Stage|
            #[trigger] after.visible_value(e, c, t) == if before.table().contains_key((e, c))
                && before.table()[(e, c)].0 == from {
                if to@ <= t@ {
                    Some(before.table()[(e, c)].1)
                } else {
                    None
                }
            } else {
                before.visible_value(e, c, t)
            },
{
}

/// Moving stage `from` to an empty stage `to` empties `from`, and moving
/// `to` back to `from` then restores every component as it was.
pub proof fn rewrite_round_trip(table: Table, from: Stage, to: Stage)
    requires
        from != to,
        forall|k: (Entity, ComponentId)| #[trigger] table.contains_key(k) ==> table[k].0 != to,
    ensures
        forall|k: (Entity, ComponentId)|
            #[trigger] World::rewritten(table, from, to).contains_key(k) ==> World::rewritten(
                table,
                from,
                to,
            )[k].0 != from,
        World::rewritten(World::rewritten(table, from, to), to, from) == table,
{
    assert(World::rewritten(World::rewritten(table, from, to), to, from) =~= table);
}

} // verus!

verus! {

/// What the current stage sees of a component: its value exactly when the
/// world holds it with a stage no later than the reader's.
pub proof fn visible_value_law(w: World, e: Entity, c: ComponentId, t: Stage, v: i32)
    ensures
        (w.visible_value(e, c, t) == Some(v)) == (w.table().contains_key((e, c)) && w.table()[(
        e,
        c,
        )].0@ <= t@ && w.table()[(e, c)].1 == v),
        (w.visible_value(e, c, t) is None) == (!w.table().contains_key((e, c)) || t@ < w.table()[(
        e,
        c,
        )].0@),
{
}

/// A query filter holds of an entity exactly when the current stage sees
/// every component type listed in `with` on it, and none of those listed in
/// `without`, wherever in the lists they stand.
pub proof fn query_filter_law(
    w: World,
    e: Entity,
    with: Seq<ComponentId>,
    without: Seq<ComponentId>,
)
    ensures
        w.matches(e, with, without) == ((forall|c: ComponentId|
            #[trigger] with.contains(c) ==> w.visible(e, c, w.current())) && (forall|c: ComponentId|
            #[trigger] without.contains(c) ==> !w.visible(e, c, w.current()))),
{
    if w.matches(e, with, without) {
        assert forall|c: ComponentId| #[trigger] with.contains(c) implies w.visible(e, c, w.current()) by {
            let j = choose|j: int| 0 <= j < with.len() && with[j] == c;
        }
        assert forall|c: ComponentId| #[trigger] without.contains(c) implies !w.visible(
            e,
            c,
            w.current(),
        ) by {
            let j = choose|j: int| 0 <= j < without.len() && without[j] == c;
        }
    }
    if (forall|c: ComponentId| #[trigger] with.contains(c) ==> w.visible(e, c, w.current())) && (
    forall|c: ComponentId| #[trigger] without.contains(c) ==> !w.visible(e, c, w.current())) {
        assert forall|j: int| 0 <= j < with.len() implies w.visible(e, #[trigger] with[j], w.current()) by {
            assert(with.contains(with[j]));
        }
        assert forall|j: int| 0 <= j < without.len() implies !w.visible(
            e,
            #[trigger] without[j],
            w.current(),
        ) by {
            assert(without.contains(without[j]));
        }
    }
}

/// Inserting at stage `at` is refused for an entity that was never spawned,
/// and for a component that a stage strictly before `at` added; it is
/// accepted for a new component, and over one that `at` itself or a later
/// stage added.
pub proof fn insert_outcome_law(w: World, at: Stage, e: Entity, c: ComponentId)
    ensures
        w.entity_count() <= e@ ==> w.insert_outcome(at, e, c) == Err::<(), StageError>(
            StageError::NoSuchEntity,
        ),
        e@ < w.entity_count() && !w.table().contains_key((e, c)) ==> w.insert_outcome(at, e, c)
            == Ok::<(), StageError>(()),
        e@ < w.entity_count() && w.table().contains_key((e, c)) && at@ <= w.table()[(e, c)].0@
            ==> w.insert_outcome(at, e, c) == Ok::<(), StageError>(()),
        e@ < w.entity_count() && w.table().contains_key((e, c)) && w.table()[(e, c)].0@ < at@
            ==> w.insert_outcome(at, e, c) == Err::<(), StageError>(
            StageError::AddedAtEarlierStage,
        ),
{
}

/// A stage may insert the same component again: after one accepted
/// insertion at `at`, a second one at `at` is accepted too, and the stage
/// then sees the second value.
pub proof fn insert_twice_at_one_stage(
    first: World,
    second: World,
    third: World,
    at: Stage,
    e: Entity,
    c: ComponentId,
    v1: i32,
    v2: i32,
)
    requires
        first.insert_outcome(at, e, c) is Ok,
        second.entity_count() == first.entity_count(),
        second.table() == first.table().insert((e, c), (at, v1)),
        third.table() == second.table().insert((e, c), (at, v2)),
    ensures
        second.insert_outcome(at, e, c) == Ok::<(), StageError>(()),
        third.visible_value(e, c, at) == Some(v2),
{
}

/// Changing a value is refused for an entity that was never spawned, for a
/// missing component, for one that an earlier stage added and for one that
/// a later stage added; it is accepted exactly for a component that the
/// current stage added.
pub proof fn set_value_outcome_law(w: World, e: Entity, c: ComponentId)
    ensures
        w.entity_count() <= e@ ==> w.set_value_outcome(e, c) == Err::<(), StageError>(
            StageError::NoSuchEntity,
        ),
        e@ < w.entity_count() && !w.table().contains_key((e, c)) ==> w.set_value_outcome(e, c)
            == Err::<(), StageError>(StageError::MissingComponent),
        e@ < w.entity_count() && w.table().contains_key((e, c)) && w.table()[(e, c)].0@
            < w.current()@ ==> w.set_value_outcome(e, c) == Err::<(), StageError>(
            StageError::AddedAtEarlierStage,
        ),
        e@ < w.entity_count() && w.table().contains_key((e, c)) && w.current()@ < w.table()[(
        e,
        c,
        )].0@ ==> w.set_value_outcome(e, c) == Err::<(), StageError>(StageError::AddedAtLaterStage),
        e@ < w.entity_count() && w.table().contains_key((e, c)) && w.table()[(e, c)].0@
            == w.current()@ ==> w.set_value_outcome(e, c) == Ok::<(), StageError>(()),
{
}

/// Removing is refused for an entity that was never spawned and for a
/// component that an earlier stage added; it gives the value of a component
/// that the current stage added, and nothing when the current stage sees no
/// such component.
pub proof fn remove_outcome_law(w: World, e: Entity, c: ComponentId)
    ensures
        w.entity_count() <= e@ ==> w.remove_outcome(e, c) == Err::<Option<i32>, StageError>(
            StageError::NoSuchEntity,
        ),
        e@ < w.entity_count() && !w.table().contains_key((e, c)) ==> w.remove_outcome(e, c)
            == Ok::<Option<i32>, StageError>(None),
        e@ < w.entity_count() && w.table().contains_key((e, c)) && w.table()[(e, c)].0@
            < w.current()@ ==> w.remove_outcome(e, c) == Err::<Option<i32>, StageError>(
            StageError::AddedAtEarlierStage,
        ),
        e@ < w.entity_count() && w.table().contains_key((e, c)) && w.current()@ < w.table()[(
        e,
        c,
        )].0@ ==> w.remove_outcome(e, c) == Ok::<Option<i32>, StageError>(None),
        e@ < w.entity_count() && w.table().contains_key((e, c)) && w.table()[(e, c)].0@
            == w.current()@ ==> w.remove_outcome(e, c) == Ok::<Option<i32>, StageError>(
            Some(w.table()[(e, c)].1),
        ),
{
}

/// The removals of `component` that stage `at` sees are exactly the
/// recorded removals of that component type made at `at` or before, in the
/// order they were made.
pub proof fn removals_seen_law(w: World, component: ComponentId, at: Stage)
    ensures
        forall|i: int|
            0 <= i < w.removals_seen(component, at).len() ==> (#[trigger] w.removals_seen(
                component,
                at,
            )[i]).1.component_id == component && w.removals_seen(component, at)[i].1.stage@ <= at@,
        forall|i: int|
            0 <= i < w.removals().len() && (#[trigger] w.removals()[i]).1.component_id == component
                && w.removals()[i].1.stage@ <= at@ ==> w.removals_seen(component, at).contains(
                w.removals()[i],
            ),
        forall|r: (Entity, StageComponentId)|
            #[trigger] w.removals_seen(component, at).contains(r) ==> w.removals().contains(r),
{
    let p = World::removal_seen_by(component, at);
    let seen = w.removals().filter(p);
    assert forall|i: int| 0 <= i < seen.len() implies (#[trigger] seen[i]).1.component_id
        == component && seen[i].1.stage@ <= at@ by {
        w.removals().lemma_filter_pred(p, i);
    }
    assert forall|i: int|
        0 <= i < w.removals().len() && (#[trigger] w.removals()[i]).1.component_id == component
            && w.removals()[i].1.stage@ <= at@ implies seen.contains(w.removals()[i]) by {
        w.removals().lemma_filter_contains(p, i);
    }
    assert forall|r: (Entity, StageComponentId)| #[trigger] seen.contains(r) implies w.removals().contains(r) by {
        w.removals().lemma_filter_contains_rev(p, r);
    }
}

/// Moving stage `from` to another stage `to` is refused whenever `to` holds
/// any component at all, of any entity and any type.
pub proof fn rewrite_refused_into_occupied_stage(
    w: World,
    from: Stage,
    to: Stage,
    k: (Entity, ComponentId),
)
    requires
        from != to,
        w.table().contains_key(k),
        w.table()[k].0 == to,
    ensures
        w.rewrite_outcome(from, to) == Err::<(), StageError>(StageError::TargetStageNotEmpty),
{
}

/// Moving a stage into itself, or into a stage that holds no component, is
/// accepted; it keeps every entity's component types, moves the components
/// of `from` to `to` with their values, and leaves the others as they were.
pub proof fn rewrite_accepted_into_empty_stage(w: World, from: Stage, to: Stage)
    requires
        from == to || forall|k: (Entity, ComponentId)|
            #[trigger] w.table().contains_key(k) ==> w.table()[k].0 != to,
    ensures
        w.rewrite_outcome(from, to) == Ok::<(), StageError>(()),
        World::rewritten(w.table(), from, to).dom() == w.table().dom(),
        forall|k: (Entity, ComponentId)|
            #[trigger] w.table().contains_key(k) ==> World::rewritten(w.table(), from, to)[k] == (
            if w.table()[k].0 == from {
                (to, w.table()[k].1)
            } else {
                w.table()[k]
            }),
{
}

/// The component types of an entity are those it holds a component of,
/// whichever stage added it.
pub proof fn components_of_law(w: World, e: Entity, c: ComponentId)
    ensures
        w.components_of(e).contains(c) == w.table().contains_key((e, c)),
{
}

} // verus!
