//! The entity store: archetypes of entities sharing a component-type set,
//! and a generation-counted index table giving every live entity a stable
//! identifier independent of how the rows are reorganized.

use vstd::prelude::*;
use crate::components::Component;
use crate::permissions::ComponentTypeId;

verus! {

/// Stable identifier of one logical row of data. An index may be recycled
/// after its entity is removed, but only together with a fresh generation,
/// so a stale identifier never reaches a newer entity.
#[derive(Clone, Copy, Debug, PartialEq, Eq, Hash, Structural)]
pub struct Entity {
    pub index: usize,
    pub generation: u64,
}

/// Where an entity currently lives: which archetype, and which row of it.
#[derive(Clone, Copy, Debug, PartialEq, Eq, Structural)]
pub struct EntityLocation {
    pub archetype: usize,
    pub row: usize,
}

/// One slot of the entity index table.
#[derive(Clone, Copy, Debug)]
pub struct Slot {
    pub generation: u64,
    pub location: Option<EntityLocation>,
}

/// A group of entities sharing an identical set of component types. Each
/// entity holds one row of component values, one value per type in the
/// archetype's signature.
#[derive(Debug)]
pub struct Archetype {
    pub signature: Vec<ComponentTypeId>,
    pub entities: Vec<Entity>,
    pub rows: Vec<Vec<Component>>,
}

/// The type identifiers of a row of components.
pub open spec fn types_of(row: Seq<Component>) -> Seq<ComponentTypeId> {
    row.map_values(|c: Component| c.spec_type_id())
}

/// No two components of the row share a type.
pub open spec fn distinct_types(row: Seq<Component>) -> bool {
    forall|i: int, j: int|
        0 <= i < j < row.len() ==> row[i].spec_type_id() != row[j].spec_type_id()
}

/// The row carries a component of type `t`.
pub open spec fn row_has_type(row: Seq<Component>, t: ComponentTypeId) -> bool {
    exists|i: int| 0 <= i < row.len() && row[i].spec_type_id() == t
}

/// The position of the component of type `t` in the row.
pub open spec fn row_index_of(row: Seq<Component>, t: ComponentTypeId) -> int {
    choose|i: int| 0 <= i < row.len() && row[i].spec_type_id() == t
}

/// The row read as a finite map from component type to value.
pub open spec fn row_map(row: Seq<Component>) -> Map<ComponentTypeId, Component> {
    Map::new(
        |t: ComponentTypeId| row_has_type(row, t),
        |t: ComponentTypeId| row[row_index_of(row, t)],
    )
}

/// Two signatures describe the same set of component types.
pub open spec fn same_type_set(s1: Seq<ComponentTypeId>, s2: Seq<ComponentTypeId>) -> bool {
    forall|t: ComponentTypeId| s1.contains(t) == s2.contains(t)
}

/// In a row without duplicated types, the component of type `t` found at
/// position `i` is the one the row map holds for `t`.
pub proof fn lemma_row_index_unique(row: Seq<Component>, i: int, t: ComponentTypeId)
    requires
        distinct_types(row),
        0 <= i < row.len(),
        row[i].spec_type_id() == t,
    ensures
        row_has_type(row, t),
        row_index_of(row, t) == i,
{
    assert(row_has_type(row, t));
    let j = row_index_of(row, t);
    assert(0 <= j < row.len() && row[j].spec_type_id() == t);
}

/// Replacing a component by one of the same type updates the row map at
/// that type alone.
pub proof fn lemma_row_map_update(row: Seq<Component>, i: int, c: Component)
    requires
        distinct_types(row),
        0 <= i < row.len(),
        row[i].spec_type_id() == c.spec_type_id(),
    ensures
        distinct_types(row.update(i, c)),
        types_of(row.update(i, c)) == types_of(row),
        row_map(row.update(i, c)) == row_map(row).insert(c.spec_type_id(), c),
{
    let t = c.spec_type_id();
    let newrow = row.update(i, c);
    assert(types_of(newrow) =~= types_of(row));
    assert forall|j: int, k: int|
        0 <= j < k < newrow.len() implies newrow[j].spec_type_id()
        != newrow[k].spec_type_id() by {
        assert(row[j].spec_type_id() != row[k].spec_type_id());
    }
    assert forall|t2: ComponentTypeId| row_has_type(newrow, t2) == row_has_type(row, t2) by {
        if row_has_type(newrow, t2) {
            let j = choose|j: int| 0 <= j < newrow.len() && newrow[j].spec_type_id() == t2;
            assert(row[j].spec_type_id() == t2);
        }
        if row_has_type(row, t2) {
            let j = choose|j: int| 0 <= j < row.len() && row[j].spec_type_id() == t2;
            assert(newrow[j].spec_type_id() == t2);
        }
    }
    assert forall|t2: ComponentTypeId| #[trigger]
        row_map(newrow).dom().contains(t2) implies row_map(newrow)[t2] == row_map(row).insert(
        t,
        c,
    )[t2] by {
        if t2 == t {
            lemma_row_index_unique(newrow, i, t);
        } else {
            let j = row_index_of(row, t2);
            assert(0 <= j < row.len() && row[j].spec_type_id() == t2);
            assert(j != i);
            lemma_row_index_unique(newrow, j, t2);
        }
    }
    assert(row_map(newrow) =~= row_map(row).insert(t, c));
}

/// Appending a component of a type the row lacks extends the row map by
/// that type.
pub proof fn lemma_row_map_push(row: Seq<Component>, c: Component)
    requires
        distinct_types(row),
        !row_has_type(row, c.spec_type_id()),
    ensures
        distinct_types(row.push(c)),
        row_map(row.push(c)) == row_map(row).insert(c.spec_type_id(), c),
{
    let t = c.spec_type_id();
    let newrow = row.push(c);
    assert forall|j: int, k: int|
        0 <= j < k < newrow.len() implies newrow[j].spec_type_id()
        != newrow[k].spec_type_id() by {
        if k == row.len() {
            assert(newrow[j] == row[j]);
            if row[j].spec_type_id() == t {
                assert(row_has_type(row, t));
            }
        } else {
            assert(newrow[j] == row[j] && newrow[k] == row[k]);
        }
    }
    assert forall|t2: ComponentTypeId|
        row_has_type(newrow, t2) == (row_has_type(row, t2) || t2 == t) by {
        if row_has_type(newrow, t2) && t2 != t {
            let j = choose|j: int| 0 <= j < newrow.len() && newrow[j].spec_type_id() == t2;
            assert(j != row.len());
            assert(row[j].spec_type_id() == t2);
        }
        if row_has_type(row, t2) {
            let j = choose|j: int| 0 <= j < row.len() && row[j].spec_type_id() == t2;
            assert(newrow[j].spec_type_id() == t2);
        }
        assert(newrow[row.len() as int].spec_type_id() == t);
    }
    assert forall|t2: ComponentTypeId| #[trigger]
        row_map(newrow).dom().contains(t2) implies row_map(newrow)[t2] == row_map(row).insert(
        t,
        c,
    )[t2] by {
        if t2 == t {
            lemma_row_index_unique(newrow, row.len() as int, t);
        } else {
            let j = row_index_of(row, t2);
            assert(0 <= j < row.len() && row[j].spec_type_id() == t2);
            lemma_row_index_unique(newrow, j, t2);
        }
    }
    assert(row_map(newrow) =~= row_map(row).insert(t, c));
}

/// Swap-removing the component of type `t` shrinks the row map by `t`.
pub proof fn lemma_row_map_swap_remove(row: Seq<Component>, i: int)
    requires
        distinct_types(row),
        0 <= i < row.len(),
    ensures
        distinct_types(row.update(i, row.last()).drop_last()),
        row_map(row.update(i, row.last()).drop_last()) == row_map(row).remove(
            row[i].spec_type_id(),
        ),
{
    let t = row[i].spec_type_id();
    let newrow = row.update(i, row.last()).drop_last();
    let last = row.len() - 1;
    assert forall|j: int| 0 <= j < newrow.len() implies newrow[j] == (if j == i {
        row[last]
    } else {
        row[j]
    }) by {}
    assert forall|j: int, k: int|
        0 <= j < k < newrow.len() implies newrow[j].spec_type_id()
        != newrow[k].spec_type_id() by {
        let oj = if j == i {
            last
        } else {
            j
        };
        let ok = if k == i {
            last
        } else {
            k
        };
        assert(newrow[j] == row[oj] && newrow[k] == row[ok]);
        assert(oj != ok);
    }
    assert forall|t2: ComponentTypeId|
        row_has_type(newrow, t2) == (row_has_type(row, t2) && t2 != t) by {
        if row_has_type(newrow, t2) {
            let j = choose|j: int| 0 <= j < newrow.len() && newrow[j].spec_type_id() == t2;
            let oj = if j == i {
                last
            } else {
                j
            };
            assert(row[oj].spec_type_id() == t2);
            if t2 == t {
                assert(row[oj].spec_type_id() == row[i].spec_type_id());
                assert(oj == i) by {
                    if oj != i {
                        if oj < i {
                            assert(row[oj].spec_type_id() != row[i].spec_type_id());
                        } else {
                            assert(row[i].spec_type_id() != row[oj].spec_type_id());
                        }
                    }
                }
                assert(j == i && i == last && j < newrow.len());
                assert(false);
            }
        }
        if row_has_type(row, t2) && t2 != t {
            let j = choose|j: int| 0 <= j < row.len() && row[j].spec_type_id() == t2;
            assert(j != i);
            if j == last {
                assert(i < last);
                assert(newrow[i].spec_type_id() == t2);
            } else {
                assert(newrow[j].spec_type_id() == t2);
            }
        }
    }
    assert forall|t2: ComponentTypeId| #[trigger]
        row_map(newrow).dom().contains(t2) implies row_map(newrow)[t2] == row_map(row).remove(
        t,
    )[t2] by {
        let j = row_index_of(row, t2);
        assert(0 <= j < row.len() && row[j].spec_type_id() == t2);
        assert(j != i);
        if j == last {
            assert(i < last);
            assert(newrow[i] == row[last]);
            lemma_row_index_unique(newrow, i, t2);
        } else {
            assert(newrow[j] == row[j]);
            lemma_row_index_unique(newrow, j, t2);
        }
    }
    assert(row_map(newrow) =~= row_map(row).remove(t));
}

/// Finds the position of the component of type `t` in a row.
fn row_find(row: &Vec<Component>, t: ComponentTypeId) -> (r: Option<usize>)
    ensures
        match r {
            Option::Some(ci) => ci < row@.len() && row@[ci as int].spec_type_id() == t,
            Option::None => !row_has_type(row@, t),
        },
{
    let mut i: usize = 0;
    while i < row.len()
        invariant
            i <= row@.len(),
            forall|j: int| 0 <= j < i ==> row@[j].spec_type_id() != t,
        decreases row@.len() - i,
    {
        if row[i].type_id() == t {
            return Some(i);
        }
        i += 1;
    }
    None
}

impl Archetype {
    pub open spec fn wf(self) -> bool {
        &&& forall|i: int, j: int|
            0 <= i < j < self.signature@.len() ==> self.signature@[i] != self.signature@[j]
        &&& self.rows@.len() == self.entities@.len()
        &&& forall|r: int|
            0 <= r < self.rows@.len() ==> distinct_types(#[trigger] self.rows@[r]@)
                && same_type_set(types_of(self.rows@[r]@), self.signature@)
    }
}

/// Owns all entities and their component storage.
#[derive(Debug)]
pub struct World {
    pub slots: Vec<Slot>,
    pub archetypes: Vec<Archetype>,
    pub free: Vec<usize>,
}

impl World {
    /// The slot either holds no entity or points at the row that holds its
    /// entity back.
    pub open spec fn slot_ok(self, si: int) -> bool {
        match self.slots@[si].location {
            Option::Some(l) => {
                &&& l.archetype < self.archetypes@.len()
                &&& l.row < self.archetypes@[l.archetype as int].entities@.len()
                &&& self.archetypes@[l.archetype as int].entities@[l.row as int] == (Entity {
                    index: si as usize,
                    generation: self.slots@[si].generation,
                })
            },
            Option::None => true,
        }
    }

    /// The entity recorded in a row points back at that row through the
    /// index table.
    pub open spec fn entry_ok(self, ai: int, r: int) -> bool {
        let e = self.archetypes@[ai].entities@[r];
        &&& e.index < self.slots@.len()
        &&& self.slots@[e.index as int].generation == e.generation
        &&& self.slots@[e.index as int].location == Option::Some(
            EntityLocation { archetype: ai as usize, row: r as usize },
        )
    }

    pub open spec fn arch_ok(self, ai: int) -> bool {
        self.archetypes@[ai].wf()
    }

    /// The freelist names only dead slots, each at most once.
    pub open spec fn free_ok(self, k: int) -> bool {
        &&& self.free@[k] < self.slots@.len()
        &&& self.slots@[self.free@[k] as int].location is None
    }

    /// Every entity belongs to exactly one archetype row matching its
    /// current component set, every row is owned by the entity its slot
    /// names, archetype signatures are pairwise distinct as sets, and the
    /// freelist names only dead slots.
    pub open spec fn wf(self) -> bool {
        &&& forall|si: int| 0 <= si < self.slots@.len() ==> #[trigger] self.slot_ok(si)
        &&& forall|ai: int, r: int|
            0 <= ai < self.archetypes@.len() && 0 <= r < self.archetypes@[ai].entities@.len()
                ==> #[trigger] self.entry_ok(ai, r)
        &&& forall|ai: int| 0 <= ai < self.archetypes@.len() ==> #[trigger] self.arch_ok(ai)
        &&& forall|ai: int, aj: int|
            0 <= ai < aj < self.archetypes@.len() ==> !same_type_set(
                #[trigger] self.archetypes@[ai].signature@,
                #[trigger] self.archetypes@[aj].signature@,
            )
        &&& forall|k: int| 0 <= k < self.free@.len() ==> #[trigger] self.free_ok(k)
        &&& forall|k1: int, k2: int|
            0 <= k1 < k2 < self.free@.len() ==> self.free@[k1] != self.free@[k2]
    }

    /// The world currently holds an entity with this identifier.
    pub open spec fn has_entity(self, e: Entity) -> bool {
        &&& e.index < self.slots@.len()
        &&& self.slots@[e.index as int].generation == e.generation
        &&& self.slots@[e.index as int].location is Some
    }

    /// The archetype and row a live entity occupies.
    pub open spec fn loc_of(self, e: Entity) -> EntityLocation {
        match self.slots@[e.index as int].location {
            Option::Some(l) => l,
            Option::None => EntityLocation { archetype: 0, row: 0 },
        }
    }

    /// The component row of a live entity.
    pub open spec fn row_of(self, e: Entity) -> Seq<Component> {
        self.archetypes@[self.loc_of(e).archetype as int].rows@[self.loc_of(e).row as int]@
    }

    /// The components of a live entity, as a map from type to value.
    pub open spec fn components_of(self, e: Entity) -> Map<ComponentTypeId, Component> {
        row_map(self.row_of(e))
    }

    /// The entity is live and carries a component of type `t`.
    pub open spec fn entity_has(self, e: Entity, t: ComponentTypeId) -> bool {
        self.has_entity(e) && row_has_type(self.row_of(e), t)
    }

    /// Entity population and component values agree with `other` everywhere
    /// but at `e`.
    pub open spec fn same_except(self, other: World, e: Entity) -> bool {
        &&& forall|e2: Entity| e2 != e ==> self.has_entity(e2) == other.has_entity(e2)
        &&& forall|e2: Entity|
            e2 != e && other.has_entity(e2) ==> #[trigger] self.row_of(e2) == other.row_of(e2)
    }

    /// An empty world.
    pub fn new() -> (w: World)
        ensures
            w.wf(),
            forall|e: Entity| !w.has_entity(e),
            w.archetypes@.len() == 0,
    {
        World { slots: Vec::new(), archetypes: Vec::new(), free: Vec::new() }
    }

    /// Finds a live entity's location.
    pub fn locate(&self, e: Entity) -> (r: Option<EntityLocation>)
        ensures
            match r {
                Option::Some(l) => self.has_entity(e) && l == self.loc_of(e),
                Option::None => !self.has_entity(e),
            },
    {
        if e.index >= self.slots.len() {
            return None;
        }
        let s = self.slots[e.index];
        if s.generation != e.generation {
            return None;
        }
        match s.location {
            Option::Some(l) => Some(l),
            Option::None => None,
        }
    }

    /// Returns whether the world holds the entity.
    pub fn contains(&self, e: Entity) -> (b: bool)
        ensures
            b == self.has_entity(e),
    {
        match self.locate(e) {
            Option::Some(_) => true,
            Option::None => false,
        }
    }

    /// Reads a live entity's component of type `t`, unchecked by any access
    /// descriptor: this is the accessor of the store's exclusive owner.
    pub fn get_component(&self, e: Entity, t: ComponentTypeId) -> (r: Option<&Component>)
        requires
            self.wf(),
        ensures
            match r {
                Option::Some(c) => self.entity_has(e, t) && *c == self.components_of(e)[t],
                Option::None => !self.entity_has(e, t),
            },
    {
        match self.locate(e) {
            Option::None => None,
            Option::Some(l) => {
                proof {
                    assert(self.slot_ok(e.index as int));
                }
                let arch = &self.archetypes[l.archetype];
                proof {
                    assert(self.arch_ok(l.archetype as int));
                }
                let row = &arch.rows[l.row];
                let mut i: usize = 0;
                while i < row.len()
                    invariant
                        i <= row@.len(),
                        forall|j: int| 0 <= j < i ==> row@[j].spec_type_id() != t,
                        distinct_types(row@),
                        self.has_entity(e),
                        row@ == self.row_of(e),
                    decreases row@.len() - i,
                {
                    if row[i].type_id() == t {
                        proof {
                            lemma_row_index_unique(row@, i as int, t);
                            assert(row_has_type(self.row_of(e), t));
                            assert(self.components_of(e).dom().contains(t));
                            assert(self.components_of(e)[t] == self.row_of(e)[i as int]);
                        }
                        return Some(&row[i]);
                    }
                    i += 1;
                }
                None
            },
        }
    }
}

/// Extending the archetype list (without touching slots) changes no
/// entity's presence or components.
proof fn arch_extension_preserves_model(prev: World, m: World)
    requires
        prev.wf(),
        m.slots@ == prev.slots@,
        m.archetypes@.len() >= prev.archetypes@.len(),
        forall|aj: int|
            0 <= aj < prev.archetypes@.len() ==> m.archetypes@[aj] == prev.archetypes@[aj],
    ensures
        forall|e2: Entity| m.has_entity(e2) == prev.has_entity(e2),
        forall|e2: Entity| prev.has_entity(e2) ==> #[trigger] m.row_of(e2) == prev.row_of(e2),
{
    assert forall|e2: Entity| prev.has_entity(e2) implies #[trigger] m.row_of(e2)
        == prev.row_of(e2) by {
        assert(prev.slot_ok(e2.index as int));
    }
}

/// After a row is pushed into archetype `ai` and the slot of `e` is pointed
/// at it, the world is well-formed again and everything but `e` is
/// untouched.
proof fn attach_row_model(m: World, f: World, e: Entity, row: Seq<Component>, ai: int, ri: int)
    requires
        m.wf(),
        0 <= ai < m.archetypes@.len(),
        same_type_set(m.archetypes@[ai].signature@, types_of(row)),
        distinct_types(row),
        e.index < m.slots@.len(),
        m.slots@[e.index as int].generation == e.generation,
        m.slots@[e.index as int].location is None,
        !m.free@.contains(e.index),
        ri == m.archetypes@[ai].entities@.len(),
        f.slots@ == m.slots@.update(
            e.index as int,
            Slot {
                generation: e.generation,
                location: Some(EntityLocation { archetype: ai as usize, row: ri as usize }),
            },
        ),
        f.free@ == m.free@,
        f.archetypes@.len() == m.archetypes@.len(),
        forall|aj: int|
            0 <= aj < m.archetypes@.len() && aj != ai ==> f.archetypes@[aj] == m.archetypes@[aj],
        f.archetypes@[ai].signature@ == m.archetypes@[ai].signature@,
        f.archetypes@[ai].entities@ == m.archetypes@[ai].entities@.push(e),
        f.archetypes@[ai].rows@.len() == m.archetypes@[ai].rows@.len() + 1,
        forall|r: int|
            0 <= r < m.archetypes@[ai].rows@.len() ==> f.archetypes@[ai].rows@[r]
                == m.archetypes@[ai].rows@[r],
        f.archetypes@[ai].rows@[ri]@ == row,
    ensures
        f.wf(),
        f.has_entity(e),
        f.row_of(e) == row,
        f.same_except(m, e),
        forall|si: int|
            0 <= si < m.slots@.len() ==> f.slots@[si].generation == m.slots@[si].generation,
{
    assert(m.archetypes.len() == m.archetypes@.len());
    assert(m.archetypes@[ai].entities.len() == m.archetypes@[ai].entities@.len());
    assert(m.slots.len() == m.slots@.len());
    assert(m.arch_ok(ai));
    assert forall|si: int| 0 <= si < f.slots@.len() implies f.slot_ok(si) by {
        if si == e.index {
            assert(f.archetypes@[ai].entities@[ri] == e);
        } else {
            assert(m.slot_ok(si));
            match m.slots@[si].location {
                Option::Some(l) => {
                    if l.archetype == ai {
                        assert(f.archetypes@[ai].entities@[l.row as int] == m.archetypes@[
                            ai
                        ].entities@[l.row as int]);
                    }
                },
                Option::None => {},
            }
        }
    }
    assert forall|a2: int, r: int|
        0 <= a2 < f.archetypes@.len() && 0 <= r < f.archetypes@[a2].entities@.len() implies
        f.entry_ok(a2, r) by {
        if a2 == ai && r == ri {
            assert(f.archetypes@[a2].entities@[r] == e);
            assert(f.slots@[e.index as int].location == Some(
                EntityLocation { archetype: ai as usize, row: ri as usize },
            ));
        } else {
            assert(m.entry_ok(a2, r));
            let e2 = m.archetypes@[a2].entities@[r];
            assert(m.slots@[e2.index as int].location is Some);
            assert(e2.index != e.index);
            assert(f.archetypes@[a2].entities@[r] == e2);
        }
    }
    assert forall|a2: int| 0 <= a2 < f.archetypes@.len() implies f.arch_ok(a2) by {
        assert(m.arch_ok(a2));
        if a2 == ai {
            assert forall|r: int| 0 <= r < f.archetypes@[ai].rows@.len() implies distinct_types(
                #[trigger] f.archetypes@[ai].rows@[r]@,
            ) && same_type_set(types_of(f.archetypes@[ai].rows@[r]@), f.archetypes@[
                ai
            ].signature@) by {
                if r < ri {
                    assert(f.archetypes@[ai].rows@[r] == m.archetypes@[ai].rows@[r]);
                }
            }
            assert(f.archetypes@[ai].wf());
        }
    }
    assert forall|a2: int, aj: int| 0 <= a2 < aj < f.archetypes@.len() implies !same_type_set(
        #[trigger] f.archetypes@[a2].signature@,
        #[trigger] f.archetypes@[aj].signature@,
    ) by {
        assert(f.archetypes@[a2].signature@ == m.archetypes@[a2].signature@);
        assert(f.archetypes@[aj].signature@ == m.archetypes@[aj].signature@);
    }
    assert forall|k: int| 0 <= k < f.free@.len() implies f.free_ok(k) by {
        assert(m.free_ok(k));
        assert(m.free@.contains(m.free@[k]));
        assert(m.free@[k] != e.index);
    }
    assert(f.wf());
    assert(f.row_of(e) == row);
    assert forall|e2: Entity| e2 != e implies f.has_entity(e2) == m.has_entity(e2) by {
        if e2.index == e.index {
            assert(!m.has_entity(e2));
            if f.has_entity(e2) {
                assert(e2.generation == e.generation);
                assert(e2 == e);
            }
        }
    }
    assert forall|e2: Entity| e2 != e && m.has_entity(e2) implies #[trigger] f.row_of(e2)
        == m.row_of(e2) by {
        assert(m.slot_ok(e2.index as int));
        assert(e2.index != e.index);
        match m.slots@[e2.index as int].location {
            Option::Some(l) => {
                if l.archetype == ai {
                    assert(f.archetypes@[ai].rows@[l.row as int] == m.archetypes@[ai].rows@[
                        l.row as int
                    ]);
                }
            },
            Option::None => {},
        }
    }
}

/// After an entity's row is swap-removed from its archetype, its slot
/// cleared, and the slot of the row that filled the gap redirected, the
/// world is well-formed again and everything but `e` is untouched.
proof fn detach_row_model(m: World, f: World, e: Entity)
    requires
        m.wf(),
        m.has_entity(e),
        ({
            let ai = m.loc_of(e).archetype as int;
            let r0 = m.loc_of(e).row as int;
            let last = m.archetypes@[ai].entities@.len() - 1;
            let moved = m.archetypes@[ai].entities@[last];
            let dead = Slot { generation: e.generation, location: None };
            &&& (r0 < last ==> f.slots@ == m.slots@.update(e.index as int, dead).update(
                moved.index as int,
                Slot {
                    generation: moved.generation,
                    location: Some(
                        EntityLocation { archetype: ai as usize, row: r0 as usize },
                    ),
                },
            ))
            &&& (r0 == last ==> f.slots@ == m.slots@.update(e.index as int, dead))
            &&& f.free@ == m.free@
            &&& f.archetypes@.len() == m.archetypes@.len()
            &&& forall|aj: int|
                0 <= aj < m.archetypes@.len() && aj != ai ==> f.archetypes@[aj]
                    == m.archetypes@[aj]
            &&& f.archetypes@[ai].signature@ == m.archetypes@[ai].signature@
            &&& f.archetypes@[ai].entities@ == m.archetypes@[ai].entities@.update(
                r0,
                m.archetypes@[ai].entities@.last(),
            ).drop_last()
            &&& f.archetypes@[ai].rows@ == m.archetypes@[ai].rows@.update(
                r0,
                m.archetypes@[ai].rows@.last(),
            ).drop_last()
        }),
    ensures
        f.wf(),
        !f.has_entity(e),
        f.same_except(m, e),
        f.slots@.len() == m.slots@.len(),
        f.free@ == m.free@,
        f.slots@[e.index as int].generation == e.generation,
        f.slots@[e.index as int].location is None,
        !f.free@.contains(e.index),
        forall|si: int|
            0 <= si < m.slots@.len() ==> f.slots@[si].generation == m.slots@[si].generation,
{
    let ai = m.loc_of(e).archetype as int;
    let r0 = m.loc_of(e).row as int;
    let last = m.archetypes@[ai].entities@.len() - 1;
    let moved = m.archetypes@[ai].entities@[last];
    assert(m.slot_ok(e.index as int));
    assert(m.slots.len() == m.slots@.len());
    assert(m.archetypes.len() == m.archetypes@.len());
    assert(m.archetypes@[ai].entities.len() == m.archetypes@[ai].entities@.len());
    assert(m.arch_ok(ai));
    assert(m.archetypes@[ai].entities@[r0] == e);
    assert(m.entry_ok(ai, r0));
    assert(m.entry_ok(ai, last));
    assert(m.slots@[moved.index as int].location == Some(
        EntityLocation { archetype: ai as usize, row: last as usize },
    ));
    assert(r0 < last ==> moved.index != e.index);
    assert(!m.free@.contains(e.index)) by {
        if m.free@.contains(e.index) {
            let k = choose|k: int| 0 <= k < m.free@.len() && m.free@[k] == e.index;
            assert(m.free_ok(k));
        }
    }
    assert(!m.free@.contains(moved.index)) by {
        if m.free@.contains(moved.index) {
            let k = choose|k: int| 0 <= k < m.free@.len() && m.free@[k] == moved.index;
            assert(m.free_ok(k));
        }
    }
    assert forall|si: int| 0 <= si < f.slots@.len() implies f.slot_ok(si) by {
        if si == e.index && !(r0 < last && si == moved.index as int) {
        } else if r0 < last && si == moved.index as int {
            assert(f.archetypes@[ai].entities@[r0] == moved);
        } else {
            assert(m.slot_ok(si));
            assert(f.slots@[si] == m.slots@[si]);
            match m.slots@[si].location {
                Option::Some(l2) => {
                    if l2.archetype == ai {
                        let e2 = m.archetypes@[ai].entities@[l2.row as int];
                        assert(e2.index == si);
                        assert(l2.row as int != r0);
                        assert(l2.row as int != last);
                        assert(f.archetypes@[ai].entities@[l2.row as int] == e2);
                    }
                },
                Option::None => {},
            }
        }
    }
    assert forall|a2: int, r2: int|
        0 <= a2 < f.archetypes@.len() && 0 <= r2 < f.archetypes@[a2].entities@.len() implies
        f.entry_ok(a2, r2) by {
        assert(m.arch_ok(a2));
        if a2 != ai {
            assert(m.entry_ok(a2, r2));
            let e2 = m.archetypes@[a2].entities@[r2];
            assert(m.slots@[e2.index as int].location == Some(
                EntityLocation { archetype: a2 as usize, row: r2 as usize },
            ));
            assert(e2.index != e.index);
            assert(r0 < last ==> e2.index != moved.index);
            assert(f.slots@[e2.index as int] == m.slots@[e2.index as int]);
        } else if r2 == r0 {
            assert(r0 < last);
            assert(f.archetypes@[ai].entities@[r2] == moved);
        } else {
            assert(m.entry_ok(ai, r2));
            let e2 = m.archetypes@[ai].entities@[r2];
            assert(e2.index != e.index);
            assert(r0 < last ==> e2.index != moved.index);
            assert(f.archetypes@[ai].entities@[r2] == e2);
            assert(f.slots@[e2.index as int] == m.slots@[e2.index as int]);
        }
    }
    assert forall|a2: int| 0 <= a2 < f.archetypes@.len() implies f.arch_ok(a2) by {
        assert(m.arch_ok(a2));
        if a2 == ai {
            assert forall|r2: int| 0 <= r2 < f.archetypes@[ai].rows@.len() implies distinct_types(
                #[trigger] f.archetypes@[ai].rows@[r2]@,
            ) && same_type_set(types_of(f.archetypes@[ai].rows@[r2]@), f.archetypes@[
                ai
            ].signature@) by {
                if r2 == r0 {
                    assert(f.archetypes@[ai].rows@[r2] == m.archetypes@[ai].rows@[last]);
                } else {
                    assert(f.archetypes@[ai].rows@[r2] == m.archetypes@[ai].rows@[r2]);
                }
            }
            assert(f.archetypes@[ai].wf());
        }
    }
    assert forall|a2: int, aj: int| 0 <= a2 < aj < f.archetypes@.len() implies !same_type_set(
        #[trigger] f.archetypes@[a2].signature@,
        #[trigger] f.archetypes@[aj].signature@,
    ) by {
        assert(f.archetypes@[a2].signature@ == m.archetypes@[a2].signature@);
        assert(f.archetypes@[aj].signature@ == m.archetypes@[aj].signature@);
    }
    assert forall|k: int| 0 <= k < f.free@.len() implies f.free_ok(k) by {
        assert(m.free_ok(k));
        assert(m.free@.contains(m.free@[k]));
        assert(m.free@[k] != e.index);
        assert(r0 < last ==> m.free@[k] != moved.index);
    }
    assert(f.wf());
    assert forall|e2: Entity| e2 != e implies f.has_entity(e2) == m.has_entity(e2) by {
        if e2.index == e.index {
            assert(f.slots@[e2.index as int].location is None);
            if m.has_entity(e2) {
                assert(e2.generation == e.generation);
                assert(e2 == e);
            }
        } else if r0 < last && e2.index == moved.index {
            assert(f.slots@[e2.index as int].generation == moved.generation);
            assert(f.slots@[e2.index as int].location is Some);
            assert(m.slots@[e2.index as int].location is Some);
        } else if e2.index < m.slots@.len() {
            assert(f.slots@[e2.index as int] == m.slots@[e2.index as int]);
        }
    }
    assert forall|e2: Entity| e2 != e && m.has_entity(e2) implies #[trigger] f.row_of(e2)
        == m.row_of(e2) by {
        assert(m.slot_ok(e2.index as int));
        assert(e2.index != e.index);
        if r0 < last && e2.index == moved.index {
            assert(e2 == moved);
            assert(f.loc_of(e2) == (EntityLocation { archetype: ai as usize, row: r0 as usize }));
            assert(f.archetypes@[ai].rows@[r0] == m.archetypes@[ai].rows@[last]);
        } else {
            assert(f.slots@[e2.index as int] == m.slots@[e2.index as int]);
            let l2 = m.loc_of(e2);
            if l2.archetype == ai {
                let er = m.archetypes@[ai].entities@[l2.row as int];
                assert(er.index == e2.index);
                assert(l2.row as int != r0);
                assert(l2.row as int != last);
                assert(f.archetypes@[ai].rows@[l2.row as int] == m.archetypes@[ai].rows@[
                    l2.row as int
                ]);
            }
        }
    }
}

/// Rewriting one row in place (with the same component types) preserves
/// well-formedness and touches no other entity.
proof fn update_row_model(m: World, f: World, e: Entity, newrow: Seq<Component>)
    requires
        m.wf(),
        m.has_entity(e),
        distinct_types(newrow),
        types_of(newrow) == types_of(m.row_of(e)),
        f.slots@ == m.slots@,
        f.free@ == m.free@,
        f.archetypes@.len() == m.archetypes@.len(),
        ({
            let ai = m.loc_of(e).archetype as int;
            let r0 = m.loc_of(e).row as int;
            &&& forall|aj: int|
                0 <= aj < m.archetypes@.len() && aj != ai ==> f.archetypes@[aj]
                    == m.archetypes@[aj]
            &&& f.archetypes@[ai].signature@ == m.archetypes@[ai].signature@
            &&& f.archetypes@[ai].entities@ == m.archetypes@[ai].entities@
            &&& f.archetypes@[ai].rows@.len() == m.archetypes@[ai].rows@.len()
            &&& forall|r: int|
                0 <= r < m.archetypes@[ai].rows@.len() && r != r0 ==> f.archetypes@[ai].rows@[r]
                    == m.archetypes@[ai].rows@[r]
            &&& f.archetypes@[ai].rows@[r0]@ == newrow
        }),
    ensures
        f.wf(),
        f.has_entity(e),
        f.row_of(e) == newrow,
        f.same_except(m, e),
        forall|e2: Entity| f.has_entity(e2) == m.has_entity(e2),
{
    let ai = m.loc_of(e).archetype as int;
    let r0 = m.loc_of(e).row as int;
    assert(m.slot_ok(e.index as int));
    assert(m.arch_ok(ai));
    assert(m.archetypes.len() == m.archetypes@.len());
    assert(m.slots.len() == m.slots@.len());
    assert forall|si: int| 0 <= si < f.slots@.len() implies f.slot_ok(si) by {
        assert(m.slot_ok(si));
        match m.slots@[si].location {
            Option::Some(l2) => {
                assert(f.archetypes@[l2.archetype as int].entities@ == m.archetypes@[
                    l2.archetype as int
                ].entities@);
            },
            Option::None => {},
        }
    }
    assert forall|a2: int, r2: int|
        0 <= a2 < f.archetypes@.len() && 0 <= r2 < f.archetypes@[a2].entities@.len() implies
        f.entry_ok(a2, r2) by {
        assert(m.entry_ok(a2, r2));
        assert(f.archetypes@[a2].entities@ == m.archetypes@[a2].entities@);
    }
    assert forall|a2: int| 0 <= a2 < f.archetypes@.len() implies f.arch_ok(a2) by {
        assert(m.arch_ok(a2));
        if a2 == ai {
            assert(same_type_set(types_of(m.row_of(e)), m.archetypes@[ai].signature@));
            assert forall|r2: int| 0 <= r2 < f.archetypes@[ai].rows@.len() implies distinct_types(
                #[trigger] f.archetypes@[ai].rows@[r2]@,
            ) && same_type_set(types_of(f.archetypes@[ai].rows@[r2]@), f.archetypes@[
                ai
            ].signature@) by {
                if r2 != r0 {
                    assert(f.archetypes@[ai].rows@[r2] == m.archetypes@[ai].rows@[r2]);
                }
            }
            assert(f.archetypes@[ai].wf());
        }
    }
    assert forall|a2: int, aj: int| 0 <= a2 < aj < f.archetypes@.len() implies !same_type_set(
        #[trigger] f.archetypes@[a2].signature@,
        #[trigger] f.archetypes@[aj].signature@,
    ) by {
        assert(f.archetypes@[a2].signature@ == m.archetypes@[a2].signature@);
        assert(f.archetypes@[aj].signature@ == m.archetypes@[aj].signature@);
    }
    assert forall|k: int| 0 <= k < f.free@.len() implies f.free_ok(k) by {
        assert(m.free_ok(k));
    }
    assert(f.wf());
    assert forall|e2: Entity| e2 != e && m.has_entity(e2) implies #[trigger] f.row_of(e2)
        == m.row_of(e2) by {
        assert(m.slot_ok(e2.index as int));
        let l2 = m.loc_of(e2);
        if l2.archetype as int == ai {
            assert(m.archetypes@[ai].entities@[r0] == e);
            assert(m.archetypes@[ai].entities@[l2.row as int] == e2);
            assert(l2.row as int != r0);
            assert(f.archetypes@[ai].rows@[l2.row as int] == m.archetypes@[ai].rows@[
                l2.row as int
            ]);
        }
    }
}

/// The component a live entity's map holds for `t` is of type `t`.
pub proof fn lemma_component_type(w: World, e: Entity, t: ComponentTypeId)
    requires
        w.entity_has(e, t),
    ensures
        w.components_of(e).dom().contains(t),
        w.components_of(e)[t].spec_type_id() == t,
{
    let row = w.row_of(e);
    let i = row_index_of(row, t);
    assert(0 <= i < row.len() && row[i].spec_type_id() == t);
}

/// Rows are injective: no entity occupies two rows.
pub proof fn lemma_rows_injective(w: World, a1: int, r1: int, a2: int, r2: int)
    requires
        w.wf(),
        0 <= a1 < w.archetypes@.len(),
        0 <= r1 < w.archetypes@[a1].entities@.len(),
        0 <= a2 < w.archetypes@.len(),
        0 <= r2 < w.archetypes@[a2].entities@.len(),
        w.archetypes@[a1].entities@[r1] == w.archetypes@[a2].entities@[r2],
    ensures
        a1 == a2,
        r1 == r2,
{
    assert(w.archetypes.len() == w.archetypes@.len());
    assert(w.archetypes@[a1].entities.len() == w.archetypes@[a1].entities@.len());
    assert(w.archetypes@[a2].entities.len() == w.archetypes@[a2].entities@.len());
    assert(w.entry_ok(a1, r1));
    assert(w.entry_ok(a2, r2));
}

/// The type identifiers of the components of a row.
fn types_of_vec(row: &Vec<Component>) -> (r: Vec<ComponentTypeId>)
    ensures
        r@ == types_of(row@),
{
    let mut r: Vec<ComponentTypeId> = Vec::new();
    let mut i: usize = 0;
    while i < row.len()
        invariant
            i <= row@.len(),
            r@.len() == i,
            forall|j: int| 0 <= j < i ==> r@[j] == row@[j].spec_type_id(),
        decreases row@.len() - i,
    {
        r.push(row[i].type_id());
        i += 1;
    }
    proof {
        assert(r@ =~= types_of(row@));
    }
    r
}

/// Decides whether two signatures hold the same set of identifiers.
fn same_id_set(a: &Vec<ComponentTypeId>, b: &Vec<ComponentTypeId>) -> (r: bool)
    ensures
        r == same_type_set(a@, b@),
{
    let mut i: usize = 0;
    while i < a.len()
        invariant
            i <= a@.len(),
            forall|j: int| 0 <= j < i ==> b@.contains(#[trigger] a@[j]),
        decreases a@.len() - i,
    {
        if !crate::permissions::id_vec_contains(b, a[i]) {
            proof {
                assert(a@.contains(a@[i as int]));
            }
            return false;
        }
        i += 1;
    }
    let mut k: usize = 0;
    while k < b.len()
        invariant
            k <= b@.len(),
            forall|j: int| 0 <= j < a@.len() ==> b@.contains(#[trigger] a@[j]),
            forall|j: int| 0 <= j < k ==> a@.contains(#[trigger] b@[j]),
        decreases b@.len() - k,
    {
        if !crate::permissions::id_vec_contains(a, b[k]) {
            proof {
                assert(b@.contains(b@[k as int]));
            }
            return false;
        }
        k += 1;
    }
    proof {
        assert forall|t: ComponentTypeId| a@.contains(t) == b@.contains(t) by {
            if a@.contains(t) {
                let j = choose|j: int| 0 <= j < a@.len() && a@[j] == t;
                assert(b@.contains(a@[j]));
            }
            if b@.contains(t) {
                let j = choose|j: int| 0 <= j < b@.len() && b@[j] == t;
                assert(a@.contains(b@[j]));
            }
        }
    }
    true
}

impl World {
    /// Finds the archetype whose signature is exactly this set of types.
    fn find_archetype(&self, types: &Vec<ComponentTypeId>) -> (r: Option<usize>)
        ensures
            match r {
                Option::Some(ai) => ai < self.archetypes@.len() && same_type_set(
                    self.archetypes@[ai as int].signature@,
                    types@,
                ),
                Option::None => forall|aj: int|
                    0 <= aj < self.archetypes@.len() ==> !same_type_set(
                        #[trigger] self.archetypes@[aj].signature@,
                        types@,
                    ),
            },
    {
        let mut ai: usize = 0;
        while ai < self.archetypes.len()
            invariant
                ai <= self.archetypes@.len(),
                forall|aj: int|
                    0 <= aj < ai ==> !same_type_set(
                        #[trigger] self.archetypes@[aj].signature@,
                        types@,
                    ),
            decreases self.archetypes@.len() - ai,
        {
            if same_id_set(&self.archetypes[ai].signature, types) {
                return Some(ai);
            }
            ai += 1;
        }
        None
    }

    /// Inserts a component row for a currently locationless entity `e`,
    /// creating the archetype of the row's type set on first use.
    fn attach_row(&mut self, e: Entity, row: Vec<Component>) -> (ri: usize)
        requires
            old(self).wf(),
            e.index < old(self).slots@.len(),
            old(self).slots@[e.index as int].generation == e.generation,
            old(self).slots@[e.index as int].location is None,
            !old(self).free@.contains(e.index),
            distinct_types(row@),
        ensures
            final(self).wf(),
            final(self).has_entity(e),
            final(self).row_of(e) == row@,
            final(self).same_except(*old(self), e),
            final(self).slots@.len() == old(self).slots@.len(),
            final(self).free@ == old(self).free@,
            forall|si: int|
                0 <= si < old(self).slots@.len() ==> final(self).slots@[si].generation == old(
                    self,
                ).slots@[si].generation,
    {
        let types = types_of_vec(&row);
        let ai: usize = match self.find_archetype(&types) {
            Option::Some(ai) => ai,
            Option::None => {
                let a = Archetype { signature: types, entities: Vec::new(), rows: Vec::new() };
                self.archetypes.push(a);
                proof {
                    let m = *self;
                    let prev = *old(self);
                    let nai = m.archetypes@.len() - 1;
                    assert forall|i: int, j: int|
                        0 <= i < j < m.archetypes@[nai].signature@.len() implies m.archetypes@[
                        nai
                    ].signature@[i] != m.archetypes@[nai].signature@[j] by {
                        assert(row@[i].spec_type_id() != row@[j].spec_type_id());
                    }
                    assert(m.archetypes@[nai].wf());
                    assert forall|si: int| 0 <= si < m.slots@.len() implies m.slot_ok(si) by {
                        assert(prev.slot_ok(si));
                    }
                    assert forall|a2: int, r: int|
                        0 <= a2 < m.archetypes@.len() && 0 <= r < m.archetypes@[
                        a2
                    ].entities@.len() implies m.entry_ok(a2, r) by {
                        assert(a2 < nai);
                        assert(prev.entry_ok(a2, r));
                    }
                    assert forall|a2: int| 0 <= a2 < m.archetypes@.len() implies m.arch_ok(
                        a2,
                    ) by {
                        if a2 < nai {
                            assert(prev.arch_ok(a2));
                        }
                    }
                    assert forall|k: int| 0 <= k < m.free@.len() implies m.free_ok(k) by {
                        assert(prev.free_ok(k));
                    }
                    assert(m.wf());
                }
                self.archetypes.len() - 1
            },
        };
        proof {
            assert(same_type_set(self.archetypes@[ai as int].signature@, types_of(row@)));
        }
        let ghost mid = *self;
        proof {
            // nothing about the entity population changed while ensuring the
            // archetype exists
            assert(mid.slots@ == old(self).slots@);
            assert(mid.free@ == old(self).free@);
            assert(forall|aj: int|
                0 <= aj < old(self).archetypes@.len() ==> mid.archetypes@[aj] == old(
                    self,
                ).archetypes@[aj]);
        }
        let ghost rowseq = row@;
        let ri = self.archetypes[ai].entities.len();
        let arch = vec_get_mut(&mut self.archetypes, ai);
        arch.entities.push(e);
        arch.rows.push(row);
        self.slots[e.index] = Slot {
            generation: e.generation,
            location: Some(EntityLocation { archetype: ai, row: ri }),
        };
        proof {
            arch_extension_preserves_model(*old(self), mid);
            assert(mid.arch_ok(ai as int));
            attach_row_model(mid, *self, e, rowseq, ai as int, ri as int);
            assert forall|e2: Entity| e2 != e implies self.has_entity(e2) == old(
                self,
            ).has_entity(e2) by {
                assert(self.has_entity(e2) == mid.has_entity(e2));
            }
            assert forall|e2: Entity| e2 != e && old(self).has_entity(e2) implies #[trigger]
            self.row_of(e2) == old(self).row_of(e2) by {
                assert(mid.has_entity(e2));
                assert(self.row_of(e2) == mid.row_of(e2));
                assert(mid.row_of(e2) == old(self).row_of(e2));
            }
        }
        ri
    }

    /// Creates an entity whose component set is exactly `components`, in the
    /// archetype matching that signature (created on first use). The new
    /// identifier never collides with a live one, and no identifier this
    /// world ever removed reaches it.
    pub fn push(&mut self, components: Vec<Component>) -> (e: Entity)
        requires
            old(self).wf(),
            distinct_types(components@),
        ensures
            final(self).wf(),
            !old(self).has_entity(e),
            final(self).has_entity(e),
            final(self).row_of(e) == components@,
            final(self).components_of(e) == row_map(components@),
            final(self).same_except(*old(self), e),
    {
        let e: Entity;
        if self.free.len() > 0 {
            let k = self.free.len() - 1;
            let idx = self.free[k];
            proof {
                assert(old(self).free_ok(k as int));
            }
            self.free.pop();
            let g = self.slots[idx].generation;
            e = Entity { index: idx, generation: g };
            proof {
                assert forall|k2: int| 0 <= k2 < self.free@.len() implies self.free_ok(k2) by {
                    assert(old(self).free_ok(k2));
                }
                assert forall|si: int| 0 <= si < self.slots@.len() implies self.slot_ok(si) by {
                    assert(old(self).slot_ok(si));
                }
                assert forall|a2: int, r: int|
                    0 <= a2 < self.archetypes@.len() && 0 <= r < self.archetypes@[
                    a2
                ].entities@.len() implies self.entry_ok(a2, r) by {
                    assert(old(self).entry_ok(a2, r));
                }
                assert forall|a2: int| 0 <= a2 < self.archetypes@.len() implies self.arch_ok(
                    a2,
                ) by {
                    assert(old(self).arch_ok(a2));
                }
                assert(self.wf());
                assert(!self.free@.contains(idx)) by {
                    if self.free@.contains(idx) {
                        let j = choose|j: int|
                            0 <= j < self.free@.len() && self.free@[j] == idx;
                        assert(old(self).free@[j] == old(self).free@[k as int]);
                    }
                }
            }
        } else {
            let idx = self.slots.len();
            self.slots.push(Slot { generation: 0, location: None });
            e = Entity { index: idx, generation: 0 };
            proof {
                assert forall|si: int| 0 <= si < self.slots@.len() implies self.slot_ok(si) by {
                    if si < idx {
                        assert(old(self).slot_ok(si));
                    }
                }
                assert forall|a2: int, r: int|
                    0 <= a2 < self.archetypes@.len() && 0 <= r < self.archetypes@[
                    a2
                ].entities@.len() implies self.entry_ok(a2, r) by {
                    assert(old(self).entry_ok(a2, r));
                }
                assert forall|a2: int| 0 <= a2 < self.archetypes@.len() implies self.arch_ok(
                    a2,
                ) by {
                    assert(old(self).arch_ok(a2));
                }
                assert forall|k2: int| 0 <= k2 < self.free@.len() implies self.free_ok(k2) by {
                    assert(old(self).free_ok(k2));
                }
                assert(self.wf());
                assert(!self.free@.contains(e.index)) by {
                    if self.free@.contains(e.index) {
                        let j = choose|j: int|
                            0 <= j < self.free@.len() && self.free@[j] == e.index;
                        assert(old(self).free_ok(j));
                    }
                }
            }
        }
        let ghost pre = *self;
        proof {
            assert forall|e2: Entity| pre.has_entity(e2) == old(self).has_entity(e2) by {
                if e2.index < old(self).slots@.len() {
                    assert(pre.slots@[e2.index as int] == old(self).slots@[e2.index as int]);
                }
            }
            assert forall|e2: Entity| old(self).has_entity(e2) implies #[trigger] pre.row_of(e2)
                == old(self).row_of(e2) by {
                assert(pre.slots@[e2.index as int] == old(self).slots@[e2.index as int]);
            }
            assert(!old(self).has_entity(e));
        }
        self.attach_row(e, components);
        proof {
            assert forall|e2: Entity| e2 != e implies self.has_entity(e2) == old(
                self,
            ).has_entity(e2) by {
                assert(self.has_entity(e2) == pre.has_entity(e2));
            }
            assert forall|e2: Entity| e2 != e && old(self).has_entity(e2) implies #[trigger]
            self.row_of(e2) == old(self).row_of(e2) by {
                assert(pre.has_entity(e2));
                assert(self.row_of(e2) == pre.row_of(e2));
            }
        }
        e
    }

    /// Removes the entity, invalidating its identifier: the freed index slot
    /// gets a higher generation before it can be reused. Removing an
    /// identifier that is not live leaves the world unchanged.
    pub fn remove(&mut self, e: Entity) -> (removed: bool)
        requires
            old(self).wf(),
        ensures
            final(self).wf(),
            removed == old(self).has_entity(e),
            !final(self).has_entity(e),
            final(self).same_except(*old(self), e),
    {
        if !self.contains(e) {
            return false;
        }
        let _row = self.detach_row(e);
        let ghost mid = *self;
        let g = self.slots[e.index].generation;
        if g < u64::MAX {
            self.slots[e.index] = Slot { generation: g + 1, location: None };
            self.free.push(e.index);
            proof {
                assert forall|si: int| 0 <= si < self.slots@.len() implies self.slot_ok(si) by {
                    assert(mid.slot_ok(si));
                }
                assert forall|a2: int, r: int|
                    0 <= a2 < self.archetypes@.len() && 0 <= r < self.archetypes@[
                    a2
                ].entities@.len() implies self.entry_ok(a2, r) by {
                    assert(mid.entry_ok(a2, r));
                    let e2 = mid.archetypes@[a2].entities@[r];
                    assert(mid.slots@[e2.index as int].location is Some);
                    assert(e2.index != e.index);
                }
                assert forall|a2: int| 0 <= a2 < self.archetypes@.len() implies self.arch_ok(
                    a2,
                ) by {
                    assert(mid.arch_ok(a2));
                }
                assert(mid.slots.len() == mid.slots@.len());
                assert forall|k2: int| 0 <= k2 < self.free@.len() implies self.free_ok(k2) by {
                    if k2 < mid.free@.len() {
                        assert(mid.free_ok(k2));
                        assert(mid.free@.contains(mid.free@[k2]));
                        assert(mid.free@[k2] != e.index);
                    }
                }
                assert forall|k1: int, k2: int| 0 <= k1 < k2 < self.free@.len() implies self.free@[
                    k1
                ] != self.free@[k2] by {
                    if k2 < mid.free@.len() {
                    } else {
                        assert(self.free@[k2] == e.index);
                        assert(mid.free@.contains(mid.free@[k1]));
                        assert(mid.free@[k1] != e.index);
                    }
                }
                assert(self.wf());
                assert forall|e2: Entity| e2 != e implies self.has_entity(e2) == mid.has_entity(
                    e2,
                ) by {
                    if e2.index == e.index {
                        assert(mid.slots@[e2.index as int].location is None);
                        assert(self.slots@[e2.index as int].location is None);
                    } else if e2.index < mid.slots@.len() {
                        assert(self.slots@[e2.index as int] == mid.slots@[e2.index as int]);
                    }
                }
                assert forall|e2: Entity| e2 != e && mid.has_entity(e2) implies #[trigger]
                self.row_of(e2) == mid.row_of(e2) by {
                    assert(e2.index != e.index);
                    assert(self.slots@[e2.index as int] == mid.slots@[e2.index as int]);
                }
            }
        }
        proof {
            assert forall|e2: Entity| e2 != e implies self.has_entity(e2) == old(
                self,
            ).has_entity(e2) by {
                assert(self.has_entity(e2) == mid.has_entity(e2));
            }
            assert forall|e2: Entity| e2 != e && old(self).has_entity(e2) implies #[trigger]
            self.row_of(e2) == old(self).row_of(e2) by {
                assert(mid.has_entity(e2));
                assert(self.row_of(e2) == mid.row_of(e2));
            }
        }
        true
    }

    /// Opens a read entry for a live entity with the unrestricted access of
    /// the store's exclusive owner. Fails with `AccessDenied` exactly when
    /// the entity is not live.
    pub fn entry_ref(&self, e: Entity) -> (r: Result<crate::entry::EntryRef, crate::access::Error>)
        ensures
            r is Ok <==> self.has_entity(e),
            r matches Err(er) ==> er == crate::access::Error::AccessDenied,
            r matches Ok(entry) ==> ({
                &&& entry.entity == e
                &&& forall|t: ComponentTypeId| entry.access.allows_read(t)
                    && entry.access.allows_write(t)
            }),
    {
        if self.contains(e) {
            Ok(crate::entry::EntryRef { entity: e, access: crate::access::ComponentAccess::All })
        } else {
            Err(crate::access::Error::AccessDenied)
        }
    }

    /// Opens a write entry for a live entity with the unrestricted access
    /// of the store's exclusive owner. Fails with `AccessDenied` exactly
    /// when the entity is not live.
    pub fn entry_mut(&mut self, e: Entity) -> (r: Result<
        crate::entry::EntryMut,
        crate::access::Error,
    >)
        ensures
            *final(self) == *old(self),
            r is Ok <==> old(self).has_entity(e),
            r matches Err(er) ==> er == crate::access::Error::AccessDenied,
            r matches Ok(entry) ==> ({
                &&& entry.entity == e
                &&& forall|t: ComponentTypeId| entry.access.allows_read(t)
                    && entry.access.allows_write(t)
            }),
    {
        if self.contains(e) {
            Ok(crate::entry::EntryMut { entity: e, access: crate::access::ComponentAccess::All })
        } else {
            Err(crate::access::Error::AccessDenied)
        }
    }

    /// Replaces the value of a component the entity already has. The
    /// component's type is taken from the value. Returns whether the entity
    /// was live and had the type; otherwise nothing changes.
    pub fn replace_component(&mut self, e: Entity, c: Component) -> (had: bool)
        requires
            old(self).wf(),
        ensures
            final(self).wf(),
            had == old(self).entity_has(e, c.spec_type_id()),
            !had ==> *final(self) == *old(self),
            had ==> final(self).has_entity(e) && final(self).components_of(e) == old(
                self,
            ).components_of(e).insert(c.spec_type_id(), c),
            final(self).same_except(*old(self), e),
            forall|e2: Entity| final(self).has_entity(e2) == old(self).has_entity(e2),
    {
        let l = match self.locate(e) {
            Option::Some(l) => l,
            Option::None => {
                return false;
            },
        };
        proof {
            assert(old(self).slot_ok(e.index as int));
            assert(old(self).arch_ok(l.archetype as int));
        }
        let t = c.type_id();
        let ci = match row_find(&self.archetypes[l.archetype].rows[l.row], t) {
            Option::Some(ci) => ci,
            Option::None => {
                return false;
            },
        };
        let ghost oldrow = old(self).row_of(e);
        let arch = vec_get_mut(&mut self.archetypes, l.archetype);
        let rowv = vec_get_mut(&mut arch.rows, l.row);
        rowv[ci] = c;
        proof {
            lemma_row_map_update(oldrow, ci as int, c);
            update_row_model(*old(self), *self, e, oldrow.update(ci as int, c));
        }
        true
    }

    /// Gives the entity the component `c`, replacing the old value if it
    /// already has the type and migrating the entity to the extended
    /// archetype if not. Returns whether the entity was live; otherwise
    /// nothing changes.
    pub fn add_component(&mut self, e: Entity, c: Component) -> (ok: bool)
        requires
            old(self).wf(),
        ensures
            final(self).wf(),
            ok == old(self).has_entity(e),
            !ok ==> *final(self) == *old(self),
            ok ==> final(self).has_entity(e) && final(self).components_of(e) == old(
                self,
            ).components_of(e).insert(c.spec_type_id(), c),
            final(self).same_except(*old(self), e),
            forall|e2: Entity| final(self).has_entity(e2) == old(self).has_entity(e2),
    {
        if !self.contains(e) {
            return false;
        }
        let t = c.type_id();
        let has = match self.get_component(e, t) {
            Option::Some(_) => true,
            Option::None => false,
        };
        if has {
            let _ = self.replace_component(e, c);
            return true;
        }
        let ghost oldrow = old(self).row_of(e);
        let mut row = self.detach_row(e);
        let ghost mid = *self;
        row.push(c);
        proof {
            lemma_row_map_push(oldrow, c);
        }
        self.attach_row(e, row);
        proof {
            assert forall|e2: Entity| e2 != e implies self.has_entity(e2) == old(
                self,
            ).has_entity(e2) by {
                assert(self.has_entity(e2) == mid.has_entity(e2));
            }
            assert forall|e2: Entity| e2 != e && old(self).has_entity(e2) implies #[trigger]
            self.row_of(e2) == old(self).row_of(e2) by {
                assert(mid.has_entity(e2));
                assert(self.row_of(e2) == mid.row_of(e2));
            }
        }
        true
    }

    /// Takes the component of type `t` away from the entity, migrating it
    /// to the shrunk archetype. Returns whether the entity was live and had
    /// the type; otherwise nothing changes.
    pub fn remove_component(&mut self, e: Entity, t: ComponentTypeId) -> (had: bool)
        requires
            old(self).wf(),
        ensures
            final(self).wf(),
            had == old(self).entity_has(e, t),
            !had ==> *final(self) == *old(self),
            had ==> final(self).has_entity(e) && final(self).components_of(e) == old(
                self,
            ).components_of(e).remove(t),
            final(self).same_except(*old(self), e),
            forall|e2: Entity| final(self).has_entity(e2) == old(self).has_entity(e2),
    {
        let l = match self.locate(e) {
            Option::Some(l) => l,
            Option::None => {
                return false;
            },
        };
        proof {
            assert(old(self).slot_ok(e.index as int));
            assert(old(self).arch_ok(l.archetype as int));
        }
        let ci = match row_find(&self.archetypes[l.archetype].rows[l.row], t) {
            Option::Some(ci) => ci,
            Option::None => {
                return false;
            },
        };
        let ghost oldrow = old(self).row_of(e);
        let mut row = self.detach_row(e);
        let ghost mid = *self;
        let _ = row.swap_remove(ci);
        proof {
            lemma_row_map_swap_remove(oldrow, ci as int);
        }
        self.attach_row(e, row);
        proof {
            assert forall|e2: Entity| e2 != e implies self.has_entity(e2) == old(
                self,
            ).has_entity(e2) by {
                assert(self.has_entity(e2) == mid.has_entity(e2));
            }
            assert forall|e2: Entity| e2 != e && old(self).has_entity(e2) implies #[trigger]
            self.row_of(e2) == old(self).row_of(e2) by {
                assert(mid.has_entity(e2));
                assert(self.row_of(e2) == mid.row_of(e2));
            }
        }
        true
    }

    /// Removes a live entity's row from its archetype (the last row of that
    /// archetype fills the gap) and clears the entity's slot, leaving its
    /// generation untouched. Returns the removed row.
    fn detach_row(&mut self, e: Entity) -> (row: Vec<Component>)
        requires
            old(self).wf(),
            old(self).has_entity(e),
        ensures
            final(self).wf(),
            row@ == old(self).row_of(e),
            distinct_types(row@),
            !final(self).has_entity(e),
            final(self).same_except(*old(self), e),
            final(self).slots@.len() == old(self).slots@.len(),
            final(self).free@ == old(self).free@,
            final(self).slots@[e.index as int].generation == e.generation,
            final(self).slots@[e.index as int].location is None,
            !final(self).free@.contains(e.index),
            forall|si: int|
                0 <= si < old(self).slots@.len() ==> final(self).slots@[si].generation == old(
                    self,
                ).slots@[si].generation,
    {
        let l = match self.locate(e) {
            Option::Some(l) => l,
            Option::None => {
                proof {
                    assert(false);
                }
                EntityLocation { archetype: 0, row: 0 }
            },
        };
        proof {
            assert(old(self).slot_ok(e.index as int));
            assert(old(self).arch_ok(l.archetype as int));
            assert(old(self).entry_ok(l.archetype as int, l.row as int));
            assert(old(self).entry_ok(
                l.archetype as int,
                old(self).archetypes@[l.archetype as int].entities@.len() - 1,
            ));
            assert(old(self).archetypes@[l.archetype as int].entities.len() == old(
                self,
            ).archetypes@[l.archetype as int].entities@.len());
        }
        let arch = vec_get_mut(&mut self.archetypes, l.archetype);
        let _removed = arch.entities.swap_remove(l.row);
        let row = arch.rows.swap_remove(l.row);
        self.slots[e.index] = Slot { generation: e.generation, location: None };
        if l.row < self.archetypes[l.archetype].entities.len() {
            let moved = self.archetypes[l.archetype].entities[l.row];
            self.slots[moved.index] = Slot {
                generation: moved.generation,
                location: Some(EntityLocation { archetype: l.archetype, row: l.row }),
            };
        }
        proof {
            detach_row_model(*old(self), *self, e);
        }
        row
    }
}

/// Borrows one element of a vector mutably; the vector afterwards holds
/// whatever the borrow was left at.
pub(crate) fn vec_get_mut<T>(v: &mut Vec<T>, i: usize) -> (r: &mut T)
    requires
        i < old(v).len(),
    ensures
        *r == old(v)@[i as int],
        final(v)@ == old(v)@.update(i as int, *final(r)),
{
    &mut v[i]
}

} // verus!
