//! The game's update routines. Each one declares what it reads and writes,
//! receives a handle over the store plus a command buffer, and defers every
//! structural edit to that buffer.

pub mod collisions;
pub mod end_turn;
pub mod player_input;
pub mod tooltips;

use vstd::prelude::*;
use crate::access::ComponentAccess;
use crate::components::Component;
use crate::components::Point;
use crate::components::POSITION_TYPE;
use crate::permissions::ComponentTypeId;
use crate::query::EntityFilter;
use crate::query::SystemView;
use crate::query::matches_types;
use crate::world::Entity;
use crate::world::World;
use crate::world::lemma_component_type;

verus! {

/// The position component of a live entity, read as a plain point.
pub open spec fn position_of(w: World, e: Entity) -> Point {
    match w.components_of(e)[POSITION_TYPE] {
        Component::Position(p) => p,
        _ => Point { x: 0, y: 0 },
    }
}

/// Reads an entity's position.
pub(crate) fn read_position(ecs: &World, e: Entity) -> (p: Point)
    requires
        ecs.wf(),
        ecs.entity_has(e, POSITION_TYPE),
    ensures
        p == position_of(*ecs, e),
{
    match ecs.get_component(e, POSITION_TYPE) {
        Option::Some(c) => {
            proof {
                lemma_component_type(*ecs, e, POSITION_TYPE);
            }
            match c {
                Component::Position(p) => *p,
                _ => {
                    proof {
                        assert(false);
                    }
                    Point { x: 0, y: 0 }
                },
            }
        },
        Option::None => {
            proof {
                assert(false);
            }
            Point { x: 0, y: 0 }
        },
    }
}

/// The view that reads `read_t` over entities filtered to carry `filter_t`.
pub(crate) fn read_filter_view(read_t: ComponentTypeId, filter_t: ComponentTypeId) -> (v:
    SystemView)
    ensures
        forall|sig: Seq<ComponentTypeId>| #[trigger]
            v.matches_sig(sig) == matches_types(sig, seq![read_t, filter_t], Seq::empty()),
        forall|a: ComponentAccess| #[trigger] v.access_valid(a) == a.allows_read(read_t),
{
    let mut reads: Vec<ComponentTypeId> = Vec::new();
    reads.push(read_t);
    let v = SystemView { reads, writes: Vec::new(), filter: EntityFilter::component(filter_t) };
    proof {
        assert(v.reads@[0] == read_t);
        assert(v.reads@.contains(read_t));
        let needed = seq![read_t, filter_t];
        assert(needed[0] == read_t && needed[1] == filter_t);
        assert(needed.contains(read_t) && needed.contains(filter_t));
        assert forall|sig: Seq<ComponentTypeId>| #[trigger]
            v.matches_sig(sig) == matches_types(sig, needed, Seq::empty()) by {
            if v.matches_sig(sig) {
                assert(sig.contains(read_t));
                assert(v.filter.passes(sig));
                assert(sig.contains(filter_t));
                assert forall|t: ComponentTypeId| needed.contains(t) implies sig.contains(t) by {
                    let j = choose|j: int| 0 <= j < needed.len() && needed[j] == t;
                    assert(t == read_t || t == filter_t);
                }
            }
            if matches_types(sig, needed, Seq::empty()) {
                assert(sig.contains(read_t) && sig.contains(filter_t));
                assert forall|t: ComponentTypeId| v.reads@.contains(t) implies sig.contains(
                    t,
                ) by {
                    let j = choose|j: int| 0 <= j < v.reads@.len() && v.reads@[j] == t;
                    assert(t == read_t);
                }
                assert(v.filter.passes(sig));
            }
        }
        assert forall|a: ComponentAccess| #[trigger]
            v.access_valid(a) == a.allows_read(read_t) by {
            if v.access_valid(a) {
                assert(a.allows_read(read_t));
            }
            if a.allows_read(read_t) {
                assert forall|t: ComponentTypeId| v.reads@.contains(t) implies a.allows_read(
                    t,
                ) by {
                    let j = choose|j: int| 0 <= j < v.reads@.len() && v.reads@[j] == t;
                    assert(t == read_t);
                }
            }
        }
    }
    v
}

/// The view that reads `t1` and `t2` over every entity carrying both.
pub(crate) fn reads_pair_view(t1: ComponentTypeId, t2: ComponentTypeId) -> (v: SystemView)
    ensures
        forall|sig: Seq<ComponentTypeId>| #[trigger]
            v.matches_sig(sig) == matches_types(sig, seq![t1, t2], Seq::empty()),
        forall|a: ComponentAccess| #[trigger]
            v.access_valid(a) == (a.allows_read(t1) && a.allows_read(t2)),
{
    let mut reads: Vec<ComponentTypeId> = Vec::new();
    reads.push(t1);
    reads.push(t2);
    let v = SystemView { reads, writes: Vec::new(), filter: EntityFilter::any() };
    proof {
        assert(v.reads@[0] == t1 && v.reads@[1] == t2);
        assert(v.reads@.contains(t1) && v.reads@.contains(t2));
        let needed = seq![t1, t2];
        assert(needed[0] == t1 && needed[1] == t2);
        assert(needed.contains(t1) && needed.contains(t2));
        assert forall|sig: Seq<ComponentTypeId>| #[trigger]
            v.matches_sig(sig) == matches_types(sig, needed, Seq::empty()) by {
            if v.matches_sig(sig) {
                assert(sig.contains(t1) && sig.contains(t2));
                assert forall|t: ComponentTypeId| needed.contains(t) implies sig.contains(t) by {
                    let j = choose|j: int| 0 <= j < needed.len() && needed[j] == t;
                    assert(t == t1 || t == t2);
                }
            }
            if matches_types(sig, needed, Seq::empty()) {
                assert(sig.contains(t1) && sig.contains(t2));
                assert forall|t: ComponentTypeId| v.reads@.contains(t) implies sig.contains(
                    t,
                ) by {
                    let j = choose|j: int| 0 <= j < v.reads@.len() && v.reads@[j] == t;
                    assert(t == t1 || t == t2);
                }
            }
        }
        assert forall|a: ComponentAccess| #[trigger]
            v.access_valid(a) == (a.allows_read(t1) && a.allows_read(t2)) by {
            if a.allows_read(t1) && a.allows_read(t2) {
                assert forall|t: ComponentTypeId| v.reads@.contains(t) implies a.allows_read(
                    t,
                ) by {
                    let j = choose|j: int| 0 <= j < v.reads@.len() && v.reads@[j] == t;
                    assert(t == t1 || t == t2);
                }
            }
        }
    }
    v
}

} // verus!
