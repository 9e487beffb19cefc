//! Computes the tooltips to draw for the entities under the mouse: their
//! name, and their hit points where the handle may read them. Drawing is
//! left to the front end.

use vstd::prelude::*;
use crate::access::Error;
use crate::components::Component;
use crate::components::HEALTH_TYPE;
use crate::components::NAME_TYPE;
use crate::components::POSITION_TYPE;
use crate::components::Point;
use crate::query::Query;
use crate::query::entities_by_types;
use crate::query::lemma_entities_by_types;
use crate::query::lemma_query_entities_live;
use crate::subworld::SubWorld;
use crate::systems::position_of;
use crate::systems::read_position;
use crate::systems::reads_pair_view;
use crate::world::Entity;
use crate::world::World;
use crate::world::lemma_component_type;

verus! {

/// What one entity under the mouse displays: where on the screen, its
/// name, and its current hit points where they could be read.
#[derive(Debug, PartialEq)]
pub struct Tooltip {
    pub screen_pos: Point,
    pub name: String,
    pub health: Option<i32>,
}

/// The named, positioned entities the handle sees, in query order.
pub open spec fn named_of(w: World, sub: SubWorld) -> Seq<Entity> {
    entities_by_types(w, sub, seq![POSITION_TYPE, NAME_TYPE], Seq::empty())
}

/// The name component of a live entity, read as a character sequence.
pub open spec fn name_view_of(w: World, e: Entity) -> Seq<char> {
    match w.components_of(e)[NAME_TYPE] {
        Component::Name(s) => s@,
        _ => Seq::empty(),
    }
}

/// The current hit points of a live entity.
pub open spec fn health_of(w: World, e: Entity) -> i32 {
    match w.components_of(e)[HEALTH_TYPE] {
        Component::Health(h) => h.current,
        _ => 0,
    }
}

/// The listed entities standing on `map_pos`, in order.
pub open spec fn under_mouse(w: World, entities: Seq<Entity>, map_pos: Point) -> Seq<Entity>
    decreases entities.len(),
{
    if entities.len() == 0 {
        Seq::empty()
    } else {
        under_mouse(w, entities.drop_last(), map_pos) + (if position_of(w, entities.last())
            == map_pos {
            seq![entities.last()]
        } else {
            Seq::empty()
        })
    }
}

/// The tooltip computed for entity `e` under this mouse position: drawn at
/// four times the mouse position, showing the entity's name, and its hit
/// points exactly when the handle may read them and the entity has any.
pub open spec fn tooltip_ok(
    w: World,
    sub: SubWorld,
    mouse_pos: Point,
    tt: Tooltip,
    e: Entity,
) -> bool {
    &&& tt.screen_pos == mouse_pos.spec_scale(4)
    &&& tt.name@ == name_view_of(w, e)
    &&& tt.health == (if sub.components.allows_read(HEALTH_TYPE) && w.entity_has(
        e,
        HEALTH_TYPE,
    ) {
        Option::Some(health_of(w, e))
    } else {
        Option::<i32>::None
    })
}

/// Computes one tooltip per named entity under the mouse (the mouse
/// position is translated by the camera's top-left corner into map space).
/// Fails with `AccessDenied` exactly when the handle cannot read positions
/// and names.
pub fn tooltips(
    ecs: &World,
    sub: &SubWorld,
    mouse_pos: Point,
    camera_left_x: i32,
    camera_top_y: i32,
) -> (r: Result<Vec<Tooltip>, Error>)
    requires
        ecs.wf(),
    ensures
        r is Ok <==> sub.components.allows_read(POSITION_TYPE) && sub.components.allows_read(
            NAME_TYPE,
        ),
        r matches Err(e) ==> e == Error::AccessDenied,
        r matches Ok(v) ==> ({
            let hits = under_mouse(
                *ecs,
                named_of(*ecs, *sub),
                mouse_pos.spec_add(Point { x: camera_left_x, y: camera_top_y }),
            );
            &&& v@.len() == hits.len()
            &&& forall|j: int|
                0 <= j < hits.len() ==> tooltip_ok(
                    *ecs,
                    *sub,
                    mouse_pos,
                    #[trigger] v@[j],
                    hits[j],
                )
        }),
{
    let view = reads_pair_view(POSITION_TYPE, NAME_TYPE);
    let ghost pv = view;
    let named = match Query::new(view).run(ecs, sub) {
        Result::Ok(v) => v,
        Result::Err(_) => {
            return Err(Error::AccessDenied);
        },
    };
    proof {
        lemma_entities_by_types(
            *ecs,
            *sub,
            pv,
            seq![POSITION_TYPE, NAME_TYPE],
            Seq::empty(),
            ecs.archetypes@.len() as int,
        );
        lemma_query_entities_live(
            *ecs,
            *sub,
            seq![POSITION_TYPE, NAME_TYPE],
            Seq::empty(),
            ecs.archetypes@.len() as int,
        );
        assert(named@ == named_of(*ecs, *sub));
        assert(seq![POSITION_TYPE, NAME_TYPE][0] == POSITION_TYPE);
        assert(seq![POSITION_TYPE, NAME_TYPE][1] == NAME_TYPE);
    }
    let offset = Point { x: camera_left_x, y: camera_top_y };
    let map_pos = mouse_pos.add(&offset);
    let screen_pos = mouse_pos.scale(4);
    let mut out: Vec<Tooltip> = Vec::new();
    let mut j: usize = 0;
    while j < named.len()
        invariant
            ecs.wf(),
            j <= named@.len(),
            named@ == named_of(*ecs, *sub),
            map_pos == mouse_pos.spec_add(Point { x: camera_left_x, y: camera_top_y }),
            screen_pos == mouse_pos.spec_scale(4),
            forall|k2: int|
                0 <= k2 < named@.len() ==> ecs.entity_has(#[trigger] named@[k2], POSITION_TYPE),
            forall|k2: int|
                0 <= k2 < named@.len() ==> ecs.entity_has(#[trigger] named@[k2], NAME_TYPE),
            forall|k2: int|
                0 <= k2 < named@.len() ==> sub.allows_arch(
                    ecs.loc_of(#[trigger] named@[k2]).archetype,
                ),
            out@.len() == under_mouse(*ecs, named@.take(j as int), map_pos).len(),
            forall|m: int|
                0 <= m < out@.len() ==> tooltip_ok(
                    *ecs,
                    *sub,
                    mouse_pos,
                    #[trigger] out@[m],
                    under_mouse(*ecs, named@.take(j as int), map_pos)[m],
                ),
        decreases named@.len() - j,
    {
        let e = named[j];
        let pos = read_position(ecs, e);
        let ghost hits_before = under_mouse(*ecs, named@.take(j as int), map_pos);
        if pos == map_pos {
            let name = match ecs.get_component(e, NAME_TYPE) {
                Option::Some(c) => {
                    proof {
                        lemma_component_type(*ecs, e, NAME_TYPE);
                    }
                    match c {
                        Component::Name(s) => s.clone(),
                        _ => {
                            proof {
                                assert(false);
                            }
                            String::new()
                        },
                    }
                },
                Option::None => {
                    proof {
                        assert(false);
                    }
                    String::new()
                },
            };
            let health: Option<i32> = match sub.entry_ref(ecs, e) {
                Result::Ok(entry) => {
                    match entry.get_component(ecs, HEALTH_TYPE) {
                        Result::Ok(c) => {
                            proof {
                                lemma_component_type(*ecs, e, HEALTH_TYPE);
                            }
                            match c {
                                Component::Health(h) => Some(h.current),
                                _ => {
                                    proof {
                                        assert(false);
                                    }
                                    None
                                },
                            }
                        },
                        Result::Err(_) => None,
                    }
                },
                Result::Err(_) => {
                    proof {
                        assert(false);
                    }
                    None
                },
            };
            out.push(Tooltip { screen_pos, name, health });
        }
        proof {
            assert(named@.take(j as int + 1).drop_last() =~= named@.take(j as int));
            assert(named@.take(j as int + 1).last() == named@[j as int]);
            let hits_after = under_mouse(*ecs, named@.take(j as int + 1), map_pos);
            if position_of(*ecs, named@[j as int]) == map_pos {
                assert(hits_after =~= hits_before + seq![named@[j as int]]);
            } else {
                assert(hits_after =~= hits_before);
            }
        }
        j += 1;
    }
    proof {
        assert(named@.take(named@.len() as int) =~= named@);
    }
    Ok(out)
}

} // verus!
