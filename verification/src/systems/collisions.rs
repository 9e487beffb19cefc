//! Removes every enemy standing on the player's position. The removals are
//! recorded into a command buffer, not applied: the entities stay visible
//! to every query until the buffer's commit point.

use vstd::prelude::*;
use crate::access::Error;
use crate::command_buffer::CommandBuffer;
use crate::command_buffer::WorldOp;
use crate::components::ENEMY_TYPE;
use crate::components::PLAYER_TYPE;
use crate::components::POSITION_TYPE;
use crate::components::Point;
use crate::query::Query;
use crate::query::entities_by_types;
use crate::query::lemma_entities_by_types;
use crate::query::lemma_query_entities_live;
use crate::subworld::SubWorld;
use crate::systems::position_of;
use crate::systems::read_filter_view;
use crate::systems::read_position;
use crate::world::Entity;
use crate::world::World;

verus! {

/// The players the handle sees, in query order.
pub open spec fn players_of(w: World, sub: SubWorld) -> Seq<Entity> {
    entities_by_types(w, sub, seq![POSITION_TYPE, PLAYER_TYPE], Seq::empty())
}

/// The enemies the handle sees, in query order.
pub open spec fn enemies_of(w: World, sub: SubWorld) -> Seq<Entity> {
    entities_by_types(w, sub, seq![POSITION_TYPE, ENEMY_TYPE], Seq::empty())
}

/// The position of the last player the query yields, or the origin when
/// there is none.
pub open spec fn last_player_pos(w: World, sub: SubWorld) -> Point {
    let ps = players_of(w, sub);
    if ps.len() == 0 {
        Point { x: 0, y: 0 }
    } else {
        position_of(w, ps.last())
    }
}

/// One removal op for each listed entity standing on `target`, in order.
pub open spec fn removals_from(w: World, entities: Seq<Entity>, target: Point) -> Seq<WorldOp>
    decreases entities.len(),
{
    if entities.len() == 0 {
        Seq::empty()
    } else {
        removals_from(w, entities.drop_last(), target) + (if position_of(w, entities.last())
            == target {
            seq![WorldOp::Remove(entities.last())]
        } else {
            Seq::empty()
        })
    }
}

/// What a collision pass records: the removal of every enemy standing on
/// the last player's position.
pub open spec fn collision_removals(w: World, sub: SubWorld) -> Seq<WorldOp> {
    removals_from(w, enemies_of(w, sub), last_player_pos(w, sub))
}

/// Records the removal of every enemy standing on the player's position.
/// Fails with `AccessDenied`, recording nothing, exactly when the handle
/// cannot read positions.
pub fn collisions(ecs: &World, sub: &SubWorld, commands: &mut CommandBuffer) -> (r: Result<
    (),
    Error,
>)
    requires
        ecs.wf(),
    ensures
        r is Ok <==> sub.components.allows_read(POSITION_TYPE),
        r matches Err(e) ==> e == Error::AccessDenied && *final(commands) == *old(commands),
        r is Ok ==> final(commands).ops@ == old(commands).ops@ + collision_removals(*ecs, *sub),
        old(commands).wf() ==> final(commands).wf(),
{
    let player_view = read_filter_view(POSITION_TYPE, PLAYER_TYPE);
    let ghost pv = player_view;
    let players = match Query::new(player_view).run(ecs, sub) {
        Result::Ok(v) => v,
        Result::Err(_) => {
            return Err(Error::AccessDenied);
        },
    };
    proof {
        lemma_entities_by_types(
            *ecs,
            *sub,
            pv,
            seq![POSITION_TYPE, PLAYER_TYPE],
            Seq::empty(),
            ecs.archetypes@.len() as int,
        );
        lemma_query_entities_live(
            *ecs,
            *sub,
            seq![POSITION_TYPE, PLAYER_TYPE],
            Seq::empty(),
            ecs.archetypes@.len() as int,
        );
        assert(players@ == players_of(*ecs, *sub));
        assert(seq![POSITION_TYPE, PLAYER_TYPE][0] == POSITION_TYPE);
    }
    let mut player_pos = Point { x: 0, y: 0 };
    let mut k: usize = 0;
    while k < players.len()
        invariant
            ecs.wf(),
            k <= players@.len(),
            players@ == players_of(*ecs, *sub),
            forall|k2: int|
                0 <= k2 < players@.len() ==> ecs.entity_has(
                    #[trigger] players@[k2],
                    POSITION_TYPE,
                ),
            player_pos == if k == 0 {
                Point { x: 0, y: 0 }
            } else {
                position_of(*ecs, players@[k - 1])
            },
        decreases players@.len() - k,
    {
        player_pos = read_position(ecs, players[k]);
        k += 1;
    }
    proof {
        assert(player_pos == last_player_pos(*ecs, *sub));
    }
    let enemy_view = read_filter_view(POSITION_TYPE, ENEMY_TYPE);
    let ghost ev = enemy_view;
    let enemies = match Query::new(enemy_view).run(ecs, sub) {
        Result::Ok(v) => v,
        Result::Err(_) => {
            proof {
                assert(false);
            }
            return Err(Error::AccessDenied);
        },
    };
    proof {
        lemma_entities_by_types(
            *ecs,
            *sub,
            ev,
            seq![POSITION_TYPE, ENEMY_TYPE],
            Seq::empty(),
            ecs.archetypes@.len() as int,
        );
        lemma_query_entities_live(
            *ecs,
            *sub,
            seq![POSITION_TYPE, ENEMY_TYPE],
            Seq::empty(),
            ecs.archetypes@.len() as int,
        );
        assert(enemies@ == enemies_of(*ecs, *sub));
        assert(seq![POSITION_TYPE, ENEMY_TYPE][0] == POSITION_TYPE);
    }
    let mut i: usize = 0;
    while i < enemies.len()
        invariant
            ecs.wf(),
            i <= enemies@.len(),
            enemies@ == enemies_of(*ecs, *sub),
            player_pos == last_player_pos(*ecs, *sub),
            forall|k2: int|
                0 <= k2 < enemies@.len() ==> ecs.entity_has(
                    #[trigger] enemies@[k2],
                    POSITION_TYPE,
                ),
            commands.ops@ == old(commands).ops@ + removals_from(
                *ecs,
                enemies@.take(i as int),
                player_pos,
            ),
            old(commands).wf() ==> commands.wf(),
        decreases enemies@.len() - i,
    {
        let e = enemies[i];
        let pos = read_position(ecs, e);
        if pos.x == player_pos.x && pos.y == player_pos.y {
            commands.remove(e);
        }
        proof {
            assert(enemies@.take(i as int + 1).drop_last() =~= enemies@.take(i as int));
            assert(enemies@.take(i as int + 1).last() == enemies@[i as int]);
            assert(commands.ops@ =~= old(commands).ops@ + removals_from(
                *ecs,
                enemies@.take(i as int + 1),
                player_pos,
            ));
        }
        i += 1;
    }
    proof {
        assert(enemies@.take(enemies@.len() as int) =~= enemies@);
    }
    Ok(())
}

} // verus!
