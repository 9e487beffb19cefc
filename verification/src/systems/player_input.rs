//! Turns one key of player input into deferred movement intents and hands
//! the turn to the player phase.

use vstd::prelude::*;
use crate::access::Error;
use crate::command_buffer::CommandBuffer;
use crate::command_buffer::WorldOp;
use crate::components::Component;
use crate::components::PLAYER_TYPE;
use crate::components::POSITION_TYPE;
use crate::components::Point;
use crate::components::WantsToMove;
use crate::query::Query;
use crate::query::lemma_entities_by_types;
use crate::query::lemma_query_entities_live;
use crate::subworld::SubWorld;
use crate::systems::collisions::players_of;
use crate::systems::position_of;
use crate::systems::read_filter_view;
use crate::systems::read_position;
use crate::turn_state::TurnState;
use crate::world::World;
use crate::world::distinct_types;

verus! {

/// One key of player input, as far as movement is concerned.
#[derive(Clone, Copy, Debug, PartialEq, Eq, Structural)]
pub enum KeyCode {
    Left,
    Right,
    Up,
    Down,
    Other,
}

/// The movement a key asks for.
pub open spec fn key_delta(k: KeyCode) -> Point {
    match k {
        KeyCode::Left => Point { x: -1i32, y: 0 },
        KeyCode::Right => Point { x: 1, y: 0 },
        KeyCode::Up => Point { x: 0, y: -1i32 },
        KeyCode::Down => Point { x: 0, y: 1 },
        KeyCode::Other => Point { x: 0, y: 0 },
    }
}

/// The single component of a recorded movement intent.
pub open spec fn intent_row(e: crate::world::Entity, destination: Point) -> Seq<Component> {
    seq![Component::WantsToMove(WantsToMove { entity: e, destination })]
}

/// With a key pressed, records one movement intent per player — a fresh
/// entity carrying a `WantsToMove` towards the key's direction — and hands
/// the turn to the player phase. Without one, does nothing. Fails with
/// `AccessDenied`, changing nothing, exactly when a key is pressed but the
/// handle cannot read positions.
pub fn player_input(
    ecs: &World,
    sub: &SubWorld,
    commands: &mut CommandBuffer,
    key: &Option<KeyCode>,
    turn_state: &mut TurnState,
) -> (r: Result<(), Error>)
    requires
        ecs.wf(),
    ensures
        r is Ok <==> (key is None || sub.components.allows_read(POSITION_TYPE)),
        key is None ==> *final(commands) == *old(commands) && *final(turn_state) == *old(
            turn_state,
        ),
        r matches Err(e) ==> e == Error::AccessDenied && *final(commands) == *old(commands)
            && *final(turn_state) == *old(turn_state),
        key matches Some(k) ==> r is Ok ==> ({
            let players = players_of(*ecs, *sub);
            &&& final(commands).ops@.len() == old(commands).ops@.len() + players.len()
            &&& forall|j: int|
                0 <= j < old(commands).ops@.len() ==> final(commands).ops@[j] == old(
                    commands,
                ).ops@[j]
            &&& forall|j: int|
                0 <= j < players.len() ==> ((#[trigger] final(commands).ops@[old(
                    commands,
                ).ops@.len() + j]) matches WorldOp::Spawn(row) && row@ == intent_row(
                    players[j],
                    position_of(*ecs, players[j]).spec_add(key_delta(*k)),
                ))
            &&& *final(turn_state) == TurnState::PlayerTurn
        }),
        old(commands).wf() ==> final(commands).wf(),
{
    let kc = match key {
        Option::None => {
            return Ok(());
        },
        Option::Some(kc) => *kc,
    };
    let view = read_filter_view(POSITION_TYPE, PLAYER_TYPE);
    let ghost pv = view;
    let players = match Query::new(view).run(ecs, sub) {
        Result::Ok(v) => v,
        Result::Err(_) => {
            return Err(Error::AccessDenied);
        },
    };
    proof {
        lemma_entities_by_types(
            *ecs,
            *sub,
            pv,
            seq![POSITION_TYPE, PLAYER_TYPE],
            Seq::empty(),
            ecs.archetypes@.len() as int,
        );
        lemma_query_entities_live(
            *ecs,
            *sub,
            seq![POSITION_TYPE, PLAYER_TYPE],
            Seq::empty(),
            ecs.archetypes@.len() as int,
        );
        assert(players@ == players_of(*ecs, *sub));
        assert(seq![POSITION_TYPE, PLAYER_TYPE][0] == POSITION_TYPE);
    }
    let delta = match kc {
        KeyCode::Left => Point { x: -1, y: 0 },
        KeyCode::Right => Point { x: 1, y: 0 },
        KeyCode::Up => Point { x: 0, y: -1 },
        KeyCode::Down => Point { x: 0, y: 1 },
        KeyCode::Other => Point { x: 0, y: 0 },
    };
    proof {
        assert(delta == key_delta(kc));
    }
    let mut j: usize = 0;
    while j < players.len()
        invariant
            ecs.wf(),
            j <= players@.len(),
            players@ == players_of(*ecs, *sub),
            delta == key_delta(kc),
            forall|k2: int|
                0 <= k2 < players@.len() ==> ecs.entity_has(
                    #[trigger] players@[k2],
                    POSITION_TYPE,
                ),
            commands.ops@.len() == old(commands).ops@.len() + j,
            forall|j2: int|
                0 <= j2 < old(commands).ops@.len() ==> commands.ops@[j2] == old(
                    commands,
                ).ops@[j2],
            forall|j2: int|
                0 <= j2 < j ==> ((#[trigger] commands.ops@[old(commands).ops@.len() + j2])
                    matches WorldOp::Spawn(row) && row@ == intent_row(
                    players@[j2],
                    position_of(*ecs, players@[j2]).spec_add(key_delta(kc)),
                )),
            old(commands).wf() ==> commands.wf(),
        decreases players@.len() - j,
    {
        let e = players[j];
        let pos = read_position(ecs, e);
        let destination = pos.add(&delta);
        let mut row: Vec<Component> = Vec::new();
        row.push(Component::WantsToMove(WantsToMove { entity: e, destination }));
        proof {
            assert(row@ =~= intent_row(e, destination));
            assert(distinct_types(row@));
        }
        commands.push(row);
        j += 1;
    }
    *turn_state = TurnState::PlayerTurn;
    Ok(())
}

} // verus!
