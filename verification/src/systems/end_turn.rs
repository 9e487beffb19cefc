//! Advances the turn-phase state machine by one step.

use vstd::prelude::*;
use crate::turn_state::TurnState;

verus! {

/// The phase that follows `s`: waiting for input holds until input arrives,
/// the player's turn hands over to the monsters, and the monsters' turn
/// waits for input again.
pub open spec fn next_phase(s: TurnState) -> TurnState {
    match s {
        TurnState::AwaitingInput => TurnState::AwaitingInput,
        TurnState::PlayerTurn => TurnState::MonsterTurn,
        TurnState::MonsterTurn => TurnState::AwaitingInput,
    }
}

/// Steps the turn state to the next phase.
pub fn end_turn(turn_state: &mut TurnState)
    ensures
        *final(turn_state) == next_phase(*old(turn_state)),
{
    let new_state = match *turn_state {
        TurnState::AwaitingInput => {
            return ;
        },
        TurnState::PlayerTurn => TurnState::MonsterTurn,
        TurnState::MonsterTurn => TurnState::AwaitingInput,
    };
    *turn_state = new_state;
}

} // verus!
