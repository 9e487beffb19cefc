//! The turn-phase state a scheduler steps through once per tick.

use vstd::prelude::*;

verus! {

/// The three phases of one game turn.
#[derive(Copy, Clone, Debug, PartialEq, Eq, Structural)]
pub enum TurnState {
    AwaitingInput,
    PlayerTurn,
    MonsterTurn,
}

/// An elemental affinity.
#[derive(Copy, Clone, Debug, PartialEq, Eq, Structural)]
pub enum Element {
    Fire,
    Water,
    Grass,
    Eletric,
}

} // verus!
