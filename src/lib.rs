//! Procedural dungeon generation and turn-based elemental combat for a small
//! roguelike: level layout, enemy spawning, damage resolution and the turn
//! sequencing between the player and the enemies.

pub mod data;
pub mod player;
pub mod shop;
pub mod enemy;
pub mod input;
pub mod misc;
pub mod tilemap;
mod rng;

use vstd::prelude::*;

verus! {

/// The broad phase of the application.
#[derive(Clone, Copy, Debug, PartialEq, Eq, Structural)]
pub enum GameState {
    Startup,
    Loading,
    Play,
    LevelTransition,
    Shop,
    UpdateShop,
    End,
}

/// What is going on while a level is being played.
#[derive(Clone, Copy, Debug, PartialEq, Eq, Structural)]
pub enum PlayState {
    Play,
    Menu,
    ToShop,
    ToLevel,
    GameWon,
    GameOver,
}

/// Whose turn it is while a level is played.
#[derive(Clone, Copy, Debug, PartialEq, Eq, Structural)]
pub enum TurnState {
    Player,
    Enemy,
}

/// What moves the turn state forward.
#[derive(Clone, Copy, Debug, PartialEq, Eq, Structural)]
pub enum TurnEvent {
    /// The player moved, attacked or bumped into a wall.
    PlayerActed,
    /// The enemy turn's timer ran out.
    EnemyTimerElapsed,
}

pub open spec fn spec_next_turn(state: TurnState, event: TurnEvent) -> TurnState {
    match (state, event) {
        (TurnState::Player, TurnEvent::PlayerActed) => TurnState::Enemy,
        (TurnState::Enemy, TurnEvent::EnemyTimerElapsed) => TurnState::Player,
        _ => state,
    }
}

impl TurnState {
    /// The turn after `event`: the player's action hands the turn to the
    /// enemies, and the end of their timer hands it back. Any other event
    /// leaves the turn as it is.
    pub fn next(self, event: TurnEvent) -> (r: TurnState)
        ensures
            r == spec_next_turn(self, event),
    {
        match (self, event) {
            (TurnState::Player, TurnEvent::PlayerActed) => TurnState::Enemy,
            (TurnState::Enemy, TurnEvent::EnemyTimerElapsed) => TurnState::Player,
            _ => self,
        }
    }
}

/// The turns alternate: a player action followed by the end of the enemy
/// timer comes back to the player's turn, and each event moves the turn only
/// from the state in which it is legal.
pub proof fn lemma_turns_alternate(s: TurnState, e: TurnEvent)
    ensures
        spec_next_turn(spec_next_turn(TurnState::Player, TurnEvent::PlayerActed), TurnEvent::EnemyTimerElapsed)
            == TurnState::Player,
        s == TurnState::Enemy ==> spec_next_turn(s, TurnEvent::PlayerActed) == TurnState::Enemy,
        s == TurnState::Player ==> spec_next_turn(s, TurnEvent::EnemyTimerElapsed) == TurnState::Player,
{
}

} // verus!
