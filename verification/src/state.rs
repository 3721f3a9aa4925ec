//! The two state enums that drive the game: the coarse application state
//! and the in-game turn state.

use vstd::prelude::*;

verus! {

/// Coarse application state.
#[derive(Clone, Copy, Hash, PartialEq, Eq, Structural, Debug)]
pub enum GameState {
    MainMenu,
    /// Wait until the game scene is fully loaded if not already.
    WaitLoaded,
    /// The game is running.
    Playing,
    /// Restart menu after game over.
    RestartMenu,
}

/// In-game turn state; see [`crate::game_flow`] for the transitions.
#[derive(Clone, Copy, Hash, PartialEq, Eq, Structural, Debug)]
pub enum TurnState {
    /// Game just started.
    Starting,
    /// Participants must draw up to a full hand.
    Draw,
    /// A new turn has begun.
    New,
    /// Player's turn to play a card.
    Player,
    /// Opposition's turn to select a card.
    Oppo,
    /// A participant has played a card.
    CardPlayed,
}

} // verus!
