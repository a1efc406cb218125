//! Game rules of a local multiplayer arena shooter: abilities, player ids,
//! scoring, card selection and the lobby.
pub mod ability;
pub mod card_selection_state;
pub mod game_state;
pub mod lobby_state;
pub mod player;
pub mod scoring;
pub mod shared;

use vstd::prelude::*;

verus! {

/// The different states the app can be in.
#[derive(Debug, Clone, Copy, Default, PartialEq, Eq, Structural, Hash)]
pub enum AppState {
    /// Before game, allows players to join or leave.
    #[default]
    Lobby,
    /// Between matches of a game.
    Game,
    /// A single fight between players.
    Match,
    /// Players take the cards they earned.
    CardSelection,
    /// Game is paused.
    Pause,
}

} // verus!
