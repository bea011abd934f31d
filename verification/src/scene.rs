use vstd::prelude::*;

verus! {

/// How the game is played.
#[derive(Debug, Clone, Copy, PartialEq, Eq, Structural)]
pub enum GameMode {
    Multiplayer,
}

/// The screen the client shows.
#[derive(Debug)]
pub enum Scene {
    Menu,
    Game,
    GameOver { winner_ids: Vec<String>, loser_ids: Vec<String> },
}

} // verus!
