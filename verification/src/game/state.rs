//! What the host tells each client about the game and about the client's player.

use vstd::prelude::*;
use crate::game::CardCount;

verus! {

/// A player as a client sees it in a list. `status` is the ready flag (1 for
/// ready) while the room waits, and the stars once the game plays.
pub struct PlayerInfo {
    pub id: usize,
    pub name: String,
    pub status: usize,
}

/// The state of the whole game.
pub enum GameState {
    Waiting { player_infos: Vec<PlayerInfo> },
    Playing { remaining_players: Vec<PlayerInfo>, winners: Vec<PlayerInfo>, playable_card_count: CardCount },
    Finished { winners: Vec<PlayerInfo> },
}

/// The state of one player.
pub enum PlayerState {
    Joined,
    Waiting { star: usize, playable_card_count: CardCount },
    InDuel { star: usize, playable_card_count: CardCount, opponent_name: String, remaining_secs: u64 },
    Resting { star: usize, playable_card_count: CardCount, remaining_secs: u64 },
    Winning { star: usize },
    Losing,
}

} // verus!
