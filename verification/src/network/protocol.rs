//! The messages that clients and host send each other.

use vstd::prelude::*;
use crate::game::card::Card;
use crate::game::state::{GameState, PlayerState};

verus! {

/// A message from a client to the host.
pub enum ClientMessage {
    Join { player_name: String },
    SetReady(bool),
    Disconnect,
    ReadyForNextDuel,
    ChooseCardToPlay(Card),
}

/// A message from the host to a client.
pub enum HostMessage {
    Update { game_state: GameState, player_state: PlayerState, player_logs: Vec<String> },
}

} // verus!
