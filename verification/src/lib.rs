//! Gentei janken: a rock-paper-scissors tournament with a limited deck.

pub mod game;
pub mod network;
pub mod player_loader;
mod chance;
pub mod ui;
pub mod text;
