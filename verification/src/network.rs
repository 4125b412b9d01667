//! The messages between host and clients, the client's side of the game, and
//! the host's record of its clients.

pub mod client;
pub mod host;
pub mod player_connection;
pub mod protocol;

pub use client::Client;
pub use host::Host;
pub use player_connection::PlayerConnection;
pub use protocol::{ClientMessage, HostMessage};
