//! Lobby and matchmaking core: the wire protocol, its binary codec, and the
//! state owner that keeps players, lobbies and side assignment consistent.

pub mod protocol;
pub mod state;
pub mod laws;
pub mod wire;
pub mod codec;
pub mod client;
