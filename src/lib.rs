//! Networking core of a turn-based board-game server: the fixed-frame wire
//! protocol, the coordinator that owns all session and game state, and the
//! decisions of the per-connection handler.

pub mod proto;
pub mod text;
pub mod coordinator;
pub mod connection;
