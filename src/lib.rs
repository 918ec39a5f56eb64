//! Server core of a real-time multiplayer game: the wire protocol, the
//! authoritative world roster of each room, the room admission rules and the
//! per-connection synchronisation cadence.
pub mod wire;
pub mod player;
pub mod network;
pub mod session;
pub mod objects;
pub mod game;
pub mod actor;
pub mod reader;
