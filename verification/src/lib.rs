//! Core of a two-player four-in-a-row grid game: board snapshots and the
//! rules engine, win detection, player-role resolution, the move pipeline,
//! the wire-protocol messages, and the per-game broadcast registry.
pub mod board;
pub mod channels;
pub mod game;
pub mod message;
pub mod pipeline;
pub mod session;
pub mod wins;
