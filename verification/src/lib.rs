//! A turn-based number-guessing round for several players: the shared round
//! state, the lobby that batches arriving players, and the per-player decision
//! steps that a connection loop drives.

pub mod game;
pub mod handler;
pub mod lobby;
pub mod notice;
pub mod protocol;
pub mod secret;
pub mod text;
