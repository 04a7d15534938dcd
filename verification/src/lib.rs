//! A multi-room chat server core: the room registry with bounded history,
//! the server metrics, per-connection user state, command parsing and the
//! decisions a connection takes on each line a client sends.

pub mod state;
pub mod text;
pub mod command;
pub mod laws;
pub mod session;
