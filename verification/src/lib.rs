//! Game logic and wire protocol of a two-player networked word-guessing game.
//!
//! The library holds what the server and the clients decide; sockets, threads,
//! timers and the terminal stay with the program that drives it.

pub mod protocol;
pub mod text;
pub mod feudle;
pub mod client;
pub mod server;
pub mod exchange;
