//! A shared grid world explored by remotely controlled rovers.
//!
//! The crate holds the rules of the game: the terrain and how it is laid out,
//! what a rover may do on it, how a line of text becomes a command, what each
//! connection does with what it reads, and how the single dispatcher answers
//! one request after another. Sockets, channels and timers are left to the
//! program that embeds it.

mod chance;
pub mod client;
pub mod command;
pub mod dispatcher;
pub mod planet;
pub mod rover;
pub mod text;
