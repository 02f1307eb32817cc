//! Core of a turn-based picture-guessing party game played in chat channels.
//!
//! The library owns the game's state: one game per channel, at most one open
//! turn per game, an append-only ledger of win records with reversible bulk
//! resets, a ranked and paginated scoreboard, and the timeout sweeper that
//! closes turns left idle too long. Everything here is verified; the chat
//! front-end around it only renders results and performs I/O.

pub mod cache;
pub mod config;
pub mod error;
pub mod ids;
pub mod ledger;
pub mod machine;
pub mod models;
pub mod scoreboard;
pub mod store;
pub mod sweeper;
