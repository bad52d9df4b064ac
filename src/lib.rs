//! Ingestion and identity of games from a live chess-tournament PGN feed.
//!
//! The library turns the events of a PGN token stream into a structured
//! [`game::Pgn`] record, compares engine names up to version suffixes, derives
//! a stable identity hash for each game, and keeps the set of identities that
//! were already announced in a line-oriented text record.

pub mod text;
pub mod fingerprint;
pub mod engine;
pub mod game;
pub mod pgn;
pub mod state;
pub mod notify;
