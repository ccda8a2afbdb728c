//! Room lifecycle for two-player card tables: dealing a deck into two hands
//! and a draw pile, a registry of rooms with unique identifiers, and the
//! rules that decide how a table is created and joined.

pub mod blackjack;
pub mod coordinator;
pub mod message;
pub mod registry;
pub mod room;
