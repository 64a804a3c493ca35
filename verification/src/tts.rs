//! Decks for Tabletop Simulator.
pub mod collect;
pub mod pages;
pub mod piles;
pub mod render_coordinator;
pub mod save;
pub mod tokens;
