//! Decks, from the sites on which they are listed to the database.
pub mod cards;
pub mod commanders;
pub mod listing;
pub mod loaders;
pub mod stored;
