//! Loads decks of Magic: the Gathering cards from deck sites and renders them for Tabletop
//! Simulator.
pub mod config;
pub mod decimal;
pub mod deck;
pub mod files;
pub mod frontend;
pub mod hexadecimal;
pub mod html;
pub mod idmap;
pub mod imaging;
pub mod importer;
pub mod json;
pub mod migrations;
pub mod notify;
pub mod s3;
pub mod scryfall;
pub mod secrets;
pub mod sort;
pub mod text;
pub mod tts;
pub mod types;
pub mod urls;
pub mod user;
pub mod utils;
pub mod uuids;
pub mod web;
