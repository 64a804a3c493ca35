//! The web server.
pub mod app;
pub mod deck;
pub mod session;
pub mod steam;
pub mod ws;
