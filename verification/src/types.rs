//! What the server and the web page tell each other.
pub mod deck;
pub mod frontend_to_server;
pub mod nonzero;
pub mod server_to_frontend;
pub mod user;
