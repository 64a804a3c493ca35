//! The web page: what it keeps, and how that changes.
pub mod deck_list;
pub mod deck_renderer;
pub mod model;
pub mod remote_resource;
pub mod ws;
