//! What has little to do with decks.
pub mod async_par_stream;
pub mod futures;
pub mod sqlx;
pub mod surf_redirect_middleware;
