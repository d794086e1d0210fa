//! A caching proxy for the PostgreSQL wire protocol.
pub mod cache;
pub mod clock;
pub mod config;
pub mod handlers;
pub mod server;
pub mod text;
pub mod wire;

pub use crate::cache::matcher::QueryMatcher;
pub use crate::server::state::AppState;
