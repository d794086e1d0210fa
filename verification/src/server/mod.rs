//! What all connections share.
pub mod state;
