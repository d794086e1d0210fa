//! Requests that do not come over the wire protocol.
pub mod query;
