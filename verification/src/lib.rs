//! Cursor-based pagination over uniquely-keyed collections, the Relay-style
//! connection shape around it, and salted iterated credential derivation for
//! account creation.

pub mod api;
pub mod codec;
pub mod connection;
pub mod credential;
pub mod models;
pub mod order;
pub mod pagination;
