//! Session-scoped todo lists: visitor identity, list filtering and the
//! per-session item collection, with machine-checked contracts.

pub mod filter;
pub mod history;
pub mod item;
pub mod repository;
pub mod session;
pub mod store;
pub mod text;
