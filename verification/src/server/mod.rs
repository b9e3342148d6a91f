//! The search server's logic.
pub mod config;
pub mod models;
pub mod torznab;
pub mod query;
pub mod api;
pub mod send;
pub mod assets;
