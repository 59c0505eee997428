//! Figures of the pool, as they are shown over HTTP.
pub mod cache;
pub mod handlers;
pub mod models;
