//! What users are shown over HTTP.
pub mod server;
pub mod stats;
pub mod stats_collector;
