//! The node: its network, its servers and its settings.
pub mod config;
pub mod grpc;
pub mod http;
pub mod p2p;
pub mod stats_store;
