//! Talking to other nodes.
pub mod addresses;
pub mod catch_up;
pub mod chain_sync;
pub mod event_laws;
pub mod events;
pub mod exchange;
pub mod graph;
pub mod message_laws;
pub mod messages;
pub mod missing_sync;
pub mod network;
pub mod peer_choice;
pub mod peer_id;
pub mod peer_laws;
pub mod peer_lists;
pub mod peer_map;
pub mod peer_store;
pub mod recent_tips;
pub mod relay_store;
pub mod request_laws;
pub mod service;
pub mod squad;
pub mod ticks;
pub mod util;
