//! The share chain of a peer-to-peer mining pool, and the rules by which its nodes talk.
pub mod assoc;
pub mod bytes;
pub mod cli;
pub mod server;
pub mod sharechain;
pub mod stratum;
pub mod text;
pub mod types;
