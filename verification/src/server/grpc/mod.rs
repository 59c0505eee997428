//! What miners ask of a node.
pub mod p2pool;
pub mod pool_laws;
pub mod status;
pub mod templates;
pub mod util;
