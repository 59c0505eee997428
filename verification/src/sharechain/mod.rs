//! The share chain: blocks, levels of equal height, the chain that orders them and the rules on top.
pub mod add_block;
pub mod add_report;
pub mod aside_laws;
pub mod block;
pub mod block_laws;
pub mod block_level;
pub mod block_map;
pub mod block_storage;
pub mod branch_laws;
pub mod byte_map;
pub mod chain_laws;
pub mod chain_model;
pub mod chain_proofs;
pub mod difficulty_window;
pub mod error;
pub mod extra_laws;
pub mod handout_laws;
pub mod hold_laws;
pub mod in_memory;
pub mod next_block;
pub mod p2block;
pub mod p2chain;
pub mod p2chain_level;
pub mod payout_laws;
pub mod pool_chain;
pub mod share_rules;
pub mod shares;
pub mod step_laws;
pub mod submit_laws;
pub mod sync_blocks;
pub mod sync_laws;
pub mod tip_laws;
pub mod uncle_laws;
