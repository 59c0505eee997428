//! Figures of the pool.
use crate::sharechain::block::Block;
use crate::text::{copy_opt_text, to_hex};
use vstd::prelude::*;

verus! {

/// What is shown of a block.
pub struct StatsBlock {
    /// The block's hash in hexadecimal.
    pub hash: String,
    /// When it was made.
    pub timestamp: u64,
    /// The miner, in base58.
    pub miner_wallet_address: Option<String>,
}

/// What a [`StatsBlock`] holds.
#[verifier::ext_equal]
pub struct StatsBlockView {
    pub hash: Seq<char>,
    pub timestamp: u64,
    pub miner: Option<Seq<char>>,
}

impl View for StatsBlock {
    type V = StatsBlockView;

    open spec fn view(&self) -> StatsBlockView {
        StatsBlockView {
            hash: self.hash@,
            timestamp: self.timestamp,
            miner: crate::text::opt_text(self.miner_wallet_address),
        }
    }
}

impl Clone for StatsBlock {
    fn clone(&self) -> (copy: Self)
        ensures
            copy@ == self@,
    {
        StatsBlock {
            hash: self.hash.clone(),
            timestamp: self.timestamp,
            miner_wallet_address: copy_opt_text(&self.miner_wallet_address),
        }
    }
}

impl StatsBlock {
    /// What is shown of a block.
    pub fn of_block(block: &Block) -> (stats: StatsBlock)
        ensures
            stats@ == (StatsBlockView {
                hash: crate::text::hex(block@.hash.bytes()),
                timestamp: block@.timestamp,
                miner: match block@.miner {
                    Some(bytes) => crate::sharechain::p2block::address_text(bytes),
                    None => None,
                },
            }),
    {
        let bytes = block.hash.to_vec();
        StatsBlock {
            hash: to_hex(&bytes),
            timestamp: block.timestamp,
            miner_wallet_address: match &block.miner_wallet_address {
                Some(address) => address.to_base58(),
                None => None,
            },
        }
    }
}

/// Figures of the pool.
pub struct Stats {
    /// Whether the node has peers.
    pub connected: bool,
    /// Since when.
    pub connected_since: Option<u64>,
    /// Miners with shares.
    pub num_of_miners: usize,
    /// The last block that got onto the main chain.
    pub last_block_won: Option<StatsBlock>,
    /// Height of the share chain.
    pub share_chain_height: u64,
    /// Hashes per second of the whole pool, in decimal.
    pub pool_hash_rate: String,
}

/// What [`Stats`] hold.
#[verifier::ext_equal]
pub struct StatsView {
    pub connected: bool,
    pub connected_since: Option<u64>,
    pub num_of_miners: usize,
    pub last_block_won: Option<StatsBlockView>,
    pub share_chain_height: u64,
    pub pool_hash_rate: Seq<char>,
}

impl View for Stats {
    type V = StatsView;

    open spec fn view(&self) -> StatsView {
        StatsView {
            connected: self.connected,
            connected_since: self.connected_since,
            num_of_miners: self.num_of_miners,
            last_block_won: match self.last_block_won {
                Some(block) => Some(block@),
                None => None,
            },
            share_chain_height: self.share_chain_height,
            pool_hash_rate: self.pool_hash_rate@,
        }
    }
}

impl Clone for Stats {
    fn clone(&self) -> (copy: Self)
        ensures
            copy@ == self@,
    {
        Stats {
            connected: self.connected,
            connected_since: self.connected_since,
            num_of_miners: self.num_of_miners,
            last_block_won: match &self.last_block_won {
                Some(block) => Some(block.clone()),
                None => None,
            },
            share_chain_height: self.share_chain_height,
            pool_hash_rate: self.pool_hash_rate.clone(),
        }
    }
}

}
