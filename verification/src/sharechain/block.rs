//! Blocks of chains without uncles, and the chain that they belong to.
use crate::bytes::{append_bytes, append_u32, append_u64};
use crate::sharechain::p2block::{digest_block, BlockHeader, HeaderView, TariAddress};
use crate::text::{copy_text, decimal_text, to_hex};
use crate::types::{BlockHash, Difficulty, FixedHash, PowAlgorithm};
use vstd::prelude::*;
use vstd::string::*;

verus! {

/// Chain ID is an identifier which makes sure we apply the same rules to blocks.
/// Note: This must be updated when new logic applied to blocks handling.
pub const CHAIN_ID: u64 = 1;

/// Shares that are paid out by one block.
pub const SHARE_COUNT: u64 = 200;

/// Shares of one miner that are paid out by one block.
pub const MAX_SHARES_PER_MINER: u64 = 60;

/// The identifier of the chain of a network, from the hash of the network's first block in hexadecimal.
pub fn current_chain_id(genesis_block_hash: &str) -> (id: String)
    ensures
        id@ == genesis_block_hash@ + "_"@ + crate::text::decimal(CHAIN_ID as nat),
{
    let mut id = copy_text(genesis_block_hash);
    id.append("_");
    let number = decimal_text(CHAIN_ID);
    id.append(number.as_str());
    id
}

/// A block.
pub struct Block {
    /// The chain that the block belongs to.
    pub chain_id: String,
    /// The block's hash.
    pub hash: BlockHash,
    /// When it was made, in seconds of the Unix epoch.
    pub timestamp: u64,
    /// The block below.
    pub prev_hash: BlockHash,
    /// The block's height.
    pub height: u64,
    /// The header of the main-chain block that it was mined for.
    pub original_block_header: BlockHeader,
    /// The miner.
    pub miner_wallet_address: Option<TariAddress>,
    /// Whether it got onto the main chain.
    pub sent_to_main_chain: bool,
    /// The difficulty that it reached.
    pub achieved_difficulty: Difficulty,
}

/// What a [`Block`] holds.
#[verifier::ext_equal]
pub struct PlainView {
    pub chain_id: Seq<char>,
    pub hash: BlockHash,
    pub timestamp: u64,
    pub prev_hash: BlockHash,
    pub height: u64,
    pub header: HeaderView,
    pub miner: Option<Seq<u8>>,
    pub sent_to_main_chain: bool,
    pub achieved_difficulty: u64,
}

impl View for Block {
    type V = PlainView;

    open spec fn view(&self) -> PlainView {
        PlainView {
            chain_id: self.chain_id@,
            hash: self.hash,
            timestamp: self.timestamp,
            prev_hash: self.prev_hash,
            height: self.height,
            header: self.original_block_header@,
            miner: match self.miner_wallet_address {
                Some(address) => Some(address@),
                None => None,
            },
            sent_to_main_chain: self.sent_to_main_chain,
            achieved_difficulty: self.achieved_difficulty@,
        }
    }
}

impl Clone for Block {
    fn clone(&self) -> (copy: Self)
        ensures
            copy@ == self@,
    {
        Block {
            chain_id: self.chain_id.clone(),
            hash: self.hash,
            timestamp: self.timestamp,
            prev_hash: self.prev_hash,
            height: self.height,
            original_block_header: self.original_block_header.clone(),
            miner_wallet_address: match &self.miner_wallet_address {
                Some(address) => Some(address.clone()),
                None => None,
            },
            sent_to_main_chain: self.sent_to_main_chain,
            achieved_difficulty: self.achieved_difficulty,
        }
    }
}

impl PlainView {
    /// An empty block of a chain.
    pub open spec fn fresh(chain_id: Seq<char>, timestamp: u64) -> PlainView {
        PlainView {
            chain_id,
            hash: FixedHash::spec_zero(),
            timestamp,
            prev_hash: FixedHash::spec_zero(),
            height: 0,
            header: HeaderView { nonce: 0, pow_algo: PowAlgorithm::Sha3x, height: 0, encoded: Seq::empty() },
            miner: None,
            sent_to_main_chain: false,
            achieved_difficulty: crate::types::MIN_DIFFICULTY,
        }
    }

    /// The text of the miner's address in hexadecimal, in UTF-8.
    pub open spec fn miner_text(miner: Seq<u8>) -> Seq<u8> {
        vstd::utf8::encode_utf8(crate::text::hex(miner))
    }

    /// The bytes that a block's hash is taken of: the block below, the height, the miner if there is one, and the
    /// header, in consensus encoding.
    pub open spec fn preimage(self) -> Seq<u8> {
        self.prev_hash.bytes() + vstd::bytes::spec_u64_to_le_bytes(self.height) + (match self.miner {
            Some(miner) => vstd::bytes::spec_u32_to_le_bytes(PlainView::miner_text(miner).len() as u32)
                + PlainView::miner_text(miner),
            None => Seq::empty(),
        }) + self.header.encoded
    }

    /// The consensus encoding has room for the length of the miner's address.
    pub open spec fn encodable(self) -> bool {
        self.miner matches Some(miner) ==> PlainView::miner_text(miner).len() <= u32::MAX
    }
}

impl Block {
    /// Starts to build a block of a chain.
    pub fn builder(chain_id: String, timestamp: u64) -> (builder: BlockBuilder)
        ensures
            builder.block@ == PlainView::fresh(chain_id@, timestamp),
    {
        BlockBuilder::new(chain_id, timestamp)
    }

    /// The block's hash, from what it holds.
    pub fn generate_hash(&self) -> (hash: BlockHash)
        requires
            self@.encodable(),
        ensures
            hash.bytes() == crate::sharechain::p2block::block_digest(self@.preimage()),
    {
        let mut bytes = self.prev_hash.to_vec();
        append_u64(&mut bytes, self.height);
        if let Some(miner) = &self.miner_wallet_address {
            let text = to_hex(&miner.bytes);
            let encoded = text.as_str().as_bytes_vec();
            append_u32(&mut bytes, encoded.len() as u32);
            append_bytes(&mut bytes, &encoded);
        }
        append_bytes(&mut bytes, &self.original_block_header.encoded);
        assert(bytes@ =~= self@.preimage());
        let digest = digest_block(&bytes);
        match FixedHash::from_bytes(&digest) {
            Some(hash) => hash,
            None => FixedHash::zero(),
        }
    }
}

/// Builds a [`Block`].
pub struct BlockBuilder {
    /// The block so far.
    pub block: Block,
}

impl BlockBuilder {
    /// An empty block of a chain.
    pub fn new(chain_id: String, timestamp: u64) -> (builder: Self)
        ensures
            builder.block@ == PlainView::fresh(chain_id@, timestamp),
    {
        let builder = BlockBuilder {
            block: Block {
                chain_id,
                hash: FixedHash::zero(),
                timestamp,
                prev_hash: FixedHash::zero(),
                height: 0,
                original_block_header: BlockHeader {
                    nonce: 0,
                    pow_algo: PowAlgorithm::Sha3x,
                    height: 0,
                    encoded: Vec::new(),
                },
                miner_wallet_address: None,
                sent_to_main_chain: false,
                achieved_difficulty: Difficulty::min(),
            },
        };
        assert(builder.block@.header.encoded =~= Seq::empty());
        builder
    }

    /// Sets when the block was made.
    pub fn with_timestamp(&mut self, timestamp: u64) -> (builder: &mut Self)
        ensures
            builder.block@ == (PlainView { timestamp, ..old(self).block@ }),
            *final(self) == *final(builder),
    {
        self.block.timestamp = timestamp;
        self
    }

    /// Sets the block below.
    pub fn with_prev_hash(&mut self, prev_hash: BlockHash) -> (builder: &mut Self)
        ensures
            builder.block@ == (PlainView { prev_hash, ..old(self).block@ }),
            *final(self) == *final(builder),
    {
        self.block.prev_hash = prev_hash;
        self
    }

    /// Sets the height.
    pub fn with_height(&mut self, height: u64) -> (builder: &mut Self)
        ensures
            builder.block@ == (PlainView { height, ..old(self).block@ }),
            *final(self) == *final(builder),
    {
        self.block.height = height;
        self
    }

    /// Sets the header of the main-chain block.
    pub fn with_original_block_header(&mut self, original_block_header: BlockHeader) -> (builder: &mut Self)
        ensures
            builder.block@ == (PlainView { header: original_block_header@, ..old(self).block@ }),
            *final(self) == *final(builder),
    {
        self.block.original_block_header = original_block_header;
        self
    }

    /// Sets the miner.
    pub fn with_miner_wallet_address(&mut self, miner_wallet_address: TariAddress) -> (builder: &mut Self)
        ensures
            builder.block@ == (PlainView { miner: Some(miner_wallet_address@), ..old(self).block@ }),
            *final(self) == *final(builder),
    {
        self.block.miner_wallet_address = Some(miner_wallet_address);
        self
    }

    /// The block, with its hash.
    pub fn build(&mut self) -> (block: Block)
        requires
            old(self).block@.encodable(),
        ensures
            block@ == (PlainView { hash: block@.hash, ..old(self).block@ }),
            block@.hash.bytes() == crate::sharechain::p2block::block_digest(old(self).block@.preimage()),
            final(self).block@ == block@,
    {
        let hash = self.block.generate_hash();
        self.block.hash = hash;
        self.block.clone()
    }
}

/// What came of submitting blocks.
pub struct SubmitBlockResult {
    /// Whether the chain has to be synced.
    pub need_sync: bool,
}

impl SubmitBlockResult {
    /// What came of submitting blocks.
    pub fn new(need_sync: bool) -> (result: Self)
        ensures
            result.need_sync == need_sync,
    {
        SubmitBlockResult { need_sync }
    }
}

/// What came of checking a block.
pub struct ValidateBlockResult {
    /// Whether the block keeps the rules.
    pub valid: bool,
    /// Whether the chain has to be synced.
    pub need_sync: bool,
}

impl ValidateBlockResult {
    /// What came of checking a block.
    pub fn new(valid: bool, need_sync: bool) -> (result: Self)
        ensures
            result.valid == valid,
            result.need_sync == need_sync,
    {
        ValidateBlockResult { valid, need_sync }
    }
}

}
