//! The blocks of one height.
use crate::sharechain::block_map::BlockMap;
use crate::sharechain::error::{InvalidReason, ShareChainError};
use crate::sharechain::p2block::{BlockView, P2Block};
use crate::types::{BlockHash, FixedHash};
use std::sync::Arc;
use vstd::prelude::*;

verus! {

/// A collection of blocks with the same height.
pub struct P2ChainLevel {
    /// The height.
    pub height: u64,
    /// Hash of the block that is in the main chain; zero if none is.
    pub chain_block: BlockHash,
    /// The blocks.
    pub blocks: BlockMap,
}

/// What a [`P2ChainLevel`] holds.
#[verifier::ext_equal]
pub struct LevelView {
    pub height: u64,
    pub chain_block: BlockHash,
    pub blocks: Seq<BlockView>,
}

impl View for P2ChainLevel {
    type V = LevelView;

    open spec fn view(&self) -> LevelView {
        LevelView { height: self.height, chain_block: self.chain_block, blocks: self.blocks@ }
    }
}

impl LevelView {
    /// Each block has the level's height, and no hash occurs twice.
    pub open spec fn wf(self) -> bool {
        &&& BlockMap::distinct(self.blocks)
        &&& forall|i: int| 0 <= i < self.blocks.len() ==> (#[trigger] self.blocks[i]).height == self.height
    }

    /// A level with no block.
    pub open spec fn empty(height: u64) -> LevelView {
        LevelView { height, chain_block: FixedHash::spec_zero(), blocks: Seq::empty() }
    }

    /// A level with one block, which is not in the main chain yet.
    pub open spec fn of_block(block: BlockView) -> LevelView {
        LevelView { height: block.height, chain_block: FixedHash::spec_zero(), blocks: seq![block] }
    }

    /// The block of the main chain.
    pub open spec fn main_block(self) -> Option<BlockView> {
        BlockMap::find(self.blocks, self.chain_block)
    }

    /// What is found on a level has the level's height and the hash that was asked for.
    pub proof fn lemma_found(self, hash: BlockHash)
        requires
            self.wf(),
            BlockMap::find(self.blocks, hash) is Some,
        ensures
            (BlockMap::find(self.blocks, hash)->Some_0).height == self.height,
            (BlockMap::find(self.blocks, hash)->Some_0).hash == hash,
    {
        BlockMap::lemma_found(self.blocks, hash);
    }

    /// A level stays well formed when a block of its height is added.
    pub proof fn lemma_with(self, block: BlockView)
        requires
            self.wf(),
            block.height == self.height,
        ensures
            (LevelView { blocks: BlockMap::with(self.blocks, block), ..self }).wf(),
    {
        BlockMap::lemma_with(self.blocks, block);
        let after = BlockMap::with(self.blocks, block);
        assert forall|i: int| 0 <= i < after.len() implies (#[trigger] after[i]).height == self.height by {
            if i < self.blocks.len() {
                assert(after[i] == self.blocks[i] || after[i] == block);
            }
        }
    }
}

impl P2ChainLevel {
    /// A level with one block.
    ///
    /// Although this is the only block on the level, it might not be part of the main chain.
    pub fn new(block: Arc<P2Block>) -> (level: Self)
        ensures
            level@ == LevelView::of_block(block@),
            level@.wf(),
    {
        let height: u64 = block.height;
        let mut blocks = BlockMap::new();
        blocks.insert(block);
        assert(blocks@ =~= seq![block@]);
        P2ChainLevel { height, chain_block: FixedHash::zero(), blocks }
    }

    /// A level with no block.
    pub fn new_empty(height: u64) -> (level: Self)
        ensures
            level@ == LevelView::empty(height),
            level@.wf(),
    {
        P2ChainLevel { height, chain_block: FixedHash::zero(), blocks: BlockMap::new() }
    }

    /// The level's height.
    pub fn height(&self) -> (height: u64)
        ensures
            height == self@.height,
    {
        self.height
    }

    /// Hash of the block that is in the main chain; zero if none is.
    pub fn chain_block(&self) -> (hash: BlockHash)
        ensures
            hash == self@.chain_block,
    {
        self.chain_block
    }

    /// Says which block is in the main chain.
    pub fn set_chain_block(&mut self, hash: BlockHash)
        ensures
            final(self)@ == (LevelView { chain_block: hash, ..old(self)@ }),
    {
        self.chain_block = hash;
    }

    /// Adds a block, which must have the level's height.
    pub fn add_block(&mut self, block: Arc<P2Block>) -> (result: Result<(), ShareChainError>)
        requires
            old(self)@.wf(),
        ensures
            final(self)@.wf(),
            block@.height == old(self)@.height ==> result is Ok && final(self)@ == (LevelView {
                blocks: BlockMap::with(old(self)@.blocks, block@),
                ..old(self)@
            }),
            block@.height != old(self)@.height ==> final(self)@ == old(self)@ && result == Err::<(), _>(
                ShareChainError::InvalidBlock { reason: InvalidReason::HeightMismatch },
            ),
    {
        if self.height != block.height {
            return Err(ShareChainError::InvalidBlock { reason: InvalidReason::HeightMismatch });
        }
        proof {
            self@.lemma_with(block@);
        }
        self.blocks.insert(block);
        Ok(())
    }

    /// The block that is in the main chain.
    pub fn block_in_main_chain(&self) -> (block: Option<&Arc<P2Block>>)
        requires
            self@.wf(),
        ensures
            block is Some <==> self@.main_block() is Some,
            block matches Some(b) ==> self@.main_block() == Some(b@),
    {
        self.blocks.get(&self.chain_block)
    }

    /// The block with the hash.
    pub fn get(&self, hash: &BlockHash) -> (block: Option<&Arc<P2Block>>)
        requires
            self@.wf(),
        ensures
            block is Some <==> BlockMap::find(self@.blocks, *hash) is Some,
            block matches Some(b) ==> BlockMap::find(self@.blocks, *hash) == Some(b@),
    {
        self.blocks.get(hash)
    }

    /// Whether a block with the hash is on the level.
    pub fn contains(&self, hash: &BlockHash) -> (found: bool)
        requires
            self@.wf(),
        ensures
            found <==> BlockMap::has(self@.blocks, *hash),
    {
        self.blocks.contains_key(hash)
    }

    /// All blocks of the level.
    pub fn all_blocks(&self) -> (blocks: Vec<Arc<P2Block>>)
        ensures
            blocks@.map_values(|b: Arc<P2Block>| b@) == self@.blocks,
    {
        self.blocks.to_vec()
    }
}

}
