//! Blocks of one height of a pool chain.
use crate::sharechain::p2block::{BlockView, P2Block};
use vstd::prelude::*;

verus! {

/// A block of a pool chain.
pub type PoolBlock = P2Block;

/// A collection of blocks with the same height.
pub struct BlockLevel {
    /// The blocks, in the order in which they came.
    pub blocks: Vec<PoolBlock>,
    /// Their height.
    pub height: u64,
    /// Which of them is in the main chain.
    pub in_chain_index: usize,
}

/// Why a level turned a block away.
#[derive(Debug, PartialEq)]
pub enum BlockLevelError {
    /// The block has another height than the level.
    InvalidBlock(PoolBlock),
}

/// What a [`BlockLevel`] holds.
pub struct PoolLevelView {
    pub blocks: Seq<BlockView>,
    pub height: u64,
    pub in_chain: int,
}

impl View for BlockLevel {
    type V = PoolLevelView;

    open spec fn view(&self) -> PoolLevelView {
        PoolLevelView {
            blocks: self.blocks@.map_values(|b: PoolBlock| b@),
            height: self.height,
            in_chain: self.in_chain_index as int,
        }
    }
}

impl BlockLevel {
    /// A level of some blocks, the first of which is in the main chain.
    pub fn new(blocks: Vec<PoolBlock>, height: u64) -> (level: Self)
        ensures
            level@.blocks == blocks@.map_values(|b: PoolBlock| b@),
            level@.height == height,
            level@.in_chain == 0,
    {
        let level = BlockLevel { blocks, height, in_chain_index: 0 };
        assert(level@.blocks =~= blocks@.map_values(|b: PoolBlock| b@));
        level
    }

    /// Adds a block. A block of another height is handed back, and the level stays as it is. With `replace_tip` the block is in the main chain from
    /// then on.
    pub fn add_block(&mut self, block: PoolBlock, replace_tip: bool) -> (result: Result<(), BlockLevelError>)
        ensures
            result is Err <==> old(self)@.height != block@.height,
            result matches Err(BlockLevelError::InvalidBlock(refused)) ==> refused == block && *final(self) == *old(
                self,
            ),
            result is Ok ==> final(self)@ == (PoolLevelView {
                blocks: old(self)@.blocks.push(block@),
                height: old(self)@.height,
                in_chain: if replace_tip {
                    old(self)@.blocks.len() as int
                } else {
                    old(self)@.in_chain
                },
            }),
    {
        if self.height != block.height {
            return Err(BlockLevelError::InvalidBlock(block));
        }
        if replace_tip {
            self.in_chain_index = self.blocks.len();
        }
        let ghost view = block@;
        self.blocks.push(block);
        assert(self@.blocks =~= old(self)@.blocks.push(view));
        Ok(())
    }

    /// The block in the main chain.
    pub fn block_in_main_chain(&self) -> (block: Option<&PoolBlock>)
        ensures
            block is Some <==> self@.in_chain < self@.blocks.len(),
            block matches Some(b) ==> b@ == self@.blocks[self@.in_chain],
    {
        if self.in_chain_index < self.blocks.len() {
            Some(&self.blocks[self.in_chain_index])
        } else {
            None
        }
    }

    /// The height of the blocks.
    pub fn height(&self) -> (height: u64)
        ensures
            height == self@.height,
    {
        self.height
    }
}

/// A block that replaces the tip of its level is the one in the main chain.
pub proof fn law_replacing_block_is_in_main_chain(level: PoolLevelView, after: PoolLevelView, block: BlockView)
    requires
        after.blocks == level.blocks.push(block),
        after.in_chain == level.blocks.len(),
    ensures
        after.in_chain < after.blocks.len(),
        after.blocks[after.in_chain] == block,
{
}

}
