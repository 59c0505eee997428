//! Blocks that are found by their hash.
use crate::sharechain::p2block::{share, BlockView, P2Block};
use crate::types::BlockHash;
use std::sync::Arc;
use vstd::prelude::*;

verus! {

/// A set of blocks in which no hash occurs twice; they stay in the order in which they came.
pub struct BlockMap {
    /// The blocks.
    pub blocks: Vec<Arc<P2Block>>,
}

impl View for BlockMap {
    type V = Seq<BlockView>;

    open spec fn view(&self) -> Seq<BlockView> {
        self.blocks@.map_values(|b: Arc<P2Block>| b@)
    }
}

impl BlockMap {
    /// No hash occurs twice.
    pub open spec fn distinct(blocks: Seq<BlockView>) -> bool {
        forall|i: int, j: int|
            0 <= i < blocks.len() && 0 <= j < blocks.len() && (#[trigger] blocks[i]).hash == (
            #[trigger] blocks[j]).hash ==> i == j
    }

    /// A block with the hash is there.
    pub open spec fn has(blocks: Seq<BlockView>, hash: BlockHash) -> bool {
        exists|i: int| 0 <= i < blocks.len() && (#[trigger] blocks[i]).hash == hash
    }

    /// Where the block with the hash is.
    pub open spec fn index_in(blocks: Seq<BlockView>, hash: BlockHash) -> int {
        choose|i: int| 0 <= i < blocks.len() && (#[trigger] blocks[i]).hash == hash
    }

    /// The block with the hash.
    pub open spec fn find(blocks: Seq<BlockView>, hash: BlockHash) -> Option<BlockView> {
        if BlockMap::has(blocks, hash) {
            Some(blocks[BlockMap::index_in(blocks, hash)])
        } else {
            None
        }
    }

    /// The blocks with `block` among them: in the place of the one with its hash, else behind the others.
    pub open spec fn with(blocks: Seq<BlockView>, block: BlockView) -> Seq<BlockView> {
        if BlockMap::has(blocks, block.hash) {
            blocks.update(BlockMap::index_in(blocks, block.hash), block)
        } else {
            blocks.push(block)
        }
    }

    /// The blocks without the one that has the hash.
    pub open spec fn without(blocks: Seq<BlockView>, hash: BlockHash) -> Seq<BlockView> {
        if BlockMap::has(blocks, hash) {
            blocks.remove(BlockMap::index_in(blocks, hash))
        } else {
            blocks
        }
    }

    /// The block at a place is the one that its hash finds.
    pub proof fn lemma_find_at(blocks: Seq<BlockView>, i: int)
        requires
            BlockMap::distinct(blocks),
            0 <= i < blocks.len(),
        ensures
            BlockMap::has(blocks, blocks[i].hash),
            BlockMap::index_in(blocks, blocks[i].hash) == i,
            BlockMap::find(blocks, blocks[i].hash) == Some(blocks[i]),
    {
    }

    /// What is found lies in the map under its hash.
    pub proof fn lemma_found(blocks: Seq<BlockView>, hash: BlockHash)
        requires
            BlockMap::has(blocks, hash),
        ensures
            0 <= BlockMap::index_in(blocks, hash) < blocks.len(),
            blocks[BlockMap::index_in(blocks, hash)].hash == hash,
            BlockMap::find(blocks, hash) is Some,
            (BlockMap::find(blocks, hash)->Some_0).hash == hash,
    {
    }

    /// Adding a block keeps the hashes distinct, and the block is found afterwards.
    pub proof fn lemma_with(blocks: Seq<BlockView>, block: BlockView)
        requires
            BlockMap::distinct(blocks),
        ensures
            BlockMap::distinct(BlockMap::with(blocks, block)),
            BlockMap::find(BlockMap::with(blocks, block), block.hash) == Some(block),
    {
        let after = BlockMap::with(blocks, block);
        if BlockMap::has(blocks, block.hash) {
            let i = BlockMap::index_in(blocks, block.hash);
            assert forall|a: int, b: int|
                0 <= a < after.len() && 0 <= b < after.len() && (#[trigger] after[a]).hash == (
                #[trigger] after[b]).hash implies a == b by {
                assert(after[a].hash == blocks[a].hash);
                assert(after[b].hash == blocks[b].hash);
            }
            assert(after[i] == block);
            BlockMap::lemma_find_at(after, i);
        } else {
            assert forall|a: int, b: int|
                0 <= a < after.len() && 0 <= b < after.len() && (#[trigger] after[a]).hash == (
                #[trigger] after[b]).hash implies a == b by {
                if a < blocks.len() {
                    assert(after[a] == blocks[a]);
                }
                if b < blocks.len() {
                    assert(after[b] == blocks[b]);
                }
            }
            assert(after[blocks.len() as int] == block);
            BlockMap::lemma_find_at(after, blocks.len() as int);
        }
    }

    /// Adding a block changes what no other hash finds.
    pub proof fn lemma_with_other(blocks: Seq<BlockView>, block: BlockView, hash: BlockHash)
        requires
            BlockMap::distinct(blocks),
            hash != block.hash,
        ensures
            BlockMap::find(BlockMap::with(blocks, block), hash) == BlockMap::find(blocks, hash),
    {
        let after = BlockMap::with(blocks, block);
        BlockMap::lemma_with(blocks, block);
        if BlockMap::has(blocks, hash) {
            let i = BlockMap::index_in(blocks, hash);
            assert(after[i] == blocks[i]);
            BlockMap::lemma_find_at(after, i);
        } else if BlockMap::has(after, hash) {
            let i = BlockMap::index_in(after, hash);
            if i < blocks.len() {
                assert(after[i] == blocks[i] || after[i] == block);
            }
        }
    }

    /// Removing a block keeps the hashes distinct.
    pub proof fn lemma_without(blocks: Seq<BlockView>, hash: BlockHash)
        requires
            BlockMap::distinct(blocks),
        ensures
            BlockMap::distinct(BlockMap::without(blocks, hash)),
    {
        let after = BlockMap::without(blocks, hash);
        if BlockMap::has(blocks, hash) {
            let k = BlockMap::index_in(blocks, hash);
            assert forall|a: int, b: int|
                0 <= a < after.len() && 0 <= b < after.len() && (#[trigger] after[a]).hash == (
                #[trigger] after[b]).hash implies a == b by {
                let a0 = if a < k { a } else { a + 1 };
                let b0 = if b < k { b } else { b + 1 };
                assert(after[a] == blocks[a0]);
                assert(after[b] == blocks[b0]);
            }
        }
    }

    /// An empty map.
    pub fn new() -> (map: BlockMap)
        ensures
            map@ == Seq::<BlockView>::empty(),
    {
        let map = BlockMap { blocks: Vec::new() };
        assert(map@ =~= Seq::<BlockView>::empty());
        map
    }

    /// Number of blocks.
    pub fn len(&self) -> (len: usize)
        ensures
            len == self@.len(),
    {
        self.blocks.len()
    }

    fn position(&self, hash: &BlockHash) -> (place: Option<usize>)
        requires
            BlockMap::distinct(self@),
        ensures
            place is Some <==> BlockMap::has(self@, *hash),
            place matches Some(i) ==> i < self@.len() && BlockMap::index_in(self@, *hash) == i && self@[i as int].hash
                == hash,
    {
        let mut i: usize = 0;
        while i < self.blocks.len()
            invariant
                i <= self.blocks@.len(),
                BlockMap::distinct(self@),
                forall|j: int| 0 <= j < i ==> (#[trigger] self@[j]).hash != hash,
            decreases self.blocks@.len() - i,
        {
            assert(self@[i as int] == self.blocks@[i as int]@);
            if self.blocks[i].hash == *hash {
                proof {
                    BlockMap::lemma_find_at(self@, i as int);
                }
                return Some(i);
            }
            i = i + 1;
        }
        None
    }

    /// The block with the hash.
    pub fn get(&self, hash: &BlockHash) -> (block: Option<&Arc<P2Block>>)
        requires
            BlockMap::distinct(self@),
        ensures
            block is Some <==> BlockMap::find(self@, *hash) is Some,
            block matches Some(b) ==> BlockMap::find(self@, *hash) == Some(b@),
    {
        match self.position(hash) {
            Some(i) => {
                assert(self@[i as int] == self.blocks@[i as int]@);
                Some(&self.blocks[i])
            },
            None => None,
        }
    }

    /// Whether a block with the hash is there.
    pub fn contains_key(&self, hash: &BlockHash) -> (found: bool)
        requires
            BlockMap::distinct(self@),
        ensures
            found <==> BlockMap::has(self@, *hash),
    {
        self.position(hash).is_some()
    }

    /// Puts a block in, in the place of the one with its hash if there is one.
    pub fn insert(&mut self, block: Arc<P2Block>)
        requires
            BlockMap::distinct(old(self)@),
        ensures
            final(self)@ == BlockMap::with(old(self)@, block@),
            BlockMap::distinct(final(self)@),
    {
        proof {
            BlockMap::lemma_with(self@, block@);
        }
        match self.position(&block.hash) {
            Some(i) => {
                self.blocks.set(i, block);
            },
            None => {
                self.blocks.push(block);
            },
        }
        proof {
            assert(self@ =~= BlockMap::with(old(self)@, block@));
        }
    }

    /// Takes the block with the hash out.
    pub fn remove(&mut self, hash: &BlockHash)
        requires
            BlockMap::distinct(old(self)@),
        ensures
            final(self)@ == BlockMap::without(old(self)@, *hash),
            BlockMap::distinct(final(self)@),
    {
        proof {
            BlockMap::lemma_without(self@, *hash);
        }
        match self.position(hash) {
            Some(i) => {
                self.blocks.remove(i);
            },
            None => {},
        }
        proof {
            assert(self@ =~= BlockMap::without(old(self)@, *hash));
        }
    }

    /// All blocks, in their order.
    pub fn to_vec(&self) -> (blocks: Vec<Arc<P2Block>>)
        ensures
            blocks@ == self.blocks@,
    {
        let mut blocks: Vec<Arc<P2Block>> = Vec::new();
        let mut i: usize = 0;
        while i < self.blocks.len()
            invariant
                i <= self.blocks@.len(),
                blocks@ == self.blocks@.take(i as int),
            decreases self.blocks@.len() - i,
        {
            blocks.push(share(&self.blocks[i]));
            i = i + 1;
            proof {
                assert(blocks@ =~= self.blocks@.take(i as int));
            }
        }
        proof {
            assert(self.blocks@.take(self.blocks@.len() as int) =~= self.blocks@);
        }
        blocks
    }
}

}
