//! A chain of levels, newest first, of which a fixed number is kept.
use crate::sharechain::block_level::{BlockLevel, PoolBlock, PoolLevelView};
use crate::sharechain::p2block::BlockView;
use vstd::prelude::*;

verus! {

/// A chain of levels.
pub struct PoolChain {
    /// The levels, newest first.
    pub levels: Vec<BlockLevel>,
    /// Where the tip is.
    pub tip_level_index: usize,
    /// How many levels are kept.
    pub max_levels: usize,
}

/// What a [`PoolChain`] holds.
pub struct PoolView {
    pub levels: Seq<PoolLevelView>,
    pub tip: int,
    pub max_levels: int,
}

impl View for PoolChain {
    type V = PoolView;

    open spec fn view(&self) -> PoolView {
        PoolView {
            levels: self.levels@.map_values(|l: BlockLevel| l@),
            tip: self.tip_level_index as int,
            max_levels: self.max_levels as int,
        }
    }
}

impl PoolView {
    /// There are more levels than are kept.
    pub open spec fn full(self) -> bool {
        self.levels.len() > self.max_levels
    }

    /// The newest level of the run of heights without a gap that level `i` is in. Levels are newest first.
    pub open spec fn run_top(self, i: int) -> int
        decreases i,
    {
        if 0 < i < self.levels.len() && self.levels[i - 1].height == self.levels[i].height + 1 {
            self.run_top(i - 1)
        } else {
            i
        }
    }

    /// The oldest level leaves if there are too many. If it is the tip, the tip moves to the highest level of the next
    /// continuous run.
    pub open spec fn trimmed(self) -> PoolView {
        if self.full() {
            PoolView {
                levels: self.levels.drop_last(),
                tip: if self.tip == self.levels.len() - 1 {
                    self.run_top(self.tip - 1)
                } else {
                    self.tip
                },
                ..self
            }
        } else {
            self
        }
    }

    /// A new level in front of the others, with one block.
    pub open spec fn grown(self, block: BlockView, is_tip: bool) -> PoolView {
        PoolView {
            levels: seq![PoolLevelView { blocks: seq![block], height: block.height, in_chain: 0 }] + self.levels,
            tip: if is_tip {
                0
            } else {
                self.tip
            },
            ..self
        }
    }

    /// The level at a height, if the levels have no gaps.
    pub open spec fn at_height(self, height: u64) -> Option<PoolLevelView> {
        if self.levels.len() == 0 || height > self.levels[0].height || self.levels[0].height - height
            >= self.levels.len() {
            None
        } else {
            Some(self.levels[self.levels[0].height - height])
        }
    }
}

impl PoolChain {
    /// At least one level is kept, there are not more levels than are kept, and the tip is one of them.
    pub open spec fn wf(&self) -> bool {
        &&& self@.max_levels > 0
        &&& self@.levels.len() <= self@.max_levels
        &&& self@.levels.len() > 0 ==> self@.tip < self@.levels.len()
        &&& self@.levels.len() == 0 ==> self@.tip == 0
    }

    /// An empty chain.
    pub fn new(max_levels: usize) -> (chain: Self)
        requires
            max_levels > 0,
        ensures
            chain.wf(),
            chain@.levels == Seq::<PoolLevelView>::empty(),
            chain@.tip == 0,
            chain@.max_levels == max_levels,
    {
        let chain = PoolChain { levels: Vec::new(), tip_level_index: 0, max_levels };
        assert(chain@.levels =~= Seq::<PoolLevelView>::empty());
        chain
    }

    /// Whether there are no levels.
    pub fn is_empty(&self) -> (empty: bool)
        ensures
            empty == (self@.levels.len() == 0),
    {
        self.levels.len() == 0
    }

    /// Whether there are more levels than are kept.
    pub fn is_full(&self) -> (full: bool)
        ensures
            full == self@.full(),
    {
        self.levels.len() > self.max_levels
    }

    fn drop_last_if_full(&mut self)
        requires
            old(self)@.max_levels > 0,
            old(self)@.levels.len() <= old(self)@.max_levels + 1,
            old(self)@.levels.len() > 0 ==> old(self)@.tip < old(self)@.levels.len(),
        ensures
            final(self)@ == old(self)@.trimmed(),
    {
        if self.is_full() {
            let ghost before = self@.levels;
            // We might have a gap in blocks, and if we are removing the tip, then we need to move the tip to the
            // highest level of the next continuous run of blocks
            if self.tip_level_index == self.levels.len() - 1 {
                let mut next: usize = self.tip_level_index - 1;
                let ghost start = self@.tip - 1;
                loop
                    invariant
                        self@ == old(self)@,
                        next <= start < self@.levels.len(),
                        self@.run_top(start) == self@.run_top(next as int),
                    ensures
                        next <= start,
                        self@.run_top(start) == next,
                    decreases next,
                {
                    if next == 0 {
                        break;
                    }
                    assert(self@.levels[next - 1] == self.levels@[next - 1]@);
                    assert(self@.levels[next as int] == self.levels@[next as int]@);
                    let above: u64 = self.levels[next - 1].height();
                    if above == 0 || above - 1 != self.levels[next].height() {
                        break;
                    }
                    next = next - 1;
                }
                self.tip_level_index = next;
            }
            // Finally remove the block
            self.levels.pop();
            assert(self@.levels =~= before.drop_last());
        }
    }

    /// Adds a level with one block in front of the others.
    pub fn new_level(&mut self, block: PoolBlock, is_tip: bool)
        requires
            old(self).wf(),
        ensures
            final(self).wf(),
            final(self)@ == old(self)@.grown(block@, is_tip).trimmed(),
    {
        let height = block.height;
        let ghost view = block@;
        let ghost before = self@.levels;
        let mut blocks: Vec<PoolBlock> = Vec::new();
        blocks.push(block);
        let level = BlockLevel::new(blocks, height);
        let ghost level_view = level@;
        assert(level_view.blocks =~= seq![view]);
        self.levels.insert(0, level);
        assert(self@.levels =~= seq![level_view] + before);
        if is_tip {
            self.tip_level_index = 0;
        }
        self.drop_last_if_full();
    }

    /// Height of the tip; 0 if there is none.
    pub fn tip_height(&self) -> (height: u64)
        ensures
            height == (if self@.tip < self@.levels.len() {
                self@.levels[self@.tip].height
            } else {
                0
            }),
    {
        if self.tip_level_index < self.levels.len() {
            assert(self@.levels[self@.tip] == self.levels@[self@.tip]@);
            self.levels[self.tip_level_index].height()
        } else {
            0
        }
    }

    /// The level at a height, if the levels have no gaps.
    pub fn get_at_height(&self, height: u64) -> (level: Option<&BlockLevel>)
        ensures
            level is Some <==> self@.at_height(height) is Some,
            level matches Some(l) ==> self@.at_height(height) == Some(l@),
    {
        if self.levels.len() == 0 {
            return None;
        }
        assert(self@.levels[0] == self.levels@[0]@);
        let top = self.levels[0].height();
        if height > top {
            return None;
        }
        let index: u64 = top - height;
        if index >= self.levels.len() as u64 {
            return None;
        }
        assert(self@.levels[index as int] == self.levels@[index as int]@);
        Some(&self.levels[index as usize])
    }
}

/// A chain never has more levels than are kept, and a level that is added as the tip is the tip.
pub proof fn law_pool_chain_is_bounded(chain: PoolView, block: BlockView, is_tip: bool)
    requires
        chain.max_levels > 0,
        chain.levels.len() <= chain.max_levels,
        0 <= chain.tip,
        chain.levels.len() > 0 ==> chain.tip < chain.levels.len(),
    ensures
        chain.grown(block, is_tip).trimmed().levels.len() <= chain.max_levels,
        is_tip ==> {
            let after = chain.grown(block, is_tip).trimmed();
            after.tip == 0 && after.levels.len() > 0 && after.levels[0].height == block.height
        },
{
}

}
