//! Laws on the tip that hold after every call that adds a block, whether it succeeds or not.
use crate::sharechain::block_map::BlockMap;
use crate::sharechain::chain_model::{
    AddView, ChainView, MAX_EXTRA_SYNC, MAX_MISSING_PARENTS, MAX_SYNC_STORE, MIN_SYNC_CHAIN, SAFETY_MARGIN,
};
use crate::sharechain::p2block::BlockView;
use crate::sharechain::p2chain_level::LevelView;
use crate::types::{BlockHash, FixedHash};
use vstd::prelude::*;

verus! {

impl ChainView {
    /// A block as it came: nobody has checked its work.
    pub open spec fn unchecked(block: BlockView) -> BlockView {
        BlockView { verified: false, ..block }
    }

    /// The block is the one that its hash stands for. If its work was checked, it has no less than its parent.
    pub open spec fn genuine(named: spec_fn(BlockHash) -> BlockView, block: BlockView) -> bool {
        &&& block.hash != FixedHash::spec_zero()
        &&& block.total_pow >= 1
        &&& ChainView::unchecked(block) == named(block.hash)
        &&& block.verified && block.height > 0 ==> block.total_pow >= named(block.prev_hash).total_pow
    }

    /// All blocks are genuine.
    pub open spec fn all_genuine(self, named: spec_fn(BlockHash) -> BlockView) -> bool {
        forall|height: int, hash: BlockHash|
            (#[trigger] self.block_at(height, hash)) is Some ==> ChainView::genuine(
                named,
                self.block_at(height, hash)->Some_0,
            )
    }

    /// The levels agree with the tip. Without a tip no level has a block in the main chain. With one, the tip is a block
    /// of its level, no level above it has a block in the main chain, and the level below it, if it is there, has the
    /// tip's parent there. It can be gone only if the chain is full.
    pub open spec fn tip_linked(self) -> bool {
        match self.tip() {
            None => forall|height: int|
                (#[trigger] self.level(height)) is Some ==> (self.level(height)->Some_0).chain_block
                    == FixedHash::spec_zero(),
            Some(tip) => {
                &&& tip.main_block() is Some
                &&& forall|height: int|
                    height > self.current_tip && (#[trigger] self.level(height)) is Some ==> (self.level(
                        height,
                    )->Some_0).chain_block == FixedHash::spec_zero()
                &&& self.current_tip > 0 ==> match self.level(self.current_tip - 1) {
                    Some(below) => below.chain_block == (tip.main_block()->Some_0).prev_hash,
                    None => self.full(),
                }
            },
        }
    }

    /// The blocks that are kept aside are genuine, and none is the first of a chain.
    pub open spec fn kept_genuine(self, named: spec_fn(BlockHash) -> BlockView) -> bool {
        forall|i: int|
            0 <= i < self.sync_store.len() ==> ChainView::genuine(named, #[trigger] self.sync_store[i])
                && self.sync_store[i].height > 0
    }

    /// The chain is in order and within its capacity, its blocks and those kept aside are genuine, and its levels agree
    /// with the tip.
    pub open spec fn sound(self, named: spec_fn(BlockHash) -> BlockView) -> bool {
        &&& self.ordered()
        &&& self.levels.len() <= self.capacity()
        &&& self.all_genuine(named)
        &&& self.kept_genuine(named)
        &&& self.tip_linked()
    }

    /// The block lies so far above the tip that the tip's level leaves the chain when it is placed.
    pub open spec fn pushed_out_by(self, block: BlockView) -> bool {
        self.tip() is Some && block.height >= self.current_tip + self.capacity()
    }

    /// A tip stays a tip, and its work does not shrink.
    pub open spec fn no_weaker(self, before: ChainView) -> bool {
        &&& before.tip() is Some ==> self.tip() is Some
        &&& self.tip_pow() >= before.tip_pow()
    }

    /// Every level of `before` is there, and every other level is empty.
    pub open spec fn widens(self, before: ChainView) -> bool {
        &&& self.current_tip == before.current_tip
        &&& self.sync_store == before.sync_store
        &&& self.capacity() == before.capacity()
        &&& forall|h: int| (#[trigger] before.level(h)) is Some ==> self.level(h) == before.level(h)
        &&& forall|h: int|
            (#[trigger] self.level(h)) is Some && before.level(h) is None ==> self.level(h) == Some(
                LevelView::empty(h as u64),
            )
    }

    proof fn lemma_widens_transitive(self, between: ChainView, before: ChainView)
        requires
            self.widens(between),
            between.widens(before),
        ensures
            self.widens(before),
    {
        assert forall|h: int| (#[trigger] before.level(h)) is Some implies self.level(h) == before.level(h) by {
            assert(between.level(h) == before.level(h));
        }
        assert forall|h: int| (#[trigger] self.level(h)) is Some && before.level(h) is None implies self.level(h)
            == Some(LevelView::empty(h as u64)) by {
            if between.level(h) is Some {
                assert(self.level(h) == between.level(h));
            }
        }
    }

    proof fn lemma_pushed_widens(self)
        requires
            self.ordered(),
            self.levels.len() > 0,
            !self.full(),
            self.top() < u64::MAX,
        ensures
            self.pushed(LevelView::empty((self.top() + 1) as u64)).widens(self),
            self.pushed(LevelView::empty((self.top() + 1) as u64)).levels.len() == self.levels.len() + 1,
            self.pushed(LevelView::empty((self.top() + 1) as u64)).base() == self.base(),
    {
        let level = LevelView::empty((self.top() + 1) as u64);
        let after = self.pushed(level);
        assert(self.levels[self.levels.len() - 1].wf());
        assert(after.levels[0] == self.levels[0]);
        assert forall|h: int| (#[trigger] self.level(h)) is Some implies after.level(h) == self.level(h) by {
            assert(after.levels[h - self.base()] == self.levels[h - self.base()]);
        }
    }

    proof fn lemma_grounded_widens(self)
        requires
            self.ordered(),
            self.levels.len() > 0,
            self.base() > 0,
        ensures
            self.grounded(LevelView::empty((self.base() - 1) as u64)).widens(self),
    {
        let level = LevelView::empty((self.base() - 1) as u64);
        let after = self.grounded(level);
        assert(after.levels[0] == level);
        assert forall|h: int| (#[trigger] self.level(h)) is Some implies after.level(h) == self.level(h) by {
            assert(after.levels[h - after.base()] == self.levels[h - self.base()]);
        }
    }

    proof fn lemma_lowered_widens(self, height: int)
        requires
            self.ordered(),
            self.levels.len() > 0,
            0 <= height < self.base(),
        ensures
            self.lowered(height).0.widens(self),
        decreases self.base(),
    {
        if self.base() > height + 1 && !self.full() {
            let level = LevelView::empty((self.base() - 1) as u64);
            self.lemma_grounded(level);
            self.lemma_grounded_widens();
            self.grounded(level).lemma_lowered_widens(height);
            self.lowered(height).0.lemma_widens_transitive(self.grounded(level), self);
        }
    }

    proof fn lemma_widened_sound(self, before: ChainView, named: spec_fn(BlockHash) -> BlockView)
        requires
            before.sound(named),
            self.ordered(),
            self.levels.len() <= self.capacity(),
            self.widens(before),
        ensures
            self.sound(named),
            self.tip() is Some <==> before.tip() is Some,
            self.tip() is Some ==> self.tip() == before.tip(),
            self.tip_pow() == before.tip_pow(),
    {
        let tip = before.current_tip as int;
        if before.level(tip) is Some {
            assert(self.level(tip) == before.level(tip));
        }
        assert forall|height: int, hash: BlockHash|
            (#[trigger] self.block_at(height, hash)) is Some implies ChainView::genuine(
            named,
            self.block_at(height, hash)->Some_0,
        ) by {
            if before.level(height) is Some {
                assert(self.level(height) == before.level(height));
                assert(before.block_at(height, hash) == self.block_at(height, hash));
            } else {
                assert(self.level(height) == Some(LevelView::empty(height as u64)));
            }
        }
        assert forall|h: int| (#[trigger] self.level(h)) is Some implies before.level(h) == self.level(h) || (
        self.level(h)->Some_0).chain_block == FixedHash::spec_zero() by {
            if before.level(h) is Some {
                assert(self.level(h) == before.level(h));
            }
        }
        if before.tip() is Some && tip > 0 {
            if before.level(tip - 1) is Some {
                assert(self.level(tip - 1) == before.level(tip - 1));
            } else {
                before.lemma_level(tip);
                assert(before.base() == tip);
                assert(before.levels[before.levels.len() - 1].wf());
                assert(before.level(before.top()) is Some);
                assert(self.level(before.top()) == before.level(before.top()));
                self.lemma_level(before.top());
                self.lemma_level(tip);
                assert(self.levels[self.levels.len() - 1].wf());
            }
        }
    }

    /// A full chain on which an empty level is put loses its lowest level, and the tip only if it was there.
    proof fn lemma_pushed_sound(self, named: spec_fn(BlockHash) -> BlockView)
        requires
            self.sound(named),
            self.levels.len() > 0,
            self.takes((self.top() + 1) as u64),
            self.top() < u64::MAX,
        ensures
            ({
                let after = self.pushed(LevelView::empty((self.top() + 1) as u64));
                &&& after.sound(named)
                &&& after.tip() is Some ==> after.tip() == self.tip()
                &&& self.tip() is Some && self.top() + 1 < self.current_tip + self.capacity() ==> after.tip()
                    == self.tip()
            }),
    {
        let level = LevelView::empty((self.top() + 1) as u64);
        let after = self.pushed(level);
        assert(self.levels[self.levels.len() - 1].wf());
        self.lemma_pushed(level);
        if !self.full() {
            self.lemma_pushed_widens();
            after.lemma_widened_sound(self, named);
        } else {
            assert(after.levels.len() == self.levels.len());
            assert forall|h: int|
                self.base() < h <= self.top() implies #[trigger] after.level(h) == self.level(h) by {
                assert(after.levels[0].height == self.base() + 1) by {
                    if self.levels.len() > 1 {
                        assert(after.levels[0] == self.levels[1]);
                    }
                }
                assert(after.levels[h - after.base()] == self.levels[h - self.base()]);
            }
            assert(after.base() == self.base() + 1) by {
                if self.levels.len() > 1 {
                    assert(after.levels[0] == self.levels[1]);
                }
            }
            assert(after.top() == self.top() + 1);
            assert(after.level(self.top() + 1) == Some(level));
            assert forall|h: int| (#[trigger] after.level(h)) is Some implies after.level(h) == self.level(h) || after.level(
                h,
            ) == Some(level) by {
                after.lemma_level(h);
                if h <= self.top() {
                    assert(after.level(h) == self.level(h));
                }
            }
            assert forall|h: int, hash: BlockHash|
                (#[trigger] after.block_at(h, hash)) is Some implies ChainView::genuine(
                named,
                after.block_at(h, hash)->Some_0,
            ) by {
                assert(after.level(h) is Some);
                if after.level(h) == self.level(h) {
                    assert(self.block_at(h, hash) == after.block_at(h, hash));
                } else {
                    assert(after.level(h) == Some(level));
                }
            }
            let tip = self.current_tip as int;
            if self.tip() is Some {
                self.lemma_level(tip);
                if tip > self.base() {
                    assert(after.level(tip) == self.level(tip));
                    assert(after.level(tip - 1) is Some ==> after.level(tip - 1) == self.level(tip - 1)) by {
                        if after.level(tip - 1) is Some {
                            after.lemma_level(tip - 1);
                        }
                    }
                } else {
                    assert(after.level(tip) is None);
                    assert forall|h: int| (#[trigger] after.level(h)) is Some implies (after.level(
                        h,
                    )->Some_0).chain_block == FixedHash::spec_zero() by {
                        after.lemma_level(h);
                        if h <= self.top() {
                            assert(after.level(h) == self.level(h));
                        }
                    }
                }
            } else {
                assert forall|h: int| (#[trigger] after.level(h)) is Some implies (after.level(h)->Some_0).chain_block
                    == FixedHash::spec_zero() by {
                    if after.level(h) != Some(level) {
                        assert(self.level(h) is Some);
                    }
                }
                assert(after.tip() is None);
            }
        }
    }

    /// Filling in empty levels up to a height leaves the chain sound. The tip stays if the height is within reach of it.
    proof fn lemma_raised_sound(self, height: int, named: spec_fn(BlockHash) -> BlockView)
        requires
            self.sound(named),
            self.levels.len() > 0,
            self.top() < height,
            height + self.capacity() <= u64::MAX,
        ensures
            self.raised(height).sound(named),
            self.raised(height).tip() is Some ==> self.raised(height).tip() == self.tip(),
            self.tip() is Some && height < self.current_tip + self.capacity() ==> self.raised(height).tip()
                == self.tip(),
            self.raised(height).current_tip == self.current_tip,
        decreases height - self.top(),
    {
        assert(self.levels[self.levels.len() - 1].wf());
        if self.top() < height - 1 {
            let level = LevelView::empty((self.top() + 1) as u64);
            self.lemma_pushed(level);
            self.lemma_pushed_sound(named);
            self.pushed(level).lemma_raised_sound(height, named);
        }
    }

    /// What is found after a block was put on a level: the block, and all that was there before.
    pub proof fn lemma_put(self, height: int, block: BlockView)
        requires
            self.ordered(),
            self.level(height) is Some,
            block.height == height,
        ensures
            ({
                let level = self.level(height)->Some_0;
                let after = self.with_level(
                    height,
                    LevelView { blocks: BlockMap::with(level.blocks, block), ..level },
                );
                &&& after.ordered()
                &&& after.levels.len() == self.levels.len()
                &&& after.level(height) == Some(
                    LevelView { blocks: BlockMap::with(level.blocks, block), ..level },
                )
                &&& forall|h: int| h != height ==> #[trigger] after.level(h) == self.level(h)
                &&& forall|h: int, hash: BlockHash| #[trigger]
                    after.block_at(h, hash) == (if h == height && hash == block.hash {
                        Some(block)
                    } else {
                        self.block_at(h, hash)
                    })
            }),
    {
        self.lemma_level(height);
        let level = self.level(height)->Some_0;
        let changed = LevelView { blocks: BlockMap::with(level.blocks, block), ..level };
        level.lemma_with(block);
        BlockMap::lemma_with(level.blocks, block);
        self.lemma_with_level(height, changed);
        let after = self.with_level(height, changed);
        assert forall|h: int, hash: BlockHash| #[trigger]
            after.block_at(h, hash) == (if h == height && hash == block.hash {
                Some(block)
            } else {
                self.block_at(h, hash)
            }) by {
            if h == height && hash != block.hash {
                BlockMap::lemma_with_other(level.blocks, block, hash);
            } else if h != height {
                assert(after.level(h) == self.level(h));
            }
        }
    }

    /// A genuine block on a level leaves the chain sound and the tip as it was.
    proof fn lemma_put_sound(self, height: int, block: BlockView, named: spec_fn(BlockHash) -> BlockView)
        requires
            self.sound(named),
            self.level(height) is Some,
            block.height == height,
            ChainView::genuine(named, block),
        ensures
            ({
                let level = self.level(height)->Some_0;
                let after = self.with_level(
                    height,
                    LevelView { blocks: BlockMap::with(level.blocks, block), ..level },
                );
                &&& after.sound(named)
                &&& after.tip() is Some <==> self.tip() is Some
                &&& self.tip() is Some ==> (after.tip()->Some_0).chain_block == (self.tip()->Some_0).chain_block
                &&& after.tip_pow() == self.tip_pow()
            }),
    {
        self.lemma_put(height, block);
        let level = self.level(height)->Some_0;
        let after = self.with_level(height, LevelView { blocks: BlockMap::with(level.blocks, block), ..level });
        let tip = self.current_tip as int;
        assert forall|h: int, hash: BlockHash|
            (#[trigger] after.block_at(h, hash)) is Some implies ChainView::genuine(
            named,
            after.block_at(h, hash)->Some_0,
        ) by {
            if !(h == height && hash == block.hash) {
                assert(self.block_at(h, hash) is Some);
            }
        }
        assert forall|h: int| (#[trigger] after.level(h)) is Some implies self.level(h) is Some && (self.level(
            h,
        )->Some_0).chain_block == (after.level(h)->Some_0).chain_block by {
            if h != height {
                assert(after.level(h) == self.level(h));
            }
        }
        assert(after.level(tip) is Some <==> self.level(tip) is Some) by {
            if tip != height {
                assert(after.level(tip) == self.level(tip));
            }
        }
        if self.tip() is Some {
            let hash = (self.tip()->Some_0).chain_block;
            let was = self.block_at(tip, hash)->Some_0;
            let is = after.block_at(tip, hash)->Some_0;
            assert(self.block_at(tip, hash) is Some);
            assert(after.block_at(tip, hash) is Some);
            assert(ChainView::genuine(named, was));
            assert(ChainView::genuine(named, is));
            self.lemma_block(tip, hash);
            after.lemma_block(tip, hash);
            assert(ChainView::unchecked(was) == ChainView::unchecked(is));
            assert(was.total_pow == ChainView::unchecked(was).total_pow);
            assert(is.total_pow == ChainView::unchecked(is).total_pow);
            assert(was.prev_hash == ChainView::unchecked(was).prev_hash);
            assert(is.prev_hash == ChainView::unchecked(is).prev_hash);
            if tip > 0 {
                if tip - 1 != height {
                    assert(after.level(tip - 1) == self.level(tip - 1));
                }
            }
        }
    }

    /// Placing a genuine block leaves the chain sound. The tip stays as it was, unless the block pushes it out.
    proof fn lemma_placed_sound(self, block: BlockView, named: spec_fn(BlockHash) -> BlockView)
        requires
            self.sound(named),
            self.takes(block.height),
            ChainView::genuine(named, block),
        ensures
            self.placed(block).0.sound(named),
            self.placed(block).0.tip() is Some ==> self.tip() is Some && (self.placed(
                block,
            ).0.tip()->Some_0).chain_block == (self.tip()->Some_0).chain_block,
            !self.pushed_out_by(block) ==> {
                &&& self.placed(block).0.tip() is Some <==> self.tip() is Some
                &&& self.placed(block).0.tip_pow() == self.tip_pow()
            },
    {
        let height = block.height as int;
        let after = self.placed(block).0;
        self.lemma_placed(block);
        let alone = LevelView::of_block(block);
        let empty = LevelView::empty(block.height);
        assert(BlockMap::with(empty.blocks, block) =~= seq![block]);
        if self.levels.len() == 0 {
            let bare = ChainView { levels: seq![empty], ..self };
            assert(bare.levels[0].wf());
            assert(bare.ordered());
            bare.lemma_widened_sound(self, named);
            bare.lemma_put_sound(height, block, named);
            assert(bare.with_level(height, alone).levels =~= seq![alone]);
            assert(after == bare.with_level(height, alone));
        } else {
            match self.level(height) {
                Some(_) => {
                    self.lemma_put_sound(height, block, named);
                },
                None => {
                    if height > self.top() {
                        assert(self.levels[self.levels.len() - 1].wf());
                        self.lemma_raised(height);
                        self.lemma_raised_sound(height, named);
                        let raised = self.raised(height);
                        raised.lemma_pushed(empty);
                        raised.lemma_pushed_sound(named);
                        let wide = raised.pushed(empty);
                        wide.lemma_put_sound(height, block, named);
                        assert(wide.with_level(height, alone).levels =~= after.levels);
                    } else if !self.full() {
                        self.lemma_lowered(height);
                        self.lemma_lowered_widens(height);
                        let (lower, room) = self.lowered(height);
                        lower.lemma_widened_sound(self, named);
                        if room && !lower.full() {
                            lower.lemma_grounded(empty);
                            lower.lemma_grounded_widens();
                            let wide = lower.grounded(empty);
                            wide.lemma_widened_sound(lower, named);
                            wide.lemma_put_sound(height, block, named);
                            assert(wide.with_level(height, alone).levels =~= after.levels);
                        }
                    }
                },
            }
        }
    }

    proof fn lemma_missing_grows(self, uncles: Seq<(u64, BlockHash)>, n: int, missing: Seq<(BlockHash, u64)>)
        ensures
            self.missing_uncles(uncles, n, missing).len() >= missing.len(),
        decreases n,
    {
        if n > 0 {
            self.lemma_missing_grows(uncles, n - 1, missing);
        }
    }

    /// A block that lacks nothing has its parent.
    proof fn lemma_lacks_nothing(self, block: BlockView)
        requires
            self.missing_links(block).len() == 0,
            block.height > 0,
        ensures
            self.parent_of(block) is Some,
    {
        let parent = if self.parent_of(block) is None {
            seq![(block.prev_hash, (block.height - 1) as u64)]
        } else {
            Seq::empty()
        };
        self.lemma_missing_grows(block.uncles, block.uncles.len() as int, parent);
    }

    /// A block of the chain that becomes the tip.
    pub open spec fn moves_to(self, before: ChainView, block: BlockView) -> bool {
        &&& self.ordered()
        &&& self.levels.len() <= before.levels.len()
        &&& self.capacity() == before.capacity()
        &&& self.sync_store == before.sync_store
        &&& self.current_tip == block.height
        &&& forall|h: int, hash: BlockHash|
            (#[trigger] self.block_at(h, hash)) is Some ==> self.block_at(h, hash) == before.block_at(h, hash)
        &&& self.level(block.height as int) == Some(
            LevelView { chain_block: block.hash, ..before.level(block.height as int)->Some_0 },
        )
        &&& forall|h: int|
            h > block.height && (#[trigger] self.level(h)) is Some ==> (self.level(h)->Some_0).chain_block
                == FixedHash::spec_zero()
        &&& block.height > 0 ==> {
            &&& self.level(block.height - 1) is Some
            &&& (self.level(block.height - 1)->Some_0).chain_block == block.prev_hash
        }
    }

    proof fn lemma_moved_sound(self, before: ChainView, block: BlockView, named: spec_fn(BlockHash) -> BlockView)
        requires
            before.sound(named),
            before.block_at(block.height as int, block.hash) == Some(block),
            self.moves_to(before, block),
        ensures
            self.sound(named),
            self.tip() is Some,
            self.tip_pow() == block.total_pow,
    {
        assert(ChainView::genuine(named, block));
        assert(self.block_at(block.height as int, block.hash) == Some(block));
        assert forall|h: int, hash: BlockHash|
            (#[trigger] self.block_at(h, hash)) is Some implies ChainView::genuine(
            named,
            self.block_at(h, hash)->Some_0,
        ) by {
            assert(before.block_at(h, hash) is Some);
        }
    }

    pub proof fn lemma_trimmed_levels(self)
        requires
            self.ordered(),
            self.level(self.current_tip as int) is Some,
        ensures
            self.trimmed().levels.len() <= self.levels.len(),
            forall|h: int|
                (#[trigger] self.trimmed().level(h)) is Some ==> self.trimmed().level(h) == self.level(h),
            forall|h: int|
                (#[trigger] self.level(h)) is Some && h >= self.current_tip - SAFETY_MARGIN ==> self.trimmed().level(
                    h,
                ) == self.level(h),
    {
        self.lemma_level(self.current_tip as int);
        let excess = self.current_tip - self.base() - (self.total_size + SAFETY_MARGIN);
        let after = self.trimmed();
        if excess > 0 {
            assert(after.levels[0] == self.levels[excess]);
            assert(self.levels[excess].height == self.levels[0].height + excess);
            assert forall|h: int| (#[trigger] after.level(h)) is Some implies after.level(h) == self.level(h) by {
                assert(after.levels[h - after.base()] == self.levels[h - self.base()]);
            }
            assert forall|h: int|
                (#[trigger] self.level(h)) is Some && h >= self.current_tip - SAFETY_MARGIN implies after.level(h)
                == self.level(h) by {
                assert(after.levels[h - after.base()] == self.levels[h - self.base()]);
            }
        }
    }

    proof fn lemma_advanced_moves(self, block: BlockView)
        requires
            self.ordered(),
            self.block_at(block.height as int, block.hash) == Some(block),
            forall|h: int|
                h > block.height && (#[trigger] self.level(h)) is Some ==> (self.level(h)->Some_0).chain_block
                    == FixedHash::spec_zero(),
            block.height > 0 ==> {
                &&& self.level(block.height - 1) is Some
                &&& (self.level(block.height - 1)->Some_0).chain_block == block.prev_hash
            },
        ensures
            self.advanced(block).moves_to(self, block),
    {
        let height = block.height as int;
        self.lemma_level(height);
        self.lemma_advanced(block);
        let level = LevelView { chain_block: block.hash, ..self.level(height)->Some_0 };
        self.lemma_with_level(height, level);
        let linked = self.with_chain_block(height, block.hash);
        let before = ChainView {
            window: crate::sharechain::difficulty_window::DifficultyWindow::newer(
                self.window,
                block.timestamp,
                block.target_difficulty,
            ),
            cached_shares: None,
            current_tip: block.height,
            ..linked
        };
        assert(before.levels == linked.levels);
        assert(before.ordered());
        assert forall|h: int| #[trigger] before.level(h) == linked.level(h) by {}
        before.lemma_trimmed_levels();
        let after = self.advanced(block);
        assert(after == before.trimmed());
        assert forall|h: int, hash: BlockHash|
            (#[trigger] after.block_at(h, hash)) is Some implies after.block_at(h, hash) == self.block_at(h, hash) by {
            assert(after.level(h) == before.level(h));
            if h != height {
                assert(linked.level(h) == self.level(h));
            }
        }
        assert forall|h: int| h > height && (#[trigger] after.level(h)) is Some implies (after.level(
            h,
        )->Some_0).chain_block == FixedHash::spec_zero() by {
            assert(after.level(h) == before.level(h));
            assert(linked.level(h) == self.level(h));
        }
        if height > 0 {
            assert(linked.level(height - 1) == self.level(height - 1));
            assert(before.level(height - 1) is Some);
            assert(after.level(height - 1) == before.level(height - 1));
        }
    }

    /// A new tip leaves the levels above it as they were.
    pub proof fn lemma_advanced_above(self, block: BlockView)
        requires
            self.ordered(),
            self.level(block.height as int) is Some,
        ensures
            forall|h: int| h > block.height ==> #[trigger] self.advanced(block).level(h) == self.level(h),
    {
        let height = block.height as int;
        self.lemma_level(height);
        self.lemma_advanced(block);
        let level = LevelView { chain_block: block.hash, ..self.level(height)->Some_0 };
        self.lemma_with_level(height, level);
        let linked = self.with_chain_block(height, block.hash);
        let before = ChainView {
            window: crate::sharechain::difficulty_window::DifficultyWindow::newer(
                self.window,
                block.timestamp,
                block.target_difficulty,
            ),
            cached_shares: None,
            current_tip: block.height,
            ..linked
        };
        assert(before.levels == linked.levels);
        assert(before.ordered());
        before.lemma_trimmed_levels();
        let after = self.advanced(block);
        assert(after == before.trimmed());
        assert forall|h: int| h > height implies #[trigger] after.level(h) == self.level(h) by {
            assert(before.level(h) == linked.level(h));
            assert(linked.level(h) == self.level(h));
            if after.level(h) is Some {
                assert(after.level(h) == before.level(h));
            } else if before.level(h) is Some {
                assert(after.level(h) == before.level(h));
            }
        }
    }

    pub proof fn lemma_relinked_blocks(self, block: BlockView, counter: int)
        requires
            self.ordered(),
            self.levels.len() > 0,
        ensures
            self.relinked(block, counter).0.levels.len() == self.levels.len(),
            self.relinked(block, counter).0.sync_store == self.sync_store,
            forall|h: int, hash: BlockHash| #[trigger]
                self.relinked(block, counter).0.block_at(h, hash) == self.block_at(h, hash),
        decreases block.height,
    {
        if block.height > 0 && self.level(block.height - 1) is Some {
            let level = self.level(block.height - 1)->Some_0;
            self.lemma_level(block.height - 1);
            if let Some(parent) = BlockMap::find(level.blocks, block.prev_hash) {
                level.lemma_found(block.prev_hash);
                let changed = LevelView { chain_block: block.prev_hash, ..level };
                self.lemma_with_level(block.height - 1, changed);
                let linked = self.with_chain_block(block.height - 1, block.prev_hash);
                let windowed = ChainView {
                    window: crate::sharechain::difficulty_window::DifficultyWindow::older(
                        self.window,
                        parent.timestamp,
                        parent.target_difficulty,
                    ),
                    ..linked
                };
                assert(windowed.levels == linked.levels);
                assert(windowed.ordered());
                assert forall|h: int, hash: BlockHash| #[trigger]
                    windowed.block_at(h, hash) == self.block_at(h, hash) by {
                    assert(windowed.level(h) == linked.level(h));
                    if h != block.height - 1 {
                        assert(linked.level(h) == self.level(h));
                    }
                }
                windowed.lemma_relinked_blocks(parent, counter + 1);
                assert forall|h: int, hash: BlockHash| #[trigger]
                    self.relinked(block, counter).0.block_at(h, hash) == self.block_at(h, hash) by {
                    assert(windowed.block_at(h, hash) == self.block_at(h, hash));
                    assert(windowed.relinked(parent, counter + 1).0.block_at(h, hash) == windowed.block_at(h, hash));
                }
            }
        }
    }

    /// Relinking links the block to its parent first of all.
    proof fn lemma_relinked_parent(self, block: BlockView)
        requires
            self.ordered(),
            block.height > 0,
            self.parent_of(block) is Some,
        ensures
            self.relinked(block, 0).0.level(block.height - 1) is Some,
            (self.relinked(block, 0).0.level(block.height - 1)->Some_0).chain_block == block.prev_hash,
    {
        let below = block.height - 1;
        self.lemma_block(below, block.prev_hash);
        let level = self.level(below)->Some_0;
        self.lemma_level(below);
        let parent = self.parent_of(block)->Some_0;
        let changed = LevelView { chain_block: block.prev_hash, ..level };
        self.lemma_with_level(below, changed);
        let linked = self.with_chain_block(below, block.prev_hash);
        let windowed = ChainView {
            window: crate::sharechain::difficulty_window::DifficultyWindow::older(
                self.window,
                parent.timestamp,
                parent.target_difficulty,
            ),
            ..linked
        };
        assert(windowed.levels == linked.levels);
        assert(windowed.ordered());
        assert(windowed.level(below) == linked.level(below));
        windowed.lemma_relinked(parent, 1);
        assert(windowed.relinked(parent, 1).0.level(below) == windowed.level(below));
    }

    proof fn lemma_switched_moves(self, block: BlockView)
        requires
            self.ordered(),
            self.block_at(block.height as int, block.hash) == Some(block),
            block.height > 0 ==> self.parent_of(block) is Some,
        ensures
            self.switched(block).relinked(block, 0).0.moves_to(self, block),
    {
        let height = block.height as int;
        self.lemma_level(height);
        self.lemma_switched(block);
        let switched = self.switched(block);
        let after = switched.relinked(block, 0).0;
        switched.lemma_relinked(block, 0);
        switched.lemma_relinked_blocks(block, 0);
        assert forall|h: int, hash: BlockHash| #[trigger]
            switched.block_at(h, hash) == self.block_at(h, hash) by {
            assert(switched.level(h) is Some <==> self.level(h) is Some);
        }
        assert forall|h: int, hash: BlockHash|
            (#[trigger] after.block_at(h, hash)) is Some implies after.block_at(h, hash) == self.block_at(h, hash) by {
            assert(switched.block_at(h, hash) == self.block_at(h, hash));
        }
        assert(switched.levels[height - self.base()] == LevelView {
            chain_block: block.hash,
            ..self.levels[height - self.base()]
        });
        assert(after.level(height) == switched.level(height));
        assert forall|h: int| h > height && (#[trigger] after.level(h)) is Some implies (after.level(
            h,
        )->Some_0).chain_block == FixedHash::spec_zero() by {
            assert(after.level(h) == switched.level(h));
        }
        if height > 0 {
            assert(switched.parent_of(block) == self.parent_of(block));
            switched.lemma_relinked_parent(block);
        }
    }

    /// The block lies so far in front that it is kept aside, and enough blocks that were kept aside link up with it: they
    /// are let into the chain.
    pub open spec fn lets_in(self, block: BlockView) -> bool {
        self.takes(block.height) && block.height >= self.horizon() && ChainView::linked_up(
            self.stored(block).sync_store,
            block,
        ).len() > MIN_SYNC_CHAIN
    }

    /// Of the blocks with the hashes `hashes[from..]`, which are let in one after the other, one pushes out the tip that
    /// there is when its turn comes.
    pub open spec fn pushes_out(self, hashes: Seq<BlockHash>, from: int, fuel: nat) -> bool
        decreases hashes.len() - from,
    {
        if from < 0 || from >= hashes.len() {
            false
        } else {
            match BlockMap::find(self.sync_store, hashes[from]) {
                None => false,
                Some(block) => self.pushed_out_by(block) || match self.added(block, fuel) {
                    Some((next, Ok(_))) => next.pushes_out(hashes, from + 1, fuel),
                    _ => false,
                },
            }
        }
    }

    /// With the block, blocks are let in that were kept aside, and one of them pushes the tip out.
    pub open spec fn loses_tip(self, block: BlockView, fuel: nat) -> bool {
        let kept = self.stored(block);
        self.lets_in(block) && kept.pushes_out(ChainView::linked_up(kept.sync_store, block), 0, fuel)
    }

    /// A block that would be put on top of the tip though it does not lie above it: only one of height 0 can be.
    pub open spec fn undercuts(self, block: BlockView) -> bool {
        block.height == 0 && self.tip() is Some && (self.tip()->Some_0).chain_block == block.prev_hash
    }

    proof fn lemma_chosen_sound(self, block: BlockView, named: spec_fn(BlockHash) -> BlockView)
        requires
            self.sound(named),
            self.block_at(block.height as int, block.hash) == Some(block),
            block.verified,
            block.height > 0 ==> self.parent_of(block) is Some,
            !self.undercuts(block),
        ensures
            self.chosen(block).0.sound(named),
            self.chosen(block).0.no_weaker(self),
            self.chosen(block).0 == self || self.chosen(block).0.tip_pow() == block.total_pow,
    {
        let height = block.height as int;
        assert(ChainView::genuine(named, block));
        if self.tip() is None && height == 0 {
            self.lemma_advanced_moves(block);
            self.advanced(block).lemma_moved_sound(self, block, named);
        } else if self.tip() is Some && (self.tip()->Some_0).chain_block == block.prev_hash {
            let tip = self.current_tip as int;
            let main = self.block_at(tip, block.prev_hash)->Some_0;
            let parent = self.parent_of(block)->Some_0;
            assert(self.block_at(tip, block.prev_hash) is Some);
            assert(self.block_at(height - 1, block.prev_hash) is Some);
            assert(ChainView::genuine(named, main));
            assert(ChainView::genuine(named, parent));
            self.lemma_block(tip, block.prev_hash);
            self.lemma_block(height - 1, block.prev_hash);
            assert(ChainView::unchecked(main).height == ChainView::unchecked(parent).height);
            assert(main.total_pow == named(block.prev_hash).total_pow);
            if self.uncle_fault(block.uncles, 0) is None {
                self.lemma_advanced_moves(block);
                self.advanced(block).lemma_moved_sound(self, block, named);
            }
        } else {
            self.lemma_switched_moves(block);
            self.switched(block).relinked(block, 0).0.lemma_moved_sound(self, block, named);
        }
    }

    proof fn lemma_step_sound(self, height: u64, hash: BlockHash, named: spec_fn(BlockHash) -> BlockView)
        requires
            self.sound(named),
            self.block_at(height as int, hash) matches Some(block) ==> !self.undercuts(block),
        ensures
            self.step(height, hash).0.sound(named),
            self.step(height, hash).0.no_weaker(self),
    {
        reveal(ChainView::step);
        if let Some(block) = self.block_at(height as int, hash) {
            self.lemma_block(height as int, hash);
            assert(ChainView::genuine(named, block));
            if self.missing_links(block).len() == 0 {
                if height > 0 {
                    self.lemma_lacks_nothing(block);
                }
                if block.verified {
                    self.lemma_chosen_sound(block, named);
                } else if self.work_fault(block) is None {
                    let verified = BlockView { verified: true, ..block };
                    if height > 0 {
                        let parent = self.parent_of(block)->Some_0;
                        assert(self.block_at(height - 1, block.prev_hash) == Some(parent));
                        self.lemma_block(height - 1, block.prev_hash);
                        assert(ChainView::genuine(named, parent));
                        assert(ChainView::unchecked(parent).total_pow == parent.total_pow);
                        crate::sharechain::chain_laws::lemma_own_work_positive(
                            self,
                            block,
                            block.uncles.len() as int,
                        );
                    }
                    assert(ChainView::unchecked(verified) == ChainView::unchecked(block));
                    self.lemma_put(height as int, verified);
                    self.lemma_put_sound(height as int, verified, named);
                    let marked = self.marked(block);
                    assert(marked.block_at(height as int, hash) == Some(verified));
                    if height > 0 {
                        assert(marked.block_at(height - 1, block.prev_hash) == self.block_at(
                            height - 1,
                            block.prev_hash,
                        ));
                    }
                    marked.lemma_chosen_sound(verified, named);
                }
            }
        }
    }

    /// What a step leads to lies above the block that it looked at.
    proof fn lemma_step_leads_up(self, height: u64, hash: BlockHash)
        requires
            self.ordered(),
        ensures
            self.step(height, hash).1 matches Ok((_, more)) ==> forall|i: int|
                0 <= i < more.len() ==> (#[trigger] more[i]).0 > height,
    {
        reveal(ChainView::step);
        self.lemma_step(height, hash);
        if let Some(block) = self.block_at(height as int, hash) {
            self.lemma_block(height as int, hash);
            self.lemma_links_above(height as int, hash);
            self.step(height, hash).0.lemma_links_above(height as int, hash);
            if !block.verified && self.missing_links(block).len() == 0 && self.work_fault(block) is None {
                self.lemma_marked(block);
                self.marked(block).lemma_links_above(height as int, hash);
            }
        }
    }

    proof fn lemma_links_above(self, height: int, hash: BlockHash)
        requires
            self.ordered(),
        ensures
            forall|i: int|
                0 <= i < self.linked_to(height, hash).len() ==> (#[trigger] self.linked_to(height, hash)[i]).0
                    > height,
    {
        let first = self.links_at(height + 1, hash);
        let second = self.links_at(height + 2, hash);
        if self.level(height + 1) is Some {
            self.lemma_level(height + 1);
            let level = self.level(height + 1)->Some_0;
            ChainView::lemma_block_links(level.blocks, hash, level.blocks.len() as int, level.height);
        }
        if self.level(height + 2) is Some {
            self.lemma_level(height + 2);
            let level = self.level(height + 2)->Some_0;
            ChainView::lemma_block_links(level.blocks, hash, level.blocks.len() as int, level.height);
        }
        assert forall|i: int| 0 <= i < (first + second).len() implies (#[trigger] (first + second)[i]).0 > height by {
            if i < first.len() {
                assert((first + second)[i] == first[i]);
            } else {
                assert((first + second)[i] == second[i - first.len()]);
            }
        }
    }

    proof fn lemma_queued_above(
        work: Seq<(u64, BlockHash)>,
        more: Seq<(u64, BlockHash)>,
        from: int,
        current: (u64, BlockHash),
    )
        requires
            0 <= from,
            forall|i: int| 0 <= i < work.len() ==> (#[trigger] work[i]).0 > 0,
            forall|i: int| 0 <= i < more.len() ==> (#[trigger] more[i]).0 > 0,
        ensures
            forall|i: int|
                0 <= i < ChainView::queued(work, more, from, current).len() ==> (#[trigger] ChainView::queued(
                    work,
                    more,
                    from,
                    current,
                )[i]).0 > 0,
        decreases more.len() - from,
    {
        if from < more.len() {
            if work.contains(more[from]) || more[from] == current {
                ChainView::lemma_queued_above(work, more, from + 1, current);
                assert(ChainView::queued(work, more, from, current) == ChainView::queued(
                    work,
                    more,
                    from + 1,
                    current,
                ));
            } else {
                let longer = work.push(more[from]);
                assert forall|i: int| 0 <= i < longer.len() implies (#[trigger] longer[i]).0 > 0 by {
                    if i < work.len() {
                        assert(longer[i] == work[i]);
                    }
                }
                ChainView::lemma_queued_above(longer, more, from + 1, current);
                assert(ChainView::queued(work, more, from, current) == ChainView::queued(
                    longer,
                    more,
                    from + 1,
                    current,
                ));
            }
        }
    }

    proof fn lemma_run_sound(
        self,
        work: Seq<(u64, BlockHash)>,
        outcome: AddView,
        fuel: nat,
        named: spec_fn(BlockHash) -> BlockView,
    )
        requires
            self.sound(named),
            self.run(work, outcome, fuel) is Some,
            forall|i: int| 0 < i < work.len() ==> (#[trigger] work[i]).0 > 0,
            work.len() > 0 && work[0].0 == 0 ==> (self.block_at(0, work[0].1) matches Some(block)
                ==> !self.undercuts(block)),
        ensures
            (self.run(work, outcome, fuel)->Some_0).0.sound(named),
            (self.run(work, outcome, fuel)->Some_0).0.no_weaker(self),
        decreases fuel,
    {
        if work.len() > 0 {
            let (height, hash) = work[0];
            if self.block_at(height as int, hash) is Some {
                self.lemma_block(height as int, hash);
            }
            self.lemma_step_sound(height, hash, named);
            self.lemma_step_leads_up(height, hash);
            let next = self.step(height, hash).0;
            match self.step(height, hash).1 {
                Err(_) => {},
                Ok((added, more)) => {
                    let combined = outcome.combined(added);
                    if combined.missing.len() < MAX_MISSING_PARENTS {
                        let rest = work.skip(1);
                        assert forall|i: int| 0 <= i < rest.len() implies (#[trigger] rest[i]).0 > 0 by {
                            assert(rest[i] == work[i + 1]);
                        }
                        ChainView::lemma_queued_above(rest, more, 0, work[0]);
                        next.lemma_run_sound(
                            ChainView::queued(rest, more, 0, work[0]),
                            combined,
                            (fuel - 1) as nat,
                            named,
                        );
                    }
                },
            }
        }
    }
}

/// An empty chain is sound, whatever hashes stand for.
pub proof fn law_empty_chain_is_sound(
    total_size: u64,
    share_window: u64,
    block_time: u64,
    named: spec_fn(BlockHash) -> BlockView,
)
    requires
        total_size + SAFETY_MARGIN + MAX_EXTRA_SYNC <= u64::MAX,
    ensures
        ChainView::fresh(total_size, share_window, block_time).sound(named),
{
}

/// A chain stays sound with every block that is added, whether the call succeeds or not, and whether blocks are let in
/// that were kept aside or not. So after every call the tip is a block of its level, no level above it has a block in the
/// main chain, and the level below it has the tip's parent there, unless that level has left a full chain.
///
/// A call never loses work either: a tip stays a tip, and its work does not shrink. Only blocks that are let in can push
/// the tip out, and only if one of them lies a whole capacity above it.
///
/// Hashes stand for blocks: `named` gives the block of each hash, and the block that is added is the one of its hash, not
/// yet checked. A block of height 0 that names the tip as its parent is not spoken of.
pub proof fn law_main_chain_never_loses_work(
    chain: ChainView,
    block: BlockView,
    fuel: nat,
    named: spec_fn(BlockHash) -> BlockView,
)
    requires
        chain.sound(named),
        chain.add_block(block, fuel) is Some,
        !chain.undercuts(block),
        !block.verified,
        block == named(block.hash),
        block.hash != FixedHash::spec_zero(),
        block.total_pow >= 1,
    ensures
        ({
            let after = (chain.add_block(block, fuel)->Some_0).0;
            &&& after.sound(named)
            &&& !chain.loses_tip(block, fuel) ==> {
                &&& chain.tip() is Some ==> after.tip() is Some
                &&& after.tip_pow() >= chain.tip_pow()
            }
        }),
{
    assert(ChainView::unchecked(block) == block);
    if !chain.takes(block.height) {
    } else if block.height >= chain.horizon() {
        let kept = chain.stored(block);
        lemma_stored_sound(chain, block, named);
        let hashes = ChainView::linked_up(kept.sync_store, block);
        if hashes.len() > MIN_SYNC_CHAIN {
            lemma_added_all_sound(kept, hashes, 0, AddView::nothing(), fuel, named);
        }
    } else if !ChainView::uncle_is_parent(block) {
        lemma_added_sound(chain, block, fuel, named);
    }
}

/// Keeping a genuine block aside leaves the chain sound and its tip as it was.
proof fn lemma_stored_sound(chain: ChainView, block: BlockView, named: spec_fn(BlockHash) -> BlockView)
    requires
        chain.sound(named),
        chain.takes(block.height),
        block.height > 0,
        ChainView::genuine(named, block),
    ensures
        chain.stored(block).sound(named),
        chain.stored(block).tip() == chain.tip(),
        chain.stored(block).tip_pow() == chain.tip_pow(),
{
    let kept = chain.stored(block);
    crate::sharechain::chain_laws::lemma_stored_wf(chain, block);
    assert forall|h: int| #[trigger] kept.level(h) == chain.level(h) by {}
    assert forall|h: int, hash: BlockHash|
        (#[trigger] kept.block_at(h, hash)) is Some implies ChainView::genuine(
        named,
        kept.block_at(h, hash)->Some_0,
    ) by {
        assert(chain.block_at(h, hash) == kept.block_at(h, hash));
    }
    let dropped = chain.sync_store.len() > MAX_SYNC_STORE && chain.sync_order.len() > 0;
    let store = if dropped {
        BlockMap::without(chain.sync_store, chain.sync_order.last())
    } else {
        chain.sync_store
    };
    BlockMap::lemma_without(chain.sync_store, chain.sync_order.last());
    BlockMap::lemma_with(store, block);
    assert forall|i: int| 0 <= i < store.len() implies ChainView::genuine(named, #[trigger] store[i])
        && store[i].height > 0 by {
        if dropped && BlockMap::has(chain.sync_store, chain.sync_order.last()) {
            let k = BlockMap::index_in(chain.sync_store, chain.sync_order.last());
            assert(store[i] == chain.sync_store[if i < k {
                i
            } else {
                i + 1
            }]);
        }
    }
    assert forall|i: int|
        0 <= i < kept.sync_store.len() implies ChainView::genuine(named, #[trigger] kept.sync_store[i])
        && kept.sync_store[i].height > 0 by {
        if i < store.len() {
            assert(kept.sync_store[i] == store[i] || kept.sync_store[i] == block);
        }
    }
}

/// Adding a genuine block leaves the chain sound, and no weaker unless the block pushes the tip out.
proof fn lemma_added_sound(chain: ChainView, block: BlockView, fuel: nat, named: spec_fn(BlockHash) -> BlockView)
    requires
        chain.sound(named),
        chain.takes(block.height),
        chain.added(block, fuel) is Some,
        ChainView::genuine(named, block),
        !chain.undercuts(block),
    ensures
        (chain.added(block, fuel)->Some_0).0.sound(named),
        !chain.pushed_out_by(block) ==> (chain.added(block, fuel)->Some_0).0.no_weaker(chain),
{
    let bare = chain.without_shares();
    lemma_bare_sound(chain, named);
    bare.lemma_placed_sound(block, named);
    bare.lemma_placed(block);
    let (placed, room) = bare.placed(block);
    if room {
        placed.lemma_run_sound(seq![(block.height, block.hash)], AddView::nothing(), fuel, named);
    }
}

/// Letting blocks in from the store leaves the chain sound, and no weaker unless one of them pushes the tip out.
proof fn lemma_added_all_sound(
    chain: ChainView,
    hashes: Seq<BlockHash>,
    from: int,
    outcome: AddView,
    fuel: nat,
    named: spec_fn(BlockHash) -> BlockView,
)
    requires
        chain.sound(named),
        chain.added_all(hashes, from, outcome, fuel) is Some,
    ensures
        (chain.added_all(hashes, from, outcome, fuel)->Some_0).0.sound(named),
        !chain.pushes_out(hashes, from, fuel) ==> (chain.added_all(hashes, from, outcome, fuel)->Some_0).0.no_weaker(
            chain,
        ),
    decreases hashes.len() - from,
{
    if 0 <= from < hashes.len() && BlockMap::find(chain.sync_store, hashes[from]) is Some {
        let block = BlockMap::find(chain.sync_store, hashes[from])->Some_0;
        BlockMap::lemma_found(chain.sync_store, hashes[from]);
        let place = BlockMap::index_in(chain.sync_store, hashes[from]);
        assert(ChainView::genuine(named, chain.sync_store[place]));
        lemma_added_sound(chain, block, fuel, named);
        match chain.added(block, fuel) {
            Some((next, Ok(added))) => {
                lemma_added_all_sound(next, hashes, from + 1, outcome.combined(added), fuel, named);
            },
            _ => {},
        }
    }
}

proof fn lemma_bare_sound(chain: ChainView, named: spec_fn(BlockHash) -> BlockView)
    requires
        chain.sound(named),
    ensures
        chain.without_shares().sound(named),
        chain.without_shares().tip() == chain.tip(),
        chain.without_shares().tip_pow() == chain.tip_pow(),
        chain.without_shares().horizon() == chain.horizon(),
{
    let bare = chain.without_shares();
    assert forall|h: int| #[trigger] bare.level(h) == chain.level(h) by {}
    assert forall|h: int, hash: BlockHash|
        (#[trigger] bare.block_at(h, hash)) is Some implies ChainView::genuine(
        named,
        bare.block_at(h, hash)->Some_0,
    ) by {
        assert(chain.block_at(h, hash) == bare.block_at(h, hash));
    }
}

/// Whatever blocks are there already, after the block that comes next has been added the chain has a tip, and at least
/// the work of that block.
pub proof fn law_next_block_counts(
    chain: ChainView,
    block: BlockView,
    fuel: nat,
    named: spec_fn(BlockHash) -> BlockView,
)
    requires
        chain.sound(named),
        chain.takes(block.height),
        chain.comes_next(block),
        chain.add_block(block, fuel) is Some,
        block.height < chain.horizon(),
        !block.verified,
        block == named(block.hash),
        block.total_pow >= 1,
    ensures
        (chain.add_block(block, fuel)->Some_0).0.tip() is Some,
        (chain.add_block(block, fuel)->Some_0).0.tip_pow() >= block.total_pow,
{
    let bare = chain.without_shares();
    lemma_bare_sound(chain, named);
    assert(ChainView::unchecked(block) == block);
    bare.lemma_placed_sound(block, named);
    crate::sharechain::payout_laws::lemma_next_uncles(chain, block);
    crate::sharechain::payout_laws::lemma_next_block_step(chain, block);
    let placed = bare.placed(block).0;
    let work = seq![(block.height, block.hash)];
    let after = placed.step(block.height, block.hash).0;
    placed.lemma_step_sound(block.height, block.hash, named);
    placed.lemma_step_leads_up(block.height, block.hash);
    let (added, more) = placed.step(block.height, block.hash).1->Ok_0;
    let combined = AddView::nothing().combined(added);
    assert(work.skip(1) =~= Seq::empty());
    ChainView::lemma_queued_above(work.skip(1), more, 0, work[0]);
    let rest = ChainView::queued(work.skip(1), more, 0, work[0]);
    assert(placed.run(work, AddView::nothing(), fuel) is Some);
    if combined.missing.len() < MAX_MISSING_PARENTS {
        after.lemma_run_sound(rest, combined, (fuel - 1) as nat, named);
    }
}

}
