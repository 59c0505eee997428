//! Facts about the functions on a chain's contents.
use crate::sharechain::block_map::BlockMap;
use crate::sharechain::chain_model::{AddView, ChainView, MAX_MISSING_PARENTS, SAFETY_MARGIN};
use crate::sharechain::error::ShareChainError;
use crate::sharechain::p2block::BlockView;
use crate::sharechain::p2chain_level::LevelView;
use crate::types::BlockHash;
use vstd::prelude::*;

verus! {

impl AddView {
    /// The hash at a place is the one that is found there.
    pub proof fn lemma_place(missing: Seq<(BlockHash, u64)>, i: int)
        requires
            AddView::distinct(missing),
            0 <= i < missing.len(),
        ensures
            AddView::lists(missing, missing[i].0),
            AddView::place_of(missing, missing[i].0) == i,
    {
    }

    /// Noting a block keeps the hashes distinct.
    pub proof fn lemma_noted(missing: Seq<(BlockHash, u64)>, hash: BlockHash, height: u64)
        requires
            AddView::distinct(missing),
        ensures
            AddView::distinct(AddView::noted(missing, hash, height)),
            AddView::lists(AddView::noted(missing, hash, height), hash),
            AddView::noted(missing, hash, height).len() > 0,
    {
        let after = AddView::noted(missing, hash, height);
        if AddView::lists(missing, hash) {
            let k = AddView::place_of(missing, hash);
            assert(after[k] == (hash, height));
            assert forall|a: int, b: int|
                0 <= a < after.len() && 0 <= b < after.len() && (#[trigger] after[a]).0 == (
                #[trigger] after[b]).0 implies a == b by {
                assert(after[a].0 == missing[a].0);
                assert(after[b].0 == missing[b].0);
            }
        } else {
            assert(after[missing.len() as int] == (hash, height));
            assert forall|a: int, b: int|
                0 <= a < after.len() && 0 <= b < after.len() && (#[trigger] after[a]).0 == (
                #[trigger] after[b]).0 implies a == b by {
                if a < missing.len() {
                    assert(after[a] == missing[a]);
                }
                if b < missing.len() {
                    assert(after[b] == missing[b]);
                }
            }
        }
    }

    /// Noting several blocks keeps the hashes distinct.
    pub proof fn lemma_noted_all(missing: Seq<(BlockHash, u64)>, more: Seq<(BlockHash, u64)>, from: int)
        requires
            AddView::distinct(missing),
        ensures
            AddView::distinct(AddView::noted_all(missing, more, from)),
        decreases more.len() - from,
    {
        if from < 0 || from >= more.len() || missing.len() >= MAX_MISSING_PARENTS {
        } else {
            AddView::lemma_noted(missing, more[from].0, more[from].1);
            AddView::lemma_noted_all(AddView::noted(missing, more[from].0, more[from].1), more, from + 1);
        }
    }
}

impl ChainView {
    /// Uncles and parents that the first `n` blocks name.
    pub open spec fn names(blocks: Seq<BlockView>, n: int) -> nat
        decreases n,
    {
        if n <= 0 {
            0
        } else {
            ChainView::names(blocks, n - 1) + 1 + blocks[n - 1].uncles.len()
        }
    }

    /// No level names more than `m` blocks.
    pub open spec fn names_at_most(self, m: nat) -> bool {
        forall|i: int|
            0 <= i < self.levels.len() ==> ChainView::names(
                (#[trigger] self.levels[i]).blocks,
                self.levels[i].blocks.len() as int,
            ) <= m
    }

    /// The chain may have come from `before` by steps: its settings and what is kept aside are the same, its top is
    /// where it was, no shares have come to be kept, and its levels name no more than they did.
    pub open spec fn follows(self, before: ChainView) -> bool {
        &&& self.ordered()
        &&& self.levels.len() > 0
        &&& before.levels.len() > 0
        &&& self.top() == before.top()
        &&& self.base() >= before.base()
        &&& self.total_size == before.total_size
        &&& self.share_window == before.share_window
        &&& self.block_time == before.block_time
        &&& self.sync_store == before.sync_store
        &&& self.sync_order == before.sync_order
        &&& before.cached_shares is None ==> self.cached_shares is None
        &&& forall|m: nat| #[trigger] before.names_at_most(m) ==> self.names_at_most(m)
    }

    /// A level that is found is well formed and has the height that was asked for.
    pub proof fn lemma_level(self, height: int)
        requires
            self.ordered(),
            self.level(height) is Some,
        ensures
            (self.level(height)->Some_0).wf(),
            (self.level(height)->Some_0).height == height,
            0 <= height - self.base() < self.levels.len(),
            self.levels[height - self.base()] == self.level(height)->Some_0,
            self.base() <= height <= self.top(),
    {
        assert(self.levels[height - self.base()].wf());
        assert(self.levels[self.levels.len() - 1].wf());
    }

    /// A block that is found has the height and the hash that were asked for.
    pub proof fn lemma_block(self, height: int, hash: BlockHash)
        requires
            self.ordered(),
            self.block_at(height, hash) is Some,
        ensures
            (self.block_at(height, hash)->Some_0).height == height,
            (self.block_at(height, hash)->Some_0).hash == hash,
            self.level(height) is Some,
    {
        self.lemma_level(height);
        (self.level(height)->Some_0).lemma_found(hash);
    }

    /// A chain stays well formed when a level is replaced by a well-formed one of the same height.
    pub proof fn lemma_with_level(self, height: int, level: LevelView)
        requires
            self.ordered(),
            self.level(height) is Some,
            level.wf(),
            level.height == height,
        ensures
            self.with_level(height, level).ordered(),
            self.with_level(height, level).level(height) == Some(level),
            self.with_level(height, level).base() == self.base(),
            self.with_level(height, level).top() == self.top(),
            forall|h: int| h != height ==> #[trigger] self.with_level(height, level).level(h) == self.level(h),
    {
        self.lemma_level(height);
        let place = height - self.base();
        let after = self.with_level(height, level);
        assert(after.levels[place] == level);
        assert forall|i: int| 0 <= i < after.levels.len() implies (#[trigger] after.levels[i]).wf()
            && after.levels[i].height == after.levels[0].height + i by {
            assert(self.levels[i].wf() && self.levels[i].height == self.levels[0].height + i);
        }
        assert(self.levels[self.levels.len() - 1].wf());
    }

    /// A chain with another level that names as much as the one before follows it.
    pub proof fn lemma_with_level_follows(self, height: int, level: LevelView)
        requires
            self.ordered(),
            self.level(height) is Some,
            level.wf(),
            level.height == height,
            ChainView::names(level.blocks, level.blocks.len() as int) <= ChainView::names(
                (self.level(height)->Some_0).blocks,
                (self.level(height)->Some_0).blocks.len() as int,
            ),
        ensures
            self.with_level(height, level).follows(self),
    {
        self.lemma_with_level(height, level);
        self.lemma_level(height);
        let after = self.with_level(height, level);
        let place = height - self.base();
        assert forall|m: nat| #[trigger] self.names_at_most(m) implies after.names_at_most(m) by {
            assert forall|i: int| 0 <= i < after.levels.len() implies ChainView::names(
                (#[trigger] after.levels[i]).blocks,
                after.levels[i].blocks.len() as int,
            ) <= m by {
                assert(ChainView::names(self.levels[i].blocks, self.levels[i].blocks.len() as int) <= m);
            }
        }
    }

    /// What follows what follows a chain follows it.
    pub proof fn lemma_follows_transitive(self, between: ChainView, before: ChainView)
        requires
            self.follows(between),
            between.follows(before),
        ensures
            self.follows(before),
    {
    }

    proof fn lemma_names_of_update(blocks: Seq<BlockView>, i: int, block: BlockView, n: int)
        requires
            0 <= i < blocks.len(),
            block.uncles == blocks[i].uncles,
            0 <= n <= blocks.len(),
        ensures
            ChainView::names(blocks.update(i, block), n) == ChainView::names(blocks, n),
        decreases n,
    {
        if n > 0 {
            ChainView::lemma_names_of_update(blocks, i, block, n - 1);
        }
    }

    /// Marking a block as verified keeps the chain in order.
    pub proof fn lemma_marked(self, block: BlockView)
        requires
            self.ordered(),
            self.block_at(block.height as int, block.hash) == Some(block),
        ensures
            self.marked(block).follows(self),
            self.marked(block).block_at(block.height as int, block.hash) == Some(
                BlockView { verified: true, ..block },
            ),
    {
        let height = block.height as int;
        self.lemma_level(height);
        let level = self.level(height)->Some_0;
        let verified = BlockView { verified: true, ..block };
        level.lemma_found(block.hash);
        level.lemma_with(verified);
        BlockMap::lemma_with(level.blocks, verified);
        let i = BlockMap::index_in(level.blocks, block.hash);
        BlockMap::lemma_found(level.blocks, block.hash);
        ChainView::lemma_names_of_update(level.blocks, i, verified, level.blocks.len() as int);
        let after = LevelView { blocks: BlockMap::with(level.blocks, verified), ..level };
        self.lemma_with_level(height, after);
        self.lemma_with_level_follows(height, after);
    }

    /// Changing the main chain at one height keeps the chain in order.
    pub proof fn lemma_with_chain_block(self, height: int, hash: BlockHash)
        requires
            self.ordered(),
            self.level(height) is Some,
        ensures
            self.with_chain_block(height, hash).follows(self),
            self.with_chain_block(height, hash).base() == self.base(),
    {
        self.lemma_level(height);
        let level = LevelView { chain_block: hash, ..self.level(height)->Some_0 };
        self.lemma_with_level(height, level);
        self.lemma_with_level_follows(height, level);
    }

    /// Trimming keeps the chain in order, as long as the tip is on one of its levels.
    pub proof fn lemma_trimmed(self)
        requires
            self.ordered(),
            self.level(self.current_tip as int) is Some,
        ensures
            self.trimmed().follows(self),
            self.trimmed().level(self.current_tip as int) == self.level(self.current_tip as int),
            self.trimmed().current_tip - self.trimmed().base() <= self.total_size + SAFETY_MARGIN,
    {
        self.lemma_level(self.current_tip as int);
        let excess = self.current_tip - self.base() - (self.total_size + SAFETY_MARGIN);
        let after = self.trimmed();
        if excess > 0 {
            assert(after.levels.len() == self.levels.len() - excess);
            assert(after.levels[0] == self.levels[excess]);
            assert(self.levels[excess].height == self.levels[0].height + excess);
            assert forall|i: int| 0 <= i < after.levels.len() implies (#[trigger] after.levels[i]).wf()
                && after.levels[i].height == after.levels[0].height + i by {
                assert(after.levels[i] == self.levels[excess + i]);
            }
            assert(after.levels.last() == self.levels.last());
            assert forall|m: nat| #[trigger] self.names_at_most(m) implies after.names_at_most(m) by {
                assert forall|i: int| 0 <= i < after.levels.len() implies ChainView::names(
                    (#[trigger] after.levels[i]).blocks,
                    after.levels[i].blocks.len() as int,
                ) <= m by {
                    assert(after.levels[i] == self.levels[excess + i]);
                }
            }
        }
    }

    /// A new tip keeps the chain in order.
    pub proof fn lemma_advanced(self, block: BlockView)
        requires
            self.ordered(),
            self.level(block.height as int) is Some,
        ensures
            self.advanced(block).follows(self),
            self.advanced(block).current_tip == block.height,
            self.advanced(block).level(block.height as int) == Some(
                LevelView { chain_block: block.hash, ..self.level(block.height as int)->Some_0 },
            ),
    {
        let height = block.height as int;
        self.lemma_level(height);
        self.lemma_with_chain_block(height, block.hash);
        let linked = self.with_chain_block(height, block.hash);
        let level = LevelView { chain_block: block.hash, ..self.level(height)->Some_0 };
        self.lemma_with_level(height, level);
        let before = ChainView {
            window: crate::sharechain::difficulty_window::DifficultyWindow::newer(
                self.window,
                block.timestamp,
                block.target_difficulty,
            ),
            current_tip: block.height,
            ..linked
        };
        assert(before.levels == linked.levels);
        assert(before.ordered());
        assert(before.follows(linked)) by {
            assert forall|m: nat| #[trigger] linked.names_at_most(m) implies before.names_at_most(m) by {}
        }
        assert(before.level(height) == linked.level(height));
        before.lemma_trimmed();
        before.lemma_follows_transitive(linked, self);
        before.trimmed().lemma_follows_transitive(before, self);
    }

    /// Switching to another tip keeps the chain in order.
    pub proof fn lemma_switched(self, block: BlockView)
        requires
            self.ordered(),
            self.level(block.height as int) is Some,
        ensures
            self.switched(block).follows(self),
            self.switched(block).base() == self.base(),
            self.switched(block).level(block.height as int) is Some,
            (self.switched(block).level(block.height as int)->Some_0).chain_block == block.hash,
            forall|h: int|
                (#[trigger] self.switched(block).level(h)) is Some <==> self.level(h) is Some,
            forall|h: int|
                (#[trigger] self.switched(block).level(h)) is Some ==> (self.switched(block).level(h)->Some_0).blocks
                    == (self.level(h)->Some_0).blocks,
    {
        self.lemma_level(block.height as int);
        let after = self.switched(block);
        assert forall|i: int| 0 <= i < after.levels.len() implies (#[trigger] after.levels[i]).wf()
            && after.levels[i].height == after.levels[0].height + i by {
            assert(self.levels[i].wf() && self.levels[i].height == self.levels[0].height + i);
        }
        assert(self.levels[self.levels.len() - 1].wf());
        assert forall|m: nat| #[trigger] self.names_at_most(m) implies after.names_at_most(m) by {
            assert forall|i: int| 0 <= i < after.levels.len() implies ChainView::names(
                (#[trigger] after.levels[i]).blocks,
                after.levels[i].blocks.len() as int,
            ) <= m by {
                assert(ChainView::names(self.levels[i].blocks, self.levels[i].blocks.len() as int) <= m);
            }
        }
    }

    /// Relinking keeps the chain in order.
    pub proof fn lemma_relinked(self, block: BlockView, counter: int)
        requires
            self.ordered(),
            self.levels.len() > 0,
        ensures
            self.relinked(block, counter).0.follows(self),
            self.relinked(block, counter).0.current_tip == self.current_tip,
            self.relinked(block, counter).0.base() == self.base(),
            forall|h: int|
                h >= block.height ==> #[trigger] self.relinked(block, counter).0.level(h) == self.level(h),
        decreases block.height,
    {
        if block.height == 0 || self.level(block.height - 1) is None {
        } else {
            let level = self.level(block.height - 1)->Some_0;
            self.lemma_level(block.height - 1);
            match BlockMap::find(level.blocks, block.prev_hash) {
                None => {},
                Some(parent) => {
                    level.lemma_found(block.prev_hash);
                    self.lemma_with_chain_block(block.height - 1, block.prev_hash);
                    let changed = LevelView { chain_block: block.prev_hash, ..level };
                    self.lemma_with_level(block.height - 1, changed);
                    let linked = self.with_chain_block(block.height - 1, block.prev_hash);
                    let windowed = ChainView {
                        window: crate::sharechain::difficulty_window::DifficultyWindow::older(
                            self.window,
                            parent.timestamp,
                            parent.target_difficulty,
                        ),
                        ..linked
                    };
                    assert(windowed.follows(linked)) by {
                        assert forall|m: nat| #[trigger] linked.names_at_most(m) implies windowed.names_at_most(m) by {}
                    }
                    windowed.lemma_follows_transitive(linked, self);
                    assert forall|h: int| h >= block.height implies #[trigger] windowed.level(h) == self.level(h) by {
                        assert(linked.level(h) == self.level(h));
                    }
                    windowed.lemma_relinked(parent, counter + 1);
                    windowed.relinked(parent, counter + 1).0.lemma_follows_transitive(windowed, self);
                    assert forall|h: int| h >= block.height implies #[trigger] windowed.relinked(
                        parent,
                        counter + 1,
                    ).0.level(h) == self.level(h) by {
                        assert(windowed.level(h) == self.level(h));
                    }
                },
            }
        }
    }

    /// What becomes of a block keeps the chain in order.
    pub proof fn lemma_chosen(self, block: BlockView)
        requires
            self.ordered(),
            self.level(block.height as int) is Some,
        ensures
            self.chosen(block).0.follows(self),
    {
        if self.tip() is None && block.height == 0 {
            self.lemma_advanced(block);
        } else if self.tip() is Some && (self.tip()->Some_0).chain_block == block.prev_hash {
            if self.uncle_fault(block.uncles, 0) is None {
                self.lemma_advanced(block);
            }
        } else {
            let (all_verified, missing) = self.walked_down(block, 1);
            if !all_verified || missing.len() > 0 {
            } else if block.total_pow > self.tip_pow() {
                self.lemma_switched(block);
                self.switched(block).lemma_relinked(block, 0);
                self.switched(block).relinked(block, 0).0.lemma_follows_transitive(self.switched(block), self);
            }
        }
    }

    /// A step keeps the chain in order.
    pub proof fn lemma_step(self, height: u64, hash: BlockHash)
        requires
            self.ordered(),
        ensures
            self.step(height, hash).0.ordered(),
            self.block_at(height as int, hash) is Some ==> self.step(height, hash).0.follows(self),
            self.block_at(height as int, hash) is None ==> self.step(height, hash) == (
                self,
                Err::<(AddView, Seq<(u64, BlockHash)>), _>(ShareChainError::BlockNotFound),
            ),
    {
        reveal(ChainView::step);
        match self.block_at(height as int, hash) {
            None => {},
            Some(block) => {
                self.lemma_block(height as int, hash);
                let missing = self.missing_links(block);
                if missing.len() > 0 {
                } else if block.verified {
                    self.lemma_chosen(block);
                } else {
                    match self.work_fault(block) {
                        Some(_) => {},
                        None => {
                            self.lemma_marked(block);
                            let marked = self.marked(block);
                            let verified = BlockView { verified: true, ..block };
                            marked.lemma_block(height as int, hash);
                            marked.lemma_chosen(verified);
                            marked.chosen(verified).0.lemma_follows_transitive(marked, self);
                        },
                    }
                }
            },
        }
    }

    proof fn lemma_uncle_links(block: BlockView, hash: BlockHash, n: int)
        requires
            0 <= n <= block.uncles.len(),
        ensures
            ChainView::uncle_links(block, hash, n).len() <= n,
            forall|i: int|
                0 <= i < ChainView::uncle_links(block, hash, n).len() ==> (#[trigger] ChainView::uncle_links(
                    block,
                    hash,
                    n,
                )[i]) == (block.height, block.hash),
        decreases n,
    {
        if n > 0 {
            ChainView::lemma_uncle_links(block, hash, n - 1);
        }
    }

    pub proof fn lemma_block_links(blocks: Seq<BlockView>, hash: BlockHash, n: int, height: u64)
        requires
            0 <= n <= blocks.len(),
            forall|i: int| 0 <= i < blocks.len() ==> (#[trigger] blocks[i]).height == height,
        ensures
            ChainView::block_links(blocks, hash, n).len() <= ChainView::names(blocks, n),
            forall|i: int|
                0 <= i < ChainView::block_links(blocks, hash, n).len() ==> (#[trigger] ChainView::block_links(
                    blocks,
                    hash,
                    n,
                )[i]).0 == height,
        decreases n,
    {
        if n > 0 {
            ChainView::lemma_block_links(blocks, hash, n - 1, height);
            let block = blocks[n - 1];
            ChainView::lemma_uncle_links(block, hash, block.uncles.len() as int);
            let below = ChainView::block_links(blocks, hash, n - 1);
            let uncles = ChainView::uncle_links(block, hash, block.uncles.len() as int);
            assert forall|i: int| 0 <= i < (below + uncles).len() implies (#[trigger] (below + uncles)[i]).0
                == height by {
                if i < below.len() {
                    assert((below + uncles)[i] == below[i]);
                } else {
                    assert((below + uncles)[i] == uncles[i - below.len()]);
                }
            }
        }
    }

    /// The blocks to look at next lie above the block, on levels of the chain, and there are no more than two levels
    /// name.
    pub proof fn lemma_linked_to(self, height: int, hash: BlockHash, m: nat)
        requires
            self.ordered(),
            self.levels.len() > 0,
            self.names_at_most(m),
        ensures
            self.linked_to(height, hash).len() <= 2 * m,
            forall|i: int|
                0 <= i < self.linked_to(height, hash).len() ==> height < (#[trigger] self.linked_to(
                    height,
                    hash,
                )[i]).0 <= self.top(),
    {
        let first = self.links_at(height + 1, hash);
        let second = self.links_at(height + 2, hash);
        if self.level(height + 1) is Some {
            self.lemma_level(height + 1);
            let level = self.level(height + 1)->Some_0;
            ChainView::lemma_block_links(level.blocks, hash, level.blocks.len() as int, level.height);
        }
        if self.level(height + 2) is Some {
            self.lemma_level(height + 2);
            let level = self.level(height + 2)->Some_0;
            ChainView::lemma_block_links(level.blocks, hash, level.blocks.len() as int, level.height);
        }
        assert forall|i: int| 0 <= i < (first + second).len() implies height < (#[trigger] (first + second)[i]).0
            <= self.top() by {
            if i < first.len() {
                assert((first + second)[i] == first[i]);
            } else {
                assert((first + second)[i] == second[i - first.len()]);
            }
        }
    }

    /// What a successful step leads to lies above the block, and is bounded by what the levels name.
    pub proof fn lemma_step_links(self, height: u64, hash: BlockHash, m: nat)
        requires
            self.ordered(),
            self.names_at_most(m),
            self.block_at(height as int, hash) is Some,
        ensures
            self.step(height, hash).0.names_at_most(m),
            self.step(height, hash).1 matches Ok((_, more)) ==> {
                &&& more.len() <= 2 * m
                &&& forall|i: int| 0 <= i < more.len() ==> height < (#[trigger] more[i]).0 <= self.top()
            },
    {
        reveal(ChainView::step);
        self.lemma_step(height, hash);
        self.lemma_block(height as int, hash);
        let next = self.step(height, hash).0;
        self.lemma_linked_to(height as int, hash, m);
        next.lemma_linked_to(height as int, hash, m);
        let block = self.block_at(height as int, hash)->Some_0;
        if self.missing_links(block).len() == 0 && !block.verified && self.work_fault(block) is None {
            self.lemma_marked(block);
            self.marked(block).lemma_linked_to(height as int, hash, m);
        }
    }

    /// Work that cannot be added up for some uncles cannot be added up for more.
    pub proof fn lemma_own_work_fails(self, block: BlockView, a: int, b: int)
        requires
            0 <= a <= b,
            self.own_work(block, a) is Err,
        ensures
            self.own_work(block, b) == self.own_work(block, a),
        decreases b,
    {
        if a < b {
            self.lemma_own_work_fails(block, a, b - 1);
        }
    }

    /// `base` to the power `n`.
    pub open spec fn power(base: nat, n: nat) -> nat
        decreases n,
    {
        if n == 0 {
            1
        } else {
            base * ChainView::power(base, (n - 1) as nat)
        }
    }

    proof fn lemma_power_positive(base: nat, n: nat)
        requires
            base > 0,
        ensures
            ChainView::power(base, n) > 0,
        decreases n,
    {
        if n > 0 {
            ChainView::lemma_power_positive(base, (n - 1) as nat);
            let p = ChainView::power(base, (n - 1) as nat);
            assert(base * p > 0) by (nonlinear_arith)
                requires
                    base > 0,
                    p > 0,
            ;
        }
    }

    proof fn lemma_power_grows(base: nat, a: nat, b: nat)
        requires
            base > 0,
            a <= b,
        ensures
            ChainView::power(base, a) <= ChainView::power(base, b),
        decreases b,
    {
        if a < b {
            ChainView::lemma_power_grows(base, a, (b - 1) as nat);
            let p = ChainView::power(base, (b - 1) as nat);
            assert(p <= base * p) by (nonlinear_arith)
                requires
                    base > 0,
                    p >= 0,
            ;
        }
    }

    /// How much work one entry can lead to, if each leads to less than `base` entries higher up.
    pub open spec fn weight_of(entry: (u64, BlockHash), top: int, base: nat) -> nat {
        if entry.0 <= top {
            ChainView::power(base, (top - entry.0 + 1) as nat)
        } else {
            1
        }
    }

    /// How much work a list of entries can lead to.
    pub open spec fn weight(work: Seq<(u64, BlockHash)>, top: int, base: nat) -> nat
        decreases work.len(),
    {
        if work.len() == 0 {
            0
        } else {
            ChainView::weight_of(work.last(), top, base) + ChainView::weight(work.drop_last(), top, base)
        }
    }

    proof fn lemma_weight_first(work: Seq<(u64, BlockHash)>, top: int, base: nat)
        requires
            work.len() > 0,
        ensures
            ChainView::weight(work, top, base) == ChainView::weight_of(work[0], top, base) + ChainView::weight(
                work.skip(1),
                top,
                base,
            ),
        decreases work.len(),
    {
        if work.len() == 1 {
            assert(work.skip(1) =~= Seq::empty());
            assert(work.drop_last() =~= Seq::empty());
        } else {
            ChainView::lemma_weight_first(work.drop_last(), top, base);
            assert(work.drop_last().skip(1) =~= work.skip(1).drop_last());
            assert(work.skip(1).last() == work.last());
        }
    }

    proof fn lemma_weight_of_queue(
        work: Seq<(u64, BlockHash)>,
        more: Seq<(u64, BlockHash)>,
        from: int,
        current: (u64, BlockHash),
        top: int,
        base: nat,
        unit: nat,
    )
        requires
            0 <= from <= more.len(),
            forall|i: int| 0 <= i < more.len() ==> ChainView::weight_of(#[trigger] more[i], top, base) <= unit,
        ensures
            ChainView::weight(ChainView::queued(work, more, from, current), top, base) <= ChainView::weight(
                work,
                top,
                base,
            ) + (more.len() - from) * unit,
        decreases more.len() - from,
    {
        if from < more.len() {
            let rest = more.len() - from - 1;
            assert((more.len() - from) * unit == rest * unit + unit) by (nonlinear_arith)
                requires
                    rest == more.len() - from - 1,
            ;
            if work.contains(more[from]) || more[from] == current {
                ChainView::lemma_weight_of_queue(work, more, from + 1, current, top, base, unit);
            } else {
                let longer = work.push(more[from]);
                assert(longer.drop_last() =~= work);
                ChainView::lemma_weight_of_queue(longer, more, from + 1, current, top, base, unit);
            }
        } else {
            assert((more.len() - from) * unit == 0) by (nonlinear_arith)
                requires
                    more.len() - from == 0,
            ;
        }
    }

    /// Each step leaves less work.
    pub proof fn lemma_weight_decreases(
        work: Seq<(u64, BlockHash)>,
        more: Seq<(u64, BlockHash)>,
        top: int,
        m: nat,
    )
        requires
            work.len() > 0,
            work[0].0 <= top,
            more.len() <= 2 * m,
            forall|i: int| 0 <= i < more.len() ==> work[0].0 < (#[trigger] more[i]).0 <= top,
        ensures
            ChainView::weight(ChainView::queued(work.skip(1), more, 0, work[0]), top, 2 * m + 1) < ChainView::weight(
                work,
                top,
                2 * m + 1,
            ),
    {
        let base = 2 * m + 1;
        let unit = ChainView::power(base, (top - work[0].0) as nat);
        ChainView::lemma_weight_first(work, top, base);
        ChainView::lemma_power_positive(base, (top - work[0].0) as nat);
        assert forall|i: int| 0 <= i < more.len() implies ChainView::weight_of(#[trigger] more[i], top, base)
            <= unit by {
            ChainView::lemma_power_grows(base, (top - more[i].0 + 1) as nat, (top - work[0].0) as nat);
        }
        ChainView::lemma_weight_of_queue(work.skip(1), more, 0, work[0], top, base, unit);
        let count = more.len();
        assert(count * unit < base * unit) by (nonlinear_arith)
            requires
                count <= 2 * m,
                base == 2 * m + 1,
                unit > 0,
        ;
        assert(ChainView::weight_of(work[0], top, base) == base * unit);
    }

    /// There is a bound on what the levels name.
    pub proof fn lemma_names_bounded(self) -> (m: nat)
        ensures
            self.names_at_most(m),
        decreases self.levels.len(),
    {
        if self.levels.len() == 0 {
            0
        } else {
            let shorter = ChainView { levels: self.levels.drop_last(), ..self };
            let bound = shorter.lemma_names_bounded();
            let last = ChainView::names(self.levels.last().blocks, self.levels.last().blocks.len() as int);
            let m = bound + last;
            assert forall|i: int| 0 <= i < self.levels.len() implies ChainView::names(
                (#[trigger] self.levels[i]).blocks,
                self.levels[i].blocks.len() as int,
            ) <= m by {
                if i < self.levels.len() - 1 {
                    assert(shorter.levels[i] == self.levels[i]);
                }
            }
            m
        }
    }
}

}
