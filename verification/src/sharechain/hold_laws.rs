//! Laws on what a chain holds: nothing gets in but what was added.
use crate::sharechain::block_map::BlockMap;
use crate::sharechain::chain_model::{AddView, ChainView, MAX_MISSING_PARENTS, MAX_SYNC_STORE, MIN_SYNC_CHAIN};
use crate::sharechain::p2block::BlockView;
use crate::sharechain::p2chain_level::LevelView;
use crate::types::BlockHash;
use vstd::prelude::*;

verus! {

impl ChainView {
    /// A block with the hash is on a level or kept aside.
    pub open spec fn holds(self, hash: BlockHash) -> bool {
        BlockMap::has(self.sync_store, hash) || exists|height: int| (#[trigger] self.block_at(height, hash)) is Some
    }

    /// Whatever is on the levels was there before, at the same height, but for blocks of one hash.
    pub open spec fn adds_only(self, before: ChainView, hash: BlockHash) -> bool {
        forall|h: int, other: BlockHash|
            (#[trigger] self.block_at(h, other)) is Some && other != hash ==> before.block_at(h, other) is Some
    }

    proof fn lemma_adds_transitive(self, between: ChainView, before: ChainView, hash: BlockHash)
        requires
            self.adds_only(between, hash),
            between.adds_only(before, hash),
        ensures
            self.adds_only(before, hash),
    {
        assert forall|h: int, other: BlockHash|
            (#[trigger] self.block_at(h, other)) is Some && other != hash implies before.block_at(h, other) is Some by {
            assert(between.block_at(h, other) is Some);
        }
    }

    proof fn lemma_pushed_adds(self, level: LevelView, hash: BlockHash)
        requires
            self.ordered(),
            self.levels.len() > 0,
            level.wf(),
            level.height == self.top() + 1,
            self.takes(level.height),
            forall|i: int| 0 <= i < level.blocks.len() ==> (#[trigger] level.blocks[i]).hash == hash,
        ensures
            self.pushed(level).adds_only(self, hash),
    {
        let after = self.pushed(level);
        self.lemma_pushed(level);
        let gone: int = if self.full() {
            1
        } else {
            0
        };
        assert(self.levels[self.levels.len() - 1].wf());
        assert forall|h: int, other: BlockHash|
            (#[trigger] after.block_at(h, other)) is Some && other != hash implies self.block_at(h, other) is Some by {
            after.lemma_level(h);
            after.lemma_block(h, other);
            let place = h - after.base();
            if place < after.levels.len() - 1 {
                assert(after.levels[place] == self.levels[place + gone]);
                assert(self.levels[place + gone].height == self.levels[0].height + place + gone);
                assert(self.level(h) == after.level(h));
            } else {
                assert(after.levels[place] == level);
                BlockMap::lemma_found(level.blocks, other);
            }
        }
    }

    proof fn lemma_grounded_adds(self, level: LevelView, hash: BlockHash)
        requires
            self.ordered(),
            self.levels.len() > 0,
            level.wf(),
            level.height == self.base() - 1,
            forall|i: int| 0 <= i < level.blocks.len() ==> (#[trigger] level.blocks[i]).hash == hash,
        ensures
            self.grounded(level).adds_only(self, hash),
    {
        let after = self.grounded(level);
        self.lemma_grounded(level);
        assert forall|h: int, other: BlockHash|
            (#[trigger] after.block_at(h, other)) is Some && other != hash implies self.block_at(h, other) is Some by {
            after.lemma_level(h);
            after.lemma_block(h, other);
            let place = h - after.base();
            if place > 0 {
                assert(after.levels[place] == self.levels[place - 1]);
                assert(self.level(h) == after.level(h));
            } else {
                assert(after.levels[place] == level);
                BlockMap::lemma_found(level.blocks, other);
            }
        }
    }

    proof fn lemma_raised_adds(self, height: int, hash: BlockHash)
        requires
            self.ordered(),
            self.levels.len() > 0,
            self.top() < height,
            height + self.capacity() <= u64::MAX,
        ensures
            self.raised(height).adds_only(self, hash),
        decreases height - self.top(),
    {
        if self.top() < height - 1 {
            let level = LevelView::empty((self.top() + 1) as u64);
            assert(self.levels[self.levels.len() - 1].wf());
            self.lemma_pushed(level);
            self.lemma_pushed_adds(level, hash);
            self.pushed(level).lemma_raised_adds(height, hash);
            self.raised(height).lemma_adds_transitive(self.pushed(level), self, hash);
        }
    }

    proof fn lemma_lowered_adds(self, height: int, hash: BlockHash)
        requires
            self.ordered(),
            self.levels.len() > 0,
            0 <= height < self.base(),
        ensures
            self.lowered(height).0.adds_only(self, hash),
        decreases self.base(),
    {
        if self.base() > height + 1 && !self.full() {
            let level = LevelView::empty((self.base() - 1) as u64);
            self.lemma_grounded(level);
            self.lemma_grounded_adds(level, hash);
            self.grounded(level).lemma_lowered_adds(height, hash);
            self.lowered(height).0.lemma_adds_transitive(self.grounded(level), self, hash);
        }
    }

    proof fn lemma_placed_adds(self, block: BlockView)
        requires
            self.ordered(),
            self.takes(block.height),
        ensures
            self.placed(block).0.adds_only(self, block.hash),
    {
        let height = block.height as int;
        let after = self.placed(block).0;
        let alone = LevelView::of_block(block);
        self.lemma_placed(block);
        if self.levels.len() == 0 {
            assert forall|h: int, other: BlockHash|
                (#[trigger] after.block_at(h, other)) is Some && other != block.hash implies self.block_at(
                h,
                other,
            ) is Some by {
                assert(after.levels[0] == alone);
                BlockMap::lemma_found(alone.blocks, other);
            }
        } else {
            assert(self.levels[self.levels.len() - 1].wf());
            match self.level(height) {
                Some(_) => {
                    self.lemma_put(height, block);
                },
                None => {
                    if block.height > self.top() {
                        self.lemma_raised(height);
                        self.lemma_raised_adds(height, block.hash);
                        self.raised(height).lemma_pushed_adds(alone, block.hash);
                        after.lemma_adds_transitive(self.raised(height), self, block.hash);
                    } else if !self.full() {
                        self.lemma_lowered(height);
                        self.lemma_lowered_adds(height, block.hash);
                        let (lower, room) = self.lowered(height);
                        if room && !lower.full() {
                            lower.lemma_grounded_adds(alone, block.hash);
                            after.lemma_adds_transitive(lower, self, block.hash);
                        }
                    }
                },
            }
        }
    }

    proof fn lemma_advanced_adds(self, block: BlockView, hash: BlockHash)
        requires
            self.ordered(),
            self.level(block.height as int) is Some,
        ensures
            self.advanced(block).adds_only(self, hash),
    {
        let height = block.height as int;
        self.lemma_level(height);
        let level = LevelView { chain_block: block.hash, ..self.level(height)->Some_0 };
        self.lemma_with_level(height, level);
        let linked = self.with_chain_block(height, block.hash);
        let before = ChainView {
            window: crate::sharechain::difficulty_window::DifficultyWindow::newer(
                self.window,
                block.timestamp,
                block.target_difficulty,
            ),
            cached_shares: None,
            current_tip: block.height,
            ..linked
        };
        assert(before.levels == linked.levels);
        assert(before.ordered());
        assert(before.level(height) == linked.level(height));
        before.lemma_trimmed_levels();
        let after = self.advanced(block);
        assert(after == before.trimmed());
        assert forall|h: int, other: BlockHash|
            (#[trigger] after.block_at(h, other)) is Some && other != hash implies self.block_at(h, other) is Some by {
            assert(after.level(h) == before.level(h));
            assert(before.level(h) == linked.level(h));
            if h != height {
                assert(linked.level(h) == self.level(h));
            }
        }
    }

    proof fn lemma_chosen_adds(self, block: BlockView, hash: BlockHash)
        requires
            self.ordered(),
            self.block_at(block.height as int, block.hash) == Some(block),
        ensures
            self.chosen(block).0.adds_only(self, hash),
    {
        self.lemma_level(block.height as int);
        self.lemma_advanced_adds(block, hash);
        self.lemma_switched(block);
        let switched = self.switched(block);
        switched.lemma_relinked_blocks(block, 0);
        let after = switched.relinked(block, 0).0;
        assert forall|h: int, other: BlockHash|
            (#[trigger] after.block_at(h, other)) is Some && other != hash implies self.block_at(h, other) is Some by {
            assert(switched.block_at(h, other) is Some);
            assert(switched.level(h) is Some <==> self.level(h) is Some);
        }
    }

    proof fn lemma_step_adds(self, height: u64, hash: BlockHash, except: BlockHash)
        requires
            self.ordered(),
        ensures
            self.step(height, hash).0.adds_only(self, except),
    {
        reveal(ChainView::step);
        if let Some(block) = self.block_at(height as int, hash) {
            self.lemma_block(height as int, hash);
            if self.missing_links(block).len() == 0 {
                if block.verified {
                    self.lemma_chosen_adds(block, except);
                } else if self.work_fault(block) is None {
                    let verified = BlockView { verified: true, ..block };
                    self.lemma_put(height as int, verified);
                    let marked = self.marked(block);
                    assert(marked.block_at(height as int, hash) == Some(verified));
                    marked.lemma_chosen_adds(verified, except);
                    let after = marked.chosen(verified).0;
                    assert forall|h: int, other: BlockHash|
                        (#[trigger] after.block_at(h, other)) is Some && other != except implies self.block_at(
                        h,
                        other,
                    ) is Some by {
                        assert(marked.block_at(h, other) is Some);
                    }
                }
            }
        }
    }

    proof fn lemma_run_adds(self, work: Seq<(u64, BlockHash)>, outcome: AddView, fuel: nat, except: BlockHash)
        requires
            self.ordered(),
            self.run(work, outcome, fuel) is Some,
        ensures
            (self.run(work, outcome, fuel)->Some_0).0.adds_only(self, except),
            (self.run(work, outcome, fuel)->Some_0).0.sync_store == self.sync_store,
        decreases fuel,
    {
        if work.len() > 0 {
            self.lemma_step(work[0].0, work[0].1);
            self.lemma_step_adds(work[0].0, work[0].1, except);
            let next = self.step(work[0].0, work[0].1).0;
            match self.step(work[0].0, work[0].1).1 {
                Err(_) => {},
                Ok((added, more)) => {
                    let combined = outcome.combined(added);
                    if combined.missing.len() < MAX_MISSING_PARENTS {
                        let rest = ChainView::queued(work.skip(1), more, 0, work[0]);
                        next.lemma_run_adds(rest, combined, (fuel - 1) as nat, except);
                        (next.run(rest, combined, (fuel - 1) as nat)->Some_0).0.lemma_adds_transitive(
                            next,
                            self,
                            except,
                        );
                    }
                },
            }
        }
    }

    proof fn lemma_added_adds(self, block: BlockView, fuel: nat)
        requires
            self.ordered(),
            self.takes(block.height),
            self.added(block, fuel) is Some,
        ensures
            (self.added(block, fuel)->Some_0).0.ordered(),
            (self.added(block, fuel)->Some_0).0.adds_only(self, block.hash),
            (self.added(block, fuel)->Some_0).0.sync_store == self.sync_store,
            (self.added(block, fuel)->Some_0).0.total_size == self.total_size,
    {
        let bare = self.without_shares();
        assert forall|h: int| #[trigger] bare.level(h) == self.level(h) by {}
        bare.lemma_placed(block);
        bare.lemma_placed_adds(block);
        let (placed, room) = bare.placed(block);
        assert(placed.adds_only(self, block.hash)) by {
            assert forall|h: int, other: BlockHash|
                (#[trigger] placed.block_at(h, other)) is Some && other != block.hash implies self.block_at(
                h,
                other,
            ) is Some by {
                assert(bare.block_at(h, other) is Some);
                assert(bare.level(h) == self.level(h));
            }
        }
        if room {
            let work = seq![(block.height, block.hash)];
            placed.lemma_run_adds(work, AddView::nothing(), fuel, block.hash);
            crate::sharechain::chain_laws::lemma_run_keeps(placed, work, AddView::nothing(), fuel);
            (placed.run(work, AddView::nothing(), fuel)->Some_0).0.lemma_adds_transitive(placed, self, block.hash);
        }
    }

    proof fn lemma_added_all_adds(self, hashes: Seq<BlockHash>, from: int, outcome: AddView, fuel: nat, hash: BlockHash)
        requires
            self.ordered(),
            self.added_all(hashes, from, outcome, fuel) is Some,
            (self.added_all(hashes, from, outcome, fuel)->Some_0).0.holds(hash),
        ensures
            self.holds(hash),
        decreases hashes.len() - from,
    {
        if 0 <= from < hashes.len() && BlockMap::find(self.sync_store, hashes[from]) is Some {
            let block = BlockMap::find(self.sync_store, hashes[from])->Some_0;
            BlockMap::lemma_found(self.sync_store, hashes[from]);
            let place = BlockMap::index_in(self.sync_store, hashes[from]);
            assert(self.sync_store[place].height + self.capacity() <= u64::MAX);
            self.lemma_added_adds(block, fuel);
            let next = (self.added(block, fuel)->Some_0).0;
            match self.added(block, fuel) {
                Some((_, Ok(added))) => {
                    next.lemma_added_all_adds(hashes, from + 1, outcome.combined(added), fuel, hash);
                },
                _ => {},
            }
            assert(next.holds(hash));
            self.lemma_next_holds(next, block, hash);
        }
    }

    proof fn lemma_next_holds(self, next: ChainView, block: BlockView, hash: BlockHash)
        requires
            next.adds_only(self, block.hash),
            next.sync_store == self.sync_store,
            BlockMap::has(self.sync_store, block.hash) || hash != block.hash,
            next.holds(hash),
        ensures
            self.holds(hash),
    {
        if !BlockMap::has(self.sync_store, hash) {
            let h = choose|h: int| (#[trigger] next.block_at(h, hash)) is Some;
            assert(self.block_at(h, hash) is Some);
        }
    }

    proof fn lemma_stored_holds(self, block: BlockView, hash: BlockHash)
        requires
            self.ordered(),
            self.stored(block).holds(hash),
        ensures
            self.holds(hash) || hash == block.hash,
    {
        let kept = self.stored(block);
        assert forall|h: int| #[trigger] kept.level(h) == self.level(h) by {}
        if BlockMap::has(kept.sync_store, hash) && hash != block.hash {
            let dropped = self.sync_store.len() > MAX_SYNC_STORE && self.sync_order.len() > 0;
            let store = if dropped {
                BlockMap::without(self.sync_store, self.sync_order.last())
            } else {
                self.sync_store
            };
            let i = BlockMap::index_in(kept.sync_store, hash);
            assert(kept.sync_store[i].hash == hash);
            assert(kept.sync_store[i] == block || (i < store.len() && kept.sync_store[i] == store[i]));
            if dropped && BlockMap::has(self.sync_store, self.sync_order.last()) {
                let k = BlockMap::index_in(self.sync_store, self.sync_order.last());
                let j = if i < k {
                    i
                } else {
                    i + 1
                };
                assert(store[i] == self.sync_store[j]);
                assert(self.sync_store[j].hash == hash);
            } else {
                assert(self.sync_store[i].hash == hash);
            }
        } else if hash != block.hash {
            let h = choose|h: int| (#[trigger] kept.block_at(h, hash)) is Some;
            assert(kept.level(h) == self.level(h));
            assert(self.block_at(h, hash) is Some);
        }
    }
}

/// Nothing gets onto the levels, or aside, but the block that is added: every hash that the chain holds afterwards it held
/// before, or it is that of the block.
pub proof fn law_chain_holds_what_was_added(chain: ChainView, block: BlockView, fuel: nat, hash: BlockHash)
    requires
        chain.ordered(),
        chain.add_block(block, fuel) is Some,
        (chain.add_block(block, fuel)->Some_0).0.holds(hash),
    ensures
        chain.holds(hash) || hash == block.hash,
{
    if chain.takes(block.height) {
        if block.height >= chain.horizon() {
            let kept = chain.stored(block);
            crate::sharechain::chain_laws::lemma_stored_wf(chain, block);
            let hashes = ChainView::linked_up(kept.sync_store, block);
            if hashes.len() > MIN_SYNC_CHAIN {
                kept.lemma_added_all_adds(hashes, 0, AddView::nothing(), fuel, hash);
            }
            chain.lemma_stored_holds(block, hash);
        } else if !ChainView::uncle_is_parent(block) && hash != block.hash {
            chain.lemma_added_adds(block, fuel);
            chain.lemma_next_holds((chain.added(block, fuel)->Some_0).0, block, hash);
        }
    }
}

}
