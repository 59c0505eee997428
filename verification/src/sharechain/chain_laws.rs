//! What holds of every chain.
use crate::sharechain::block_map::BlockMap;
use crate::sharechain::chain_model::{AddView, ChainView, MAX_MISSING_PARENTS, MIN_SYNC_CHAIN, SAFETY_MARGIN};
use crate::sharechain::p2block::BlockView;
use crate::types::{BlockHash, FixedHash};
use vstd::prelude::*;

verus! {

/// A block that lacks its parent, an uncle or the parent of an uncle changes nothing and is not the tip.
pub proof fn law_missing_blocks_keep_the_chain(chain: ChainView, height: u64, hash: BlockHash)
    requires
        chain.block_at(height as int, hash) is Some,
        chain.missing_links(chain.block_at(height as int, hash)->Some_0).len() > 0,
    ensures
        chain.step(height, hash).0 == chain,
        chain.step(height, hash).1 matches Ok((added, _)) && added.new_tip is None && added.missing.len() > 0,
{
    reveal(ChainView::step);
}

/// A block that does not lie on the tip becomes the tip only if it has more work below it than the tip, and only if all
/// parents on the way down to the main chain, or to the end of the share window, are there and verified. The one
/// exception is the first block of a chain that has no tip.
pub proof fn law_reorg_needs_more_work(chain: ChainView, height: u64, hash: BlockHash)
    requires
        chain.ordered(),
        chain.block_at(height as int, hash) is Some,
        chain.tip() is Some || height > 0,
        chain.tip() is Some ==> (chain.tip()->Some_0).chain_block != (chain.block_at(
            height as int,
            hash,
        )->Some_0).prev_hash,
    ensures
        chain.step(height, hash).1 matches Ok((added, _)) ==> added.new_tip is Some ==> {
            let block = BlockView { verified: true, ..chain.block_at(height as int, hash)->Some_0 };
            let checked = if (chain.block_at(height as int, hash)->Some_0).verified {
                chain
            } else {
                chain.marked(chain.block_at(height as int, hash)->Some_0)
            };
            &&& block.total_pow > checked.tip_pow()
            &&& checked.walked_down(block, 1) == (true, Seq::<(BlockHash, u64)>::empty())
        },
{
    reveal(ChainView::step);
    chain.lemma_block(height as int, hash);
    let block = chain.block_at(height as int, hash)->Some_0;
    let verified = BlockView { verified: true, ..block };
    assert(block.verified ==> verified =~= block);
    if !block.verified && chain.missing_links(block).len() == 0 && chain.work_fault(block) is None {
        lemma_marked_keeps_tip(chain, block);
    }
    let checked = if block.verified {
        chain
    } else {
        chain.marked(block)
    };
    if let Ok((added, _)) = chain.step(height, hash).1 {
        if added.new_tip is Some {
            assert(checked.walked_down(verified, 1).1 =~= Seq::<(BlockHash, u64)>::empty());
        }
    }
}

/// Marking a block as verified changes neither the tip nor its work.
proof fn lemma_marked_keeps_tip(chain: ChainView, block: BlockView)
    requires
        chain.ordered(),
        chain.block_at(block.height as int, block.hash) == Some(block),
    ensures
        chain.marked(block).tip() is Some <==> chain.tip() is Some,
        chain.tip() is Some ==> (chain.marked(block).tip()->Some_0).chain_block == (chain.tip()->Some_0).chain_block,
        chain.marked(block).tip_pow() == chain.tip_pow(),
        chain.marked(block).current_tip == chain.current_tip,
{
    let height = block.height as int;
    let verified = BlockView { verified: true, ..block };
    chain.lemma_level(height);
    let level = chain.level(height)->Some_0;
    let after = crate::sharechain::p2chain_level::LevelView {
        blocks: BlockMap::with(level.blocks, verified),
        ..level
    };
    level.lemma_found(block.hash);
    level.lemma_with(verified);
    BlockMap::lemma_with(level.blocks, verified);
    chain.lemma_with_level(height, after);
    if level.chain_block != block.hash {
        BlockMap::lemma_with_other(level.blocks, verified, level.chain_block);
    }
}

/// A new tip that a step reports is the block that the step looked at: the chain's tip afterwards, verified, with its
/// work as the work of the chain.
pub proof fn law_new_tip_is_the_block(chain: ChainView, height: u64, hash: BlockHash)
    requires
        chain.ordered(),
        chain.block_at(height as int, hash) is Some,
        hash != FixedHash::spec_zero(),
    ensures
        chain.step(height, hash).1 matches Ok((added, _)) ==> added.new_tip is Some ==> {
            let next = chain.step(height, hash).0;
            &&& added == AddView::tip(hash, height)
            &&& next.current_tip == height
            &&& next.tip() is Some
            &&& (next.tip()->Some_0).main_block() == Some(
                BlockView { verified: true, ..chain.block_at(height as int, hash)->Some_0 },
            )
            &&& next.tip_pow() == (chain.block_at(height as int, hash)->Some_0).total_pow
        },
{
    reveal(ChainView::step);
    chain.lemma_block(height as int, hash);
    let block = chain.block_at(height as int, hash)->Some_0;
    let verified = BlockView { verified: true, ..block };
    assert(block.verified ==> verified =~= block);
    if chain.missing_links(block).len() == 0 {
        if block.verified {
            lemma_chosen_tip(chain, block);
        } else if chain.work_fault(block) is None {
            chain.lemma_marked(block);
            lemma_chosen_tip(chain.marked(block), verified);
        }
    }
}

proof fn lemma_chosen_tip(chain: ChainView, block: BlockView)
    requires
        chain.ordered(),
        chain.block_at(block.height as int, block.hash) == Some(block),
        block.hash != FixedHash::spec_zero(),
    ensures
        chain.chosen(block).1 matches Ok((added, _)) ==> added.new_tip is Some ==> {
            let next = chain.chosen(block).0;
            &&& added == AddView::tip(block.hash, block.height)
            &&& next.current_tip == block.height
            &&& next.tip() is Some
            &&& (next.tip()->Some_0).main_block() == Some(block)
            &&& next.tip_pow() == block.total_pow
        },
{
    chain.lemma_level(block.height as int);
    chain.lemma_advanced(block);
    chain.lemma_switched(block);
    chain.switched(block).lemma_relinked(block, 0);
    let switched = chain.switched(block);
    assert(switched.relinked(block, 0).0.level(block.height as int) == switched.level(block.height as int));
}

/// A block whose work was checked carries the work of its parent, its own and that of its uncles.
pub proof fn law_checked_work_adds_up(chain: ChainView, block: BlockView)
    requires
        chain.work_fault(block) is None,
    ensures
        chain.own_work(block, block.uncles.len() as int) is Ok,
        block.height == 0 ==> block.total_pow == chain.own_work(block, block.uncles.len() as int)->Ok_0,
        block.height > 0 ==> chain.parent_of(block) is Some && block.total_pow == (chain.parent_of(
            block,
        )->Some_0).total_pow + chain.own_work(block, block.uncles.len() as int)->Ok_0,
{
}

pub proof fn lemma_own_work_positive(chain: ChainView, block: BlockView, n: int)
    requires
        chain.own_work(block, n) is Ok,
    ensures
        chain.own_work(block, n)->Ok_0 >= block.target_difficulty,
    decreases n,
{
    if n > 0 {
        lemma_own_work_positive(chain, block, n - 1);
    }
}

/// The main chain never loses work in a step that succeeds, as long as a block that names the tip as its parent lies
/// right above it, and a block that counts as verified has the work that it claims.
pub proof fn law_successful_step_keeps_work(chain: ChainView, height: u64, hash: BlockHash)
    requires
        chain.ordered(),
        chain.block_at(height as int, hash) is Some,
        hash != FixedHash::spec_zero(),
        chain.tip() is Some && (chain.tip()->Some_0).chain_block == (chain.block_at(
            height as int,
            hash,
        )->Some_0).prev_hash ==> height == chain.current_tip + 1,
        (chain.block_at(height as int, hash)->Some_0).verified ==> chain.work_fault(
            chain.block_at(height as int, hash)->Some_0,
        ) is None,
        (chain.block_at(height as int, hash)->Some_0).total_pow >= 1,
    ensures
        chain.step(height, hash).1 is Ok ==> chain.step(height, hash).0.tip_pow() >= chain.tip_pow(),
{
    chain.lemma_block(height as int, hash);
    let block = chain.block_at(height as int, hash)->Some_0;
    let verified = BlockView { verified: true, ..block };
    law_new_tip_is_the_block(chain, height, hash);
    reveal(ChainView::step);
    assert(block.verified ==> verified =~= block);
    if chain.missing_links(block).len() == 0 && chain.work_fault(block) is None {
        lemma_own_work_positive(chain, block, block.uncles.len() as int);
        lemma_marked_keeps_tip(chain, block);
        let checked = if block.verified {
            chain
        } else {
            chain.marked(block)
        };
        if chain.tip() is Some && (chain.tip()->Some_0).chain_block == block.prev_hash {
            let level = chain.tip()->Some_0;
            assert(chain.level(height - 1) == Some(level));
            assert(chain.parent_of(block) == level.main_block());
        }
    }
}

pub proof fn lemma_run_keeps(chain: ChainView, work: Seq<(u64, BlockHash)>, outcome: AddView, fuel: nat)
    requires
        chain.ordered(),
        chain.run(work, outcome, fuel) is Some,
    ensures
        (chain.run(work, outcome, fuel)->Some_0).0.ordered(),
        (chain.run(work, outcome, fuel)->Some_0).0.keeps(chain),
        (chain.run(work, outcome, fuel)->Some_0).0.levels.len() <= chain.levels.len(),
    decreases fuel,
{
    if work.len() > 0 {
        chain.lemma_step(work[0].0, work[0].1);
        let next = chain.step(work[0].0, work[0].1).0;
        if chain.block_at(work[0].0 as int, work[0].1) is Some {
            assert(next.follows(chain));
            assert(next.levels[next.levels.len() - 1].wf());
            assert(chain.levels[chain.levels.len() - 1].wf());
        }
        match chain.step(work[0].0, work[0].1).1 {
            Err(_) => {},
            Ok((added, more)) => {
                let combined = outcome.combined(added);
                if combined.missing.len() < MAX_MISSING_PARENTS {
                    lemma_run_keeps(
                        next,
                        ChainView::queued(work.skip(1), more, 0, work[0]),
                        combined,
                        (fuel - 1) as nat,
                    );
                }
            },
        }
    }
}

proof fn lemma_added_keeps(chain: ChainView, block: BlockView, fuel: nat)
    requires
        chain.ordered(),
        chain.takes(block.height),
        chain.levels.len() <= chain.capacity(),
        chain.added(block, fuel) is Some,
    ensures
        (chain.added(block, fuel)->Some_0).0.ordered(),
        (chain.added(block, fuel)->Some_0).0.keeps(chain),
        (chain.added(block, fuel)->Some_0).0.levels.len() <= chain.capacity(),
{
    let bare = chain.without_shares();
    bare.lemma_placed(block);
    let (placed, room) = bare.placed(block);
    if room {
        lemma_run_keeps(placed, seq![(block.height, block.hash)], AddView::nothing(), fuel);
    }
}

proof fn lemma_added_all_keeps(chain: ChainView, hashes: Seq<BlockHash>, from: int, outcome: AddView, fuel: nat)
    requires
        chain.ordered(),
        chain.levels.len() <= chain.capacity(),
        chain.added_all(hashes, from, outcome, fuel) is Some,
    ensures
        (chain.added_all(hashes, from, outcome, fuel)->Some_0).0.ordered(),
        (chain.added_all(hashes, from, outcome, fuel)->Some_0).0.keeps(chain),
        (chain.added_all(hashes, from, outcome, fuel)->Some_0).0.levels.len() <= chain.capacity(),
    decreases hashes.len() - from,
{
    if 0 <= from < hashes.len() && BlockMap::find(chain.sync_store, hashes[from]) is Some {
        let block = BlockMap::find(chain.sync_store, hashes[from])->Some_0;
        BlockMap::lemma_found(chain.sync_store, hashes[from]);
        assert(chain.sync_store[BlockMap::index_in(chain.sync_store, hashes[from])].height + chain.capacity()
            <= u64::MAX);
        lemma_added_keeps(chain, block, fuel);
        match chain.added(block, fuel) {
            Some((next, Ok(added))) => {
                lemma_added_all_keeps(next, hashes, from + 1, outcome.combined(added), fuel);
            },
            _ => {},
        }
    }
}

/// The store stays in order when a block is kept aside.
pub proof fn lemma_stored_wf(chain: ChainView, block: BlockView)
    requires
        chain.ordered(),
        chain.takes(block.height),
    ensures
        chain.stored(block).ordered(),
{
    let dropped = chain.sync_store.len() > crate::sharechain::chain_model::MAX_SYNC_STORE && chain.sync_order.len() > 0;
    let store = if dropped {
        BlockMap::without(chain.sync_store, chain.sync_order.last())
    } else {
        chain.sync_store
    };
    BlockMap::lemma_without(chain.sync_store, chain.sync_order.last());
    BlockMap::lemma_with(store, block);
    assert forall|i: int| 0 <= i < store.len() implies (#[trigger] store[i]).height + chain.capacity() <= u64::MAX by {
        if dropped && BlockMap::has(chain.sync_store, chain.sync_order.last()) {
            let k = BlockMap::index_in(chain.sync_store, chain.sync_order.last());
            let j = if i < k {
                i
            } else {
                i + 1
            };
            assert(store[i] == chain.sync_store[j]);
        }
    }
    let after = BlockMap::with(store, block);
    assert forall|i: int| 0 <= i < after.len() implies (#[trigger] after[i]).height + chain.capacity() <= u64::MAX by {
        if i < store.len() {
            assert(after[i] == store[i] || after[i] == block);
        }
    }
}

/// A chain never has more levels than its capacity, and stays well formed, whatever block is added.
pub proof fn law_chain_stays_within_capacity(chain: ChainView, block: BlockView, fuel: nat)
    requires
        chain.ordered(),
        chain.levels.len() <= chain.capacity(),
        chain.add_block(block, fuel) is Some,
    ensures
        (chain.add_block(block, fuel)->Some_0).0.ordered(),
        (chain.add_block(block, fuel)->Some_0).0.levels.len() <= chain.capacity(),
        (chain.add_block(block, fuel)->Some_0).0.total_size == chain.total_size,
        (chain.add_block(block, fuel)->Some_0).0.share_window == chain.share_window,
{
    if !chain.takes(block.height) {
    } else if block.height >= chain.horizon() {
        lemma_stored_wf(chain, block);
        let kept = chain.stored(block);
        let hashes = ChainView::linked_up(kept.sync_store, block);
        if hashes.len() > MIN_SYNC_CHAIN {
            lemma_added_all_keeps(kept, hashes, 0, AddView::nothing(), fuel);
        }
    } else if !ChainView::uncle_is_parent(block) {
        lemma_added_keeps(chain, block, fuel);
    }
}

proof fn lemma_added_drops_shares(chain: ChainView, block: BlockView, fuel: nat)
    requires
        chain.ordered(),
        chain.takes(block.height),
        chain.added(block, fuel) is Some,
    ensures
        (chain.added(block, fuel)->Some_0).0.ordered(),
        (chain.added(block, fuel)->Some_0).0.keeps(chain),
        (chain.added(block, fuel)->Some_0).0.cached_shares is None,
{
    let bare = chain.without_shares();
    bare.lemma_placed(block);
    let (placed, room) = bare.placed(block);
    if room {
        lemma_run_keeps(placed, seq![(block.height, block.hash)], AddView::nothing(), fuel);
    }
}

proof fn lemma_added_all_drops_shares(chain: ChainView, hashes: Seq<BlockHash>, from: int, outcome: AddView, fuel: nat)
    requires
        chain.wf(),
        chain.added_all(hashes, from, outcome, fuel) is Some,
    ensures
        (chain.added_all(hashes, from, outcome, fuel)->Some_0).0.wf(),
    decreases hashes.len() - from,
{
    if 0 <= from < hashes.len() && BlockMap::find(chain.sync_store, hashes[from]) is Some {
        let block = BlockMap::find(chain.sync_store, hashes[from])->Some_0;
        BlockMap::lemma_found(chain.sync_store, hashes[from]);
        assert(chain.sync_store[BlockMap::index_in(chain.sync_store, hashes[from])].height + chain.capacity()
            <= u64::MAX);
        lemma_added_drops_shares(chain, block, fuel);
        match chain.added(block, fuel) {
            Some((next, Ok(added))) => {
                lemma_added_all_drops_shares(next, hashes, from + 1, outcome.combined(added), fuel);
            },
            _ => {},
        }
    }
}

/// Shares that are kept are never out of date: after a block has been added, they are those of the share window, or
/// there are none.
pub proof fn law_kept_shares_are_up_to_date(chain: ChainView, block: BlockView, fuel: nat)
    requires
        chain.wf(),
        chain.add_block(block, fuel) is Some,
    ensures
        (chain.add_block(block, fuel)->Some_0).0.wf(),
{
    if !chain.takes(block.height) {
    } else if block.height >= chain.horizon() {
        lemma_stored_wf(chain, block);
        let kept = chain.stored(block);
        kept.lemma_same_shares(chain);
        let hashes = ChainView::linked_up(kept.sync_store, block);
        if hashes.len() > MIN_SYNC_CHAIN {
            lemma_added_all_drops_shares(kept, hashes, 0, AddView::nothing(), fuel);
        }
    } else if !ChainView::uncle_is_parent(block) {
        lemma_added_drops_shares(chain, block, fuel);
    }
}

/// When the tip moves up by a block that lies on it, no level is left that is further below the new tip than the size
/// and the margin.
pub proof fn law_old_levels_are_dropped(chain: ChainView, block: BlockView)
    requires
        chain.ordered(),
        chain.level(block.height as int) is Some,
    ensures
        chain.advanced(block).current_tip - chain.advanced(block).base() <= chain.total_size + SAFETY_MARGIN,
        chain.advanced(block).ordered(),
{
    let height = block.height as int;
    chain.lemma_level(height);
    chain.lemma_with_chain_block(height, block.hash);
    let level = crate::sharechain::p2chain_level::LevelView { chain_block: block.hash, ..chain.level(height)->Some_0 };
    chain.lemma_with_level(height, level);
    let linked = chain.with_chain_block(height, block.hash);
    let before = ChainView {
        window: crate::sharechain::difficulty_window::DifficultyWindow::newer(
            chain.window,
            block.timestamp,
            block.target_difficulty,
        ),
        cached_shares: None,
        current_tip: block.height,
        ..linked
    };
    assert(before.levels == linked.levels);
    assert(before.ordered());
    assert(before.level(height) == linked.level(height));
    before.lemma_trimmed();
    chain.lemma_advanced(block);
}

/// A block that has been put on its level is found there.
pub proof fn law_placed_block_is_found(chain: ChainView, block: BlockView)
    requires
        chain.ordered(),
        chain.takes(block.height),
        chain.placed(block).1,
    ensures
        chain.placed(block).0.block_at(block.height as int, block.hash) == Some(block),
{
    chain.lemma_placed(block);
}

/// When outcomes are combined, the tip is the highest of theirs, and no more blocks are noted once there are enough.
pub proof fn law_combining_keeps_the_highest_tip(a: AddView, b: AddView)
    requires
        a.missing.len() <= MAX_MISSING_PARENTS,
    ensures
        a.combined(b).missing.len() <= MAX_MISSING_PARENTS,
        a.new_tip is Some ==> a.combined(b).new_tip is Some && (a.combined(b).new_tip->Some_0).1 >= (
        a.new_tip->Some_0).1,
        b.new_tip is Some ==> a.combined(b).new_tip is Some && (a.combined(b).new_tip->Some_0).1 >= (
        b.new_tip->Some_0).1,
{
    lemma_noted_all_bounded(a.missing, b.missing, 0);
}

proof fn lemma_noted_all_bounded(missing: Seq<(BlockHash, u64)>, more: Seq<(BlockHash, u64)>, from: int)
    requires
        missing.len() <= MAX_MISSING_PARENTS,
    ensures
        AddView::noted_all(missing, more, from).len() <= MAX_MISSING_PARENTS,
    decreases more.len() - from,
{
    if 0 <= from < more.len() && missing.len() < MAX_MISSING_PARENTS {
        lemma_noted_all_bounded(AddView::noted(missing, more[from].0, more[from].1), more, from + 1);
    }
}

}
