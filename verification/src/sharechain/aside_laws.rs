//! Laws on blocks that are kept aside, and on what is missing when several blocks are added.
use crate::sharechain::block_map::BlockMap;
use crate::sharechain::chain_model::{AddView, ChainView};
use crate::sharechain::error::{InvalidReason, ShareChainError};
use crate::sharechain::p2block::BlockView;
use crate::sharechain::pool_chain::PoolView;
use crate::types::BlockHash;
use vstd::prelude::*;

verus! {

impl ChainView {
    /// The block lies too far above the lowest level: the chain has room for its size, for 20 levels more and for 2000 that
    /// are synced.
    pub open spec fn is_far(self, block: BlockView) -> bool {
        if self.levels.len() > 0 {
            block.height >= self.levels[0].height + self.total_size + 2020
        } else {
            block.height >= self.total_size + 2020
        }
    }
}

/// A block that lies too far above the lowest level is kept aside, and the chain stays as it is, as long as at most 150
/// blocks that were kept aside link up with it. A block that names its parent as an uncle is refused.
pub proof fn law_far_blocks_are_kept_aside(chain: ChainView, block: BlockView, fuel: nat)
    requires
        chain.wf(),
        chain.takes(block.height),
    ensures
        chain.is_far(block) && ChainView::linked_up(chain.stored(block).sync_store, block).len() <= 150 ==> {
            &&& chain.add_block(block, fuel) matches Some((after, _))
            &&& after.levels == chain.levels
            &&& after.current_tip == chain.current_tip
            &&& after.window == chain.window
            &&& BlockMap::find(after.sync_store, block.hash) == Some(block)
        },
        !chain.is_far(block) && ChainView::uncle_is_parent(block) ==> chain.add_block(block, fuel) == Some(
            (
                chain,
                Err::<AddView, ShareChainError>(
                    ShareChainError::InvalidBlock { reason: InvalidReason::UncleIsParent },
                ),
            ),
        ),
        !chain.is_far(block) && !ChainView::uncle_is_parent(block) ==> chain.add_block(block, fuel) == chain.added(
            block,
            fuel,
        ),
{
    law_blocks_aside_are_found(chain, block, block.hash);
}

/// A block that was kept aside is found there. At most 201 blocks are kept aside; the one that came first leaves for one
/// more, and no other.
pub proof fn law_blocks_aside_are_found(chain: ChainView, block: BlockView, other: BlockHash)
    requires
        BlockMap::distinct(chain.sync_store),
    ensures
        ({
            let after = chain.stored(block).sync_store;
            &&& BlockMap::find(after, block.hash) == Some(block)
            &&& BlockMap::distinct(after)
            &&& chain.sync_store.len() <= 200 ==> after.len() <= chain.sync_store.len() + 1
            &&& other != block.hash && (chain.sync_store.len() <= 200 || chain.sync_order.len() == 0 || other
                != chain.sync_order.last()) ==> BlockMap::find(after, other) == BlockMap::find(chain.sync_store, other)
            &&& chain.stored(block).sync_order[0] == block.hash
        }),
{
    let store = if chain.sync_store.len() > 200 && chain.sync_order.len() > 0 {
        BlockMap::without(chain.sync_store, chain.sync_order.last())
    } else {
        chain.sync_store
    };
    if chain.sync_store.len() > 200 && chain.sync_order.len() > 0 {
        BlockMap::lemma_without(chain.sync_store, chain.sync_order.last());
        if other != chain.sync_order.last() {
            lemma_without_other(chain.sync_store, chain.sync_order.last(), other);
        }
    }
    BlockMap::lemma_with(store, block);
    if other != block.hash {
        BlockMap::lemma_with_other(store, block, other);
    }
}

proof fn lemma_without_other(blocks: Seq<BlockView>, hash: BlockHash, other: BlockHash)
    requires
        BlockMap::distinct(blocks),
        BlockMap::distinct(BlockMap::without(blocks, hash)),
        other != hash,
    ensures
        BlockMap::find(BlockMap::without(blocks, hash), other) == BlockMap::find(blocks, other),
{
    if BlockMap::has(blocks, hash) {
        let after = BlockMap::without(blocks, hash);
        let gone = BlockMap::index_in(blocks, hash);
        if BlockMap::has(blocks, other) {
            let i = BlockMap::index_in(blocks, other);
            let j = if i < gone {
                i
            } else {
                i - 1
            };
            assert(after[j] == blocks[i]);
            BlockMap::lemma_find_at(after, j);
        }
        if BlockMap::has(after, other) {
            let j = BlockMap::index_in(after, other);
            let i = if j < gone {
                j
            } else {
                j + 1
            };
            assert(blocks[i] == after[j]);
            BlockMap::lemma_find_at(blocks, i);
        }
    }
}

/// Going down from a block that is kept aside, each block is followed by the one below it, until one is not kept aside or
/// enough blocks were passed.
pub proof fn law_walk_down_aside(store: Seq<BlockView>, hash: BlockHash, n: nat)
    ensures
        ({
            let list = ChainView::ancestors(store, hash, n);
            &&& list.len() <= n
            &&& n > 0 && BlockMap::has(store, hash) ==> list.len() > 0 && list[0] == hash
            &&& !BlockMap::has(store, hash) ==> list.len() == 0
            &&& forall|i: int| 0 <= i < list.len() ==> BlockMap::has(store, #[trigger] list[i])
            &&& forall|i: int, j: int|
                0 <= i && j == i + 1 && j < list.len() ==> (#[trigger] list[j]) == (BlockMap::find(
                    store,
                    #[trigger] list[i],
                )->Some_0).prev_hash
            &&& 0 < list.len() < n ==> !BlockMap::has(store, (BlockMap::find(store, list.last())->Some_0).prev_hash)
        }),
    decreases n,
{
    if n > 0 && BlockMap::has(store, hash) {
        BlockMap::lemma_found(store, hash);
        let block = BlockMap::find(store, hash)->Some_0;
        let rest = ChainView::ancestors(store, block.prev_hash, (n - 1) as nat);
        let list = ChainView::ancestors(store, hash, n);
        law_walk_down_aside(store, block.prev_hash, (n - 1) as nat);
        assert(list =~= seq![hash] + rest);
        assert forall|i: int| 0 <= i < list.len() implies BlockMap::has(store, #[trigger] list[i]) by {
            if i > 0 {
                assert(list[i] == rest[i - 1]);
            }
        }
        assert forall|i: int, j: int| 0 <= i && j == i + 1 && j < list.len() implies (#[trigger] list[j]) == (
        BlockMap::find(store, #[trigger] list[i])->Some_0).prev_hash by {
            assert(list[j] == rest[j - 1]);
            if i > 0 {
                assert(list[i] == rest[i - 1]);
            }
        }
        if rest.len() > 0 {
            assert(list.last() == rest.last());
        } else {
            assert(list.last() == hash);
        }
    }
}

proof fn lemma_child(store: Seq<BlockView>, hash: BlockHash, from: int)
    requires
        0 <= from <= store.len(),
    ensures
        ChainView::child(store, hash, from) is Some <==> exists|i: int|
            from <= i < store.len() && (#[trigger] store[i]).prev_hash == hash,
        ChainView::child(store, hash, from) matches Some(block) ==> block.prev_hash == hash && store.contains(block),
    decreases store.len() - from,
{
    if from < store.len() {
        lemma_child(store, hash, from + 1);
        if store[from].prev_hash == hash {
            assert(store.contains(store[from]));
        }
        if exists|i: int| from <= i < store.len() && (#[trigger] store[i]).prev_hash == hash {
            let i = choose|i: int| from <= i < store.len() && (#[trigger] store[i]).prev_hash == hash;
            assert(i == from || from + 1 <= i);
        }
    }
}

impl ChainView {
    /// A block with one hash is kept aside that lies on the one with the other hash.
    pub open spec fn lies_aside_on(store: Seq<BlockView>, hash: BlockHash, below: BlockHash) -> bool {
        exists|i: int| 0 <= i < store.len() && (#[trigger] store[i]).hash == hash && store[i].prev_hash == below
    }

    /// A block is kept aside that lies on the one with the hash.
    pub open spec fn has_aside_on(store: Seq<BlockView>, below: BlockHash) -> bool {
        exists|i: int| 0 <= i < store.len() && (#[trigger] store[i]).prev_hash == below
    }
}

/// Going up from a block, each block is followed by one that is kept aside and lies on it. Every block that is passed has
/// one lying on it, and a block on which none lies ends the walk.
pub proof fn law_walk_up_aside(store: Seq<BlockView>, hash: BlockHash, n: nat)
    ensures
        ({
            let list = ChainView::descendants(store, hash, n);
            &&& list.len() <= n
            &&& n > 0 && ChainView::has_aside_on(store, hash) ==> list.len() > 0 && list[0] == hash
            &&& !ChainView::has_aside_on(store, hash) ==> list.len() == 0
            &&& forall|i: int| 0 <= i < list.len() ==> ChainView::has_aside_on(store, #[trigger] list[i])
            &&& forall|i: int, j: int|
                0 <= i && j == i + 1 && j < list.len() ==> ChainView::lies_aside_on(
                    store,
                    #[trigger] list[j],
                    #[trigger] list[i],
                )
        }),
    decreases n,
{
    lemma_child(store, hash, 0);
    if n > 0 {
        if let Some(block) = ChainView::child(store, hash, 0) {
            let rest = ChainView::descendants(store, block.hash, (n - 1) as nat);
            let list = ChainView::descendants(store, hash, n);
            law_walk_up_aside(store, block.hash, (n - 1) as nat);
            assert(list =~= seq![hash] + rest);
            assert(ChainView::has_aside_on(store, hash));
            assert forall|i: int| 0 <= i < list.len() implies ChainView::has_aside_on(store, #[trigger] list[i]) by {
                if i > 0 {
                    assert(list[i] == rest[i - 1]);
                }
            }
            assert forall|i: int, j: int| 0 <= i && j == i + 1 && j < list.len() implies ChainView::lies_aside_on(
                store,
                #[trigger] list[j],
                #[trigger] list[i],
            ) by {
                assert(list[j] == rest[j - 1]);
                if i > 0 {
                    assert(list[i] == rest[i - 1]);
                } else {
                    let k = choose|k: int| 0 <= k < store.len() && store[k] == block;
                    assert(store[k].hash == block.hash && store[k].prev_hash == hash);
                }
            }
        }
    }
}

/// Whatever one of two outcomes lacks is missing from both together, and nothing else, as long as fewer than 100 blocks are
/// missing.
pub proof fn law_combining_keeps_what_is_missing(a: AddView, b: AddView, hash: BlockHash)
    ensures
        AddView::lists(a.combined(b).missing, hash) ==> AddView::lists(a.missing, hash) || AddView::lists(
            b.missing,
            hash,
        ),
        AddView::lists(a.missing, hash) ==> AddView::lists(a.combined(b).missing, hash),
        a.combined(b).missing.len() < 100 && AddView::lists(b.missing, hash) ==> AddView::lists(
            a.combined(b).missing,
            hash,
        ),
{
    lemma_noted_all(a.missing, b.missing, 0, hash);
    if AddView::lists(b.missing, hash) {
        let i = AddView::place_of(b.missing, hash);
        assert(b.missing[i].0 == hash);
    }
}

proof fn lemma_noted_all(missing: Seq<(BlockHash, u64)>, more: Seq<(BlockHash, u64)>, from: int, hash: BlockHash)
    requires
        0 <= from <= more.len(),
    ensures
        ({
            let all = AddView::noted_all(missing, more, from);
            &&& all.len() >= missing.len()
            &&& AddView::lists(missing, hash) ==> AddView::lists(all, hash)
            &&& AddView::lists(all, hash) ==> AddView::lists(missing, hash) || AddView::lists(more, hash)
            &&& all.len() < 100 ==> forall|i: int|
                from <= i < more.len() && (#[trigger] more[i]).0 == hash ==> AddView::lists(all, hash)
        }),
    decreases more.len() - from,
{
    if from < more.len() && missing.len() < 100 {
        let noted = AddView::noted(missing, more[from].0, more[from].1);
        crate::sharechain::sync_laws::law_noted_blocks_are_listed(missing, more[from].0, more[from].1, hash);
        lemma_noted_all(noted, more, from + 1, hash);
        assert(more[from].0 == hash ==> AddView::lists(more, hash));
    }
}

proof fn lemma_stored_uncles(
    chain: ChainView,
    uncles: Seq<(u64, BlockHash)>,
    from: int,
    on_main_chain: bool,
    missing: Seq<(BlockHash, u64)>,
    hash: BlockHash,
)
    requires
        0 <= from <= uncles.len(),
    ensures
        chain.stored_uncles(uncles, from, on_main_chain, missing) matches Ok(all) ==> (AddView::lists(all, hash)
            <==> AddView::lists(missing, hash) || exists|i: int|
            from <= i < uncles.len() && (#[trigger] uncles[i]).1 == hash && chain.block_at(
                uncles[i].0 as int,
                uncles[i].1,
            ) is None),
        chain.stored_uncles(uncles, from, on_main_chain, missing) is Err <==> on_main_chain && exists|i: int|
            from <= i < uncles.len() && chain.block_at((#[trigger] uncles[i]).0 as int, uncles[i].1) is Some && (
            chain.level(uncles[i].0 as int)->Some_0).chain_block == uncles[i].1,
    decreases uncles.len() - from,
{
    if from < uncles.len() {
        let (height, name) = uncles[from];
        let noted = if chain.block_at(height as int, name) is None {
            AddView::noted(missing, name, height)
        } else {
            missing
        };
        crate::sharechain::sync_laws::law_noted_blocks_are_listed(missing, name, height, hash);
        lemma_stored_uncles(chain, uncles, from + 1, on_main_chain, noted, hash);
    }
}

/// What a block that was kept aside lacks is named: its parent, if that is not there, and each uncle that is not there. It
/// is refused if it lies on the main chain and one of its uncles is in it.
pub proof fn law_blocks_aside_name_what_they_lack(chain: ChainView, block: BlockView, added: AddView, hash: BlockHash)
    requires
        chain.ordered(),
        block.height > 0,
    ensures
        chain.stored_outcome(block, added) is Err <==> chain.parent_of(block) is Some && (chain.level(
            block.height - 1,
        )->Some_0).chain_block == block.prev_hash && exists|i: int|
            0 <= i < block.uncles.len() && chain.block_at(
                (#[trigger] block.uncles[i]).0 as int,
                block.uncles[i].1,
            ) is Some && (chain.level(block.uncles[i].0 as int)->Some_0).chain_block == block.uncles[i].1,
        chain.stored_outcome(block, added) matches Ok(outcome) ==> outcome.new_tip == added.new_tip && (AddView::lists(
            outcome.missing,
            hash,
        ) <==> AddView::lists(added.missing, hash) || (chain.parent_of(block) is None && block.prev_hash == hash)
            || exists|i: int|
            0 <= i < block.uncles.len() && (#[trigger] block.uncles[i]).1 == hash && chain.block_at(
                block.uncles[i].0 as int,
                block.uncles[i].1,
            ) is None),
{
    let below = ChainView::below(block.height);
    if chain.parent_of(block) is Some {
        chain.lemma_block(block.height - 1, block.prev_hash);
    }
    let missing = if chain.block_at(below as int, block.prev_hash) is None {
        AddView::noted(added.missing, block.prev_hash, below)
    } else {
        added.missing
    };
    crate::sharechain::sync_laws::law_noted_blocks_are_listed(added.missing, block.prev_hash, below, hash);
    lemma_stored_uncles(chain, block.uncles, 0, chain.parent_in_main_chain(block), missing, hash);
}

/// The newest level of a run without a gap: every height from a level up to it is there, and the next is not.
pub proof fn law_run_has_no_gap(chain: PoolView, i: int)
    requires
        0 <= i < chain.levels.len(),
    ensures
        0 <= chain.run_top(i) <= i,
        forall|j: int|
            chain.run_top(i) <= j <= i ==> (#[trigger] chain.levels[j]).height == chain.levels[i].height + (i - j),
        chain.run_top(i) > 0 ==> chain.levels[chain.run_top(i) - 1].height != chain.levels[chain.run_top(i)].height + 1,
    decreases i,
{
    if 0 < i && chain.levels[i - 1].height == chain.levels[i].height + 1 {
        law_run_has_no_gap(chain, i - 1);
    }
}

/// If the levels lie one below the other, newest first, the one at a height is found if there is one, and only then. A level
/// that is added is in front of the others, and the others stay but for the oldest, if there are too many.
pub proof fn law_pool_levels_are_found(chain: PoolView, height: u64, block: BlockView, is_tip: bool)
    requires
        forall|i: int, j: int|
            0 <= i && j == i + 1 && j < chain.levels.len() ==> (#[trigger] chain.levels[i]).height == (
            #[trigger] chain.levels[j]).height + 1,
    ensures
        chain.at_height(height) matches Some(level) ==> level.height == height && chain.levels.contains(level),
        chain.at_height(height) is None ==> forall|i: int|
            0 <= i < chain.levels.len() ==> (#[trigger] chain.levels[i]).height != height,
        ({
            let after = chain.grown(block, is_tip).trimmed().levels;
            &&& after.len() > 0 ==> after[0].blocks == seq![block] && after[0].height == block.height
            &&& forall|i: int| 1 <= i < after.len() ==> #[trigger] after[i] == chain.levels[i - 1]
            &&& after.len() == (if chain.levels.len() + 1 > chain.max_levels {
                chain.levels.len() as int
            } else {
                (chain.levels.len() + 1) as int
            })
        }),
{
    assert forall|i: int| 0 <= i < chain.levels.len() implies (#[trigger] chain.levels[i]).height
        == chain.levels[0].height - i by {
        lemma_heights_fall(chain, i);
    }
    if let Some(level) = chain.at_height(height) {
        assert(chain.levels[chain.levels[0].height - height] == level);
    }
}

proof fn lemma_heights_fall(chain: PoolView, i: int)
    requires
        0 <= i < chain.levels.len(),
        forall|i: int, j: int|
            0 <= i && j == i + 1 && j < chain.levels.len() ==> (#[trigger] chain.levels[i]).height == (
            #[trigger] chain.levels[j]).height + 1,
    ensures
        chain.levels[i].height == chain.levels[0].height - i,
    decreases i,
{
    if i > 0 {
        lemma_heights_fall(chain, i - 1);
        assert(chain.levels[i - 1].height == chain.levels[i].height + 1);
    }
}

}
