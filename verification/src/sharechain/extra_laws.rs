//! Laws on the free bytes that miners are paid with, and on the work of uncles.
use crate::sharechain::chain_model::ChainView;
use crate::sharechain::p2block::BlockView;
use crate::sharechain::share_rules::{MAIN_REWARD_SHARE, UNCLE_REWARD_SHARE};
use crate::sharechain::shares::ShareTable;
use crate::types::BlockHash;
use vstd::prelude::*;

verus! {

impl BlockView {
    /// Free bytes are those of the last block of a list that a miner mined.
    pub open spec fn are_last_extra(blocks: Seq<BlockView>, miner: Seq<u8>, extra: Seq<u8>) -> bool {
        exists|i: int| #[trigger] BlockView::is_last_of(blocks, i, miner) && blocks[i].coinbase_extra == extra
    }

    /// The block at a place is the last of a list that a miner mined.
    pub open spec fn is_last_of(blocks: Seq<BlockView>, i: int, miner: Seq<u8>) -> bool {
        &&& 0 <= i < blocks.len()
        &&& blocks[i].miner == miner
        &&& forall|j: int| i < j < blocks.len() ==> (#[trigger] blocks[j]).miner != miner
    }

    /// A miner mined a block of a list.
    pub open spec fn has_block_of(blocks: Seq<BlockView>, miner: Seq<u8>) -> bool {
        exists|i: int| 0 <= i < blocks.len() && (#[trigger] blocks[i]).miner == miner
    }
}

impl ChainView {
    /// The blocks of a window, each with its uncles behind it.
    pub open spec fn with_uncles(self, window: Seq<BlockView>) -> Seq<BlockView>
        decreases window.len(),
    {
        if window.len() == 0 {
            Seq::empty()
        } else {
            seq![window[0]] + self.uncle_blocks(window[0]) + self.with_uncles(window.skip(1))
        }
    }
}

proof fn lemma_last_of_join(a: Seq<BlockView>, b: Seq<BlockView>, miner: Seq<u8>, extra: Seq<u8>)
    ensures
        BlockView::are_last_extra(b, miner, extra) ==> BlockView::are_last_extra(a + b, miner, extra),
        !BlockView::has_block_of(b, miner) && BlockView::are_last_extra(a, miner, extra) ==> BlockView::are_last_extra(
            a + b,
            miner,
            extra,
        ),
        BlockView::has_block_of(a + b, miner) <==> BlockView::has_block_of(a, miner) || BlockView::has_block_of(b, miner),
{
    let all = a + b;
    if BlockView::are_last_extra(b, miner, extra) {
        let i = choose|i: int| #[trigger] BlockView::is_last_of(b, i, miner) && b[i].coinbase_extra == extra;
        let k = a.len() + i;
        assert(all[k] == b[i]);
        assert forall|j: int| k < j < all.len() implies (#[trigger] all[j]).miner != miner by {
            assert(all[j] == b[j - a.len()]);
        }
        assert(BlockView::is_last_of(all, k, miner));
    }
    if !BlockView::has_block_of(b, miner) && BlockView::are_last_extra(a, miner, extra) {
        let i = choose|i: int| #[trigger] BlockView::is_last_of(a, i, miner) && a[i].coinbase_extra == extra;
        assert(all[i] == a[i]);
        assert forall|j: int| i < j < all.len() implies (#[trigger] all[j]).miner != miner by {
            if j < a.len() {
                assert(all[j] == a[j]);
            } else {
                assert(all[j] == b[j - a.len()]);
            }
        }
        assert(BlockView::is_last_of(all, i, miner));
    }
    if BlockView::has_block_of(a, miner) {
        let i = choose|i: int| 0 <= i < a.len() && (#[trigger] a[i]).miner == miner;
        assert(all[i] == a[i]);
    }
    if BlockView::has_block_of(b, miner) {
        let i = choose|i: int| 0 <= i < b.len() && (#[trigger] b[i]).miner == miner;
        assert(all[a.len() + i] == b[i]);
    }
    if BlockView::has_block_of(all, miner) {
        let i = choose|i: int| 0 <= i < all.len() && (#[trigger] all[i]).miner == miner;
        if i < a.len() {
            assert(a[i] == all[i]);
        } else {
            assert(b[i - a.len()] == all[i]);
        }
    }
}

/// What a table says of a miner once some blocks were credited: the free bytes of the last of them that the miner mined, or
/// what it said before if the miner mined none.
pub open spec fn takes_last_extra(
    before: Map<Seq<u8>, (u64, Seq<u8>)>,
    after: Map<Seq<u8>, (u64, Seq<u8>)>,
    blocks: Seq<BlockView>,
    miner: Seq<u8>,
) -> bool {
    if BlockView::has_block_of(blocks, miner) {
        after.dom().contains(miner) && BlockView::are_last_extra(blocks, miner, after[miner].1)
    } else {
        (after.dom().contains(miner) <==> before.dom().contains(miner)) && after[miner].1 == before[miner].1
    }
}

proof fn lemma_takes_join(
    before: Map<Seq<u8>, (u64, Seq<u8>)>,
    between: Map<Seq<u8>, (u64, Seq<u8>)>,
    after: Map<Seq<u8>, (u64, Seq<u8>)>,
    a: Seq<BlockView>,
    b: Seq<BlockView>,
    miner: Seq<u8>,
)
    requires
        takes_last_extra(before, between, a, miner),
        takes_last_extra(between, after, b, miner),
    ensures
        takes_last_extra(before, after, a + b, miner),
{
    lemma_last_of_join(a, b, miner, after[miner].1);
}

proof fn lemma_takes_one(
    before: Map<Seq<u8>, (u64, Seq<u8>)>,
    after: Map<Seq<u8>, (u64, Seq<u8>)>,
    block: BlockView,
    miner: Seq<u8>,
)
    requires
        block.miner == miner ==> after.dom().contains(miner) && after[miner].1 == block.coinbase_extra,
        block.miner != miner ==> (after.dom().contains(miner) <==> before.dom().contains(miner)) && after[miner].1
            == before[miner].1,
    ensures
        takes_last_extra(before, after, seq![block], miner),
{
    let one = seq![block];
    assert(one[0] == block);
    if block.miner == miner {
        assert(BlockView::has_block_of(one, miner));
        assert(BlockView::is_last_of(one, 0, miner));
    }
}

proof fn lemma_uncles_take(
    chain: ChainView,
    table: Map<Seq<u8>, (u64, Seq<u8>)>,
    block: BlockView,
    from: int,
    miner: Seq<u8>,
)
    requires
        0 <= from <= block.uncles.len(),
        chain.uncles_credited(table, block.uncles, from) is Ok,
    ensures
        takes_last_extra(
            table,
            chain.uncles_credited(table, block.uncles, from)->Ok_0,
            chain.uncle_blocks(block).skip(from),
            miner,
        ),
    decreases block.uncles.len() - from,
{
    let all = chain.uncle_blocks(block);
    let after = chain.uncles_credited(table, block.uncles, from)->Ok_0;
    if from < block.uncles.len() {
        let uncle = chain.block_at(block.uncles[from].0 as int, block.uncles[from].1)->Some_0;
        let next = ShareTable::credited(table, uncle.miner, UNCLE_REWARD_SHARE, uncle.coinbase_extra);
        lemma_uncles_take(chain, next, block, from + 1, miner);
        assert(all[from] == uncle);
        lemma_takes_one(table, next, uncle, miner);
        lemma_takes_join(table, next, after, seq![uncle], all.skip(from + 1), miner);
        assert(all.skip(from) =~= seq![uncle] + all.skip(from + 1));
    } else {
        assert(all.skip(from) =~= Seq::empty());
    }
}

proof fn lemma_window_takes(
    chain: ChainView,
    table: Map<Seq<u8>, (u64, Seq<u8>)>,
    window: Seq<BlockView>,
    miner: Seq<u8>,
)
    requires
        chain.ordered(),
        window.len() > 0,
        forall|k: int|
            0 <= k < window.len() - 1 ==> #[trigger] chain.parent_of(window[k]) == Some(window[k + 1]) && window[k].height
                > chain.window_end(),
        window.last().height <= chain.window_end(),
        chain.chain_credited(table, window[0], chain.window_end()) is Ok,
    ensures
        takes_last_extra(
            table,
            chain.chain_credited(table, window[0], chain.window_end())->Ok_0,
            chain.with_uncles(window),
            miner,
        ),
    decreases window.len(),
{
    let block = window[0];
    let after = chain.chain_credited(table, block, chain.window_end())->Ok_0;
    let own = ShareTable::credited(table, block.miner, MAIN_REWARD_SHARE, block.coinbase_extra);
    let here = chain.uncles_credited(own, block.uncles, 0)->Ok_0;
    let uncles = chain.uncle_blocks(block);
    lemma_takes_one(table, own, block, miner);
    lemma_uncles_take(chain, own, block, 0, miner);
    assert(uncles.skip(0) =~= uncles);
    lemma_takes_join(table, own, here, seq![block], uncles, miner);
    let rest = window.skip(1);
    if window.len() > 1 {
        assert(chain.parent_of(window[0]) == Some(window[1]));
        assert(rest[0] == window[1]);
        assert(rest.last() == window.last());
        assert forall|k: int| 0 <= k < rest.len() - 1 implies #[trigger] chain.parent_of(rest[k]) == Some(rest[k + 1])
            && rest[k].height > chain.window_end() by {
            assert(rest[k] == window[k + 1] && rest[k + 1] == window[k + 2]);
            assert(chain.parent_of(window[k + 1]) == Some(window[k + 1 + 1]));
        }
        lemma_window_takes(chain, here, rest, miner);
        lemma_takes_join(table, here, after, seq![block] + uncles, chain.with_uncles(rest), miner);
    } else {
        assert(window.last() == block);
        assert(rest =~= Seq::empty());
        assert(chain.with_uncles(rest) =~= Seq::empty());
        assert(seq![block] + uncles + chain.with_uncles(rest) =~= seq![block] + uncles);
    }
}

/// The free bytes of a miner's shares are those of the lowest block of the share window that earned it any: the blocks count
/// from the tip down, each with its uncles behind it, and the last one that the miner mined counts.
pub proof fn law_lowest_block_gives_the_free_bytes(chain: ChainView, window: Seq<BlockView>, miner: Seq<u8>)
    requires
        chain.ordered(),
        chain.shares() is Ok,
        chain.is_window(window),
    ensures
        (chain.shares()->Ok_0).dom().contains(miner) <==> BlockView::has_block_of(chain.with_uncles(window), miner),
        (chain.shares()->Ok_0).dom().contains(miner) ==> BlockView::are_last_extra(
            chain.with_uncles(window),
            miner,
            (chain.shares()->Ok_0)[miner].1,
        ),
{
    let before = Map::<Seq<u8>, (u64, Seq<u8>)>::empty();
    chain.lemma_level(chain.current_tip as int);
    lemma_window_takes(chain, before, window, miner);
}

proof fn lemma_next_uncles_take(
    chain: ChainView,
    table: Map<Seq<u8>, (u64, Seq<u8>)>,
    block: BlockView,
    from: int,
    miner: Seq<u8>,
)
    requires
        0 <= from <= block.uncles.len(),
        chain.uncles_set(table, block.uncles, from) is Ok,
    ensures
        takes_last_extra(
            table,
            chain.uncles_set(table, block.uncles, from)->Ok_0,
            chain.uncle_blocks(block).skip(from),
            miner,
        ),
    decreases block.uncles.len() - from,
{
    let all = chain.uncle_blocks(block);
    let after = chain.uncles_set(table, block.uncles, from)->Ok_0;
    if from < block.uncles.len() {
        let uncle = chain.block_at(block.uncles[from].0 as int, block.uncles[from].1)->Some_0;
        let next = table.insert(uncle.miner, (UNCLE_REWARD_SHARE, uncle.coinbase_extra));
        lemma_next_uncles_take(chain, next, block, from + 1, miner);
        assert(all[from] == uncle);
        lemma_takes_one(table, next, uncle, miner);
        lemma_takes_join(table, next, after, seq![uncle], all.skip(from + 1), miner);
        assert(all.skip(from) =~= seq![uncle] + all.skip(from + 1));
    } else {
        assert(all.skip(from) =~= Seq::empty());
    }
}

/// Everybody is paid with their own free bytes: whoever mined an uncle of the next block with those of the last such uncle,
/// the miner of the next block with those of the block, and all others with those of their shares.
pub proof fn law_payout_uses_the_free_bytes(chain: ChainView, next: BlockView, miner: Seq<u8>)
    requires
        chain.wf(),
        chain.payout(next) is Ok,
        (chain.payout(next)->Ok_0).dom().contains(miner),
    ensures
        ({
            let extra = (chain.payout(next)->Ok_0)[miner].1;
            let uncles = chain.uncle_blocks(next);
            &&& BlockView::has_block_of(uncles, miner) ==> BlockView::are_last_extra(uncles, miner, extra)
            &&& !BlockView::has_block_of(uncles, miner) && miner == next.miner ==> extra == next.coinbase_extra
            &&& !BlockView::has_block_of(uncles, miner) && miner != next.miner ==> chain.shares() is Ok && (
            chain.shares()->Ok_0).dom().contains(miner) && extra == (chain.shares()->Ok_0)[miner].1
        }),
{
    let table = chain.shares()->Ok_0;
    let own = table.insert(next.miner, (MAIN_REWARD_SHARE, next.coinbase_extra));
    assert(chain.payout(next) == chain.uncles_set(own, next.uncles, 0));
    lemma_next_uncles_take(chain, own, next, 0, miner);
    assert(chain.uncle_blocks(next).skip(0) =~= chain.uncle_blocks(next));
}

/// The work of uncles is the sum of their targets.
pub proof fn law_uncle_work_is_summed(chain: ChainView, uncles: Seq<(u64, BlockHash)>, n: int)
    requires
        0 <= n <= uncles.len(),
    ensures
        chain.uncle_work(uncles, n) == uncles.map_values(
            |uncle: (u64, BlockHash)| (chain.block_at(uncle.0 as int, uncle.1)->Some_0).target_difficulty as int,
        ).take(n).fold_left(0int, |sum: int, target: int| sum + target),
    decreases n,
{
    let add = |sum: int, target: int| sum + target;
    let targets = uncles.map_values(
        |uncle: (u64, BlockHash)| (chain.block_at(uncle.0 as int, uncle.1)->Some_0).target_difficulty as int,
    );
    if n > 0 {
        law_uncle_work_is_summed(chain, uncles, n - 1);
        assert(targets.take(n).drop_last() =~= targets.take(n - 1));
        assert(targets.take(n).last() == targets[n - 1]);
        assert(targets.take(n).fold_left(0int, add) == targets.take(n - 1).fold_left(0int, add) + targets[n - 1]);
    } else {
        assert(targets.take(0).fold_left(0int, add) == 0);
    }
}

}
