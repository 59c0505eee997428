//! Laws on who is paid, and on the block that comes next.
use crate::sharechain::block_map::BlockMap;
use crate::sharechain::chain_model::{AddView, ChainView, MAX_UNCLE_AGE};
use crate::sharechain::error::ShareChainError;
use crate::sharechain::p2block::BlockView;
use crate::sharechain::p2chain_level::LevelView;
use crate::sharechain::share_rules::{MAIN_REWARD_SHARE, SHARE_WINDOW, UNCLE_REWARD_SHARE};
use crate::sharechain::shares::ShareTable;
use crate::types::{BlockHash, FixedHash};
use vstd::prelude::*;

verus! {

impl ShareTable {
    /// The shares of a miner in a table; 0 if there are none.
    pub open spec fn held(table: Map<Seq<u8>, (u64, Seq<u8>)>, miner: Seq<u8>) -> nat {
        if table.dom().contains(miner) {
            table[miner].0 as nat
        } else {
            0
        }
    }

    /// A number of shares, as far as it fits.
    pub open spec fn capped(shares: nat) -> nat {
        if shares > u64::MAX {
            u64::MAX as nat
        } else {
            shares
        }
    }
}

impl ChainView {
    /// What a miner earned with the uncles `uncles[from..]` of a block.
    pub open spec fn uncles_earned(self, uncles: Seq<(u64, BlockHash)>, from: int, miner: Seq<u8>) -> nat
        decreases uncles.len() - from,
    {
        if from < 0 || from >= uncles.len() {
            0
        } else {
            let uncle = self.block_at(uncles[from].0 as int, uncles[from].1)->Some_0;
            self.uncles_earned(uncles, from + 1, miner) + if uncle.miner == miner {
                UNCLE_REWARD_SHARE as nat
            } else {
                0
            }
        }
    }

    /// What a miner earned with one block and its uncles.
    pub open spec fn block_earned(self, block: BlockView, miner: Seq<u8>) -> nat {
        self.uncles_earned(block.uncles, 0, miner) + if block.miner == miner {
            MAIN_REWARD_SHARE as nat
        } else {
            0
        }
    }

    /// What a miner earned with a block and those below it, down to `stop`.
    pub open spec fn earned(self, block: BlockView, stop: int, miner: Seq<u8>) -> nat
        decreases block.height,
    {
        let here = self.block_earned(block, miner);
        if block.height <= stop {
            here
        } else {
            match self.parent_of(block) {
                Some(parent) => if parent.height < block.height {
                    here + self.earned(parent, stop, miner)
                } else {
                    here
                },
                None => here,
            }
        }
    }

    /// The block that lies `n` blocks below another.
    pub open spec fn ancestor(self, block: BlockView, n: nat) -> Option<BlockView>
        decreases n,
    {
        if n == 0 {
            Some(block)
        } else {
            match self.parent_of(block) {
                Some(parent) => self.ancestor(parent, (n - 1) as nat),
                None => None,
            }
        }
    }

    /// The lowest height that counts for shares.
    pub open spec fn window_end(self) -> int {
        crate::sharechain::share_rules::less(self.current_tip as int, SHARE_WINDOW - 1)
    }
}

proof fn lemma_uncles_credited(
    chain: ChainView,
    table: Map<Seq<u8>, (u64, Seq<u8>)>,
    uncles: Seq<(u64, BlockHash)>,
    from: int,
    miner: Seq<u8>,
)
    requires
        chain.uncles_credited(table, uncles, from) is Ok,
    ensures
        ({
            let after = chain.uncles_credited(table, uncles, from)->Ok_0;
            let more = chain.uncles_earned(uncles, from, miner);
            &&& ShareTable::held(after, miner) == ShareTable::capped(ShareTable::held(table, miner) + more)
            &&& after.dom().contains(miner) <==> table.dom().contains(miner) || more > 0
        }),
    decreases uncles.len() - from,
{
    if 0 <= from < uncles.len() {
        let uncle = chain.block_at(uncles[from].0 as int, uncles[from].1)->Some_0;
        let next = ShareTable::credited(table, uncle.miner, UNCLE_REWARD_SHARE, uncle.coinbase_extra);
        lemma_uncles_credited(chain, next, uncles, from + 1, miner);
    }
}

proof fn lemma_chain_credited(
    chain: ChainView,
    table: Map<Seq<u8>, (u64, Seq<u8>)>,
    block: BlockView,
    stop: int,
    miner: Seq<u8>,
)
    requires
        chain.chain_credited(table, block, stop) is Ok,
    ensures
        ({
            let after = chain.chain_credited(table, block, stop)->Ok_0;
            let more = chain.earned(block, stop, miner);
            &&& ShareTable::held(after, miner) == ShareTable::capped(ShareTable::held(table, miner) + more)
            &&& after.dom().contains(miner) <==> table.dom().contains(miner) || more > 0
        }),
    decreases block.height,
{
    let own = ShareTable::credited(table, block.miner, MAIN_REWARD_SHARE, block.coinbase_extra);
    lemma_uncles_credited(chain, own, block.uncles, 0, miner);
    let here = chain.uncles_credited(own, block.uncles, 0)->Ok_0;
    if block.height > stop {
        let parent = chain.parent_of(block)->Some_0;
        lemma_chain_credited(chain, here, parent, stop, miner);
    }
}

/// The shares of a miner are what it earned in the share window: so much for each block of its own in the main chain,
/// and so much for each of its blocks that a block of the main chain names as an uncle. Nobody else has shares.
pub proof fn law_shares_are_earned(chain: ChainView, miner: Seq<u8>)
    requires
        chain.ordered(),
        chain.tip() is Some,
        chain.shares() is Ok,
    ensures
        ({
            let table = chain.shares()->Ok_0;
            let tip = (chain.tip()->Some_0).main_block()->Some_0;
            let earned = chain.earned(tip, chain.window_end(), miner);
            &&& ShareTable::held(table, miner) == ShareTable::capped(earned)
            &&& table.dom().contains(miner) <==> earned > 0
        }),
{
    let tip = chain.tip()->Some_0;
    chain.lemma_level(chain.current_tip as int);
    let block = tip.main_block()->Some_0;
    let none = Map::<Seq<u8>, (u64, Seq<u8>)>::empty();
    lemma_chain_credited(chain, none, block, chain.window_end(), miner);
    assert(ShareTable::held(none, miner) == 0);
}

proof fn lemma_uncle_earned(chain: ChainView, uncles: Seq<(u64, BlockHash)>, from: int, i: int)
    requires
        0 <= from <= i < uncles.len(),
    ensures
        chain.uncles_earned(uncles, from, (chain.block_at(uncles[i].0 as int, uncles[i].1)->Some_0).miner)
            >= UNCLE_REWARD_SHARE,
    decreases i - from,
{
    if from < i {
        lemma_uncle_earned(chain, uncles, from + 1, i);
    }
}

proof fn lemma_ancestor_earned(chain: ChainView, block: BlockView, stop: int, n: nat, miner: Seq<u8>)
    requires
        chain.ordered(),
        chain.ancestor(block, n) is Some,
        (chain.ancestor(block, n)->Some_0).height >= stop,
    ensures
        chain.earned(block, stop, miner) >= chain.block_earned(chain.ancestor(block, n)->Some_0, miner),
        (chain.ancestor(block, n)->Some_0).height <= block.height,
        n > 0 ==> (chain.ancestor(block, n)->Some_0).height < block.height,
    decreases n,
{
    if n > 0 {
        let parent = chain.parent_of(block)->Some_0;
        chain.lemma_block(block.height - 1, block.prev_hash);
        lemma_ancestor_earned(chain, parent, stop, (n - 1) as nat, miner);
    }
}

/// Whoever mined a block of the main chain in the share window has the shares of a block at least, and whoever mined
/// an uncle of such a block those of an uncle.
pub proof fn law_recent_miners_have_shares(chain: ChainView, n: nat, i: int)
    requires
        chain.ordered(),
        chain.tip() is Some,
        chain.shares() is Ok,
        chain.ancestor((chain.tip()->Some_0).main_block()->Some_0, n) is Some,
        (chain.ancestor((chain.tip()->Some_0).main_block()->Some_0, n)->Some_0).height >= chain.window_end(),
    ensures
        ({
            let table = chain.shares()->Ok_0;
            let block = chain.ancestor((chain.tip()->Some_0).main_block()->Some_0, n)->Some_0;
            &&& table.dom().contains(block.miner) && table[block.miner].0 >= MAIN_REWARD_SHARE
            &&& 0 <= i < block.uncles.len() ==> {
                let uncle = chain.block_at(block.uncles[i].0 as int, block.uncles[i].1)->Some_0;
                table.dom().contains(uncle.miner) && table[uncle.miner].0 >= UNCLE_REWARD_SHARE
            }
        }),
{
    let tip = (chain.tip()->Some_0).main_block()->Some_0;
    let block = chain.ancestor(tip, n)->Some_0;
    law_shares_are_earned(chain, block.miner);
    lemma_ancestor_earned(chain, tip, chain.window_end(), n, block.miner);
    if 0 <= i < block.uncles.len() {
        let uncle = chain.block_at(block.uncles[i].0 as int, block.uncles[i].1)->Some_0;
        law_shares_are_earned(chain, uncle.miner);
        lemma_ancestor_earned(chain, tip, chain.window_end(), n, uncle.miner);
        lemma_uncle_earned(chain, block.uncles, 0, i);
    }
}

proof fn lemma_uncles_set(
    chain: ChainView,
    table: Map<Seq<u8>, (u64, Seq<u8>)>,
    uncles: Seq<(u64, BlockHash)>,
    from: int,
    miner: Seq<u8>,
)
    requires
        chain.uncles_set(table, uncles, from) is Ok,
        table.dom().contains(miner),
        table[miner].0 > 0,
    ensures
        (chain.uncles_set(table, uncles, from)->Ok_0).dom().contains(miner),
        (chain.uncles_set(table, uncles, from)->Ok_0)[miner].0 > 0,
    decreases uncles.len() - from,
{
    if 0 <= from < uncles.len() {
        let uncle = chain.block_at(uncles[from].0 as int, uncles[from].1)->Some_0;
        let next = table.insert(uncle.miner, (UNCLE_REWARD_SHARE, uncle.coinbase_extra));
        lemma_uncles_set(chain, next, uncles, from + 1, miner);
    }
}

/// Whoever has shares in the share window is paid, and so is the miner of the next block.
pub proof fn law_whoever_has_shares_is_paid(chain: ChainView, block: BlockView, miner: Seq<u8>)
    requires
        chain.wf(),
        chain.payout(block) is Ok,
    ensures
        ({
            let paid = chain.payout(block)->Ok_0;
            let table = chain.shares()->Ok_0;
            &&& chain.shares() is Ok
            &&& table.dom().contains(miner) && table[miner].0 > 0 ==> paid.dom().contains(miner) && paid[miner].0 > 0
            &&& paid.dom().contains(block.miner) && paid[block.miner].0 > 0
        }),
{
    let table = chain.shares()->Ok_0;
    let own = table.insert(block.miner, (MAIN_REWARD_SHARE, block.coinbase_extra));
    lemma_uncles_set(chain, own, block.uncles, 0, block.miner);
    if table.dom().contains(miner) && table[miner].0 > 0 {
        lemma_uncles_set(chain, own, block.uncles, 0, miner);
    }
}

/// Whoever mined a block of the main chain in the share window, or an uncle of such a block, is paid.
pub proof fn law_recent_miners_are_paid(chain: ChainView, next: BlockView, n: nat, i: int)
    requires
        chain.wf(),
        chain.tip() is Some,
        chain.payout(next) is Ok,
        chain.ancestor((chain.tip()->Some_0).main_block()->Some_0, n) is Some,
        (chain.ancestor((chain.tip()->Some_0).main_block()->Some_0, n)->Some_0).height >= chain.window_end(),
    ensures
        ({
            let paid = chain.payout(next)->Ok_0;
            let block = chain.ancestor((chain.tip()->Some_0).main_block()->Some_0, n)->Some_0;
            &&& paid.dom().contains(block.miner) && paid[block.miner].0 > 0
            &&& 0 <= i < block.uncles.len() ==> {
                let uncle = chain.block_at(block.uncles[i].0 as int, block.uncles[i].1)->Some_0;
                paid.dom().contains(uncle.miner) && paid[uncle.miner].0 > 0
            }
        }),
{
    let block = chain.ancestor((chain.tip()->Some_0).main_block()->Some_0, n)->Some_0;
    law_recent_miners_have_shares(chain, n, i);
    law_whoever_has_shares_is_paid(chain, next, block.miner);
    if 0 <= i < block.uncles.len() {
        let uncle = chain.block_at(block.uncles[i].0 as int, block.uncles[i].1)->Some_0;
        law_whoever_has_shares_is_paid(chain, next, uncle.miner);
    }
}

impl ChainView {
    /// The miner mined a block of the main chain in the share window, or an uncle of such a block.
    pub open spec fn mined_recently(self, miner: Seq<u8>) -> bool {
        &&& self.tip() is Some
        &&& exists|n: nat, i: int| #[trigger]
            self.mined_at((self.tip()->Some_0).main_block()->Some_0, n, i, miner)
    }

    /// The miner mined the block that lies `n` blocks below another, if it is in the share window, or its uncle `i`.
    pub open spec fn mined_at(self, top: BlockView, n: nat, i: int, miner: Seq<u8>) -> bool {
        match self.ancestor(top, n) {
            None => false,
            Some(block) => {
                &&& block.height >= self.window_end()
                &&& {
                    ||| block.miner == miner
                    ||| 0 <= i < block.uncles.len() && (self.block_at(
                        block.uncles[i].0 as int,
                        block.uncles[i].1,
                    )->Some_0).miner == miner
                }
            },
        }
    }
}

/// Each recent miner is among those that a payout pays, and so is the miner of the next block.
pub proof fn law_payout_has_recent_miners(chain: ChainView, next: BlockView)
    requires
        chain.wf(),
        chain.payout(next) is Ok,
    ensures
        forall|miner: Seq<u8>|
            miner == next.miner || #[trigger] chain.mined_recently(miner) ==> (chain.payout(
                next,
            )->Ok_0).dom().contains(miner) && (chain.payout(next)->Ok_0)[miner].0 > 0,
        (chain.payout(next)->Ok_0).dom().contains(next.miner),
        (chain.payout(next)->Ok_0)[next.miner].0 > 0,
{
    law_whoever_has_shares_is_paid(chain, next, next.miner);
    assert forall|miner: Seq<u8>| #[trigger] chain.mined_recently(miner) implies (chain.payout(
        next,
    )->Ok_0).dom().contains(miner) && (chain.payout(next)->Ok_0)[miner].0 > 0 by {
        let top = (chain.tip()->Some_0).main_block()->Some_0;
        let (n, i) = choose|n: nat, i: int| #[trigger] chain.mined_at(top, n, i, miner);
        law_recent_miners_are_paid(chain, next, n, i);
    }
}

impl ChainView {
    /// The share window: the tip's block, and behind each block its parent, down to the lowest height that counts.
    pub open spec fn is_window(self, window: Seq<BlockView>) -> bool {
        &&& window.len() > 0
        &&& self.tip() is Some
        &&& (self.tip()->Some_0).main_block() == Some(window[0])
        &&& forall|k: int|
            0 <= k < window.len() - 1 ==> #[trigger] self.parent_of(window[k]) == Some(window[k + 1]) && window[k].height
                > self.window_end()
        &&& window.last().height <= self.window_end()
    }

    /// The uncles of a block, as blocks.
    pub open spec fn uncle_blocks(self, block: BlockView) -> Seq<BlockView> {
        block.uncles.map_values(|u: (u64, BlockHash)| self.block_at(u.0 as int, u.1)->Some_0)
    }

    /// The uncles of some blocks, one behind the other.
    pub open spec fn confirmed(self, blocks: Seq<BlockView>) -> Seq<BlockView>
        decreases blocks.len(),
    {
        if blocks.len() == 0 {
            Seq::empty()
        } else {
            self.uncle_blocks(blocks[0]) + self.confirmed(blocks.skip(1))
        }
    }

    /// How many of the blocks a miner mined.
    pub open spec fn mined(blocks: Seq<BlockView>, miner: Seq<u8>) -> nat {
        blocks.filter(|b: BlockView| b.miner == miner).len()
    }

    /// What a payout with `next` as the next block owes a miner: the share of an uncle to whoever mined an uncle of that
    /// block, the share of a block to whoever mines it, and to all others what they earned in the share window.
    pub open spec fn owed(self, next: BlockView, miner: Seq<u8>) -> nat {
        if exists|i: int|
            0 <= i < next.uncles.len() && (self.block_at(
                (#[trigger] next.uncles[i]).0 as int,
                next.uncles[i].1,
            )->Some_0).miner == miner {
            UNCLE_REWARD_SHARE as nat
        } else if miner == next.miner {
            MAIN_REWARD_SHARE as nat
        } else if self.tip() is Some {
            ShareTable::capped(self.earned((self.tip()->Some_0).main_block()->Some_0, self.window_end(), miner))
        } else {
            0
        }
    }
}

proof fn lemma_uncles_counted(chain: ChainView, block: BlockView, from: int, miner: Seq<u8>)
    requires
        0 <= from <= block.uncles.len(),
    ensures
        chain.uncles_earned(block.uncles, from, miner) == UNCLE_REWARD_SHARE * ChainView::mined(
            chain.uncle_blocks(block).skip(from),
            miner,
        ),
    decreases block.uncles.len() - from,
{
    let all = chain.uncle_blocks(block);
    let by = |b: BlockView| b.miner == miner;
    reveal(Seq::filter);
    if from < block.uncles.len() {
        lemma_uncles_counted(chain, block, from + 1, miner);
        let first = seq![all[from]];
        assert(all.skip(from) =~= first + all.skip(from + 1));
        Seq::filter_distributes_over_add(first, all.skip(from + 1), by);
        assert(first.drop_last() =~= Seq::<BlockView>::empty());
        assert(first.drop_last().filter(by).len() == 0);
        assert(first.filter(by).len() == if all[from].miner == miner {
            1int
        } else {
            0
        });
    } else {
        assert(all.skip(from) =~= Seq::<BlockView>::empty());
    }
}

proof fn lemma_window_counted(chain: ChainView, window: Seq<BlockView>, miner: Seq<u8>)
    requires
        chain.ordered(),
        window.len() > 0,
        forall|k: int|
            0 <= k < window.len() - 1 ==> #[trigger] chain.parent_of(window[k]) == Some(window[k + 1]) && window[k].height
                > chain.window_end(),
        window.last().height <= chain.window_end(),
    ensures
        chain.earned(window[0], chain.window_end(), miner) == MAIN_REWARD_SHARE * ChainView::mined(window, miner)
            + UNCLE_REWARD_SHARE * ChainView::mined(chain.confirmed(window), miner),
    decreases window.len(),
{
    let by = |b: BlockView| b.miner == miner;
    let first = seq![window[0]];
    let rest = window.skip(1);
    reveal(Seq::filter);
    assert(window =~= first + rest);
    Seq::filter_distributes_over_add(first, rest, by);
    assert(first.drop_last() =~= Seq::<BlockView>::empty());
    assert(first.drop_last().filter(by).len() == 0);
    lemma_uncles_counted(chain, window[0], 0, miner);
    assert(chain.uncle_blocks(window[0]).skip(0) =~= chain.uncle_blocks(window[0]));
    Seq::filter_distributes_over_add(chain.uncle_blocks(window[0]), chain.confirmed(rest), by);
    if window.len() > 1 {
        assert(chain.parent_of(window[0]) == Some(window[1]));
        chain.lemma_block(window[0].height - 1, window[0].prev_hash);
        assert forall|k: int| 0 <= k < rest.len() - 1 implies #[trigger] chain.parent_of(rest[k]) == Some(rest[k + 1])
            && rest[k].height > chain.window_end() by {
            assert(rest[k] == window[k + 1] && rest[k + 1] == window[k + 2]);
            assert(chain.parent_of(window[k + 1]) == Some(window[k + 2]));
        }
        assert(rest.last() == window.last());
        lemma_window_counted(chain, rest, miner);
    } else {
        assert(rest =~= Seq::<BlockView>::empty());
        assert(chain.confirmed(rest) =~= Seq::<BlockView>::empty());
        assert(window.last() == window[0]);
    }
}

/// The shares of a miner are five for each block of the share window that it mined, and four for each of its blocks that a
/// block of the share window names as an uncle.
pub proof fn law_shares_count_blocks(chain: ChainView, window: Seq<BlockView>, miner: Seq<u8>)
    requires
        chain.ordered(),
        chain.shares() is Ok,
        chain.is_window(window),
    ensures
        ({
            let earned = 5 * ChainView::mined(window, miner) + 4 * ChainView::mined(chain.confirmed(window), miner);
            let table = chain.shares()->Ok_0;
            &&& earned <= u64::MAX ==> ShareTable::held(table, miner) == earned
            &&& table.dom().contains(miner) <==> earned > 0
        }),
{
    law_shares_are_earned(chain, miner);
    lemma_window_counted(chain, window, miner);
}

proof fn lemma_window_below(chain: ChainView, table: Map<Seq<u8>, (u64, Seq<u8>)>, block: BlockView) -> (window: Seq<
    BlockView,
>)
    requires
        chain.ordered(),
        chain.chain_credited(table, block, chain.window_end()) is Ok,
    ensures
        window.len() > 0,
        window[0] == block,
        forall|k: int|
            0 <= k < window.len() - 1 ==> #[trigger] chain.parent_of(window[k]) == Some(window[k + 1]) && window[k].height
                > chain.window_end(),
        window.last().height <= chain.window_end(),
    decreases block.height,
{
    if block.height <= chain.window_end() {
        seq![block]
    } else {
        let own = ShareTable::credited(table, block.miner, MAIN_REWARD_SHARE, block.coinbase_extra);
        let here = chain.uncles_credited(own, block.uncles, 0)->Ok_0;
        let parent = chain.parent_of(block)->Some_0;
        let rest = lemma_window_below(chain, here, parent);
        let window = seq![block] + rest;
        assert forall|k: int| 0 <= k < window.len() - 1 implies #[trigger] chain.parent_of(window[k]) == Some(
            window[k + 1],
        ) && window[k].height > chain.window_end() by {
            if k > 0 {
                assert(window[k] == rest[k - 1] && window[k + 1] == rest[k]);
                assert(chain.parent_of(rest[k - 1]) == Some(rest[k]));
            } else {
                assert(window[1] == rest[0]);
            }
        }
        assert(window.last() == rest.last());
        window
    }
}

/// Whenever shares can be worked out, the share window is there: it reaches from the tip down to the lowest height that
/// counts, a full window below the tip or the first block.
pub proof fn law_shares_have_a_window(chain: ChainView) -> (window: Seq<BlockView>)
    requires
        chain.ordered(),
        chain.tip() is Some,
        chain.shares() is Ok,
    ensures
        chain.is_window(window),
        chain.window_end() == (if chain.current_tip >= SHARE_WINDOW {
            chain.current_tip - 399
        } else {
            0
        }),
{
    chain.lemma_level(chain.current_tip as int);
    lemma_window_below(chain, Map::empty(), (chain.tip()->Some_0).main_block()->Some_0)
}

proof fn lemma_uncles_owed(
    chain: ChainView,
    table: Map<Seq<u8>, (u64, Seq<u8>)>,
    uncles: Seq<(u64, BlockHash)>,
    from: int,
    miner: Seq<u8>,
)
    requires
        0 <= from <= uncles.len(),
        chain.uncles_set(table, uncles, from) is Ok,
    ensures
        ({
            let after = chain.uncles_set(table, uncles, from)->Ok_0;
            if exists|i: int|
                from <= i < uncles.len() && (chain.block_at(
                    (#[trigger] uncles[i]).0 as int,
                    uncles[i].1,
                )->Some_0).miner == miner {
                after.dom().contains(miner) && after[miner].0 == UNCLE_REWARD_SHARE
            } else {
                &&& after.dom().contains(miner) <==> table.dom().contains(miner)
                &&& table.dom().contains(miner) ==> after[miner] == table[miner]
            }
        }),
    decreases uncles.len() - from,
{
    if from < uncles.len() {
        let uncle = chain.block_at(uncles[from].0 as int, uncles[from].1)->Some_0;
        let next = table.insert(uncle.miner, (UNCLE_REWARD_SHARE, uncle.coinbase_extra));
        lemma_uncles_owed(chain, next, uncles, from + 1, miner);
        if uncle.miner == miner {
            assert((chain.block_at(uncles[from].0 as int, uncles[from].1)->Some_0).miner == miner);
        }
    }
}

/// A payout pays each miner exactly what it owes: whoever mined an uncle of the next block the share of an uncle, its
/// miner the share of a block, all others what they earned in the share window; and nobody else. The free bytes of the
/// next block's miner are those of the block.
pub proof fn law_payout_pays_what_is_owed(chain: ChainView, next: BlockView, miner: Seq<u8>)
    requires
        chain.wf(),
        chain.payout(next) is Ok,
    ensures
        ({
            let paid = chain.payout(next)->Ok_0;
            let owed = chain.owed(next, miner);
            &&& paid.dom().contains(miner) <==> owed > 0
            &&& paid.dom().contains(miner) ==> paid[miner].0 == owed
            &&& (miner == next.miner && forall|i: int|
                0 <= i < next.uncles.len() ==> (chain.block_at(
                    (#[trigger] next.uncles[i]).0 as int,
                    next.uncles[i].1,
                )->Some_0).miner != miner) ==> paid[miner] == (MAIN_REWARD_SHARE, next.coinbase_extra)
        }),
{
    let table = chain.shares()->Ok_0;
    let own = table.insert(next.miner, (MAIN_REWARD_SHARE, next.coinbase_extra));
    assert(chain.payout(next) == chain.uncles_set(own, next.uncles, 0));
    lemma_uncles_owed(chain, own, next.uncles, 0, miner);
    if chain.tip() is Some {
        law_shares_are_earned(chain, miner);
    }
}

impl ChainView {
    /// A block that lies on the tip, with the uncles that the chain offers, and claims the work of all of them.
    pub open spec fn comes_next(self, block: BlockView) -> bool {
        &&& self.tip() is Some
        &&& (self.tip()->Some_0).main_block() is Some
        &&& self.offered_uncles(block.height) == Ok::<_, ShareChainError>(block.uncles)
        &&& block.height == self.current_tip + 1
        &&& block.prev_hash == (self.tip()->Some_0).chain_block
        &&& block.hash != FixedHash::spec_zero()
        &&& block.total_pow == self.tip_pow() + self.uncle_work(block.uncles, block.uncles.len() as int)
            + block.target_difficulty
    }

    /// The chain with a block marked as verified, if it is not yet.
    pub open spec fn seen(self, block: BlockView) -> ChainView {
        if block.verified {
            self
        } else {
            self.marked(block)
        }
    }

    /// The levels right below a height are those of another chain.
    pub open spec fn agrees_below(self, other: ChainView, height: int) -> bool {
        forall|h: int| height - MAX_UNCLE_AGE - 1 <= h < height ==> #[trigger] self.level(h) == other.level(h)
    }

    proof fn lemma_agreed_block(self, other: ChainView, height: int, h: int, hash: BlockHash)
        requires
            self.agrees_below(other, height),
            height - MAX_UNCLE_AGE - 1 <= h < height,
        ensures
            self.block_at(h, hash) == other.block_at(h, hash),
    {
        assert(self.level(h) == other.level(h));
    }
}

proof fn lemma_next_own_work(chain: ChainView, next: ChainView, block: BlockView, n: int)
    requires
        next.agrees_below(chain, block.height as int),
        0 <= n <= block.uncles.len(),
        forall|i: int|
            0 <= i < block.uncles.len() ==> {
                let entry = #[trigger] block.uncles[i];
                &&& block.height - MAX_UNCLE_AGE <= entry.0 < block.height
                &&& chain.block_at(entry.0 as int, entry.1) is Some
            },
        chain.uncle_work(block.uncles, n) + block.target_difficulty <= u128::MAX,
    ensures
        next.own_work(block, n) == Ok::<_, ShareChainError>(
            (chain.uncle_work(block.uncles, n) + block.target_difficulty) as int,
        ),
    decreases n,
{
    if n > 0 {
        let entry = block.uncles[n - 1];
        lemma_next_own_work(chain, next, block, n - 1);
        next.lemma_agreed_block(chain, block.height as int, entry.0 as int, entry.1);
    }
}

proof fn lemma_next_missing(chain: ChainView, next: ChainView, block: BlockView, n: int)
    requires
        chain.ordered(),
        next.agrees_below(chain, block.height as int),
        0 <= n <= block.uncles.len(),
        forall|i: int|
            0 <= i < block.uncles.len() ==> {
                let entry = #[trigger] block.uncles[i];
                &&& block.height - MAX_UNCLE_AGE <= entry.0 < block.height
                &&& chain.block_at(entry.0 as int, entry.1) is Some
                &&& chain.lies_on_main_chain(entry)
            },
    ensures
        next.missing_uncles(block.uncles, n, Seq::empty()) == Seq::<(BlockHash, u64)>::empty(),
    decreases n,
{
    if n > 0 {
        let entry = block.uncles[n - 1];
        lemma_next_missing(chain, next, block, n - 1);
        next.lemma_agreed_block(chain, block.height as int, entry.0 as int, entry.1);
        let uncle = chain.block_at(entry.0 as int, entry.1)->Some_0;
        chain.lemma_block(entry.0 as int, entry.1);
        next.lemma_agreed_block(chain, block.height as int, uncle.height - 1, uncle.prev_hash);
    }
}

proof fn lemma_next_uncle_fault(chain: ChainView, next: ChainView, block: BlockView, from: int)
    requires
        chain.ordered(),
        next.agrees_below(chain, block.height as int),
        0 <= from <= block.uncles.len(),
        forall|i: int|
            0 <= i < block.uncles.len() ==> {
                let entry = #[trigger] block.uncles[i];
                &&& block.height - MAX_UNCLE_AGE <= entry.0 < block.height
                &&& chain.block_at(entry.0 as int, entry.1) is Some
                &&& chain.lies_on_main_chain(entry)
                &&& (chain.level(entry.0 as int)->Some_0).chain_block != entry.1
            },
    ensures
        next.uncle_fault(block.uncles, from) is None,
    decreases block.uncles.len() - from,
{
    if from < block.uncles.len() {
        let entry = block.uncles[from];
        lemma_next_uncle_fault(chain, next, block, from + 1);
        next.lemma_agreed_block(chain, block.height as int, entry.0 as int, entry.1);
        let uncle = chain.block_at(entry.0 as int, entry.1)->Some_0;
        chain.lemma_block(entry.0 as int, entry.1);
        next.lemma_agreed_block(chain, block.height as int, uncle.height - 1, uncle.prev_hash);
        chain.lemma_block(uncle.height - 1, uncle.prev_hash);
        assert(next.level(entry.0 as int) == chain.level(entry.0 as int));
        assert(next.level(ChainView::below(entry.0) as int) == chain.level(ChainView::below(entry.0) as int));
    }
}

proof fn lemma_placed_below(chain: ChainView, block: BlockView)
    requires
        chain.ordered(),
        chain.takes(block.height),
        chain.tip() is Some,
        block.height == chain.current_tip + 1,
    ensures
        chain.placed(block).1,
        chain.placed(block).0.agrees_below(chain, block.height as int),
        chain.placed(block).0.current_tip == chain.current_tip,
{
    let height = block.height as int;
    chain.lemma_level(chain.current_tip as int);
    chain.lemma_placed(block);
    let next = chain.placed(block).0;
    match chain.level(height) {
        Some(level) => {
            chain.lemma_level(height);
            level.lemma_with(block);
            chain.lemma_with_level(height, LevelView { blocks: BlockMap::with(level.blocks, block), ..level });
        },
        None => {
            assert(chain.levels[chain.levels.len() - 1].wf());
            assert(chain.top() == chain.current_tip);
            assert(chain.raised(height) == chain);
            let alone = LevelView::of_block(block);
            assert(next == chain.pushed(alone));
            assert forall|h: int| height - MAX_UNCLE_AGE - 1 <= h < height implies #[trigger] next.level(h)
                == chain.level(h) by {
                if chain.full() {
                    assert(next.levels[0] == chain.levels[1]);
                    assert(chain.levels[1].height == chain.levels[0].height + 1);
                    assert(next.levels[h - next.base()] == chain.levels[h - chain.base()]);
                } else {
                    assert(next.levels[0] == chain.levels[0]);
                    if chain.base() <= h {
                        assert(next.levels[h - chain.base()] == chain.levels[h - chain.base()]);
                    }
                }
            }
        },
    }
}

/// The block that comes next lacks nothing, keeps the rules and claims the right work. When it has been placed and is
/// looked at, it becomes the tip, and its work is that of the chain.
pub proof fn lemma_next_block_step(chain: ChainView, block: BlockView)
    requires
        chain.ordered(),
        chain.takes(block.height),
        chain.comes_next(block),
    ensures
        ({
            let (next, put) = chain.without_shares().placed(block);
            let (after, result) = next.step(block.height, block.hash);
            &&& put
            &&& result == Ok::<_, ShareChainError>(
                (AddView::tip(block.hash, block.height), after.linked_to(block.height as int, block.hash)),
            )
            &&& after == next.seen(block).advanced(BlockView { verified: true, ..block })
            &&& after.current_tip == block.height
            &&& after.tip() is Some
            &&& after.tip_pow() == block.total_pow
        }),
{
    reveal(ChainView::step);
    let height = block.height as int;
    chain.lemma_offered(block.height);
    let bare = chain.without_shares();
    lemma_placed_below(bare, block);
    bare.lemma_placed(block);
    let next = bare.placed(block).0;
    assert(next.agrees_below(chain, height)) by {
        assert forall|h: int| height - MAX_UNCLE_AGE - 1 <= h < height implies #[trigger] next.level(h)
            == chain.level(h) by {
            assert(next.level(h) == bare.level(h));
            assert(bare.level(h) == chain.level(h));
        }
    }
    let tip = chain.tip()->Some_0;
    chain.lemma_level(chain.current_tip as int);
    tip.lemma_found(tip.chain_block);
    assert(next.level(height - 1) == chain.level(height - 1));
    assert(next.tip() == chain.tip());
    assert(next.parent_of(block) == tip.main_block());
    lemma_next_missing(chain, next, block, block.uncles.len() as int);
    lemma_next_own_work(chain, next, block, block.uncles.len() as int);
    assert(next.missing_links(block) == Seq::<(BlockHash, u64)>::empty());
    assert(next.work_fault(block) is None);
    let verified = BlockView { verified: true, ..block };
    let marked = next.seen(block);
    next.lemma_marked(block);
    if !block.verified {
        next.lemma_level(height);
        let level = next.level(height)->Some_0;
        level.lemma_with(verified);
        next.lemma_with_level(height, LevelView { blocks: BlockMap::with(level.blocks, verified), ..level });
        assert(marked.agrees_below(chain, height)) by {
            assert forall|h: int| height - MAX_UNCLE_AGE - 1 <= h < height implies #[trigger] marked.level(h)
                == chain.level(h) by {
                assert(next.level(h) == chain.level(h));
            }
        }
    }
    assert(marked.level(height - 1) == chain.level(height - 1));
    assert(marked.tip() == chain.tip());
    lemma_next_uncle_fault(chain, marked, block, 0);
    marked.lemma_advanced(verified);
}

/// The block that comes next, with the uncles that the chain offers, does not name its parent as an uncle.
pub proof fn lemma_next_uncles(chain: ChainView, block: BlockView)
    requires
        chain.ordered(),
        chain.comes_next(block),
    ensures
        !ChainView::uncle_is_parent(block),
{
    chain.lemma_offered(block.height);
    let tip = chain.tip()->Some_0;
    assert(chain.level(block.height - 1) == Some(tip));
}

/// The block that comes next becomes the tip when it is added, and its work is that of the chain. No block that is there
/// already may name it, for such a block is looked at next and may become the tip in its turn.
pub proof fn law_next_block_becomes_the_tip(chain: ChainView, block: BlockView, fuel: nat)
    requires
        chain.ordered(),
        chain.takes(block.height),
        chain.comes_next(block),
        block.height < chain.horizon(),
        chain.linked_to(block.height as int, block.hash).len() == 0,
        fuel > 0,
    ensures
        chain.add_block(block, fuel) matches Some((after, result)) && {
            &&& result == Ok::<_, ShareChainError>(AddView::tip(block.hash, block.height))
            &&& after.current_tip == block.height
            &&& after.tip() is Some
            &&& after.tip_pow() == block.total_pow
        },
{
    lemma_next_uncles(chain, block);
    lemma_next_links(chain, block);
    lemma_next_block_step(chain, block);
    let (placed, _) = chain.without_shares().placed(block);
    let work = seq![(block.height, block.hash)];
    let (after, result) = placed.step(block.height, block.hash);
    let more = result->Ok_0.1;
    assert(more =~= Seq::empty());
    let combined = AddView::nothing().combined(AddView::tip(block.hash, block.height));
    assert(combined.missing =~= Seq::empty());
    assert(combined == AddView::tip(block.hash, block.height));
    assert(work.skip(1) =~= Seq::empty());
    let rest = ChainView::queued(work.skip(1), more, 0, work[0]);
    assert(rest.len() == 0);
    assert(after.run(rest, combined, (fuel - 1) as nat) == Some((after, Ok::<_, ShareChainError>(combined))));
    assert(placed.run(work, AddView::nothing(), fuel) == Some((after, Ok::<_, ShareChainError>(combined))));
}

proof fn lemma_next_links(chain: ChainView, block: BlockView)
    requires
        chain.ordered(),
        chain.takes(block.height),
        chain.comes_next(block),
        block.height < chain.horizon(),
    ensures
        ({
            let next = chain.without_shares().placed(block).0;
            let after = next.seen(block).advanced(BlockView { verified: true, ..block });
            after.linked_to(block.height as int, block.hash) == chain.linked_to(block.height as int, block.hash)
        }),
{
    let height = block.height as int;
    let bare = chain.without_shares();
    let next = bare.placed(block).0;
    let verified = BlockView { verified: true, ..block };
    bare.lemma_placed(block);
    lemma_placed_below(bare, block);
    chain.lemma_level(chain.current_tip as int);
    assert forall|h: int| h > height implies #[trigger] next.level(h) == chain.level(h) by {
        assert(bare.level(h) == chain.level(h));
        match bare.level(height) {
            Some(level) => {
                bare.lemma_level(height);
                level.lemma_with(block);
                bare.lemma_with_level(height, LevelView { blocks: BlockMap::with(level.blocks, block), ..level });
            },
            None => {
                assert(chain.levels[chain.levels.len() - 1].wf());
                assert(bare.top() == chain.current_tip);
                assert(bare.raised(height) == bare);
                let alone = LevelView::of_block(block);
                assert(next == bare.pushed(alone));
                bare.lemma_pushed(alone);
                assert(next.levels[next.levels.len() - 1].wf());
            },
        }
    }
    next.lemma_level(height);
    let level = next.level(height)->Some_0;
    let seen = next.seen(block);
    level.lemma_with(verified);
    next.lemma_with_level(height, LevelView { blocks: BlockMap::with(level.blocks, verified), ..level });
    next.lemma_marked(block);
    assert forall|h: int| h > height implies #[trigger] seen.level(h) == chain.level(h) by {
        assert(next.level(h) == chain.level(h));
    }
    seen.lemma_advanced_above(verified);
    let after = seen.advanced(verified);
    assert(after.level(height + 1) == chain.level(height + 1)) by {
        assert(seen.level(height + 1) == chain.level(height + 1));
    }
    assert(after.level(height + 2) == chain.level(height + 2)) by {
        assert(seen.level(height + 2) == chain.level(height + 2));
    }
}

/// The block that a miner is offered comes next: its work is that of the tip, of its uncles and its own.
pub proof fn law_generated_block_comes_next(
    chain: ChainView,
    uncles: Seq<(u64, BlockHash)>,
    miner: Seq<u8>,
    extra: Seq<u8>,
    timestamp: u64,
    hash: BlockHash,
)
    requires
        chain.ordered(),
        chain.tip() is Some,
        (chain.tip()->Some_0).main_block() is Some,
        chain.offered_uncles(chain.next_height()) == Ok::<_, ShareChainError>(uncles),
        !chain.next_work_overflows(uncles),
        hash != FixedHash::spec_zero(),
    ensures
        chain.comes_next(BlockView { hash, ..chain.next_block(uncles, miner, extra, timestamp).0 }),
{
    let tip = chain.tip()->Some_0;
    chain.lemma_level(chain.current_tip as int);
    tip.lemma_found(tip.chain_block);
}

}
