//! Laws on how the work of a block is checked, which uncles a block can have, and how the main chain moves to another
//! branch.
use crate::sharechain::chain_model::{AddView, ChainView};
use crate::sharechain::p2block::BlockView;
use crate::types::BlockHash;
use vstd::prelude::*;

verus! {

impl ChainView {
    /// All uncles of the block are there.
    pub open spec fn has_uncles_of(self, block: BlockView) -> bool {
        forall|i: int|
            0 <= i < block.uncles.len() ==> self.block_at(
                (#[trigger] block.uncles[i]).0 as int,
                block.uncles[i].1,
            ) is Some
    }

    /// The targets of a block's uncles.
    pub open spec fn uncle_targets(self, block: BlockView) -> Seq<int> {
        block.uncles.map_values(
            |uncle: (u64, BlockHash)| (self.block_at(uncle.0 as int, uncle.1)->Some_0).target_difficulty as int,
        )
    }

    /// The work that a block adds: its target and those of its uncles.
    pub open spec fn work_added(self, block: BlockView) -> int {
        self.uncle_targets(block).fold_left(block.target_difficulty as int, |sum: int, target: int| sum + target)
    }

    /// An uncle is good: it is there and not in the main chain, and the block below it is there and in the main chain.
    pub open spec fn is_good_uncle(self, height: u64, hash: BlockHash) -> bool {
        &&& self.block_at(height as int, hash) matches Some(uncle)
        &&& self.parent_of(uncle) matches Some(parent)
        &&& self.level(height as int)->Some_0.chain_block != hash
        &&& self.level(ChainView::below(height) as int) matches Some(lower)
        &&& lower.chain_block == parent.hash
    }
}

proof fn lemma_own_work(chain: ChainView, block: BlockView, n: int)
    requires
        0 <= n <= block.uncles.len(),
    ensures
        chain.own_work(block, n) is Ok <==> (forall|i: int|
            0 <= i < n ==> chain.block_at((#[trigger] block.uncles[i]).0 as int, block.uncles[i].1) is Some)
            && chain.uncle_targets(block).take(n).fold_left(
            block.target_difficulty as int,
            |sum: int, target: int| sum + target,
        ) <= u128::MAX,
        chain.own_work(block, n) matches Ok(work) ==> work == chain.uncle_targets(block).take(n).fold_left(
            block.target_difficulty as int,
            |sum: int, target: int| sum + target,
        ),
    decreases n,
{
    let add = |sum: int, target: int| sum + target;
    let targets = chain.uncle_targets(block);
    let start = block.target_difficulty as int;
    if n > 0 {
        lemma_own_work(chain, block, n - 1);
        assert(targets.take(n).drop_last() =~= targets.take(n - 1));
        assert(targets.take(n).last() == targets[n - 1]);
        assert(targets.take(n).fold_left(start, add) == targets.take(n - 1).fold_left(start, add) + targets[n - 1]);
        assert(block.uncles[n - 1].0 == block.uncles[n - 1].0);
        assert(chain.block_at(block.uncles[n - 1].0 as int, block.uncles[n - 1].1) is Some ==> targets[n - 1] >= 0);
    } else {
        assert(targets.take(0).fold_left(start, add) == start);
    }
}

/// The total work of a block is right if it is its own target, those of all its uncles, and the total work of the block
/// below; and only then. The first block of a chain has nothing below. Every uncle and the block below must be there.
pub proof fn law_work_is_summed(chain: ChainView, block: BlockView)
    requires
        block.total_pow <= u128::MAX,
    ensures
        chain.work_fault(block) is None <==> {
            &&& chain.has_uncles_of(block)
            &&& block.height == 0 ==> block.total_pow == chain.work_added(block)
            &&& block.height > 0 ==> chain.parent_of(block) is Some && block.total_pow == (chain.parent_of(
                block,
            )->Some_0).total_pow + chain.work_added(block)
        },
{
    let n = block.uncles.len() as int;
    lemma_own_work(chain, block, n);
    assert(chain.uncle_targets(block).take(n) =~= chain.uncle_targets(block));
}

proof fn lemma_good_uncles(chain: ChainView, uncles: Seq<(u64, BlockHash)>, from: int)
    requires
        0 <= from <= uncles.len(),
    ensures
        chain.uncle_fault(uncles, from) is None <==> forall|i: int|
            from <= i < uncles.len() ==> chain.is_good_uncle((#[trigger] uncles[i]).0, uncles[i].1),
    decreases uncles.len() - from,
{
    if from < uncles.len() {
        lemma_good_uncles(chain, uncles, from + 1);
        let first = uncles[from];
        if chain.uncle_fault(uncles, from) is None {
            assert forall|i: int| from <= i < uncles.len() implies chain.is_good_uncle(
                (#[trigger] uncles[i]).0,
                uncles[i].1,
            ) by {
                if i > from {
                    assert(chain.uncle_fault(uncles, from + 1) is None);
                }
            }
        } else {
            if chain.is_good_uncle(first.0, first.1) {
                assert(chain.uncle_fault(uncles, from + 1) is Some);
            }
        }
    }
}

/// A verified block that lies on the tip becomes the new tip if every one of its uncles is good, and only then; if not, the
/// chain stays as it is. The first block of a chain without a tip becomes the tip.
pub proof fn law_block_on_the_tip_needs_good_uncles(chain: ChainView, block: BlockView)
    requires
        chain.tip() is Some && (chain.tip()->Some_0).chain_block == block.prev_hash,
    ensures
        ({
            let (after, result) = chain.chosen(block);
            let good = forall|i: int|
                0 <= i < block.uncles.len() ==> chain.is_good_uncle((#[trigger] block.uncles[i]).0, block.uncles[i].1);
            &&& result is Ok <==> good
            &&& result is Err ==> after == chain
            &&& result matches Ok((added, _)) ==> added.new_tip == Some((block.hash, block.height))
                && added.missing.len() == 0 && after.current_tip == block.height
        }),
{
    lemma_good_uncles(chain, block.uncles, 0);
}

impl ChainView {
    /// The first `n` blocks below are there and verified.
    pub open spec fn rests_on(self, block: BlockView, n: nat) -> bool {
        forall|k: nat|
            1 <= k <= n ==> (#[trigger] self.ancestor(block, k)) is Some && (self.ancestor(block, k)->Some_0).verified
    }

    /// Far enough below a block: its `n`th ancestor is the first block of the chain, or the window of shares ends there if
    /// `passed` blocks were passed already, or the block above it is in the main chain.
    pub open spec fn ends_at(self, block: BlockView, n: nat, passed: nat) -> bool {
        self.ancestor(block, n) is Some && ((self.ancestor(block, n)->Some_0).height == 0 || passed + n
            >= self.share_window || (n > 0 && self.is_main_block(self.ancestor(block, (n - 1) as nat)->Some_0)))
    }

    /// The block is the one of its height in the main chain.
    pub open spec fn is_main_block(self, block: BlockView) -> bool {
        self.level(block.height as int) matches Some(level) && level.chain_block == block.hash
    }
}

proof fn lemma_ancestor(chain: ChainView, block: BlockView, n: nat)
    requires
        chain.parent_of(block) is Some,
    ensures
        chain.ancestor(block, n + 1) == chain.ancestor(chain.parent_of(block)->Some_0, n),
{
    assert((n + 1) as nat - 1 == n);
}

/// How far [`ChainView::walked_down`] went.
proof fn lemma_walked(chain: ChainView, block: BlockView, counter: nat) -> (n: nat)
    requires
        chain.ordered(),
        chain.block_at(block.height as int, block.hash) == Some(block),
        counter >= 1,
        chain.walked_down(block, counter as int).0,
        chain.walked_down(block, counter as int).1.len() == 0,
    ensures
        chain.rests_on(block, n),
        chain.ends_at(block, n, counter),
    decreases block.height,
{
    assert(chain.ancestor(block, 0) == Some(block));
    if block.height == 0 {
        0
    } else {
        let parent = chain.parent_of(block)->Some_0;
        chain.lemma_block(block.height - 1, block.prev_hash);
        assert(parent.height == block.height - 1);
        lemma_ancestor(chain, block, 0);
        assert(chain.ancestor(parent, 0) == Some(parent));
        assert(chain.ancestor(block, 1) == Some(parent));
        chain.lemma_block(block.height as int, block.hash);
        if counter + 1 >= chain.share_window || chain.is_main_block(block) {
            1
        } else {
            let m = lemma_walked(chain, parent, counter + 1);
            assert forall|k: nat| 1 <= k <= m + 1 implies (#[trigger] chain.ancestor(block, k)) is Some && (
            chain.ancestor(block, k)->Some_0).verified by {
                lemma_ancestor(chain, block, (k - 1) as nat);
                if k >= 2 {
                    assert(chain.ancestor(parent, (k - 1) as nat) is Some);
                }
            }
            lemma_ancestor(chain, block, m);
            if m > 0 {
                lemma_ancestor(chain, block, (m - 1) as nat);
            }
            m + 1
        }
    }
}

/// The main chain moves to another branch only if the block at its end has more work below it than the tip, and if every
/// block below it is there and verified, down to the main chain, to the first block, or to the end of the share window.
pub proof fn law_branches_rest_on_verified_blocks(chain: ChainView, block: BlockView) -> (n: nat)
    requires
        chain.ordered(),
        chain.block_at(block.height as int, block.hash) == Some(block),
        chain.tip() is Some || block.height > 0,
        chain.tip() is Some ==> (chain.tip()->Some_0).chain_block != block.prev_hash,
        chain.chosen(block).1 matches Ok((added, _)) && added.new_tip is Some,
    ensures
        block.total_pow > chain.tip_pow(),
        chain.rests_on(block, n),
        chain.ends_at(block, n, 1),
{
    lemma_walked(chain, block, 1)
}

proof fn lemma_walks(chain: ChainView, block: BlockView, n: nat, counter: nat)
    requires
        chain.ordered(),
        chain.block_at(block.height as int, block.hash) == Some(block),
        chain.rests_on(block, n),
        chain.ends_at(block, n, counter),
        n > 0 || block.height == 0,
    ensures
        chain.walked_down(block, counter as int).0,
        chain.walked_down(block, counter as int).1.len() == 0,
    decreases n,
{
    if block.height > 0 {
        assert(chain.ancestor(block, 1) is Some);
        assert(chain.parent_of(block) is Some);
        let parent = chain.parent_of(block)->Some_0;
        chain.lemma_block(block.height - 1, block.prev_hash);
        chain.lemma_block(block.height as int, block.hash);
        assert(chain.ancestor(parent, 0) == Some(parent));
        assert(chain.ancestor(block, 1) == Some(parent));
        assert(chain.ancestor(block, 0) == Some(block));
        if counter + 1 < chain.share_window && !chain.is_main_block(block) {
            let m = (n - 1) as nat;
            assert forall|k: nat| 1 <= k <= m implies (#[trigger] chain.ancestor(parent, k)) is Some && (
            chain.ancestor(parent, k)->Some_0).verified by {
                lemma_ancestor(chain, block, k);
                assert(chain.ancestor(block, k + 1) is Some);
            }
            lemma_ancestor(chain, block, m);
            if m > 0 {
                lemma_ancestor(chain, block, (m - 1) as nat);
            }
            lemma_walks(chain, parent, m, counter + 1);
        }
    }
}

/// A branch with more work than the tip is not passed over if all blocks below its end are there and verified, down to the
/// main chain, to the first block, or to the end of the share window: unless a link below is broken, its end becomes the
/// tip. A branch that does not become the main chain leaves the chain as it is.
pub proof fn law_branches_with_more_work_win(chain: ChainView, block: BlockView, n: nat)
    requires
        chain.ordered(),
        chain.block_at(block.height as int, block.hash) == Some(block),
        chain.tip() is Some || block.height > 0,
        chain.tip() is Some ==> (chain.tip()->Some_0).chain_block != block.prev_hash,
    ensures
        chain.rests_on(block, n) && chain.ends_at(block, n, 1) && (n > 0 || block.height == 0) && block.total_pow
            > chain.tip_pow() ==> (chain.chosen(block).1 matches Ok((added, _)) ==> added.new_tip == Some(
            (block.hash, block.height),
        )),
        chain.chosen(block).1 matches Ok((added, _)) ==> added.new_tip is None ==> chain.chosen(block).0 == chain,
        block.total_pow <= chain.tip_pow() ==> chain.chosen(block).0 == chain,
{
    if chain.rests_on(block, n) && chain.ends_at(block, n, 1) && (n > 0 || block.height == 0) {
        lemma_walks(chain, block, n, 1);
    }
}

impl BlockView {
    /// The block names a hash, as that of the block below or of an uncle.
    pub open spec fn names_hash(self, hash: BlockHash) -> bool {
        self.prev_hash == hash || exists|i: int| 0 <= i < self.uncles.len() && (#[trigger] self.uncles[i]).1 == hash
    }
}

proof fn lemma_uncle_named(block: BlockView, hash: BlockHash, n: int)
    requires
        0 <= n <= block.uncles.len(),
    ensures
        ChainView::uncle_links(block, hash, n).contains((block.height, block.hash)) <==> exists|i: int|
            0 <= i < n && (#[trigger] block.uncles[i]).1 == hash,
        forall|j: int|
            0 <= j < ChainView::uncle_links(block, hash, n).len() ==> (#[trigger] ChainView::uncle_links(
                block,
                hash,
                n,
            )[j]) == (block.height, block.hash),
    decreases n,
{
    if n > 0 {
        lemma_uncle_named(block, hash, n - 1);
        let before = ChainView::uncle_links(block, hash, n - 1);
        let links = ChainView::uncle_links(block, hash, n);
        if block.uncles[n - 1].1 == hash {
            assert(links[links.len() - 1] == (block.height, block.hash));
        }
    }
}

proof fn lemma_block_named(blocks: Seq<BlockView>, hash: BlockHash, n: int, entry: (u64, BlockHash))
    requires
        0 <= n <= blocks.len(),
    ensures
        ChainView::block_links(blocks, hash, n).contains(entry) <==> exists|i: int|
            0 <= i < n && (#[trigger] blocks[i]).names_hash(hash) && entry == (blocks[i].height, blocks[i].hash),
    decreases n,
{
    if n > 0 {
        lemma_block_named(blocks, hash, n - 1, entry);
        let block = blocks[n - 1];
        let m = block.uncles.len() as int;
        lemma_uncle_named(block, hash, m);
        let before = ChainView::block_links(blocks, hash, n - 1);
        let uncles = ChainView::uncle_links(block, hash, m);
        let links = ChainView::block_links(blocks, hash, n);
        let named = before + uncles;
        if before.contains(entry) {
            let j = choose|j: int| 0 <= j < before.len() && before[j] == entry;
            assert(links[j] == entry);
            let i = choose|i: int|
                0 <= i < n - 1 && (#[trigger] blocks[i]).names_hash(hash) && entry == (blocks[i].height, blocks[i].hash);
            assert(blocks[i].names_hash(hash));
        }
        if block.names_hash(hash) {
            if block.prev_hash == hash {
                assert(links[links.len() - 1] == (block.height, block.hash));
            } else {
                let j = choose|j: int| 0 <= j < uncles.len() && uncles[j] == (block.height, block.hash);
                assert(links[before.len() + j] == (block.height, block.hash));
            }
        }
        if links.contains(entry) {
            let j = choose|j: int| 0 <= j < links.len() && links[j] == entry;
            if j < before.len() {
                assert(before[j] == entry);
            } else if j < named.len() {
                assert(uncles[j - before.len()] == entry);
                assert(uncles.contains((block.height, block.hash)));
                assert(block.names_hash(hash));
            } else {
                assert(block.names_hash(hash));
            }
        }
        assert forall|i: int|
            0 <= i < n && (#[trigger] blocks[i]).names_hash(hash) && entry == (
                blocks[i].height,
                blocks[i].hash,
            ) implies links.contains(entry) by {
            if i < n - 1 {
                assert(before.contains(entry));
            }
        }
    }
}

/// When something has become of a block, every block one or two levels above that names it, as the block below or as an
/// uncle, is looked at again, and no other.
pub proof fn law_blocks_above_are_looked_at(chain: ChainView, height: int, hash: BlockHash, entry: (u64, BlockHash))
    ensures
        chain.linked_to(height, hash).contains(entry) <==> exists|h: int, i: int|
            {
                &&& height < h <= height + 2
                &&& chain.level(h) is Some
                &&& 0 <= i < (chain.level(h)->Some_0).blocks.len()
                &&& (#[trigger] (chain.level(h)->Some_0).blocks[i]).names_hash(hash)
                &&& entry == ((chain.level(h)->Some_0).blocks[i].height, (chain.level(h)->Some_0).blocks[i].hash)
            },
{
    let (one, two) = (chain.links_at(height + 1, hash), chain.links_at(height + 2, hash));
    let all = chain.linked_to(height, hash);
    if let Some(level) = chain.level(height + 1) {
        lemma_block_named(level.blocks, hash, level.blocks.len() as int, entry);
    }
    if let Some(level) = chain.level(height + 2) {
        lemma_block_named(level.blocks, hash, level.blocks.len() as int, entry);
    }
    if one.contains(entry) {
        let j = choose|j: int| 0 <= j < one.len() && one[j] == entry;
        assert(all[j] == entry);
    }
    if two.contains(entry) {
        let j = choose|j: int| 0 <= j < two.len() && two[j] == entry;
        assert(all[one.len() + j] == entry);
    }
    if all.contains(entry) {
        let j = choose|j: int| 0 <= j < all.len() && all[j] == entry;
        if j < one.len() {
            assert(one[j] == entry);
        } else {
            assert(two[j - one.len()] == entry);
        }
    }
    assert forall|h: int, i: int|
        {
            &&& height < h <= height + 2
            &&& chain.level(h) is Some
            &&& 0 <= i < (chain.level(h)->Some_0).blocks.len()
            &&& (#[trigger] (chain.level(h)->Some_0).blocks[i]).names_hash(hash)
            &&& entry == ((chain.level(h)->Some_0).blocks[i].height, (chain.level(h)->Some_0).blocks[i].hash)
        } implies all.contains(entry) by {
        assert(h == height + 1 || h == height + 2);
    }
}

/// Nothing is lost from the blocks to look at: each one that was there stays, and each new one comes behind, unless it is
/// there or is the one that was just looked at. Nothing else comes in.
pub proof fn law_nothing_is_lost_from_the_queue(
    work: Seq<(u64, BlockHash)>,
    more: Seq<(u64, BlockHash)>,
    from: int,
    current: (u64, BlockHash),
    entry: (u64, BlockHash),
)
    requires
        0 <= from <= more.len(),
    ensures
        ({
            let queue = ChainView::queued(work, more, from, current);
            &&& work.is_prefix_of(queue)
            &&& queue.contains(entry) <==> work.contains(entry) || (entry != current && exists|i: int|
                from <= i < more.len() && #[trigger] more[i] == entry)
        }),
    decreases more.len() - from,
{
    let queue = ChainView::queued(work, more, from, current);
    if from < more.len() {
        let first = more[from];
        if work.contains(first) || first == current {
            law_nothing_is_lost_from_the_queue(work, more, from + 1, current, entry);
        } else {
            let longer = work.push(first);
            law_nothing_is_lost_from_the_queue(longer, more, from + 1, current, entry);
            assert(work =~= queue.subrange(0, work.len() as int)) by {
                assert(longer =~= queue.subrange(0, longer.len() as int));
                assert forall|i: int| 0 <= i < work.len() implies work[i] == queue[i] by {
                    assert(longer[i] == queue.subrange(0, longer.len() as int)[i]);
                }
            }
            assert(longer.contains(entry) <==> work.contains(entry) || entry == first) by {
                assert(longer[work.len() as int] == first);
                if work.contains(entry) {
                    let i = choose|i: int| 0 <= i < work.len() && work[i] == entry;
                    assert(longer[i] == entry);
                }
                if longer.contains(entry) && entry != first {
                    let i = choose|i: int| 0 <= i < longer.len() && longer[i] == entry;
                    assert(work[i] == entry);
                }
            }
        }
    } else {
        assert(work =~= queue.subrange(0, work.len() as int));
    }
}

impl ChainView {
    /// A block that is not verified lacks this one: its parent, which is not there, or an uncle that is not there.
    pub open spec fn lacks(self, block: BlockView, hash: BlockHash) -> bool {
        ||| self.parent_of(block) is None && block.prev_hash == hash
        ||| exists|i: int|
            0 <= i < block.uncles.len() && (#[trigger] block.uncles[i]).1 == hash && self.block_at(
                block.uncles[i].0 as int,
                block.uncles[i].1,
            ) is None
    }
}

proof fn lemma_absent_uncles(
    chain: ChainView,
    uncles: Seq<(u64, BlockHash)>,
    n: int,
    missing: Seq<(BlockHash, u64)>,
    hash: BlockHash,
)
    requires
        0 <= n <= uncles.len(),
    ensures
        AddView::lists(chain.absent_uncles(uncles, n, missing), hash) <==> AddView::lists(missing, hash) || exists|
            i: int,
        |
            0 <= i < n && (#[trigger] uncles[i]).1 == hash && chain.block_at(uncles[i].0 as int, uncles[i].1) is None,
    decreases n,
{
    if n > 0 {
        lemma_absent_uncles(chain, uncles, n - 1, missing, hash);
        let before = chain.absent_uncles(uncles, n - 1, missing);
        let (height, name) = uncles[n - 1];
        crate::sharechain::sync_laws::law_noted_blocks_are_listed(before, name, height, hash);
        if exists|i: int|
            0 <= i < n && (#[trigger] uncles[i]).1 == hash && chain.block_at(uncles[i].0 as int, uncles[i].1) is None {
            let i = choose|i: int|
                0 <= i < n && (#[trigger] uncles[i]).1 == hash && chain.block_at(
                    uncles[i].0 as int,
                    uncles[i].1,
                ) is None;
            assert(i == n - 1 || 0 <= i < n - 1);
        }
    }
}

/// A branch that is not followed because a block below its end is not verified names what that block lacks, and nothing
/// else: it is the first one below that is not verified.
pub proof fn law_unverified_branches_name_what_they_lack(
    chain: ChainView,
    block: BlockView,
    counter: nat,
    hash: BlockHash,
) -> (n: nat)
    requires
        !chain.walked_down(block, counter as int).0,
    ensures
        n > 0,
        chain.rests_on(block, (n - 1) as nat),
        chain.ancestor(block, n) is Some,
        !(chain.ancestor(block, n)->Some_0).verified,
        AddView::lists(chain.walked_down(block, counter as int).1, hash) <==> chain.lacks(
            chain.ancestor(block, n)->Some_0,
            hash,
        ),
    decreases block.height,
{
    let parent = chain.parent_of(block)->Some_0;
    assert(chain.ancestor(parent, 0) == Some(parent));
    lemma_ancestor(chain, block, 0);
    assert(chain.ancestor(block, 1) == Some(parent));
    if !parent.verified {
        let grandparent = if chain.parent_of(parent) is None {
            seq![(parent.prev_hash, ChainView::below(parent.height))]
        } else {
            Seq::empty()
        };
        lemma_absent_uncles(chain, parent.uncles, parent.uncles.len() as int, grandparent, hash);
        assert(AddView::lists(grandparent, hash) <==> chain.parent_of(parent) is None && parent.prev_hash == hash) by {
            if chain.parent_of(parent) is None {
                assert(grandparent[0].0 == parent.prev_hash);
            }
        }
        1
    } else {
        let m = law_unverified_branches_name_what_they_lack(chain, parent, counter + 1, hash);
        lemma_ancestor(chain, block, m);
        assert forall|k: nat| 1 <= k <= m implies (#[trigger] chain.ancestor(block, k)) is Some && (chain.ancestor(
            block,
            k,
        )->Some_0).verified by {
            lemma_ancestor(chain, block, (k - 1) as nat);
            if k >= 2 {
                assert(chain.ancestor(parent, (k - 1) as nat) is Some);
            }
        }
        m + 1
    }
}

}
