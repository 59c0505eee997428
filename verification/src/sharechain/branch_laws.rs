//! Laws on what the main chain is once it has moved to another branch.
use crate::sharechain::block_map::BlockMap;
use crate::sharechain::chain_model::ChainView;
use crate::sharechain::difficulty_window::DifficultyWindow;
use crate::sharechain::p2block::BlockView;
use crate::sharechain::p2chain_level::LevelView;
use crate::types::{BlockHash, FixedHash};
use vstd::prelude::*;

verus! {

impl ChainView {
    /// The same blocks lie on the same levels.
    pub open spec fn has_blocks_of(self, other: ChainView) -> bool {
        forall|h: int, hash: BlockHash| #[trigger] self.block_at(h, hash) == other.block_at(h, hash)
    }

    /// The first `n` blocks below a block are there, and in the main chain of `after`, as the block itself is.
    pub open spec fn is_branch_in(self, block: BlockView, n: nat, after: ChainView) -> bool {
        forall|k: nat|
            k <= n ==> (#[trigger] self.ancestor(block, k)) is Some && after.is_main_block(
                self.ancestor(block, k)->Some_0,
            )
    }

    /// Linking the main chain can end at the `n`th block below a block: it is the first one, or the level below has gone,
    /// or the window of shares ends there if `passed` blocks were passed already, or all is in order from there on.
    pub open spec fn links_end(self, block: BlockView, n: nat, passed: int, after: ChainView) -> bool {
        let end = self.ancestor(block, n)->Some_0;
        ||| end.height == 0
        ||| after.level(end.height - 1) is None
        ||| passed + n >= self.share_window
        ||| after.window.len() == 91 && (after.level(end.height - 1)->Some_0).chain_block == end.prev_hash
    }

    /// How many blocks below a block there is room for in a window of 91 samples, of `n` in all.
    pub open spec fn room_for(self, n: nat) -> int {
        if n + self.window.len() <= 91 {
            n as int
        } else if self.window.len() <= 91 {
            91 - self.window.len()
        } else {
            0
        }
    }

    /// The samples of `after` are those of this chain, with the blocks below a block in front of them, the lowest first.
    pub open spec fn window_grows(self, block: BlockView, n: nat, after: ChainView) -> bool {
        let more = self.room_for(n);
        &&& after.window.len() == more + self.window.len()
        &&& forall|i: int| 0 <= i < self.window.len() ==> after.window[more + i] == #[trigger] self.window[i]
        &&& forall|k: nat|
            1 <= k <= more ==> after.window[more - k] == ChainView::sample(
                (#[trigger] self.ancestor(block, k))->Some_0,
            )
    }

    /// Time and target of a block.
    pub open spec fn sample(block: BlockView) -> (u64, u64) {
        (block.timestamp, block.target_difficulty)
    }
}

proof fn lemma_same_ancestors(a: ChainView, b: ChainView, block: BlockView, n: nat)
    requires
        a.has_blocks_of(b),
    ensures
        a.ancestor(block, n) == b.ancestor(block, n),
    decreases n,
{
    if n > 0 {
        assert(a.block_at(block.height - 1, block.prev_hash) == b.block_at(block.height - 1, block.prev_hash));
        if let Some(parent) = a.parent_of(block) {
            lemma_same_ancestors(a, b, parent, (n - 1) as nat);
        }
    }
}

/// How far the main chain was linked.
proof fn lemma_linked(chain: ChainView, block: BlockView, counter: int) -> (n: nat)
    requires
        chain.ordered(),
        chain.window.len() <= 91,
        chain.block_at(block.height as int, block.hash) == Some(block),
        chain.is_main_block(block),
        chain.relinked(block, counter).1 is None,
    ensures
        chain.is_branch_in(block, n, chain.relinked(block, counter).0),
        chain.links_end(block, n, counter, chain.relinked(block, counter).0),
        chain.window_grows(block, n, chain.relinked(block, counter).0),
    decreases block.height,
{
    let after = chain.relinked(block, counter).0;
    chain.lemma_block(block.height as int, block.hash);
    chain.lemma_level(block.height as int);
    assert(chain.ancestor(block, 0) == Some(block));
    if block.height == 0 || chain.level(block.height - 1) is None {
        0
    } else {
        let level = chain.level(block.height - 1)->Some_0;
        if block.prev_hash == level.chain_block && DifficultyWindow::full(chain.window) {
            0
        } else {
            chain.lemma_level(block.height - 1);
            let parent = BlockMap::find(level.blocks, block.prev_hash)->Some_0;
            level.lemma_found(block.prev_hash);
            let changed = LevelView { chain_block: block.prev_hash, ..level };
            chain.lemma_with_level(block.height - 1, changed);
            let relevelled = chain.with_chain_block(block.height - 1, block.prev_hash);
            let linked = ChainView {
                window: DifficultyWindow::older(chain.window, parent.timestamp, parent.target_difficulty),
                ..relevelled
            };
            assert forall|h: int| #[trigger] linked.level(h) == relevelled.level(h) by {}
            assert(linked.has_blocks_of(chain)) by {
                assert forall|h: int, hash: BlockHash| #[trigger]
                    linked.block_at(h, hash) == chain.block_at(h, hash) by {
                    assert(linked.level(h) == relevelled.level(h));
                    if h != block.height - 1 {
                        assert(relevelled.level(h) == chain.level(h));
                    }
                }
            }
            assert(linked.level(block.height as int) == relevelled.level(block.height as int));
            assert(relevelled.level(block.height as int) == chain.level(block.height as int));
            assert(linked.level(block.height - 1) == Some(changed));
            assert(chain.parent_of(block) == Some(parent));
            assert(linked.is_main_block(parent) && linked.is_main_block(block));
            assert(chain.ancestor(parent, 0) == Some(parent));
            assert(chain.ancestor(block, 1) == Some(parent));
            if parent.height == 0 || counter + 1 >= chain.share_window {
                assert(after == linked);
                assert forall|k: nat| k <= 1 implies (#[trigger] chain.ancestor(block, k)) is Some && after.is_main_block(
                    chain.ancestor(block, k)->Some_0,
                ) by {
                    assert(k == 0 || k == 1);
                }
                assert(chain.window_grows(block, 1, after)) by {
                    assert forall|i: int| 0 <= i < chain.window.len() implies after.window[chain.room_for(1) + i]
                        == #[trigger] chain.window[i] by {}
                }
                1
            } else {
                assert(linked.ordered());
                assert(linked.block_at(parent.height as int, parent.hash) == Some(parent));
                let m = lemma_linked(linked, parent, counter + 1);
                let n: nat = m + 1;
                linked.lemma_relinked(parent, counter + 1);
                assert forall|k: nat| 1 <= k implies #[trigger] chain.ancestor(block, k) == linked.ancestor(
                    parent,
                    (k - 1) as nat,
                ) by {
                    lemma_same_ancestors(linked, chain, parent, (k - 1) as nat);
                }
                assert(after.level(block.height as int) == linked.level(block.height as int));
                assert forall|k: nat| k <= n implies (#[trigger] chain.ancestor(block, k)) is Some && after.is_main_block(
                    chain.ancestor(block, k)->Some_0,
                ) by {
                    if k > 0 {
                        assert(linked.ancestor(parent, (k - 1) as nat) is Some);
                    }
                }
                assert(chain.ancestor(block, n) == linked.ancestor(parent, m));
                let more = chain.room_for(n);
                assert forall|i: int| 0 <= i < chain.window.len() implies after.window[more + i]
                    == #[trigger] chain.window[i] by {
                    if DifficultyWindow::full(chain.window) {
                        assert(after.window[linked.room_for(m) + i] == linked.window[i]);
                    } else {
                        assert(linked.window[i + 1] == chain.window[i]);
                        assert(after.window[linked.room_for(m) + (i + 1)] == linked.window[i + 1]);
                    }
                }
                assert forall|k: nat| 1 <= k <= more implies after.window[more - k] == ChainView::sample(
                    (#[trigger] chain.ancestor(block, k))->Some_0,
                ) by {
                    assert(linked.room_for(m) == more - 1);
                    if k == 1 {
                        assert(linked.window[0] == ChainView::sample(parent));
                        assert(after.window[linked.room_for(m) + 0] == linked.window[0]);
                    } else {
                        assert(linked.ancestor(parent, (k - 1) as nat) is Some);
                    }
                }
                n
            }
        }
    }
}

/// Once the main chain has moved to a branch, the branch is the main chain: its end is the tip, nothing above it counts any
/// more, and every block below it is the one of its height, down to where the levels or the share window end, or where the
/// main chain was in order already. The next target is averaged over that branch: the samples are those of the tip and of
/// the blocks right below it, 91 at most.
pub proof fn law_branch_becomes_the_main_chain(chain: ChainView, block: BlockView) -> (n: nat)
    requires
        chain.ordered(),
        chain.block_at(block.height as int, block.hash) == Some(block),
        chain.tip() is Some || block.height > 0,
        chain.tip() is Some ==> (chain.tip()->Some_0).chain_block != block.prev_hash,
        chain.chosen(block).1 matches Ok((added, _)) && added.new_tip is Some,
    ensures
        ({
            let after = chain.chosen(block).0;
            &&& after.current_tip == block.height
            &&& after.cached_shares is None
            &&& after.has_blocks_of(chain)
            &&& chain.is_branch_in(block, n, after)
            &&& chain.links_end(block, n, 0, after)
            &&& forall|h: int|
                h > block.height && (#[trigger] after.level(h)) is Some ==> (after.level(h)->Some_0).chain_block
                    == FixedHash::spec_zero()
            &&& after.window.len() == (if n < 91 {
                n + 1
            } else {
                91
            })
            &&& forall|k: nat|
                k < after.window.len() ==> after.window[after.window.len() - 1 - k] == ChainView::sample(
                    (#[trigger] chain.ancestor(block, k))->Some_0,
                )
        }),
{
    let switched = chain.switched(block);
    let after = switched.relinked(block, 0).0;
    chain.lemma_block(block.height as int, block.hash);
    chain.lemma_level(block.height as int);
    chain.lemma_switched(block);
    assert(after == chain.chosen(block).0);
    assert(switched.has_blocks_of(chain)) by {
        assert forall|h: int, hash: BlockHash| #[trigger] switched.block_at(h, hash) == chain.block_at(h, hash) by {
            assert(switched.level(h) is Some <==> chain.level(h) is Some);
        }
    }
    assert(switched.is_main_block(block));
    assert(switched.block_at(block.height as int, block.hash) == Some(block));
    let n = lemma_linked(switched, block, 0);
    switched.lemma_relinked(block, 0);
    switched.lemma_relinked_blocks(block, 0);
    assert forall|k: nat| #[trigger] chain.ancestor(block, k) == switched.ancestor(block, k) by {
        lemma_same_ancestors(switched, chain, block, k);
    }
    assert forall|k: nat| k <= n implies (#[trigger] chain.ancestor(block, k)) is Some && after.is_main_block(
        chain.ancestor(block, k)->Some_0,
    ) by {
        assert(switched.ancestor(block, k) is Some);
    }
    assert(chain.ancestor(block, n) == switched.ancestor(block, n));
    assert forall|h: int| h > block.height && (#[trigger] after.level(h)) is Some implies (after.level(
        h,
    )->Some_0).chain_block == FixedHash::spec_zero() by {
        assert(after.level(h) == switched.level(h));
    }
    let more = switched.room_for(n);
    assert(switched.window[0] == ChainView::sample(block));
    assert(after.window[more + 0] == switched.window[0]);
    assert forall|k: nat| k < after.window.len() implies after.window[after.window.len() - 1 - k] == ChainView::sample(
        (#[trigger] chain.ancestor(block, k))->Some_0,
    ) by {
        if k == 0 {
            assert(chain.ancestor(block, 0) == Some(block));
        } else {
            assert(switched.ancestor(block, k) == chain.ancestor(block, k));
            assert(after.window[more - k] == ChainView::sample(switched.ancestor(block, k)->Some_0));
        }
    }
    assert(after.has_blocks_of(chain)) by {
        assert forall|h: int, hash: BlockHash| #[trigger] after.block_at(h, hash) == chain.block_at(h, hash) by {
            assert(switched.block_at(h, hash) == chain.block_at(h, hash));
        }
    }
    n
}

/// When the tip moves up, the levels from its own down to as many as the chain's size and 20 more below it stay, with all
/// their blocks, and the ones further below go. The block is the one of its height in the main chain, the next target takes
/// it into account, and no shares are kept.
pub proof fn law_recent_levels_are_kept(chain: ChainView, block: BlockView, h: int)
    requires
        chain.ordered(),
        chain.window.len() <= 91,
        chain.level(block.height as int) is Some,
    ensures
        ({
            let after = chain.advanced(block);
            &&& h != block.height && h >= block.height - chain.total_size - 20 ==> after.level(h) == chain.level(h)
            &&& h < block.height - chain.total_size - 20 ==> after.level(h) is None
            &&& after.level(block.height as int) == Some(
                LevelView { chain_block: block.hash, ..chain.level(block.height as int)->Some_0 },
            )
            &&& after.current_tip == block.height
            &&& after.cached_shares is None
            &&& after.window.last() == ChainView::sample(block)
            &&& forall|k: int|
                1 <= k < after.window.len() ==> #[trigger] after.window[after.window.len() - 1 - k]
                    == chain.window[chain.window.len() - k]
        }),
{
    let height = block.height as int;
    chain.lemma_level(height);
    let level = LevelView { chain_block: block.hash, ..chain.level(height)->Some_0 };
    chain.lemma_with_level(height, level);
    let linked = chain.with_chain_block(height, block.hash);
    let before = ChainView {
        window: DifficultyWindow::newer(chain.window, block.timestamp, block.target_difficulty),
        cached_shares: None,
        current_tip: block.height,
        ..linked
    };
    let after = chain.advanced(block);
    assert(after == before.trimmed());
    crate::sharechain::difficulty_window::law_window_slides(chain.window, block.timestamp, block.target_difficulty);
    assert forall|k: int| #[trigger] before.level(k) == linked.level(k) by {}
    assert(linked.level(height) == Some(level));
    assert(h != height ==> linked.level(h) == chain.level(h));
    before.lemma_level(height);
    let excess = block.height - before.base() - (chain.total_size + 20);
    if excess > 0 {
        assert(after.levels[0] == before.levels[excess]);
        assert(before.levels[excess].height == before.levels[0].height + excess);
        assert forall|k: int| k >= block.height - chain.total_size - 20 implies #[trigger] after.level(k)
            == before.level(k) by {
            if before.level(k) is Some {
                assert(after.levels[k - after.base()] == before.levels[k - before.base()]);
            }
        }
        assert(after.level(height) == before.level(height));
        assert(h >= block.height - chain.total_size - 20 ==> after.level(h) == before.level(h));
    } else {
        assert(after == before);
    }
    assert(before.level(h) == linked.level(h));
    assert(before.level(height) == linked.level(height));
}

}
