//! Laws on the uncles that a chain offers to the next block.
use crate::sharechain::block_map::BlockMap;
use crate::sharechain::chain_model::{ChainView, MAX_UNCLE_AGE};
use crate::sharechain::error::ShareChainError;
use crate::sharechain::p2block::BlockView;
use crate::sharechain::share_rules::{UNCLE_LIMIT, UNCLE_START_HEIGHT};
use crate::types::BlockHash;
use vstd::prelude::*;

verus! {

impl ChainView {
    /// The block of the main chain at a height has the hash, or names it as an uncle.
    pub open spec fn uses(self, height: int, hash: BlockHash) -> bool {
        self.level(height) matches Some(level) && (level.main_block() matches Some(block) && (block.hash == hash
            || exists|i: int| 0 <= i < block.uncles.len() && (#[trigger] block.uncles[i]).1 == hash))
    }

    /// An uncle that a block at `new_height` can name: a block on one of the [`MAX_UNCLE_AGE`] levels below whose parent is
    /// in the main chain, and which no block of the main chain on these levels is, or names as an uncle.
    pub open spec fn is_free(self, new_height: u64, entry: (u64, BlockHash)) -> bool {
        &&& new_height - MAX_UNCLE_AGE <= entry.0 < new_height
        &&& self.block_at(entry.0 as int, entry.1) matches Some(block) && (self.parent_of(block) matches Some(parent)
            && (self.level(parent.height as int)->Some_0).chain_block == parent.hash)
        &&& forall|h: int| new_height - MAX_UNCLE_AGE <= h < new_height ==> !#[trigger] self.uses(h, entry.1)
    }

    /// No other of the levels below `new_height` has a block of the hash.
    pub open spec fn is_alone(self, new_height: u64, entry: (u64, BlockHash)) -> bool {
        forall|h: int|
            new_height - MAX_UNCLE_AGE <= h < new_height && h != entry.0 ==> (#[trigger] self.block_at(
                h,
                entry.1,
            )) is None
    }

    /// Whether a list of uncles is right for a block at `new_height`: each is free, none occurs twice, and none that is
    /// free is left out unless there are [`UNCLE_LIMIT`], none of them above it. There are none below
    /// [`UNCLE_START_HEIGHT`].
    pub open spec fn offers(self, new_height: u64, uncles: Seq<(u64, BlockHash)>) -> bool {
        &&& uncles.len() <= UNCLE_LIMIT
        &&& new_height < UNCLE_START_HEIGHT ==> uncles.len() == 0
        &&& forall|i: int| 0 <= i < uncles.len() ==> self.is_free(new_height, #[trigger] uncles[i])
        &&& forall|i: int, j: int|
            0 <= i < uncles.len() && 0 <= j < uncles.len() && #[trigger] uncles[i] == #[trigger] uncles[j] ==> i == j
        &&& new_height >= UNCLE_START_HEIGHT ==> forall|entry: (u64, BlockHash)| #[trigger]
            self.is_free(new_height, entry) && self.is_alone(new_height, entry) ==> uncles.contains(entry) || {
                &&& uncles.len() == UNCLE_LIMIT
                &&& forall|i: int| 0 <= i < uncles.len() ==> (#[trigger] uncles[i]).0 <= entry.0
            }
    }

    /// The candidates are all blocks of the levels, lowest first and none twice.
    proof fn lemma_candidates_complete(self, height: int, new_height: int)
        requires
            self.ordered(),
            height >= 0,
        ensures
            self.uncle_candidates(height, new_height) matches Ok((candidates, used)) ==> {
                &&& forall|i: int|
                    0 <= i < candidates.len() ==> height <= (#[trigger] candidates[i]).0 < new_height
                        && self.block_at(candidates[i].0 as int, candidates[i].1) is Some
                &&& forall|i: int, j: int|
                    0 <= i <= j < candidates.len() ==> (#[trigger] candidates[i]).0 <= (#[trigger] candidates[j]).0
                &&& forall|i: int, j: int|
                    0 <= i < j < candidates.len() ==> #[trigger] candidates[i] != #[trigger] candidates[j]
                &&& forall|entry: (u64, BlockHash)|
                    height <= entry.0 < new_height && (#[trigger] self.block_at(entry.0 as int, entry.1)) is Some
                        ==> candidates.contains(entry)
                &&& forall|hash: BlockHash| #[trigger]
                    used.contains(hash) ==> exists|h: int| height <= h < new_height && #[trigger] self.uses(h, hash)
                &&& forall|h: int, hash: BlockHash|
                    height <= h < new_height && #[trigger] self.uses(h, hash) ==> used.contains(hash)
                &&& forall|h: int|
                    height <= h < new_height && (#[trigger] self.level(h)) is Some ==> (self.level(
                        h,
                    )->Some_0).main_block() is Some
            },
            self.uncle_candidates(height, new_height) is Err ==> exists|h: int|
                height <= h < new_height && (#[trigger] self.level(h)) is Some && (self.level(
                    h,
                )->Some_0).main_block() is None,
        decreases new_height - height,
    {
        if height < new_height {
            self.lemma_candidates_complete(height + 1, new_height);
            match self.level(height) {
                None => {
                    if let Ok((c, u)) = self.uncle_candidates(height + 1, new_height) {
                        assert forall|hash: BlockHash| #[trigger] u.contains(hash) implies exists|h: int|
                            height <= h < new_height && #[trigger] self.uses(h, hash) by {
                            let h = choose|h: int| height + 1 <= h < new_height && #[trigger] self.uses(h, hash);
                            assert(self.uses(h, hash));
                        }
                        assert forall|h: int, hash: BlockHash|
                            height <= h < new_height && #[trigger] self.uses(h, hash) implies u.contains(hash) by {
                            assert(h != height);
                        }
                    } else {
                        let h = choose|h: int|
                            height + 1 <= h < new_height && (#[trigger] self.level(h)) is Some && (self.level(
                                h,
                            )->Some_0).main_block() is None;
                        assert(self.level(h) is Some);
                    }
                },
                Some(level) => {
                    self.lemma_level(height);
                    match level.main_block() {
                        None => {},
                        Some(block) => {
                            if let Ok((c, u)) = self.uncle_candidates(height + 1, new_height) {
                                self.lemma_candidates_level(height, new_height, block, c, u);
                            } else {
                                let h = choose|h: int|
                                    height + 1 <= h < new_height && (#[trigger] self.level(h)) is Some && (self.level(
                                        h,
                                    )->Some_0).main_block() is None;
                                assert(self.level(h) is Some);
                            }
                        },
                    }
                },
            }
        }
    }

    proof fn lemma_candidates_level(
        self,
        height: int,
        new_height: int,
        block: BlockView,
        c: Seq<(u64, BlockHash)>,
        u: Seq<BlockHash>,
    )
        requires
            self.ordered(),
            0 <= height < new_height,
            self.level(height) is Some,
            (self.level(height)->Some_0).main_block() == Some(block),
            self.uncle_candidates(height + 1, new_height) == Ok::<_, ShareChainError>((c, u)),
            forall|i: int|
                0 <= i < c.len() ==> height + 1 <= (#[trigger] c[i]).0 < new_height && self.block_at(
                    c[i].0 as int,
                    c[i].1,
                ) is Some,
            forall|i: int, j: int| 0 <= i <= j < c.len() ==> (#[trigger] c[i]).0 <= (#[trigger] c[j]).0,
            forall|i: int, j: int| 0 <= i < j < c.len() ==> #[trigger] c[i] != #[trigger] c[j],
            forall|entry: (u64, BlockHash)|
                height + 1 <= entry.0 < new_height && (#[trigger] self.block_at(entry.0 as int, entry.1)) is Some
                    ==> c.contains(entry),
            forall|hash: BlockHash| #[trigger]
                u.contains(hash) ==> exists|h: int| height + 1 <= h < new_height && #[trigger] self.uses(h, hash),
            forall|h: int, hash: BlockHash|
                height + 1 <= h < new_height && #[trigger] self.uses(h, hash) ==> u.contains(hash),
        ensures
            self.uncle_candidates(height, new_height) matches Ok((candidates, used)) && {
                &&& forall|i: int|
                    0 <= i < candidates.len() ==> height <= (#[trigger] candidates[i]).0 < new_height
                        && self.block_at(candidates[i].0 as int, candidates[i].1) is Some
                &&& forall|i: int, j: int|
                    0 <= i <= j < candidates.len() ==> (#[trigger] candidates[i]).0 <= (#[trigger] candidates[j]).0
                &&& forall|i: int, j: int|
                    0 <= i < j < candidates.len() ==> #[trigger] candidates[i] != #[trigger] candidates[j]
                &&& forall|entry: (u64, BlockHash)|
                    height <= entry.0 < new_height && (#[trigger] self.block_at(entry.0 as int, entry.1)) is Some
                        ==> candidates.contains(entry)
                &&& forall|hash: BlockHash| #[trigger]
                    used.contains(hash) ==> exists|h: int| height <= h < new_height && #[trigger] self.uses(h, hash)
                &&& forall|h: int, hash: BlockHash|
                    height <= h < new_height && #[trigger] self.uses(h, hash) ==> used.contains(hash)
            },
    {
        self.lemma_level(height);
        let level = self.level(height)->Some_0;
        let entries = ChainView::entries_of(level);
        let family = ChainView::family_of(block);
        let (candidates, used) = self.uncle_candidates(height, new_height)->Ok_0;
        assert(candidates == entries + c);
        assert(used == family + u);
        assert forall|i: int| 0 <= i < entries.len() implies (#[trigger] entries[i]).0 == height && self.block_at(
            height,
            entries[i].1,
        ) is Some && entries[i].1 == level.blocks[i].hash by {
            assert(level.blocks[i].height == level.height);
            BlockMap::lemma_find_at(level.blocks, i);
        }
        assert forall|i: int| 0 <= i < candidates.len() implies height <= (#[trigger] candidates[i]).0 < new_height
            && self.block_at(candidates[i].0 as int, candidates[i].1) is Some by {
            if i < entries.len() {
                assert(candidates[i] == entries[i]);
            } else {
                assert(candidates[i] == c[i - entries.len()]);
            }
        }
        assert forall|i: int, j: int| 0 <= i <= j < candidates.len() implies (#[trigger] candidates[i]).0 <= (
        #[trigger] candidates[j]).0 by {
            if i < entries.len() {
                assert(candidates[i] == entries[i]);
            } else {
                assert(candidates[i] == c[i - entries.len()]);
            }
            if j < entries.len() {
                assert(candidates[j] == entries[j]);
            } else {
                assert(candidates[j] == c[j - entries.len()]);
            }
        }
        assert forall|i: int, j: int| 0 <= i < j < candidates.len() implies #[trigger] candidates[i]
            != #[trigger] candidates[j] by {
            if i < entries.len() {
                assert(candidates[i] == entries[i]);
            } else {
                assert(candidates[i] == c[i - entries.len()]);
            }
            if j < entries.len() {
                assert(candidates[j] == entries[j]);
                assert(level.blocks[i].hash != level.blocks[j].hash);
            } else {
                assert(candidates[j] == c[j - entries.len()]);
            }
        }
        assert forall|entry: (u64, BlockHash)|
            height <= entry.0 < new_height && (#[trigger] self.block_at(
                entry.0 as int,
                entry.1,
            )) is Some implies candidates.contains(entry) by {
            if entry.0 == height {
                BlockMap::lemma_found(level.blocks, entry.1);
                let i = BlockMap::index_in(level.blocks, entry.1);
                assert(entries[i].1 == level.blocks[i].hash);
                assert(candidates[i] == entry);
            } else {
                assert(c.contains(entry));
                let k = choose|k: int| 0 <= k < c.len() && c[k] == entry;
                assert(candidates[entries.len() + k] == entry);
            }
        }
        assert forall|hash: BlockHash| #[trigger] used.contains(hash) implies exists|h: int|
            height <= h < new_height && #[trigger] self.uses(h, hash) by {
            let k = choose|k: int| 0 <= k < used.len() && used[k] == hash;
            if k < family.len() {
                assert(used[k] == family[k]);
                if k > 0 {
                    assert(family[k] == block.uncles[k - 1].1);
                }
                assert(self.uses(height, hash));
            } else {
                assert(used[k] == u[k - family.len()]);
                assert(u.contains(hash));
                let h = choose|h: int| height + 1 <= h < new_height && #[trigger] self.uses(h, hash);
                assert(self.uses(h, hash));
            }
        }
        assert forall|h: int, hash: BlockHash|
            height <= h < new_height && #[trigger] self.uses(h, hash) implies used.contains(hash) by {
            if h == height {
                if block.hash == hash {
                    assert(used[0] == hash);
                } else {
                    let i = choose|i: int| 0 <= i < block.uncles.len() && (#[trigger] block.uncles[i]).1 == hash;
                    assert(family[i + 1] == hash);
                    assert(used[i + 1] == hash);
                }
            } else {
                assert(u.contains(hash));
                let k = choose|k: int| 0 <= k < u.len() && u[k] == hash;
                assert(used[family.len() + k] == hash);
            }
        }
    }

    proof fn lemma_unlinked_from(self, entries: Seq<(u64, BlockHash)>, n: int, hash: BlockHash)
        requires
            0 <= n <= entries.len(),
            self.unlinked(entries, n).contains(hash),
        ensures
            exists|k: int| 0 <= k < n && (#[trigger] entries[k]).1 == hash && !self.lies_on_main_chain(entries[k]),
        decreases n,
    {
        let after = self.unlinked(entries, n);
        if n > 0 {
            let k = choose|k: int| 0 <= k < after.len() && after[k] == hash;
            let before = self.unlinked(entries, n - 1);
            if k < before.len() {
                assert(before[k] == hash);
                self.lemma_unlinked_from(entries, n - 1, hash);
            } else {
                assert(entries[n - 1].1 == hash);
            }
        }
    }

    proof fn lemma_remaining_complete(entries: Seq<(u64, BlockHash)>, excluded: Seq<BlockHash>, n: int)
        requires
            0 <= n <= entries.len(),
            forall|i: int, j: int| 0 <= i <= j < entries.len() ==> (#[trigger] entries[i]).0 <= (#[trigger] entries[j]).0,
            forall|i: int, j: int| 0 <= i < j < entries.len() ==> #[trigger] entries[i] != #[trigger] entries[j],
        ensures
            ({
                let left = ChainView::remaining(entries, excluded, n);
                &&& forall|i: int|
                    0 <= i < left.len() ==> !excluded.contains((#[trigger] left[i]).1) && exists|k: int|
                        0 <= k < n && #[trigger] entries[k] == left[i]
                &&& forall|k: int|
                    0 <= k < n && !excluded.contains((#[trigger] entries[k]).1) ==> left.contains(entries[k])
                &&& forall|i: int, j: int| 0 <= i <= j < left.len() ==> (#[trigger] left[i]).0 <= (#[trigger] left[j]).0
                &&& forall|i: int, j: int| 0 <= i < j < left.len() ==> #[trigger] left[i] != #[trigger] left[j]
            }),
        decreases n,
    {
        if n > 0 {
            ChainView::lemma_remaining_complete(entries, excluded, n - 1);
            let before = ChainView::remaining(entries, excluded, n - 1);
            let left = ChainView::remaining(entries, excluded, n);
            assert forall|i: int| 0 <= i < left.len() implies !excluded.contains((#[trigger] left[i]).1) && exists|
                k: int,
            |
                0 <= k < n && #[trigger] entries[k] == left[i] by {
                if i < before.len() {
                    assert(left[i] == before[i]);
                    let k = choose|k: int| 0 <= k < n - 1 && #[trigger] entries[k] == before[i];
                    assert(entries[k] == left[i]);
                } else {
                    assert(entries[n - 1] == left[i]);
                }
            }
            assert forall|k: int| 0 <= k < n && !excluded.contains((#[trigger] entries[k]).1) implies left.contains(
                entries[k],
            ) by {
                if k < n - 1 {
                    assert(before.contains(entries[k]));
                    let i = choose|i: int| 0 <= i < before.len() && before[i] == entries[k];
                    assert(left[i] == entries[k]);
                } else {
                    assert(left[left.len() - 1] == entries[k]);
                }
            }
            assert forall|i: int, j: int| 0 <= i <= j < left.len() implies (#[trigger] left[i]).0 <= (
            #[trigger] left[j]).0 by {
                if i < before.len() {
                    assert(left[i] == before[i]);
                    let k = choose|k: int| 0 <= k < n - 1 && #[trigger] entries[k] == before[i];
                    if j < before.len() {
                        assert(left[j] == before[j]);
                    } else {
                        assert(left[j] == entries[n - 1]);
                        assert(entries[k].0 <= entries[n - 1].0);
                    }
                }
            }
            assert forall|i: int, j: int| 0 <= i < j < left.len() implies #[trigger] left[i] != #[trigger] left[j] by {
                assert(left[i] == before[i]);
                let k = choose|k: int| 0 <= k < n - 1 && #[trigger] entries[k] == before[i];
                if j < before.len() {
                    assert(left[j] == before[j]);
                } else {
                    assert(left[j] == entries[n - 1]);
                    assert(entries[k] != entries[n - 1]);
                }
            }
        }
    }
}

/// Each uncle that is offered is free: it is on one of the levels right below, its parent is in the main chain, and no
/// block of the main chain on these levels is it or names it. None is offered twice, and none below the height at which
/// uncles are allowed.
pub proof fn law_offered_uncles_are_free(chain: ChainView, new_height: u64, uncles: Seq<(u64, BlockHash)>)
    requires
        chain.ordered(),
        chain.offered_uncles(new_height) == Ok::<_, ShareChainError>(uncles),
    ensures
        uncles.len() <= UNCLE_LIMIT,
        new_height < UNCLE_START_HEIGHT ==> uncles.len() == 0,
        forall|i: int| 0 <= i < uncles.len() ==> chain.is_free(new_height, #[trigger] uncles[i]),
        forall|i: int, j: int|
            0 <= i < uncles.len() && 0 <= j < uncles.len() && #[trigger] uncles[i] == #[trigger] uncles[j] ==> i == j,
{
    if new_height >= UNCLE_START_HEIGHT {
        let lowest = new_height - MAX_UNCLE_AGE;
        chain.lemma_candidates_complete(lowest, new_height as int);
        let (candidates, used) = chain.uncle_candidates(lowest, new_height as int)->Ok_0;
        let n = candidates.len() as int;
        let unlinked = chain.unlinked(candidates, n);
        let excluded = used + unlinked;
        let left = ChainView::remaining(candidates, excluded, n);
        ChainView::lemma_remaining_complete(candidates, excluded, n);
        assert forall|i: int| 0 <= i < uncles.len() implies chain.is_free(new_height, #[trigger] uncles[i]) by {
            let entry = uncles[i];
            assert(left[i] == entry);
            let k = choose|k: int| 0 <= k < n && #[trigger] candidates[k] == left[i];
            if !chain.lies_on_main_chain(entry) {
                chain.lemma_unlinked(candidates, n, k);
                let l = choose|l: int| 0 <= l < unlinked.len() && unlinked[l] == entry.1;
                assert(excluded[used.len() + l] == entry.1);
            }
            assert forall|h: int| new_height - MAX_UNCLE_AGE <= h < new_height implies !#[trigger] chain.uses(
                h,
                entry.1,
            ) by {
                if chain.uses(h, entry.1) {
                    assert(used.contains(entry.1));
                    let l = choose|l: int| 0 <= l < used.len() && used[l] == entry.1;
                    assert(excluded[l] == entry.1);
                }
            }
        }
        assert forall|i: int, j: int|
            0 <= i < uncles.len() && 0 <= j < uncles.len() && #[trigger] uncles[i]
                == #[trigger] uncles[j] implies i == j by {
            assert(left[i] == uncles[i] && left[j] == uncles[j]);
        }
    }
}

/// No uncle that is free is left out, as long as there is room: a block on one of the [`MAX_UNCLE_AGE`] levels right
/// below, not only on the last of them, that is not in the main chain and that no block of the main chain on these levels
/// names, is offered if its parent is in the main chain; unless [`UNCLE_LIMIT`] others are, none of them above it.
pub proof fn law_free_uncles_are_offered(
    chain: ChainView,
    new_height: u64,
    uncles: Seq<(u64, BlockHash)>,
    height: u64,
    hash: BlockHash,
)
    requires
        chain.ordered(),
        new_height >= UNCLE_START_HEIGHT,
        chain.offered_uncles(new_height) == Ok::<_, ShareChainError>(uncles),
        new_height - MAX_UNCLE_AGE <= height < new_height,
        chain.block_at(height as int, hash) is Some,
        chain.parent_of(chain.block_at(height as int, hash)->Some_0) is Some,
        ({
            let parent = chain.parent_of(chain.block_at(height as int, hash)->Some_0)->Some_0;
            (chain.level(parent.height as int)->Some_0).chain_block == parent.hash
        }),
        forall|h: int|
            new_height - MAX_UNCLE_AGE <= h < new_height && (#[trigger] chain.level(h)) is Some ==> {
                let main = (chain.level(h)->Some_0).main_block()->Some_0;
                &&& main.hash != hash
                &&& forall|i: int| 0 <= i < main.uncles.len() ==> (#[trigger] main.uncles[i]).1 != hash
            },
        forall|h: int|
            new_height - MAX_UNCLE_AGE <= h < new_height && h != height ==> (#[trigger] chain.block_at(
                h,
                hash,
            )) is None,
    ensures
        uncles.contains((height, hash)) || {
            &&& uncles.len() == UNCLE_LIMIT
            &&& forall|i: int| 0 <= i < uncles.len() ==> (#[trigger] uncles[i]).0 <= height
        },
{
    let entry = (height, hash);
    let lowest = new_height - MAX_UNCLE_AGE;
    chain.lemma_candidates_complete(lowest, new_height as int);
    let (candidates, used) = chain.uncle_candidates(lowest, new_height as int)->Ok_0;
    let n = candidates.len() as int;
    let unlinked = chain.unlinked(candidates, n);
    let excluded = used + unlinked;
    let left = ChainView::remaining(candidates, excluded, n);
    ChainView::lemma_remaining_complete(candidates, excluded, n);
    assert(chain.block_at(entry.0 as int, entry.1) is Some);
    assert(candidates.contains(entry));
    let k = choose|k: int| 0 <= k < n && candidates[k] == entry;
    if excluded.contains(hash) {
        let l = choose|l: int| 0 <= l < excluded.len() && excluded[l] == hash;
        if l < used.len() {
            assert(used[l] == hash);
            assert(used.contains(hash));
            let h = choose|h: int| lowest <= h < new_height && #[trigger] chain.uses(h, hash);
            assert(chain.level(h) is Some);
        } else {
            assert(unlinked[l - used.len()] == hash);
            chain.lemma_unlinked_from(candidates, n, hash);
            let m = choose|m: int|
                0 <= m < n && (#[trigger] candidates[m]).1 == hash && !chain.lies_on_main_chain(candidates[m]);
            assert(chain.block_at(candidates[m].0 as int, candidates[m].1) is Some);
            assert(candidates[m].0 == height);
            assert(candidates[m] == entry);
        }
    }
    assert(!excluded.contains(candidates[k].1));
    assert(left.contains(entry));
    let p = choose|p: int| 0 <= p < left.len() && left[p] == entry;
    if p < UNCLE_LIMIT {
        assert(uncles[p] == entry);
    } else {
        assert forall|i: int| 0 <= i < uncles.len() implies (#[trigger] uncles[i]).0 <= height by {
            assert(uncles[i] == left[i]);
            assert(left[i].0 <= left[p].0);
        }
    }
}

/// Uncles are offered unless, at a height at which they are allowed, one of the levels right below has no block in the
/// main chain.
pub proof fn law_uncles_are_offered(chain: ChainView, new_height: u64)
    requires
        chain.ordered(),
    ensures
        chain.offered_uncles(new_height) is Err <==> new_height >= UNCLE_START_HEIGHT && exists|h: int|
            new_height - MAX_UNCLE_AGE <= h < new_height && (#[trigger] chain.level(h)) is Some && (chain.level(
                h,
            )->Some_0).main_block() is None,
{
    if new_height >= UNCLE_START_HEIGHT {
        chain.lemma_candidates_complete(new_height - MAX_UNCLE_AGE, new_height as int);
    }
}

impl ChainView {
    /// What is offered is right: it is free, and nothing is left out.
    pub proof fn lemma_offers(self, new_height: u64, uncles: Seq<(u64, BlockHash)>)
        requires
            self.ordered(),
            self.offered_uncles(new_height) == Ok::<_, ShareChainError>(uncles),
        ensures
            self.offers(new_height, uncles),
    {
        law_offered_uncles_are_free(self, new_height, uncles);
        if new_height >= UNCLE_START_HEIGHT {
            self.lemma_candidates_complete(new_height - MAX_UNCLE_AGE, new_height as int);
            assert forall|entry: (u64, BlockHash)| #[trigger]
                self.is_free(new_height, entry) && self.is_alone(new_height, entry) implies uncles.contains(entry) || {
                &&& uncles.len() == UNCLE_LIMIT
                &&& forall|i: int| 0 <= i < uncles.len() ==> (#[trigger] uncles[i]).0 <= entry.0
            } by {
                assert forall|h: int|
                    new_height - MAX_UNCLE_AGE <= h < new_height && (#[trigger] self.level(h)) is Some implies {
                    let main = (self.level(h)->Some_0).main_block()->Some_0;
                    &&& main.hash != entry.1
                    &&& forall|i: int| 0 <= i < main.uncles.len() ==> (#[trigger] main.uncles[i]).1 != entry.1
                } by {
                    assert(!self.uses(h, entry.1));
                }
                law_free_uncles_are_offered(self, new_height, uncles, entry.0, entry.1);
            }
        }
    }
}

}
