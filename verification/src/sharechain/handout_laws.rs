//! Laws on the blocks that a share chain hands out.
use crate::sharechain::block_map::BlockMap;
use crate::sharechain::chain_model::ChainView;
use crate::sharechain::p2block::BlockView;
use crate::sharechain::p2chain_level::LevelView;
use crate::types::BlockHash;
use vstd::prelude::*;

verus! {

impl ChainView {
    /// The block is what is sent for a request: the one that was asked for, or, if the chain has none of that hash at that
    /// height, the one of the main chain there.
    pub open spec fn answers(self, request: (u64, BlockHash), block: BlockView) -> bool {
        match self.block_at(request.0 as int, request.1) {
            Some(wanted) => block == wanted,
            None => self.level(request.0 as int) matches Some(level) && level.main_block() == Some(block),
        }
    }

    /// The block is what is sent for one of the first `n` requests.
    pub open spec fn answers_one(self, requested: Seq<(u64, BlockHash)>, n: int, block: BlockView) -> bool {
        exists|i: int| 0 <= i < n && self.answers(#[trigger] requested[i], block)
    }

    /// Whether a list is what is sent for some requests: the blocks that were asked for, in their order, and in place of a
    /// block that is not there the one of the main chain at its height.
    pub open spec fn answers_all(self, requested: Seq<(u64, BlockHash)>, blocks: Seq<BlockView>) -> bool {
        &&& blocks.len() <= requested.len()
        &&& forall|i: int|
            0 <= i < requested.len() && self.block_at((#[trigger] requested[i]).0 as int, requested[i].1) is Some
                ==> blocks.contains(self.block_at(requested[i].0 as int, requested[i].1)->Some_0)
        &&& forall|i: int, block: BlockView|
            0 <= i < requested.len() && #[trigger] self.answers(requested[i], block) ==> blocks.contains(block)
        &&& forall|k: int|
            0 <= k < blocks.len() ==> self.answers_one(requested, requested.len() as int, #[trigger] blocks[k])
        &&& (forall|i: int|
            0 <= i < requested.len() ==> self.block_at(
                (#[trigger] requested[i]).0 as int,
                requested[i].1,
            ) is Some) ==> blocks.len() == requested.len() && forall|i: int|
            0 <= i < requested.len() ==> Some(#[trigger] blocks[i]) == self.block_at(
                requested[i].0 as int,
                requested[i].1,
            )
    }
}

proof fn lemma_fetched(chain: ChainView, requested: Seq<(u64, BlockHash)>, n: int)
    requires
        0 <= n <= requested.len(),
    ensures
        ({
            let blocks = chain.fetched(requested, n);
            &&& blocks.len() <= n
            &&& forall|i: int, block: BlockView|
                0 <= i < n && #[trigger] chain.answers(requested[i], block) ==> blocks.contains(block)
            &&& forall|k: int|
                0 <= k < blocks.len() ==> chain.answers_one(requested, n, #[trigger] blocks[k])
            &&& (forall|i: int|
                0 <= i < n ==> chain.block_at((#[trigger] requested[i]).0 as int, requested[i].1) is Some)
                ==> blocks.len() == n && forall|i: int|
                0 <= i < n ==> Some(#[trigger] blocks[i]) == chain.block_at(requested[i].0 as int, requested[i].1)
        }),
    decreases n,
{
    if n > 0 {
        lemma_fetched(chain, requested, n - 1);
        let before = chain.fetched(requested, n - 1);
        let blocks = chain.fetched(requested, n);
        assert forall|i: int, block: BlockView|
            0 <= i < n && #[trigger] chain.answers(requested[i], block) implies blocks.contains(block) by {
            if i < n - 1 {
                assert(before.contains(block));
                let k = choose|k: int| 0 <= k < before.len() && before[k] == block;
                assert(blocks[k] == block);
            } else {
                assert(blocks[blocks.len() - 1] == block);
            }
        }
        assert forall|k: int| 0 <= k < blocks.len() implies chain.answers_one(requested, n, #[trigger] blocks[k]) by {
            if k < before.len() {
                assert(blocks[k] == before[k]);
                assert(chain.answers_one(requested, n - 1, before[k]));
                let i = choose|i: int| 0 <= i < n - 1 && chain.answers(#[trigger] requested[i], before[k]);
                assert(chain.answers(requested[i], blocks[k]));
            } else {
                assert(chain.answers(requested[n - 1], blocks[k]));
            }
        }
        if forall|i: int| 0 <= i < n ==> chain.block_at((#[trigger] requested[i]).0 as int, requested[i].1) is Some {
            assert(chain.block_at(requested[n - 1].0 as int, requested[n - 1].1) is Some);
            assert forall|i: int| 0 <= i < n implies Some(#[trigger] blocks[i]) == chain.block_at(
                requested[i].0 as int,
                requested[i].1,
            ) by {
                if i < n - 1 {
                    assert(blocks[i] == before[i]);
                }
            }
        }
    }
}

/// Whoever asks for blocks that are there gets these very blocks, be they in the main chain or not. A block that is not
/// there is answered by the one of the main chain at its height; nothing else is sent.
pub proof fn law_requested_blocks_are_sent(chain: ChainView, requested: Seq<(u64, BlockHash)>, i: int)
    requires
        0 <= i < requested.len(),
    ensures
        ({
            let blocks = chain.fetched(requested, requested.len() as int);
            let (height, hash) = requested[i];
            &&& chain.block_at(height as int, hash) matches Some(block) ==> blocks.contains(block)
            &&& chain.block_at(height as int, hash) is None ==> (chain.level(height as int) matches Some(level) ==> (
            level.main_block() matches Some(main) ==> blocks.contains(main)))
            &&& chain.answers_all(requested, blocks)
        }),
{
    lemma_fetched(chain, requested, requested.len() as int);
    let blocks = chain.fetched(requested, requested.len() as int);
    let (height, hash) = requested[i];
    if let Some(block) = chain.block_at(height as int, hash) {
        assert(chain.answers(requested[i], block));
    } else if let Some(level) = chain.level(height as int) {
        if let Some(main) = level.main_block() {
            assert(chain.answers(requested[i], main));
        }
    }
    chain.lemma_answers_all(requested);
}

impl ChainView {
    pub proof fn lemma_answers_all(self, requested: Seq<(u64, BlockHash)>)
        ensures
            self.answers_all(requested, self.fetched(requested, requested.len() as int)),
    {
        lemma_fetched(self, requested, requested.len() as int);
        let blocks = self.fetched(requested, requested.len() as int);
        assert forall|i: int|
            0 <= i < requested.len() && self.block_at(
                (#[trigger] requested[i]).0 as int,
                requested[i].1,
            ) is Some implies blocks.contains(self.block_at(requested[i].0 as int, requested[i].1)->Some_0) by {
            assert(self.answers(requested[i], self.block_at(requested[i].0 as int, requested[i].1)->Some_0));
        }
    }

    /// The block is in the main chain.
    pub open spec fn is_main(self, block: BlockView) -> bool {
        self.level(block.height as int) matches Some(level) && level.chain_block == block.hash
    }

    /// How many of the blocks are in the main chain.
    pub open spec fn mains_in(self, blocks: Seq<BlockView>) -> nat {
        blocks.filter(|b: BlockView| self.is_main(b)).len()
    }

    /// A page has as many blocks as were asked for and, if only the main chain counts, at least two of the main chain.
    pub open spec fn is_enough(self, page: Seq<BlockView>, size: int, main_chain_only: bool) -> bool {
        page.len() >= size && (!main_chain_only || self.mains_in(page) >= 2)
    }

    /// No block of the main chain names a block of its own level as an uncle.
    pub open spec fn uncles_lie_below(self) -> bool {
        forall|h: int|
            (#[trigger] self.level(h)) is Some ==> {
                let level = self.level(h)->Some_0;
                forall|i: int, j: int|
                    0 <= i < level.blocks.len() && 0 <= j < (#[trigger] level.blocks[i]).uncles.len() ==> !BlockMap::has(
                        level.blocks,
                        (#[trigger] level.blocks[i].uncles[j]).1,
                    )
            }
    }

    /// Each block of the list is on the chain, no lower than `first`, and no block comes before a lower one.
    pub open spec fn climbs(self, blocks: Seq<BlockView>, first: int) -> bool {
        &&& forall|a: int|
            0 <= a < blocks.len() ==> (#[trigger] blocks[a]).height >= first && self.block_at(
                blocks[a].height as int,
                blocks[a].hash,
            ) == Some(blocks[a])
        &&& forall|a: int, b: int|
            0 <= a <= b < blocks.len() ==> (#[trigger] blocks[a]).height <= (#[trigger] blocks[b]).height
    }

    /// All blocks from place `i` of level `from` on, up to the level below `to`, are in the list.
    pub open spec fn has_levels(self, blocks: Seq<BlockView>, from: int, i: int, to: int) -> bool {
        forall|h: int, k: int|
            from <= h < to && self.level(h) is Some && 0 <= k < (self.level(h)->Some_0).blocks.len() && (h > from || k
                >= i) ==> blocks.contains(#[trigger] (self.level(h)->Some_0).blocks[k])
    }

    proof fn lemma_mains_push(self, page: Seq<BlockView>, block: BlockView)
        ensures
            self.mains_in(page.push(block)) == self.mains_in(page) + (if self.is_main(block) {
                1nat
            } else {
                0
            }),
    {
        reveal(Seq::filter);
        assert(page.push(block).drop_last() =~= page);
    }

    proof fn lemma_uncles_on(self, level: LevelView, uncles: Seq<(u64, BlockHash)>, n: int)
        requires
            level.wf(),
            0 <= n <= uncles.len(),
        ensures
            forall|a: int|
                0 <= a < ChainView::uncles_on(level, uncles, n).len() ==> {
                    let block = #[trigger] ChainView::uncles_on(level, uncles, n)[a];
                    block.height == level.height && BlockMap::find(level.blocks, block.hash) == Some(block)
                },
            (forall|j: int| 0 <= j < n ==> !BlockMap::has(level.blocks, (#[trigger] uncles[j]).1))
                ==> ChainView::uncles_on(level, uncles, n).len() == 0,
        decreases n,
    {
        if n > 0 {
            self.lemma_uncles_on(level, uncles, n - 1);
            if BlockMap::has(level.blocks, uncles[n - 1].1) {
                level.lemma_found(uncles[n - 1].1);
            }
        }
    }

    /// What a page is when it goes on from a place: it keeps what there is, climbs, and leaves nothing out below its end.
    proof fn lemma_paged(
        self,
        height: int,
        i: int,
        page: Seq<BlockView>,
        mains: int,
        size: int,
        main_chain_only: bool,
        first: int,
    )
        requires
            self.ordered(),
            0 <= i,
            first <= height,
            self.levels.len() > 0 ==> self.base() <= height,
            0 <= mains <= 2,
            mains <= self.mains_in(page),
            self.climbs(page, first),
            forall|a: int| 0 <= a < page.len() ==> (#[trigger] page[a]).height <= height,
        ensures
            ({
                let all = self.paged(height, i, page, mains, size, main_chain_only);
                &&& page.len() <= all.len()
                &&& all.take(page.len() as int) == page
                &&& self.climbs(all, first)
                &&& all.len() == page.len() || all.last().height >= height
                &&& self.is_enough(all, size, main_chain_only) || self.has_levels(
                    all,
                    height,
                    i,
                    self.top() + 1,
                )
                &&& all.len() > page.len() ==> self.has_levels(all, height, i, all.last().height as int)
            }),
        decreases
                self.levels.len() + self.base() - height,
                (match self.level(height) {
                    Some(level) => level.blocks.len() - i,
                    None => 0,
                }),
    {
        let all = self.paged(height, i, page, mains, size, main_chain_only);
        let end = self.top() + 1;
        match self.level(height) {
            None => {
                assert(all.take(page.len() as int) =~= page);
            },
            Some(level) => {
                self.lemma_level(height);
                if i >= level.blocks.len() {
                    self.lemma_paged(height + 1, 0, page, mains, size, main_chain_only, first);
                    if self.has_levels(all, height + 1, 0, end) {
                        assert(self.has_levels(all, height, i, end));
                    }
                    if all.len() > page.len() {
                        assert(self.has_levels(all, height, i, all.last().height as int));
                    }
                } else {
                    let block = level.blocks[i];
                    let main = block.hash == level.chain_block;
                    let uncles = ChainView::uncles_on(level, block.uncles, block.uncles.len() as int);
                    let with_uncles = if main && main_chain_only {
                        page + uncles
                    } else {
                        page
                    };
                    let longer = with_uncles.push(block);
                    let found = if main && mains < 2 {
                        mains + 1
                    } else {
                        mains
                    };
                    self.lemma_uncles_on(level, block.uncles, block.uncles.len() as int);
                    BlockMap::lemma_find_at(level.blocks, i);
                    Seq::filter_distributes_over_add(page, uncles, |b: BlockView| self.is_main(b));
                    self.lemma_mains_push(with_uncles, block);
                    assert(self.is_main(block) == main);
                    assert forall|a: int| 0 <= a < longer.len() implies first <= (#[trigger] longer[a]).height <= height
                        && self.block_at(longer[a].height as int, longer[a].hash) == Some(longer[a]) && (a >= page.len()
                        ==> longer[a].height == height) by {
                        if a < page.len() {
                            assert(longer[a] == page[a]);
                        } else if a < with_uncles.len() {
                            assert(longer[a] == uncles[a - page.len()]);
                        }
                    }
                    assert forall|a: int, b: int| 0 <= a <= b < longer.len() implies (#[trigger] longer[a]).height <= (
                    #[trigger] longer[b]).height by {
                        if b < page.len() {
                            assert(longer[a] == page[a] && longer[b] == page[b]);
                        }
                    }
                    assert(longer.take(page.len() as int) =~= page);
                    assert(longer[longer.len() - 1] == block);
                    if longer.len() >= size && (!main_chain_only || found >= 2) {
                        assert(all == longer);
                        assert(self.is_enough(all, size, main_chain_only));
                    } else {
                        self.lemma_paged(height, i + 1, longer, found, size, main_chain_only, first);
                        assert(all.take(page.len() as int) =~= page) by {
                            assert(all.take(longer.len() as int).take(page.len() as int) =~= all.take(
                                page.len() as int,
                            ));
                        }
                        assert(all.contains(block)) by {
                            assert(all.take(longer.len() as int)[longer.len() - 1] == block);
                            assert(all[longer.len() - 1] == block);
                        }
                        if self.has_levels(all, height, i + 1, end) {
                            assert(self.has_levels(all, height, i, end));
                        }
                        if all.len() > longer.len() {
                            assert(self.has_levels(all, height, i, all.last().height as int));
                        } else {
                            assert(all =~= longer);
                            assert(all.last() == block);
                        }
                    }
                }
            },
        }
    }

    /// A page that stops as soon as it has enough: without its last block it has not. No block is in it twice.
    proof fn lemma_paged_tight(self, height: int, i: int, page: Seq<BlockView>, mains: int, size: int, main_chain_only: bool)
        requires
            self.ordered(),
            0 <= i,
            !main_chain_only || self.uncles_lie_below(),
            self.levels.len() > 0 ==> self.base() <= height,
            main_chain_only ==> mains == (if self.mains_in(page) < 2 {
                self.mains_in(page) as int
            } else {
                2
            }),
            page.len() == 0 || !self.is_enough(page, size, main_chain_only),
            forall|a: int|
                0 <= a < page.len() ==> (#[trigger] page[a]).height < height || page[a].height == height && self.level(
                    height,
                ) is Some && exists|k: int|
                    0 <= k < i && k < (self.level(height)->Some_0).blocks.len() && (self.level(
                        height,
                    )->Some_0).blocks[k] == page[a],
            forall|a: int, b: int| 0 <= a < b < page.len() ==> #[trigger] page[a] != #[trigger] page[b],
        ensures
            ({
                let all = self.paged(height, i, page, mains, size, main_chain_only);
                &&& all.len() <= 1 || !self.is_enough(all.drop_last(), size, main_chain_only)
                &&& forall|a: int, b: int| 0 <= a < b < all.len() ==> #[trigger] all[a] != #[trigger] all[b]
            }),
        decreases
                self.levels.len() + self.base() - height,
                (match self.level(height) {
                    Some(level) => level.blocks.len() - i,
                    None => 0,
                }),
    {
        let all = self.paged(height, i, page, mains, size, main_chain_only);
        match self.level(height) {
            None => {
                if all.len() > 1 {
                    self.lemma_shorter(all, size, main_chain_only);
                }
            },
            Some(level) => {
                self.lemma_level(height);
                if i >= level.blocks.len() {
                    assert forall|a: int| 0 <= a < page.len() implies (#[trigger] page[a]).height < height + 1 by {}
                    self.lemma_paged_tight(height + 1, 0, page, mains, size, main_chain_only);
                } else {
                    let block = level.blocks[i];
                    let main = block.hash == level.chain_block;
                    let uncles = ChainView::uncles_on(level, block.uncles, block.uncles.len() as int);
                    let with_uncles = if main && main_chain_only {
                        page + uncles
                    } else {
                        page
                    };
                    self.lemma_uncles_on(level, block.uncles, block.uncles.len() as int);
                    if main_chain_only {
                        assert(uncles.len() == 0) by {
                            assert forall|j: int| 0 <= j < block.uncles.len() implies !BlockMap::has(
                                level.blocks,
                                (#[trigger] block.uncles[j]).1,
                            ) by {
                                assert(level.blocks[i].uncles[j] == block.uncles[j]);
                            }
                        }
                    }
                    assert(with_uncles =~= page);
                    let longer = page.push(block);
                    let found = if main && mains < 2 {
                        mains + 1
                    } else {
                        mains
                    };
                    self.lemma_mains_push(page, block);
                    assert(self.is_main(block) == main);
                    assert forall|a: int, b: int| 0 <= a < b < longer.len() implies #[trigger] longer[a]
                        != #[trigger] longer[b] by {
                        assert(longer[a] == page[a]);
                        if b < page.len() {
                            assert(longer[b] == page[b]);
                        } else if page[a].height == height {
                            let k = choose|k: int| 0 <= k < i && k < level.blocks.len() && level.blocks[k] == page[a];
                            assert(level.blocks[k].hash != level.blocks[i].hash);
                        }
                    }
                    assert(longer.drop_last() =~= page);
                    if longer.len() >= size && (!main_chain_only || found >= 2) {
                        assert(all == longer);
                    } else {
                        assert forall|a: int| 0 <= a < longer.len() implies (#[trigger] longer[a]).height < height
                            || longer[a].height == height && exists|k: int|
                            0 <= k < i + 1 && k < level.blocks.len() && level.blocks[k] == longer[a] by {
                            if a < page.len() {
                                assert(longer[a] == page[a]);
                                if page[a].height == height {
                                    let k = choose|k: int|
                                        0 <= k < i && k < level.blocks.len() && level.blocks[k] == page[a];
                                    assert(level.blocks[k] == longer[a]);
                                }
                            } else {
                                assert(level.blocks[i] == longer[a]);
                            }
                        }
                        self.lemma_paged_tight(height, i + 1, longer, found, size, main_chain_only);
                    }
                }
            },
        }
    }

    proof fn lemma_shorter(self, page: Seq<BlockView>, size: int, main_chain_only: bool)
        requires
            page.len() > 0,
            !self.is_enough(page, size, main_chain_only),
        ensures
            !self.is_enough(page.drop_last(), size, main_chain_only),
    {
        self.lemma_mains_push(page.drop_last(), page.last());
        assert(page.drop_last().push(page.last()) =~= page);
    }

    /// Whether a page is right. It has blocks of the chain alone, from `start` on and lowest first. If it has not enough,
    /// nothing from there on is left out, be it in the main chain or not; if it has, nothing below its last block is. It is
    /// no longer than it needs be, and no block is in it twice.
    pub open spec fn hands_out(self, start: int, size: int, main_chain_only: bool, page: Seq<BlockView>) -> bool {
        &&& self.climbs(page, start)
        &&& forall|h: int, hash: BlockHash|
            h >= start && (#[trigger] self.block_at(h, hash)) is Some && (!self.is_enough(page, size, main_chain_only)
                || page.len() > 0 && h < page.last().height) ==> page.contains(self.block_at(h, hash)->Some_0)
        &&& !main_chain_only || self.uncles_lie_below() ==> {
            &&& page.len() <= 1 || !self.is_enough(page.drop_last(), size, main_chain_only)
            &&& forall|a: int, b: int| 0 <= a < b < page.len() ==> #[trigger] page[a] != #[trigger] page[b]
        }
    }
}

/// A page has blocks of the chain alone, none below the height that was asked for, and none before a lower one. Each block
/// from that height on is in the page, be it in the main chain or not, unless the page has as many blocks as were asked for
/// and, if only the main chain counts, two of the main chain; and then too if it lies below the last block of the page.
pub proof fn law_pages_leave_nothing_out(
    chain: ChainView,
    start: int,
    size: int,
    main_chain_only: bool,
    height: int,
    hash: BlockHash,
)
    requires
        chain.ordered(),
        height >= start,
        chain.block_at(height, hash) is Some,
    ensures
        ({
            let page = chain.page(start, size, main_chain_only);
            let block = chain.block_at(height, hash)->Some_0;
            &&& page.contains(block) || page.len() >= size && (main_chain_only ==> page.filter(
                |b: BlockView| (chain.level(b.height as int)->Some_0).chain_block == b.hash,
            ).len() >= 2)
            &&& page.len() > 0 && height < page.last().height ==> page.contains(block)
        }),
{
    let page = chain.page(start, size, main_chain_only);
    chain.lemma_hands_out(start, size, main_chain_only);
    if chain.is_enough(page, size, main_chain_only) {
        lemma_same_filter(
            page,
            |b: BlockView| chain.is_main(b),
            |b: BlockView| (chain.level(b.height as int)->Some_0).chain_block == b.hash,
        );
    }
}

proof fn lemma_same_filter(blocks: Seq<BlockView>, a: spec_fn(BlockView) -> bool, b: spec_fn(BlockView) -> bool)
    requires
        forall|i: int| 0 <= i < blocks.len() && a(#[trigger] blocks[i]) ==> b(blocks[i]),
    ensures
        blocks.filter(a).len() <= blocks.filter(b).len(),
    decreases blocks.len(),
{
    reveal(Seq::filter);
    if blocks.len() > 0 {
        let shorter = blocks.drop_last();
        assert forall|i: int| 0 <= i < shorter.len() && a(#[trigger] shorter[i]) implies b(shorter[i]) by {
            assert(shorter[i] == blocks[i]);
        }
        lemma_same_filter(shorter, a, b);
        assert(blocks.last() == blocks[blocks.len() - 1]);
    }
}

/// Each uncle that a block of a page names comes with the page, if the chain has it below that block and no lower than the
/// height that was asked for.
pub proof fn law_pages_have_their_uncles(
    chain: ChainView,
    start: int,
    size: int,
    main_chain_only: bool,
    a: int,
    i: int,
)
    requires
        chain.ordered(),
        0 <= a < chain.page(start, size, main_chain_only).len(),
        0 <= i < chain.page(start, size, main_chain_only)[a].uncles.len(),
        ({
            let page = chain.page(start, size, main_chain_only);
            let (height, hash) = page[a].uncles[i];
            &&& start <= height < page[a].height
            &&& chain.block_at(height as int, hash) is Some
        }),
    ensures
        ({
            let page = chain.page(start, size, main_chain_only);
            let (height, hash) = page[a].uncles[i];
            page.contains(chain.block_at(height as int, hash)->Some_0)
        }),
{
    let page = chain.page(start, size, main_chain_only);
    let (height, hash) = page[a].uncles[i];
    chain.lemma_hands_out(start, size, main_chain_only);
    assert(page[a].height <= page[page.len() - 1].height);
    law_pages_leave_nothing_out(chain, start, size, main_chain_only, height as int, hash);
}

/// A page stops as soon as it has enough: without its last block it has too few blocks, or, if only the main chain counts,
/// fewer than two of the main chain. No block is in it twice.
pub proof fn law_pages_are_no_longer_than_asked(chain: ChainView, start: int, size: int, main_chain_only: bool)
    requires
        chain.ordered(),
        !main_chain_only || chain.uncles_lie_below(),
    ensures
        ({
            let page = chain.page(start, size, main_chain_only);
            &&& page.len() <= 1 || !chain.is_enough(page.drop_last(), size, main_chain_only)
            &&& forall|a: int, b: int| 0 <= a < b < page.len() ==> #[trigger] page[a] != #[trigger] page[b]
            &&& !main_chain_only ==> page.len() <= size || page.len() <= 1
        }),
{
    chain.lemma_hands_out(start, size, main_chain_only);
}

impl ChainView {
    pub proof fn lemma_hands_out(self, start: int, size: int, main_chain_only: bool)
        requires
            self.ordered(),
        ensures
            self.hands_out(start, size, main_chain_only, self.page(start, size, main_chain_only)),
    {
        let first = if self.levels.len() > 0 && start < self.base() {
            self.base()
        } else {
            start
        };
        let none = Seq::<BlockView>::empty();
        let page = self.page(start, size, main_chain_only);
        reveal(Seq::filter);
        assert(self.mains_in(none) == 0);
        self.lemma_paged(first, 0, none, 0, size, main_chain_only, first);
        if !main_chain_only || self.uncles_lie_below() {
            self.lemma_paged_tight(first, 0, none, 0, size, main_chain_only);
        }
        assert forall|h: int, hash: BlockHash|
            h >= start && (#[trigger] self.block_at(h, hash)) is Some && (!self.is_enough(page, size, main_chain_only)
                || page.len() > 0 && h < page.last().height) implies page.contains(
            self.block_at(h, hash)->Some_0,
        ) by {
            self.lemma_level(h);
            let level = self.level(h)->Some_0;
            BlockMap::lemma_found(level.blocks, hash);
            let k = BlockMap::index_in(level.blocks, hash);
            assert(page.contains((self.level(h)->Some_0).blocks[k]));
        }
    }
}

/// The highest match is the greatest height of a block that both have in their main chain: none of the blocks that is in
/// the main chain lies above it, and unless it is zero one of them lies there.
pub proof fn law_highest_match_is_the_highest(chain: ChainView, blocks: Seq<(u64, BlockHash)>, n: int)
    requires
        0 <= n <= blocks.len(),
    ensures
        ({
            let height = chain.highest_match(blocks, n);
            &&& forall|i: int|
                0 <= i < n && chain.has_in_main_chain(#[trigger] blocks[i]) ==> blocks[i].0 <= height
            &&& height > 0 ==> exists|i: int|
                0 <= i < n && chain.has_in_main_chain(#[trigger] blocks[i]) && blocks[i].0 == height
        }),
    decreases n,
{
    if n > 0 {
        law_highest_match_is_the_highest(chain, blocks, n - 1);
        let before = chain.highest_match(blocks, n - 1);
        let height = chain.highest_match(blocks, n);
        if height == before {
            if height > 0 {
                let i = choose|i: int|
                    0 <= i < n - 1 && chain.has_in_main_chain(#[trigger] blocks[i]) && blocks[i].0 == before;
                assert(chain.has_in_main_chain(blocks[i]));
            }
        } else {
            assert(chain.has_in_main_chain(blocks[n - 1]));
        }
    }
}

impl ChainView {
    /// The block is on the chain and in the main chain.
    pub open spec fn has_in_main_chain(self, entry: (u64, BlockHash)) -> bool {
        self.block_at(entry.0 as int, entry.1) is Some && (self.level(entry.0 as int)->Some_0).chain_block == entry.1
    }

    /// Whether blocks for a node that has `theirs` and got `last` last start at a height: at that of `last` if the chain
    /// has it, or at the highest of `theirs` that is in the main chain, whichever is higher; at zero if there is neither.
    pub open spec fn syncs_from(
        self,
        theirs: Seq<(u64, BlockHash)>,
        last: Option<(u64, BlockHash)>,
        start: int,
    ) -> bool {
        let knows_last = last matches Some(entry) && self.block_at(entry.0 as int, entry.1) is Some;
        &&& start >= 0
        &&& forall|i: int|
            0 <= i < theirs.len() && self.has_in_main_chain(#[trigger] theirs[i]) ==> theirs[i].0 <= start
        &&& knows_last ==> (last->Some_0).0 <= start
        &&& start > 0 ==> knows_last && (last->Some_0).0 == start || exists|i: int|
            0 <= i < theirs.len() && self.has_in_main_chain(#[trigger] theirs[i]) && theirs[i].0 == start
    }

    pub proof fn lemma_syncs_from(self, theirs: Seq<(u64, BlockHash)>, last: Option<(u64, BlockHash)>)
        ensures
            ({
                let known = self.known_height(last);
                let split = self.highest_match(theirs, theirs.len() as int);
                self.syncs_from(
                    theirs,
                    last,
                    (if known > split {
                        known
                    } else {
                        split
                    }) as int,
                )
            }),
    {
        law_highest_match_is_the_highest(self, theirs, theirs.len() as int);
    }

    /// Whether a list is what a node tells of its chain: the blocks of the main chain from the tip down to `count` levels
    /// below it, all of them and nothing else, highest first.
    pub open spec fn tells_newest(self, count: int, list: Seq<(u64, BlockHash)>) -> bool {
        &&& self.tip() is None ==> list.len() == 0
        &&& self.tip() is Some ==> forall|h: int|
            self.current_tip - count <= h <= self.current_tip && (#[trigger] self.level(h)) is Some && (self.level(
                h,
            )->Some_0).main_block() is Some ==> list.contains((h as u64, (self.level(h)->Some_0).chain_block))
        &&& forall|i: int|
            0 <= i < list.len() ==> self.current_tip - count <= (#[trigger] list[i]).0 <= self.current_tip
                && self.has_in_main_chain(list[i])
        &&& forall|i: int, j: int| 0 <= i < j < list.len() ==> (#[trigger] list[i]).0 > (#[trigger] list[j]).0
    }

    proof fn lemma_main_chain_down(self, height: int, lowest: int)
        requires
            self.ordered(),
            height <= u64::MAX,
        ensures
            ({
                let list = self.main_chain_down(height, lowest);
                &&& forall|h: int|
                    lowest <= h <= height && (#[trigger] self.level(h)) is Some && (self.level(
                        h,
                    )->Some_0).main_block() is Some ==> list.contains((h as u64, (self.level(h)->Some_0).chain_block))
                &&& forall|i: int|
                    0 <= i < list.len() ==> lowest <= (#[trigger] list[i]).0 <= height && self.has_in_main_chain(list[i])
                &&& forall|i: int, j: int| 0 <= i < j < list.len() ==> (#[trigger] list[i]).0 > (#[trigger] list[j]).0
            }),
        decreases height - lowest + 1,
    {
        if height >= lowest {
            self.lemma_main_chain_down(height - 1, lowest);
            let below = self.main_chain_down(height - 1, lowest);
            let list = self.main_chain_down(height, lowest);
            if let Some(level) = self.level(height) {
                self.lemma_level(height);
                if level.main_block() is Some {
                    let first = (level.height, level.chain_block);
                    assert(list == seq![first] + below);
                    assert forall|h: int|
                        lowest <= h <= height && (#[trigger] self.level(h)) is Some && (self.level(
                            h,
                        )->Some_0).main_block() is Some implies list.contains(
                        (h as u64, (self.level(h)->Some_0).chain_block),
                    ) by {
                        let entry = (h as u64, (self.level(h)->Some_0).chain_block);
                        if h == height {
                            assert(list[0] == entry);
                        } else {
                            assert(below.contains(entry));
                            let k = choose|k: int| 0 <= k < below.len() && below[k] == entry;
                            assert(list[k + 1] == entry);
                        }
                    }
                    assert forall|i: int| 0 <= i < list.len() implies lowest <= (#[trigger] list[i]).0 <= height
                        && self.has_in_main_chain(list[i]) by {
                        if i > 0 {
                            assert(list[i] == below[i - 1]);
                        }
                    }
                    assert forall|i: int, j: int| 0 <= i < j < list.len() implies (#[trigger] list[i]).0 > (
                    #[trigger] list[j]).0 by {
                        assert(list[j] == below[j - 1]);
                        if i > 0 {
                            assert(list[i] == below[i - 1]);
                        }
                    }
                }
            }
        }
    }
}

/// What a node tells of its chain is the main chain from the tip down to `count` levels below it: every block of it, highest
/// first, and nothing else.
pub proof fn law_newest_blocks_are_told(chain: ChainView, count: int)
    requires
        chain.ordered(),
        count >= 0,
    ensures
        chain.tells_newest(count, chain.newest(count)),
        chain.tip() is Some && (chain.tip()->Some_0).main_block() is Some ==> chain.newest(count).len() > 0
            && chain.newest(count)[0] == (chain.current_tip, (chain.tip()->Some_0).chain_block),
{
    if chain.tip() is Some {
        let lowest = crate::sharechain::share_rules::less(chain.current_tip as int, count);
        chain.lemma_main_chain_down(chain.current_tip as int, lowest);
        chain.lemma_level(chain.current_tip as int);
    }
}

}
