//! What the chain of levels does, as functions on its contents.
use crate::sharechain::block_map::BlockMap;
use crate::sharechain::difficulty_window::DifficultyWindow;
use crate::sharechain::error::{InvalidReason, ShareChainError};
use crate::sharechain::p2block::BlockView;
use crate::sharechain::p2chain_level::LevelView;
use crate::sharechain::shares::{ShareTable, ShareView};
use crate::types::{BlockHash, FixedHash};
use vstd::prelude::*;

verus! {

/// How far the chain may grow beyond its size before it is trimmed.
pub const SAFETY_MARGIN: u64 = 20;

/// How far the chain may grow in front of the tip.
pub const MAX_EXTRA_SYNC: u64 = 2000;

/// How many blocks that lie further in front are kept aside.
pub const MAX_SYNC_STORE: usize = 200;

/// How many missing blocks are noted before the search for more stops.
pub const MAX_MISSING_PARENTS: usize = 100;

/// How many blocks kept aside must link up before they are tried.
pub const MIN_SYNC_CHAIN: usize = 150;

/// How far below a block its uncles may be.
pub const MAX_UNCLE_AGE: u64 = 3;

/// What adding a block led to.
#[verifier::ext_equal]
pub struct AddView {
    /// The new tip, if there is one.
    pub new_tip: Option<(BlockHash, u64)>,
    /// Blocks that were not found, each with its height; no hash occurs twice.
    pub missing: Seq<(BlockHash, u64)>,
}

/// What a chain holds.
#[verifier::ext_equal]
pub struct ChainView {
    /// Time between blocks that the chain aims at, in seconds.
    pub block_time: u64,
    /// Shares that were worked out for the tip.
    pub cached_shares: Option<Seq<ShareView>>,
    /// The levels, lowest first.
    pub levels: Seq<LevelView>,
    /// How many levels below the tip are kept.
    pub total_size: u64,
    /// How many blocks below the tip count.
    pub share_window: u64,
    /// Height of the tip.
    pub current_tip: u64,
    /// Time and target of the latest blocks of the main chain.
    pub window: Seq<(u64, u64)>,
    /// Blocks kept aside, too far in front to be in a level.
    pub sync_store: Seq<BlockView>,
    /// Hashes of the blocks kept aside, latest first.
    pub sync_order: Seq<BlockHash>,
}

impl AddView {
    /// No new tip, nothing missing.
    pub open spec fn nothing() -> AddView {
        AddView { new_tip: None, missing: Seq::empty() }
    }

    /// Nothing but a new tip.
    pub open spec fn tip(hash: BlockHash, height: u64) -> AddView {
        AddView { new_tip: Some((hash, height)), missing: Seq::empty() }
    }

    /// The missing blocks, each as its height and its hash.
    pub open spec fn parents(self) -> Seq<(u64, BlockHash)> {
        Seq::new(self.missing.len(), |i: int| (self.missing[i].1, self.missing[i].0))
    }

    /// No new tip, and these blocks are missing.
    pub open spec fn lacking(missing: Seq<(BlockHash, u64)>) -> AddView {
        AddView { new_tip: None, missing }
    }

    /// The hash is among the missing ones.
    pub open spec fn lists(missing: Seq<(BlockHash, u64)>, hash: BlockHash) -> bool {
        exists|i: int| 0 <= i < missing.len() && (#[trigger] missing[i]).0 == hash
    }

    /// Where the hash is among the missing ones.
    pub open spec fn place_of(missing: Seq<(BlockHash, u64)>, hash: BlockHash) -> int {
        choose|i: int| 0 <= i < missing.len() && (#[trigger] missing[i]).0 == hash
    }

    /// No hash occurs twice.
    pub open spec fn distinct(missing: Seq<(BlockHash, u64)>) -> bool {
        forall|i: int, j: int|
            0 <= i < missing.len() && 0 <= j < missing.len() && (#[trigger] missing[i]).0 == (
            #[trigger] missing[j]).0 ==> i == j
    }

    /// The missing blocks with one more.
    pub open spec fn noted(missing: Seq<(BlockHash, u64)>, hash: BlockHash, height: u64) -> Seq<(BlockHash, u64)> {
        if AddView::lists(missing, hash) {
            missing.update(AddView::place_of(missing, hash), (hash, height))
        } else {
            missing.push((hash, height))
        }
    }

    /// The higher of two new tips; the first if they are equally high.
    pub open spec fn higher_tip(a: Option<(BlockHash, u64)>, b: Option<(BlockHash, u64)>) -> Option<
        (BlockHash, u64),
    > {
        match (a, b) {
            (Some(x), Some(y)) => if y.1 > x.1 {
                b
            } else {
                a
            },
            (None, Some(_)) => b,
            (_, None) => a,
        }
    }

    /// The missing blocks, with `more[from..]` noted until there are [`MAX_MISSING_PARENTS`].
    pub open spec fn noted_all(missing: Seq<(BlockHash, u64)>, more: Seq<(BlockHash, u64)>, from: int) -> Seq<
        (BlockHash, u64),
    >
        decreases more.len() - from,
    {
        if from < 0 || from >= more.len() || missing.len() >= MAX_MISSING_PARENTS {
            missing
        } else {
            AddView::noted_all(AddView::noted(missing, more[from].0, more[from].1), more, from + 1)
        }
    }

    /// Two outcomes, one after the other.
    pub open spec fn combined(self, other: AddView) -> AddView {
        AddView {
            new_tip: AddView::higher_tip(self.new_tip, other.new_tip),
            missing: AddView::noted_all(self.missing, other.missing, 0),
        }
    }
}

impl ChainView {
    /// A chain without blocks.
    pub open spec fn fresh(total_size: u64, share_window: u64, block_time: u64) -> ChainView {
        ChainView {
            block_time,
            cached_shares: None,
            levels: Seq::empty(),
            total_size,
            share_window,
            current_tip: 0,
            window: Seq::empty(),
            sync_store: Seq::empty(),
            sync_order: Seq::empty(),
        }
    }

    /// Number of levels at which the chain is full.
    pub open spec fn capacity(self) -> int {
        self.total_size + SAFETY_MARGIN + MAX_EXTRA_SYNC
    }

    /// Height of the lowest level.
    pub open spec fn base(self) -> int {
        self.levels[0].height as int
    }

    /// Height of the highest level.
    pub open spec fn top(self) -> int {
        self.levels.last().height as int
    }

    /// The shares that are kept, if any, are those of the share window.
    pub open spec fn keeps_window_shares(self) -> bool {
        self.kept_shares() matches Some(kept) ==> self.shares() == Ok::<_, ShareChainError>(kept)
    }

    /// The chain is in order, and the shares that are kept are those of the share window.
    pub open spec fn wf(self) -> bool {
        self.ordered() && self.keeps_window_shares()
    }

    /// The levels lie one above the other, each is well formed, and all heights leave room for sums.
    pub open spec fn ordered(self) -> bool {
        &&& self.capacity() <= u64::MAX
        &&& forall|i: int|
            0 <= i < self.levels.len() ==> (#[trigger] self.levels[i]).wf() && self.levels[i].height
                == self.levels[0].height + i
        &&& self.levels.len() > 0 ==> self.levels[0].height + self.levels.len() - 1 + self.capacity() <= u64::MAX
        &&& self.cached_shares matches Some(shares) ==> ShareTable::distinct(shares)
        &&& BlockMap::distinct(self.sync_store)
        &&& forall|i: int|
            0 <= i < self.sync_store.len() ==> (#[trigger] self.sync_store[i]).height + self.capacity() <= u64::MAX
    }

    /// The level at a height.
    pub open spec fn level(self, height: int) -> Option<LevelView> {
        if self.levels.len() > 0 && self.levels[0].height <= height < self.levels[0].height + self.levels.len() {
            Some(self.levels[height - self.levels[0].height])
        } else {
            None
        }
    }

    /// The chain with another level at a height.
    pub open spec fn with_level(self, height: int, level: LevelView) -> ChainView {
        ChainView { levels: self.levels.update(height - self.levels[0].height, level), ..self }
    }

    /// The block at a height that has the hash.
    pub open spec fn block_at(self, height: int, hash: BlockHash) -> Option<BlockView> {
        match self.level(height) {
            Some(level) => BlockMap::find(level.blocks, hash),
            None => None,
        }
    }

    /// The height below, or zero.
    pub open spec fn below(height: u64) -> u64 {
        if height == 0 {
            0
        } else {
            (height - 1) as u64
        }
    }

    /// The parent of a block.
    pub open spec fn parent_of(self, block: BlockView) -> Option<BlockView> {
        if block.height == 0 {
            None
        } else {
            self.block_at(block.height - 1, block.prev_hash)
        }
    }

    /// The level of the tip.
    pub open spec fn tip(self) -> Option<LevelView> {
        match self.level(self.current_tip as int) {
            Some(level) => if level.chain_block != FixedHash::spec_zero() {
                Some(level)
            } else {
                None
            },
            None => None,
        }
    }

    /// The work of the main chain; one if there is none.
    pub open spec fn tip_pow(self) -> u128 {
        match self.tip() {
            Some(level) => match level.main_block() {
                Some(block) => block.total_pow,
                None => 1,
            },
            None => 1,
        }
    }

    /// The chain has no room for another level.
    pub open spec fn full(self) -> bool {
        self.levels.len() >= self.capacity()
    }

    /// Of the first `n` uncles, those that are not there, and the parents of uncles that are not there, noted
    /// behind `missing`.
    pub open spec fn missing_uncles(
        self,
        uncles: Seq<(u64, BlockHash)>,
        n: int,
        missing: Seq<(BlockHash, u64)>,
    ) -> Seq<(BlockHash, u64)>
        decreases n,
    {
        if n <= 0 {
            missing
        } else {
            let before = self.missing_uncles(uncles, n - 1, missing);
            let (height, hash) = uncles[n - 1];
            match self.block_at(height as int, hash) {
                Some(uncle) => if self.parent_of(uncle) is None {
                    AddView::noted(before, uncle.prev_hash, ChainView::below(uncle.height))
                } else {
                    before
                },
                None => AddView::noted(before, hash, height),
            }
        }
    }

    /// What a block needs and is not there: its parent, its uncles and their parents. The first block of a
    /// chain needs nothing.
    pub open spec fn missing_links(self, block: BlockView) -> Seq<(BlockHash, u64)> {
        if block.height == 0 {
            Seq::empty()
        } else {
            let parent = if self.parent_of(block) is None {
                seq![(block.prev_hash, (block.height - 1) as u64)]
            } else {
                Seq::empty()
            };
            self.missing_uncles(block.uncles, block.uncles.len() as int, parent)
        }
    }

    /// The work of a block and of its first `n` uncles.
    pub open spec fn own_work(self, block: BlockView, n: int) -> Result<int, ShareChainError>
        decreases n,
    {
        if n <= 0 {
            Ok(block.target_difficulty as int)
        } else {
            match self.own_work(block, n - 1) {
                Ok(work) => match self.block_at(block.uncles[n - 1].0 as int, block.uncles[n - 1].1) {
                    Some(uncle) => if work + uncle.target_difficulty > u128::MAX {
                        Err(ShareChainError::DifficultyOverflow)
                    } else {
                        Ok(work + uncle.target_difficulty)
                    },
                    None => Err(ShareChainError::BlockNotFound),
                },
                Err(error) => Err(error),
            }
        }
    }

    /// What is wrong with the total work of a block, if anything: it must be that of the block, its uncles and
    /// everything below.
    pub open spec fn work_fault(self, block: BlockView) -> Option<ShareChainError> {
        match self.own_work(block, block.uncles.len() as int) {
            Err(error) => Some(error),
            Ok(work) => if block.height == 0 {
                if block.total_pow != work {
                    Some(ShareChainError::BlockTotalWorkMismatch)
                } else {
                    None
                }
            } else {
                match self.parent_of(block) {
                    None => Some(ShareChainError::BlockNotFound),
                    Some(parent) => if block.total_pow != parent.total_pow + work {
                        Some(ShareChainError::BlockTotalWorkMismatch)
                    } else {
                        None
                    },
                }
            },
        }
    }

    /// The chain with a block marked as verified.
    pub open spec fn marked(self, block: BlockView) -> ChainView {
        let level = self.level(block.height as int)->Some_0;
        self.with_level(
            block.height as int,
            LevelView {
                blocks: BlockMap::with(level.blocks, BlockView { verified: true, ..block }),
                ..level
            },
        )
    }

    /// The chain with another block in the main chain at a height.
    pub open spec fn with_chain_block(self, height: int, hash: BlockHash) -> ChainView {
        self.with_level(height, LevelView { chain_block: hash, ..self.level(height)->Some_0 })
    }

    /// The chain without the levels that are more than its size and the margin below the tip.
    pub open spec fn trimmed(self) -> ChainView {
        let excess = self.current_tip - self.base() - (self.total_size + SAFETY_MARGIN);
        if self.levels.len() > 0 && excess > 0 {
            ChainView { levels: self.levels.skip(excess), ..self }
        } else {
            self
        }
    }

    /// The chain with `block` as its new tip, and with no shares kept: the share window has moved on.
    pub open spec fn advanced(self, block: BlockView) -> ChainView {
        ChainView {
            window: DifficultyWindow::newer(self.window, block.timestamp, block.target_difficulty),
            cached_shares: None,
            current_tip: block.height,
            ..self.with_chain_block(block.height as int, block.hash)
        }.trimmed()
    }

    /// The first fault among `uncles[from..]` of a block on top of the tip: each must be there with its parent,
    /// the parent in the main chain and the uncle not.
    pub open spec fn uncle_fault(self, uncles: Seq<(u64, BlockHash)>, from: int) -> Option<ShareChainError>
        decreases uncles.len() - from,
    {
        if from < 0 || from >= uncles.len() {
            None
        } else {
            let (height, hash) = uncles[from];
            match self.block_at(height as int, hash) {
                None => Some(ShareChainError::BlockNotFound),
                Some(uncle) => match self.parent_of(uncle) {
                    None => Some(ShareChainError::BlockNotFound),
                    Some(parent) => match self.level(ChainView::below(height) as int) {
                        None => Some(ShareChainError::BlockLevelNotFound),
                        Some(parent_level) => if parent_level.chain_block != parent.hash {
                            Some(ShareChainError::UncleParentNotInMainChain)
                        } else if (self.level(height as int)->Some_0).chain_block == hash {
                            Some(ShareChainError::UncleInMainChain { height, hash })
                        } else {
                            self.uncle_fault(uncles, from + 1)
                        },
                    },
                },
            }
        }
    }

    /// The first `n` uncles that are not there, noted behind `missing`.
    pub open spec fn absent_uncles(
        self,
        uncles: Seq<(u64, BlockHash)>,
        n: int,
        missing: Seq<(BlockHash, u64)>,
    ) -> Seq<(BlockHash, u64)>
        decreases n,
    {
        if n <= 0 {
            missing
        } else {
            let before = self.absent_uncles(uncles, n - 1, missing);
            let (height, hash) = uncles[n - 1];
            if self.block_at(height as int, hash) is None {
                AddView::noted(before, hash, height)
            } else {
                before
            }
        }
    }

    /// Walks down from a block until a block of the main chain, the first block or the end of the share window.
    /// `counter` blocks have been passed. Tells whether all parents on the way are verified, and what is missing.
    pub open spec fn walked_down(self, block: BlockView, counter: int) -> (bool, Seq<(BlockHash, u64)>)
        decreases block.height,
    {
        if block.height == 0 {
            (true, Seq::empty())
        } else {
            match self.parent_of(block) {
                None => (true, seq![(block.prev_hash, (block.height - 1) as u64)]),
                Some(parent) => if !parent.verified {
                    let grandparent = if self.parent_of(parent) is None {
                        seq![(parent.prev_hash, ChainView::below(parent.height))]
                    } else {
                        Seq::empty()
                    };
                    (false, self.absent_uncles(parent.uncles, parent.uncles.len() as int, grandparent))
                } else if counter + 1 >= self.share_window || (self.level(block.height as int)->Some_0).chain_block
                    == block.hash || parent.height >= block.height {
                    (true, Seq::empty())
                } else {
                    self.walked_down(parent, counter + 1)
                },
            }
        }
    }

    /// The chain with `block` as its tip and no block above it in the main chain; what lies below is not linked
    /// to it yet.
    pub open spec fn switched(self, block: BlockView) -> ChainView {
        let place = block.height - self.base();
        ChainView {
            window: seq![(block.timestamp, block.target_difficulty)],
            cached_shares: None,
            current_tip: block.height,
            levels: Seq::new(
                self.levels.len(),
                |i: int|
                    if i < place {
                        self.levels[i]
                    } else if i == place {
                        LevelView { chain_block: block.hash, ..self.levels[i] }
                    } else {
                        LevelView { chain_block: FixedHash::spec_zero(), ..self.levels[i] }
                    },
            ),
            ..self
        }
    }

    /// Links the main chain below `block`, which is in it, and fills the window, down to the first block, the end
    /// of the levels or the end of the share window, of which `counter` blocks have been passed; or until the
    /// links and the window are right.
    pub open spec fn relinked(self, block: BlockView, counter: int) -> (ChainView, Option<ShareChainError>)
        decreases block.height,
    {
        if block.height == 0 {
            (self, None)
        } else {
            match self.level(block.height - 1) {
                None => (self, None),
                Some(level) => if block.prev_hash == level.chain_block && DifficultyWindow::full(self.window) {
                    (self, None)
                } else {
                    match BlockMap::find(level.blocks, block.prev_hash) {
                        None => (
                            self,
                            Some(
                                ShareChainError::ReorgParentMissing {
                                    height: (block.height - 1) as u64,
                                    hash: block.prev_hash,
                                },
                            ),
                        ),
                        Some(parent) => {
                            let linked = ChainView {
                                window: DifficultyWindow::older(
                                    self.window,
                                    parent.timestamp,
                                    parent.target_difficulty,
                                ),
                                ..self.with_chain_block(block.height - 1, block.prev_hash)
                            };
                            if parent.height == 0 || counter + 1 >= self.share_window || parent.height
                                >= block.height {
                                (linked, None)
                            } else {
                                linked.relinked(parent, counter + 1)
                            }
                        },
                    }
                },
            }
        }
    }

    /// One entry for each of the first `n` uncles of `block` that has the hash.
    pub open spec fn uncle_links(block: BlockView, hash: BlockHash, n: int) -> Seq<(u64, BlockHash)>
        decreases n,
    {
        if n <= 0 {
            Seq::empty()
        } else if block.uncles[n - 1].1 == hash {
            ChainView::uncle_links(block, hash, n - 1).push((block.height, block.hash))
        } else {
            ChainView::uncle_links(block, hash, n - 1)
        }
    }

    /// One entry for each way in which one of the first `n` blocks names the hash, as an uncle or as its parent.
    pub open spec fn block_links(blocks: Seq<BlockView>, hash: BlockHash, n: int) -> Seq<(u64, BlockHash)>
        decreases n,
    {
        if n <= 0 {
            Seq::empty()
        } else {
            let block = blocks[n - 1];
            let named = ChainView::block_links(blocks, hash, n - 1) + ChainView::uncle_links(
                block,
                hash,
                block.uncles.len() as int,
            );
            if block.prev_hash == hash {
                named.push((block.height, block.hash))
            } else {
                named
            }
        }
    }

    /// The blocks at a height that name the hash.
    pub open spec fn links_at(self, height: int, hash: BlockHash) -> Seq<(u64, BlockHash)> {
        match self.level(height) {
            Some(level) => ChainView::block_links(level.blocks, hash, level.blocks.len() as int),
            None => Seq::empty(),
        }
    }

    /// The blocks above a block, less than [`MAX_UNCLE_AGE`] levels up, that name it as an uncle or as their parent.
    pub open spec fn linked_to(self, height: int, hash: BlockHash) -> Seq<(u64, BlockHash)> {
        self.links_at(height + 1, hash) + self.links_at(height + 2, hash)
    }

    /// What becomes of a verified block and the main chain: the block is the first of the chain, or lies on the
    /// tip, or has more work below it than the tip, with nothing missing and nothing unverified on the way down.
    /// Else the main chain stays.
    pub open spec fn chosen(self, block: BlockView) -> (
        ChainView,
        Result<(AddView, Seq<(u64, BlockHash)>), ShareChainError>,
    ) {
        let height = block.height;
        let new_tip = AddView::tip(block.hash, height);
        if self.tip() is None && height == 0 {
            (self.advanced(block), Ok((new_tip, Seq::empty())))
        } else if self.tip() is Some && (self.tip()->Some_0).chain_block == block.prev_hash {
            match self.uncle_fault(block.uncles, 0) {
                Some(error) => (self, Err(error)),
                None => {
                    let next = self.advanced(block);
                    (next, Ok((new_tip, next.linked_to(height as int, block.hash))))
                },
            }
        } else {
            let (all_verified, missing) = self.walked_down(block, 1);
            if !all_verified || missing.len() > 0 {
                (self, Ok((AddView::lacking(missing), self.linked_to(height as int, block.hash))))
            } else if block.total_pow > self.tip_pow() {
                let (next, fault) = self.switched(block).relinked(block, 0);
                match fault {
                    Some(error) => (next, Err(error)),
                    None => (next, Ok((new_tip, next.linked_to(height as int, block.hash)))),
                }
            } else {
                (self, Ok((AddView::nothing(), self.linked_to(height as int, block.hash))))
            }
        }
    }

    /// What becomes of a block that has just been added, or of which something has: the new chain, and on success
    /// the outcome and the blocks to look at next.
    #[verifier::opaque]
    pub open spec fn step(self, height: u64, hash: BlockHash) -> (
        ChainView,
        Result<(AddView, Seq<(u64, BlockHash)>), ShareChainError>,
    ) {
        match self.block_at(height as int, hash) {
            None => (self, Err(ShareChainError::BlockNotFound)),
            Some(block) => {
                let missing = self.missing_links(block);
                if missing.len() > 0 {
                    (self, Ok((AddView::lacking(missing), self.linked_to(height as int, hash))))
                } else if block.verified {
                    self.chosen(block)
                } else {
                    match self.work_fault(block) {
                        Some(error) => (self, Err(error)),
                        None => self.marked(block).chosen(BlockView { verified: true, ..block }),
                    }
                }
            },
        }
    }

    /// The blocks to look at, with `more[from..]` behind them: none twice, and not `current`.
    pub open spec fn queued(
        work: Seq<(u64, BlockHash)>,
        more: Seq<(u64, BlockHash)>,
        from: int,
        current: (u64, BlockHash),
    ) -> Seq<(u64, BlockHash)>
        decreases more.len() - from,
    {
        if from < 0 || from >= more.len() {
            work
        } else if work.contains(more[from]) || more[from] == current {
            ChainView::queued(work, more, from + 1, current)
        } else {
            ChainView::queued(work.push(more[from]), more, from + 1, current)
        }
    }

    /// Looks at the blocks in `work` one after the other, and at those that each leads to, in at most `fuel` steps.
    /// `None` if that is too few.
    pub open spec fn run(self, work: Seq<(u64, BlockHash)>, outcome: AddView, fuel: nat) -> Option<
        (ChainView, Result<AddView, ShareChainError>),
    >
        decreases fuel,
    {
        if work.len() == 0 {
            Some((self, Ok(outcome)))
        } else if fuel == 0 {
            None
        } else {
            match self.step(work[0].0, work[0].1) {
                (next, Err(error)) => Some((next, Err(error))),
                (next, Ok((added, more))) => {
                    let outcome = outcome.combined(added);
                    if outcome.missing.len() >= MAX_MISSING_PARENTS {
                        Some((next, Ok(outcome)))
                    } else {
                        next.run(ChainView::queued(work.skip(1), more, 0, work[0]), outcome, (fuel - 1) as nat)
                    }
                },
            }
        }
    }

    /// The chain with one more level on top; the lowest leaves if there is no room.
    pub open spec fn pushed(self, level: LevelView) -> ChainView {
        if self.full() {
            ChainView { levels: self.levels.skip(1).push(level), ..self }
        } else {
            ChainView { levels: self.levels.push(level), ..self }
        }
    }

    /// The chain with empty levels on top, up to the one below `height`.
    pub open spec fn raised(self, height: int) -> ChainView
        decreases height - self.top(),
    {
        if self.levels.len() == 0 || self.top() >= height - 1 || self.top() >= u64::MAX {
            self
        } else {
            self.pushed(LevelView::empty((self.top() + 1) as u64)).raised(height)
        }
    }

    /// The chain with one more level below the others.
    pub open spec fn grounded(self, level: LevelView) -> ChainView {
        ChainView { levels: seq![level] + self.levels, ..self }
    }

    /// The chain with empty levels below, down to the one above `height`; `false` if there is no room for them.
    pub open spec fn lowered(self, height: int) -> (ChainView, bool)
        decreases self.base(),
    {
        if self.levels.len() == 0 || self.base() <= height + 1 || self.base() <= 0 {
            (self, true)
        } else if self.full() {
            (self, false)
        } else {
            self.grounded(LevelView::empty((self.base() - 1) as u64)).lowered(height)
        }
    }

    /// The chain with a block on the level of its height; levels between are filled in. `false` if the block lies
    /// below all others and there is no room for it.
    pub open spec fn placed(self, block: BlockView) -> (ChainView, bool) {
        if self.levels.len() == 0 {
            (ChainView { levels: seq![LevelView::of_block(block)], ..self }, true)
        } else {
            match self.level(block.height as int) {
                Some(level) => (
                    self.with_level(
                        block.height as int,
                        LevelView { blocks: BlockMap::with(level.blocks, block), ..level },
                    ),
                    true,
                ),
                None => if block.height > self.top() {
                    (self.raised(block.height as int).pushed(LevelView::of_block(block)), true)
                } else if self.full() {
                    (self, false)
                } else {
                    match self.lowered(block.height as int) {
                        (lower, true) => if lower.full() {
                            (lower, false)
                        } else {
                            (lower.grounded(LevelView::of_block(block)), true)
                        },
                        (lower, false) => (lower, false),
                    }
                },
            }
        }
    }

    /// The chain with no shares kept.
    pub open spec fn without_shares(self) -> ChainView {
        ChainView { cached_shares: None, ..self }
    }

    /// Puts a block on its level and looks at it and at what it leads to, in at most `fuel` steps. Shares that were kept
    /// are dropped, as the block may change them.
    pub open spec fn added(self, block: BlockView, fuel: nat) -> Option<
        (ChainView, Result<AddView, ShareChainError>),
    > {
        match self.without_shares().placed(block) {
            (next, true) => next.run(seq![(block.height, block.hash)], AddView::nothing(), fuel),
            (next, false) => Some((next, Ok(AddView::nothing()))),
        }
    }

    /// The chain with a block kept aside; the one that came first leaves if there are too many.
    pub open spec fn stored(self, block: BlockView) -> ChainView {
        let (store, order) = if self.sync_store.len() > MAX_SYNC_STORE && self.sync_order.len() > 0 {
            (BlockMap::without(self.sync_store, self.sync_order.last()), self.sync_order.drop_last())
        } else {
            (self.sync_store, self.sync_order)
        };
        ChainView { sync_store: BlockMap::with(store, block), sync_order: seq![block.hash] + order, ..self }
    }

    /// Hashes of the blocks of the store from `hash` downwards, at most `n`.
    pub open spec fn ancestors(store: Seq<BlockView>, hash: BlockHash, n: nat) -> Seq<BlockHash>
        decreases n,
    {
        if n == 0 {
            Seq::empty()
        } else {
            match BlockMap::find(store, hash) {
                None => Seq::empty(),
                Some(block) => seq![hash] + ChainView::ancestors(store, block.prev_hash, (n - 1) as nat),
            }
        }
    }

    /// The first block of `store[from..]` that lies on the one with the hash.
    pub open spec fn child(store: Seq<BlockView>, hash: BlockHash, from: int) -> Option<BlockView>
        decreases store.len() - from,
    {
        if from < 0 || from >= store.len() {
            None
        } else if store[from].prev_hash == hash {
            Some(store[from])
        } else {
            ChainView::child(store, hash, from + 1)
        }
    }

    /// Hashes of the blocks of the store from `hash` upwards, without the last, at most `n`.
    pub open spec fn descendants(store: Seq<BlockView>, hash: BlockHash, n: nat) -> Seq<BlockHash>
        decreases n,
    {
        if n == 0 {
            Seq::empty()
        } else {
            match ChainView::child(store, hash, 0) {
                None => Seq::empty(),
                Some(block) => seq![hash] + ChainView::descendants(store, block.hash, (n - 1) as nat),
            }
        }
    }

    /// The blocks of the store that link up with one of them: itself, those below it and those above it. A walk
    /// that passes more blocks than there are would pass one twice.
    pub open spec fn linked_up(store: Seq<BlockView>, block: BlockView) -> Seq<BlockHash> {
        seq![block.hash] + ChainView::ancestors(store, block.prev_hash, store.len()) + ChainView::descendants(
            store,
            block.hash,
            store.len(),
        )
    }

    /// Adds the blocks with the hashes `hashes[from..]` from the store, one after the other.
    pub open spec fn added_all(self, hashes: Seq<BlockHash>, from: int, outcome: AddView, fuel: nat) -> Option<
        (ChainView, Result<AddView, ShareChainError>),
    >
        decreases hashes.len() - from,
    {
        if from < 0 || from >= hashes.len() {
            Some((self, Ok(outcome)))
        } else {
            match BlockMap::find(self.sync_store, hashes[from]) {
                None => Some((self, Err(ShareChainError::BlockNotFound))),
                Some(block) => match self.added(block, fuel) {
                    None => None,
                    Some((next, Err(error))) => Some((next, Err(error))),
                    Some((next, Ok(more))) => next.added_all(hashes, from + 1, outcome.combined(more), fuel),
                },
            }
        }
    }

    /// Whether the parent of a block is in the main chain.
    pub open spec fn parent_in_main_chain(self, block: BlockView) -> bool {
        match self.block_at(ChainView::below(block.height) as int, block.prev_hash) {
            Some(parent) => (self.level(parent.height as int)->Some_0).chain_block == block.prev_hash,
            None => false,
        }
    }

    /// Of `uncles[from..]`, those that are not there, noted behind `missing`; or a fault, if one is in the main chain
    /// and the block's parent is too.
    pub open spec fn stored_uncles(
        self,
        uncles: Seq<(u64, BlockHash)>,
        from: int,
        on_main_chain: bool,
        missing: Seq<(BlockHash, u64)>,
    ) -> Result<Seq<(BlockHash, u64)>, ShareChainError>
        decreases uncles.len() - from,
    {
        if from < 0 || from >= uncles.len() {
            Ok(missing)
        } else {
            let (height, hash) = uncles[from];
            if self.block_at(height as int, hash) is None {
                self.stored_uncles(uncles, from + 1, on_main_chain, AddView::noted(missing, hash, height))
            } else if on_main_chain && (self.level(height as int)->Some_0).chain_block == hash {
                Err(ShareChainError::UncleInMainChain { height, hash })
            } else {
                self.stored_uncles(uncles, from + 1, on_main_chain, missing)
            }
        }
    }

    /// The outcome for a block that was kept aside: what it needs and is not there is noted.
    pub open spec fn stored_outcome(self, block: BlockView, outcome: AddView) -> Result<AddView, ShareChainError> {
        let below = ChainView::below(block.height);
        let missing = if self.block_at(below as int, block.prev_hash) is None {
            AddView::noted(outcome.missing, block.prev_hash, below)
        } else {
            outcome.missing
        };
        match self.stored_uncles(block.uncles, 0, self.parent_in_main_chain(block), missing) {
            Ok(missing) => Ok(AddView { missing, ..outcome }),
            Err(error) => Err(error),
        }
    }

    /// Height from which on blocks are kept aside.
    pub open spec fn horizon(self) -> int {
        (if self.levels.len() > 0 {
            self.base()
        } else {
            0
        }) + self.capacity()
    }

    /// An uncle of the block is its parent too.
    pub open spec fn uncle_is_parent(block: BlockView) -> bool {
        exists|i: int| 0 <= i < block.uncles.len() && (#[trigger] block.uncles[i]).1 == block.prev_hash
    }

    /// Adds a block. One too far in front is kept aside, and if enough of those link up they are added; any other
    /// goes to its level. One so high that it could never be let in is not even kept: what it lacks is noted, and the chain
    /// is as before. Each block that is added takes at most `fuel` steps; `None` if that is too few.
    pub open spec fn add_block(self, block: BlockView, fuel: nat) -> Option<
        (ChainView, Result<AddView, ShareChainError>),
    > {
        if !self.takes(block.height) {
            Some((self, self.stored_outcome(block, AddView::nothing())))
        } else if block.height >= self.horizon() {
            let kept = self.stored(block);
            let hashes = ChainView::linked_up(kept.sync_store, block);
            if hashes.len() > MIN_SYNC_CHAIN {
                match kept.added_all(hashes, 0, AddView::nothing(), fuel) {
                    None => None,
                    Some((next, Err(error))) => Some((next, Err(error))),
                    Some((next, Ok(outcome))) => Some((next, next.stored_outcome(block, outcome))),
                }
            } else {
                Some((kept, kept.stored_outcome(block, AddView::nothing())))
            }
        } else if ChainView::uncle_is_parent(block) {
            Some((self, Err(ShareChainError::InvalidBlock { reason: InvalidReason::UncleIsParent })))
        } else {
            self.added(block, fuel)
        }
    }
}

}
