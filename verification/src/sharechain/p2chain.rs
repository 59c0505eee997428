//! The chain of levels, and how a block finds its place in it.
use crate::sharechain::block_map::BlockMap;
use crate::sharechain::chain_model::{
    AddView, ChainView, MAX_EXTRA_SYNC, MAX_MISSING_PARENTS, MAX_UNCLE_AGE, SAFETY_MARGIN,
};
use crate::sharechain::difficulty_window::DifficultyWindow;
use crate::sharechain::error::ShareChainError;
use crate::sharechain::p2block::{share, P2Block};
use crate::sharechain::p2chain_level::{LevelView, P2ChainLevel};
use crate::sharechain::shares::ShareTable;
use crate::types::{AccumulatedDifficulty, FixedHash};
use std::collections::VecDeque;
use std::sync::Arc;
use vstd::prelude::*;

verus! {

/// What adding a block led to.
pub struct ChainAddResult {
    /// The new tip, if there is one.
    pub new_tip: Option<(FixedHash, u64)>,
    /// Blocks that were not found, each with its height; no hash occurs twice.
    pub missing_blocks: Vec<(FixedHash, u64)>,
}

impl View for ChainAddResult {
    type V = AddView;

    open spec fn view(&self) -> AddView {
        AddView { new_tip: self.new_tip, missing: self.missing_blocks@ }
    }
}

/// What a result holds.
pub open spec fn add_outcome(result: Result<ChainAddResult, ShareChainError>) -> Result<AddView, ShareChainError> {
    match result {
        Ok(added) => Ok(added@),
        Err(error) => Err(error),
    }
}

/// Notes one more missing block.
pub fn note_missing(missing: &mut Vec<(FixedHash, u64)>, hash: FixedHash, height: u64)
    requires
        AddView::distinct(old(missing)@),
    ensures
        final(missing)@ == AddView::noted(old(missing)@, hash, height),
        AddView::distinct(final(missing)@),
{
    proof {
        AddView::lemma_noted(missing@, hash, height);
    }
    let mut i: usize = 0;
    while i < missing.len()
        invariant
            i <= missing@.len(),
            missing@ == old(missing)@,
            AddView::distinct(missing@),
            AddView::distinct(AddView::noted(missing@, hash, height)),
            forall|j: int| 0 <= j < i ==> (#[trigger] missing@[j]).0 != hash,
        decreases missing@.len() - i,
    {
        if missing[i].0 == hash {
            proof {
                AddView::lemma_place(missing@, i as int);
            }
            missing.set(i, (hash, height));
            return;
        }
        i = i + 1;
    }
    missing.push((hash, height));
}

impl ChainAddResult {
    /// No new tip, nothing missing.
    pub fn empty() -> (result: ChainAddResult)
        ensures
            result@ == AddView::nothing(),
    {
        ChainAddResult { new_tip: None, missing_blocks: Vec::new() }
    }

    /// Takes over what another addition led to: the higher tip, and missing blocks until there are
    /// [`MAX_MISSING_PARENTS`].
    pub fn combine(&mut self, other: ChainAddResult)
        requires
            AddView::distinct(old(self)@.missing),
        ensures
            final(self)@ == old(self)@.combined(other@),
            AddView::distinct(final(self)@.missing),
    {
        match (self.new_tip, other.new_tip) {
            (Some(current_tip), Some(other_tip)) => {
                if other_tip.1 > current_tip.1 {
                    self.new_tip = Some(other_tip);
                }
            },
            (None, Some(new_tip)) => {
                self.new_tip = Some(new_tip);
            },
            _ => {},
        }
        let ghost target = AddView::noted_all(self.missing_blocks@, other.missing_blocks@, 0);
        let ghost tip = self.new_tip;
        let mut i: usize = 0;
        while i < other.missing_blocks.len() && self.missing_blocks.len() < MAX_MISSING_PARENTS
            invariant
                i <= other.missing_blocks@.len(),
                self.new_tip == tip,
                AddView::distinct(self.missing_blocks@),
                target == AddView::noted_all(self.missing_blocks@, other.missing_blocks@, i as int),
            decreases other.missing_blocks@.len() - i,
        {
            let (hash, height) = other.missing_blocks[i];
            note_missing(&mut self.missing_blocks, hash, height);
            i = i + 1;
        }
        proof {
            assert(self@ =~= old(self)@.combined(other@));
        }
    }

    /// Takes over a new tip if it is higher than the one known.
    pub fn set_new_tip(&mut self, hash: FixedHash, height: u64)
        ensures
            final(self)@ == (AddView {
                new_tip: AddView::higher_tip(old(self)@.new_tip, Some((hash, height))),
                ..old(self)@
            }),
    {
        match self.new_tip {
            Some((_, current_height)) => {
                if height > current_height {
                    self.new_tip = Some((hash, height));
                }
            },
            None => {
                self.new_tip = Some((hash, height));
            },
        }
    }

    /// The missing blocks, each as its height and its hash.
    pub fn into_missing_parents_vec(self) -> (missing: Vec<(u64, FixedHash)>)
        ensures
            missing@ == self@.parents(),
    {
        let mut missing: Vec<(u64, FixedHash)> = Vec::new();
        let mut i: usize = 0;
        while i < self.missing_blocks.len()
            invariant
                i <= self.missing_blocks@.len(),
                missing@.len() == i,
                forall|j: int|
                    0 <= j < i ==> missing@[j] == ((#[trigger] self.missing_blocks@[j]).1, self.missing_blocks@[j].0),
            decreases self.missing_blocks@.len() - i,
        {
            let (hash, height) = self.missing_blocks[i];
            missing.push((height, hash));
            i = i + 1;
        }
        proof {
            assert(missing@ =~= self@.parents());
        }
        missing
    }
}

/// The share chain: all known blocks near the tip, ordered by height, and the main chain among them.
pub struct P2Chain {
    /// Time between blocks that the chain aims at, in seconds.
    pub block_time: u64,
    /// Shares that were worked out for the tip.
    pub cached_shares: Option<ShareTable>,
    /// The levels, lowest first.
    pub levels: Vec<P2ChainLevel>,
    /// How many levels below the tip are kept.
    pub total_size: u64,
    /// How many blocks below the tip count.
    pub share_window: u64,
    /// Height of the tip.
    pub current_tip: u64,
    /// Time and target of the latest blocks of the main chain.
    pub lwma: DifficultyWindow,
    /// Blocks kept aside, too far in front to be in a level.
    pub sync_store: BlockMap,
    /// Hashes of the blocks kept aside, latest first.
    pub sync_store_fifo_list: VecDeque<FixedHash>,
}

impl View for P2Chain {
    type V = ChainView;

    open spec fn view(&self) -> ChainView {
        ChainView {
            block_time: self.block_time,
            cached_shares: match self.cached_shares {
                Some(shares) => Some(shares@),
                None => None,
            },
            levels: self.levels@.map_values(|l: P2ChainLevel| l@),
            total_size: self.total_size,
            share_window: self.share_window,
            current_tip: self.current_tip,
            window: self.lwma@,
            sync_store: self.sync_store@,
            sync_order: self.sync_store_fifo_list@,
        }
    }
}

/// The height below, or zero.
pub(crate) fn below(height: u64) -> (lower: u64)
    ensures
        lower == ChainView::below(height),
{
    if height == 0 {
        0
    } else {
        height - 1
    }
}

impl P2Chain {
    /// The levels lie one above the other, each is well formed, and all heights leave room for sums.
    pub open spec fn ordered(&self) -> bool {
        self@.ordered()
    }

    /// The chain is in order, and the shares that are kept are those of the share window.
    pub open spec fn wf(&self) -> bool {
        self@.wf()
    }

    /// An empty chain.
    pub fn new_empty(total_size: u64, share_window: u64, block_time: u64) -> (chain: Self)
        requires
            total_size + SAFETY_MARGIN + MAX_EXTRA_SYNC <= u64::MAX,
        ensures
            chain.wf(),
            chain@ == ChainView::fresh(total_size, share_window, block_time),
    {
        let chain = P2Chain {
            block_time,
            cached_shares: None,
            levels: Vec::new(),
            total_size,
            share_window,
            current_tip: 0,
            lwma: DifficultyWindow::new(),
            sync_store: BlockMap::new(),
            sync_store_fifo_list: VecDeque::new(),
        };
        assert(chain@.levels =~= Seq::<LevelView>::empty());
        chain
    }

    pub(crate) fn place_of(&self, height: u64) -> (place: Option<usize>)
        requires
            self.ordered(),
        ensures
            place is Some <==> self@.level(height as int) is Some,
            place matches Some(i) ==> i < self.levels@.len() && i == height - self@.base() && self@.level(
                height as int,
            ) == Some(self.levels@[i as int]@),
    {
        if self.levels.len() == 0 {
            return None;
        }
        let base: u64 = self.levels[0].height;
        assert(self@.levels[0] == self.levels@[0]@);
        if height < base || height - base >= self.levels.len() as u64 {
            return None;
        }
        let place: usize = (height - base) as usize;
        assert(self@.levels[place as int] == self.levels@[place as int]@);
        Some(place)
    }

    /// The level at a height.
    pub fn level_at_height(&self, height: u64) -> (level: Option<&P2ChainLevel>)
        requires
            self.ordered(),
        ensures
            level is Some <==> self@.level(height as int) is Some,
            level matches Some(l) ==> self@.level(height as int) == Some(l@) && l@.wf() && l@.height == height,
    {
        match self.place_of(height) {
            Some(place) => {
                proof {
                    self@.lemma_level(height as int);
                }
                Some(&self.levels[place])
            },
            None => None,
        }
    }

    /// The block at a height that has the hash.
    pub fn get_block_at_height(&self, height: u64, hash: &FixedHash) -> (block: Option<&Arc<P2Block>>)
        requires
            self.ordered(),
        ensures
            block is Some <==> self@.block_at(height as int, *hash) is Some,
            block matches Some(b) ==> self@.block_at(height as int, *hash) == Some(b@),
    {
        match self.level_at_height(height) {
            Some(level) => level.get(hash),
            None => None,
        }
    }

    /// The block of the main chain at a height.
    pub fn get_chain_block_at_height(&self, height: u64) -> (block: Option<&Arc<P2Block>>)
        requires
            self.ordered(),
        ensures
            block is Some <==> self@.level(height as int) is Some && (self@.level(
                height as int,
            )->Some_0).main_block() is Some,
            block matches Some(b) ==> (self@.level(height as int)->Some_0).main_block() == Some(b@),
    {
        match self.level_at_height(height) {
            Some(level) => level.block_in_main_chain(),
            None => None,
        }
    }

    /// The parent of a block.
    pub fn get_parent_block(&self, block: &P2Block) -> (parent: Option<&Arc<P2Block>>)
        requires
            self.ordered(),
        ensures
            parent is Some <==> self@.parent_of(block@) is Some,
            parent matches Some(p) ==> self@.parent_of(block@) == Some(p@),
    {
        if block.height == 0 {
            return None;
        }
        self.get_block_at_height(block.height - 1, &block.prev_hash)
    }

    /// The level of the tip.
    pub fn get_tip(&self) -> (level: Option<&P2ChainLevel>)
        requires
            self.ordered(),
        ensures
            level is Some <==> self@.tip() is Some,
            level matches Some(l) ==> self@.tip() == Some(l@) && l@.wf() && l@.height == self@.current_tip,
    {
        match self.level_at_height(self.current_tip) {
            Some(level) => {
                if level.chain_block == FixedHash::zero() {
                    None
                } else {
                    Some(level)
                }
            },
            None => None,
        }
    }

    /// Height of the tip; zero if there is none.
    pub fn get_height(&self) -> (height: u64)
        requires
            self.ordered(),
        ensures
            height == (if self@.tip() is Some {
                self@.current_tip
            } else {
                0
            }),
    {
        match self.get_tip() {
            Some(tip) => tip.height,
            None => 0,
        }
    }

    /// How far the tip is above the lowest level.
    pub fn get_max_chain_length(&self) -> (length: u64)
        ensures
            length == ({
                let base = if self@.levels.len() > 0 {
                    self@.base()
                } else {
                    0
                };
                if self@.current_tip >= base {
                    self@.current_tip - base
                } else {
                    0
                }
            }),
    {
        let first_index: u64 = self.lowest_height();
        if self.current_tip >= first_index {
            self.current_tip - first_index
        } else {
            0
        }
    }

    /// Height of the lowest level; zero if there is none.
    pub fn lowest_height(&self) -> (height: u64)
        ensures
            height == (if self@.levels.len() > 0 {
                self@.base()
            } else {
                0
            }),
    {
        if self.levels.len() > 0 {
            assert(self@.levels[0] == self.levels@[0]@);
            self.levels[0].height
        } else {
            0
        }
    }

    /// The work of the main chain.
    pub fn total_accumulated_tip_difficulty(&self) -> (total: AccumulatedDifficulty)
        requires
            self.ordered(),
        ensures
            total@ == self@.tip_pow(),
    {
        match self.get_tip() {
            Some(tip) => match tip.block_in_main_chain() {
                Some(block) => block.total_pow(),
                None => AccumulatedDifficulty::min(),
            },
            None => AccumulatedDifficulty::min(),
        }
    }

    /// Whether there is no room for another level. Ideally this limit should not ever be reached.
    pub fn is_full(&self) -> (full: bool)
        requires
            self@.capacity() <= u64::MAX,
        ensures
            full == self@.full(),
    {
        self.levels.len() as u64 >= self.total_size + SAFETY_MARGIN + MAX_EXTRA_SYNC
    }

    fn set_chain_block_at(&mut self, height: u64, hash: FixedHash)
        requires
            old(self).ordered(),
            old(self)@.level(height as int) is Some,
        ensures
            final(self).ordered(),
            final(self)@ == old(self)@.with_chain_block(height as int, hash),
    {
        proof {
            self@.lemma_with_chain_block(height as int, hash);
        }
        match self.place_of(height) {
            Some(place) => {
                self.levels[place].set_chain_block(hash);
                proof {
                    assert(self@.levels =~= old(self)@.with_chain_block(height as int, hash).levels);
                }
            },
            None => {},
        }
    }

    pub(crate) fn put_block_at(&mut self, block: Arc<P2Block>)
        requires
            old(self).ordered(),
            old(self)@.level(block@.height as int) is Some,
        ensures
            final(self)@ == old(self)@.with_level(
                block@.height as int,
                LevelView {
                    blocks: BlockMap::with((old(self)@.level(block@.height as int)->Some_0).blocks, block@),
                    ..old(self)@.level(block@.height as int)->Some_0
                },
            ),
            final(self).ordered(),
    {
        let height: u64 = block.height;
        let ghost target = LevelView {
            blocks: BlockMap::with((self@.level(height as int)->Some_0).blocks, block@),
            ..self@.level(height as int)->Some_0
        };
        proof {
            self@.lemma_level(height as int);
            (self@.level(height as int)->Some_0).lemma_with(block@);
            self@.lemma_with_level(height as int, target);
        }
        match self.place_of(height) {
            Some(place) => {
                let _added = self.levels[place].add_block(block);
                proof {
                    assert(self@.levels =~= old(self)@.with_level(height as int, target).levels);
                }
            },
            None => {},
        }
    }

    /// Drops levels that are too far below the tip.
    fn cleanup_chain(&mut self)
        requires
            old(self).ordered(),
            old(self)@.level(old(self)@.current_tip as int) is Some,
        ensures
            final(self)@ == old(self)@.trimmed(),
            final(self).ordered(),
    {
        proof {
            self@.lemma_trimmed();
            self@.lemma_level(self@.current_tip as int);
        }
        let first_index: u64 = self.lowest_height();
        let limit: u64 = self.total_size + SAFETY_MARGIN;
        if self.current_tip - first_index > limit {
            let count: usize = self.levels.len();
            assert(count == self@.levels.len());
            let excess: usize = (self.current_tip - first_index - limit) as usize;
            let kept = self.levels.split_off(excess);
            self.levels = kept;
            proof {
                assert(excess < count);
                assert(self@.levels =~= old(self)@.trimmed().levels);
            }
        }
    }

    /// Makes a block of the chain the tip.
    fn set_new_tip(&mut self, block: &Arc<P2Block>)
        requires
            old(self).ordered(),
            old(self)@.level(block@.height as int) is Some,
        ensures
            final(self)@ == old(self)@.advanced(block@),
            final(self).ordered(),
    {
        proof {
            self@.lemma_with_chain_block(block@.height as int, block@.hash);
            let level = LevelView { chain_block: block@.hash, ..self@.level(block@.height as int)->Some_0 };
            self@.lemma_level(block@.height as int);
            self@.lemma_with_level(block@.height as int, level);
        }
        self.set_chain_block_at(block.height, block.hash);
        self.lwma.add_back(block.timestamp, block.target_difficulty().as_u64());
        self.current_tip = block.height;
        self.cached_shares = None;
        assert(self@.levels == old(self)@.with_chain_block(block@.height as int, block@.hash).levels);
        assert(self@.level(block@.height as int) is Some);
        self.cleanup_chain();
    }

    /// What a block needs and is not there.
    fn missing_links(&self, block: &P2Block) -> (missing: Vec<(FixedHash, u64)>)
        requires
            self.ordered(),
        ensures
            missing@ == self@.missing_links(block@),
            AddView::distinct(missing@),
    {
        let mut missing: Vec<(FixedHash, u64)> = Vec::new();
        if block.height == 0 {
            return missing;
        }
        if self.get_parent_block(block).is_none() {
            missing.push((block.prev_hash, block.height - 1));
        }
        let ghost start = missing@;
        let mut i: usize = 0;
        while i < block.uncles.len()
            invariant
                i <= block.uncles@.len(),
                self.ordered(),
                AddView::distinct(missing@),
                missing@ == self@.missing_uncles(block.uncles@, i as int, start),
            decreases block.uncles@.len() - i,
        {
            let (uncle_height, uncle_hash) = block.uncles[i];
            match self.get_block_at_height(uncle_height, &uncle_hash) {
                Some(uncle) => {
                    if self.get_parent_block(uncle).is_none() {
                        note_missing(&mut missing, uncle.prev_hash, below(uncle.height));
                    }
                },
                None => {
                    note_missing(&mut missing, uncle_hash, uncle_height);
                },
            }
            i = i + 1;
        }
        proof {
            let parent = if self@.parent_of(block@) is None {
                seq![(block@.prev_hash, (block@.height - 1) as u64)]
            } else {
                Seq::empty()
            };
            assert(start =~= parent);
        }
        missing
    }

    /// The work of a block and its uncles.
    fn own_work(&self, block: &P2Block) -> (work: Result<AccumulatedDifficulty, ShareChainError>)
        requires
            self.ordered(),
        ensures
            match work {
                Ok(total) => self@.own_work(block@, block@.uncles.len() as int) == Ok::<int, ShareChainError>(
                    total@ as int,
                ),
                Err(error) => self@.own_work(block@, block@.uncles.len() as int) == Err::<int, ShareChainError>(error),
            },
    {
        let mut total = AccumulatedDifficulty::from_difficulty(block.target_difficulty());
        let mut i: usize = 0;
        while i < block.uncles.len()
            invariant
                i <= block.uncles@.len(),
                self.ordered(),
                self@.own_work(block@, i as int) == Ok::<int, ShareChainError>(total@ as int),
            decreases block.uncles@.len() - i,
        {
            let (uncle_height, uncle_hash) = block.uncles[i];
            let uncle = match self.get_block_at_height(uncle_height, &uncle_hash) {
                Some(uncle) => uncle,
                None => {
                    proof {
                        self@.lemma_own_work_fails(block@, i + 1, block@.uncles.len() as int);
                    }
                    return Err(ShareChainError::BlockNotFound);
                },
            };
            match total.checked_add_difficulty(uncle.target_difficulty()) {
                Some(sum) => {
                    total = sum;
                },
                None => {
                    proof {
                        self@.lemma_own_work_fails(block@, i + 1, block@.uncles.len() as int);
                    }
                    return Err(ShareChainError::DifficultyOverflow);
                },
            }
            i = i + 1;
        }
        Ok(total)
    }

    /// What is wrong with the total work of a block, if anything.
    fn work_fault(&self, block: &P2Block) -> (fault: Option<ShareChainError>)
        requires
            self.ordered(),
        ensures
            fault == self@.work_fault(block@),
    {
        let work: u128 = match self.own_work(block) {
            Ok(total) => total.as_u128(),
            Err(error) => {
                return Some(error);
            },
        };
        let claimed: u128 = block.total_pow().as_u128();
        // special edge case for start, there is no parent
        if block.height == 0 {
            if claimed != work {
                return Some(ShareChainError::BlockTotalWorkMismatch);
            }
            return None;
        }
        match self.get_parent_block(block) {
            None => Some(ShareChainError::BlockNotFound),
            Some(parent) => {
                let below_work: u128 = parent.total_pow().as_u128();
                if claimed < below_work || claimed - below_work != work {
                    Some(ShareChainError::BlockTotalWorkMismatch)
                } else {
                    None
                }
            },
        }
    }

    /// The first fault among the uncles of a block on top of the tip.
    fn uncle_fault(&self, block: &P2Block) -> (fault: Option<ShareChainError>)
        requires
            self.ordered(),
        ensures
            fault == self@.uncle_fault(block@.uncles, 0),
    {
        let mut i: usize = 0;
        while i < block.uncles.len()
            invariant
                i <= block.uncles@.len(),
                self.ordered(),
                self@.uncle_fault(block@.uncles, 0) == self@.uncle_fault(block@.uncles, i as int),
            decreases block.uncles@.len() - i,
        {
            let (height, hash) = block.uncles[i];
            let uncle = match self.get_block_at_height(height, &hash) {
                Some(uncle) => uncle,
                None => {
                    return Some(ShareChainError::BlockNotFound);
                },
            };
            let parent = match self.get_parent_block(uncle) {
                Some(parent) => parent,
                None => {
                    return Some(ShareChainError::BlockNotFound);
                },
            };
            match self.level_at_height(below(height)) {
                Some(level) => {
                    if level.chain_block != parent.hash {
                        return Some(ShareChainError::UncleParentNotInMainChain);
                    }
                },
                None => {
                    return Some(ShareChainError::BlockLevelNotFound);
                },
            }
            if self.is_chain_block(height, hash) {
                return Some(ShareChainError::UncleInMainChain { height, hash });
            }
            i = i + 1;
        }
        None
    }

    /// Whether the main chain has the hash at a height.
    pub(crate) fn is_chain_block(&self, height: u64, hash: FixedHash) -> (found: bool)
        requires
            self.ordered(),
        ensures
            self@.level(height as int) is Some ==> found == ((self@.level(height as int)->Some_0).chain_block == hash),
            self@.level(height as int) is None ==> !found,
    {
        match self.level_at_height(height) {
            Some(level) => level.chain_block == hash,
            None => false,
        }
    }

    /// Walks down from a block and tells whether all parents on the way are verified, and what is missing.
    fn walk_down(&self, block: &Arc<P2Block>) -> (found: (bool, Vec<(FixedHash, u64)>))
        requires
            self.ordered(),
            self@.level(block@.height as int) is Some,
        ensures
            (found.0, found.1@) == self@.walked_down(block@, 1),
            AddView::distinct(found.1@),
    {
        let mut missing: Vec<(FixedHash, u64)> = Vec::new();
        let mut current = share(block);
        let mut counter: u64 = 1;
        loop
            invariant
                self.ordered(),
                missing@ == Seq::<(FixedHash, u64)>::empty(),
                1 <= counter,
                counter == 1 || counter < self.share_window,
                self@.level(current@.height as int) is Some,
                self@.walked_down(block@, 1) == self@.walked_down(current@, counter as int),
            decreases current@.height,
        {
            if current.height == 0 {
                return (true, missing);
            }
            let parent = match self.get_parent_block(&current) {
                Some(parent) => share(parent),
                None => {
                    missing.push((current.prev_hash, current.height - 1));
                    assert(missing@ =~= seq![(current@.prev_hash, (current@.height - 1) as u64)]);
                    return (true, missing);
                },
            };
            proof {
                self@.lemma_block(current@.height - 1, current@.prev_hash);
            }
            if !parent.verified {
                // this block is unverified, we cannot count it; it might just miss some blocks to ask for
                if self.get_parent_block(&parent).is_none() {
                    missing.push((parent.prev_hash, below(parent.height)));
                }
                let ghost start = missing@;
                let mut i: usize = 0;
                while i < parent.uncles.len()
                    invariant
                        i <= parent.uncles@.len(),
                        self.ordered(),
                        AddView::distinct(missing@),
                        missing@ == self@.absent_uncles(parent.uncles@, i as int, start),
                    decreases parent.uncles@.len() - i,
                {
                    let (uncle_height, uncle_hash) = parent.uncles[i];
                    if self.get_block_at_height(uncle_height, &uncle_hash).is_none() {
                        note_missing(&mut missing, uncle_hash, uncle_height);
                    }
                    i = i + 1;
                }
                proof {
                    let grandparent = if self@.parent_of(parent@) is None {
                        seq![(parent@.prev_hash, ChainView::below(parent@.height))]
                    } else {
                        Seq::empty()
                    };
                    assert(start =~= grandparent);
                }
                return (false, missing);
            }
            if counter >= self.share_window || counter + 1 >= self.share_window {
                return (true, missing);
            }
            if self.is_chain_block(current.height, current.hash) {
                return (true, missing);
            }
            counter = counter + 1;
            current = parent;
        }
    }

    /// Makes a block that is not on the tip the tip, and relinks the main chain below it.
    fn reorg(&mut self, block: &Arc<P2Block>) -> (fault: Option<ShareChainError>)
        requires
            old(self).ordered(),
            old(self)@.level(block@.height as int) is Some,
        ensures
            (final(self)@, fault) == old(self)@.switched(block@).relinked(block@, 0),
            final(self).ordered(),
    {
        proof {
            self@.lemma_switched(block@);
            self@.lemma_level(block@.height as int);
        }
        let ghost before = self@;
        let place: usize = match self.place_of(block.height) {
            Some(place) => place,
            None => 0,
        };
        let count: usize = self.levels.len();
        assert(place < count);
        // start by resetting the window
        self.lwma = DifficultyWindow::new();
        self.lwma.add_front(block.timestamp, block.target_difficulty().as_u64());
        self.cached_shares = None;
        self.current_tip = block.height;
        self.levels[place].set_chain_block(block.hash);
        // go up and reset all chain block links
        let mut i: usize = place + 1;
        while i < self.levels.len()
            invariant
                place < i <= self.levels@.len(),
                self.levels@.len() == before.levels.len(),
                place == block@.height - before.base(),
                forall|j: int|
                    0 <= j < self.levels@.len() ==> (#[trigger] self.levels@[j])@ == (if j < place {
                        before.levels[j]
                    } else if j == place {
                        LevelView { chain_block: block@.hash, ..before.levels[j] }
                    } else if j < i {
                        LevelView { chain_block: FixedHash::spec_zero(), ..before.levels[j] }
                    } else {
                        before.levels[j]
                    }),
                self@ == (ChainView {
                    levels: self@.levels,
                    window: seq![(block@.timestamp, block@.target_difficulty)],
                    cached_shares: None,
                    current_tip: block@.height,
                    ..before
                }),
            decreases self.levels@.len() - i,
        {
            self.levels[i].set_chain_block(FixedHash::zero());
            i = i + 1;
        }
        proof {
            assert(self@.levels =~= before.switched(block@).levels);
            assert(self@ =~= before.switched(block@));
        }
        self.relink(block)
    }

    /// Links the main chain below a block that is in it, and fills the window.
    fn relink(&mut self, block: &Arc<P2Block>) -> (fault: Option<ShareChainError>)
        requires
            old(self).ordered(),
            old(self)@.level(block@.height as int) is Some,
        ensures
            (final(self)@, fault) == old(self)@.relinked(block@, 0),
            final(self).ordered(),
    {
        let mut current = share(block);
        let mut counter: u64 = 0;
        loop
            invariant
                self.ordered(),
                self.share_window == old(self).share_window,
                counter == 0 || counter < self.share_window,
                old(self)@.relinked(block@, 0) == self@.relinked(current@, counter as int),
            decreases current@.height,
        {
            if current.height == 0 {
                return None;
            }
            let height: u64 = current.height - 1;
            let parent = match self.level_at_height(height) {
                None => {
                    return None;
                },
                Some(level) => {
                    if current.prev_hash == level.chain_block && self.lwma.is_full() {
                        return None;
                    }
                    match level.get(&current.prev_hash) {
                        Some(parent) => share(parent),
                        None => {
                            return Some(ShareChainError::ReorgParentMissing { height, hash: current.prev_hash });
                        },
                    }
                },
            };
            proof {
                self@.lemma_level(height as int);
                (self@.level(height as int)->Some_0).lemma_found(current@.prev_hash);
            }
            let ghost before = self@;
            self.set_chain_block_at(height, current.prev_hash);
            self.lwma.add_front(parent.timestamp, parent.target_difficulty().as_u64());
            proof {
                assert(self@ =~= ChainView {
                    window: DifficultyWindow::older(before.window, parent@.timestamp, parent@.target_difficulty),
                    ..before.with_chain_block(height as int, current@.prev_hash)
                });
            }
            if parent.height == 0 || counter >= self.share_window || counter + 1 >= self.share_window {
                return None;
            }
            counter = counter + 1;
            current = parent;
        }
    }

    /// The blocks at a height that name the hash, as an uncle or as their parent.
    fn links_at(&self, height: u64, hash: FixedHash) -> (links: Vec<(u64, FixedHash)>)
        requires
            self.ordered(),
        ensures
            links@ == self@.links_at(height as int, hash),
    {
        let mut links: Vec<(u64, FixedHash)> = Vec::new();
        let level = match self.level_at_height(height) {
            Some(level) => level,
            None => {
                return links;
            },
        };
        let mut i: usize = 0;
        while i < level.blocks.blocks.len()
            invariant
                i <= level.blocks.blocks@.len(),
                links@ == ChainView::block_links(level@.blocks, hash, i as int),
            decreases level.blocks.blocks@.len() - i,
        {
            let block = &level.blocks.blocks[i];
            assert(level@.blocks[i as int] == block@);
            let ghost start = links@;
            let mut j: usize = 0;
            while j < block.uncles.len()
                invariant
                    j <= block.uncles@.len(),
                    links@ == start + ChainView::uncle_links(block@, hash, j as int),
                decreases block.uncles@.len() - j,
            {
                if block.uncles[j].1 == hash {
                    links.push((block.height, block.hash));
                }
                j = j + 1;
                proof {
                    assert(links@ =~= start + ChainView::uncle_links(block@, hash, j as int));
                }
            }
            if block.prev_hash == hash {
                links.push((block.height, block.hash));
            }
            i = i + 1;
        }
        links
    }

    /// The blocks above a block, less than [`MAX_UNCLE_AGE`] levels up, that name it.
    fn calculate_next_level_data(&self, height: u64, hash: FixedHash) -> (links: Vec<(u64, FixedHash)>)
        requires
            self.ordered(),
            height + MAX_UNCLE_AGE <= u64::MAX,
        ensures
            links@ == self@.linked_to(height as int, hash),
    {
        let mut links: Vec<(u64, FixedHash)> = Vec::new();
        let mut check_height: u64 = height + 1;
        while check_height < height + MAX_UNCLE_AGE
            invariant
                self.ordered(),
                height + MAX_UNCLE_AGE <= u64::MAX,
                height + 1 <= check_height <= height + MAX_UNCLE_AGE,
                check_height == height + 1 ==> links@ == Seq::<(u64, FixedHash)>::empty(),
                check_height == height + 2 ==> links@ == self@.links_at(height + 1, hash),
                check_height == height + 3 ==> links@ == self@.linked_to(height as int, hash),
            decreases height + MAX_UNCLE_AGE - check_height,
        {
            let mut more = self.links_at(check_height, hash);
            links.append(&mut more);
            check_height = check_height + 1;
            proof {
                if check_height == height + 2 {
                    assert(links@ =~= self@.links_at(height + 1, hash));
                }
            }
        }
        links
    }

    /// What becomes of a verified block and the main chain.
    fn choose_tip(&mut self, block: &Arc<P2Block>) -> (result: Result<
        (ChainAddResult, Vec<(u64, FixedHash)>),
        ShareChainError,
    >)
        requires
            old(self).ordered(),
            old(self)@.level(block@.height as int) is Some,
        ensures
            final(self).ordered(),
            final(self)@ == old(self)@.chosen(block@).0,
            match result {
                Ok((added, more)) => old(self)@.chosen(block@).1 == Ok::<_, ShareChainError>((added@, more@))
                    && AddView::distinct(added@.missing),
                Err(error) => old(self)@.chosen(block@).1 == Err::<(AddView, Seq<(u64, FixedHash)>), _>(error),
            },
    {
        proof {
            self@.lemma_chosen(block@);
            self@.lemma_level(block@.height as int);
        }
        let height: u64 = block.height;
        let hash: FixedHash = block.hash;
        let mut new_tip = ChainAddResult::empty();
        let on_tip = match self.get_tip() {
            Some(tip) => Some(tip.chain_block == block.prev_hash),
            None => None,
        };
        // edge case for chain start
        if on_tip.is_none() && height == 0 {
            self.set_new_tip(block);
            new_tip.set_new_tip(hash, height);
            return Ok((new_tip, Vec::new()));
        }
        if let Some(true) = on_tip {
            // easy, this builds on the tip
            match self.uncle_fault(block) {
                Some(error) => {
                    return Err(error);
                },
                None => {},
            }
            self.set_new_tip(block);
            new_tip.set_new_tip(hash, height);
        } else {
            let (all_blocks_verified, missing) = self.walk_down(block);
            if !all_blocks_verified || missing.len() > 0 {
                let next_level_data = self.calculate_next_level_data(height, hash);
                new_tip.missing_blocks = missing;
                return Ok((new_tip, next_level_data));
            }
            if block.total_pow().as_u128() > self.total_accumulated_tip_difficulty().as_u128() {
                new_tip.set_new_tip(hash, height);
                match self.reorg(block) {
                    Some(error) => {
                        return Err(error);
                    },
                    None => {},
                }
            }
        }
        let next_level_data = self.calculate_next_level_data(height, hash);
        Ok((new_tip, next_level_data))
    }

    /// Looks at one block: tells what it lacks, or checks its work and lets it take its place.
    fn verify_chain_inner(&mut self, new_block_height: u64, hash: FixedHash) -> (result: Result<
        (ChainAddResult, Vec<(u64, FixedHash)>),
        ShareChainError,
    >)
        requires
            old(self).ordered(),
        ensures
            final(self).ordered(),
            final(self)@ == old(self)@.step(new_block_height, hash).0,
            match result {
                Ok((added, more)) => old(self)@.step(new_block_height, hash).1 == Ok::<_, ShareChainError>(
                    (added@, more@),
                ) && AddView::distinct(added@.missing),
                Err(error) => old(self)@.step(new_block_height, hash).1 == Err::<
                    (AddView, Seq<(u64, FixedHash)>),
                    _,
                >(error),
            },
    {
        proof {
            reveal(ChainView::step);
            self@.lemma_step(new_block_height, hash);
        }
        let block = match self.get_block_at_height(new_block_height, &hash) {
            Some(block) => share(block),
            None => {
                return Err(ShareChainError::BlockNotFound);
            },
        };
        proof {
            self@.lemma_block(new_block_height as int, hash);
            self@.lemma_level(new_block_height as int);
        }
        let missing = self.missing_links(&block);
        if missing.len() > 0 {
            let next_level_data = self.calculate_next_level_data(new_block_height, hash);
            return Ok((ChainAddResult { new_tip: None, missing_blocks: missing }, next_level_data));
        }
        if block.verified {
            return self.choose_tip(&block);
        }
        match self.work_fault(&block) {
            Some(error) => Err(error),
            None => {
                proof {
                    self@.lemma_marked(block@);
                    self@.marked(block@).lemma_block(new_block_height as int, hash);
                }
                let verified = Arc::new(block.to_verified());
                self.put_block_at(share(&verified));
                self.choose_tip(&verified)
            },
        }
    }

    /// Looks at a block and at all those that it leads to.
    pub(crate) fn verify_chain(&mut self, new_block_height: u64, hash: FixedHash) -> (result: Result<
        ChainAddResult,
        ShareChainError,
    >)
        requires
            old(self).ordered(),
        ensures
            final(self).ordered(),
            final(self)@.sync_store == old(self)@.sync_store,
            final(self)@.total_size == old(self)@.total_size,
            exists|fuel: nat| #[trigger]
                old(self)@.run(seq![(new_block_height, hash)], AddView::nothing(), fuel) == Some(
                    (final(self)@, add_outcome(result)),
                ),
            result matches Ok(added) ==> AddView::distinct(added@.missing),
    {
        let ghost start = self@;
        let ghost first = seq![(new_block_height, hash)];
        let ghost m = self@.lemma_names_bounded();
        let ghost top = self@.top();
        let ghost steps: nat = 0;
        let mut next_level: Vec<(u64, FixedHash)> = Vec::new();
        next_level.push((new_block_height, hash));
        let mut new_tip = ChainAddResult::empty();
        assert(next_level@ =~= first);
        while next_level.len() > 0
            invariant
                self.ordered(),
                self@.names_at_most(m),
                self@.levels.len() > 0 ==> self@.top() == top,
                self@.sync_store == start.sync_store,
                self@.total_size == start.total_size,
                AddView::distinct(new_tip@.missing),
                forall|f: nat| #[trigger]
                    self@.run(next_level@, new_tip@, f) == start.run(first, AddView::nothing(), f + steps),
                start == old(self)@,
                first == seq![(new_block_height, hash)],
            decreases ChainView::weight(next_level@, top, 2 * m + 1),
        {
            let (next_height, next_hash) = next_level[0];
            let ghost work = next_level@;
            let ghost before = self@;
            let ghost outcome = new_tip@;
            proof {
                self@.lemma_step(next_height, next_hash);
                if self@.block_at(next_height as int, next_hash) is Some {
                    self@.lemma_step_links(next_height, next_hash, m);
                    self@.lemma_block(next_height as int, next_hash);
                    self@.lemma_level(next_height as int);
                }
            }
            match self.verify_chain_inner(next_height, next_hash) {
                Ok((add_result, do_next_level)) => {
                    let ghost added = add_result@;
                    new_tip.combine(add_result);
                    if new_tip.missing_blocks.len() >= MAX_MISSING_PARENTS {
                        proof {
                            assert(before.run(work, outcome, 1) == Some((self@, Ok::<_, ShareChainError>(new_tip@))));
                            assert(start.run(first, AddView::nothing(), 1 + steps) == Some(
                                (self@, Ok::<_, ShareChainError>(new_tip@)),
                            ));
                        }
                        return Ok(new_tip);
                    }
                    let rest = Self::queue(&next_level, &do_next_level);
                    proof {
                        ChainView::lemma_weight_decreases(work, do_next_level@, top, m);
                        assert forall|f: nat| #[trigger] self@.run(rest@, new_tip@, f) == start.run(
                            first,
                            AddView::nothing(),
                            f + (steps + 1),
                        ) by {
                            assert(before.run(work, outcome, f + 1) == start.run(
                                first,
                                AddView::nothing(),
                                (f + 1) + steps,
                            ));
                            assert((f + 1) + steps == f + (steps + 1));
                        }
                        steps = steps + 1;
                    }
                    next_level = rest;
                },
                Err(e) => {
                    proof {
                        assert(before.run(work, outcome, 1) == Some((self@, Err::<AddView, _>(e))));
                        assert(start.run(first, AddView::nothing(), 1 + steps) == Some(
                            (self@, Err::<AddView, _>(e)),
                        ));
                    }
                    return Err(e);
                },
            }
        }
        proof {
            assert(self@.run(next_level@, new_tip@, 0) == Some((self@, Ok::<_, ShareChainError>(new_tip@))));
            assert(start.run(first, AddView::nothing(), 0 + steps) == Some(
                (self@, Ok::<_, ShareChainError>(new_tip@)),
            ));
        }
        Ok(new_tip)
    }

    /// The blocks to look at after the first: the rest, and those that the first led to, none twice.
    fn queue(work: &Vec<(u64, FixedHash)>, more: &Vec<(u64, FixedHash)>) -> (rest: Vec<(u64, FixedHash)>)
        requires
            work@.len() > 0,
        ensures
            rest@ == ChainView::queued(work@.skip(1), more@, 0, work@[0]),
    {
        let mut rest: Vec<(u64, FixedHash)> = Vec::new();
        let mut i: usize = 1;
        while i < work.len()
            invariant
                1 <= i <= work@.len(),
                rest@ == work@.skip(1).take(i - 1),
            decreases work@.len() - i,
        {
            rest.push(work[i]);
            i = i + 1;
            proof {
                assert(rest@ =~= work@.skip(1).take(i - 1));
            }
        }
        proof {
            assert(rest@ =~= work@.skip(1));
        }
        let (current_height, current_hash) = work[0];
        let mut j: usize = 0;
        while j < more.len()
            invariant
                j <= more@.len(),
                work@.len() > 0,
                (current_height, current_hash) == work@[0],
                ChainView::queued(work@.skip(1), more@, 0, work@[0]) == ChainView::queued(
                    rest@,
                    more@,
                    j as int,
                    work@[0],
                ),
            decreases more@.len() - j,
        {
            let (height, hash) = more[j];
            let mut known = height == current_height && hash == current_hash;
            let mut k: usize = 0;
            while k < rest.len() && !known
                invariant
                    k <= rest@.len(),
                    known ==> rest@.contains((height, hash)) || (height, hash) == (current_height, current_hash),
                    (height, hash) == (current_height, current_hash) ==> known,
                    !known ==> forall|l: int| 0 <= l < k ==> rest@[l] != (height, hash),
                decreases rest@.len() - k + (if known { 0int } else { 1 }),
            {
                if rest[k].0 == height && rest[k].1 == hash {
                    assert(rest@[k as int] == (height, hash));
                    known = true;
                } else {
                    k = k + 1;
                }
            }
            if !known {
                rest.push((height, hash));
            }
            j = j + 1;
        }
        rest
    }
}

}
