//! The rules of the share chain, as functions on its contents.
use crate::sharechain::block_map::BlockMap;
use crate::sharechain::chain_model::{AddView, ChainView, MAX_UNCLE_AGE};
use crate::sharechain::error::{RejectReason, ShareChainError, ValidationError};
use crate::sharechain::p2block::{BlockView, PROTOCOL_VERSION};
use crate::sharechain::p2chain_level::LevelView;
use crate::sharechain::shares::{ShareTable, ShareView};
use crate::types::{BlockHash, FixedHash, PowAlgorithm};
use vstd::prelude::*;

verus! {

/// How many levels to keep overall.
pub const MAX_BLOCKS_COUNT: u64 = 600;

/// By how much the least target of the main chain is divided for RandomX shares.
pub const MIN_RANDOMX_SCALING_FACTOR: u64 = 10;

/// By how much the least target of the main chain is divided for SHA3x shares.
pub const MIN_SHA3X_SCALING_FACTOR: u64 = 10;

/// How many blocks are used to calculate current shares to be paid out.
pub const SHARE_WINDOW: u64 = 400;

/// Shares for a block of the main chain. Using 5 and 4 in place of 1 and 0.8 keeps shares whole.
pub const MAIN_REWARD_SHARE: u64 = 5;

/// Shares for an uncle.
pub const UNCLE_REWARD_SHARE: u64 = 4;

/// The max allowed uncles per block.
pub const UNCLE_LIMIT: usize = 3;

/// The height when uncles can start being added to the chain. This is to prevent chains with many uncles at height 0,
/// which the pool will create while waiting to sync to the chain.
pub const UNCLE_START_HEIGHT: u64 = 10;

/// How many missing parents are collected while blocks are synced before the rest is left for later.
pub const MAX_SYNC_MISSING_PARENTS: usize = 10;

/// What a share chain holds.
pub struct ShareChainView {
    /// The chain.
    pub chain: ChainView,
    /// Algorithm by which its blocks are mined.
    pub pow_algo: PowAlgorithm,
    /// RandomX blocks can be checked.
    pub has_validation_params: bool,
    /// Free bytes for the coinbases of miners, by the miner's address.
    pub coinbase_extras: Map<Seq<u8>, Seq<u8>>,
}

/// A number less another, or zero.
pub open spec fn less(a: int, b: int) -> int {
    if a > b {
        a - b
    } else {
        0
    }
}

impl BlockView {
    /// The first of `uncles[from..]` that is too old or not below the block.
    pub open spec fn uncle_age_fault(self, from: int) -> Option<ValidationError>
        decreases self.uncles.len() - from,
    {
        if from < 0 || from >= self.uncles.len() {
            None
        } else if self.uncles[from].0 < less(self.height as int, MAX_UNCLE_AGE as int) {
            Some(ValidationError::UncleTooOld)
        } else if self.uncles[from].0 >= self.height {
            Some(ValidationError::UnclesOnSameHeightOrHigher)
        } else {
            self.uncle_age_fault(from + 1)
        }
    }

    /// The rule on uncles that the block breaks, if any.
    pub open spec fn uncle_rule_fault(self) -> Option<ValidationError> {
        if self.uncles.len() > UNCLE_LIMIT {
            Some(ValidationError::TooManyUncles)
        } else if self.height < UNCLE_START_HEIGHT && self.uncles.len() > 0 {
            Some(ValidationError::UnclesBeforeStartHeight)
        } else {
            self.uncle_age_fault(0)
        }
    }
}

impl ShareChainView {
    /// The difficulty that a block reached, if it is one of this chain and reached its target. `achieved` is `None` if
    /// it could not be found.
    pub open spec fn claimed(self, block: BlockView, achieved: Option<u64>) -> Result<u64, ValidationError> {
        if block.header.pow_algo != self.pow_algo {
            Err(ValidationError::InvalidPowAlgorithm)
        } else if self.pow_algo is RandomX && !self.has_validation_params {
            Err(ValidationError::MissingBlockValidationParams)
        } else {
            match achieved {
                None => if self.pow_algo is RandomX {
                    Err(ValidationError::RandomXDifficulty)
                } else {
                    Err(ValidationError::Difficulty)
                },
                Some(difficulty) => if difficulty < block.target_difficulty {
                    Err(ValidationError::DifficultyTarget)
                } else {
                    Ok(difficulty)
                },
            }
        }
    }

    /// Adds a block that was checked.
    pub open spec fn accepted(self, block: BlockView, fuel: nat) -> Option<
        (ShareChainView, Result<AddView, ShareChainError>),
    > {
        match self.chain.add_block(block, fuel) {
            None => None,
            Some((chain, result)) => Some((ShareChainView { chain, ..self }, result)),
        }
    }

    /// Submits a block. The first blocks of a chain, and those that are synced, need only have the work that they
    /// claim. Others must not be below the share window and must keep the rules on uncles; one that is there already
    /// changes nothing.
    pub open spec fn submitted(self, block: BlockView, achieved: Option<u64>, syncing: bool, fuel: nat) -> Option<
        (ShareChainView, Result<AddView, ShareChainError>),
    > {
        if self.chain.tip() is None || block.height == 0 || syncing {
            match self.claimed(block, achieved) {
                Err(error) => Some((self, Err(ShareChainError::ValidationError { error }))),
                Ok(_) => self.accepted(block, fuel),
            }
        } else if block.height < less(self.chain.current_tip as int, SHARE_WINDOW as int) {
            Some((self, Err(ShareChainError::BlockValidation { cause: RejectReason::OlderThanShareWindow })))
        } else if self.chain.block_at(block.height as int, block.hash) is Some {
            Some((self, Ok(AddView::nothing())))
        } else {
            match (block.uncle_rule_fault(), self.claimed(block, achieved)) {
                (Some(error), _) => Some((self, Err(ShareChainError::ValidationError { error }))),
                (None, Err(error)) => Some((self, Err(ShareChainError::ValidationError { error }))),
                (None, Ok(_)) => match self.accepted(block, fuel) {
                    Some((next, Ok(added))) => Some(
                        (
                            ShareChainView {
                                coinbase_extras: next.coinbase_extras.insert(block.miner, block.miner_extra()),
                                ..next
                            },
                            Ok(added),
                        ),
                    ),
                    other => other,
                },
            }
        }
    }

    /// Submits a block, which must be of the version of the rules that the chain follows.
    pub open spec fn submitted_current(self, block: BlockView, achieved: Option<u64>, syncing: bool, fuel: nat) -> Option<
        (ShareChainView, Result<AddView, ShareChainError>),
    > {
        if block.version != PROTOCOL_VERSION {
            Some((self, Err(ShareChainError::BlockValidation { cause: RejectReason::VersionMismatch })))
        } else {
            self.submitted(block, achieved, syncing, fuel)
        }
    }

    /// Missing blocks noted behind `missing`, without those that are known, until there are more than
    /// [`MAX_SYNC_MISSING_PARENTS`]. `true` if that many were found.
    pub open spec fn unknown(
        missing: Seq<(BlockHash, u64)>,
        more: Seq<(BlockHash, u64)>,
        from: int,
        known: Seq<BlockHash>,
    ) -> (Seq<(BlockHash, u64)>, bool)
        decreases more.len() - from,
    {
        if from < 0 || from >= more.len() {
            (missing, false)
        } else if known.contains(more[from].0) {
            ShareChainView::unknown(missing, more, from + 1, known)
        } else {
            let noted = AddView::noted(missing, more[from].0, more[from].1);
            if noted.len() > MAX_SYNC_MISSING_PARENTS {
                (noted, true)
            } else {
                ShareChainView::unknown(noted, more, from + 1, known)
            }
        }
    }

    /// Submits `blocks[from..]`, one after the other. It ends at the first error, and when too many parents are
    /// missing.
    pub open spec fn synced(
        self,
        blocks: Seq<(BlockView, Option<u64>)>,
        from: int,
        known: Seq<BlockHash>,
        outcome: AddView,
        fuel: nat,
    ) -> Option<(ShareChainView, Result<AddView, ShareChainError>)>
        decreases blocks.len() - from,
    {
        if from < 0 || from >= blocks.len() {
            Some((self, Ok(outcome)))
        } else {
            match self.submitted_current(blocks[from].0, blocks[from].1, true, fuel) {
                None => None,
                Some((next, Err(error))) => Some((next, Err(error))),
                Some((next, Ok(added))) => {
                    let (missing, enough) = ShareChainView::unknown(outcome.missing, added.missing, 0, known);
                    let outcome = AddView {
                        new_tip: AddView::higher_tip(outcome.new_tip, added.new_tip),
                        missing,
                    };
                    if enough {
                        Some((next, Ok(outcome)))
                    } else {
                        next.synced(blocks, from + 1, known, outcome, fuel)
                    }
                },
            }
        }
    }

    /// Submits blocks that another node sent, lowest first. Parents that come with them do not count as missing.
    pub open spec fn synced_all(self, blocks: Seq<(BlockView, Option<u64>)>, fuel: nat) -> Option<
        (ShareChainView, Result<AddView, ShareChainError>),
    > {
        let sorted = ShareChainView::by_height(blocks);
        self.synced(sorted, 0, ShareChainView::hashes_of(sorted), AddView::nothing(), fuel)
    }

    /// Submits `blocks[from..]`, each on its own. It ends at the first error.
    pub open spec fn each_synced(
        self,
        blocks: Seq<(BlockView, Option<u64>)>,
        from: int,
        outcome: AddView,
        fuel: nat,
    ) -> Option<(ShareChainView, Result<AddView, ShareChainError>)>
        decreases blocks.len() - from,
    {
        if from < 0 || from >= blocks.len() {
            Some((self, Ok(outcome)))
        } else {
            match self.synced_all(seq![blocks[from]], fuel) {
                None => None,
                Some((next, Err(error))) => Some((next, Err(error))),
                Some((next, Ok(added))) => next.each_synced(blocks, from + 1, outcome.combined(added), fuel),
            }
        }
    }

    /// By how much the least target of the main chain is divided for shares of an algorithm.
    pub open spec fn scaling_factor(algo: PowAlgorithm) -> u64 {
        match algo {
            PowAlgorithm::RandomX => MIN_RANDOMX_SCALING_FACTOR,
            PowAlgorithm::Sha3x => MIN_SHA3X_SCALING_FACTOR,
        }
    }

    /// Target of the next block of the chain.
    pub open spec fn target(self, min: u64, max: u64, average: Option<u64>) -> u64 {
        crate::sharechain::in_memory::bounded_target(
            min,
            max,
            ShareChainView::scaling_factor(self.pow_algo),
            average,
        )
    }

    /// The hashes of some blocks.
    pub open spec fn hashes_of(blocks: Seq<(BlockView, Option<u64>)>) -> Seq<BlockHash> {
        blocks.map_values(|b: (BlockView, Option<u64>)| b.0.hash)
    }

    /// The list with one more block, behind all that are not higher.
    pub open spec fn inserted(blocks: Seq<(BlockView, Option<u64>)>, block: (BlockView, Option<u64>)) -> Seq<
        (BlockView, Option<u64>),
    >
        decreases blocks.len(),
    {
        if blocks.len() == 0 || blocks.last().0.height <= block.0.height {
            blocks.push(block)
        } else {
            ShareChainView::inserted(blocks.drop_last(), block).push(blocks.last())
        }
    }

    /// The blocks by height, lowest first; those of one height stay in their order.
    pub open spec fn by_height(blocks: Seq<(BlockView, Option<u64>)>) -> Seq<(BlockView, Option<u64>)>
        decreases blocks.len(),
    {
        if blocks.len() == 0 {
            blocks
        } else {
            ShareChainView::inserted(ShareChainView::by_height(blocks.drop_last()), blocks.last())
        }
    }
}

impl ChainView {
    /// The table with the shares of a block's uncles `uncles[from..]`.
    pub open spec fn uncles_credited(
        self,
        table: Map<Seq<u8>, (u64, Seq<u8>)>,
        uncles: Seq<(u64, BlockHash)>,
        from: int,
    ) -> Result<Map<Seq<u8>, (u64, Seq<u8>)>, ShareChainError>
        decreases uncles.len() - from,
    {
        if from < 0 || from >= uncles.len() {
            Ok(table)
        } else {
            match self.block_at(uncles[from].0 as int, uncles[from].1) {
                None => Err(ShareChainError::UncleBlockNotFound),
                Some(uncle) => self.uncles_credited(
                    ShareTable::credited(table, uncle.miner, UNCLE_REWARD_SHARE, uncle.coinbase_extra),
                    uncles,
                    from + 1,
                ),
            }
        }
    }

    /// The table with the shares of a block and those below it, down to `stop`, each with its uncles.
    pub open spec fn chain_credited(
        self,
        table: Map<Seq<u8>, (u64, Seq<u8>)>,
        block: BlockView,
        stop: int,
    ) -> Result<Map<Seq<u8>, (u64, Seq<u8>)>, ShareChainError>
        decreases block.height,
    {
        match self.uncles_credited(
            ShareTable::credited(table, block.miner, MAIN_REWARD_SHARE, block.coinbase_extra),
            block.uncles,
            0,
        ) {
            Err(error) => Err(error),
            Ok(credited) => if block.height <= stop {
                Ok(credited)
            } else {
                match self.parent_of(block) {
                    None => Err(ShareChainError::BlockNotFound),
                    Some(parent) => if parent.height >= block.height {
                        Err(ShareChainError::BlockNotFound)
                    } else {
                        self.chain_credited(credited, parent, stop)
                    },
                }
            },
        }
    }

    /// The shares of all miners in the share window, short of one block: the final share is for the next block.
    pub open spec fn shares(self) -> Result<Map<Seq<u8>, (u64, Seq<u8>)>, ShareChainError> {
        match self.tip() {
            None => Ok(Map::empty()),
            Some(tip) => match tip.main_block() {
                None => Err(ShareChainError::BlockNotFound),
                Some(block) => self.chain_credited(
                    Map::empty(),
                    block,
                    less(tip.height as int, SHARE_WINDOW - 1),
                ),
            },
        }
    }

    proof fn lemma_same_uncles_credited(
        self,
        other: ChainView,
        table: Map<Seq<u8>, (u64, Seq<u8>)>,
        uncles: Seq<(u64, BlockHash)>,
        from: int,
    )
        requires
            self.levels == other.levels,
        ensures
            self.uncles_credited(table, uncles, from) == other.uncles_credited(table, uncles, from),
        decreases uncles.len() - from,
    {
        if 0 <= from < uncles.len() {
            assert(self.block_at(uncles[from].0 as int, uncles[from].1) == other.block_at(
                uncles[from].0 as int,
                uncles[from].1,
            ));
            if let Some(uncle) = self.block_at(uncles[from].0 as int, uncles[from].1) {
                self.lemma_same_uncles_credited(
                    other,
                    ShareTable::credited(table, uncle.miner, UNCLE_REWARD_SHARE, uncle.coinbase_extra),
                    uncles,
                    from + 1,
                );
            }
        }
    }

    proof fn lemma_same_chain_credited(
        self,
        other: ChainView,
        table: Map<Seq<u8>, (u64, Seq<u8>)>,
        block: BlockView,
        stop: int,
    )
        requires
            self.levels == other.levels,
        ensures
            self.chain_credited(table, block, stop) == other.chain_credited(table, block, stop),
        decreases block.height,
    {
        let own = ShareTable::credited(table, block.miner, MAIN_REWARD_SHARE, block.coinbase_extra);
        self.lemma_same_uncles_credited(other, own, block.uncles, 0);
        assert(self.parent_of(block) == other.parent_of(block));
        if let Ok(credited) = self.uncles_credited(own, block.uncles, 0) {
            if let Some(parent) = self.parent_of(block) {
                if parent.height < block.height {
                    self.lemma_same_chain_credited(other, credited, parent, stop);
                }
            }
        }
    }

    /// The shares go by the levels and the tip alone.
    pub proof fn lemma_same_shares(self, other: ChainView)
        requires
            self.levels == other.levels,
            self.current_tip == other.current_tip,
        ensures
            self.shares() == other.shares(),
    {
        assert(self.tip() == other.tip());
        if let Some(tip) = self.tip() {
            if let Some(block) = tip.main_block() {
                self.lemma_same_chain_credited(
                    other,
                    Map::empty(),
                    block,
                    less(tip.height as int, SHARE_WINDOW - 1),
                );
            }
        }
    }

    /// The table with the uncles of the next block, each with the share of an uncle.
    pub open spec fn uncles_set(
        self,
        table: Map<Seq<u8>, (u64, Seq<u8>)>,
        uncles: Seq<(u64, BlockHash)>,
        from: int,
    ) -> Result<Map<Seq<u8>, (u64, Seq<u8>)>, ShareChainError>
        decreases uncles.len() - from,
    {
        if from < 0 || from >= uncles.len() {
            Ok(table)
        } else {
            match self.block_at(uncles[from].0 as int, uncles[from].1) {
                None => Err(ShareChainError::UncleBlockNotFound),
                Some(uncle) => self.uncles_set(
                    table.insert(uncle.miner, (UNCLE_REWARD_SHARE, uncle.coinbase_extra)),
                    uncles,
                    from + 1,
                ),
            }
        }
    }

    /// The shares that are kept for the tip, if any miner is among them.
    pub open spec fn kept_shares(self) -> Option<Map<Seq<u8>, (u64, Seq<u8>)>> {
        match self.cached_shares {
            Some(list) => if ShareTable::map_of(list) == Map::<Seq<u8>, (u64, Seq<u8>)>::empty() {
                None
            } else {
                Some(ShareTable::map_of(list))
            },
            None => None,
        }
    }

    /// The shares that a payout with `block` as the next block goes by: those of the share window, with the block's
    /// miner and the miners of its uncles set to the share of one block.
    pub open spec fn payout(self, block: BlockView) -> Result<Map<Seq<u8>, (u64, Seq<u8>)>, ShareChainError> {
        let window = match self.kept_shares() {
            Some(table) => Ok(table),
            None => self.shares(),
        };
        match window {
            Err(error) => Err(error),
            Ok(table) => self.uncles_set(
                table.insert(block.miner, (MAIN_REWARD_SHARE, block.coinbase_extra)),
                block.uncles,
                0,
            ),
        }
    }

    /// Whether `kept` are the shares that are kept after a payout: those that were, or else those of the share window.
    pub open spec fn keeps_after_payout(self, kept: Option<Seq<ShareView>>) -> bool {
        if self.kept_shares() is Some || self.tip() is None {
            kept == self.cached_shares
        } else {
            match self.shares() {
                Ok(table) => kept is Some && ShareTable::lists(kept.unwrap(), table),
                Err(_) => kept == self.cached_shares,
            }
        }
    }

    /// The blocks of the main chain from `height` down to `lowest`, highest first, each as its height and its hash.
    pub open spec fn main_chain_down(self, height: int, lowest: int) -> Seq<(u64, BlockHash)>
        decreases height - lowest + 1,
    {
        if height < lowest {
            Seq::empty()
        } else {
            let below = self.main_chain_down(height - 1, lowest);
            match self.level(height) {
                Some(level) => if level.main_block() is Some {
                    seq![(level.height, level.chain_block)] + below
                } else {
                    below
                },
                None => below,
            }
        }
    }

    /// The tip and the blocks of the main chain at most `count` levels below it, highest first; none without a tip.
    pub open spec fn newest(self, count: int) -> Seq<(u64, BlockHash)> {
        if self.tip() is Some {
            self.main_chain_down(self.current_tip as int, less(self.current_tip as int, count))
        } else {
            Seq::empty()
        }
    }

    /// The blocks of a level, each as its height and its hash.
    pub open spec fn entries_of(level: LevelView) -> Seq<(u64, BlockHash)> {
        level.blocks.map_values(|b: BlockView| (b.height, b.hash))
    }

    /// The hash of a block and those of its uncles.
    pub open spec fn family_of(block: BlockView) -> Seq<BlockHash> {
        seq![block.hash] + block.uncles.map_values(|u: (u64, BlockHash)| u.1)
    }

    /// The blocks on the levels from `height` up to the one below `new_height`, and the hashes that are used on these
    /// levels: those of the main chain and of the uncles that it confirms.
    pub open spec fn uncle_candidates(self, height: int, new_height: int) -> Result<
        (Seq<(u64, BlockHash)>, Seq<BlockHash>),
        ShareChainError,
    >
        decreases new_height - height,
    {
        if height >= new_height {
            Ok((Seq::empty(), Seq::empty()))
        } else {
            match self.level(height) {
                None => self.uncle_candidates(height + 1, new_height),
                Some(level) => match level.main_block() {
                    None => Err(ShareChainError::BlockNotFound),
                    Some(block) => match self.uncle_candidates(height + 1, new_height) {
                        Err(error) => Err(error),
                        Ok((candidates, used)) => Ok(
                            (ChainView::entries_of(level) + candidates, ChainView::family_of(block) + used),
                        ),
                    },
                },
            }
        }
    }

    /// The block is there, and its parent is in the main chain.
    pub open spec fn lies_on_main_chain(self, entry: (u64, BlockHash)) -> bool {
        match self.block_at(entry.0 as int, entry.1) {
            None => false,
            Some(block) => match self.parent_of(block) {
                None => false,
                Some(parent) => (self.level(parent.height as int)->Some_0).chain_block == parent.hash,
            },
        }
    }

    /// Hashes of those among the first `n` blocks whose parent is not in the main chain.
    pub open spec fn unlinked(self, entries: Seq<(u64, BlockHash)>, n: int) -> Seq<BlockHash>
        decreases n,
    {
        if n <= 0 {
            Seq::empty()
        } else if self.lies_on_main_chain(entries[n - 1]) {
            self.unlinked(entries, n - 1)
        } else {
            self.unlinked(entries, n - 1).push(entries[n - 1].1)
        }
    }

    /// Those among the first `n` entries whose hash is not excluded.
    pub open spec fn remaining(entries: Seq<(u64, BlockHash)>, excluded: Seq<BlockHash>, n: int) -> Seq<
        (u64, BlockHash),
    >
        decreases n,
    {
        if n <= 0 {
            Seq::empty()
        } else if excluded.contains(entries[n - 1].1) {
            ChainView::remaining(entries, excluded, n - 1)
        } else {
            ChainView::remaining(entries, excluded, n - 1).push(entries[n - 1])
        }
    }

    /// The first entries, at most `n`.
    pub open spec fn at_most(entries: Seq<(u64, BlockHash)>, n: int) -> Seq<(u64, BlockHash)> {
        if entries.len() > n {
            entries.take(n)
        } else {
            entries
        }
    }

    /// The uncles of the next block. An uncle is at most [`MAX_UNCLE_AGE`] levels below it, has not been confirmed
    /// yet, is not in the main chain and has its parent there. Below [`UNCLE_START_HEIGHT`] there are none, and never
    /// more than [`UNCLE_LIMIT`].
    pub open spec fn offered_uncles(self, new_height: u64) -> Result<Seq<(u64, BlockHash)>, ShareChainError> {
        if new_height < UNCLE_START_HEIGHT {
            Ok(Seq::empty())
        } else {
            match self.uncle_candidates(less(new_height as int, MAX_UNCLE_AGE as int), new_height as int) {
                Err(error) => Err(error),
                Ok((candidates, used)) => {
                    let excluded = used + self.unlinked(candidates, candidates.len() as int);
                    let left = ChainView::remaining(candidates, excluded, candidates.len() as int);
                    Ok(ChainView::at_most(left, UNCLE_LIMIT as int))
                },
            }
        }
    }

    /// Hash and work of the block that the next one lies on.
    pub open spec fn next_parent(self) -> (BlockHash, u128) {
        match self.tip() {
            Some(tip) => match tip.main_block() {
                Some(block) => (block.hash, block.total_pow),
                None => (FixedHash::spec_zero(), 1),
            },
            None => (FixedHash::spec_zero(), 1),
        }
    }

    /// Height of the next block.
    pub open spec fn next_height(self) -> u64 {
        match self.tip() {
            Some(tip) => if tip.height == u64::MAX {
                u64::MAX
            } else {
                (tip.height + 1) as u64
            },
            None => 0,
        }
    }

    /// The work of the first `n` uncles.
    pub open spec fn uncle_work(self, uncles: Seq<(u64, BlockHash)>, n: int) -> nat
        decreases n,
    {
        if n <= 0 {
            0
        } else {
            self.uncle_work(uncles, n - 1) + (self.block_at(
                uncles[n - 1].0 as int,
                uncles[n - 1].1,
            )->Some_0).target_difficulty as nat
        }
    }

    /// What is found of the first `n` requested blocks: the block, or the one of the main chain at its height.
    pub open spec fn fetched(self, requested: Seq<(u64, BlockHash)>, n: int) -> Seq<BlockView>
        decreases n,
    {
        if n <= 0 {
            Seq::empty()
        } else {
            let before = self.fetched(requested, n - 1);
            match self.level(requested[n - 1].0 as int) {
                None => before,
                Some(level) => match BlockMap::find(level.blocks, requested[n - 1].1) {
                    Some(block) => before.push(block),
                    None => match level.main_block() {
                        Some(block) => before.push(block),
                        None => before,
                    },
                },
            }
        }
    }

    /// Height of a block if it is there, else zero.
    pub open spec fn known_height(self, last: Option<(u64, BlockHash)>) -> u64 {
        match last {
            None => 0,
            Some((height, hash)) => if self.block_at(height as int, hash) is Some {
                height
            } else {
                0
            },
        }
    }

    /// The greatest height among the first `n` blocks that are in the main chain; zero if none is.
    pub open spec fn highest_match(self, blocks: Seq<(u64, BlockHash)>, n: int) -> u64
        decreases n,
    {
        if n <= 0 {
            0
        } else {
            let before = self.highest_match(blocks, n - 1);
            let (height, hash) = blocks[n - 1];
            if height > before && self.block_at(height as int, hash) is Some && (self.level(
                height as int,
            )->Some_0).chain_block == hash {
                height
            } else {
                before
            }
        }
    }

    /// Those of the first `n` uncles that are on the level.
    pub open spec fn uncles_on(level: LevelView, uncles: Seq<(u64, BlockHash)>, n: int) -> Seq<BlockView>
        decreases n,
    {
        if n <= 0 {
            Seq::empty()
        } else {
            match BlockMap::find(level.blocks, uncles[n - 1].1) {
                Some(block) => ChainView::uncles_on(level, uncles, n - 1).push(block),
                None => ChainView::uncles_on(level, uncles, n - 1),
            }
        }
    }

    /// The blocks from place `i` of the level at `height` upwards, behind `page`, until there are `size` of them. If
    /// `main_chain_only`, the page has at least two blocks of the main chain, so that a caller who starts at one can
    /// go on from the next; `mains` of them have been passed, counted up to two.
    pub open spec fn paged(
        self,
        height: int,
        i: int,
        page: Seq<BlockView>,
        mains: int,
        size: int,
        main_chain_only: bool,
    ) -> Seq<BlockView>
        decreases self.levels.len() + self.base() - height, ({
            match self.level(height) {
                Some(level) => level.blocks.len() - i,
                None => 0,
            }
        }),
    {
        match self.level(height) {
            None => page,
            Some(level) => if i < 0 || i >= level.blocks.len() {
                self.paged(height + 1, 0, page, mains, size, main_chain_only)
            } else {
                let block = level.blocks[i];
                let main = block.hash == level.chain_block;
                let with_uncles = if main && main_chain_only {
                    page + ChainView::uncles_on(level, block.uncles, block.uncles.len() as int)
                } else {
                    page
                };
                let longer = with_uncles.push(block);
                let found = if main && mains < 2 {
                    mains + 1
                } else {
                    mains
                };
                if longer.len() >= size && (!main_chain_only || found >= 2) {
                    longer
                } else {
                    self.paged(height, i + 1, longer, found, size, main_chain_only)
                }
            },
        }
    }

    /// A page of blocks from a height on; from the lowest level if the height is below it.
    pub open spec fn page(self, start: int, size: int, main_chain_only: bool) -> Seq<BlockView> {
        let first = if self.levels.len() > 0 && start < self.base() {
            self.base()
        } else {
            start
        };
        self.paged(first, 0, Seq::empty(), 0, size, main_chain_only)
    }
}

}
