//! The share chain with its rules: which blocks it takes, what it pays and what it hands out.
use crate::bytes::copy_bytes;
use crate::sharechain::byte_map::ByteMap;
use crate::sharechain::chain_model::{AddView, ChainView, MAX_UNCLE_AGE};
use crate::sharechain::error::{RejectReason, ShareChainError, ValidationError};
use crate::sharechain::p2block::{share, BlockView, P2Block, TariAddress, PROTOCOL_VERSION};
use crate::sharechain::p2chain::{ChainAddResult, P2Chain};
use crate::sharechain::p2chain_level::P2ChainLevel;
use crate::sharechain::share_rules::{
    ShareChainView, MAIN_REWARD_SHARE, MAX_BLOCKS_COUNT, MIN_RANDOMX_SCALING_FACTOR, MIN_SHA3X_SCALING_FACTOR,
    SHARE_WINDOW, UNCLE_LIMIT, UNCLE_REWARD_SHARE, UNCLE_START_HEIGHT,
};
use crate::sharechain::shares::{ShareTable, ShareView};
use crate::types::{AccumulatedDifficulty, BlockHash, Difficulty, FixedHash, PowAlgorithm};
use std::sync::Arc;
use vstd::prelude::*;

verus! {

/// A block with the difficulty that its proof of work reached; `None` if that could not be found.
pub struct CheckedBlock {
    /// The block.
    pub block: Arc<P2Block>,
    /// The difficulty that it reached.
    pub achieved: Option<Difficulty>,
}

/// The difficulty as a number.
pub open spec fn reached(achieved: Option<Difficulty>) -> Option<u64> {
    match achieved {
        Some(difficulty) => Some(difficulty@),
        None => None,
    }
}

impl View for CheckedBlock {
    type V = (BlockView, Option<u64>);

    open spec fn view(&self) -> (BlockView, Option<u64>) {
        (self.block@, reached(self.achieved))
    }
}

/// An output by which the next main-chain block pays a miner.
pub struct NewBlockCoinbase {
    /// The miner's address, in base58.
    pub address: String,
    /// The miner's shares.
    pub value: u64,
    /// Whether the payment hides the miner.
    pub stealth_payment: bool,
    /// Whether the value is proved openly.
    pub revealed_value_proof: bool,
    /// Free bytes of the miner.
    pub coinbase_extra: Vec<u8>,
}

/// What a [`NewBlockCoinbase`] holds.
pub struct NewCoinbaseView {
    pub address: Seq<char>,
    pub value: u64,
    pub stealth_payment: bool,
    pub revealed_value_proof: bool,
    pub coinbase_extra: Seq<u8>,
}

impl View for NewBlockCoinbase {
    type V = NewCoinbaseView;

    open spec fn view(&self) -> NewCoinbaseView {
        NewCoinbaseView {
            address: self.address@,
            value: self.value,
            stealth_payment: self.stealth_payment,
            revealed_value_proof: self.revealed_value_proof,
            coinbase_extra: self.coinbase_extra@,
        }
    }
}

impl NewCoinbaseView {
    /// The outputs that pay the first `n` miners of a list, without those whose address has no text.
    pub open spec fn paying(list: Seq<ShareView>, n: int) -> Seq<NewCoinbaseView>
        decreases n,
    {
        if n <= 0 {
            Seq::empty()
        } else {
            match crate::sharechain::p2block::address_text(list[n - 1].miner) {
                None => NewCoinbaseView::paying(list, n - 1),
                Some(address) => NewCoinbaseView::paying(list, n - 1).push(
                    NewCoinbaseView {
                        address,
                        value: list[n - 1].shares,
                        stealth_payment: false,
                        revealed_value_proof: true,
                        coinbase_extra: list[n - 1].extra,
                    },
                ),
            }
        }
    }
}

impl NewCoinbaseView {
    /// One output of a list goes to the address, and it is worth something.
    pub open spec fn pays_once(list: Seq<NewCoinbaseView>, address: Seq<char>) -> bool {
        exists|k: int|
            {
                &&& 0 <= k < list.len()
                &&& (#[trigger] list[k]).address == address
                &&& list[k].value > 0
                &&& forall|j: int| 0 <= j < list.len() && (#[trigger] list[j]).address == address ==> j == k
            }
    }

    /// One output of a list goes to the address, of exactly this value and with these free bytes; its value is proved
    /// openly, and it does not hide the miner.
    pub open spec fn pays(list: Seq<NewCoinbaseView>, address: Seq<char>, value: u64, extra: Seq<u8>) -> bool {
        exists|k: int|
            {
                &&& 0 <= k < list.len()
                &&& (#[trigger] list[k]).address == address
                &&& list[k].value == value
                &&& list[k].coinbase_extra == extra
                &&& !list[k].stealth_payment
                &&& list[k].revealed_value_proof
                &&& forall|j: int| 0 <= j < list.len() && (#[trigger] list[j]).address == address ==> j == k
            }
    }

    /// Each miner of the table whose address has a text is paid exactly the shares of the table, and nobody else is paid.
    pub open spec fn pays_table(list: Seq<NewCoinbaseView>, table: Map<Seq<u8>, (u64, Seq<u8>)>) -> bool {
        &&& forall|miner: Seq<u8>|
            table.dom().contains(miner) && #[trigger] crate::sharechain::p2block::address_text(miner) is Some
                ==> NewCoinbaseView::pays(
                list,
                crate::sharechain::p2block::address_text(miner)->Some_0,
                table[miner].0,
                table[miner].1,
            )
        &&& forall|k: int|
            0 <= k < list.len() ==> NewCoinbaseView::is_address_in((#[trigger] list[k]).address, table)
    }

    /// The address is that of a miner of the table.
    pub open spec fn is_address_in(address: Seq<char>, table: Map<Seq<u8>, (u64, Seq<u8>)>) -> bool {
        exists|miner: Seq<u8>| #[trigger]
            NewCoinbaseView::is_address_of(address, miner) && table.dom().contains(miner)
    }

    /// The address is that of the miner, and of no other.
    pub open spec fn is_address_of(address: Seq<char>, miner: Seq<u8>) -> bool {
        &&& crate::sharechain::p2block::address_text(miner) == Some(address)
        &&& forall|other: Seq<u8>| #[trigger]
            crate::sharechain::p2block::address_text(other) == Some(address) ==> other == miner
    }

    /// Each miner whose address has a text gets one output of exactly the value that a payout with `next` as the next
    /// block owes, and none if nothing is owed.
    pub open spec fn settles(list: Seq<NewCoinbaseView>, chain: ChainView, next: BlockView) -> bool {
        forall|miner: Seq<u8>| #[trigger]
            crate::sharechain::p2block::address_text(miner) is Some ==> {
                let address = crate::sharechain::p2block::address_text(miner)->Some_0;
                let owed = chain.owed(next, miner);
                if owed > 0 {
                    exists|k: int|
                        {
                            &&& 0 <= k < list.len()
                            &&& (#[trigger] list[k]).address == address
                            &&& list[k].value == owed
                            &&& forall|j: int|
                                0 <= j < list.len() && (#[trigger] list[j]).address == address ==> j == k
                        }
                } else {
                    forall|k: int| 0 <= k < list.len() ==> (#[trigger] list[k]).address != address
                }
            }
    }

    /// An address is that of one miner.
    pub open spec fn one_miner(list: Seq<ShareView>, i: int) -> bool {
        forall|other: Seq<u8>|
            crate::sharechain::p2block::address_text(list[i].miner) is Some && #[trigger]
                crate::sharechain::p2block::address_text(other) == crate::sharechain::p2block::address_text(
                list[i].miner,
            ) ==> other == list[i].miner
    }

    proof fn lemma_paying_from(list: Seq<ShareView>, n: int, k: int) -> (i: int)
        requires
            0 <= n <= list.len(),
            0 <= k < NewCoinbaseView::paying(list, n).len(),
        ensures
            0 <= i < n,
            crate::sharechain::p2block::address_text(list[i].miner) == Some(
                NewCoinbaseView::paying(list, n)[k].address,
            ),
        decreases n,
    {
        let before = NewCoinbaseView::paying(list, n - 1);
        if k < before.len() {
            NewCoinbaseView::lemma_paying_from(list, n - 1, k)
        } else {
            n - 1
        }
    }

    proof fn lemma_pays(list: Seq<ShareView>, n: int, i: int)
        requires
            0 <= i < n <= list.len(),
            ShareTable::distinct(list),
            forall|j: int| 0 <= j < n ==> #[trigger] NewCoinbaseView::one_miner(list, j),
            crate::sharechain::p2block::address_text(list[i].miner) is Some,
        ensures
            NewCoinbaseView::pays(
                NewCoinbaseView::paying(list, n),
                crate::sharechain::p2block::address_text(list[i].miner)->Some_0,
                list[i].shares,
                list[i].extra,
            ),
        decreases n,
    {
        let address = crate::sharechain::p2block::address_text(list[i].miner)->Some_0;
        let (value, extra) = (list[i].shares, list[i].extra);
        let before = NewCoinbaseView::paying(list, n - 1);
        let after = NewCoinbaseView::paying(list, n);
        assert(NewCoinbaseView::one_miner(list, i));
        if i == n - 1 {
            let k = before.len() as int;
            assert(after[k].address == address && after[k].value == value && after[k].coinbase_extra == extra);
            assert forall|j: int| 0 <= j < after.len() && (#[trigger] after[j]).address == address implies j == k by {
                if j < k {
                    let m = NewCoinbaseView::lemma_paying_from(list, n - 1, j);
                    assert(after[j] == before[j]);
                    assert(list[m].miner == list[i].miner);
                }
            }
        } else {
            NewCoinbaseView::lemma_pays(list, n - 1, i);
            let k = choose|k: int|
                {
                    &&& 0 <= k < before.len()
                    &&& (#[trigger] before[k]).address == address
                    &&& before[k].value == value
                    &&& before[k].coinbase_extra == extra
                    &&& !before[k].stealth_payment
                    &&& before[k].revealed_value_proof
                    &&& forall|j: int|
                        0 <= j < before.len() && (#[trigger] before[j]).address == address ==> j == k
                };
            assert(after[k] == before[k]);
            assert forall|j: int| 0 <= j < after.len() && (#[trigger] after[j]).address == address implies j == k by {
                if j < before.len() {
                    assert(after[j] == before[j]);
                } else {
                    assert(crate::sharechain::p2block::address_text(list[n - 1].miner) == Some(address));
                    assert(list[n - 1].miner == list[i].miner);
                }
            }
        }
    }

    proof fn lemma_pays_table(list: Seq<ShareView>)
        requires
            ShareTable::distinct(list),
            forall|j: int| 0 <= j < list.len() ==> #[trigger] NewCoinbaseView::one_miner(list, j),
        ensures
            NewCoinbaseView::pays_table(
                NewCoinbaseView::paying(list, list.len() as int),
                ShareTable::map_of(list),
            ),
    {
        let table = ShareTable::map_of(list);
        let paid = NewCoinbaseView::paying(list, list.len() as int);
        assert forall|miner: Seq<u8>|
            table.dom().contains(miner) && #[trigger] crate::sharechain::p2block::address_text(
                miner,
            ) is Some implies NewCoinbaseView::pays(
            paid,
            crate::sharechain::p2block::address_text(miner)->Some_0,
            table[miner].0,
            table[miner].1,
        ) by {
            assert(ShareTable::has(list, miner));
            NewCoinbaseView::lemma_pays(list, list.len() as int, ShareTable::place(list, miner));
        }
        assert forall|k: int| 0 <= k < paid.len() implies NewCoinbaseView::is_address_in(
            (#[trigger] paid[k]).address,
            table,
        ) by {
            let i = NewCoinbaseView::lemma_paying_from(list, list.len() as int, k);
            assert(ShareTable::has(list, list[i].miner));
            assert(NewCoinbaseView::one_miner(list, i));
            assert(NewCoinbaseView::is_address_of(paid[k].address, list[i].miner));
            assert(table.dom().contains(list[i].miner));
        }
    }

    /// A list that pays what a payout says settles what is owed.
    proof fn lemma_settles(list: Seq<NewCoinbaseView>, chain: ChainView, next: BlockView)
        requires
            chain.wf(),
            chain.payout(next) is Ok,
            NewCoinbaseView::pays_table(list, chain.payout(next)->Ok_0),
        ensures
            NewCoinbaseView::settles(list, chain, next),
    {
        let table = chain.payout(next)->Ok_0;
        assert forall|miner: Seq<u8>| #[trigger] crate::sharechain::p2block::address_text(miner) is Some implies {
            let address = crate::sharechain::p2block::address_text(miner)->Some_0;
            let owed = chain.owed(next, miner);
            if owed > 0 {
                exists|k: int|
                    {
                        &&& 0 <= k < list.len()
                        &&& (#[trigger] list[k]).address == address
                        &&& list[k].value == owed
                        &&& forall|j: int| 0 <= j < list.len() && (#[trigger] list[j]).address == address ==> j == k
                    }
            } else {
                forall|k: int| 0 <= k < list.len() ==> (#[trigger] list[k]).address != address
            }
        } by {
            let address = crate::sharechain::p2block::address_text(miner)->Some_0;
            crate::sharechain::payout_laws::law_payout_pays_what_is_owed(chain, next, miner);
            if chain.owed(next, miner) > 0 {
                assert(NewCoinbaseView::pays(list, address, table[miner].0, table[miner].1));
            } else {
                assert forall|k: int| 0 <= k < list.len() implies (#[trigger] list[k]).address != address by {
                    let other = choose|other: Seq<u8>| #[trigger]
                        NewCoinbaseView::is_address_of(list[k].address, other) && table.dom().contains(other);
                    if list[k].address == address {
                        assert(other == miner);
                    }
                }
            }
        }
    }

    /// A list that pays a table pays each miner with shares once.
    proof fn lemma_pays_once(list: Seq<NewCoinbaseView>, table: Map<Seq<u8>, (u64, Seq<u8>)>, miner: Seq<u8>)
        requires
            NewCoinbaseView::pays_table(list, table),
            table.dom().contains(miner),
            table[miner].0 > 0,
            crate::sharechain::p2block::address_text(miner) is Some,
        ensures
            NewCoinbaseView::pays_once(list, crate::sharechain::p2block::address_text(miner)->Some_0),
    {
        let address = crate::sharechain::p2block::address_text(miner)->Some_0;
        assert(NewCoinbaseView::pays(list, address, table[miner].0, table[miner].1));
    }
}

/// The outputs that pay the miners of a table. A miner whose address has no text gets none; any other gets one, worth the
/// shares of the table.
pub fn coinbases_for(table: &ShareTable) -> (coinbases: Vec<NewBlockCoinbase>)
    ensures
        coinbases@.map_values(|c: NewBlockCoinbase| c@) == NewCoinbaseView::paying(table@, table@.len() as int),
        table.wf() ==> NewCoinbaseView::pays_table(
            coinbases@.map_values(|c: NewBlockCoinbase| c@),
            table.map(),
        ),
        table.wf() ==> forall|miner: Seq<u8>|
            table.map().dom().contains(miner) && table.map()[miner].0 > 0 && #[trigger]
                crate::sharechain::p2block::address_text(miner) is Some ==> NewCoinbaseView::pays_once(
                coinbases@.map_values(|c: NewBlockCoinbase| c@),
                crate::sharechain::p2block::address_text(miner)->Some_0,
            ),
{
    let mut coinbases: Vec<NewBlockCoinbase> = Vec::new();
    let mut i: usize = 0;
    while i < table.entries.len()
        invariant
            i <= table.entries@.len(),
            coinbases@.map_values(|c: NewBlockCoinbase| c@) == NewCoinbaseView::paying(table@, i as int),
            forall|j: int| 0 <= j < i ==> #[trigger] NewCoinbaseView::one_miner(table@, j),
        decreases table.entries@.len() - i,
    {
        let entry = &table.entries[i];
        assert(table@[i as int] == entry@);
        match entry.address.to_base58() {
            Some(address) => {
                let ghost before = coinbases@;
                let coinbase = NewBlockCoinbase {
                    address,
                    value: entry.shares,
                    stealth_payment: false,
                    revealed_value_proof: true,
                    coinbase_extra: copy_bytes(&entry.coinbase_extra),
                };
                let ghost view = coinbase@;
                coinbases.push(coinbase);
                assert(coinbases@.map_values(|c: NewBlockCoinbase| c@) =~= before.map_values(
                    |c: NewBlockCoinbase| c@,
                ).push(view));
            },
            None => {},
        }
        assert(NewCoinbaseView::one_miner(table@, i as int));
        i = i + 1;
    }
    proof {
        if table.wf() {
            let list = coinbases@.map_values(|c: NewBlockCoinbase| c@);
            NewCoinbaseView::lemma_pays_table(table@);
            assert forall|miner: Seq<u8>|
                table.map().dom().contains(miner) && table.map()[miner].0 > 0 && #[trigger]
                    crate::sharechain::p2block::address_text(
                    miner,
                ) is Some implies NewCoinbaseView::pays_once(
                list,
                crate::sharechain::p2block::address_text(miner)->Some_0,
            ) by {
                NewCoinbaseView::lemma_pays_once(list, table.map(), miner);
            }
        }
    }
    coinbases
}

/// The views of some blocks.
pub open spec fn views(blocks: Seq<Arc<P2Block>>) -> Seq<BlockView> {
    blocks.map_values(|b: Arc<P2Block>| b@)
}

pub(crate) fn push_block(blocks: &mut Vec<Arc<P2Block>>, block: &Arc<P2Block>)
    ensures
        views(final(blocks)@) == views(old(blocks)@).push(block@),
{
    blocks.push(share(block));
    assert(views(blocks@) =~= views(old(blocks)@).push(block@));
}

/// What the moving average says, between bounds; the lower bound is divided by a factor.
pub open spec fn bounded_target(min: u64, max: u64, scaling_factor: u64, average: Option<u64>) -> u64 {
    let least = min / scaling_factor;
    let wanted = match average {
        Some(difficulty) => difficulty,
        None => 1,
    };
    let bounded = if wanted < max {
        wanted
    } else {
        max
    };
    if bounded < least {
        least
    } else {
        bounded
    }
}

/// Target of the next block: what the moving average says, between bounds. The least is a fraction of what the main
/// chain asks for.
///
/// `average` is `None` as long as there are too few blocks for an average.
pub fn target_difficulty_within(min: Difficulty, max: Difficulty, scaling_factor: u64, average: Option<Difficulty>) -> (
target: Difficulty)
    requires
        scaling_factor > 0,
        min@ / scaling_factor >= 1,
    ensures
        target@ == bounded_target(min@, max@, scaling_factor, reached(average)),
{
    let least: u64 = min.as_u64() / scaling_factor;
    let wanted = match average {
        Some(difficulty) => difficulty,
        None => Difficulty::min(),
    };
    let bounded = if wanted.as_u64() < max.as_u64() {
        wanted
    } else {
        max
    };
    if bounded.as_u64() < least {
        match Difficulty::from_u64(least) {
            Some(difficulty) => difficulty,
            None => bounded,
        }
    } else {
        bounded
    }
}

/// A share chain for one proof-of-work algorithm.
pub struct InMemoryShareChain {
    /// The chain.
    pub p2_chain: P2Chain,
    /// Algorithm by which its blocks are mined.
    pub pow_algo: PowAlgorithm,
    /// RandomX blocks can be checked.
    pub has_validation_params: bool,
    /// Free bytes for the coinbases of miners, by the miner's address.
    pub coinbase_extras: ByteMap,
}

impl View for InMemoryShareChain {
    type V = ShareChainView;

    open spec fn view(&self) -> ShareChainView {
        ShareChainView {
            chain: self.p2_chain@,
            pow_algo: self.pow_algo,
            has_validation_params: self.has_validation_params,
            coinbase_extras: self.coinbase_extras@,
        }
    }
}

impl InMemoryShareChain {
    /// The chain and the free bytes are in order.
    pub open spec fn wf(&self) -> bool {
        self.p2_chain.wf() && self.coinbase_extras.wf()
    }

    /// An empty share chain. A RandomX chain needs parameters to check blocks with.
    pub fn new(pow_algo: PowAlgorithm, has_validation_params: bool, block_time: u64) -> (result: Result<
        Self,
        ShareChainError,
    >)
        ensures
            pow_algo is RandomX && !has_validation_params <==> result is Err,
            result matches Err(error) ==> error == ShareChainError::MissingBlockValidationParams,
            result matches Ok(chain) ==> {
                &&& chain.wf()
                &&& chain@.pow_algo == pow_algo
                &&& chain@.has_validation_params == has_validation_params
                &&& chain@.coinbase_extras == Map::<Seq<u8>, Seq<u8>>::empty()
                &&& chain@.chain == ChainView::fresh(MAX_BLOCKS_COUNT, SHARE_WINDOW, block_time)
            },
    {
        if pow_algo == PowAlgorithm::RandomX && !has_validation_params {
            return Err(ShareChainError::MissingBlockValidationParams);
        }
        Ok(
            InMemoryShareChain {
                p2_chain: P2Chain::new_empty(MAX_BLOCKS_COUNT, SHARE_WINDOW, block_time),
                pow_algo,
                has_validation_params,
                coinbase_extras: ByteMap::new(),
            },
        )
    }

    /// The difficulty that a block reached. `achieved` is `None` if it could not be found.
    pub fn block_difficulty(&self, block: &P2Block, achieved: Option<Difficulty>) -> (result: Result<
        u64,
        ValidationError,
    >)
        ensures
            achieved matches Some(d) ==> result == Ok::<u64, ValidationError>(d@),
            achieved is None ==> result == Err::<u64, ValidationError>(
                if block@.header.pow_algo is RandomX {
                    ValidationError::RandomXDifficulty
                } else {
                    ValidationError::Difficulty
                },
            ),
    {
        match achieved {
            Some(difficulty) => Ok(difficulty.as_u64()),
            None => match block.original_header.pow_algo {
                PowAlgorithm::RandomX => Err(ValidationError::RandomXDifficulty),
                PowAlgorithm::Sha3x => Err(ValidationError::Difficulty),
            },
        }
    }

    /// Checks that a block belongs to this chain and reached its target.
    pub fn validate_claimed_difficulty(&self, block: &P2Block, achieved: Option<Difficulty>) -> (result: Result<
        Difficulty,
        ValidationError,
    >)
        ensures
            match result {
                Ok(difficulty) => self@.claimed(block@, reached(achieved)) == Ok::<u64, ValidationError>(difficulty@),
                Err(error) => self@.claimed(block@, reached(achieved)) == Err::<u64, ValidationError>(error),
            },
    {
        if block.original_header.pow_algo != self.pow_algo {
            return Err(ValidationError::InvalidPowAlgorithm);
        }
        if self.pow_algo == PowAlgorithm::RandomX && !self.has_validation_params {
            return Err(ValidationError::MissingBlockValidationParams);
        }
        let difficulty = match achieved {
            Some(difficulty) => difficulty,
            None => match self.pow_algo {
                PowAlgorithm::RandomX => {
                    return Err(ValidationError::RandomXDifficulty);
                },
                PowAlgorithm::Sha3x => {
                    return Err(ValidationError::Difficulty);
                },
            },
        };
        if difficulty.as_u64() < block.target_difficulty().as_u64() {
            return Err(ValidationError::DifficultyTarget);
        }
        Ok(difficulty)
    }

    /// Checks that a block keeps the rules on uncles.
    pub fn validate_block(&self, block: &P2Block) -> (result: Result<(), ValidationError>)
        ensures
            result == (match block@.uncle_rule_fault() {
                Some(error) => Err::<(), ValidationError>(error),
                None => Ok(()),
            }),
    {
        if block.uncles.len() > UNCLE_LIMIT {
            return Err(ValidationError::TooManyUncles);
        }
        if block.height < UNCLE_START_HEIGHT && block.uncles.len() > 0 {
            return Err(ValidationError::UnclesBeforeStartHeight);
        }
        let oldest: u64 = if block.height > MAX_UNCLE_AGE {
            block.height - MAX_UNCLE_AGE
        } else {
            0
        };
        // let test the age of the uncles
        let mut i: usize = 0;
        while i < block.uncles.len()
            invariant
                i <= block.uncles@.len(),
                oldest == crate::sharechain::share_rules::less(block@.height as int, MAX_UNCLE_AGE as int),
                block@.uncle_rule_fault() == block@.uncle_age_fault(i as int),
            decreases block.uncles@.len() - i,
        {
            if block.uncles[i].0 < oldest {
                return Err(ValidationError::UncleTooOld);
            }
            if block.uncles[i].0 >= block.height {
                return Err(ValidationError::UnclesOnSameHeightOrHigher);
            }
            i = i + 1;
        }
        Ok(())
    }

    /// Submits a block. The first blocks of a chain, and those that are synced, need only have the work that they claim.
    /// Others must not be below the share window and must keep the rules on uncles; one that is there already changes
    /// nothing.
    pub fn submit_block_with_lock(&mut self, block: Arc<P2Block>, achieved: Option<Difficulty>, syncing: bool) -> (result:
        Result<ChainAddResult, ShareChainError>)
        requires
            old(self).wf(),
        ensures
            final(self).wf(),
            final(self)@.chain.total_size == old(self)@.chain.total_size,
            exists|fuel: nat| #[trigger]
                old(self)@.submitted(block@, reached(achieved), syncing, fuel) == Some(
                    (final(self)@, crate::sharechain::p2chain::add_outcome(result)),
                ),
            result matches Ok(added) ==> AddView::distinct(added@.missing),
            final(self)@ != old(self)@ ==> old(self)@.has_work(block@, reached(achieved)),
            result is Ok ==> old(self)@.has_work(block@, reached(achieved)) || !syncing && old(self)@.chain.block_at(
                block@.height as int,
                block@.hash,
            ) is Some,
    {
        let no_tip = self.p2_chain.get_tip().is_none();
        if no_tip || block.height == 0 || syncing {
            match self.validate_claimed_difficulty(&block, achieved) {
                Ok(_) => {},
                Err(error) => {
                    assert(old(self)@.submitted(block@, reached(achieved), syncing, 0) == Some(
                        (self@, Err::<AddView, _>(ShareChainError::ValidationError { error })),
                    ));
                    return Err(ShareChainError::ValidationError { error });
                },
            }
            let result = self.p2_chain.add_block_to_chain(share(&block));
            proof {
                let fuel = choose|fuel: nat| #[trigger]
                    old(self)@.chain.add_block(block@, fuel) == Some(
                        (self@.chain, crate::sharechain::p2chain::add_outcome(result)),
                    );
                assert(old(self)@.submitted(block@, reached(achieved), syncing, fuel) == Some(
                    (self@, crate::sharechain::p2chain::add_outcome(result)),
                ));
            }
            return result;
        }
        let tip_height: u64 = self.p2_chain.get_height();
        // We keep more blocks than the share window, but its only to validate the share window. If a block comes in
        // older than the share window is way too old for us to care about.
        let oldest: u64 = if tip_height > SHARE_WINDOW {
            tip_height - SHARE_WINDOW
        } else {
            0
        };
        if block.height < oldest {
            let error = ShareChainError::BlockValidation { cause: RejectReason::OlderThanShareWindow };
            assert(old(self)@.submitted(block@, reached(achieved), syncing, 0) == Some(
                (self@, Err::<AddView, _>(error)),
            ));
            return Err(error);
        }
        // Check if already added.
        if self.p2_chain.get_block_at_height(block.height, &block.hash).is_some() {
            assert(old(self)@.submitted(block@, reached(achieved), syncing, 0) == Some(
                (self@, Ok::<_, ShareChainError>(AddView::nothing())),
            ));
            return Ok(ChainAddResult::empty());
        }
        // validate
        match self.validate_block(&block) {
            Ok(()) => {},
            Err(error) => {
                assert(old(self)@.submitted(block@, reached(achieved), syncing, 0) == Some(
                    (self@, Err::<AddView, _>(ShareChainError::ValidationError { error })),
                ));
                return Err(ShareChainError::ValidationError { error });
            },
        }
        match self.validate_claimed_difficulty(&block, achieved) {
            Ok(_) => {},
            Err(error) => {
                assert(old(self)@.submitted(block@, reached(achieved), syncing, 0) == Some(
                    (self@, Err::<AddView, _>(ShareChainError::ValidationError { error })),
                ));
                return Err(ShareChainError::ValidationError { error });
            },
        }
        // add block to chain
        let result = self.p2_chain.add_block_to_chain(share(&block));
        let ghost fuel = choose|fuel: nat| #[trigger]
            old(self)@.chain.add_block(block@, fuel) == Some(
                (self@.chain, crate::sharechain::p2chain::add_outcome(result)),
            );
        match result {
            Ok(new_tip) => {
                // update coinbase extra cache
                self.coinbase_extras.insert(
                    copy_bytes(&block.miner_wallet_address.bytes),
                    block.get_miner_coinbase_extra(),
                );
                assert(old(self)@.submitted(block@, reached(achieved), syncing, fuel) == Some(
                    (self@, Ok::<_, ShareChainError>(new_tip@)),
                ));
                Ok(new_tip)
            },
            Err(error) => {
                assert(old(self)@.submitted(block@, reached(achieved), syncing, fuel) == Some(
                    (self@, Err::<AddView, _>(error)),
                ));
                Err(error)
            },
        }
    }

    /// Submits a block that this node has seen for the first time.
    pub fn submit_block(&mut self, block: Arc<P2Block>, achieved: Option<Difficulty>) -> (result: Result<
        ChainAddResult,
        ShareChainError,
    >)
        requires
            old(self).wf(),
        ensures
            final(self).wf(),
            final(self)@.chain.total_size == old(self)@.chain.total_size,
            exists|fuel: nat| #[trigger]
                old(self)@.submitted_current(block@, reached(achieved), false, fuel) == Some(
                    (final(self)@, crate::sharechain::p2chain::add_outcome(result)),
                ),
            final(self)@ != old(self)@ ==> old(self)@.has_work(block@, reached(achieved)),
            result is Ok ==> old(self)@.has_work(block@, reached(achieved)) || old(self)@.chain.block_at(
                block@.height as int,
                block@.hash,
            ) is Some,
            block@.version != PROTOCOL_VERSION ==> result is Err,
    {
        self.submit_current(block, achieved, false)
    }

    pub(crate) fn submit_current(&mut self, block: Arc<P2Block>, achieved: Option<Difficulty>, syncing: bool) -> (result: Result<
        ChainAddResult,
        ShareChainError,
    >)
        requires
            old(self).wf(),
        ensures
            final(self).wf(),
            final(self)@.chain.total_size == old(self)@.chain.total_size,
            exists|fuel: nat| #[trigger]
                old(self)@.submitted_current(block@, reached(achieved), syncing, fuel) == Some(
                    (final(self)@, crate::sharechain::p2chain::add_outcome(result)),
                ),
            result matches Ok(added) ==> AddView::distinct(added@.missing),
            final(self)@ != old(self)@ ==> old(self)@.has_work(block@, reached(achieved)),
            result is Ok ==> old(self)@.has_work(block@, reached(achieved)) || !syncing && old(self)@.chain.block_at(
                block@.height as int,
                block@.hash,
            ) is Some,
            block@.version != PROTOCOL_VERSION ==> result is Err,
    {
        if block.version != PROTOCOL_VERSION {
            let error = ShareChainError::BlockValidation { cause: RejectReason::VersionMismatch };
            assert(old(self)@.submitted_current(block@, reached(achieved), syncing, 0) == Some(
                (self@, Err::<AddView, _>(error)),
            ));
            return Err(error);
        }
        let result = self.submit_block_with_lock(block, achieved, syncing);
        proof {
            let fuel = choose|fuel: nat| #[trigger]
                old(self)@.submitted(block@, reached(achieved), syncing, fuel) == Some(
                    (self@, crate::sharechain::p2chain::add_outcome(result)),
                );
            assert(old(self)@.submitted_current(block@, reached(achieved), syncing, fuel) == Some(
                (self@, crate::sharechain::p2chain::add_outcome(result)),
            ));
        }
        result
    }

    /// Free bytes that were noted for a miner's coinbase.
    pub fn find_coinbase_extra(&self, miner_wallet_address: &TariAddress) -> (extra: Option<Vec<u8>>)
        requires
            self.wf(),
        ensures
            extra is Some <==> self@.coinbase_extras.dom().contains(miner_wallet_address@),
            extra matches Some(e) ==> e@ == self@.coinbase_extras[miner_wallet_address@],
    {
        match self.coinbase_extras.get(&miner_wallet_address.bytes) {
            Some(extra) => Some(copy_bytes(extra)),
            None => None,
        }
    }

    fn credit_uncles(&self, table: &mut ShareTable, block: &P2Block) -> (result: Result<(), ShareChainError>)
        requires
            self.wf(),
            old(table).wf(),
        ensures
            final(table).wf(),
            match result {
                Ok(()) => self@.chain.uncles_credited(old(table).map(), block@.uncles, 0) == Ok::<_, ShareChainError>(
                    final(table).map(),
                ),
                Err(error) => self@.chain.uncles_credited(old(table).map(), block@.uncles, 0) == Err::<
                    Map<Seq<u8>, (u64, Seq<u8>)>,
                    ShareChainError,
                >(error),
            },
    {
        let ghost target = self@.chain.uncles_credited(table.map(), block@.uncles, 0);
        let mut i: usize = 0;
        while i < block.uncles.len()
            invariant
                i <= block.uncles@.len(),
                self.wf(),
                table.wf(),
                target == self@.chain.uncles_credited(table.map(), block@.uncles, i as int),
                target == self@.chain.uncles_credited(old(table).map(), block@.uncles, 0),
            decreases block.uncles@.len() - i,
        {
            let (height, hash) = block.uncles[i];
            match self.p2_chain.get_block_at_height(height, &hash) {
                Some(uncle) => {
                    table.credit(
                        uncle.miner_wallet_address.clone(),
                        UNCLE_REWARD_SHARE,
                        copy_bytes(&uncle.miner_coinbase_extra),
                    );
                },
                None => {
                    return Err(ShareChainError::UncleBlockNotFound);
                },
            }
            i = i + 1;
        }
        Ok(())
    }

    /// Works out the shares of all miners in the share window, and keeps them.
    pub fn get_calculate_and_cache_hashmap_of_shares(&mut self) -> (result: Result<ShareTable, ShareChainError>)
        requires
            old(self).wf(),
        ensures
            final(self).wf(),
            match result {
                Ok(table) => {
                    &&& table.wf()
                    &&& old(self)@.chain.shares() == Ok::<_, ShareChainError>(table.map())
                    &&& final(self)@ == (if old(self)@.chain.tip() is Some {
                        ShareChainView {
                            chain: ChainView { cached_shares: Some(table@), ..old(self)@.chain },
                            ..old(self)@
                        }
                    } else {
                        old(self)@
                    })
                },
                Err(error) => {
                    &&& old(self)@.chain.shares() == Err::<Map<Seq<u8>, (u64, Seq<u8>)>, ShareChainError>(error)
                    &&& final(self)@ == old(self)@
                },
            },
    {
        let mut table = ShareTable::new();
        let tip = match self.p2_chain.get_tip() {
            Some(tip) => tip,
            None => {
                return Ok(table);
            },
        };
        // we want to count 1 short, as the final share will be for this node
        let stop_height: u64 = if tip.height > SHARE_WINDOW - 1 {
            tip.height - (SHARE_WINDOW - 1)
        } else {
            0
        };
        let mut current = match tip.block_in_main_chain() {
            Some(block) => share(block),
            None => {
                return Err(ShareChainError::BlockNotFound);
            },
        };
        let ghost target = self@.chain.shares();
        loop
            invariant
                self.wf(),
                self@ == old(self)@,
                table.wf(),
                self@.chain.tip() is Some,
                target == self@.chain.shares(),
                target == self@.chain.chain_credited(table.map(), current@, stop_height as int),
            decreases current@.height,
        {
            table.credit(
                current.miner_wallet_address.clone(),
                MAIN_REWARD_SHARE,
                copy_bytes(&current.miner_coinbase_extra),
            );
            match self.credit_uncles(&mut table, &current) {
                Ok(()) => {},
                Err(error) => {
                    return Err(error);
                },
            }
            if current.height <= stop_height {
                self.p2_chain.cached_shares = Some(table.clone());
                proof {
                    self@.chain.lemma_same_shares(old(self)@.chain);
                }
                return Ok(table);
            }
            match self.p2_chain.get_parent_block(&current) {
                Some(parent) => {
                    proof {
                        self@.chain.lemma_block(current@.height - 1, current@.prev_hash);
                    }
                    current = share(parent);
                },
                None => {
                    return Err(ShareChainError::BlockNotFound);
                },
            }
        }
    }

    /// The outputs that pay the miners when `new_tip_block` is the next block: the miner of that block, and whoever mined
    /// a block of the main chain in the share window, or an uncle of one. Shares that are kept are used; else they are
    /// worked out and kept. A miner whose address has no text is left out.
    pub fn generate_shares(&mut self, new_tip_block: &P2Block) -> (result: Result<
        Vec<NewBlockCoinbase>,
        ShareChainError,
    >)
        requires
            old(self).wf(),
        ensures
            final(self).wf(),
            match result {
                Ok(coinbases) => {
                    &&& old(self)@.chain.payout(new_tip_block@) is Ok
                    &&& exists|list: Seq<ShareView>|
                        {
                            &&& #[trigger] ShareTable::lists(list, old(self)@.chain.payout(new_tip_block@)->Ok_0)
                            &&& coinbases@.map_values(|c: NewBlockCoinbase| c@) == NewCoinbaseView::paying(
                                list,
                                list.len() as int,
                            )
                        }
                    &&& NewCoinbaseView::settles(
                        coinbases@.map_values(|c: NewBlockCoinbase| c@),
                        old(self)@.chain,
                        new_tip_block@,
                    )
                    &&& forall|miner: Seq<u8>|
                        (miner == new_tip_block@.miner || old(self)@.chain.mined_recently(miner)) && #[trigger]
                            crate::sharechain::p2block::address_text(miner) is Some ==> NewCoinbaseView::pays_once(
                            coinbases@.map_values(|c: NewBlockCoinbase| c@),
                            crate::sharechain::p2block::address_text(miner)->Some_0,
                        )
                },
                Err(error) => old(self)@.chain.payout(new_tip_block@) == Err::<
                    Map<Seq<u8>, (u64, Seq<u8>)>,
                    ShareChainError,
                >(error),
            },
            final(self)@ == (ShareChainView {
                chain: ChainView { cached_shares: final(self)@.chain.cached_shares, ..old(self)@.chain },
                ..old(self)@
            }),
            old(self)@.chain.keeps_after_payout(final(self)@.chain.cached_shares),
    {
        // first check if there is a cached table of shares
        let cached = match &self.p2_chain.cached_shares {
            Some(shares) => if shares.is_empty() {
                None
            } else {
                Some(shares.clone())
            },
            None => None,
        };
        let mut table = match cached {
            Some(table) => table,
            None => match self.get_calculate_and_cache_hashmap_of_shares() {
                Ok(table) => table,
                Err(error) => {
                    return Err(error);
                },
            },
        };
        // lets add the new tip block to the table
        table.insert(
            new_tip_block.miner_wallet_address.clone(),
            MAIN_REWARD_SHARE,
            copy_bytes(&new_tip_block.miner_coinbase_extra),
        );
        let ghost chain = old(self)@.chain;
        assert forall|h: int, hash: BlockHash| #[trigger] self@.chain.block_at(h, hash) == chain.block_at(h, hash) by {
            assert(self@.chain.levels == chain.levels);
            assert(self@.chain.level(h) == chain.level(h));
        }
        let ghost target = chain.uncles_set(table.map(), new_tip_block@.uncles, 0);
        assert(chain.payout(new_tip_block@) == target);
        let mut i: usize = 0;
        while i < new_tip_block.uncles.len()
            invariant
                i <= new_tip_block.uncles@.len(),
                self.wf(),
                table.wf(),
                chain == old(self)@.chain,
                chain.payout(new_tip_block@) == target,
                forall|h: int, hash: BlockHash| #[trigger]
                    self@.chain.block_at(h, hash) == chain.block_at(h, hash),
                target == chain.uncles_set(table.map(), new_tip_block@.uncles, i as int),
                chain.keeps_after_payout(self@.chain.cached_shares),
                self@ == (ShareChainView {
                    chain: ChainView { cached_shares: self@.chain.cached_shares, ..old(self)@.chain },
                    ..old(self)@
                }),
            decreases new_tip_block.uncles@.len() - i,
        {
            let (height, hash) = new_tip_block.uncles[i];
            match self.p2_chain.get_block_at_height(height, &hash) {
                Some(uncle) => {
                    table.insert(
                        uncle.miner_wallet_address.clone(),
                        UNCLE_REWARD_SHARE,
                        copy_bytes(&uncle.miner_coinbase_extra),
                    );
                },
                None => {
                    return Err(ShareChainError::UncleBlockNotFound);
                },
            }
            i = i + 1;
        }
        assert(chain.payout(new_tip_block@) == Ok::<_, ShareChainError>(table.map()));
        assert(ShareTable::lists(table@, old(self)@.chain.payout(new_tip_block@)->Ok_0));
        let coinbases = coinbases_for(&table);
        proof {
            crate::sharechain::payout_laws::law_payout_has_recent_miners(chain, new_tip_block@);
            NewCoinbaseView::lemma_settles(coinbases@.map_values(|c: NewBlockCoinbase| c@), chain, new_tip_block@);
        }
        Ok(coinbases)
    }

    /// Height of the tip.
    pub fn tip_height(&self) -> (height: u64)
        requires
            self.wf(),
        ensures
            height == (if self@.chain.tip() is Some {
                self@.chain.current_tip
            } else {
                0
            }),
    {
        self.p2_chain.get_height()
    }

    /// Target of the next block of the chain. `min` and `max` are the bounds of the main chain, and `average` is what the
    /// moving average over the chain's window says; `None` as long as there are too few blocks for one.
    pub fn get_target_difficulty(&self, min: Difficulty, max: Difficulty, average: Option<Difficulty>) -> (target:
        Difficulty)
        requires
            min@ >= ShareChainView::scaling_factor(self@.pow_algo),
        ensures
            target@ == self@.target(min@, max@, reached(average)),
    {
        let factor: u64 = match self.pow_algo {
            PowAlgorithm::RandomX => MIN_RANDOMX_SCALING_FACTOR,
            PowAlgorithm::Sha3x => MIN_SHA3X_SCALING_FACTOR,
        };
        assert(min@ / factor >= 1) by (nonlinear_arith)
            requires
                min@ >= factor,
                factor > 0,
        ;
        target_difficulty_within(min, max, factor, average)
    }

    /// The work of the main chain.
    pub fn chain_pow(&self) -> (total: AccumulatedDifficulty)
        requires
            self.wf(),
        ensures
            total@ == self@.chain.tip_pow(),
    {
        self.p2_chain.total_accumulated_tip_difficulty()
    }

    /// Height and hash of the tip.
    pub fn get_tip(&self) -> (tip: Option<(u64, FixedHash)>)
        requires
            self.wf(),
        ensures
            tip == (match self@.chain.tip() {
                Some(level) => Some((level.height, level.chain_block)),
                None => None,
            }),
    {
        match self.p2_chain.get_tip() {
            Some(level) => Some((level.height, level.chain_block)),
            None => None,
        }
    }

    /// The tip and the uncles that it confirms.
    pub fn get_tip_and_uncles(&self) -> (blocks: Vec<(u64, FixedHash)>)
        requires
            self.wf(),
        ensures
            blocks@ == (match self@.chain.tip() {
                None => Seq::empty(),
                Some(level) => match level.main_block() {
                    None => seq![(level.height, level.chain_block)],
                    Some(block) => seq![(level.height, level.chain_block)] + block.uncles,
                },
            }),
    {
        let mut blocks: Vec<(u64, FixedHash)> = Vec::new();
        match self.p2_chain.get_tip() {
            Some(level) => {
                blocks.push((level.height, level.chain_block));
                match level.block_in_main_chain() {
                    Some(block) => {
                        let mut uncles = crate::sharechain::p2block::copy_uncles(&block.uncles);
                        blocks.append(&mut uncles);
                    },
                    None => {},
                }
            },
            None => {},
        }
        blocks
    }

    /// The requested blocks that are there. A block that is not is answered by the one of the main chain at its height:
    /// a node that only sees that it is behind asks with a zero hash.
    pub fn get_blocks(&self, requested_blocks: &[(u64, FixedHash)]) -> (blocks: Vec<Arc<P2Block>>)
        requires
            self.wf(),
        ensures
            views(blocks@) == self@.chain.fetched(requested_blocks@, requested_blocks@.len() as int),
            self@.chain.answers_all(requested_blocks@, views(blocks@)),
    {
        let mut blocks: Vec<Arc<P2Block>> = Vec::new();
        let mut i: usize = 0;
        assert(views(blocks@) =~= Seq::<BlockView>::empty());
        while i < requested_blocks.len()
            invariant
                i <= requested_blocks@.len(),
                self.wf(),
                views(blocks@) == self@.chain.fetched(requested_blocks@, i as int),
            decreases requested_blocks@.len() - i,
        {
            let (height, hash) = requested_blocks[i];
            match self.p2_chain.level_at_height(height) {
                Some(level) => match level.get(&hash) {
                    Some(block) => {
                        push_block(&mut blocks, block);
                    },
                    None => match level.block_in_main_chain() {
                        Some(block) => {
                            push_block(&mut blocks, block);
                        },
                        None => {},
                    },
                },
                None => {},
            }
            i = i + 1;
        }
        proof {
            self@.chain.lemma_answers_all(requested_blocks@);
        }
        blocks
    }

    /// Blocks for a node that has `their_blocks` and got `last_block_received` last: from the highest block on that
    /// both have.
    pub fn request_sync(
        &self,
        their_blocks: &[(u64, FixedHash)],
        limit: usize,
        last_block_received: Option<(u64, FixedHash)>,
    ) -> (blocks: Vec<Arc<P2Block>>)
        requires
            self.wf(),
        ensures
            ({
                let last = self@.chain.known_height(last_block_received);
                let split = self@.chain.highest_match(their_blocks@, their_blocks@.len() as int);
                let start = if last > split {
                    last
                } else {
                    split
                };
                &&& views(blocks@) == self@.chain.page(start as int, limit as int, true)
                &&& self@.chain.syncs_from(their_blocks@, last_block_received, start as int)
                &&& self@.chain.hands_out(start as int, limit as int, true, views(blocks@))
            }),
    {
        let mut start: u64 = match last_block_received {
            Some((height, hash)) => match self.p2_chain.get_block_at_height(height, &hash) {
                Some(_) => height,
                None => 0,
            },
            None => 0,
        };
        // find the split in the chain
        let mut split: u64 = 0;
        let mut i: usize = 0;
        while i < their_blocks.len()
            invariant
                i <= their_blocks@.len(),
                self.wf(),
                split == self@.chain.highest_match(their_blocks@, i as int),
            decreases their_blocks@.len() - i,
        {
            let (height, hash) = their_blocks[i];
            if height > split {
                match self.p2_chain.level_at_height(height) {
                    Some(level) => {
                        // Only split if the block is in the main chain
                        if level.contains(&hash) && level.chain_block == hash {
                            split = height;
                        }
                    },
                    None => {},
                }
            }
            i = i + 1;
        }
        if split > start {
            start = split;
        }
        proof {
            self@.chain.lemma_syncs_from(their_blocks@, last_block_received);
        }
        self.all_blocks(Some(start), limit, true)
    }

    /// What a node that catches up tells of its chain: the tip and the blocks of the main chain at most `size` levels below
    /// it, highest first.
    pub fn create_catchup_sync_blocks(&self, size: usize) -> (list: Vec<(u64, FixedHash)>)
        requires
            self.wf(),
        ensures
            list@ == self@.chain.newest(size as int),
            self@.chain.tells_newest(size as int, list@),
    {
        proof {
            crate::sharechain::handout_laws::law_newest_blocks_are_told(self@.chain, size as int);
        }
        let mut list: Vec<(u64, FixedHash)> = Vec::new();
        let ghost chain = self@.chain;
        let tip: u64 = match self.p2_chain.get_tip() {
            Some(level) => level.height,
            None => {
                assert(list@ =~= chain.newest(size as int));
                return list;
            },
        };
        let lowest: u64 = if tip > size as u64 {
            tip - size as u64
        } else {
            0
        };
        let ghost target = chain.newest(size as int);
        let mut height: u64 = tip;
        assert(list@ + chain.main_chain_down(height as int, lowest as int) =~= target);
        loop
            invariant_except_break
                target == list@ + chain.main_chain_down(height as int, lowest as int),
            invariant
                self.wf(),
                chain == self@.chain,
                lowest <= height,
            ensures
                list@ == target,
            decreases height,
        {
            let ghost before = list@;
            let ghost below = chain.main_chain_down(height - 1, lowest as int);
            match self.p2_chain.level_at_height(height) {
                Some(level) => match level.block_in_main_chain() {
                    Some(_) => {
                        list.push((level.height, level.chain_block));
                        assert(before + (seq![(level.height, level.chain_block)] + below) =~= list@ + below);
                    },
                    None => {},
                },
                None => {},
            }
            assert(target == list@ + below);
            if height == lowest {
                assert(list@ + below =~= list@);
                break;
            }
            height = height - 1;
        }
        list
    }

    /// A page of blocks from a height on, lowest first; from the lowest level if the height is below it. All blocks of a
    /// level are in it, those of the main chain and the others.
    pub fn all_blocks(&self, start_height: Option<u64>, page_size: usize, main_chain_only: bool) -> (blocks: Vec<
        Arc<P2Block>,
    >)
        requires
            self.wf(),
        ensures
            views(blocks@) == self@.chain.page(
                (match start_height {
                    Some(height) => height as int,
                    None => 0,
                }),
                page_size as int,
                main_chain_only,
            ),
            self@.chain.hands_out(
                (match start_height {
                    Some(height) => height as int,
                    None => 0,
                }),
                page_size as int,
                main_chain_only,
                views(blocks@),
            ),
    {
        proof {
            self@.chain.lemma_hands_out(
                (match start_height {
                    Some(height) => height as int,
                    None => 0,
                }),
                page_size as int,
                main_chain_only,
            );
        }
        self.fill_page(start_height, page_size, main_chain_only)
    }

    fn fill_page(&self, start_height: Option<u64>, page_size: usize, main_chain_only: bool) -> (blocks: Vec<Arc<P2Block>>)
        requires
            self.wf(),
        ensures
            views(blocks@) == self@.chain.page(
                (match start_height {
                    Some(height) => height as int,
                    None => 0,
                }),
                page_size as int,
                main_chain_only,
            ),
    {
        let mut start: u64 = match start_height {
            Some(height) => height,
            None => 0,
        };
        let mut page: Vec<Arc<P2Block>> = Vec::new();
        let mut mains: u64 = 0;
        if self.p2_chain.levels.len() > 0 && start < self.p2_chain.lowest_height() {
            start = self.p2_chain.lowest_height();
        }
        let ghost chain = self@.chain;
        let ghost target = chain.paged(start as int, 0, Seq::empty(), 0, page_size as int, main_chain_only);
        let ghost wanted = target;
        let mut height: u64 = start;
        assert(views(page@) =~= Seq::<BlockView>::empty());
        loop
            invariant
                self.wf(),
                chain == self@.chain,
                mains <= 2,
                wanted == target,
                wanted == chain.page(
                    (match start_height {
                        Some(height) => height as int,
                        None => 0,
                    }),
                    page_size as int,
                    main_chain_only,
                ),
                target == chain.paged(
                    height as int,
                    0,
                    views(page@),
                    mains as int,
                    page_size as int,
                    main_chain_only,
                ),
            decreases chain.levels.len() + chain.base() - height,
        {
            let level = match self.p2_chain.level_at_height(height) {
                Some(level) => level,
                None => {
                    return page;
                },
            };
            proof {
                chain.lemma_level(height as int);
            }
            let mut i: usize = 0;
            while i < level.blocks.blocks.len()
                invariant
                    i <= level.blocks.blocks@.len(),
                    self.wf(),
                    chain == self@.chain,
                    chain.level(height as int) == Some(level@),
                    level@.wf(),
                    mains <= 2,
                    wanted == target,
                    wanted == chain.page(
                        (match start_height {
                            Some(height) => height as int,
                            None => 0,
                        }),
                        page_size as int,
                        main_chain_only,
                    ),
                    target == chain.paged(
                        height as int,
                        i as int,
                        views(page@),
                        mains as int,
                        page_size as int,
                        main_chain_only,
                    ),
                decreases level.blocks.blocks@.len() - i,
            {
                let block = &level.blocks.blocks[i];
                assert(level@.blocks[i as int] == block@);
                if block.hash == level.chain_block {
                    if mains < 2 {
                        mains = mains + 1;
                    }
                    if main_chain_only {
                        // Always include all the uncles, if we have them
                        self.push_uncles(&mut page, level, block);
                    }
                }
                push_block(&mut page, block);
                // Always include at least 2 main chain blocks so that if we called this function with the starting
                // mainchain block we can continue asking for more blocks
                if page.len() >= page_size && (!main_chain_only || mains >= 2) {
                    return page;
                }
                i = i + 1;
            }
            height = height + 1;
        }
    }

    fn push_uncles(&self, page: &mut Vec<Arc<P2Block>>, level: &P2ChainLevel, block: &P2Block)
        requires
            level@.wf(),
        ensures
            views(final(page)@) == views(old(page)@) + ChainView::uncles_on(
                level@,
                block@.uncles,
                block@.uncles.len() as int,
            ),
    {
        let ghost start = views(page@);
        let mut i: usize = 0;
        assert(views(page@) =~= start + ChainView::uncles_on(level@, block@.uncles, 0));
        while i < block.uncles.len()
            invariant
                i <= block.uncles@.len(),
                level@.wf(),
                views(page@) == start + ChainView::uncles_on(level@, block@.uncles, i as int),
            decreases block.uncles@.len() - i,
        {
            match level.get(&block.uncles[i].1) {
                Some(uncle) => {
                    push_block(page, uncle);
                },
                None => {},
            }
            i = i + 1;
            proof {
                assert(views(page@) =~= start + ChainView::uncles_on(level@, block@.uncles, i as int));
            }
        }
    }

    /// Whether a block is there.
    pub fn has_block(&self, height: u64, hash: &FixedHash) -> (found: bool)
        requires
            self.wf(),
        ensures
            found <==> self@.chain.block_at(height as int, *hash) is Some,
    {
        self.p2_chain.get_block_at_height(height, hash).is_some()
    }
}

}
