//! Laws on which blocks a share chain takes.
use crate::sharechain::chain_model::{AddView, MAX_UNCLE_AGE};
use crate::sharechain::error::{ShareChainError, ValidationError};
use crate::sharechain::p2block::{BlockView, TariAddress, PROTOCOL_VERSION};
use crate::sharechain::share_rules::{ShareChainView, SHARE_WINDOW, UNCLE_LIMIT, UNCLE_START_HEIGHT};
use vstd::prelude::*;

verus! {

impl ShareChainView {
    /// The block is of the chain's algorithm, and the difficulty that it reached is known and no less than its target.
    pub open spec fn has_work(self, block: BlockView, achieved: Option<u64>) -> bool {
        &&& block.header.pow_algo == self.pow_algo
        &&& achieved is Some
        &&& achieved->Some_0 >= block.target_difficulty
    }

    /// The same rules hold: the algorithm is the same, and so is whether RandomX blocks can be checked.
    pub open spec fn same_rules(self, before: ShareChainView) -> bool {
        self.pow_algo == before.pow_algo && self.has_validation_params == before.has_validation_params
    }
}

impl BlockView {
    /// The block has few enough uncles, none of them below the height at which uncles are allowed, and each lies below
    /// it, but not too far.
    pub open spec fn keeps_uncle_rules(self) -> bool {
        &&& self.uncles.len() <= UNCLE_LIMIT
        &&& self.height < UNCLE_START_HEIGHT ==> self.uncles.len() == 0
        &&& forall|i: int|
            0 <= i < self.uncles.len() ==> self.height - MAX_UNCLE_AGE <= (#[trigger] self.uncles[i]).0 < self.height
    }
}

proof fn lemma_ages(block: BlockView, from: int)
    requires
        0 <= from <= block.uncles.len(),
    ensures
        block.uncle_age_fault(from) is None <==> forall|i: int|
            from <= i < block.uncles.len() ==> block.height - MAX_UNCLE_AGE <= (#[trigger] block.uncles[i]).0
                < block.height,
    decreases block.uncles.len() - from,
{
    if from < block.uncles.len() {
        lemma_ages(block, from + 1);
        let first = block.uncles[from];
        if block.uncle_age_fault(from) is None {
            assert forall|i: int| from <= i < block.uncles.len() implies block.height - MAX_UNCLE_AGE <= (
            #[trigger] block.uncles[i]).0 < block.height by {
                if i > from {
                    assert(block.uncle_age_fault(from + 1) is None);
                }
            }
        }
    }
}

/// A block keeps the rules on uncles if it has at most [`UNCLE_LIMIT`], none below [`UNCLE_START_HEIGHT`], and each is
/// between one and [`MAX_UNCLE_AGE`] levels below the block; and only then.
pub proof fn law_uncle_rules(block: BlockView)
    ensures
        block.uncle_rule_fault() is None <==> {
            &&& block.uncles.len() <= UNCLE_LIMIT
            &&& block.height < UNCLE_START_HEIGHT ==> block.uncles.len() == 0
            &&& forall|i: int|
                0 <= i < block.uncles.len() ==> block.height - MAX_UNCLE_AGE <= (#[trigger] block.uncles[i]).0
                    < block.height
        },
{
    lemma_ages(block, 0);
    if block.uncles.len() == 0 {
        assert(block.uncle_age_fault(0) is None);
    }
}

/// Whatever a block changes, whether it is synced or not, it is of the chain's algorithm, and the difficulty that it
/// reached is known and at least its target. One that falls short is turned away with an error and leaves everything as
/// it was; only one that is there already, and is not synced, gives no error.
pub proof fn law_blocks_need_work(
    chain: ShareChainView,
    block: BlockView,
    achieved: Option<u64>,
    syncing: bool,
    fuel: nat,
)
    requires
        chain.submitted(block, achieved, syncing, fuel) is Some,
    ensures
        ({
            let (after, result) = chain.submitted(block, achieved, syncing, fuel)->Some_0;
            &&& after != chain ==> {
                &&& block.header.pow_algo == chain.pow_algo
                &&& achieved is Some
                &&& achieved->Some_0 >= block.target_difficulty
            }
            &&& result is Ok ==> {
                ||| {
                    &&& block.header.pow_algo == chain.pow_algo
                    &&& achieved is Some
                    &&& achieved->Some_0 >= block.target_difficulty
                }
                ||| {
                    &&& !syncing
                    &&& chain.chain.block_at(block.height as int, block.hash) is Some
                }
            }
            &&& after.same_rules(chain)
        }),
{
}

/// A synced block that has its work is handed to the chain, whatever its height and its uncles; so is a block that is
/// submitted, if it is not there already, not further below the tip than the share window, and keeps the rules on uncles.
/// What the chain says of it is the answer.
pub proof fn law_blocks_with_work_are_taken(
    chain: ShareChainView,
    block: BlockView,
    achieved: Option<u64>,
    syncing: bool,
    fuel: nat,
)
    requires
        chain.has_work(block, achieved),
        chain.pow_algo is RandomX ==> chain.has_validation_params,
        syncing || chain.chain.tip() is None || block.height == 0 || {
            &&& block.height + SHARE_WINDOW >= chain.chain.current_tip
            &&& chain.chain.block_at(block.height as int, block.hash) is None
            &&& block.keeps_uncle_rules()
        },
    ensures
        match (chain.submitted(block, achieved, syncing, fuel), chain.chain.add_block(block, fuel)) {
            (Some((after, result)), Some((added, outcome))) => after.chain == added && result == outcome,
            (None, None) => true,
            _ => false,
        },
{
    law_uncle_rules(block);
}

/// A block that is submitted, and not synced, onto a chain with a tip is turned away if it lies too far below the tip or
/// breaks the rules on uncles; a chain that has it already stays as it is.
pub proof fn law_submitted_blocks_keep_the_rules(
    chain: ShareChainView,
    block: BlockView,
    achieved: Option<u64>,
    fuel: nat,
)
    requires
        chain.chain.tip() is Some,
        block.height > 0,
    ensures
        block.height + SHARE_WINDOW < chain.chain.current_tip ==> (chain.submitted(
            block,
            achieved,
            false,
            fuel,
        ) matches Some((after, result)) && after == chain && result is Err),
        block.height + SHARE_WINDOW >= chain.chain.current_tip && chain.chain.block_at(
            block.height as int,
            block.hash,
        ) is Some ==> chain.submitted(block, achieved, false, fuel) == Some(
            (chain, Ok::<_, ShareChainError>(AddView { new_tip: None, missing: Seq::empty() })),
        ),
        !block.keeps_uncle_rules() && chain.chain.block_at(block.height as int, block.hash) is None ==> (
        chain.submitted(block, achieved, false, fuel) matches Some((after, result)) && after == chain
            && result is Err),
{
    law_uncle_rules(block);
}

/// A block of another version of the rules is turned away, whatever else it is.
pub proof fn law_other_versions_are_turned_away(
    chain: ShareChainView,
    block: BlockView,
    achieved: Option<u64>,
    syncing: bool,
    fuel: nat,
)
    ensures
        block.version != PROTOCOL_VERSION ==> (chain.submitted_current(
            block,
            achieved,
            syncing,
            fuel,
        ) matches Some((after, result)) && after == chain && result is Err),
        block.version == PROTOCOL_VERSION ==> chain.submitted_current(block, achieved, syncing, fuel)
            == chain.submitted(block, achieved, syncing, fuel),
{
}

/// What is said of a block that falls short: it is of another algorithm, or its difficulty could not be found, or it is
/// below the target.
pub proof fn law_shortfalls_are_named(chain: ShareChainView, block: BlockView, achieved: Option<u64>, fuel: nat)
    requires
        chain.pow_algo is RandomX ==> chain.has_validation_params,
    ensures
        ({
            let result = (chain.submitted(block, achieved, true, fuel)->Some_0).1;
            &&& block.header.pow_algo != chain.pow_algo ==> result == Err::<AddView, _>(
                ShareChainError::ValidationError { error: ValidationError::InvalidPowAlgorithm },
            )
            &&& block.header.pow_algo == chain.pow_algo && achieved is Some && achieved->Some_0
                < block.target_difficulty ==> result == Err::<AddView, _>(
                ShareChainError::ValidationError { error: ValidationError::DifficultyTarget },
            )
            &&& block.header.pow_algo == chain.pow_algo && achieved is None ==> result == Err::<AddView, _>(
                ShareChainError::ValidationError {
                    error: if chain.pow_algo is RandomX {
                        ValidationError::RandomXDifficulty
                    } else {
                        ValidationError::Difficulty
                    },
                },
            )
        }),
{
}

/// A block that is submitted without an error has at most 3 uncles, none if it lies below height 10, and each of them lies 1
/// to 3 levels below it.
pub proof fn law_uncles_are_few_and_near(block: BlockView)
    ensures
        block.uncle_rule_fault() is None <==> {
            &&& block.uncles.len() <= 3
            &&& block.height < 10 ==> block.uncles.len() == 0
            &&& forall|i: int|
                0 <= i < block.uncles.len() ==> (#[trigger] block.uncles[i]).0 + 3 >= block.height && block.uncles[i].0
                    < block.height
        },
{
    law_uncle_rules(block);
}

/// When a block that was submitted gets onto a chain with a tip, the free bytes of the first of its coinbases that pays its
/// miner are noted for the miner, and those of nobody else change. Blocks that are synced, that are turned away or that were
/// there already note nothing.
pub proof fn law_free_bytes_are_noted(
    chain: ShareChainView,
    block: BlockView,
    achieved: Option<u64>,
    syncing: bool,
    fuel: nat,
    i: int,
    other: Seq<u8>,
)
    requires
        chain.submitted(block, achieved, syncing, fuel) is Some,
        0 <= i < block.coinbases.len(),
        TariAddress::script_of(block.miner) == Some(block.coinbases[i].script),
        forall|j: int| 0 <= j < i ==> (#[trigger] block.coinbases[j]).script != block.coinbases[i].script,
    ensures
        ({
            let (after, result) = chain.submitted(block, achieved, syncing, fuel)->Some_0;
            let is_new = !syncing && chain.chain.tip() is Some && block.height > 0 && chain.chain.block_at(
                block.height as int,
                block.hash,
            ) is None;
            &&& is_new && result is Ok ==> after.coinbase_extras.dom().contains(block.miner)
                && after.coinbase_extras[block.miner] == block.coinbases[i].coinbase_extra
            &&& is_new && result is Ok && other != block.miner ==> (after.coinbase_extras.dom().contains(other)
                <==> chain.coinbase_extras.dom().contains(other)) && after.coinbase_extras[other]
                == chain.coinbase_extras[other]
            &&& !is_new || result is Err ==> after.coinbase_extras == chain.coinbase_extras
        }),
{
    crate::sharechain::block_laws::law_first_coinbase_counts(block.coinbases, block.coinbases[i].script, 0, i);
}

/// Without the means to check RandomX blocks a chain of them takes none: each is turned away, unless it is there already.
pub proof fn law_unchecked_blocks_are_turned_away(
    chain: ShareChainView,
    block: BlockView,
    achieved: Option<u64>,
    syncing: bool,
    fuel: nat,
)
    requires
        chain.pow_algo is RandomX,
        !chain.has_validation_params,
    ensures
        chain.submitted(block, achieved, syncing, fuel) matches Some((after, result)) && after == chain && (result is Err
            || (!syncing && chain.chain.block_at(block.height as int, block.hash) is Some)),
{
}

}
