//! What can go wrong on the share chain.
use crate::text::copy_text;
use crate::types::FixedHash;
use vstd::prelude::*;
use vstd::string::*;

verus! {

/// Why a block can be in no chain.
#[derive(Clone, Copy, PartialEq, Eq, Structural, Debug)]
pub enum InvalidReason {
    /// An uncle of the block is its parent too.
    UncleIsParent,
    /// The block was offered to the level of another height.
    HeightMismatch,
}

/// Why a submitted block was turned away.
#[derive(Clone, Copy, PartialEq, Eq, Structural, Debug)]
pub enum RejectReason {
    /// The block follows another version of the rules.
    VersionMismatch,
    /// The block is below the share window.
    OlderThanShareWindow,
}

/// Errors of the share chain.
#[derive(Clone, Copy, PartialEq, Eq, Structural, Debug)]
pub enum ShareChainError {
    /// The block can be in no chain.
    InvalidBlock { reason: InvalidReason },
    /// The block was turned away.
    BlockValidation { cause: RejectReason },
    /// A sum of difficulties does not fit.
    DifficultyOverflow,
    /// An uncle is not in the chain.
    UncleBlockNotFound,
    /// A block is not in the chain.
    BlockNotFound,
    /// A level is not in the chain.
    BlockLevelNotFound,
    /// The block breaks a rule.
    ValidationError { error: ValidationError },
    /// A RandomX chain needs parameters to check blocks with.
    MissingBlockValidationParams,
    /// The total work that the block claims is not that of its ancestors and uncles.
    BlockTotalWorkMismatch,
    /// The parent of an uncle is not in the main chain.
    UncleParentNotInMainChain,
    /// An uncle is in the main chain.
    UncleInMainChain { height: u64, hash: FixedHash },
    /// While the main chain was relinked, a level lacked the parent of the block above it.
    ReorgParentMissing { height: u64, hash: FixedHash },
}

/// Rules that a block can break.
#[derive(Clone, Copy, PartialEq, Eq, Structural, Debug)]
pub enum ValidationError {
    /// The block was mined for another chain.
    InvalidPowAlgorithm,
    /// A RandomX block needs parameters to be checked with.
    MissingBlockValidationParams,
    /// The SHA3x difficulty could not be found.
    Difficulty,
    /// The RandomX difficulty could not be found.
    RandomXDifficulty,
    /// The block did not reach its target.
    DifficultyTarget,
    /// The block has more uncles than it may.
    TooManyUncles,
    /// The block has uncles below the height at which they are allowed.
    UnclesBeforeStartHeight,
    /// An uncle is too far below the block.
    UncleTooOld,
    /// An uncle is not below the block.
    UnclesOnSameHeightOrHigher,
}

impl ValidationError {
    /// The text of the error.
    pub open spec fn text(self) -> Seq<char> {
        match self {
            ValidationError::InvalidPowAlgorithm => "Proof of work algorithm does not match chain algorithm"@,
            ValidationError::MissingBlockValidationParams => "Missing block validation params!"@,
            ValidationError::Difficulty => "Difficulty calculation error"@,
            ValidationError::RandomXDifficulty => "RandomX difficulty calculation error"@,
            ValidationError::DifficultyTarget => "Block achieved difficulty is below the target"@,
            ValidationError::TooManyUncles => "Too many uncles"@,
            ValidationError::UnclesBeforeStartHeight => "Uncles before the uncle start height"@,
            ValidationError::UncleTooOld => "Uncle is too old"@,
            ValidationError::UnclesOnSameHeightOrHigher => "Uncles on same height or higher"@,
        }
    }

    /// The text of the error.
    pub fn message(&self) -> (text: &'static str)
        ensures
            text@ == self.text(),
    {
        match self {
            ValidationError::InvalidPowAlgorithm => "Proof of work algorithm does not match chain algorithm",
            ValidationError::MissingBlockValidationParams => "Missing block validation params!",
            ValidationError::Difficulty => "Difficulty calculation error",
            ValidationError::RandomXDifficulty => "RandomX difficulty calculation error",
            ValidationError::DifficultyTarget => "Block achieved difficulty is below the target",
            ValidationError::TooManyUncles => "Too many uncles",
            ValidationError::UnclesBeforeStartHeight => "Uncles before the uncle start height",
            ValidationError::UncleTooOld => "Uncle is too old",
            ValidationError::UnclesOnSameHeightOrHigher => "Uncles on same height or higher",
        }
    }
}

impl ShareChainError {
    /// The text of the error.
    pub open spec fn text(self) -> Seq<char> {
        match self {
            ShareChainError::InvalidBlock { reason: InvalidReason::UncleIsParent } =>
                "Invalid block: Uncle cannot be the same as prev_hash"@,
            ShareChainError::InvalidBlock { reason: InvalidReason::HeightMismatch } =>
                "Invalid block: Block height does not match the chain level height"@,
            ShareChainError::BlockValidation { cause: RejectReason::VersionMismatch } =>
                "Block validation error: Block version is too low"@,
            ShareChainError::BlockValidation { cause: RejectReason::OlderThanShareWindow } =>
                "Block validation error: Block is older than share window"@,
            ShareChainError::DifficultyOverflow => "Difficulty calculation has overflowed"@,
            ShareChainError::UncleBlockNotFound => "Uncle block not found in chain"@,
            ShareChainError::BlockNotFound => "Block not found in chain"@,
            ShareChainError::BlockLevelNotFound => "Expected Block level not found in chain"@,
            ShareChainError::ValidationError { error } => "Validation error: "@ + error.text(),
            ShareChainError::MissingBlockValidationParams => "Missing block validation params!"@,
            ShareChainError::BlockTotalWorkMismatch => "Block total work mismatch"@,
            ShareChainError::UncleParentNotInMainChain => "Uncle's parent not in main chain"@,
            ShareChainError::UncleInMainChain { .. } => "Uncle in main chain"@,
            ShareChainError::ReorgParentMissing { .. } => "Parent block not found while reorging"@,
        }
    }

    /// The text of the error.
    pub fn message(&self) -> (text: String)
        ensures
            text@ == self.text(),
    {
        match self {
            ShareChainError::InvalidBlock { reason: InvalidReason::UncleIsParent } => copy_text(
                "Invalid block: Uncle cannot be the same as prev_hash",
            ),
            ShareChainError::InvalidBlock { reason: InvalidReason::HeightMismatch } => copy_text(
                "Invalid block: Block height does not match the chain level height",
            ),
            ShareChainError::BlockValidation { cause: RejectReason::VersionMismatch } => copy_text(
                "Block validation error: Block version is too low",
            ),
            ShareChainError::BlockValidation { cause: RejectReason::OlderThanShareWindow } => copy_text(
                "Block validation error: Block is older than share window",
            ),
            ShareChainError::DifficultyOverflow => copy_text("Difficulty calculation has overflowed"),
            ShareChainError::UncleBlockNotFound => copy_text("Uncle block not found in chain"),
            ShareChainError::BlockNotFound => copy_text("Block not found in chain"),
            ShareChainError::BlockLevelNotFound => copy_text("Expected Block level not found in chain"),
            ShareChainError::ValidationError { error } => {
                let mut text = copy_text("Validation error: ");
                text.append(error.message());
                text
            },
            ShareChainError::MissingBlockValidationParams => copy_text("Missing block validation params!"),
            ShareChainError::BlockTotalWorkMismatch => copy_text("Block total work mismatch"),
            ShareChainError::UncleParentNotInMainChain => copy_text("Uncle's parent not in main chain"),
            ShareChainError::UncleInMainChain { .. } => copy_text("Uncle in main chain"),
            ShareChainError::ReorgParentMissing { .. } => copy_text("Parent block not found while reorging"),
        }
    }

    /// The name of the error. What an error without fields is called when it is printed for debugging.
    pub open spec fn spec_name(self) -> Seq<char> {
        match self {
            ShareChainError::InvalidBlock { .. } => "InvalidBlock"@,
            ShareChainError::BlockValidation { .. } => "BlockValidation"@,
            ShareChainError::DifficultyOverflow => "DifficultyOverflow"@,
            ShareChainError::UncleBlockNotFound => "UncleBlockNotFound"@,
            ShareChainError::BlockNotFound => "BlockNotFound"@,
            ShareChainError::BlockLevelNotFound => "BlockLevelNotFound"@,
            ShareChainError::ValidationError { .. } => "ValidationError"@,
            ShareChainError::MissingBlockValidationParams => "MissingBlockValidationParams"@,
            ShareChainError::BlockTotalWorkMismatch => "BlockTotalWorkMismatch"@,
            ShareChainError::UncleParentNotInMainChain => "UncleParentNotInMainChain"@,
            ShareChainError::UncleInMainChain { .. } => "UncleInMainChain"@,
            ShareChainError::ReorgParentMissing { .. } => "ReorgParentMissing"@,
        }
    }

    /// The name of the error.
    pub fn name(&self) -> (name: &'static str)
        ensures
            name@ == self.spec_name(),
    {
        match self {
            ShareChainError::InvalidBlock { .. } => "InvalidBlock",
            ShareChainError::BlockValidation { .. } => "BlockValidation",
            ShareChainError::DifficultyOverflow => "DifficultyOverflow",
            ShareChainError::UncleBlockNotFound => "UncleBlockNotFound",
            ShareChainError::BlockNotFound => "BlockNotFound",
            ShareChainError::BlockLevelNotFound => "BlockLevelNotFound",
            ShareChainError::ValidationError { .. } => "ValidationError",
            ShareChainError::MissingBlockValidationParams => "MissingBlockValidationParams",
            ShareChainError::BlockTotalWorkMismatch => "BlockTotalWorkMismatch",
            ShareChainError::UncleParentNotInMainChain => "UncleParentNotInMainChain",
            ShareChainError::UncleInMainChain { .. } => "UncleInMainChain",
            ShareChainError::ReorgParentMissing { .. } => "ReorgParentMissing",
        }
    }
}

}
