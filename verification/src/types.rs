//! Plain values shared by the whole library: hashes, difficulties and proof-of-work algorithms.
use vstd::bytes::{u128_from_le_bytes, u128_to_le_bytes};
use vstd::prelude::*;
use vstd::slice::slice_subrange;

verus! {

/// A 32-byte hash, kept as two halves.
#[derive(Clone, Copy, PartialEq, Eq, Structural, Debug, Hash)]
pub struct FixedHash {
    /// Bytes 0 to 15, as a little-endian number.
    pub first: u128,
    /// Bytes 16 to 31, as a little-endian number.
    pub second: u128,
}

/// The hash of a block of the share chain.
pub type BlockHash = FixedHash;

/// Number of bytes in a [`FixedHash`].
pub const HASH_LENGTH: usize = 32;

impl FixedHash {
    /// The hash whose bytes are all zero.
    pub open spec fn spec_zero() -> FixedHash {
        FixedHash { first: 0, second: 0 }
    }

    /// The hash whose bytes are all zero.
    #[verifier::when_used_as_spec(spec_zero)]
    pub fn zero() -> (hash: FixedHash)
        ensures
            hash == FixedHash::spec_zero(),
    {
        FixedHash { first: 0, second: 0 }
    }

    /// The 32 bytes of the hash.
    pub open spec fn bytes(self) -> Seq<u8> {
        vstd::bytes::spec_u128_to_le_bytes(self.first) + vstd::bytes::spec_u128_to_le_bytes(self.second)
    }

    /// Reads a hash from its bytes; there must be exactly [`HASH_LENGTH`] of them.
    pub fn from_bytes(bytes: &[u8]) -> (hash: Option<FixedHash>)
        ensures
            hash is Some <==> bytes@.len() == HASH_LENGTH,
            hash matches Some(h) ==> h.bytes() == bytes@,
    {
        if bytes.len() != HASH_LENGTH {
            return None;
        }
        proof {
            vstd::bytes::lemma_auto_spec_u128_to_from_le_bytes();
            assert(bytes@.subrange(0, 16) + bytes@.subrange(16, 32) =~= bytes@);
        }
        Some(
            FixedHash {
                first: u128_from_le_bytes(slice_subrange(bytes, 0, 16)),
                second: u128_from_le_bytes(slice_subrange(bytes, 16, 32)),
            },
        )
    }

    /// The hash's 32 bytes.
    pub fn to_vec(&self) -> (bytes: Vec<u8>)
        ensures
            bytes@ == self.bytes(),
            bytes@.len() == HASH_LENGTH,
    {
        let mut bytes = u128_to_le_bytes(self.first);
        let mut rest = u128_to_le_bytes(self.second);
        bytes.append(&mut rest);
        bytes
    }
}

/// Different hashes have different bytes.
pub proof fn law_hash_bytes_are_injective(a: FixedHash, b: FixedHash)
    ensures
        a.bytes() == b.bytes() ==> a == b,
        a.bytes().len() == HASH_LENGTH,
{
    vstd::bytes::lemma_auto_spec_u128_to_from_le_bytes();
    assert(a.bytes().subrange(0, 16) =~= vstd::bytes::spec_u128_to_le_bytes(a.first));
    assert(b.bytes().subrange(0, 16) =~= vstd::bytes::spec_u128_to_le_bytes(b.first));
    assert(a.bytes().subrange(16, 32) =~= vstd::bytes::spec_u128_to_le_bytes(a.second));
    assert(b.bytes().subrange(16, 32) =~= vstd::bytes::spec_u128_to_le_bytes(b.second));
}

/// Algorithm by which a block was mined.
#[derive(Clone, Copy, PartialEq, Eq, Structural, Debug, Hash)]
pub enum PowAlgorithm {
    /// Merge-minable RandomX.
    RandomX,
    /// SHA3x.
    Sha3x,
}

/// The smallest difficulty that a block can have.
pub const MIN_DIFFICULTY: u64 = 1;

/// The difficulty of one block, at least [`MIN_DIFFICULTY`].
#[derive(Clone, Copy, PartialEq, Eq, Structural, Debug, PartialOrd, Ord)]
pub struct Difficulty {
    value: u64,
}

impl View for Difficulty {
    type V = u64;

    closed spec fn view(&self) -> u64 {
        self.value
    }
}

impl Difficulty {
    #[verifier::type_invariant]
    closed spec fn at_least_minimum(self) -> bool {
        self.value >= MIN_DIFFICULTY
    }

    /// The smallest difficulty.
    pub fn min() -> (difficulty: Difficulty)
        ensures
            difficulty@ == MIN_DIFFICULTY,
    {
        Difficulty { value: MIN_DIFFICULTY }
    }

    /// The difficulty `value`, unless that is below [`MIN_DIFFICULTY`].
    pub fn from_u64(value: u64) -> (difficulty: Option<Difficulty>)
        ensures
            difficulty is Some <==> value >= MIN_DIFFICULTY,
            difficulty matches Some(d) ==> d@ == value,
    {
        if value < MIN_DIFFICULTY {
            None
        } else {
            Some(Difficulty { value })
        }
    }

    /// The difficulty as a number.
    pub fn as_u64(&self) -> (value: u64)
        ensures
            value == self@,
            value >= MIN_DIFFICULTY,
    {
        proof {
            use_type_invariant(self);
        }
        self.value
    }
}

/// The difficulty of a whole chain of blocks, at least [`MIN_DIFFICULTY`].
#[derive(Clone, Copy, PartialEq, Eq, Structural, Debug, PartialOrd, Ord)]
pub struct AccumulatedDifficulty {
    value: u128,
}

impl View for AccumulatedDifficulty {
    type V = u128;

    closed spec fn view(&self) -> u128 {
        self.value
    }
}

impl AccumulatedDifficulty {
    #[verifier::type_invariant]
    closed spec fn at_least_minimum(self) -> bool {
        self.value >= MIN_DIFFICULTY
    }

    /// The smallest accumulated difficulty.
    pub fn min() -> (difficulty: AccumulatedDifficulty)
        ensures
            difficulty@ == MIN_DIFFICULTY,
    {
        AccumulatedDifficulty { value: 1 }
    }

    /// The accumulated difficulty `value`, unless that is below [`MIN_DIFFICULTY`].
    pub fn from_u128(value: u128) -> (difficulty: Option<AccumulatedDifficulty>)
        ensures
            difficulty is Some <==> value >= MIN_DIFFICULTY,
            difficulty matches Some(d) ==> d@ == value,
    {
        if value < 1 {
            None
        } else {
            Some(AccumulatedDifficulty { value })
        }
    }

    /// The accumulated difficulty of a single block.
    pub fn from_difficulty(difficulty: Difficulty) -> (total: AccumulatedDifficulty)
        ensures
            total@ == difficulty@,
    {
        AccumulatedDifficulty { value: difficulty.as_u64() as u128 }
    }

    /// The accumulated difficulty as a number.
    pub fn as_u128(&self) -> (value: u128)
        ensures
            value == self@,
            value >= MIN_DIFFICULTY,
    {
        proof {
            use_type_invariant(self);
        }
        self.value
    }

    /// Adds the difficulty of one more block, unless the sum does not fit.
    pub fn checked_add_difficulty(&self, difficulty: Difficulty) -> (total: Option<AccumulatedDifficulty>)
        ensures
            total is Some <==> self@ + difficulty@ <= u128::MAX,
            total matches Some(t) ==> t@ == self@ + difficulty@,
    {
        let mine: u128 = self.as_u128();
        let theirs: u128 = difficulty.as_u64() as u128;
        if mine > u128::MAX - theirs {
            None
        } else {
            Some(AccumulatedDifficulty { value: mine + theirs })
        }
    }

    /// Takes the difficulty of one block away, unless less than [`MIN_DIFFICULTY`] would remain.
    pub fn checked_sub_difficulty(&self, difficulty: Difficulty) -> (total: Option<AccumulatedDifficulty>)
        ensures
            total is Some <==> self@ - difficulty@ >= MIN_DIFFICULTY,
            total matches Some(t) ==> t@ == self@ - difficulty@,
    {
        let mine: u128 = self.as_u128();
        let theirs: u128 = difficulty.as_u64() as u128;
        if mine <= theirs {
            None
        } else {
            Some(AccumulatedDifficulty { value: mine - theirs })
        }
    }
}

}
