//! How blocks are kept on disk.
use crate::bytes::copy_bytes;
use crate::text::{copy_text, lists_text};
use crate::types::FixedHash;
use vstd::bytes::*;
use vstd::prelude::*;
use vstd::slice::slice_subrange;

verus! {

/// How often a block is written before the store gives up.
pub const MAX_PUT_ATTEMPTS: u64 = 10;

/// Number of bytes in the key of a level.
pub const LEVEL_KEY_LENGTH: usize = 8;

/// What came of writing a block.
#[derive(Clone, Copy, PartialEq, Eq, Structural, Debug)]
pub enum PutOutcome {
    /// The block is on disk.
    Stored,
    /// There was no room left.
    MapFull,
    /// The store is broken.
    Failed,
}

/// What is done next.
#[derive(Clone, Copy, PartialEq, Eq, Structural, Debug)]
pub enum PutStep {
    /// The block is on disk.
    Done,
    /// Room is made, and the block is written again.
    GrowAndPut,
    /// The block was written in vain too often, and is dropped.
    GiveUp,
    /// The store cannot be used.
    Fail,
}

/// What is done after a block was written for the `attempts`-th time.
pub fn after_put(attempts: u64, outcome: PutOutcome) -> (step: PutStep)
    ensures
        step == (match outcome {
            PutOutcome::Stored => PutStep::Done,
            PutOutcome::MapFull => if attempts < MAX_PUT_ATTEMPTS {
                PutStep::GrowAndPut
            } else {
                PutStep::GiveUp
            },
            PutOutcome::Failed => PutStep::Fail,
        }),
{
    match outcome {
        PutOutcome::Stored => PutStep::Done,
        PutOutcome::MapFull => {
            if attempts < MAX_PUT_ATTEMPTS {
                PutStep::GrowAndPut
            } else {
                PutStep::GiveUp
            }
        },
        PutOutcome::Failed => PutStep::Fail,
    }
}

/// The size of a store that ran out of room.
pub fn grown_size(size: usize) -> (grown: usize)
    requires
        size * 2 <= usize::MAX,
    ensures
        grown == size * 2,
{
    size * 2
}

/// Whether the blocks of an old store are still to be removed: that was not noted among what was done.
pub fn must_remove_block_cache(done: &Vec<String>) -> (must: bool)
    ensures
        must <==> !crate::text::texts(done@).contains("01_remove_block_cache"@),
{
    !lists_text(done, &copy_text("01_remove_block_cache"))
}

/// What is written for the main-chain block of a level: the height, least significant byte first, and the hash.
pub open spec fn level_entry(height: u64, hash: FixedHash) -> (Seq<u8>, Seq<u8>) {
    (spec_u64_to_le_bytes(height), hash.bytes())
}

/// What is written for the main-chain block of a level.
pub fn write_level(height: u64, hash: &FixedHash) -> (entry: (Vec<u8>, Vec<u8>))
    ensures
        (entry.0@, entry.1@) == level_entry(height, *hash),
{
    (u64_to_le_bytes(height), hash.to_vec())
}

/// Reads what was written for a level; `None` if the hash has not the right length.
pub fn read_level(key: &[u8], value: &[u8]) -> (level: Option<(u64, FixedHash)>)
    requires
        key@.len() >= LEVEL_KEY_LENGTH,
    ensures
        level is Some <==> value@.len() == crate::types::HASH_LENGTH,
        level matches Some(l) ==> level_entry(l.0, l.1) == (key@.take(LEVEL_KEY_LENGTH as int), value@),
{
    let start = copy_bytes(slice_subrange(key, 0, LEVEL_KEY_LENGTH));
    match FixedHash::from_bytes(value) {
        Some(hash) => {
            let height: u64 = u64_from_le_bytes(start.as_slice());
            proof {
                lemma_auto_spec_u64_to_from_le_bytes();
                assert(start@ =~= key@.take(LEVEL_KEY_LENGTH as int));
            }
            Some((height, hash))
        },
        None => None,
    }
}

/// What is written for a level tells it apart from any other: two levels with the same entry are the same.
pub proof fn law_levels_are_read_back(a: (u64, FixedHash), b: (u64, FixedHash))
    ensures
        level_entry(a.0, a.1) == level_entry(b.0, b.1) ==> a == b,
        level_entry(a.0, a.1).0.len() == LEVEL_KEY_LENGTH,
        level_entry(a.0, a.1).1.len() == crate::types::HASH_LENGTH,
{
    lemma_auto_spec_u64_to_from_le_bytes();
    crate::types::law_hash_bytes_are_injective(a.1, b.1);
}

}
