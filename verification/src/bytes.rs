//! Small verified helpers on byte strings.
use vstd::bytes::{u128_to_le_bytes, u32_to_le_bytes, u64_to_le_bytes};
use vstd::prelude::*;

verus! {

/// Tells whether two byte strings are the same.
pub fn bytes_equal(a: &[u8], b: &[u8]) -> (same: bool)
    ensures
        same <==> a@ == b@,
{
    if a.len() != b.len() {
        return false;
    }
    let mut i: usize = 0;
    while i < a.len()
        invariant
            i <= a@.len(),
            a@.len() == b@.len(),
            forall|j: int| 0 <= j < i ==> a@[j] == b@[j],
        decreases a@.len() - i,
    {
        if a[i] != b[i] {
            return false;
        }
        i = i + 1;
    }
    proof {
        assert(a@ =~= b@);
    }
    true
}

/// A fresh copy of a byte string.
pub fn copy_bytes(source: &[u8]) -> (copy: Vec<u8>)
    ensures
        copy@ == source@,
{
    let mut copy: Vec<u8> = Vec::new();
    let mut i: usize = 0;
    while i < source.len()
        invariant
            i <= source@.len(),
            copy@ == source@.take(i as int),
        decreases source@.len() - i,
    {
        copy.push(source[i]);
        i = i + 1;
        proof {
            assert(copy@ =~= source@.take(i as int));
        }
    }
    proof {
        assert(source@.take(source@.len() as int) =~= source@);
    }
    copy
}

/// Appends `tail` to `bytes`.
pub fn append_bytes(bytes: &mut Vec<u8>, tail: &[u8])
    ensures
        final(bytes)@ == old(bytes)@ + tail@,
{
    let mut copy = copy_bytes(tail);
    bytes.append(&mut copy);
}

/// Appends a number, least significant byte first.
pub fn append_u32(bytes: &mut Vec<u8>, value: u32)
    ensures
        final(bytes)@ == old(bytes)@ + vstd::bytes::spec_u32_to_le_bytes(value),
{
    let mut tail = u32_to_le_bytes(value);
    bytes.append(&mut tail);
}

/// Appends a number, least significant byte first.
pub fn append_u64(bytes: &mut Vec<u8>, value: u64)
    ensures
        final(bytes)@ == old(bytes)@ + vstd::bytes::spec_u64_to_le_bytes(value),
{
    let mut tail = u64_to_le_bytes(value);
    bytes.append(&mut tail);
}

/// Appends a number, least significant byte first.
pub fn append_u128(bytes: &mut Vec<u8>, value: u128)
    ensures
        final(bytes)@ == old(bytes)@ + vstd::bytes::spec_u128_to_le_bytes(value),
{
    let mut tail = u128_to_le_bytes(value);
    bytes.append(&mut tail);
}

}
