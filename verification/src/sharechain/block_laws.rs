//! Laws on what a block's hash covers, what its miner is paid by, and which target it has.
use crate::sharechain::p2block::{BlockView, CoinbaseView, TariAddress};
use crate::sharechain::share_rules::ShareChainView;
use crate::types::{BlockHash, FixedHash, PowAlgorithm};
use vstd::prelude::*;

verus! {

/// Of two equal joins whose first parts are as long as each other, both parts are equal.
proof fn lemma_same_parts(a: Seq<u8>, b: Seq<u8>, c: Seq<u8>, d: Seq<u8>)
    requires
        a + b == c + d,
        a.len() == c.len(),
    ensures
        a == c,
        b == d,
{
    assert((a + b).subrange(0, a.len() as int) =~= a);
    assert((c + d).subrange(0, c.len() as int) =~= c);
    assert((a + b).subrange(a.len() as int, (a + b).len() as int) =~= b);
    assert((c + d).subrange(c.len() as int, (c + d).len() as int) =~= d);
}

proof fn lemma_same_framed(a: Seq<u8>, b: Seq<u8>, c: Seq<u8>, d: Seq<u8>)
    requires
        BlockView::framed(a) + b == BlockView::framed(c) + d,
        a.len() <= u32::MAX,
        c.len() <= u32::MAX,
    ensures
        a == c,
        b == d,
{
    vstd::bytes::lemma_auto_spec_u32_to_from_le_bytes();
    let (m, n) = (a.len() as u32, c.len() as u32);
    let (x, y) = (vstd::bytes::spec_u32_to_le_bytes(m), vstd::bytes::spec_u32_to_le_bytes(n));
    assert(BlockView::framed(a) + b =~= x + (a + b));
    assert(BlockView::framed(c) + d =~= y + (c + d));
    lemma_same_parts(x, a + b, y, c + d);
    assert(m == n);
    lemma_same_parts(a, b, c, d);
}

proof fn lemma_uncle_bytes(a: Seq<(u64, BlockHash)>, b: Seq<(u64, BlockHash)>, n: int)
    requires
        0 <= n <= a.len(),
        n <= b.len(),
    ensures
        BlockView::uncle_bytes(a, n).len() == 40 * n,
        BlockView::uncle_bytes(a, n) == BlockView::uncle_bytes(b, n) ==> a.take(n) == b.take(n),
    decreases n,
{
    vstd::bytes::lemma_auto_spec_u64_to_from_le_bytes();
    if n > 0 {
        lemma_uncle_bytes(a, b, n - 1);
        lemma_uncle_bytes(b, a, n - 1);
        let (x, y) = (a[n - 1], b[n - 1]);
        crate::types::law_hash_bytes_are_injective(x.1, y.1);
        crate::types::law_hash_bytes_are_injective(y.1, x.1);
        let (start, other) = (BlockView::uncle_bytes(a, n - 1), BlockView::uncle_bytes(b, n - 1));
        let (p, q) = (vstd::bytes::spec_u64_to_le_bytes(x.0), vstd::bytes::spec_u64_to_le_bytes(y.0));
        if BlockView::uncle_bytes(a, n) == BlockView::uncle_bytes(b, n) {
            assert(BlockView::uncle_bytes(a, n) =~= start + (p + x.1.bytes()));
            assert(BlockView::uncle_bytes(b, n) =~= other + (q + y.1.bytes()));
            lemma_same_parts(start, p + x.1.bytes(), other, q + y.1.bytes());
            lemma_same_parts(p, x.1.bytes(), q, y.1.bytes());
            assert(a.take(n) =~= a.take(n - 1).push(x));
            assert(b.take(n) =~= b.take(n - 1).push(y));
        }
    } else {
        assert(a.take(0) =~= b.take(0));
    }
}

/// A block's hash covers the block below, the version, the time, the height, the miner, the header, the target, every
/// uncle with its height, the miner's free bytes and the total work: two blocks that differ in any of these are hashed
/// from different bytes. The headers are taken to be encoded in the same number of bytes.
pub proof fn law_hash_covers_the_block(a: BlockView, b: BlockView)
    requires
        a.encodable(),
        b.encodable(),
        a.header.encoded.len() == b.header.encoded.len(),
        a.preimage() == b.preimage(),
    ensures
        a.prev_hash == b.prev_hash,
        a.version == b.version,
        a.timestamp == b.timestamp,
        a.height == b.height,
        a.miner == b.miner,
        a.header.encoded == b.header.encoded,
        a.target_difficulty == b.target_difficulty,
        a.uncles == b.uncles,
        a.coinbase_extra == b.coinbase_extra,
        a.total_pow == b.total_pow,
{
    vstd::bytes::lemma_auto_spec_u32_to_from_le_bytes();
    vstd::bytes::lemma_auto_spec_u64_to_from_le_bytes();
    vstd::bytes::lemma_auto_spec_u128_to_from_le_bytes();
    crate::types::law_hash_bytes_are_injective(a.prev_hash, b.prev_hash);
    crate::types::law_hash_bytes_are_injective(b.prev_hash, a.prev_hash);
    let (a9, b9) = (
        vstd::bytes::spec_u128_to_le_bytes(a.total_pow),
        vstd::bytes::spec_u128_to_le_bytes(b.total_pow),
    );
    let (a8, b8) = (BlockView::framed(a.coinbase_extra) + a9, BlockView::framed(b.coinbase_extra) + b9);
    let (ua, ub) = (
        BlockView::uncle_bytes(a.uncles, a.uncles.len() as int),
        BlockView::uncle_bytes(b.uncles, b.uncles.len() as int),
    );
    let (a7, b7) = (ua + a8, ub + b8);
    let (na, nb) = (
        vstd::bytes::spec_u32_to_le_bytes(a.uncles.len() as u32),
        vstd::bytes::spec_u32_to_le_bytes(b.uncles.len() as u32),
    );
    let (a6, b6) = (na + a7, nb + b7);
    let (ta, tb) = (
        vstd::bytes::spec_u64_to_le_bytes(a.target_difficulty),
        vstd::bytes::spec_u64_to_le_bytes(b.target_difficulty),
    );
    let (a5, b5) = (ta + a6, tb + b6);
    let (a4, b4) = (a.header.encoded + a5, b.header.encoded + b5);
    let (a3, b3) = (BlockView::framed(a.miner) + a4, BlockView::framed(b.miner) + b4);
    let (ha, hb) = (vstd::bytes::spec_u64_to_le_bytes(a.height), vstd::bytes::spec_u64_to_le_bytes(b.height));
    let (a2, b2) = (ha + a3, hb + b3);
    let (sa, sb) = (vstd::bytes::spec_u64_to_le_bytes(a.timestamp), vstd::bytes::spec_u64_to_le_bytes(b.timestamp));
    let (a1, b1) = (sa + a2, sb + b2);
    let (va, vb) = (vstd::bytes::spec_u64_to_le_bytes(a.version), vstd::bytes::spec_u64_to_le_bytes(b.version));
    let (a0, b0) = (va + a1, vb + b1);
    assert(a.preimage() =~= a.prev_hash.bytes() + a0);
    assert(b.preimage() =~= b.prev_hash.bytes() + b0);
    lemma_same_parts(a.prev_hash.bytes(), a0, b.prev_hash.bytes(), b0);
    lemma_same_parts(va, a1, vb, b1);
    lemma_same_parts(sa, a2, sb, b2);
    lemma_same_parts(ha, a3, hb, b3);
    lemma_same_framed(a.miner, a4, b.miner, b4);
    lemma_same_parts(a.header.encoded, a5, b.header.encoded, b5);
    lemma_same_parts(ta, a6, tb, b6);
    lemma_same_parts(na, a7, nb, b7);
    let n = a.uncles.len() as int;
    assert(b.uncles.len() == n);
    lemma_uncle_bytes(a.uncles, b.uncles, n);
    lemma_uncle_bytes(b.uncles, a.uncles, n);
    lemma_same_parts(ua, a8, ub, b8);
    assert(a.uncles.take(n) =~= a.uncles);
    assert(b.uncles.take(n) =~= b.uncles);
    lemma_same_framed(a.coinbase_extra, a9, b.coinbase_extra, b9);
}

/// The bytes that are hashed start with the hash of the block below, the version, the time, the height and the length of
/// the miner's address, and they end with the total work; all numbers have their lowest byte first.
pub proof fn law_layout_of_hashed_bytes(block: BlockView)
    ensures
        ({
            let bytes = block.preimage();
            &&& bytes.len() == 92 + block.miner.len() + block.header.encoded.len() + 40 * block.uncles.len()
                + block.coinbase_extra.len()
            &&& bytes.subrange(0, 32) == block.prev_hash.bytes()
            &&& bytes.subrange(32, 40) == vstd::bytes::spec_u64_to_le_bytes(block.version)
            &&& bytes.subrange(40, 48) == vstd::bytes::spec_u64_to_le_bytes(block.timestamp)
            &&& bytes.subrange(48, 56) == vstd::bytes::spec_u64_to_le_bytes(block.height)
            &&& bytes.subrange(56, 60) == vstd::bytes::spec_u32_to_le_bytes(block.miner.len() as u32)
            &&& bytes.subrange(60, (60 + block.miner.len()) as int) == block.miner
            &&& bytes.subrange((60 + block.miner.len()) as int, (60 + block.miner.len() + block.header.encoded.len()) as int)
                == block.header.encoded
            &&& bytes.subrange(bytes.len() - 16, bytes.len() as int) == vstd::bytes::spec_u128_to_le_bytes(
                block.total_pow,
            )
        }),
{
    vstd::bytes::lemma_auto_spec_u32_to_from_le_bytes();
    vstd::bytes::lemma_auto_spec_u64_to_from_le_bytes();
    vstd::bytes::lemma_auto_spec_u128_to_from_le_bytes();
    crate::types::law_hash_bytes_are_injective(block.prev_hash, block.prev_hash);
    let n = block.uncles.len() as int;
    lemma_uncle_bytes(block.uncles, block.uncles, n);
    let bytes = block.preimage();
    assert(bytes.subrange(0, 32) =~= block.prev_hash.bytes());
    assert(bytes.subrange(32, 40) =~= vstd::bytes::spec_u64_to_le_bytes(block.version));
    assert(bytes.subrange(40, 48) =~= vstd::bytes::spec_u64_to_le_bytes(block.timestamp));
    assert(bytes.subrange(48, 56) =~= vstd::bytes::spec_u64_to_le_bytes(block.height));
    assert(bytes.subrange(56, 60) =~= vstd::bytes::spec_u32_to_le_bytes(block.miner.len() as u32));
    assert(bytes.subrange(60, (60 + block.miner.len()) as int) =~= block.miner);
    assert(bytes.subrange((60 + block.miner.len()) as int, (60 + block.miner.len() + block.header.encoded.len()) as int)
        =~= block.header.encoded);
    assert(bytes.subrange(bytes.len() - 16, bytes.len() as int) =~= vstd::bytes::spec_u128_to_le_bytes(
        block.total_pow,
    ));
}

/// A block's hash leaves out what is settled after it was mined, and what its header covers: two blocks that differ in
/// nothing but the hash that they carry, their coinbases, the other outputs, whether they went to the main chain and
/// whether they were verified have one hash.
pub proof fn law_hash_leaves_out_the_rest(
    block: BlockView,
    hash: BlockHash,
    coinbases: Seq<CoinbaseView>,
    other_output_hash: FixedHash,
    sent_to_main_chain: bool,
    verified: bool,
)
    ensures
        (BlockView { hash, coinbases, other_output_hash, sent_to_main_chain, verified, ..block }).preimage()
            == block.preimage(),
{
}

/// The free bytes are those of the first coinbase with the script. If none has it there are none.
pub proof fn law_first_coinbase_counts(coinbases: Seq<CoinbaseView>, script: Seq<u8>, from: int, i: int)
    requires
        0 <= from <= i <= coinbases.len(),
        forall|j: int| from <= j < i ==> (#[trigger] coinbases[j]).script != script,
    ensures
        i == coinbases.len() ==> BlockView::coinbase_with(coinbases, script, from) == Seq::<u8>::empty(),
        i < coinbases.len() && coinbases[i].script == script ==> BlockView::coinbase_with(coinbases, script, from)
            == coinbases[i].coinbase_extra,
    decreases i - from,
{
    if from < i {
        law_first_coinbase_counts(coinbases, script, from + 1, i);
    }
}

/// The script that pays an address pushes its spend key: 33 bytes, the first of them the code of the operation.
pub proof fn law_script_pushes_the_key(address: Seq<u8>)
    ensures
        TariAddress::script_of(address) matches Some(script) ==> {
            &&& script.len() == 33
            &&& script[0] == 0x7e
            &&& crate::sharechain::p2block::address_spend_key(address) == Some(script.subrange(1, 33))
        },
{
    if let Some(script) = TariAddress::script_of(address) {
        let key = crate::sharechain::p2block::address_spend_key(address)->Some_0;
        assert(script.subrange(1, 33) =~= key);
    }
}

/// The target of the next block is at least a tenth of the main chain's least target. Above that it is what the average
/// says, but no more than the greatest target allowed; without an average it is as low as is allowed. A greater average
/// never gives a lower target.
pub proof fn law_target_follows_the_average(
    chain: ShareChainView,
    min: u64,
    max: u64,
    average: Option<u64>,
    other: Option<u64>,
)
    requires
        min >= 10,
        max >= 1,
        average matches Some(a) ==> a >= 1,
    ensures
        ({
            let target = chain.target(min, max, average);
            &&& target >= min / 10
            &&& max >= min / 10 ==> target <= max
            &&& max < min / 10 ==> target == min / 10
            &&& average is None ==> target == min / 10
            &&& (average matches Some(a) && min / 10 <= a <= max) ==> target == average->Some_0
            &&& (average matches Some(a) && a < min / 10) ==> target == min / 10
            &&& (average matches Some(a) && max >= min / 10 && a > max) ==> target == max
            &&& average is Some && other is Some && average->Some_0 <= other->Some_0 ==> target <= chain.target(
                min,
                max,
                other,
            )
        }),
{
    assert(ShareChainView::scaling_factor(PowAlgorithm::RandomX) == 10);
    assert(ShareChainView::scaling_factor(PowAlgorithm::Sha3x) == 10);
}

/// The work that a block is built with counts its target once: on top of what lies below and its uncles if it was not counted
/// yet, and alone if nothing lies below.
pub proof fn law_target_counts_once(block: BlockView)
    ensures
        block.prev_hash == FixedHash::spec_zero() ==> block.built_total(true) == block.target_difficulty
            && block.built_total(false) == block.target_difficulty,
        block.prev_hash != FixedHash::spec_zero() ==> block.built_total(true) == block.total_pow && block.built_total(
            false,
        ) - block.built_total(true) == block.target_difficulty,
{
}

}
