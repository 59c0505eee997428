//! A block of the share chain, how it is hashed and how it is built.
use crate::bytes::{append_bytes, append_u128, append_u32, append_u64, bytes_equal, copy_bytes};
use crate::sharechain::error::ShareChainError;
use crate::types::{AccumulatedDifficulty, BlockHash, Difficulty, FixedHash, PowAlgorithm};
use std::sync::Arc;
use tari_crypto::hashing::DomainSeparation;
use tari_utilities::ByteArray;
use vstd::prelude::*;

verus! {

/// Version of the rules that blocks and messages follow.
pub const PROTOCOL_VERSION: u64 = 7;

/// The header of the main-chain block that a share was mined for.
#[derive(Debug, PartialEq)]
pub struct BlockHeader {
    /// Nonce that the miner found.
    pub nonce: u64,
    /// Algorithm by which the header was mined.
    pub pow_algo: PowAlgorithm,
    /// Height of the main-chain block.
    pub height: u64,
    /// The header in consensus encoding.
    pub encoded: Vec<u8>,
}

/// What a [`BlockHeader`] holds.
pub struct HeaderView {
    pub nonce: u64,
    pub pow_algo: PowAlgorithm,
    pub height: u64,
    pub encoded: Seq<u8>,
}

impl View for BlockHeader {
    type V = HeaderView;

    open spec fn view(&self) -> HeaderView {
        HeaderView { nonce: self.nonce, pow_algo: self.pow_algo, height: self.height, encoded: self.encoded@ }
    }
}

impl Clone for BlockHeader {
    fn clone(&self) -> (copy: Self)
        ensures
            copy@ == self@,
    {
        BlockHeader {
            nonce: self.nonce,
            pow_algo: self.pow_algo,
            height: self.height,
            encoded: copy_bytes(&self.encoded),
        }
    }
}

/// An output by which a main-chain block pays a miner.
#[derive(Debug, PartialEq)]
pub struct CoinbaseOutput {
    /// The output's script, serialised.
    pub script: Vec<u8>,
    /// Free bytes that the miner put in.
    pub coinbase_extra: Vec<u8>,
}

/// What a [`CoinbaseOutput`] holds.
pub struct CoinbaseView {
    pub script: Seq<u8>,
    pub coinbase_extra: Seq<u8>,
}

impl View for CoinbaseOutput {
    type V = CoinbaseView;

    open spec fn view(&self) -> CoinbaseView {
        CoinbaseView { script: self.script@, coinbase_extra: self.coinbase_extra@ }
    }
}

impl Clone for CoinbaseOutput {
    fn clone(&self) -> (copy: Self)
        ensures
            copy@ == self@,
    {
        CoinbaseOutput { script: copy_bytes(&self.script), coinbase_extra: copy_bytes(&self.coinbase_extra) }
    }
}

/// What a share keeps of the main-chain block that it was mined for.
pub struct TariBlock {
    /// The block's header.
    pub header: BlockHeader,
    /// The outputs that pay miners.
    pub coinbases: Vec<CoinbaseOutput>,
    /// Merkle root of the other outputs.
    pub other_output_hash: FixedHash,
}

/// The address of a miner's wallet, in its binary form.
#[derive(Debug, PartialEq)]
pub struct TariAddress {
    /// The address's bytes.
    pub bytes: Vec<u8>,
}

impl View for TariAddress {
    type V = Seq<u8>;

    open spec fn view(&self) -> Seq<u8> {
        self.bytes@
    }
}

impl Clone for TariAddress {
    fn clone(&self) -> (copy: Self)
        ensures
            copy@ == self@,
    {
        TariAddress { bytes: copy_bytes(&self.bytes) }
    }
}

/// The base58 text of the address with these bytes, if they are an address.
pub uninterp spec fn address_text(bytes: Seq<u8>) -> Option<Seq<char>>;

/// The bytes of the address that this text spells, if it spells one.
pub uninterp spec fn address_of_text(text: Seq<char>) -> Option<Seq<u8>>;

/// The public spend key of the address with these bytes, if they are an address.
pub uninterp spec fn address_spend_key(bytes: Seq<u8>) -> Option<Seq<u8>>;

/// What is said of a text that spells no address.
pub const NO_ADDRESS: &'static str = "Could not recover TariAddress from string";

/// Most bytes of an address: two keys, the network, the features and a checksum, and a payment id of 256 bytes.
pub const MAX_ADDRESS_BYTES: usize = 323;

/// Bytes of a public key.
pub const KEY_BYTES: usize = 32;

/// Code of the script operation that pushes a public key.
pub const PUSH_KEY: u8 = 0x7e;

/// The script that pays to the public key with these bytes, if they are a key: the operation that pushes the key.
pub open spec fn pay_to_key_script(key: Seq<u8>) -> Option<Seq<u8>> {
    if key.len() == KEY_BYTES {
        Some(seq![PUSH_KEY] + key)
    } else {
        None
    }
}

/// `tari_common_types::tari_address::TariAddress::to_base58`, on the address that
/// `TariAddress::from_bytes` reads. The text depends on the bytes alone, and no other address has
/// it: `to_base58` spells the first byte, the second and the rest one behind the other, the first
/// two with one character each, and the bytes that it spells are those that were read.
#[verifier::external_body]
fn base58_of(bytes: &[u8]) -> (text: Option<String>)
    ensures
        text is Some <==> address_text(bytes@) is Some,
        text matches Some(t) ==> address_text(bytes@) == Some(t@),
        text matches Some(t) ==> forall|other: Seq<u8>| #[trigger]
            address_text(other) == Some(t@) ==> other == bytes@,
{
    tari_common_types::tari_address::TariAddress::from_bytes(bytes).ok().map(|address| address.to_base58())
}

/// `tari_common_types::tari_address::TariAddress::from_str`, as the bytes that `to_vec` gives. They
/// depend on the text alone, and there are at most [`MAX_ADDRESS_BYTES`]. It fails with one error
/// only, whose text is [`NO_ADDRESS`].
#[verifier::external_body]
fn parse_address(text: &str) -> (result: Result<Vec<u8>, String>)
    ensures
        result is Ok <==> address_of_text(text@) is Some,
        result matches Ok(b) ==> address_of_text(text@) == Some(b@),
        result matches Ok(b) ==> b@.len() <= MAX_ADDRESS_BYTES,
        result matches Err(e) ==> e@ == NO_ADDRESS@,
{
    text.parse::<tari_common_types::tari_address::TariAddress>()
        .map(|address| address.to_vec())
        .map_err(|error| error.to_string())
}

/// `tari_common_types::tari_address::TariAddress::public_spend_key`, on the address that
/// `TariAddress::from_bytes` reads, as bytes. The key depends on the address's bytes alone.
#[verifier::external_body]
fn spend_key_of(bytes: &[u8]) -> (key: Option<Vec<u8>>)
    ensures
        key is Some <==> address_spend_key(bytes@) is Some,
        key matches Some(k) ==> address_spend_key(bytes@) == Some(k@),
{
    tari_common_types::tari_address::TariAddress::from_bytes(bytes).ok().map(
        |address| address.public_spend_key().to_vec(),
    )
}

/// `tari_script::push_pubkey_script`, on the key that `from_canonical_bytes` reads, serialised: the
/// code of the operation, and the key. Any [`KEY_BYTES`] bytes are read as a key.
#[verifier::external_body]
fn script_for_key(key: &[u8]) -> (script: Option<Vec<u8>>)
    ensures
        script is Some <==> pay_to_key_script(key@) is Some,
        script matches Some(s) ==> pay_to_key_script(key@) == Some(s@),
{
    tari_common_types::types::CompressedPublicKey::from_canonical_bytes(key).ok().map(
        |key| tari_script::push_pubkey_script(&key).to_bytes(),
    )
}

/// `tari_common_types::tari_address::TariAddress::default`, as the bytes that `to_vec` gives: an
/// address of two keys without a payment id, which takes 67 bytes. Which network it is for depends
/// on the environment, so no more is said of it.
#[verifier::external_body]
fn default_address() -> (bytes: Vec<u8>)
    ensures
        bytes@.len() == 67,
{
    tari_common_types::tari_address::TariAddress::default().to_vec()
}

/// `tari_utilities::epoch_time::EpochTime::now`, in seconds of the Unix epoch. Nothing can be said of
/// it.
#[verifier::external_body]
fn present_time() -> (seconds: u64) {
    tari_utilities::epoch_time::EpochTime::now().as_u64()
}

impl TariAddress {
    /// The address's text in base58; `None` if the bytes are no address.
    pub fn to_base58(&self) -> (text: Option<String>)
        ensures
            text is Some <==> address_text(self@) is Some,
            text matches Some(t) ==> address_text(self@) == Some(t@),
            text matches Some(t) ==> forall|other: Seq<u8>| #[trigger]
                address_text(other) == Some(t@) ==> other == self@,
    {
        base58_of(&self.bytes)
    }

    /// Reads an address from its text. If the text is no address, the error says so.
    pub fn from_text(text: &str) -> (address: Result<TariAddress, String>)
        ensures
            address is Ok <==> address_of_text(text@) is Some,
            address matches Ok(a) ==> address_of_text(text@) == Some(a@),
            address matches Ok(a) ==> a@.len() <= MAX_ADDRESS_BYTES,
            address matches Err(e) ==> e@ == NO_ADDRESS@,
    {
        match parse_address(text) {
            Ok(bytes) => Ok(TariAddress { bytes }),
            Err(error) => Err(error),
        }
    }

    /// The script of an output that pays to the address.
    pub open spec fn script_of(bytes: Seq<u8>) -> Option<Seq<u8>> {
        match address_spend_key(bytes) {
            Some(key) => pay_to_key_script(key),
            None => None,
        }
    }

    /// The script of an output that pays to the address; `None` if the bytes are no address.
    pub fn payment_script(&self) -> (script: Option<Vec<u8>>)
        ensures
            script is Some <==> TariAddress::script_of(self@) is Some,
            script matches Some(s) ==> TariAddress::script_of(self@) == Some(s@),
    {
        match spend_key_of(&self.bytes) {
            Some(key) => script_for_key(&key),
            None => None,
        }
    }
}

/// A block of the share chain.
#[derive(Debug, PartialEq)]
pub struct P2Block {
    /// Version of the rules that the block follows.
    pub version: u64,
    /// The block's hash.
    pub hash: BlockHash,
    /// When the block was made, in seconds of the Unix epoch.
    pub timestamp: u64,
    /// Hash of the block below.
    pub prev_hash: BlockHash,
    /// Height of the block on the share chain.
    pub height: u64,
    /// Header of the main-chain block that the share was mined for.
    pub original_header: BlockHeader,
    /// The outputs of that block that pay miners.
    pub coinbases: Vec<CoinbaseOutput>,
    /// Merkle root of that block's other outputs.
    pub other_output_hash: FixedHash,
    /// The miner that is paid for the share.
    pub miner_wallet_address: TariAddress,
    /// Whether the share solved the main chain's puzzle too.
    pub sent_to_main_chain: bool,
    /// The difficulty that the block had to reach.
    pub target_difficulty: Difficulty,
    /// Uncles that the block confirms, each with its height.
    pub uncles: Vec<(u64, BlockHash)>,
    /// Free bytes for the miner's coinbase.
    pub miner_coinbase_extra: Vec<u8>,
    /// Whether the block's total work has been checked.
    pub verified: bool,
    /// The work of the block, its uncles and everything below.
    pub total_pow: AccumulatedDifficulty,
}

/// What a [`P2Block`] holds.
#[verifier::ext_equal]
pub struct BlockView {
    pub version: u64,
    pub hash: BlockHash,
    pub timestamp: u64,
    pub prev_hash: BlockHash,
    pub height: u64,
    pub header: HeaderView,
    pub coinbases: Seq<CoinbaseView>,
    pub other_output_hash: FixedHash,
    pub miner: Seq<u8>,
    pub sent_to_main_chain: bool,
    pub target_difficulty: u64,
    pub uncles: Seq<(u64, BlockHash)>,
    pub coinbase_extra: Seq<u8>,
    pub verified: bool,
    pub total_pow: u128,
}

impl View for P2Block {
    type V = BlockView;

    open spec fn view(&self) -> BlockView {
        BlockView {
            version: self.version,
            hash: self.hash,
            timestamp: self.timestamp,
            prev_hash: self.prev_hash,
            height: self.height,
            header: self.original_header@,
            coinbases: self.coinbases@.map_values(|c: CoinbaseOutput| c@),
            other_output_hash: self.other_output_hash,
            miner: self.miner_wallet_address@,
            sent_to_main_chain: self.sent_to_main_chain,
            target_difficulty: self.target_difficulty@,
            uncles: self.uncles@,
            coinbase_extra: self.miner_coinbase_extra@,
            verified: self.verified,
            total_pow: self.total_pow@,
        }
    }
}

impl BlockView {
    /// A byte string behind its length.
    pub open spec fn framed(bytes: Seq<u8>) -> Seq<u8> {
        vstd::bytes::spec_u32_to_le_bytes(bytes.len() as u32) + bytes
    }

    /// The first `n` uncles, one behind the other, each as its height and its hash.
    pub open spec fn uncle_bytes(uncles: Seq<(u64, BlockHash)>, n: int) -> Seq<u8>
        decreases n,
    {
        if n <= 0 {
            Seq::empty()
        } else {
            BlockView::uncle_bytes(uncles, n - 1) + vstd::bytes::spec_u64_to_le_bytes(uncles[n - 1].0)
                + uncles[n - 1].1.bytes()
        }
    }

    /// The bytes that a block's hash is taken of: the block below, the version, the time, the
    /// height, the miner, the header, the target, the uncles, the miner's free bytes and the total
    /// work, in consensus encoding.
    pub open spec fn preimage(self) -> Seq<u8> {
        self.prev_hash.bytes() + vstd::bytes::spec_u64_to_le_bytes(self.version)
            + vstd::bytes::spec_u64_to_le_bytes(self.timestamp) + vstd::bytes::spec_u64_to_le_bytes(self.height)
            + BlockView::framed(self.miner) + self.header.encoded + vstd::bytes::spec_u64_to_le_bytes(
            self.target_difficulty,
        ) + vstd::bytes::spec_u32_to_le_bytes(self.uncles.len() as u32) + BlockView::uncle_bytes(
            self.uncles,
            self.uncles.len() as int,
        ) + BlockView::framed(self.coinbase_extra) + vstd::bytes::spec_u128_to_le_bytes(self.total_pow)
    }

    /// The consensus encoding has room for the lengths of the block's lists.
    pub open spec fn encodable(self) -> bool {
        &&& self.miner.len() <= u32::MAX
        &&& self.uncles.len() <= u32::MAX
        &&& self.coinbase_extra.len() <= u32::MAX
    }

    /// `hash` is the hash of the block.
    pub open spec fn hashes_to(self, hash: BlockHash) -> bool {
        hash.bytes() == block_digest(self.preimage())
    }

    /// The free bytes of the first coinbase of `coinbases[from..]` that has the script; none if no coinbase has it.
    pub open spec fn coinbase_with(coinbases: Seq<CoinbaseView>, script: Seq<u8>, from: int) -> Seq<u8>
        decreases coinbases.len() - from,
    {
        if from < 0 || from >= coinbases.len() {
            Seq::empty()
        } else if coinbases[from].script == script {
            coinbases[from].coinbase_extra
        } else {
            BlockView::coinbase_with(coinbases, script, from + 1)
        }
    }

    /// The free bytes of the coinbase that pays the block's miner.
    pub open spec fn miner_extra(self) -> Seq<u8> {
        match TariAddress::script_of(self.miner) {
            Some(script) => BlockView::coinbase_with(self.coinbases, script, 0),
            None => Seq::empty(),
        }
    }

    /// The work of a block on top of its parent's, as the block below and the block itself tell.
    pub open spec fn built_total(self, added_target_difficulty: bool) -> int {
        if self.prev_hash == FixedHash::spec_zero() {
            self.target_difficulty as int
        } else if added_target_difficulty {
            self.total_pow as int
        } else {
            self.total_pow + self.target_difficulty
        }
    }
}

/// The digest of a block's bytes.
pub uninterp spec fn block_digest(preimage: Seq<u8>) -> Seq<u8>;

/// Blake2b with a 32-byte output (`blake2::Blake2b`, through `digest::Digest`) over the domain tag
/// that `tari_crypto`'s `add_domain_separation_tag` writes for `tari_hashing::BlocksHashDomain` and
/// the label `block`, and then over `preimage`. The digest has 32 bytes and depends on `preimage`
/// alone.
#[verifier::external_body]
pub(crate) fn digest_block(preimage: &[u8]) -> (digest: Vec<u8>)
    ensures
        digest@ == block_digest(preimage@),
        digest@.len() == 32,
{
    let mut hasher = <blake2::Blake2b<digest::consts::U32> as Default>::default();
    tari_hashing::BlocksHashDomain::add_domain_separation_tag(&mut hasher, "block");
    digest::Digest::update(&mut hasher, preimage);
    digest::Digest::finalize(hasher).to_vec()
}

/// Another pointer to the same block: `std::sync::Arc::clone`, which makes one more pointer to the same
/// value and changes nothing in it.
#[verifier::external_body]
pub(crate) fn share(block: &Arc<P2Block>) -> (pointer: Arc<P2Block>)
    ensures
        pointer == *block,
{
    Arc::clone(block)
}

/// A copy of a list of uncles.
pub fn copy_uncles(uncles: &[(u64, BlockHash)]) -> (copy: Vec<(u64, BlockHash)>)
    ensures
        copy@ == uncles@,
{
    let mut copy: Vec<(u64, BlockHash)> = Vec::new();
    let mut i: usize = 0;
    while i < uncles.len()
        invariant
            i <= uncles@.len(),
            copy@ == uncles@.take(i as int),
        decreases uncles@.len() - i,
    {
        copy.push(uncles[i]);
        i = i + 1;
        proof {
            assert(copy@ =~= uncles@.take(i as int));
        }
    }
    proof {
        assert(uncles@.take(uncles@.len() as int) =~= uncles@);
    }
    copy
}

fn copy_coinbases(coinbases: &[CoinbaseOutput]) -> (copy: Vec<CoinbaseOutput>)
    ensures
        copy@.map_values(|c: CoinbaseOutput| c@) == coinbases@.map_values(|c: CoinbaseOutput| c@),
{
    let mut copy: Vec<CoinbaseOutput> = Vec::new();
    let mut i: usize = 0;
    while i < coinbases.len()
        invariant
            i <= coinbases@.len(),
            copy@.len() == i,
            forall|j: int| 0 <= j < i ==> copy@[j]@ == #[trigger] coinbases@[j]@,
        decreases coinbases@.len() - i,
    {
        copy.push(coinbases[i].clone());
        i = i + 1;
    }
    proof {
        assert(copy@.map_values(|c: CoinbaseOutput| c@) =~= coinbases@.map_values(|c: CoinbaseOutput| c@));
    }
    copy
}

/// The free bytes of the first coinbase that has the given script; empty if there is none.
pub fn coinbase_extra_for(coinbases: &[CoinbaseOutput], script: &[u8]) -> (extra: Vec<u8>)
    ensures
        extra@ == BlockView::coinbase_with(coinbases@.map_values(|c: CoinbaseOutput| c@), script@, 0),
{
    let ghost views = coinbases@.map_values(|c: CoinbaseOutput| c@);
    let mut i: usize = 0;
    while i < coinbases.len()
        invariant
            i <= coinbases@.len(),
            views == coinbases@.map_values(|c: CoinbaseOutput| c@),
            BlockView::coinbase_with(views, script@, 0) == BlockView::coinbase_with(views, script@, i as int),
        decreases coinbases@.len() - i,
    {
        assert(views[i as int] == coinbases@[i as int]@);
        if bytes_equal(&coinbases[i].script, script) {
            return copy_bytes(&coinbases[i].coinbase_extra);
        }
        i = i + 1;
    }
    Vec::new()
}

impl Clone for P2Block {
    fn clone(&self) -> (copy: Self)
        ensures
            copy@ == self@,
    {
        P2Block {
            version: self.version,
            hash: self.hash,
            timestamp: self.timestamp,
            prev_hash: self.prev_hash,
            height: self.height,
            original_header: self.original_header.clone(),
            coinbases: copy_coinbases(&self.coinbases),
            other_output_hash: self.other_output_hash,
            miner_wallet_address: self.miner_wallet_address.clone(),
            sent_to_main_chain: self.sent_to_main_chain,
            target_difficulty: self.target_difficulty,
            uncles: copy_uncles(&self.uncles),
            miner_coinbase_extra: copy_bytes(&self.miner_coinbase_extra),
            verified: self.verified,
            total_pow: self.total_pow,
        }
    }
}

impl Default for P2Block {
    /// A block of the present time for the default address. Both depend on the machine. The header has no encoding yet.
    fn default() -> (block: Self)
        ensures
            block@ == BlockView::blank(block@.timestamp, block@.miner),
            block@.miner.len() == 67,
    {
        let block = P2Block {
            version: PROTOCOL_VERSION,
            hash: FixedHash::zero(),
            timestamp: present_time(),
            prev_hash: FixedHash::zero(),
            height: 0,
            original_header: BlockHeader { nonce: 0, pow_algo: PowAlgorithm::Sha3x, height: 0, encoded: Vec::new() },
            coinbases: Vec::new(),
            other_output_hash: FixedHash::zero(),
            miner_wallet_address: TariAddress { bytes: default_address() },
            sent_to_main_chain: false,
            target_difficulty: Difficulty::min(),
            uncles: Vec::new(),
            miner_coinbase_extra: Vec::new(),
            verified: false,
            total_pow: AccumulatedDifficulty::min(),
        };
        assert(block@ =~= BlockView::blank(block@.timestamp, block@.miner));
        block
    }
}

impl BlockView {
    /// The block that a builder starts from, with its time and its miner.
    pub open spec fn blank(timestamp: u64, miner: Seq<u8>) -> BlockView {
        BlockView {
            version: PROTOCOL_VERSION,
            hash: FixedHash::spec_zero(),
            timestamp,
            prev_hash: FixedHash::spec_zero(),
            height: 0,
            header: HeaderView { nonce: 0, pow_algo: PowAlgorithm::Sha3x, height: 0, encoded: Seq::empty() },
            coinbases: Seq::empty(),
            other_output_hash: FixedHash::spec_zero(),
            miner,
            sent_to_main_chain: false,
            target_difficulty: 1,
            uncles: Seq::empty(),
            coinbase_extra: Seq::empty(),
            verified: false,
            total_pow: 1,
        }
    }
}

impl P2Block {
    /// The bytes that the block's hash is taken of.
    pub fn hash_preimage(&self) -> (preimage: Vec<u8>)
        requires
            self@.encodable(),
        ensures
            preimage@ == self@.preimage(),
    {
        let mut bytes = self.prev_hash.to_vec();
        append_u64(&mut bytes, self.version);
        append_u64(&mut bytes, self.timestamp);
        append_u64(&mut bytes, self.height);
        append_u32(&mut bytes, self.miner_wallet_address.bytes.len() as u32);
        append_bytes(&mut bytes, &self.miner_wallet_address.bytes);
        append_bytes(&mut bytes, &self.original_header.encoded);
        append_u64(&mut bytes, self.target_difficulty.as_u64());
        append_u32(&mut bytes, self.uncles.len() as u32);
        let ghost before = bytes@;
        let mut i: usize = 0;
        while i < self.uncles.len()
            invariant
                i <= self.uncles@.len(),
                bytes@ == before + BlockView::uncle_bytes(self.uncles@, i as int),
            decreases self.uncles@.len() - i,
        {
            append_u64(&mut bytes, self.uncles[i].0);
            let hash = self.uncles[i].1.to_vec();
            append_bytes(&mut bytes, &hash);
            i = i + 1;
            proof {
                assert(bytes@ =~= before + BlockView::uncle_bytes(self.uncles@, i as int));
            }
        }
        append_u32(&mut bytes, self.miner_coinbase_extra.len() as u32);
        append_bytes(&mut bytes, &self.miner_coinbase_extra);
        append_u128(&mut bytes, self.total_pow.as_u128());
        proof {
            assert(bytes@ =~= self@.preimage());
        }
        bytes
    }

    /// The block's hash, from what it holds.
    pub fn generate_hash(&self) -> (hash: BlockHash)
        requires
            self@.encodable(),
        ensures
            self@.hashes_to(hash),
    {
        let preimage = self.hash_preimage();
        let digest = digest_block(&preimage);
        match FixedHash::from_bytes(&digest) {
            Some(hash) => hash,
            None => FixedHash::zero(),
        }
    }

    /// Sets the block's hash to that of what it holds.
    pub fn fix_hash(&mut self)
        requires
            old(self)@.encodable(),
        ensures
            old(self)@.hashes_to(final(self)@.hash),
            final(self)@ == (BlockView { hash: final(self)@.hash, ..old(self)@ }),
    {
        let hash = self.generate_hash();
        self.hash = hash;
        proof {
            assert(self@ =~= BlockView { hash, ..old(self)@ });
        }
    }

    /// Gives the block another target, and moves its total work with it.
    ///
    /// If the new total does not fit, nothing changes. If taking the old target away from it leaves
    /// nothing, the new target stays added.
    pub fn change_target_difficulty(&mut self, target_difficulty: Difficulty) -> (result: Result<(), ShareChainError>)
        requires
            old(self)@.encodable(),
        ensures
            ({
                let sum = old(self)@.total_pow + target_difficulty@;
                let total = sum - old(self)@.target_difficulty;
                let changed = BlockView {
                    target_difficulty: target_difficulty@,
                    total_pow: total as u128,
                    ..old(self)@
                };
                if sum > u128::MAX {
                    result == Err::<(), _>(ShareChainError::DifficultyOverflow) && final(self)@ == old(self)@
                } else if total < 1 {
                    &&& result == Err::<(), _>(ShareChainError::DifficultyOverflow)
                    &&& final(self)@ == (BlockView { total_pow: sum as u128, ..old(self)@ })
                } else {
                    &&& result is Ok
                    &&& final(self)@ == (BlockView { hash: final(self)@.hash, ..changed })
                    &&& changed.hashes_to(final(self)@.hash)
                }
            }),
    {
        match self.total_pow.checked_add_difficulty(target_difficulty) {
            Some(total) => {
                self.total_pow = total;
            },
            None => {
                return Err(ShareChainError::DifficultyOverflow);
            },
        }
        match self.total_pow.checked_sub_difficulty(self.target_difficulty) {
            Some(total) => {
                self.total_pow = total;
            },
            None => {
                return Err(ShareChainError::DifficultyOverflow);
            },
        }
        self.target_difficulty = target_difficulty;
        self.fix_hash();
        Ok(())
    }

    /// The difficulty that the block had to reach.
    pub fn target_difficulty(&self) -> (difficulty: Difficulty)
        ensures
            difficulty@ == self@.target_difficulty,
    {
        self.target_difficulty
    }

    /// The work of the block, its uncles and everything below.
    pub fn total_pow(&self) -> (total: AccumulatedDifficulty)
        ensures
            total@ == self@.total_pow,
    {
        self.total_pow
    }

    /// The free bytes of the coinbase that pays the block's miner; empty if none does.
    pub fn get_miner_coinbase_extra(&self) -> (extra: Vec<u8>)
        ensures
            extra@ == self@.miner_extra(),
    {
        match self.miner_wallet_address.payment_script() {
            Some(script) => coinbase_extra_for(&self.coinbases, &script),
            None => Vec::new(),
        }
    }

    /// Takes over what is kept of the main-chain block that the share was mined for.
    pub fn populate_tari_data(&mut self, block: TariBlock)
        ensures
            final(self)@ == (BlockView {
                header: block.header@,
                coinbases: block.coinbases@.map_values(|c: CoinbaseOutput| c@),
                other_output_hash: block.other_output_hash,
                ..old(self)@
            }),
    {
        self.coinbases = block.coinbases;
        self.other_output_hash = block.other_output_hash;
        self.original_header = block.header;
    }

    /// A copy of the block that counts as verified.
    pub fn to_verified(&self) -> (block: P2Block)
        ensures
            block@ == (BlockView { verified: true, ..self@ }),
    {
        let mut block = self.clone();
        block.verified = true;
        block
    }
}

/// Builds a [`P2Block`].
pub struct P2BlockBuilder {
    block: P2Block,
    added_target_difficulty: bool,
}

impl View for P2BlockBuilder {
    type V = (BlockView, bool);

    closed spec fn view(&self) -> (BlockView, bool) {
        (self.block@, self.added_target_difficulty)
    }
}

impl P2BlockBuilder {
    /// Starts a block of the present time on top of the one with the given hash and total work.
    pub fn new(prev_block_hash_and_pow: Option<(FixedHash, AccumulatedDifficulty)>) -> (builder: Self)
        ensures
            builder@.1 == false,
            builder@.0 == (match prev_block_hash_and_pow {
                Some((hash, pow)) => BlockView {
                    prev_hash: hash,
                    total_pow: pow@,
                    ..BlockView::blank(builder@.0.timestamp, builder@.0.miner)
                },
                None => BlockView::blank(builder@.0.timestamp, builder@.0.miner),
            }),
            builder@.0.miner.len() == 67,
    {
        let mut block = P2Block::default();
        match prev_block_hash_and_pow {
            Some((prev_block_hash, total_pow)) => {
                block.prev_hash = prev_block_hash;
                block.total_pow = total_pow;
            },
            None => {},
        }
        P2BlockBuilder { block, added_target_difficulty: false }
    }

    /// Starts a block of the present time on top of another.
    pub fn new_from_block(block_arg: Option<&P2Block>) -> (builder: Self)
        ensures
            builder@.1 == false,
            builder@.0 == (match block_arg {
                Some(b) => BlockView {
                    prev_hash: b@.hash,
                    total_pow: b@.total_pow,
                    ..BlockView::blank(builder@.0.timestamp, builder@.0.miner)
                },
                None => BlockView::blank(builder@.0.timestamp, builder@.0.miner),
            }),
            builder@.0.miner.len() == 67,
    {
        let mut block = P2Block::default();
        match block_arg {
            Some(b) => {
                block.prev_hash = b.hash;
                block.total_pow = b.total_pow;
            },
            None => {},
        }
        P2BlockBuilder { block, added_target_difficulty: false }
    }

    /// Sets the time, in seconds of the Unix epoch.
    pub fn with_timestamp(self, timestamp: u64) -> (builder: Self)
        ensures
            builder@ == (BlockView { timestamp, ..self@.0 }, self@.1),
    {
        let mut builder = self;
        builder.block.timestamp = timestamp;
        builder
    }

    /// Sets the height.
    pub fn with_height(self, height: u64) -> (builder: Self)
        ensures
            builder@ == (BlockView { height, ..self@.0 }, self@.1),
    {
        let mut builder = self;
        builder.block.height = height;
        builder
    }

    /// Sets the target and adds it to the total work.
    pub fn with_target_difficulty(self, target_difficulty: Difficulty) -> (result: Result<Self, ShareChainError>)
        ensures
            self@.0.total_pow + target_difficulty@ > u128::MAX ==> result == Err::<Self, _>(
                ShareChainError::DifficultyOverflow,
            ),
            self@.0.total_pow + target_difficulty@ <= u128::MAX ==> {
                &&& result is Ok
                &&& result->Ok_0@ == (
                    BlockView {
                        target_difficulty: target_difficulty@,
                        total_pow: (self@.0.total_pow + target_difficulty@) as u128,
                        ..self@.0
                    },
                    true,
                )
            },
    {
        let mut builder = self;
        match builder.block.total_pow.checked_add_difficulty(target_difficulty) {
            Some(total) => {
                builder.added_target_difficulty = true;
                builder.block.target_difficulty = target_difficulty;
                builder.block.total_pow = total;
                Ok(builder)
            },
            None => Err(ShareChainError::DifficultyOverflow),
        }
    }

    /// Takes over what is kept of a main-chain block.
    pub fn with_tari_block(self, block: TariBlock) -> (builder: Self)
        ensures
            builder@ == (
                BlockView {
                    header: block.header@,
                    coinbases: block.coinbases@.map_values(|c: CoinbaseOutput| c@),
                    other_output_hash: block.other_output_hash,
                    ..self@.0
                },
                self@.1,
            ),
    {
        let mut builder = self;
        builder.block.populate_tari_data(block);
        builder
    }

    /// Sets the miner.
    pub fn with_miner_wallet_address(self, miner_wallet_address: TariAddress) -> (builder: Self)
        ensures
            builder@ == (BlockView { miner: miner_wallet_address@, ..self@.0 }, self@.1),
    {
        let mut builder = self;
        builder.block.miner_wallet_address = miner_wallet_address;
        builder
    }

    /// Sets the free bytes for the miner's coinbase.
    pub fn with_miner_coinbase_extra(self, coinbase_extra: Vec<u8>) -> (builder: Self)
        ensures
            builder@ == (BlockView { coinbase_extra: coinbase_extra@, ..self@.0 }, self@.1),
    {
        let mut builder = self;
        builder.block.miner_coinbase_extra = coinbase_extra;
        builder
    }

    /// The heights and hashes of `uncles`.
    pub open spec fn uncle_links(uncles: Seq<Arc<P2Block>>) -> Seq<(u64, BlockHash)> {
        uncles.map_values(|u: Arc<P2Block>| (u@.height, u@.hash))
    }

    /// The work of the first `n` uncles.
    pub open spec fn uncle_work(uncles: Seq<Arc<P2Block>>, n: int) -> nat
        decreases n,
    {
        if n <= 0 {
            0
        } else {
            P2BlockBuilder::uncle_work(uncles, n - 1) + uncles[n - 1]@.target_difficulty as nat
        }
    }

    /// Sets the uncles and adds their work to the total.
    pub fn with_uncles(self, uncles: &Vec<Arc<P2Block>>) -> (result: Result<Self, ShareChainError>)
        ensures
            ({
                let total = self@.0.total_pow + P2BlockBuilder::uncle_work(uncles@, uncles@.len() as int);
                if total > u128::MAX {
                    result == Err::<Self, _>(ShareChainError::DifficultyOverflow)
                } else {
                    &&& result is Ok
                    &&& result->Ok_0@ == (
                        BlockView {
                            uncles: P2BlockBuilder::uncle_links(uncles@),
                            total_pow: total as u128,
                            ..self@.0
                        },
                        self@.1,
                    )
                }
            }),
    {
        let mut builder = self;
        let mut block_uncles: Vec<(u64, BlockHash)> = Vec::new();
        let mut i: usize = 0;
        while i < uncles.len()
            invariant
                i <= uncles@.len(),
                block_uncles@.len() == i,
                forall|j: int|
                    0 <= j < i ==> block_uncles@[j] == (#[trigger] uncles@[j]@.height, uncles@[j]@.hash),
                builder@.1 == self@.1,
                builder@.0 == (BlockView { total_pow: builder@.0.total_pow, ..self@.0 }),
                builder@.0.total_pow == self@.0.total_pow + P2BlockBuilder::uncle_work(uncles@, i as int),
            decreases uncles@.len() - i,
        {
            let uncle = &uncles[i];
            block_uncles.push((uncle.height, uncle.hash));
            match builder.block.total_pow.checked_add_difficulty(uncle.target_difficulty) {
                Some(total) => {
                    builder.block.total_pow = total;
                },
                None => {
                    proof {
                        P2BlockBuilder::lemma_uncle_work_grows(uncles@, i + 1, uncles@.len() as int);
                    }
                    return Err(ShareChainError::DifficultyOverflow);
                },
            }
            i = i + 1;
        }
        builder.block.uncles = block_uncles;
        proof {
            assert(builder@.0.uncles =~= P2BlockBuilder::uncle_links(uncles@));
        }
        Ok(builder)
    }

    proof fn lemma_uncle_work_grows(uncles: Seq<Arc<P2Block>>, a: int, b: int)
        requires
            0 <= a <= b <= uncles.len(),
        ensures
            P2BlockBuilder::uncle_work(uncles, a) <= P2BlockBuilder::uncle_work(uncles, b),
        decreases b,
    {
        if a < b {
            P2BlockBuilder::lemma_uncle_work_grows(uncles, a, b - 1);
        }
    }

    /// Finishes the block: adds its own work to the total if that is still to be done, and hashes it.
    /// A block with no block below carries its own work alone.
    pub fn build(self) -> (result: Result<Arc<P2Block>, ShareChainError>)
        requires
            self@.0.encodable(),
        ensures
            ({
                let total = self@.0.built_total(self@.1);
                let block = BlockView { total_pow: total as u128, ..self@.0 };
                if total > u128::MAX {
                    result == Err::<Arc<P2Block>, _>(ShareChainError::DifficultyOverflow)
                } else {
                    &&& result is Ok
                    &&& result->Ok_0@ == (BlockView { hash: result->Ok_0@.hash, ..block })
                    &&& block.hashes_to(result->Ok_0@.hash)
                }
            }),
    {
        let mut block = self.block;
        let no_parent = block.prev_hash == FixedHash::zero();
        if no_parent {
            block.total_pow = AccumulatedDifficulty::from_difficulty(block.target_difficulty);
        } else if !self.added_target_difficulty {
            match block.total_pow.checked_add_difficulty(block.target_difficulty) {
                Some(total) => {
                    block.total_pow = total;
                },
                None => {
                    return Err(ShareChainError::DifficultyOverflow);
                },
            }
        }
        block.fix_hash();
        Ok(Arc::new(block))
    }
}

}
