use sha_p2pool::sharechain::block::{current_chain_id, Block, BlockBuilder, SubmitBlockResult, ValidateBlockResult};
use sha_p2pool::sharechain::block_level::{BlockLevel, BlockLevelError};
use sha_p2pool::sharechain::block_storage::{
    after_put, grown_size, must_remove_block_cache, read_level, write_level, PutOutcome, PutStep,
};
use sha_p2pool::sharechain::difficulty_window::{DifficultyWindow, DIFFICULTY_ADJUSTMENT_WINDOW};
use sha_p2pool::sharechain::error::ShareChainError;
use sha_p2pool::sharechain::p2block::{
    coinbase_extra_for, BlockHeader, CoinbaseOutput, P2Block, P2BlockBuilder, TariAddress, TariBlock,
};
use sha_p2pool::sharechain::p2chain::{ChainAddResult, P2Chain};
use sha_p2pool::sharechain::p2chain_level::P2ChainLevel;
use sha_p2pool::sharechain::pool_chain::PoolChain;
use sha_p2pool::types::{AccumulatedDifficulty, Difficulty, FixedHash, PowAlgorithm};
use std::sync::atomic::{AtomicU64, Ordering};
use std::sync::Arc;
use tari_crypto::keys::{PublicKey, SecretKey};
use tari_crypto::ristretto::{RistrettoPublicKey, RistrettoSecretKey};
use tari_utilities::ByteArray;

const NOW: u64 = 1_720_167_829;

static ADDRESSES: AtomicU64 = AtomicU64::new(1);

fn new_key() -> Vec<u8> {
    let mut seed = [7u8; 64];
    seed[..8].copy_from_slice(&ADDRESSES.fetch_add(1, Ordering::SeqCst).to_le_bytes());
    let secret = RistrettoSecretKey::from_uniform_bytes(&seed).unwrap();
    RistrettoPublicKey::from_secret_key(&secret).to_vec()
}

fn new_random_address() -> TariAddress {
    let mut bytes = vec![0x10, 0x01];
    bytes.extend(new_key());
    bytes.extend(new_key());
    bytes.push(tari_common_types::dammsum::compute_checksum(&bytes));
    TariAddress { bytes }
}

fn diff(i: u64) -> Difficulty {
    Difficulty::from_u64(i).unwrap()
}

fn after(block: Option<&Arc<P2Block>>) -> P2BlockBuilder {
    P2BlockBuilder::new_from_block(block.map(|block| &**block))
}

#[test]
fn correctly_updates_block_target_difficulty() {
    let time = NOW;
    let block = (*P2BlockBuilder::new(None)
        .with_timestamp(time)
        .with_height(0)
        .with_target_difficulty(diff(15))
        .unwrap()
        .build()
        .unwrap())
    .clone();

    let mut block2 = (*P2BlockBuilder::new(None)
        .with_timestamp(time)
        .with_height(0)
        .with_target_difficulty(diff(5))
        .unwrap()
        .build()
        .unwrap())
    .clone();

    assert_ne!(block, block2);

    block2.change_target_difficulty(diff(15)).unwrap();

    assert_eq!(block, block2);
}

#[test]
fn it_gets_the_block_chain() {
    let address = new_random_address();
    let block = P2BlockBuilder::new(None)
        .with_timestamp(NOW)
        .with_height(0)
        .with_miner_wallet_address(address.clone())
        .build()
        .unwrap();
    let mut chain_level = P2ChainLevel::new(block.clone());
    chain_level.set_chain_block(block.generate_hash());

    assert_eq!(chain_level.block_in_main_chain().unwrap().generate_hash(), block.generate_hash());
    // this is not correct, but we want the hashes to be different from the blocks
    let block_2 = after(Some(&block))
        .with_timestamp(NOW)
        .with_height(0)
        .with_miner_wallet_address(address.clone())
        .build()
        .unwrap();

    chain_level.add_block(block_2.clone()).unwrap();
    assert_eq!(chain_level.block_in_main_chain().unwrap().generate_hash(), block.generate_hash());

    // this is not correct, but we want the hashes to be different from the blocks
    let block_3 = after(Some(&block_2))
        .with_timestamp(NOW)
        .with_height(0)
        .with_miner_wallet_address(address)
        .build()
        .unwrap();

    chain_level.add_block(block_3.clone()).unwrap();
    chain_level.set_chain_block(block_3.generate_hash());

    assert_eq!(chain_level.block_in_main_chain().unwrap().generate_hash(), block_3.generate_hash());
}

#[test]
fn add_block() {
    let mut chain = PoolChain::new(1);
    let block = P2Block { height: 1, ..P2Block::default() };
    chain.new_level(block, true);
    let block2 = P2Block { height: 2, ..P2Block::default() };

    chain.new_level(block2, true);
    assert_eq!(chain.tip_height(), 2);
    assert!(!chain.is_empty() && !chain.is_full());
    assert!(chain.get_at_height(1).is_none());
    assert_eq!(chain.get_at_height(2).unwrap().height(), 2);
}

#[test]
fn a_new_pool_chain_is_empty() {
    let chain = PoolChain::new(3);
    assert!(chain.is_empty() && !chain.is_full());
    assert_eq!(chain.tip_height(), 0);
    assert!(chain.get_at_height(0).is_none());
}

#[test]
fn a_level_takes_only_blocks_of_its_height() {
    let first = P2Block { height: 4, hash: FixedHash { first: 1, second: 0 }, ..P2Block::default() };
    let second = P2Block { height: 4, hash: FixedHash { first: 2, second: 0 }, ..P2Block::default() };
    let stray = P2Block { height: 5, hash: FixedHash { first: 3, second: 0 }, ..P2Block::default() };
    let mut level = BlockLevel::new(vec![first], 4);
    match level.add_block(stray.clone(), true) {
        Err(BlockLevelError::InvalidBlock(refused)) => assert_eq!(refused, stray),
        Ok(()) => panic!("a block of another height was taken"),
    }
    assert_eq!(level.block_in_main_chain().unwrap().hash.first, 1);
    assert!(level.add_block(second, true).is_ok());
    assert_eq!(level.block_in_main_chain().unwrap().hash.first, 2);
    assert_eq!(level.height(), 4);
}

#[test]
fn hashes_are_read_back_from_their_bytes() {
    let bytes: Vec<u8> = (0..32).collect();
    let hash = FixedHash::from_bytes(&bytes).unwrap();
    assert_eq!(hash.to_vec(), bytes);
    assert_ne!(hash, FixedHash::zero());
    assert!(FixedHash::from_bytes(&bytes[1..]).is_none());
    assert_eq!(FixedHash::zero().to_vec(), vec![0; 32]);
}

#[test]
fn difficulties_start_at_one() {
    assert!(Difficulty::from_u64(0).is_none());
    assert_eq!(Difficulty::min().as_u64(), 1);
    assert!(AccumulatedDifficulty::from_u128(0).is_none());
    let total = AccumulatedDifficulty::from_difficulty(diff(7));
    assert_eq!(total.checked_add_difficulty(diff(5)).unwrap().as_u128(), 12);
    assert_eq!(total.checked_sub_difficulty(diff(5)).unwrap().as_u128(), 2);
    assert!(total.checked_sub_difficulty(diff(7)).is_none());
    assert!(AccumulatedDifficulty::from_u128(u128::MAX).unwrap().checked_add_difficulty(diff(1)).is_none());
}

#[test]
fn a_hash_depends_on_what_it_covers() {
    let base = P2Block::default();
    let mut hashes = vec![base.generate_hash()];
    for i in 0..8 {
        let mut block = base.clone();
        match i {
            0 => block.version += 1,
            1 => block.prev_hash = FixedHash { first: 1, second: 0 },
            2 => block.timestamp = 1,
            3 => block.height = 1,
            4 => block.miner_wallet_address = new_random_address(),
            5 => block.original_header.encoded = vec![1],
            6 => block.target_difficulty = diff(2),
            _ => block.uncles = vec![(1, FixedHash::zero())],
        }
        hashes.push(block.generate_hash());
    }
    for i in 0..hashes.len() {
        for j in 0..i {
            assert_ne!(hashes[i], hashes[j], "{} and {}", i, j);
        }
    }
    // what a node finds out by itself is not covered
    let mut block = base.clone();
    block.verified = true;
    block.sent_to_main_chain = true;
    assert_eq!(block.generate_hash(), hashes[0]);
}

#[test]
fn blocks_carry_the_work_below_them() {
    let first = P2BlockBuilder::new(None).with_height(0).with_target_difficulty(diff(10)).unwrap().build().unwrap();
    assert_eq!(first.total_pow().as_u128(), 10);
    let uncle = P2BlockBuilder::new(None).with_height(0).with_target_difficulty(diff(4)).unwrap().build().unwrap();
    let second = after(Some(&first))
        .with_height(1)
        .with_target_difficulty(diff(20))
        .unwrap()
        .with_uncles(&vec![uncle.clone()])
        .unwrap()
        .build()
        .unwrap();
    assert_eq!(second.total_pow().as_u128(), 34);
    assert_eq!(second.prev_hash, first.hash);
    assert_eq!(second.uncles, vec![(0, uncle.hash)]);
    assert_eq!(second.target_difficulty(), diff(20));
    let top = P2BlockBuilder::new(Some((first.hash, AccumulatedDifficulty::from_u128(u128::MAX).unwrap())));
    assert!(matches!(top.with_target_difficulty(diff(1)), Err(ShareChainError::DifficultyOverflow)));
}

#[test]
fn addresses_are_read_back_from_their_text() {
    let address = new_random_address();
    let text = address.to_base58().unwrap();
    assert_ne!(text.as_bytes(), &address.bytes[..]);
    assert_eq!(TariAddress::from_text(&text), Ok(address.clone()));
    let refused = TariAddress::from_text("no address").err();
    assert_eq!(refused, Some("Could not recover TariAddress from string".to_string()));
    assert!(TariAddress { bytes: vec![1, 2, 3] }.to_base58().is_none());
    assert!(TariAddress { bytes: vec![1, 2, 3] }.payment_script().is_none());
    let script = address.payment_script().unwrap();
    // the script pushes the spend key
    assert_eq!((script.len(), script[0]), (33, 0x7e));
    assert_eq!(script[1..], address.bytes[34..66]);
    assert_ne!(script, new_random_address().payment_script().unwrap());
}

#[test]
fn a_miner_finds_its_free_bytes_by_its_script() {
    let address = new_random_address();
    let script = address.payment_script().unwrap();
    let outputs = vec![
        CoinbaseOutput { script: vec![1], coinbase_extra: vec![10] },
        CoinbaseOutput { script: script.clone(), coinbase_extra: vec![20, 21] },
    ];
    assert_eq!(coinbase_extra_for(&outputs, &script), vec![20, 21]);
    assert_eq!(coinbase_extra_for(&outputs, &[7]), Vec::<u8>::new());
    let mut block = P2Block { miner_wallet_address: address, ..P2Block::default() };
    block.populate_tari_data(TariBlock {
        header: BlockHeader { nonce: 3, pow_algo: PowAlgorithm::RandomX, height: 8, encoded: vec![5] },
        coinbases: outputs,
        other_output_hash: FixedHash { first: 6, second: 0 },
    });
    assert_eq!(block.get_miner_coinbase_extra(), vec![20, 21]);
    assert_eq!(block.original_header.nonce, 3);
    assert!(block.to_verified().verified);
}

#[test]
fn outcomes_are_told_in_words() {
    assert_eq!(ChainAddResult::empty().report(), "No new tip added\n");
    let mut bytes = vec![0u8; 32];
    bytes[0] = 0x0a;
    bytes[1] = 0xbc;
    bytes[3] = 0xff;
    let hash = FixedHash::from_bytes(&bytes).unwrap();
    let mut result = ChainAddResult::empty();
    result.set_new_tip(hash, 12);
    assert_eq!(result.report(), "Added new tip 12(abc0ff)\n");
    let mut other = ChainAddResult::empty();
    other.missing_blocks = vec![(hash, 3), (FixedHash::zero(), 4)];
    result.combine(other);
    assert_eq!(
        result.report(),
        "Added new tip 12(abc0ff)\nMissing blocks: [\"3(abc0ff)\", \"4(0000)\"]\n"
    );
    assert_eq!(result.into_missing_parents_vec(), vec![(3, hash), (4, FixedHash::zero())]);
}

#[test]
fn the_highest_tip_wins_when_outcomes_are_combined() {
    let hash = FixedHash { first: 1, second: 0 };
    let mut result = ChainAddResult::empty();
    result.set_new_tip(hash, 7);
    let mut lower = ChainAddResult::empty();
    lower.set_new_tip(FixedHash::zero(), 5);
    result.combine(lower);
    assert_eq!(result.new_tip, Some((hash, 7)));
    let mut higher = ChainAddResult::empty();
    higher.set_new_tip(FixedHash::zero(), 9);
    result.combine(higher);
    assert_eq!(result.new_tip, Some((FixedHash::zero(), 9)));
}

#[test]
fn an_empty_chain_has_no_tip() {
    let chain = P2Chain::new_empty(10, 5, 10);
    assert!(chain.get_tip().is_none() && !chain.is_full());
    assert_eq!(chain.get_height(), 0);
    assert_eq!(chain.total_accumulated_tip_difficulty(), AccumulatedDifficulty::min());
    assert!(chain.get_chain_block_at_height(0).is_none());
}

#[test]
fn windows_keep_the_latest_samples() {
    let mut window = DifficultyWindow::new();
    for i in 0..DIFFICULTY_ADJUSTMENT_WINDOW as u64 + 5 {
        window.add_back(100 + i, i + 1);
    }
    assert!(window.is_full());
    let samples = window.samples();
    assert_eq!(samples.len(), window.num_samples());
    assert_eq!(samples.last().unwrap(), &(100 + DIFFICULTY_ADJUSTMENT_WINDOW as u64 + 4, DIFFICULTY_ADJUSTMENT_WINDOW as u64 + 5));
}

#[test]
fn storage_grows_until_it_gives_up() {
    assert_eq!(after_put(1, PutOutcome::Stored), PutStep::Done);
    assert_eq!(after_put(9, PutOutcome::MapFull), PutStep::GrowAndPut);
    assert_eq!(after_put(10, PutOutcome::MapFull), PutStep::GiveUp);
    assert_eq!(after_put(1, PutOutcome::Failed), PutStep::Fail);
    assert_eq!(grown_size(1 << 20), 1 << 21);
    assert!(must_remove_block_cache(&vec!["02_other".to_string()]));
    assert!(!must_remove_block_cache(&vec!["01_remove_block_cache".to_string()]));
    let hash = FixedHash { first: 5, second: 6 };
    let (key, value) = write_level(77, &hash);
    assert_eq!(key, 77u64.to_le_bytes().to_vec());
    assert_eq!(read_level(&key, &value), Some((77, hash)));
    assert_eq!(read_level(&key, &value[1..]), None);
}

#[test]
fn plain_blocks_are_built_step_by_step() {
    let id = current_chain_id("abcd");
    let block: Block = BlockBuilder::new(id, 55).with_height(3).with_prev_hash(FixedHash { first: 2, second: 0 }).build();
    assert_eq!(block.height, 3);
    assert_eq!(block.prev_hash, FixedHash { first: 2, second: 0 });
    assert_eq!(block.hash, block.generate_hash());
    assert_eq!(block.timestamp, 55);
    let later: Block = BlockBuilder::new(current_chain_id("abcd"), 55).with_height(3).with_timestamp(56).build();
    assert_ne!(later.hash, block.hash);
    assert!(SubmitBlockResult::new(true).need_sync);
    let answer = ValidateBlockResult::new(true, false);
    assert!(answer.valid && !answer.need_sync);
}
