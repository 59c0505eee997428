use sha_p2pool::sharechain::p2block::{BlockHeader, P2Block, P2BlockBuilder, TariAddress, TariBlock};
use sha_p2pool::sharechain::p2chain::P2Chain;
use sha_p2pool::types::{AccumulatedDifficulty, Difficulty, FixedHash, PowAlgorithm};
use std::sync::atomic::{AtomicU64, Ordering};
use std::sync::Arc;
use tari_crypto::keys::{PublicKey, SecretKey};
use tari_crypto::ristretto::{RistrettoPublicKey, RistrettoSecretKey};
use tari_utilities::ByteArray;

const NOW: u64 = 1_720_167_829;

static ADDRESSES: AtomicU64 = AtomicU64::new(1);

fn new_key() -> Vec<u8> {
    let mut seed = [7u8; 64];
    seed[..8].copy_from_slice(&ADDRESSES.fetch_add(1, Ordering::SeqCst).to_le_bytes());
    let secret = RistrettoSecretKey::from_uniform_bytes(&seed).unwrap();
    RistrettoPublicKey::from_secret_key(&secret).to_vec()
}

fn new_random_address() -> TariAddress {
    let mut bytes = vec![0x10, 0x01];
    bytes.extend(new_key());
    bytes.extend(new_key());
    bytes.push(tari_common_types::dammsum::compute_checksum(&bytes));
    TariAddress { bytes }
}

fn tari_block(nonce: u64) -> TariBlock {
    TariBlock {
        header: BlockHeader { nonce, pow_algo: PowAlgorithm::Sha3x, height: 0, encoded: nonce.to_le_bytes().to_vec() },
        coinbases: Vec::new(),
        other_output_hash: FixedHash::zero(),
    }
}

fn after(block: Option<&Arc<P2Block>>) -> P2BlockBuilder {
    P2BlockBuilder::new_from_block(block.map(|block| &**block))
}

fn assert_share_window_verified(chain: &P2Chain) {
    let tip = chain.get_tip().unwrap();
    let mut current_block = tip.block_in_main_chain().unwrap().clone();
    assert!(current_block.verified, "Tip block is not verified");
    let mut counter = 1;
    while let Some(parent) = chain.get_parent_block(&current_block) {
        assert!(parent.verified, "Parent block is not verified");
        current_block = parent.clone();
        for uncle in &parent.uncles {
            if let Some(uncle_block) = chain.get_block_at_height(uncle.0, &uncle.1) {
                assert!(uncle_block.verified, "Uncle block is not verified");
            }
        }
        counter += 1;
        if counter >= chain.share_window || parent.height == 0 {
            break;
        }
    }
}

#[test]
fn test_only_keeps_size() {
    let mut chain = P2Chain::new_empty(10, 5, 10);
    let mut nonce: u64 = 0;
    let mut prev_block = None;
    for i in 0..41 {
        nonce = i;
        let address = new_random_address();
        let block = after(prev_block.as_ref())
            .with_timestamp(NOW)
            .with_height(i)
            .with_miner_wallet_address(address.clone())
            .with_tari_block(tari_block(nonce))
            .build()
            .unwrap();
        prev_block = Some(block.clone());

        chain.add_block_to_chain(block.clone()).unwrap();
    }
    // 0..9 blocks should have been trimmed out

    for i in 10..41 {
        let level = chain.level_at_height(i).unwrap();
        assert_eq!(level.block_in_main_chain().unwrap().original_header.nonce, i);
    }

    let level = chain.level_at_height(10).unwrap();
    assert_eq!(level.block_in_main_chain().unwrap().original_header.nonce, 10);

    assert!(chain.level_at_height(0).is_none());
}

#[test]
fn get_tips() {
    let mut chain = P2Chain::new_empty(10, 5, 10);

    let mut prev_block = None;
    let mut nonce: u64 = 0;
    for i in 0..30 {
        nonce = i;
        let address = new_random_address();
        let block = after(prev_block.as_ref())
            .with_timestamp(NOW)
            .with_height(i)
            .with_tari_block(tari_block(nonce))
            .with_miner_wallet_address(address.clone())
            .build()
            .unwrap();
        prev_block = Some(block.clone());
        chain.add_block_to_chain(block.clone()).unwrap();

        let level = chain.get_tip().unwrap();
        assert_eq!(level.height, i);
        assert_eq!(level.block_in_main_chain().unwrap().original_header.nonce, i);
    }
}

#[test]
fn test_does_not_set_tip_unless_full_chain() {
    // we have a window of 5, meaing that we need 5 valid blocks
    // if we dont start at 0, we need a chain of at least 6 blocks
    let mut chain = P2Chain::new_empty(10, 5, 10);

    let mut prev_block = None;
    let mut nonce: u64 = 0;
    for i in 1..6 {
        nonce = i;
        let address = new_random_address();
        let block = after(prev_block.as_ref())
            .with_timestamp(NOW)
            .with_height(i)
            .with_tari_block(tari_block(nonce))
            .with_miner_wallet_address(address.clone())
            .build()
            .unwrap();
        prev_block = Some(block.clone());
        chain.add_block_to_chain(block.clone()).unwrap();
        assert!(chain.get_tip().is_none());
    }
    nonce = 6;
    let address = new_random_address();
    let block = after(prev_block.as_ref())
        .with_timestamp(NOW)
        .with_height(6)
        .with_tari_block(tari_block(nonce))
        .with_miner_wallet_address(address.clone())
        .build()
        .unwrap();
    chain.add_block_to_chain(block.clone()).unwrap();

    let level = chain.get_tip().unwrap();
    assert_eq!(level.height, 6);

    // the whole chain must be verified
    assert_share_window_verified(&chain);
    // first block should not be verified
    assert!(!chain.get_chain_block_at_height(1).unwrap().verified);
}

#[test]
fn test_sets_tip_when_full() {
    // this test test if we can add blocks in rev order and when it gets 5 verified blocks it sets the tip
    // to test this properly we need 6 blocks in the chain, and not use 0 as zero will always be valid and counter
    // as chain start block height 2 will only be valid if it has parents aka block 1, so we need share
    // window + 1 blocks in chain--
    let mut chain = P2Chain::new_empty(10, 5, 10);

    let mut prev_block = None;
    let mut nonce: u64 = 0;
    let mut blocks = Vec::new();
    for i in 0..7 {
        nonce = i;
        let address = new_random_address();
        let block = after(prev_block.as_ref())
            .with_timestamp(NOW)
            .with_height(i)
            .with_tari_block(tari_block(nonce))
            .with_miner_wallet_address(address.clone())
            .build()
            .unwrap();
        prev_block = Some(block.clone());
        blocks.push(block.clone());
    }
    chain.add_block_to_chain(blocks[6].clone()).unwrap();
    assert!(chain.get_tip().is_none());
    assert_eq!(chain.current_tip, 0);
    assert_eq!(chain.levels.len(), 1);
    assert_eq!(chain.levels[0].height, 6);

    for i in (2..6).rev() {
        chain.add_block_to_chain(blocks[i].clone()).unwrap();
        assert!(chain.get_tip().is_none());
        assert_eq!(chain.current_tip, 0);
    }
    chain.add_block_to_chain(blocks[1].clone()).unwrap();

    let level = chain.get_tip().unwrap();
    assert_eq!(level.height, 6);
    assert_share_window_verified(&chain);
}

#[test]
fn test_sets_tip_when_adding_blocks_from_both_side() {
    // this test test if we can add blocks in rev order and when it gets 5 verified blocks it sets the tip
    // to test this properly we need 6 blocks in the chain, and not use 0 as zero will always be valid and counter
    // as chain start block height 2 will only be valid if it has parents aka block 1, so we need share
    // window + 1 blocks in chain--
    let mut chain = P2Chain::new_empty(20, 10, 10);

    let mut prev_block = None;
    let mut nonce: u64 = 0;
    let mut blocks = Vec::new();
    for i in 0..20 {
        nonce = i;
        let address = new_random_address();
        let block = after(prev_block.as_ref())
            .with_timestamp(NOW)
            .with_height(i)
            .with_tari_block(tari_block(nonce))
            .with_miner_wallet_address(address.clone())
            .build()
            .unwrap();
        prev_block = Some(block.clone());
        blocks.push(block.clone());
    }
    for i in 0..9 {
        chain.add_block_to_chain(blocks[i].clone()).unwrap();
        assert_eq!(chain.get_tip().unwrap().height, i as u64);
        chain.add_block_to_chain(blocks[19 - i].clone()).unwrap();
        assert_eq!(chain.get_tip().unwrap().height, i as u64);
    }

    chain.add_block_to_chain(blocks[9].clone()).unwrap();
    assert_eq!(chain.get_tip().unwrap().height, 9);

    chain.add_block_to_chain(blocks[10].clone()).unwrap();
    assert_eq!(chain.get_tip().unwrap().height, 19);

    assert_share_window_verified(&chain);
}

#[test]
fn test_sets_tip_when_full_with_uncles() {
    // this test test if we can add blocks in rev order and when it gets 5 verified blocks it sets the tip
    // to test this properly we need 6 blocks in the chain, and not use 0 as zero will always be valid and counter
    // as chain start block height 2 will only be valid if it has parents aka block 1, so we need share
    // window + 1 blocks in chain--
    let mut chain = P2Chain::new_empty(10, 5, 10);

    let mut prev_block = None;
    let mut nonce: u64 = 0;
    let mut blocks = Vec::new();
    for i in 0..6 {
        nonce = i;
        let address = new_random_address();
        let block = after(prev_block.as_ref())
            .with_timestamp(NOW)
            .with_height(i)
            .with_tari_block(tari_block(nonce))
            .with_miner_wallet_address(address.clone())
            .build()
            .unwrap();
        prev_block = Some(block.clone());
        blocks.push(block.clone());
    }
    nonce = 55;
    let address = new_random_address();
    let uncle_block = after(Some(&blocks[4]))
        .with_timestamp(NOW)
        .with_height(5)
        .with_tari_block(tari_block(nonce))
        .with_miner_wallet_address(address.clone())
        .build()
        .unwrap();

    nonce = 6;
    let address = new_random_address();
    let block = after(prev_block.as_ref())
        .with_timestamp(NOW)
        .with_height(6)
        .with_tari_block(tari_block(nonce))
        .with_miner_wallet_address(address.clone())
        .with_uncles(&vec![uncle_block.clone()])
        .unwrap()
        .build()
        .unwrap();
    blocks.push(block.clone());

    chain.add_block_to_chain(blocks[6].clone()).unwrap();
    assert!(chain.get_tip().is_none());
    assert_eq!(chain.current_tip, 0);
    assert_eq!(chain.levels.len(), 1);
    assert_eq!(chain.levels[0].height, 6);

    for i in (2..6).rev() {
        chain.add_block_to_chain(blocks[i].clone()).unwrap();
        assert!(chain.get_tip().is_none());
        assert_eq!(chain.current_tip, 0);
    }

    chain.add_block_to_chain(blocks[1].clone()).unwrap();

    assert!(chain.get_tip().is_none());
    chain.add_block_to_chain(uncle_block).unwrap();

    let level = chain.get_tip().unwrap();
    assert_eq!(level.height, 6);
}

#[test]
fn test_dont_set_tip_on_single_high_height() {
    let mut chain = P2Chain::new_empty(10, 5, 10);

    let mut prev_block = None;
    let mut nonce: u64 = 0;
    for i in 0..5 {
        nonce = i;
        let address = new_random_address();
        let block = after(prev_block.as_ref())
            .with_timestamp(NOW)
            .with_height(i)
            .with_tari_block(tari_block(nonce))
            .with_miner_wallet_address(address.clone())
            .build()
            .unwrap();
        prev_block = Some(block.clone());
        chain.add_block_to_chain(block.clone()).unwrap();

        let level = chain.get_tip().unwrap();
        assert_eq!(level.height, i);
    }
    // we do this so we can add a missing parent or 2
    let address = new_random_address();
    let block = after(prev_block.as_ref())
        .with_timestamp(NOW)
        .with_height(100)
        .with_tari_block(tari_block(nonce))
        .with_miner_wallet_address(address.clone())
        .build()
        .unwrap();
    prev_block = Some(block.clone());
    let address = new_random_address();
    let block = after(prev_block.as_ref())
        .with_timestamp(NOW)
        .with_height(2000)
        .with_tari_block(tari_block(nonce))
        .with_miner_wallet_address(address.clone())
        .build()
        .unwrap();
    prev_block = Some(block.clone());

    chain.add_block_to_chain(block.clone()).unwrap();

    let level = chain.get_tip().unwrap();
    assert_eq!(level.height, 4);

    let address = new_random_address();
    let block = after(prev_block.as_ref())
        .with_timestamp(NOW)
        .with_height(1000)
        .with_tari_block(tari_block(nonce))
        .with_miner_wallet_address(address.clone())
        .build()
        .unwrap();
    prev_block = Some(block.clone());
    let address = new_random_address();
    let block = after(prev_block.as_ref())
        .with_timestamp(NOW)
        .with_height(20000)
        .with_tari_block(tari_block(nonce))
        .with_miner_wallet_address(address.clone())
        .build()
        .unwrap();

    chain.add_block_to_chain(block.clone()).unwrap();

    let level = chain.get_tip().unwrap();
    assert_eq!(level.height, 4);
}

#[test]
fn get_parent() {
    let mut chain = P2Chain::new_empty(10, 5, 10);

    let mut prev_block = None;
    let mut nonce: u64 = 0;
    for i in 0..41 {
        nonce = i;
        let address = new_random_address();
        let block = after(prev_block.as_ref())
            .with_timestamp(NOW)
            .with_height(i)
            .with_miner_wallet_address(address.clone())
            .with_tari_block(tari_block(nonce))
            .build()
            .unwrap();

        prev_block = Some(block.clone());
        chain.add_block_to_chain(block.clone()).unwrap();
    }

    for i in 11..41 {
        let level = chain.level_at_height(i).unwrap();
        let block = level.block_in_main_chain().unwrap();
        let parent = chain.get_parent_block(block).unwrap();
        assert_eq!(parent.original_header.nonce, i - 1);
    }

    let level = chain.level_at_height(10).unwrap();
    let block = level.block_in_main_chain().unwrap();
    assert!(chain.get_parent_block(block).is_none());
}

#[test]
fn add_blocks_to_chain_happy_path() {
    let mut chain = P2Chain::new_empty(10, 5, 10);

    let mut timestamp: u64 = NOW;
    let mut prev_block = None;

    for i in 0..32 {
        let address = new_random_address();
        timestamp = timestamp + 10;
        let block = after(prev_block.as_ref())
            .with_timestamp(timestamp)
            .with_height(i)
            .with_miner_wallet_address(address.clone())
            .with_target_difficulty(Difficulty::from_u64(i + 1).unwrap())
            .unwrap()
            .build()
            .unwrap();

        prev_block = Some(block.clone());

        chain.add_block_to_chain(block).unwrap();

        let level = chain.get_tip().unwrap();
        assert_eq!(
            level.block_in_main_chain().unwrap().target_difficulty(),
            Difficulty::from_u64(i + 1).unwrap()
        );
    }
}

#[test]
fn add_blocks_to_chain_small_reorg() {
    let mut chain = P2Chain::new_empty(10, 5, 10);

    let mut timestamp: u64 = NOW;
    let mut prev_block = None;

    let mut nonce: u64 = 0;
    for i in 0..32 {
        nonce = i;
        let address = new_random_address();
        timestamp = timestamp + 10;
        let block = after(prev_block.as_ref())
            .with_timestamp(timestamp)
            .with_height(i)
            .with_miner_wallet_address(address.clone())
            .with_target_difficulty(Difficulty::from_u64(10).unwrap())
            .unwrap()
            .with_tari_block(tari_block(nonce))
            .build()
            .unwrap();

        prev_block = Some(block.clone());
        chain.add_block_to_chain(block).unwrap();
    }
    let level = chain.get_tip().unwrap();
    let tip_hash = level.block_in_main_chain().unwrap().generate_hash();
    assert_eq!(
        level.block_in_main_chain().unwrap().target_difficulty(),
        Difficulty::from_u64(10).unwrap()
    );
    assert_eq!(level.block_in_main_chain().unwrap().original_header.nonce, 31);
    assert_eq!(level.block_in_main_chain().unwrap().height, 31);
    assert_eq!(
        chain.total_accumulated_tip_difficulty(),
        AccumulatedDifficulty::from_u128(320).unwrap()
    );

    let block_29 = chain.level_at_height(29).unwrap().block_in_main_chain().unwrap();
    prev_block = Some((*block_29).clone());
    timestamp = block_29.timestamp;

    let address = new_random_address();
    timestamp = timestamp + 10;
    nonce = 30 * 2;
    let block = after(prev_block.as_ref())
        .with_timestamp(timestamp)
        .with_height(30)
        .with_miner_wallet_address(address.clone())
        .with_target_difficulty(Difficulty::from_u64(9).unwrap())
        .unwrap()
        .with_tari_block(tari_block(nonce))
        .build()
        .unwrap();

    prev_block = Some(block.clone());

    chain.add_block_to_chain(block).unwrap();
    let level = chain.get_tip().unwrap();
    // still the old tip
    assert_eq!(tip_hash, level.block_in_main_chain().unwrap().generate_hash());

    let address = new_random_address();

    nonce = 31 * 2;
    timestamp = timestamp + 10;
    let block = after(prev_block.as_ref())
        .with_timestamp(timestamp)
        .with_height(31)
        .with_miner_wallet_address(address.clone())
        .with_target_difficulty(Difficulty::from_u64(32).unwrap())
        .unwrap()
        .with_tari_block(tari_block(nonce))
        .build()
        .unwrap();

    chain.add_block_to_chain(block).unwrap();
    let level = chain.get_tip().unwrap();
    // now it should be the new tip
    assert_ne!(tip_hash, level.block_in_main_chain().unwrap().generate_hash());
    assert_eq!(
        level.block_in_main_chain().unwrap().target_difficulty(),
        Difficulty::from_u64(32).unwrap()
    );
    assert_eq!(level.block_in_main_chain().unwrap().original_header.nonce, 31 * 2);
    assert_eq!(level.block_in_main_chain().unwrap().height, 31);
    assert_eq!(
        chain.total_accumulated_tip_difficulty(),
        AccumulatedDifficulty::from_u128(341).unwrap()
    );
}

#[test]
fn add_blocks_to_chain_super_large_reorg() {
    // this test will verify that we reorg to a completely new chain
    let mut chain = P2Chain::new_empty(10, 5, 20);

    let mut prev_block = None;
    let mut nonce: u64 = 0;
    for i in 0..1000 {
        nonce = i;
        let address = new_random_address();
        let block = after(prev_block.as_ref())
            .with_timestamp(NOW)
            .with_height(i)
            .with_tari_block(tari_block(nonce))
            .with_miner_wallet_address(address.clone())
            .with_target_difficulty(Difficulty::from_u64(10).unwrap())
            .unwrap()
            .build()
            .unwrap();
        prev_block = Some(block.clone());
        chain.add_block_to_chain(block).unwrap();
    }

    assert_eq!(chain.current_tip, 999);
    assert_eq!(chain.get_tip().unwrap().chain_block, prev_block.unwrap().hash);

    let mut prev_block = None;
    let mut nonce: u64 = 0;
    for i in 0..1000 {
        nonce = i + 100;
        let address = new_random_address();
        let block = after(prev_block.as_ref())
            .with_timestamp(NOW)
            .with_height(i)
            .with_tari_block(tari_block(nonce))
            .with_miner_wallet_address(address.clone())
            .with_target_difficulty(Difficulty::from_u64(11).unwrap())
            .unwrap()
            .build()
            .unwrap();
        prev_block = Some(block.clone());
        chain.add_block_to_chain(block).unwrap();
    }
    assert_eq!(chain.current_tip, 999);
    assert_eq!(chain.get_tip().unwrap().chain_block, prev_block.unwrap().hash);
    assert_eq!(
        chain
            .get_tip()
            .unwrap()
            .block_in_main_chain()
            .unwrap()
            .original_header
            .nonce,
        1099
    );

    assert_share_window_verified(&chain);
}

#[test]
fn add_blocks_missing_block() {
    // this test will verify that we reorg to a completely new chain
    let mut chain = P2Chain::new_empty(50, 25, 20);

    let mut prev_block = None;
    let mut nonce: u64 = 0;
    let mut blocks = Vec::new();
    for i in 0..50 {
        nonce = i;
        let address = new_random_address();
        let block = after(prev_block.as_ref())
            .with_timestamp(NOW)
            .with_height(i)
            .with_tari_block(tari_block(nonce))
            .with_miner_wallet_address(address.clone())
            .with_target_difficulty(Difficulty::from_u64(10).unwrap())
            .unwrap()
            .build()
            .unwrap();
        prev_block = Some(block.clone());
        blocks.push(block);
    }

    for (i, block) in blocks.iter().enumerate().take(50) {
        if i != 25 {
            chain.add_block_to_chain(block.clone()).unwrap();
        }
    }
    assert_eq!(chain.current_tip, 24);
    chain.add_block_to_chain(blocks[25].clone()).unwrap();

    assert_eq!(chain.current_tip, 49);
    assert_eq!(chain.get_tip().unwrap().chain_block, prev_block.unwrap().hash);

    assert_share_window_verified(&chain);
}

#[test]
fn reorg_with_missing_uncle() {
    // this test will verify that we reorg to a completely new chain
    let mut chain = P2Chain::new_empty(50, 25, 20);

    let mut prev_block = None;
    let mut nonce: u64 = 0;
    for i in 0..50 {
        nonce = i;
        let address = new_random_address();
        let block = after(prev_block.as_ref())
            .with_timestamp(NOW)
            .with_height(i)
            .with_tari_block(tari_block(nonce))
            .with_miner_wallet_address(address.clone())
            .with_target_difficulty(Difficulty::from_u64(10).unwrap())
            .unwrap()
            .build()
            .unwrap();
        prev_block = Some(block.clone());
        chain.add_block_to_chain(block).unwrap();
    }

    assert_eq!(chain.current_tip, 49);
    assert_eq!(chain.get_tip().unwrap().chain_block, prev_block.unwrap().hash);

    let mut prev_block = None;
    let mut nonce: u64 = 0;
    let mut uncle_parent = None;
    let mut uncle_block = None;
    for i in 0..50 {
        nonce = i + 100;
        let address = new_random_address();
        let uncles = if i == 25 {
            let uncle = after(uncle_parent.as_ref())
                .with_timestamp(NOW)
                .with_height(24)
                .with_tari_block(tari_block(nonce))
                .with_miner_wallet_address(address.clone())
                .build()
                .unwrap();
            uncle_block = Some(uncle.clone());
            vec![uncle]
        } else {
            vec![]
        };
        let block = after(prev_block.as_ref())
            .with_timestamp(NOW)
            .with_height(i)
            .with_tari_block(tari_block(nonce))
            .with_miner_wallet_address(address.clone())
            .with_uncles(&uncles)
            .unwrap()
            .with_target_difficulty(Difficulty::from_u64(11).unwrap())
            .unwrap()
            .build()
            .unwrap();
        if i == 23 {
            uncle_parent = Some(block.clone());
        }
        prev_block = Some(block.clone());
        chain.add_block_to_chain(block).unwrap();
    }

    assert_eq!(chain.current_tip, 49);
    let hash = prev_block.unwrap().hash;
    assert_ne!(chain.get_tip().unwrap().chain_block, hash);
    chain.add_block_to_chain(uncle_block.unwrap()).unwrap();
    assert_eq!(chain.get_tip().unwrap().chain_block, hash);
    assert_eq!(
        chain
            .get_tip()
            .unwrap()
            .block_in_main_chain()
            .unwrap()
            .original_header
            .nonce,
        149
    );

    assert_share_window_verified(&chain);
}

#[test]
fn add_blocks_to_chain_super_large_reorg_only_window() {
    // this test will verify that we reorg to a completely new chain
    let mut chain = P2Chain::new_empty(10, 5, 20);

    let mut prev_block = None;
    let mut nonce: u64 = 0;
    for i in 0..1000 {
        nonce = i;
        let address = new_random_address();
        let block = after(prev_block.as_ref())
            .with_timestamp(NOW)
            .with_height(i)
            .with_tari_block(tari_block(nonce))
            .with_miner_wallet_address(address.clone())
            .with_target_difficulty(Difficulty::from_u64(10).unwrap())
            .unwrap()
            .build()
            .unwrap();
        prev_block = Some(block.clone());
        chain.add_block_to_chain(block).unwrap();
    }

    assert_eq!(chain.current_tip, 999);
    assert_eq!(chain.get_tip().unwrap().chain_block, prev_block.unwrap().hash);

    let mut prev_block = None;
    let mut nonce: u64 = 0;
    let mut blocks = Vec::new();
    for i in 0..1000 {
        nonce = i + 100;
        let address = new_random_address();
        let block = after(prev_block.as_ref())
            .with_timestamp(NOW)
            .with_height(i)
            .with_tari_block(tari_block(nonce))
            .with_miner_wallet_address(address.clone())
            .with_target_difficulty(Difficulty::from_u64(11).unwrap())
            .unwrap()
            .build()
            .unwrap();
        prev_block = Some(block.clone());
        blocks.push(block.clone());
    }
    for block in blocks.iter().take(1000).skip(990) {
        chain.add_block_to_chain(block.clone()).unwrap();
    }
    assert_eq!(chain.current_tip, 999);
    assert_eq!(chain.get_tip().unwrap().chain_block, prev_block.unwrap().hash);
    assert_eq!(
        chain
            .get_tip()
            .unwrap()
            .block_in_main_chain()
            .unwrap()
            .original_header
            .nonce,
        1099
    );

    assert_share_window_verified(&chain);
}

#[test]
fn calculate_total_difficulty_correctly() {
    let mut chain = P2Chain::new_empty(10, 5, 10);

    let mut timestamp: u64 = NOW;
    let mut prev_block = None;

    for i in 1..15 {
        let address = new_random_address();
        timestamp = timestamp + 10;
        let block = after(prev_block.as_ref())
            .with_timestamp(timestamp)
            .with_height(i)
            .with_miner_wallet_address(address.clone())
            .with_target_difficulty(Difficulty::from_u64(10).unwrap())
            .unwrap()
            .build()
            .unwrap();

        prev_block = Some(block.clone());

        chain.add_block_to_chain(block).unwrap();
    }
    assert_eq!(
        chain.total_accumulated_tip_difficulty(),
        AccumulatedDifficulty::from_u128(140).unwrap() //(10)*15
    );
}

#[test]
fn calculate_total_difficulty_correctly_with_uncles() {
    let mut chain = P2Chain::new_empty(10, 5, 10);

    let mut timestamp: u64 = NOW;
    let mut prev_block = None;

    for i in 0..10 {
        let address = new_random_address();
        timestamp = timestamp + 10;
        let mut uncles = Vec::new();
        if i > 1 {
            let prev_uncle = chain.level_at_height(i - 2).unwrap().block_in_main_chain().unwrap();
            // lets create an uncle block
            let block = after(Some(prev_uncle))
                .with_timestamp(timestamp)
                .with_height(i - 1)
                .with_miner_wallet_address(address.clone())
                .with_target_difficulty(Difficulty::from_u64(9).unwrap())
                .unwrap()
                .build()
                .unwrap();
            uncles.push(block.clone());
            chain.add_block_to_chain(block).unwrap();
        }
        let block = after(prev_block.as_ref())
            .with_timestamp(timestamp)
            .with_height(i)
            .with_miner_wallet_address(address.clone())
            .with_target_difficulty(Difficulty::from_u64(10).unwrap())
            .unwrap()
            .with_uncles(&uncles)
            .unwrap()
            .build()
            .unwrap();

        prev_block = Some(block.clone());

        chain.add_block_to_chain(block).unwrap();
    }
    let level = chain.get_tip().unwrap();
    assert_eq!(
        level.block_in_main_chain().unwrap().target_difficulty(),
        Difficulty::from_u64(10).unwrap()
    );
    assert_eq!(level.block_in_main_chain().unwrap().height, 9);
    assert_eq!(
        chain.total_accumulated_tip_difficulty(),
        AccumulatedDifficulty::from_u128(172).unwrap()
    );
}

#[test]
fn calculate_total_difficulty_correctly_with_wrapping_blocks() {
    let mut chain = P2Chain::new_empty(10, 5, 10);

    let mut timestamp: u64 = NOW;
    let mut prev_block = None;

    for i in 0..20 {
        let address = new_random_address();
        timestamp = timestamp + 10;
        let mut uncles = Vec::new();
        if i > 1 {
            let prev_uncle = chain.level_at_height(i - 2).unwrap().block_in_main_chain().unwrap();
            // lets create an uncle block
            let block = after(Some(prev_uncle))
                .with_timestamp(timestamp)
                .with_height(i - 1)
                .with_miner_wallet_address(address.clone())
                .with_target_difficulty(Difficulty::from_u64(9).unwrap())
                .unwrap()
                .build()
                .unwrap();
            uncles.push(block.clone());
            chain.add_block_to_chain(block).unwrap();
        }
        let block = after(prev_block.as_ref())
            .with_timestamp(timestamp)
            .with_height(i)
            .with_miner_wallet_address(address.clone())
            .with_target_difficulty(Difficulty::from_u64(10).unwrap())
            .unwrap()
            .with_uncles(&uncles)
            .unwrap()
            .build()
            .unwrap();

        prev_block = Some(block.clone());

        chain.add_block_to_chain(block).unwrap();
    }
    let level = chain.get_tip().unwrap();
    assert_eq!(
        level.block_in_main_chain().unwrap().target_difficulty(),
        Difficulty::from_u64(10).unwrap()
    );
    assert_eq!(level.block_in_main_chain().unwrap().height, 19);
    assert_eq!(
        chain.total_accumulated_tip_difficulty(),
        AccumulatedDifficulty::from_u128(362).unwrap() //(10+9)*20 - (9*2)
    );
}

#[test]
fn reorg_with_uncles() {
    let mut chain = P2Chain::new_empty(10, 5, 10);

    let mut timestamp: u64 = NOW;
    let mut prev_block = None;

    for i in 0..10 {
        let address = new_random_address();
        timestamp = timestamp + 10;
        let mut uncles = Vec::new();
        if i > 1 {
            let prev_uncle = chain.level_at_height(i - 2).unwrap().block_in_main_chain().unwrap();
            // lets create an uncle block
            let block = after(Some(prev_uncle))
                .with_timestamp(timestamp)
                .with_height(i - 1)
                .with_miner_wallet_address(address.clone())
                .with_target_difficulty(Difficulty::from_u64(9).unwrap())
                .unwrap()
                .build()
                .unwrap();
            uncles.push(block.clone());
            chain.add_block_to_chain(block).unwrap();
        }
        let block = after(prev_block.as_ref())
            .with_timestamp(timestamp)
            .with_height(i)
            .with_miner_wallet_address(address.clone())
            .with_target_difficulty(Difficulty::from_u64(10).unwrap())
            .unwrap()
            .with_uncles(&uncles)
            .unwrap()
            .build()
            .unwrap();

        prev_block = Some(block.clone());

        chain.add_block_to_chain(block).unwrap();
    }

    let address = new_random_address();
    timestamp = timestamp + 10;
    let mut uncles = Vec::new();
    let prev_uncle = chain.level_at_height(6).unwrap().block_in_main_chain().unwrap();
    // lets create an uncle block
    let block = after(Some(prev_uncle))
        .with_timestamp(timestamp)
        .with_height(7)
        .with_miner_wallet_address(address.clone())
        .with_target_difficulty(Difficulty::from_u64(10).unwrap())
        .unwrap()
        .build()
        .unwrap();
    uncles.push(block.clone());
    chain.add_block_to_chain(block).unwrap();
    prev_block = Some((*chain.level_at_height(7).unwrap().block_in_main_chain().unwrap()).clone());
    let block = after(prev_block.as_ref())
        .with_timestamp(timestamp)
        .with_height(8)
        .with_miner_wallet_address(address.clone())
        .with_target_difficulty(Difficulty::from_u64(11).unwrap())
        .unwrap()
        .with_uncles(&uncles)
        .unwrap()
        .build()
        .unwrap();
    let new_block = block.clone();

    chain.add_block_to_chain(block).unwrap();
    // lets create an uncle block
    let mut uncles = Vec::new();
    let block = after(prev_block.as_ref())
        .with_timestamp(timestamp)
        .with_height(8)
        .with_miner_wallet_address(address.clone())
        .with_target_difficulty(Difficulty::from_u64(10).unwrap())
        .unwrap()
        .build()
        .unwrap();
    uncles.push(block.clone());
    chain.add_block_to_chain(block).unwrap();
    let block = after(Some(&new_block))
        .with_timestamp(timestamp)
        .with_height(9)
        .with_miner_wallet_address(address.clone())
        .with_target_difficulty(Difficulty::from_u64(11).unwrap())
        .unwrap()
        .with_uncles(&uncles)
        .unwrap()
        .build()
        .unwrap();

    chain.add_block_to_chain(block).unwrap();
    let level = chain.get_tip().unwrap();
    assert_eq!(
        level.block_in_main_chain().unwrap().target_difficulty(),
        Difficulty::from_u64(11).unwrap()
    );
    assert_eq!(level.block_in_main_chain().unwrap().height, 9);
    assert_eq!(
        chain.total_accumulated_tip_difficulty(),
        AccumulatedDifficulty::from_u128(176).unwrap()
    );
}

#[test]
fn rerog_less_than_share_window() {
    let mut chain = P2Chain::new_empty(20, 15, 20);

    let mut prev_block = None;
    let mut nonce: u64 = 0;
    for i in 0..10 {
        nonce = i;
        let address = new_random_address();
        let block = after(prev_block.as_ref())
            .with_timestamp(NOW)
            .with_height(i)
            .with_tari_block(tari_block(nonce))
            .with_target_difficulty(Difficulty::from_u64(9).unwrap())
            .unwrap()
            .with_miner_wallet_address(address.clone())
            .build()
            .unwrap();
        prev_block = Some(block.clone());
        chain.add_block_to_chain(block.clone()).unwrap();

        let level = chain.get_tip().unwrap();
        assert_eq!(level.height, i);
        assert_eq!(level.block_in_main_chain().unwrap().original_header.nonce, i);
    }

    assert_eq!(chain.total_accumulated_tip_difficulty().as_u128(), 90);

    // lets create a new chain to reorg to
    let mut prev_block = None;
    let mut nonce: u64 = 0;
    for i in 0..10 {
        nonce = i + 100;
        let address = new_random_address();
        let block = after(prev_block.as_ref())
            .with_timestamp(NOW)
            .with_height(i)
            .with_tari_block(tari_block(nonce))
            .with_target_difficulty(Difficulty::from_u64(10).unwrap())
            .unwrap()
            .with_miner_wallet_address(address.clone())
            .build()
            .unwrap();
        prev_block = Some(block.clone());
        chain.add_block_to_chain(block.clone()).unwrap();

        let level = chain.get_tip().unwrap();

        assert_eq!(level.height, 9);
        if i < 9 {
            // less than 9 it has not reorged yet
            assert_eq!(level.block_in_main_chain().unwrap().original_header.nonce, 9);
        } else {
            // new tip, chain has reorged
            assert_eq!(level.block_in_main_chain().unwrap().original_header.nonce, 109);
        }
    }
    assert_eq!(chain.total_accumulated_tip_difficulty().as_u128(), 100);
}

#[test]
fn rests_levels_after_reorg() {
    let mut chain = P2Chain::new_empty(20, 15, 20);

    let mut prev_block = None;
    let mut nonce: u64 = 0;
    for i in 0..10 {
        nonce = i;
        let address = new_random_address();
        let block = after(prev_block.as_ref())
            .with_timestamp(NOW)
            .with_height(i)
            .with_tari_block(tari_block(nonce))
            .with_target_difficulty(Difficulty::from_u64(9).unwrap())
            .unwrap()
            .with_miner_wallet_address(address.clone())
            .build()
            .unwrap();
        prev_block = Some(block.clone());
        chain.add_block_to_chain(block.clone()).unwrap();

        let level = chain.get_tip().unwrap();
        assert_eq!(level.height, i);
        assert_eq!(level.block_in_main_chain().unwrap().original_header.nonce, i);
    }
    let level = chain.get_tip().unwrap();
    assert_eq!(level.height, 9);
    assert_eq!(chain.total_accumulated_tip_difficulty().as_u128(), 90);
    assert_eq!(chain.level_at_height(9).unwrap().chain_block, prev_block.unwrap().hash);

    // lets create a new tip to reorg to branching off 2 from the tip
    let prev_block = Some((*chain.level_at_height(7).unwrap().block_in_main_chain().unwrap()).clone());
    let mut nonce: u64 = 0;

    nonce = 100;
    let address = new_random_address();
    let block = after(prev_block.as_ref())
        .with_timestamp(NOW)
        .with_height(8)
        .with_tari_block(tari_block(nonce))
        .with_target_difficulty(Difficulty::from_u64(100).unwrap())
        .unwrap()
        .with_miner_wallet_address(address.clone())
        .build()
        .unwrap();
    assert_eq!(chain.add_block_to_chain(block.clone()).unwrap().missing_blocks.len(), 0);

    let level = chain.get_tip().unwrap();
    assert_eq!(level.height, 8);
    assert_eq!(chain.total_accumulated_tip_difficulty().as_u128(), 172);
    assert_eq!(chain.level_at_height(9).unwrap().chain_block, FixedHash::zero());
}

#[test]
fn test_block_cannot_become_tip_if_missing_uncles() {
    // This test adds a block to the tip, and then adds second block,
    // but has an uncle that is not in the chain. This test checks that
    // the tip is not set to the new block, because the uncle is missing.
    let mut chain = P2Chain::new_empty(10, 5, 10);

    let prev_block = None;

    let block1 = after(prev_block.as_ref())
        .with_height(0)
        .with_target_difficulty(Difficulty::from_u64(10).unwrap())
        .unwrap()
        .build()
        .unwrap();
    chain.add_block_to_chain(block1.clone()).unwrap();

    assert_eq!(chain.current_tip, 0);
    let block1_uncle = after(prev_block.as_ref())
        .with_height(0)
        .with_target_difficulty(Difficulty::from_u64(9).unwrap())
        .unwrap()
        .build()
        .unwrap();

    let block2 = after(Some(&block1))
        .with_height(1)
        .with_uncles(&vec![block1_uncle.clone()])
        .unwrap()
        .build()
        .unwrap();
    chain.add_block_to_chain(block2).unwrap();
    // The tip should still be block 1 because block 2 is missing an uncle
    assert_eq!(chain.current_tip, 0);
}

#[test]
fn test_only_reorg_to_chain_if_it_is_verified() {
    let mut chain = P2Chain::new_empty(10, 5, 10);
    let prev_block = None;

    let block = after(prev_block.as_ref())
        .with_height(0)
        .with_target_difficulty(Difficulty::from_u64(10).unwrap())
        .unwrap()
        .build()
        .unwrap();

    chain.add_block_to_chain(block.clone()).unwrap();
    let block2 = after(Some(&block))
        .with_height(1)
        .with_target_difficulty(Difficulty::from_u64(10).unwrap())
        .unwrap()
        .build()
        .unwrap();

    chain.add_block_to_chain(block2.clone()).unwrap();

    let missing_uncle = after(prev_block.as_ref())
        .with_height(0)
        .with_target_difficulty(diff(111))
        .unwrap()
        .build()
        .unwrap();

    let unverified_uncle = after(Some(&missing_uncle))
        .with_height(1)
        .with_target_difficulty(Difficulty::from_u64(100).unwrap())
        .unwrap()
        .build()
        .unwrap();

    let block2b = after(Some(&block))
        .with_height(1)
        .with_target_difficulty(Difficulty::from_u64(11).unwrap())
        .unwrap()
        .build()
        .unwrap();

    let block3b = after(Some(&block2b))
        .with_height(2)
        .with_target_difficulty(diff(100))
        .unwrap()
        .with_uncles(&vec![unverified_uncle.clone()])
        .unwrap()
        .build()
        .unwrap();

    assert_eq!(chain.current_tip, 1);
    assert_eq!(chain.get_tip().unwrap().chain_block, block2.hash);

    chain.add_block_to_chain(block3b).unwrap();

    // Check that we don't reorg
    assert_eq!(chain.current_tip, 1);
    assert_eq!(chain.get_tip().unwrap().chain_block, block2.hash);

    chain.add_block_to_chain(unverified_uncle).unwrap();

    // Now add block 2b
    chain.add_block_to_chain(block2b.clone()).unwrap();
    // But chain tip should not be 3b because it is not verified
    assert_eq!(chain.current_tip, 1);
    assert_eq!(chain.get_tip().unwrap().chain_block, block2b.hash);
}

fn diff(i: u64) -> Difficulty {
    Difficulty::from_u64(i).unwrap()
}

/// Blocks one behind the other, from a height on.
fn row(before: Option<&Arc<P2Block>>, from: u64, count: u64) -> Vec<Arc<P2Block>> {
    let mut blocks: Vec<Arc<P2Block>> = Vec::new();
    for height in from..from + count {
        let parent = blocks.last().or(before).cloned();
        let block = after(parent.as_ref())
            .with_timestamp(NOW)
            .with_height(height)
            .with_tari_block(tari_block(height))
            .with_miner_wallet_address(new_random_address())
            .with_target_difficulty(diff(10))
            .unwrap()
            .build()
            .unwrap();
        blocks.push(block);
    }
    blocks
}

#[test]
fn blocks_that_are_let_in_can_push_the_tip_out() {
    let mut chain = P2Chain::new_empty(200, 160, 10);
    for block in row(None, 0, 5) {
        assert!(chain.add_block_to_chain(block).is_ok());
    }
    assert_eq!(chain.get_tip().unwrap().height, 4);
    let far = row(None, 3000, 151);
    for block in &far[..150] {
        assert!(chain.add_block_to_chain(block.clone()).is_ok());
        assert_eq!(chain.get_tip().unwrap().height, 4);
    }
    assert_eq!(chain.sync_store.len(), 150);
    assert!(chain.get_block_at_height(3000, &far[0].hash).is_none());
    let outcome = chain.add_block_to_chain(far[150].clone()).ok().unwrap();
    assert_eq!(outcome.new_tip, None);
    assert!(outcome.missing_blocks.contains(&(far[149].hash, 3149)));
    assert!(chain.get_block_at_height(3000, &far[0].hash).is_some());
    assert!(chain.get_tip().is_none());
    assert_eq!((chain.levels.len(), chain.levels[0].height), (2220, 931));
    assert!(chain.levels.iter().all(|level| level.chain_block == FixedHash::zero()));
}

#[test]
fn blocks_that_are_let_in_can_become_the_main_chain() {
    let mut chain = P2Chain::new_empty(10, 5, 10);
    for block in row(None, 0, 5) {
        assert!(chain.add_block_to_chain(block).is_ok());
    }
    let far = row(None, 3000, 151);
    for block in &far[..150] {
        assert!(chain.add_block_to_chain(block.clone()).is_ok());
    }
    let outcome = chain.add_block_to_chain(far[150].clone()).ok().unwrap();
    assert_eq!(outcome.new_tip, Some((far[150].hash, 3150)));
    let tip = chain.get_tip().unwrap();
    assert_eq!((tip.height, tip.chain_block), (3150, far[150].hash));
    assert_eq!(chain.level_at_height(3149).unwrap().chain_block, far[149].hash);
}

#[test]
fn blocks_that_are_let_in_within_reach_leave_the_tip() {
    let mut chain = P2Chain::new_empty(10, 5, 10);
    let far = row(None, 2250, 151);
    for block in &far[..150] {
        assert!(chain.add_block_to_chain(block.clone()).is_ok());
    }
    let near = row(None, 0, 401);
    for block in &near {
        assert!(chain.add_block_to_chain(block.clone()).is_ok());
    }
    assert_eq!((chain.get_tip().unwrap().height, chain.levels[0].height), (400, 370));
    assert!(chain.add_block_to_chain(far[150].clone()).is_ok());
    assert!(chain.get_block_at_height(2400, &far[150].hash).is_some());
    let tip = chain.get_tip().unwrap();
    assert_eq!((tip.height, tip.chain_block), (400, near[400].hash));
    assert_eq!(chain.level_at_height(399).unwrap().chain_block, near[399].hash);
}

#[test]
fn a_block_that_no_chain_reaches_is_not_kept() {
    let mut chain = P2Chain::new_empty(10, 5, 10);
    let blocks = row(None, 0, 3);
    for block in &blocks {
        assert!(chain.add_block_to_chain(block.clone()).is_ok());
    }
    let mut far = (*blocks[2]).clone();
    far.height = u64::MAX;
    far.hash = far.generate_hash();
    assert!(!chain.takes(far.height) && chain.takes(u64::MAX - 2030));
    let outcome = chain.add_block_to_chain(Arc::new(far)).ok().unwrap();
    assert_eq!(outcome.new_tip, None);
    assert_eq!(outcome.missing_blocks, vec![(blocks[1].hash, u64::MAX - 1)]);
    assert_eq!(chain.sync_store.len(), 0);
    assert_eq!((chain.levels.len(), chain.get_tip().unwrap().height), (3, 2));
}
