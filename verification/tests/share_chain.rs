use sha_p2pool::sharechain::error::{RejectReason, ShareChainError, ValidationError};
use sha_p2pool::sharechain::in_memory::{coinbases_for, target_difficulty_within, CheckedBlock, InMemoryShareChain};
use sha_p2pool::sharechain::p2block::{BlockHeader, P2Block, P2BlockBuilder, TariAddress, TariBlock, PROTOCOL_VERSION};
use sha_p2pool::sharechain::shares::ShareTable;
use sha_p2pool::sharechain::sync_blocks::sort_by_height;
use sha_p2pool::types::{AccumulatedDifficulty, Difficulty, FixedHash, PowAlgorithm};
use std::sync::atomic::{AtomicU64, Ordering};
use std::sync::Arc;
use tari_crypto::keys::{PublicKey, SecretKey};
use tari_crypto::ristretto::{RistrettoPublicKey, RistrettoSecretKey};
use tari_utilities::ByteArray;

const NOW: u64 = 1_720_167_829;

static ADDRESSES: AtomicU64 = AtomicU64::new(1);

fn new_key() -> Vec<u8> {
    let mut seed = [7u8; 64];
    seed[..8].copy_from_slice(&ADDRESSES.fetch_add(1, Ordering::SeqCst).to_le_bytes());
    let secret = RistrettoSecretKey::from_uniform_bytes(&seed).unwrap();
    RistrettoPublicKey::from_secret_key(&secret).to_vec()
}

fn new_random_address() -> TariAddress {
    let mut bytes = vec![0x10, 0x01];
    bytes.extend(new_key());
    bytes.extend(new_key());
    bytes.push(tari_common_types::dammsum::compute_checksum(&bytes));
    TariAddress { bytes }
}

fn diff(i: u64) -> Difficulty {
    Difficulty::from_u64(i).unwrap()
}

fn after(block: Option<&Arc<P2Block>>) -> P2BlockBuilder {
    P2BlockBuilder::new_from_block(block.map(|block| &**block))
}

fn new_chain() -> InMemoryShareChain {
    InMemoryShareChain::new(PowAlgorithm::Sha3x, false, 10).ok().unwrap()
}

fn checked(block: &Arc<P2Block>) -> CheckedBlock {
    CheckedBlock { block: block.clone(), achieved: Some(diff(1000)) }
}

#[test]
fn equal_shares() {
    let mut share_chain = new_chain();
    let mut timestamp = NOW;
    let mut prev_block: Option<Arc<P2Block>> = None;
    let static_coinbase_extra: Vec<u8> = Vec::new();
    for i in 0..15 {
        timestamp += 10;
        let block = after(prev_block.as_ref())
            .with_timestamp(timestamp)
            .with_height(i)
            .with_miner_wallet_address(new_random_address())
            .with_target_difficulty(diff(1))
            .unwrap()
            .with_miner_coinbase_extra(static_coinbase_extra.clone())
            .build()
            .unwrap();
        prev_block = Some(block.clone());
        assert!(share_chain.submit_block(block, Some(diff(1))).is_ok());
    }

    let shares = share_chain.get_calculate_and_cache_hashmap_of_shares().ok().unwrap();
    assert_eq!(shares.entries.len(), 15);
    for share in shares.entries {
        assert_eq!((share.shares, share.coinbase_extra), (5, static_coinbase_extra.clone()))
    }
}

#[test]
fn equal_share_same_participants() {
    let mut share_chain = new_chain();
    let static_coinbase_extra: Vec<u8> = Vec::new();
    let mut timestamp = NOW;
    let mut prev_block: Option<Arc<P2Block>> = None;
    let mut miners = Vec::new();
    for _ in 0..5 {
        miners.push(new_random_address());
    }

    for i in 0..15 {
        let address = miners[i % 5].clone();
        timestamp += 10;
        let block = after(prev_block.as_ref())
            .with_timestamp(timestamp)
            .with_height(i as u64)
            .with_miner_wallet_address(address.clone())
            .with_target_difficulty(diff(1))
            .unwrap()
            .with_miner_coinbase_extra(static_coinbase_extra.clone())
            .build()
            .unwrap();
        prev_block = Some(block.clone());
        assert!(share_chain.submit_block(block, Some(diff(1))).is_ok());
    }

    let shares = share_chain.get_calculate_and_cache_hashmap_of_shares().ok().unwrap();
    assert_eq!(shares.entries.len(), 5);
    for share in shares.entries {
        assert_eq!((share.shares, share.coinbase_extra), (15, static_coinbase_extra.clone()))
    }
}

#[test]
fn equal_share_same_participants_with_uncles() {
    let mut share_chain = new_chain();
    let static_coinbase_extra: Vec<u8> = Vec::new();
    let mut timestamp = NOW;
    let mut prev_block: Option<Arc<P2Block>> = None;
    let mut miners = Vec::new();
    for _ in 0..5 {
        miners.push(new_random_address());
    }

    for i in 0..15 {
        let address = miners[i % 5].clone();
        timestamp += 10;
        let mut uncles = Vec::new();
        if i > 10 {
            let prev_uncle =
                share_chain.p2_chain.level_at_height(i as u64 - 2).unwrap().block_in_main_chain().unwrap().clone();
            // lets create an uncle block
            let block = after(Some(&prev_uncle))
                .with_timestamp(timestamp)
                .with_height(i as u64 - 1)
                .with_miner_wallet_address(address.clone())
                .with_target_difficulty(diff(1))
                .unwrap()
                .with_miner_coinbase_extra(static_coinbase_extra.clone())
                .build()
                .unwrap();
            uncles.push(block.clone());
            assert!(share_chain.submit_block(block, Some(diff(1))).is_ok());
        }
        let block = after(prev_block.as_ref())
            .with_timestamp(timestamp)
            .with_height(i as u64)
            .with_miner_wallet_address(address.clone())
            .with_target_difficulty(diff(1))
            .unwrap()
            .with_uncles(&uncles)
            .unwrap()
            .with_miner_coinbase_extra(static_coinbase_extra.clone())
            .build()
            .unwrap();
        prev_block = Some(block.clone());
        assert!(share_chain.submit_block(block, Some(diff(1))).is_ok());
    }

    let shares = share_chain.get_calculate_and_cache_hashmap_of_shares().ok().unwrap();
    assert_eq!(shares.entries.len(), 5);
    // we have 1 miner with 15 shares and 4 with 19 shares
    // 15  = 3* full shares (5)
    // 19  = 3* full shares (5) + 1 * uncle(4)
    let mut counter_19 = 0;
    let mut counter_15 = 0;
    for share in shares.entries {
        match share.shares {
            19 => counter_19 += 1,
            15 => counter_15 += 1,
            _ => panic!("Should be 19 or 15"),
        }
    }
    assert_eq!(counter_19, 4);
    assert_eq!(counter_15, 1);
}

#[test]
fn test_request_sync_starts_from_highest_match() {
    let mut chain = new_chain();
    let mut blocks: Vec<Arc<P2Block>> = Vec::new();
    for i in 0..10 {
        let block = after(blocks.last()).with_height(i).with_target_difficulty(diff(1)).unwrap().build().unwrap();
        blocks.push(block);
    }
    let received: Vec<CheckedBlock> = blocks.iter().map(checked).collect();
    assert!(chain.add_synced_blocks(&received).is_ok());
    assert_eq!(chain.tip_height(), 9);

    let mut their_blocks = Vec::new();
    their_blocks.push((3, blocks[3].hash));

    let res = chain.request_sync(&their_blocks, 10, None);
    assert_eq!(res.len(), 7);
    let heights = res.iter().map(|block| block.height).collect::<Vec<u64>>();
    assert_eq!(heights, vec![3, 4, 5, 6, 7, 8, 9]);

    // if last block is higher, then we should start from the highest match
    let res = chain.request_sync(&their_blocks, 10, Some((5, blocks[5].hash)));

    assert_eq!(res.len(), 5);
    let heights = res.iter().map(|block| block.height).collect::<Vec<u64>>();
    assert_eq!(heights, vec![5, 6, 7, 8, 9]);

    // if there is a match in the middle, we should start from the highest match
    their_blocks.push((7, blocks[7].hash));
    let res = chain.request_sync(&their_blocks, 10, Some((5, blocks[5].hash)));

    assert_eq!(res.len(), 3);
    let heights = res.iter().map(|block| block.height).collect::<Vec<u64>>();
    assert_eq!(heights, vec![7, 8, 9]);

    // Add an extra block in their blocks
    let missing_block =
        after(blocks.last()).with_height(11).with_target_difficulty(diff(10)).unwrap().build().unwrap();
    their_blocks.push((11, missing_block.hash));

    let res = chain.request_sync(&their_blocks, 10, Some((5, blocks[5].hash)));

    assert_eq!(res.len(), 3);
    let heights = res.iter().map(|block| block.height).collect::<Vec<u64>>();
    assert_eq!(heights, vec![7, 8, 9]);
}

/// A chain of ten blocks, each by another miner.
fn ten_blocks() -> (InMemoryShareChain, Vec<Arc<P2Block>>) {
    let mut chain = new_chain();
    let mut blocks: Vec<Arc<P2Block>> = Vec::new();
    for i in 0..10 {
        let block = after(blocks.last())
            .with_timestamp(NOW + i)
            .with_height(i)
            .with_miner_wallet_address(new_random_address())
            .with_target_difficulty(diff(3))
            .unwrap()
            .build()
            .unwrap();
        blocks.push(block.clone());
        assert!(chain.submit_block(block, Some(diff(3))).is_ok());
    }
    (chain, blocks)
}

fn refusal(chain: &mut InMemoryShareChain, block: Arc<P2Block>, achieved: Option<Difficulty>) -> ShareChainError {
    let before = (chain.get_tip(), chain.chain_pow());
    let error = chain.submit_block(block, achieved).err().unwrap();
    assert_eq!((chain.get_tip(), chain.chain_pow()), before);
    error
}

#[test]
fn blocks_that_break_a_rule_are_turned_away() {
    let (mut chain, blocks) = ten_blocks();
    let next = || after(blocks.last()).with_height(10).with_target_difficulty(diff(3)).unwrap();

    let block = next().build().unwrap();
    assert_eq!(
        refusal(&mut chain, block.clone(), Some(diff(2))),
        ShareChainError::ValidationError { error: ValidationError::DifficultyTarget }
    );
    assert_eq!(
        refusal(&mut chain, block.clone(), None),
        ShareChainError::ValidationError { error: ValidationError::Difficulty }
    );
    let mut old = (*block).clone();
    old.version = PROTOCOL_VERSION - 1;
    assert_eq!(
        refusal(&mut chain, Arc::new(old), Some(diff(3))),
        ShareChainError::BlockValidation { cause: RejectReason::VersionMismatch }
    );
    let other_algo = next()
        .with_tari_block(TariBlock {
            header: BlockHeader { nonce: 0, pow_algo: PowAlgorithm::RandomX, height: 0, encoded: Vec::new() },
            coinbases: Vec::new(),
            other_output_hash: FixedHash::zero(),
        })
        .build()
        .unwrap();
    assert_eq!(
        refusal(&mut chain, other_algo, Some(diff(3))),
        ShareChainError::ValidationError { error: ValidationError::InvalidPowAlgorithm }
    );
    let young = next().with_uncles(&vec![blocks[9].clone()]).unwrap();
    let mut level_uncle = (*blocks[9]).clone();
    level_uncle.height = 10;
    let beside = next().with_uncles(&vec![Arc::new(level_uncle)]).unwrap().build().unwrap();
    assert_eq!(
        refusal(&mut chain, beside, Some(diff(3))),
        ShareChainError::ValidationError { error: ValidationError::UnclesOnSameHeightOrHigher }
    );
    let aged = next().with_uncles(&vec![blocks[1].clone()]).unwrap().build().unwrap();
    assert_eq!(
        refusal(&mut chain, aged, Some(diff(3))),
        ShareChainError::ValidationError { error: ValidationError::UncleTooOld }
    );
    let early = after(Some(&blocks[3])).with_height(4).with_uncles(&vec![blocks[3].clone()]).unwrap().build().unwrap();
    assert_eq!(
        refusal(&mut chain, early, Some(diff(3))),
        ShareChainError::ValidationError { error: ValidationError::UnclesBeforeStartHeight }
    );
    let crowd = young.with_uncles(&vec![blocks[8].clone(), blocks[7].clone(), blocks[9].clone(), blocks[8].clone()]);
    assert_eq!(
        refusal(&mut chain, crowd.unwrap().build().unwrap(), Some(diff(3))),
        ShareChainError::ValidationError { error: ValidationError::TooManyUncles }
    );
    // the block itself is fine, and adding it twice changes nothing
    assert!(chain.submit_block(block.clone(), Some(diff(3))).ok().unwrap().new_tip.is_some());
    assert!(chain.submit_block(block.clone(), Some(diff(3))).ok().unwrap().new_tip.is_none());
    assert_eq!(chain.get_tip(), Some((10, block.hash)));
}

#[test]
fn a_random_x_chain_needs_parameters() {
    assert_eq!(
        InMemoryShareChain::new(PowAlgorithm::RandomX, false, 10).err(),
        Some(ShareChainError::MissingBlockValidationParams)
    );
    let chain = InMemoryShareChain::new(PowAlgorithm::RandomX, true, 10).ok().unwrap();
    let block = P2Block::default();
    assert_eq!(
        chain.validate_claimed_difficulty(&block, Some(diff(5))).err(),
        Some(ValidationError::InvalidPowAlgorithm)
    );
    let mut block = P2Block::default();
    block.original_header.pow_algo = PowAlgorithm::RandomX;
    assert_eq!(
        chain.validate_claimed_difficulty(&block, None).err(),
        Some(ValidationError::RandomXDifficulty)
    );
    assert_eq!(chain.validate_claimed_difficulty(&block, Some(diff(5))).ok(), Some(diff(5)));
    assert_eq!(chain.block_difficulty(&block, Some(diff(5))), Ok(5));
}

#[test]
fn blocks_below_the_share_window_are_turned_away() {
    let mut chain = new_chain();
    let mut blocks: Vec<Arc<P2Block>> = Vec::new();
    for i in 0..403 {
        let block = after(blocks.last()).with_height(i).with_target_difficulty(diff(1)).unwrap().build().unwrap();
        blocks.push(block.clone());
        assert!(chain.submit_block(block, Some(diff(1))).is_ok());
    }
    assert_eq!(chain.tip_height(), 402);
    let old = after(Some(&blocks[0])).with_height(1).with_timestamp(NOW).build().unwrap();
    assert_eq!(
        refusal(&mut chain, old, Some(diff(1))),
        ShareChainError::BlockValidation { cause: RejectReason::OlderThanShareWindow }
    );
}

#[test]
fn a_payout_pays_every_miner_and_the_new_one() {
    let (mut chain, blocks) = ten_blocks();
    let miner = new_random_address();
    let block = chain.generate_new_tip_block(miner.clone(), vec![1, 2, 3], NOW + 100).unwrap();
    assert_eq!(block.height, 10);
    assert_eq!(block.prev_hash, blocks[9].hash);
    assert_eq!(block.timestamp, NOW + 100);
    assert_eq!(block.miner_coinbase_extra, vec![1, 2, 3]);
    assert_eq!(block.hash, block.generate_hash());
    let coinbases = chain.generate_shares(&block).ok().unwrap();
    assert_eq!(coinbases.len(), 11);
    for coinbase in &coinbases {
        assert_eq!(coinbase.value, 5);
        assert!(!coinbase.stealth_payment && coinbase.revealed_value_proof);
    }
    let own = coinbases.iter().find(|c| c.address == miner.to_base58().unwrap()).unwrap();
    assert_eq!(own.coinbase_extra, vec![1, 2, 3]);
    let first = blocks[0].miner_wallet_address.to_base58().unwrap();
    assert_eq!(coinbases.iter().filter(|c| c.address == first).count(), 1);
}

#[test]
fn miners_without_an_address_get_nothing() {
    let mut table = ShareTable::new();
    table.credit(TariAddress { bytes: vec![1, 2, 3] }, 5, Vec::new());
    assert_eq!(coinbases_for(&table).len(), 0);
    table.credit(new_random_address(), 5, vec![9]);
    let coinbases = coinbases_for(&table);
    assert_eq!(coinbases.len(), 1);
    assert_eq!((coinbases[0].value, coinbases[0].coinbase_extra.clone()), (5, vec![9]));
}

#[test]
fn shares_add_up_and_the_last_extra_counts() {
    let miner = new_random_address();
    let mut table = ShareTable::new();
    assert!(table.is_empty());
    table.credit(miner.clone(), 5, vec![1]);
    table.credit(miner.clone(), 4, vec![2]);
    assert_eq!(table.get(&miner).unwrap().shares, 9);
    table.insert(miner.clone(), 5, vec![3]);
    let entry = table.get(&miner).unwrap();
    assert_eq!((entry.shares, entry.coinbase_extra.clone()), (5, vec![3]));
    table.credit(miner.clone(), u64::MAX, vec![3]);
    assert_eq!(table.get(&miner).unwrap().shares, u64::MAX);
}

#[test]
fn noted_coinbase_extras_are_found_again() {
    let (mut chain, blocks) = ten_blocks();
    assert!(chain.find_coinbase_extra(&new_random_address()).is_none());
    assert_eq!(chain.find_coinbase_extra(&blocks[4].miner_wallet_address), Some(Vec::new()));
    let miner = new_random_address();
    let block = after(blocks.last())
        .with_height(10)
        .with_miner_wallet_address(miner.clone())
        .with_target_difficulty(diff(3))
        .unwrap()
        .with_miner_coinbase_extra(vec![4])
        .build()
        .unwrap();
    assert!(chain.submit_block(block, Some(diff(3))).is_ok());
    assert!(chain.find_coinbase_extra(&miner).is_some());
}

#[test]
fn targets_stay_within_their_bounds() {
    assert_eq!(target_difficulty_within(diff(100), diff(1000), 10, Some(diff(500))), diff(500));
    assert_eq!(target_difficulty_within(diff(100), diff(1000), 10, Some(diff(5000))), diff(1000));
    assert_eq!(target_difficulty_within(diff(100), diff(1000), 10, Some(diff(2))), diff(10));
    assert_eq!(target_difficulty_within(diff(100), diff(1000), 10, None), diff(10));
    assert_eq!(target_difficulty_within(diff(10), diff(1000), 10, None), diff(1));
}

#[test]
fn synced_blocks_are_added_lowest_first() {
    let mut chain = new_chain();
    let mut blocks: Vec<Arc<P2Block>> = Vec::new();
    for i in 0..8 {
        let block = after(blocks.last()).with_height(i).with_target_difficulty(diff(1)).unwrap().build().unwrap();
        blocks.push(block);
    }
    let mixed: Vec<CheckedBlock> = [3, 7, 0, 5, 1, 6, 2, 4].iter().map(|i: &usize| checked(&blocks[*i])).collect();
    let sorted = sort_by_height(&mixed);
    assert_eq!(sorted.iter().map(|b| b.block.height).collect::<Vec<u64>>(), vec![0, 1, 2, 3, 4, 5, 6, 7]);
    let outcome = chain.add_synced_blocks(&mixed).ok().unwrap();
    assert_eq!(outcome.new_tip, Some((blocks[7].hash, 7)));
    assert!(outcome.missing_blocks.is_empty());
    assert_eq!(chain.chain_pow().as_u128(), 8);
}

#[test]
fn blocks_are_found_by_height_and_hash() {
    let (chain, blocks) = ten_blocks();
    assert!(chain.has_block(4, &blocks[4].hash));
    assert!(!chain.has_block(5, &blocks[4].hash));
    let found = chain.get_blocks(&[(4, blocks[4].hash), (5, blocks[4].hash), (6, blocks[6].hash)]);
    // where the hash is not known, the block of the main chain comes instead
    assert_eq!(found.iter().map(|b| b.hash).collect::<Vec<_>>(), vec![blocks[4].hash, blocks[5].hash, blocks[6].hash]);
    assert_eq!(chain.get_tip_and_uncles(), vec![(9, blocks[9].hash)]);
    let page = chain.all_blocks(Some(3), 2, true);
    assert_eq!(page.iter().map(|b| b.height).collect::<Vec<u64>>(), vec![3, 4]);
    assert_eq!(chain.all_blocks(None, 100, false).len(), 10);
}

#[test]
fn other_blocks_are_offered_as_uncles() {
    let (mut chain, blocks) = ten_blocks();
    let rival = after(Some(&blocks[8]))
        .with_height(9)
        .with_timestamp(NOW + 77)
        .with_target_difficulty(diff(3))
        .unwrap()
        .build()
        .unwrap();
    assert!(chain.submit_block(rival.clone(), Some(diff(3))).is_ok());
    assert_eq!(chain.offered_uncles(10), Ok(vec![(9, rival.hash)]));
    let block = chain.generate_new_tip_block(new_random_address(), Vec::new(), NOW).unwrap();
    assert_eq!(block.uncles, vec![(9, rival.hash)]);
    let coinbases = chain.generate_shares(&block).ok().unwrap();
    let uncle = rival.miner_wallet_address.to_base58();
    assert!(uncle.is_none() || coinbases.iter().any(|c| Some(c.address.clone()) == uncle && c.value == 4));
    assert!(chain.submit_block(block, Some(diff(1_000_000))).ok().unwrap().new_tip.is_some());
}

#[test]
fn whoever_mined_recently_is_paid() {
    let (mut chain, blocks) = ten_blocks();
    let second = new_random_address();
    let rival = after(Some(&blocks[8]))
        .with_height(9)
        .with_timestamp(NOW + 77)
        .with_miner_wallet_address(second.clone())
        .with_target_difficulty(diff(3))
        .unwrap()
        .build()
        .unwrap();
    assert!(chain.submit_block(rival.clone(), Some(diff(3))).is_ok());
    let third = new_random_address();
    let tip = after(blocks.last())
        .with_height(10)
        .with_miner_wallet_address(third.clone())
        .with_target_difficulty(diff(3))
        .unwrap()
        .with_uncles(&vec![rival])
        .unwrap()
        .build()
        .unwrap();
    assert!(chain.submit_block(tip, Some(diff(3))).is_ok());
    let next = chain.generate_new_tip_block(new_random_address(), Vec::new(), NOW).unwrap();
    let coinbases = chain.generate_shares(&next).ok().unwrap();
    let paid = |miner: &TariAddress| {
        coinbases.iter().find(|c| Some(c.address.clone()) == miner.to_base58()).map(|c| c.value)
    };
    assert_eq!(paid(&second), Some(4));
    assert_eq!(paid(&third), Some(5));
    for block in &blocks {
        assert_eq!(paid(&block.miner_wallet_address), Some(5));
    }
    assert_eq!(paid(&next.miner_wallet_address), Some(5));
    assert_eq!(paid(&new_random_address()), None);
}

#[test]
fn a_newcomer_is_paid_though_shares_were_kept() {
    let (mut chain, blocks) = ten_blocks();
    let next = chain.generate_new_tip_block(new_random_address(), Vec::new(), NOW).unwrap();
    assert_eq!(chain.generate_shares(&next).ok().unwrap().len(), 11);
    let newcomer = new_random_address();
    let tip = after(blocks.last())
        .with_height(10)
        .with_miner_wallet_address(newcomer.clone())
        .with_target_difficulty(diff(3))
        .unwrap()
        .build()
        .unwrap();
    assert!(chain.submit_block(tip, Some(diff(3))).is_ok());
    let later = chain.generate_new_tip_block(new_random_address(), Vec::new(), NOW).unwrap();
    let coinbases = chain.generate_shares(&later).ok().unwrap();
    let paid: Vec<u64> =
        coinbases.iter().filter(|c| Some(c.address.clone()) == newcomer.to_base58()).map(|c| c.value).collect();
    assert_eq!(paid, vec![5]);
    assert_eq!(coinbases.len(), 12);
    assert!(chain.get_calculate_and_cache_hashmap_of_shares().ok().unwrap().get(&newcomer).is_some());
}

#[test]
fn the_generated_block_becomes_the_tip() {
    let (mut chain, _) = ten_blocks();
    let before = chain.chain_pow().as_u128();
    let block = chain.generate_new_tip_block(new_random_address(), Vec::new(), NOW + 200).unwrap();
    let outcome = chain.submit_block(block.clone(), Some(block.target_difficulty())).ok().unwrap();
    assert_eq!(outcome.new_tip, Some((block.hash, 10)));
    assert_eq!(chain.get_tip_and_uncles(), vec![(10, block.hash)]);
    assert_eq!(chain.chain_pow().as_u128(), before + block.target_difficulty().as_u64() as u128);
}

#[test]
fn the_main_chain_loses_no_work_when_a_block_is_bad() {
    let (mut chain, blocks) = ten_blocks();
    let (before, tip) = (chain.chain_pow().as_u128(), chain.get_tip());
    let good = after(blocks.last()).with_height(10).with_target_difficulty(diff(3)).unwrap().build().unwrap();
    let mut bad = (*good).clone();
    bad.total_pow = AccumulatedDifficulty::from_u128(before + 50).unwrap();
    bad.hash = bad.generate_hash();
    assert!(chain.p2_chain.add_block_to_chain(Arc::new(bad)).is_err());
    assert_eq!((chain.chain_pow().as_u128(), chain.get_tip()), (before, tip));
    // no level above the tip has a block in the main chain, and the one below has the tip's parent
    let level = |chain: &InMemoryShareChain, height: u64| chain.p2_chain.level_at_height(height).unwrap().chain_block;
    assert_eq!(level(&chain, 10), FixedHash::zero());
    assert_eq!(level(&chain, 9), blocks[9].hash);
    assert_eq!(level(&chain, 8), blocks[9].prev_hash);
    assert!(chain.p2_chain.add_block_to_chain(good.clone()).is_ok());
    assert_eq!(level(&chain, 10), good.hash);
    assert!(chain.chain_pow().as_u128() > before);
}
