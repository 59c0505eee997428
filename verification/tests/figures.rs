use libp2p::identity::Keypair;
use sha_p2pool::server::http::stats::cache::StatsCache;
use sha_p2pool::server::http::stats::handlers::{show_blocks, sort_for_display, BadRequest, ChainQuery};
use sha_p2pool::server::http::stats::models::{Stats, StatsBlock};
use sha_p2pool::server::http::stats_collector::{StatData, StatsCollector};
use sha_p2pool::server::p2p::messages::{ChainState, PeerInfo};
use sha_p2pool::server::p2p::peer_id::PeerId;
use sha_p2pool::server::p2p::ticks::ConnectedPeerInfo;
use sha_p2pool::server::stats_store::StatsStore;
use sha_p2pool::sharechain::block::BlockBuilder;
use sha_p2pool::sharechain::p2block::P2Block;
use sha_p2pool::text::{is_blank, is_same_letters, parse_u64, to_hex};
use sha_p2pool::types::{Difficulty, PowAlgorithm};
use std::sync::Arc;

fn new_peer() -> PeerId {
    PeerId::parse(&Keypair::generate_ed25519().public().to_peer_id().to_base58()).unwrap()
}

fn stats(height: u64) -> Stats {
    Stats {
        connected: true,
        connected_since: Some(5),
        num_of_miners: 3,
        last_block_won: None,
        share_chain_height: height,
        pool_hash_rate: "12".to_string(),
    }
}

#[test]
fn counters_add_up() {
    let mut store = StatsStore::new();
    let (a, b) = ("a".to_string(), "b".to_string());
    assert_eq!(store.get(&a), 0);
    store.inc(&a, 2);
    store.inc(&a, 3);
    store.inc(&b, 1);
    assert_eq!((store.get(&a), store.get(&b)), (5, 1));
}

#[test]
fn figures_are_kept_for_a_while() {
    let mut cache = StatsCache::new(100);
    assert!(cache.stats(PowAlgorithm::Sha3x, 0).is_none());
    cache.update(stats(7), PowAlgorithm::Sha3x, 1000);
    assert_eq!(cache.stats(PowAlgorithm::Sha3x, 1050).unwrap().share_chain_height, 7);
    assert!(cache.stats(PowAlgorithm::RandomX, 1050).is_none());
    assert!(cache.stats(PowAlgorithm::Sha3x, 1200).is_none());
}

#[test]
fn figures_of_the_chains_are_counted_apart() {
    let mut collector = StatsCollector::new(10);
    let sha3x = PowAlgorithm::Sha3x;
    collector.receive(StatData::MinerBlockAccepted { pow_algo: sha3x, timestamp: 20 });
    collector.receive(StatData::MinerBlockAccepted { pow_algo: sha3x, timestamp: 21 });
    collector.receive(StatData::PoolBlockAccepted { pow_algo: PowAlgorithm::RandomX, timestamp: 22 });
    assert_eq!((collector.sha3x.miner_accepted, collector.random_x.miner_accepted), (2, 0));
    assert_eq!((collector.sha3x.pool_accepted, collector.random_x.pool_accepted), (0, 1));
    let target = Difficulty::from_u64(9).unwrap();
    collector.receive(StatData::TargetDifficultyChanged { target_difficulty: target, pow_algo: sha3x, timestamp: 23 });
    assert_eq!(collector.sha3x.target_difficulty, target);
    collector.receive(StatData::ChainChanged { algo: sha3x, height: 50, length: 20, timestamp: 24 });
    assert_eq!((collector.sha3x.chain_height, collector.sha3x.chain_start()), (50, 30));
    assert_eq!(collector.uptime(80), 60);
    collector.receive(StatData::GossipsubMessageReceived { timestamp: 70 });
    assert_eq!(collector.since_last_gossip(75), 5);
    assert_eq!(collector.chain_stats(sha3x, 80).height, 50);
    collector.receive(StatData::NewPeer { total_peers: 1, total_grey_list: 2, total_black_list: 3, timestamp: 80 });
    assert_eq!((collector.peers.total_peers, collector.peers.total_black_list), (1, 3));
    let data = StatData::InfoChanged { squad: "a".to_string(), local_peer_id: new_peer(), timestamp: 90 };
    assert_eq!(data.timestamp(), 90);
    collector.receive(data);
    assert_eq!(collector.last_squad, Some("a".to_string()));
}

#[test]
fn pages_of_a_chain_are_asked_for() {
    let some = |text: &str| Some(text.to_string());
    let query = ChainQuery::parse(&some("SHA3X"), &None, &None).ok().unwrap();
    assert_eq!((query.algo, query.height), (PowAlgorithm::Sha3x, 0));
    let query = ChainQuery::parse(&some("RandomX"), &some("12"), &some("3")).ok().unwrap();
    assert_eq!((query.algo, query.height, query.count), (PowAlgorithm::RandomX, 12, 3));
    assert_eq!(ChainQuery::parse(&None, &None, &None).err(), Some(BadRequest::MissingAlgo));
    assert_eq!(ChainQuery::parse(&some("x"), &None, &None).err(), Some(BadRequest::InvalidAlgo));
    assert_eq!(ChainQuery::parse(&some("sha3x"), &some("-1"), &None).err(), Some(BadRequest::InvalidHeight));
    assert_eq!(ChainQuery::parse(&some("sha3x"), &None, &some("many")).err(), Some(BadRequest::InvalidCount));
}

#[test]
fn blocks_are_shown_in_hexadecimal() {
    let block = P2Block { height: 3, timestamp: 8, ..P2Block::default() };
    let shown = show_blocks(&vec![Arc::new(block)], PowAlgorithm::RandomX);
    assert_eq!((shown[0].height, shown[0].timestamp, shown[0].algo.as_str()), (3, 8, "randomx"));
    assert_eq!(shown[0].prev_hash, "0".repeat(64));
    let won = BlockBuilder::new("id".to_string(), 7).with_height(2).build();
    let shown = StatsBlock::of_block(&won);
    assert_eq!(shown.hash, to_hex(&won.hash.to_vec()));
    assert_eq!(shown.timestamp, 7);
    assert!(shown.miner_wallet_address.is_none());
}

#[test]
fn peers_are_shown_lowest_first() {
    let shown = |height: u64| ConnectedPeerInfo {
        peer_id: format!("{}", height),
        peer_info: PeerInfo::new(
            new_peer(),
            ChainState { height, pow: 1 },
            ChainState { height, pow: 1 },
            "default".to_string(),
            Vec::new(),
            None,
            None,
            1,
        ),
        last_grey_list_reason: None,
        last_ping: None,
    };
    let sorted = sort_for_display(vec![shown(2), shown(9), shown(5)]);
    let names: Vec<String> = sorted.iter().map(|p| p.peer_id.clone()).collect();
    assert_eq!(names, vec!["2", "5", "9"]);
}

#[test]
fn texts_are_read() {
    assert_eq!(parse_u64("18446744073709551615"), Some(u64::MAX));
    assert_eq!(parse_u64("18446744073709551616"), None);
    assert_eq!(parse_u64("+7"), Some(7));
    assert_eq!(parse_u64(""), None);
    assert_eq!(parse_u64("007"), Some(7));
    assert_eq!(to_hex(&[0, 0x1f, 0xff]), "001fff");
    assert!(is_same_letters("ShA3x", "sha3X") && !is_same_letters("sha3", "sha3x"));
    assert!(is_blank(" \u{3000}\t") && !is_blank("a "));
}
