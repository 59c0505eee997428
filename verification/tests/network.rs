use libp2p::identity::Keypair;
use sha_p2pool::server::p2p::addresses::{
    is_p2p_address, listen_addresses, parse_dnsaddr_txt, SeedEntry, SeedError,
};
use sha_p2pool::server::p2p::chain_sync::Syncs;
use sha_p2pool::server::p2p::events::{NetworkEvent, Reaction};
use sha_p2pool::server::p2p::graph::{draw_block, graph_start, shorten_address};
use sha_p2pool::server::p2p::messages::{
    CatchUpSyncRequest, CatchUpSyncResponse, ChainState, DirectPeerInfoResponse, LocalShareChainSyncRequest,
    NotifyNewTipBlock, PeerInfo, ShareChainSyncRequest, ShareChainSyncResponse, SyncMissingBlocksRequest,
    SyncMissingBlocksResponse,
};
use sha_p2pool::server::p2p::network::{
    Action, Clock, Config, InnerRequest, MessageAcceptance, PerformCatchUpSync, Subject, SyncMissingBlocks, Topics,
};
use sha_p2pool::server::p2p::peer_id::PeerId;
use sha_p2pool::server::p2p::peer_store::{AddPeerStatus, PeerStore, PeerStoreConfig};
use sha_p2pool::server::p2p::recent_tips::RecentTips;
use sha_p2pool::server::p2p::relay_store::RelayStore;
use sha_p2pool::server::p2p::service::{Gossip, Service};
use sha_p2pool::server::p2p::squad::Squad;
use sha_p2pool::server::p2p::util::{
    generate_identity, identity_of_text, message_id, node_key, peer_of_key, GenerateIdentityResult, IdentityError,
};
use sha_p2pool::sharechain::in_memory::InMemoryShareChain;
use sha_p2pool::sharechain::p2block::{P2Block, P2BlockBuilder, PROTOCOL_VERSION};
use sha_p2pool::text::to_hex;
use sha_p2pool::types::{Difficulty, FixedHash, PowAlgorithm};
use std::sync::Arc;

const CLOCK: Clock = Clock { epoch: 1_720_167_829, millis: 5_000_000 };

fn new_peer() -> PeerId {
    PeerId::parse(&Keypair::generate_ed25519().public().to_peer_id().to_base58()).unwrap()
}

fn diff(i: u64) -> Difficulty {
    Difficulty::from_u64(i).unwrap()
}

fn info_of(peer: &PeerId, height: u64, timestamp: u64) -> PeerInfo {
    PeerInfo::new(
        peer.clone(),
        ChainState { height, pow: height as u128 },
        ChainState { height: height / 2, pow: height as u128 / 2 },
        "default".to_string(),
        vec![format!("/ip4/10.0.0.1/tcp/{}", 1000 + height)],
        Some("tari-p2pool".to_string()),
        Some("0.1.0".to_string()),
        timestamp,
    )
}

fn new_store() -> PeerStore {
    PeerStore::new(&PeerStoreConfig::default())
}

fn new_service() -> Service {
    Service::new(
        Config::default(),
        new_peer(),
        InMemoryShareChain::new(PowAlgorithm::Sha3x, false, 10).ok().unwrap(),
        InMemoryShareChain::new(PowAlgorithm::RandomX, true, 10).ok().unwrap(),
        new_store(),
    )
}

fn topics() -> Topics {
    Topics { network: "esmeralda".to_string(), chain_id: "abc_1".to_string() }
}

fn blocks_from(parent: Option<&Arc<P2Block>>, start: u64, count: u64) -> Vec<Arc<P2Block>> {
    let mut blocks: Vec<Arc<P2Block>> = Vec::new();
    for i in start..start + count {
        let below = blocks.last().or(parent);
        let block = P2BlockBuilder::new_from_block(below.map(|b| &**b))
            .with_height(i)
            .with_target_difficulty(diff(2))
            .unwrap()
            .build()
            .unwrap();
        blocks.push(block);
    }
    blocks
}

fn reached(blocks: &Vec<Arc<P2Block>>) -> Vec<Option<Difficulty>> {
    blocks.iter().map(|_| Some(diff(100))).collect()
}

fn notify(peer: &PeerId, blocks: &Vec<Arc<P2Block>>, pow: u128) -> NotifyNewTipBlock {
    NotifyNewTipBlock::new(peer.clone(), PowAlgorithm::Sha3x, blocks.clone(), pow, CLOCK.epoch)
}

#[test]
fn squad_as_string_no_spaces_no_underscores() {
    let squad = Squad::from("default".to_string());
    assert_eq!(squad.to_text(), "default");
}

#[test]
fn squad_as_string_with_spaces_with_underscores() {
    let squad = Squad::from("default 2".to_string());
    assert_eq!(squad.to_text(), "default_2");
}

#[test]
fn topics_name_the_network_the_chain_and_the_squad() {
    let topics = topics();
    let squad = Squad::from("default".to_string());
    assert_eq!(topics.network_topic("news"), "esmeralda_abc_1_news_7");
    assert_eq!(topics.squad_topic(&squad, "news"), "esmeralda_abc_1_default_news_7");
    let names = topics.subscriptions(&Config::default());
    assert_eq!(names.len(), 2);
    assert_eq!(topics.subject(&squad, &names[0]), Subject::PeerInfo);
    assert_eq!(topics.subject(&squad, &names[1]), Subject::NewTip);
    assert_eq!(topics.subject(&Squad::from("other".to_string()), &names[1]), Subject::Unknown);
    let mut seed = Config::default();
    seed.is_seed_peer = true;
    assert!(topics.subscriptions(&seed).is_empty());
}

#[test]
fn peers_are_read_back_from_their_text() {
    let peer = new_peer();
    let again = PeerId::parse(&peer.to_base58()).unwrap();
    assert!(again.same(&peer));
    assert!(!again.same(&new_peer()));
    assert!(PeerId::parse("no peer").is_none());
    // base58 alone does not make a peer
    assert!(PeerId::parse("abcdefgh").is_none());
}

#[test]
fn messages_are_told_apart_by_their_digest() {
    assert_eq!(
        message_id(b"abc"),
        vec![
            0xbd, 0xdd, 0x81, 0x3c, 0x63, 0x42, 0x39, 0x72, 0x31, 0x71, 0xef, 0x3f, 0xee, 0x98, 0x57, 0x9b, 0x94, 0x96,
            0x4e, 0x3b, 0xb1, 0xcb, 0x3e, 0x42, 0x72, 0x62, 0xc8, 0xc0, 0x68, 0xd5, 0x23, 0x19,
        ]
    );
    assert_ne!(message_id(b"abc"), message_id(b"abd"));
}

#[test]
fn identities_are_keys() {
    let first = generate_identity().unwrap();
    let second = generate_identity().unwrap();
    assert_ne!(first.private_key(), second.private_key());
    assert!(Keypair::from_protobuf_encoding(first.private_key()).is_ok());
    assert_eq!(GenerateIdentityResult::new(vec![1, 2]).private_key(), &vec![1, 2]);
}

#[test]
fn stable_peers_keep_their_key() {
    let given = generate_identity().unwrap().private_key;
    let saved = generate_identity().unwrap().private_key;
    assert_eq!(node_key(true, Some(given.clone()), Some(saved.clone())), Ok((given.clone(), false)));
    assert_eq!(node_key(true, None, Some(saved.clone())), Ok((saved.clone(), false)));
    assert_eq!(node_key(true, None, Some(vec![1, 2])), Err(IdentityError::NotAKey));
    let (first, save) = node_key(true, None, None).unwrap();
    assert!(save);
    assert_eq!(node_key(true, None, Some(first.clone())), Ok((first.clone(), false)));
    let (random, save) = node_key(false, Some(given.clone()), Some(saved.clone())).unwrap();
    assert!(!save && random != given && random != saved && random.len() == 68);
    let peer = peer_of_key(&first).unwrap();
    let key = Keypair::from_protobuf_encoding(&first).unwrap();
    assert_eq!(peer.to_base58(), key.public().to_peer_id().to_base58());
    assert!(peer.same(&peer_of_key(&first).unwrap()) && !peer.same(&peer_of_key(&saved).unwrap()));
    assert!(peer_of_key(&[1, 2]).is_none());
}

#[test]
fn identities_are_read_from_their_text() {
    let key = generate_identity().unwrap().private_key;
    assert_eq!(identity_of_text(&to_hex(&key)), Ok(key.clone()));
    assert_eq!(identity_of_text(&to_hex(&key).to_uppercase()), Ok(key));
    assert_eq!(identity_of_text("xyz1"), Err(IdentityError::NotHex));
    assert_eq!(identity_of_text("abc"), Err(IdentityError::NotHex));
    assert_eq!(identity_of_text("\u{e9}"), Err(IdentityError::NotHex));
    assert_eq!(identity_of_text(""), Err(IdentityError::NotAKey));
    assert_eq!(IdentityError::NotHex.message(), "the identity is not hexadecimal");
    assert_eq!(IdentityError::NotAKey.message(), "the identity is not a private key");
}

#[test]
fn seed_peers_are_found_in_their_addresses() {
    let peer = new_peer();
    let address = format!("/ip4/127.0.0.1/tcp/52313/p2p/{}", peer.to_base58());
    match SeedEntry::from_text(&address) {
        Ok(SeedEntry::Peer { peer: found, address: text }) => {
            assert!(found.same(&peer));
            assert_eq!(text, address);
        },
        _ => panic!("a peer"),
    }
    match SeedEntry::from_text("/dnsaddr/esmeralda.p2pool.tari.com") {
        Ok(SeedEntry::Lookup { domain }) => assert_eq!(domain, "esmeralda.p2pool.tari.com"),
        _ => panic!("a domain"),
    }
    assert_eq!(SeedEntry::from_text("/ip4/127.0.0.1/tcp/52313").err(), Some(SeedError::NoPeerId));
    assert_eq!(SeedEntry::from_text("nonsense").err(), Some(SeedError::Unreadable));
    assert_eq!(SeedEntry::from_parts("", &Vec::new()).err(), Some(SeedError::Empty));
    assert_eq!(SeedError::NoPeerId.message(), "Seed peer address does not contain peer id");
    assert!(is_p2p_address(&address) && !is_p2p_address("/ip4/127.0.0.1/tcp/1"));
    let mut config = Config::default();
    config.seed_peers = vec![address.clone(), "nonsense".to_string()];
    assert_eq!(config.parse_seed_peers().err(), Some(SeedError::Unreadable));
    config.seed_peers.pop();
    assert_eq!(config.parse_seed_peers().ok().unwrap().len(), 1);
}

#[test]
fn text_records_name_seed_peers() {
    let peer = new_peer();
    let address = format!("/ip4/127.0.0.1/tcp/1/p2p/{}", peer.to_base58());
    let found = parse_dnsaddr_txt(&format!("dnsaddr={}", address)).ok().unwrap().unwrap();
    assert!(found.0.same(&peer));
    assert_eq!(found.1, address);
    assert_eq!(parse_dnsaddr_txt(&address).err(), Some(SeedError::MissingPrefix));
    assert_eq!(parse_dnsaddr_txt("dnsaddr=nonsense").err(), Some(SeedError::Unreadable));
    assert!(parse_dnsaddr_txt("dnsaddr=/ip4/127.0.0.1/tcp/1").ok().unwrap().is_none());
}

#[test]
fn a_node_listens_on_all_interfaces() {
    assert_eq!(
        listen_addresses(4001),
        vec![
            "/ip6/::/udp/4001/quic-v1",
            "/ip6/::/tcp/4001",
            "/ip4/0.0.0.0/udp/4001/quic-v1",
            "/ip4/0.0.0.0/tcp/4001",
        ]
    );
}

#[test]
fn peers_move_between_the_lists() {
    let mut store = new_store();
    let peer = new_peer();
    let other = new_peer();
    assert_eq!(store.add(&other, info_of(&other, 5, 10), 1), AddPeerStatus::NewPeer);
    assert_eq!(store.add(&peer, info_of(&peer, 5, 10), 1), AddPeerStatus::NewPeer);
    assert_eq!(store.add(&peer, info_of(&peer, 6, 11), 2), AddPeerStatus::Existing);
    assert_eq!(store.get(&peer).unwrap().created, 1);
    assert!(store.is_whitelisted(&peer) && store.is_known(&peer));
    for round in 1..20 {
        if !store.move_to_grey_list(&peer, format!("reason {}", round)) {
            break;
        }
        assert!(!store.is_whitelisted(&peer));
        assert_eq!(store.add(&peer, info_of(&peer, 7, 12), 3), AddPeerStatus::Greylisted);
        store.clear_grey_list();
    }
    assert!(store.is_blacklisted(&peer));
    assert_eq!(store.add(&peer, info_of(&peer, 7, 12), 3), AddPeerStatus::Blacklisted);
    assert!(!store.move_to_grey_list(&peer, "again".to_string()));
    store.clear_black_list();
    assert!(!store.is_blacklisted(&peer) && store.is_known(&peer));
    assert_eq!(store.get(&peer).unwrap().num_grey_listings, 0);
    assert_eq!(store.peer_count(), 2);
    // where nobody is trusted, a grey peer has to do
    store.move_to_grey_list(&peer, "slow".to_string());
    store.move_to_grey_list(&other, "slow".to_string());
    assert!(store.is_whitelisted(&peer) && store.peer_count() == 0);
}

#[test]
fn seed_peers_are_never_trusted() {
    let mut store = new_store();
    let peer = new_peer();
    store.add_seed_peer(peer.clone());
    assert!(store.is_seed_peer(&peer) && !store.is_seed_peer(&new_peer()));
    assert_eq!(store.add(&peer, info_of(&peer, 5, 10), 1), AddPeerStatus::Greylisted);
    assert_eq!(store.greylist_peers().len(), 1);
    assert_eq!(store.whitelist_peers().len(), 0);
    store.clear_grey_list();
    assert!(!store.is_known(&peer));
}

#[test]
fn attempts_are_counted_for_trusted_peers() {
    let mut store = new_store();
    let peer = new_peer();
    assert_eq!(store.num_catch_ups(&peer), None);
    store.add(&peer, info_of(&peer, 5, 10), 1);
    store.add_catch_up_attempt(&peer);
    store.add_catch_up_attempt(&peer);
    assert_eq!(store.num_catch_ups(&peer), Some(2));
    // what a peer tells anew does not wipe its history out
    store.add(&peer, info_of(&peer, 6, 11), 2);
    assert_eq!(store.num_catch_ups(&peer), Some(2));
    store.reset_catch_up_attempts(&peer);
    assert_eq!(store.num_catch_ups(&peer), Some(0));
    assert_eq!(store.time_since_last_sync_attempt(&peer, PowAlgorithm::Sha3x, 100), None);
    store.update_last_sync_attempt(&peer, PowAlgorithm::Sha3x, 40);
    assert_eq!(store.time_since_last_sync_attempt(&peer, PowAlgorithm::Sha3x, 100), Some(60));
    assert_eq!(store.time_since_last_sync_attempt(&peer, PowAlgorithm::RandomX, 100), None);
    store.reset_last_sync_attempt(&peer);
    assert_eq!(store.time_since_last_sync_attempt(&peer, PowAlgorithm::Sha3x, 100), None);
    store.set_last_ping(&peer, 77);
    assert_eq!(store.get(&peer).unwrap().last_ping, Some(77));
    store.add_last_new_tip_notify(&peer, 50);
    store.add_last_new_tip_notify(&peer, 40);
    assert_eq!(store.get(&peer).unwrap().last_new_tip_notify, Some(40));
}

#[test]
fn the_best_peers_come_first() {
    let mut store = new_store();
    let peers: Vec<PeerId> = (0..6).map(|_| new_peer()).collect();
    for (i, peer) in peers.iter().enumerate() {
        store.add(peer, info_of(peer, 10 + i as u64, CLOCK.epoch + i as u64), 1);
    }
    let picked = store.best_peers_to_share(3, vec![peers[5].clone()]);
    let names: Vec<String> = picked.iter().map(|r| r.peer_id.to_base58()).collect();
    let wanted: Vec<String> = [4, 3, 2].iter().map(|i: &usize| peers[*i].to_base58()).collect();
    assert_eq!(names, wanted);
    let picked = store.best_peers_to_sync(2, PowAlgorithm::Sha3x, CLOCK.epoch);
    assert!(picked[0].peer_id.same(&peers[5]) && picked[1].peer_id.same(&peers[4]));
    // a peer without an address cannot be reached
    let mut hidden = info_of(&peers[0], 100, CLOCK.epoch + 100);
    hidden.public_addresses = Vec::new();
    store.add(&peers[0], hidden, 1);
    assert!(store.best_peers_to_share(10, Vec::new()).iter().all(|r| !r.peer_id.same(&peers[0])));
    assert_eq!(store.get_known_peers().len(), 6);
    let (height, pow, best) = store.max_known_network_height(PowAlgorithm::Sha3x);
    assert_eq!((height, pow), (100, 100));
    assert!(best.unwrap().same(&peers[0]));
    assert!(store.is_level_with_network(PowAlgorithm::Sha3x, 100, &peers[3]));
    assert!(!store.is_level_with_network(PowAlgorithm::Sha3x, 99, &peers[3]));
    assert!(store.is_level_with_network(PowAlgorithm::Sha3x, 99, &peers[0]));
}

#[test]
fn saved_peers_are_loaded_again() {
    let mut store = new_store();
    let peers: Vec<PeerId> = (0..3).map(|_| new_peer()).collect();
    for peer in &peers {
        store.add(peer, info_of(peer, 5, 10), 1);
    }
    store.move_to_grey_list(&peers[2], "slow".to_string());
    let saved = store.save_whitelist();
    assert_eq!(saved.len(), 2);
    let mut other = new_store();
    other.load_whitelist(saved, 9);
    assert!(other.is_whitelisted(&peers[0]) && other.is_whitelisted(&peers[1]));
    assert!(!other.is_known(&peers[2]));
    // what was there is forgotten; names that are none, and peers of old rules, are left out
    let mut old = info_of(&peers[1], 5, 10);
    old.version = PROTOCOL_VERSION - 1;
    let list = vec![
        ("nonsense".to_string(), info_of(&peers[2], 5, 10)),
        (peers[1].to_base58(), old),
        (peers[2].to_base58(), info_of(&peers[2], 5, 10)),
    ];
    other.load_whitelist(list, 9);
    assert_eq!(other.peer_count(), 1);
    assert!(other.is_whitelisted(&peers[2]));
}

#[test]
fn recent_tips_forget_the_oldest() {
    let mut tips = RecentTips::new(2);
    let peers: Vec<PeerId> = (0..3).map(|_| new_peer()).collect();
    let block = |n: u64| (n, FixedHash { first: n as u128, second: 0 });
    tips.put(&peers[0], block(1));
    tips.put(&peers[1], block(2));
    tips.put(&peers[0], block(3));
    assert_eq!(tips.oldest_first(), vec![block(2), block(3)]);
    tips.put(&peers[2], block(4));
    assert_eq!(tips.oldest_first(), vec![block(3), block(4)]);
}

#[test]
fn relays_are_learned_and_chosen() {
    let mut relays = RelayStore::default();
    let peer = new_peer();
    assert!(relays.attempt_relay_reservation(0).is_none());
    assert!(relays.add_possible_relay(peer.clone(), "/ip4/1.2.3.4/tcp/5".to_string()));
    assert!(!relays.add_possible_relay(peer.clone(), "/ip4/1.2.3.4/tcp/5".to_string()));
    assert!(relays.add_possible_relay(peer.clone(), "/ip4/1.2.3.4/tcp/6".to_string()));
    assert!(!relays.has_active_relay());
    relays.select_random_relay();
    let plan = relays.plan().unwrap();
    assert!(plan.peer.same(&peer));
    assert_eq!(plan.dial, vec!["/ip4/1.2.3.4/tcp/5", "/ip4/1.2.3.4/tcp/6"]);
    assert_eq!(plan.listen.len(), 2);
    assert_eq!(plan.listen[0], "/ip4/1.2.3.4/tcp/5/p2p-circuit");
    relays.note_circuit_established();
    assert!(relays.has_active_relay());
}

fn catch_up(peer: &PeerId, algo: PowAlgorithm, permit: Option<PowAlgorithm>) -> PerformCatchUpSync {
    PerformCatchUpSync { algo, peer: peer.clone(), last_block_from_them: None, their_height: 50, permit }
}

#[test]
fn permits_limit_how_many_peers_are_asked_at_once() {
    let mut syncs = Syncs::new(1, 10);
    let (a, b) = (new_peer(), new_peer());
    let i_have = vec![(3, FixedHash::zero())];
    let call = syncs.start(catch_up(&a, PowAlgorithm::Sha3x, None), 0, i_have.clone()).unwrap();
    assert_eq!(call.permit, PowAlgorithm::Sha3x);
    assert_eq!(call.request.i_have, i_have);
    syncs.note_sent(PowAlgorithm::Sha3x, a.clone(), 11, call.permit);
    assert!(syncs.start(catch_up(&b, PowAlgorithm::Sha3x, None), 0, i_have.clone()).is_none());
    // the other chain has a permit of its own
    assert!(syncs.start(catch_up(&b, PowAlgorithm::RandomX, None), 0, i_have.clone()).is_some());
    // a peer that is being asked is not asked again, and a permit at hand comes back
    assert_eq!(syncs.release_catchup_sync_permit(99), None);
    assert_eq!(syncs.release_catchup_sync_permit(11), Some(PowAlgorithm::Sha3x));
    syncs.give_back(Some(PowAlgorithm::Sha3x));
    assert!(syncs.start(catch_up(&b, PowAlgorithm::Sha3x, None), 0, i_have).is_some());
    assert!(!syncs.sha3x.synced);
    syncs.note_silence();
    assert!(syncs.sha3x.synced && syncs.random_x.synced);
}

#[test]
fn failed_requests_give_their_permit_back() {
    let mut syncs = Syncs::new(1, 10);
    let peer = new_peer();
    let call = syncs.start(catch_up(&peer, PowAlgorithm::Sha3x, None), 0, Vec::new()).unwrap();
    syncs.note_sent(PowAlgorithm::Sha3x, peer.clone(), 5, call.permit);
    assert_eq!(syncs.sha3x.permits, 0);
    syncs.forget_failed(&peer, 5);
    assert_eq!(syncs.sha3x.permits, 1);
    assert!(syncs.sha3x.place_of_peer(&peer).is_none());
}

#[test]
fn a_node_tells_about_itself() {
    let node = new_service();
    assert!(node.broadcast_peer_info(Vec::new(), None, CLOCK).is_none());
    let info = node.broadcast_peer_info(vec!["/ip4/1.1.1.1/tcp/1".to_string()], None, CLOCK).unwrap();
    assert!(info.peer_id.as_ref().unwrap().same(&node.local_peer_id()));
    assert_eq!((info.version, info.timestamp, info.squad.as_str()), (7, CLOCK.epoch, "default"));
    assert_eq!(info.public_addresses(), &vec!["/ip4/1.1.1.1/tcp/1".to_string()]);
    assert!(node.initiate_direct_peer_exchange(&node.local_peer_id(), Vec::new(), None, CLOCK).is_none());
    let request = node.initiate_direct_peer_exchange(&new_peer(), Vec::new(), None, CLOCK).unwrap();
    assert_eq!(request.peer_id, node.local_peer_id().to_base58());
}

#[test]
fn new_peers_are_dialed_once() {
    let mut node = new_service();
    let peer = new_peer();
    let (verdict, actions) = node.handle_peer_info(info_of(&peer, 5, CLOCK.epoch), &peer, CLOCK);
    assert_eq!(verdict, MessageAcceptance::Accept);
    assert_eq!(actions.len(), 4);
    assert!(matches!(&actions[3], Action::Dial(p) if p.same(&peer)));
    let (verdict, actions) = node.handle_peer_info(info_of(&peer, 6, CLOCK.epoch), &peer, CLOCK);
    assert_eq!((verdict, actions.len()), (MessageAcceptance::Accept, 1));
    // old messages, our own, and those of other rules are not looked at
    let (verdict, _) = node.handle_peer_info(info_of(&peer, 6, CLOCK.epoch - 61), &peer, CLOCK);
    assert_eq!(verdict, MessageAcceptance::Ignore);
    let own = node.local_peer_id();
    assert_eq!(node.handle_peer_info(info_of(&own, 6, CLOCK.epoch), &peer, CLOCK).0, MessageAcceptance::Ignore);
    let mut old = info_of(&peer, 6, CLOCK.epoch);
    old.version = 1;
    assert_eq!(node.handle_peer_info(old, &peer, CLOCK).0, MessageAcceptance::Reject);
}

#[test]
fn exchanges_lead_to_catching_up() {
    let mut node = new_service();
    let (peer, third) = (new_peer(), new_peer());
    let request = new_service().initiate_direct_peer_exchange(&peer, Vec::new(), None, CLOCK).unwrap();
    let (answer, _) = node.handle_direct_peer_exchange_request(request, Vec::new(), None, CLOCK);
    assert_eq!(answer.ok().unwrap().peer_id, node.local_peer_id().to_base58());
    let answer = || DirectPeerInfoResponse {
        peer_id: peer.to_base58(),
        info: info_of(&peer, 40, CLOCK.epoch),
        best_peers: vec![info_of(&third, 3, CLOCK.epoch)],
    };
    let actions = node.handle_direct_peer_exchange_response(answer(), CLOCK);
    // what the peer tells of is learned in its turn, behind the question to the peer itself
    assert!(node.network_peer_store.is_whitelisted(&peer) && !node.network_peer_store.is_whitelisted(&third));
    let asked = actions.iter().position(|a| matches!(a, Action::Exchange(p) if p.same(&peer))).unwrap();
    let told = actions.iter().position(|a| matches!(a, Action::Learn(_))).unwrap();
    assert!(asked < told);
    let later = Clock { epoch: CLOCK.epoch + 7, ..CLOCK };
    let event = NetworkEvent::PeerTold { info: info_of(&third, 3, CLOCK.epoch) };
    let learned = node.handle_event(event, &topics(), later).actions;
    assert!(learned.iter().any(|a| matches!(a, Action::Exchange(p) if p.same(&third))));
    assert!(node.network_peer_store.is_whitelisted(&third));
    assert_eq!(node.network_peer_store.get(&third).unwrap().peer_info.timestamp, later.epoch);
    let wanted = actions.iter().filter(|a| matches!(a, Action::Queue(InnerRequest::PerformCatchUpSync(_)))).count();
    assert_eq!(wanted, 2);
    // a peer of another squad is left
    let mut other = answer();
    other.info.squad = "else".to_string();
    let actions = node.handle_direct_peer_exchange_response(other, CLOCK);
    assert!(actions.len() == 1 && matches!(&actions[0], Action::Disconnect(p) if p.same(&peer)));
    let mut outdated = new_service().initiate_direct_peer_exchange(&peer, Vec::new(), None, CLOCK).unwrap();
    outdated.my_info.version = 1;
    let (answer, actions) = node.handle_direct_peer_exchange_request(outdated, Vec::new(), None, CLOCK);
    assert_eq!(answer.err(), Some("Peer has an outdated version".to_string()));
    assert!(actions.is_empty());
}

#[test]
fn new_tips_are_added() {
    let mut node = new_service();
    let peer = new_peer();
    let blocks = blocks_from(None, 0, 3);
    let achieved = reached(&blocks);
    let (verdict, actions) = node.handle_new_tip(notify(&peer, &blocks, 6), &achieved, &peer, CLOCK);
    assert_eq!((verdict, actions.len()), (MessageAcceptance::Accept, 0));
    assert_eq!(node.tip_height(PowAlgorithm::Sha3x), 2);
    assert_eq!(node.chain_pow(PowAlgorithm::Sha3x), 6);
    // a tip whose parent is missing is asked for
    let above = blocks_from(blocks.last(), 3, 2);
    let top = vec![above[1].clone()];
    let (verdict, actions) = node.handle_new_tip(notify(&peer, &top, 10), &reached(&top), &peer, CLOCK);
    assert_eq!(verdict, MessageAcceptance::Accept);
    match &actions[0] {
        Action::Queue(InnerRequest::DoSyncMissingBlocks(sync)) => {
            assert!(sync.is_from_new_block_notify && sync.peer.same(&peer));
            assert_eq!(sync.missing_parents, vec![(3, above[0].hash)]);
        },
        _ => panic!("missing blocks"),
    }
    // far ones are not looked at
    let far = blocks_from(None, 100, 1);
    let (verdict, _) = node.handle_new_tip(notify(&peer, &far, 1000), &reached(&far), &peer, CLOCK);
    assert_eq!(verdict, MessageAcceptance::Ignore);
    let none = Vec::new();
    let (verdict, _) = node.handle_new_tip(notify(&peer, &none, 1000), &reached(&none), &peer, CLOCK);
    assert_eq!(verdict, MessageAcceptance::Reject);
}

#[test]
fn peers_that_send_bad_blocks_are_put_on_the_grey_list() {
    let mut node = new_service();
    let (peer, other) = (new_peer(), new_peer());
    node.handle_peer_info(info_of(&peer, 5, CLOCK.epoch), &peer, CLOCK);
    node.handle_peer_info(info_of(&other, 5, CLOCK.epoch), &other, CLOCK);
    let blocks = blocks_from(None, 0, 1);
    let (verdict, _) = node.handle_new_tip(notify(&peer, &blocks, 2), &vec![Some(diff(1))], &peer, CLOCK);
    assert_eq!(verdict, MessageAcceptance::Ignore);
    assert!(!node.network_peer_store.is_whitelisted(&peer));
    assert_eq!(node.network_peer_store.greylist_peers().len(), 1);
    let reason = node.network_peer_store.greylist_peers().get(&peer).unwrap().last_grey_list_reason.clone();
    let told = "Block failed validation: Validation error: Block achieved difficulty is below the target";
    assert_eq!(reason, Some(told.to_string()));
}

#[test]
fn missing_blocks_are_asked_for_and_sent() {
    let mut giver = new_service();
    let mut taker = new_service();
    let peer = giver.local_peer_id();
    let blocks = blocks_from(None, 0, 4);
    giver.handle_new_tip(notify(&peer, &blocks, 8), &reached(&blocks), &peer, CLOCK);
    let sync = |depth: usize, from_notify: bool| SyncMissingBlocks {
        algo: PowAlgorithm::Sha3x,
        peer: peer.clone(),
        missing_parents: vec![(0, blocks[0].hash), (1, blocks[1].hash)],
        is_from_new_block_notify: from_notify,
        depth,
    };
    let calls = taker.sync_missing_blocks(sync(0, false), &Vec::new());
    assert_eq!((calls.len(), calls[0].depth), (1, 1));
    assert!(taker.sync_missing_blocks(sync(8, false), &Vec::new()).is_empty());
    assert_eq!(taker.sync_missing_blocks(sync(0, true), &vec![peer.clone(), new_peer()]).len(), 2);
    let response = giver.handle_sync_missing_blocks_request(&calls[0].request).ok().unwrap();
    assert_eq!(response.blocks.len(), 2);
    assert!(response.peer_id().same(&peer) && response.algo() == PowAlgorithm::Sha3x);
    taker.note_missing_asked(7, calls[0].depth);
    let depth = taker.take_missing_depth(7).unwrap();
    assert!(taker.take_missing_depth(7).is_none());
    let achieved = reached(&response.blocks);
    let actions = taker.handle_sync_missing_blocks_response(response, &achieved, depth);
    assert!(actions.is_empty());
    assert_eq!(taker.tip_height(PowAlgorithm::Sha3x), 1);
    let unknown = SyncMissingBlocksRequest::new(PowAlgorithm::RandomX, vec![(5, FixedHash::zero())]);
    assert_eq!(giver.handle_sync_missing_blocks_request(&unknown).err(), Some("No blocks found".to_string()));
}

#[test]
fn a_node_catches_up_with_a_peer() {
    let mut giver = new_service();
    let mut taker = new_service();
    let peer = giver.local_peer_id();
    let blocks = blocks_from(None, 0, 25);
    for part in blocks.chunks(5) {
        let part = part.to_vec();
        giver.handle_new_tip(notify(&peer, &part, 1000), &reached(&part), &peer, CLOCK);
    }
    assert_eq!(giver.tip_height(PowAlgorithm::Sha3x), 24);
    taker.handle_peer_info(info_of(&peer, 24, CLOCK.epoch), &peer, CLOCK);
    let mut work = vec![catch_up(&peer, PowAlgorithm::Sha3x, None)];
    let mut rounds = 0;
    while let Some(request) = work.pop() {
        rounds += 1;
        assert!(rounds < 20);
        let call = taker.perform_catch_up_sync(request).unwrap();
        let asked = CatchUpSyncRequest {
            algo: call.request.algo,
            i_have: call.request.i_have.clone(),
            last_block_received: call.request.last_block_received,
        };
        taker.note_catch_up_sent(call, rounds, CLOCK);
        let answer: CatchUpSyncResponse = giver.handle_catch_up_sync_request(&asked);
        assert!(answer.blocks.len() <= 10);
        let achieved = reached(&answer.blocks);
        let event = NetworkEvent::CatchUpAnswered { request_id: rounds, caught: Some((answer, achieved)) };
        let reaction: Reaction = taker.handle_event(event, &topics(), CLOCK);
        for action in reaction.actions {
            if let Action::Queue(InnerRequest::PerformCatchUpSync(next)) = action {
                work.push(next);
            }
        }
    }
    assert_eq!(taker.tip_height(PowAlgorithm::Sha3x), 24);
    assert_eq!(taker.chain_pow(PowAlgorithm::Sha3x), 50);
    assert_eq!(taker.syncs.sha3x.permits, 1);
    assert!(taker.syncs.sha3x.synced);
}

#[test]
fn blocks_at_impossible_heights_are_not_kept() {
    let mut node = new_service();
    let peer = new_peer();
    node.handle_peer_info(info_of(&peer, 24, CLOCK.epoch), &peer, CLOCK);
    let start = blocks_from(None, 0, 1);
    let mut far = (*start[0]).clone();
    far.height = u64::MAX;
    far.hash = far.generate_hash();
    let far = Arc::new(far);
    // a tip so far in front is ignored, and one of another version is rejected
    let message = notify(&peer, &vec![far.clone()], 100);
    let other = NotifyNewTipBlock { version: PROTOCOL_VERSION + 1, ..notify(&peer, &vec![far.clone()], 100) };
    for (message, verdict) in [(message, MessageAcceptance::Ignore), (other, MessageAcceptance::Reject)] {
        let content = Gossip::NewTip(Ok((message, reached(&vec![far.clone()]))));
        let event = NetworkEvent::Message { source: Some(peer.clone()), via: peer.clone(), content };
        assert_eq!(node.handle_event(event, &topics(), CLOCK).acceptance, Some(verdict));
        assert!(node.network_peer_store.is_whitelisted(&peer));
    }
    // missing blocks that lie so far in front lack their parent, which is asked for
    node.note_missing_asked(8, 0);
    let answer = SyncMissingBlocksResponse::new(peer.clone(), PowAlgorithm::Sha3x, vec![far.clone()]);
    let missing = Some((answer, reached(&vec![far.clone()])));
    let reaction = node.handle_event(NetworkEvent::MissingAnswered { request_id: 8, missing }, &topics(), CLOCK);
    assert_eq!(reaction.actions.len(), 1);
    assert!(node.network_peer_store.is_whitelisted(&peer));
    assert_eq!(node.share_chain_sha3x.p2_chain.sync_store.len(), 0);
    assert_eq!(node.tip_height(PowAlgorithm::Sha3x), 0);
}

#[test]
fn the_newest_blocks_are_told() {
    let mut node = new_service();
    assert!(node.newest_blocks(PowAlgorithm::Sha3x).is_empty());
    let blocks = blocks_from(None, 0, 130);
    for block in &blocks {
        assert!(node.share_chain_sha3x.submit_block(block.clone(), Some(diff(100))).is_ok());
    }
    let list = node.newest_blocks(PowAlgorithm::Sha3x);
    assert_eq!(list.len(), 101);
    assert_eq!(list[0], (129, blocks[129].hash));
    assert_eq!(list[100], (29, blocks[29].hash));
    assert_eq!(node.share_chain_sha3x.create_catchup_sync_blocks(1), list[..2].to_vec());
    assert!(node.newest_blocks(PowAlgorithm::RandomX).is_empty());
    let peer = new_peer();
    let call = node.perform_catch_up_sync(catch_up(&peer, PowAlgorithm::Sha3x, None)).unwrap();
    assert_eq!(call.request.i_have, list);
}

#[test]
fn relays_are_learned_one_by_one() {
    let mut node = new_service();
    let peer = new_peer();
    let address = format!("/ip4/1.2.3.4/tcp/5/p2p/{}", peer.to_base58());
    let event = NetworkEvent::Identified {
        peer: peer.clone(),
        protocols: vec!["/libp2p/circuit/relay/0.2.0/hop".to_string(), "/catch_up_sync/5".to_string()],
        listen_addrs: vec!["/ip4/1.2.3.4/tcp/5".to_string(), address.clone()],
    };
    let actions = node.handle_event(event, &topics(), CLOCK).actions;
    assert!(matches!(&actions[..], [Action::LearnRelay { peer: p, address: a }] if p.same(&peer) && *a == address));
    let found = || NetworkEvent::RelayFound { peer: peer.clone(), address: address.clone() };
    assert!(matches!(node.handle_event(found(), &topics(), CLOCK).actions[..], [Action::ReserveRelay]));
    assert!(node.handle_event(found(), &topics(), CLOCK).actions.is_empty());
    assert!(node.relay_store.attempt_relay_reservation(0).unwrap().peer.same(&peer));
}

#[test]
fn events_lead_to_actions() {
    let mut node = new_service();
    let (peer, other) = (new_peer(), new_peer());
    node.handle_peer_info(info_of(&peer, 5, CLOCK.epoch), &peer, CLOCK);
    node.handle_peer_info(info_of(&other, 5, CLOCK.epoch), &other, CLOCK);
    let reaction = node.handle_event(NetworkEvent::BehindNat, &topics(), CLOCK);
    assert!(matches!(reaction.actions[..], [Action::ReserveRelay]));
    let event = NetworkEvent::Pinged { peer: peer.clone() };
    node.handle_event(event, &topics(), CLOCK);
    assert_eq!(node.network_peer_store.get(&peer).unwrap().last_ping, Some(CLOCK.epoch));
    let event = NetworkEvent::Message { source: Some(peer.clone()), via: peer.clone(), content: Gossip::Unknown };
    assert!(node.handle_event(event, &topics(), CLOCK).acceptance.is_some());
    let event = NetworkEvent::PeersDiscovered { found: vec![(new_peer(), "/ip4/1.1.1.1/tcp/1".to_string())] };
    assert!(matches!(node.handle_event(event, &topics(), CLOCK).actions[..], [Action::AddAddresses { .. }]));
    let event = NetworkEvent::OutgoingConnectionError { peer: peer.clone(), error: "refused".to_string() };
    node.handle_event(event, &topics(), CLOCK);
    assert!(!node.network_peer_store.is_whitelisted(&peer));
}

#[test]
fn connections_are_sought_with_care() {
    let mut node = new_service();
    let peers: Vec<PeerId> = (0..40).map(|_| new_peer()).collect();
    for peer in &peers {
        node.network_peer_store.add(peer, info_of(peer, 5, CLOCK.epoch), 1);
    }
    assert_eq!(node.seek_connections(&Vec::new(), 0, 0).len(), 31);
    assert!(node.seek_connections(&Vec::new(), 11, 10).is_empty());
    let found = node.seek_connections(&peers[..35].to_vec(), 1, 0);
    assert_eq!(found.len(), 5);
    assert_eq!(node.peers_to_exchange_heights_with(&peers[..3].to_vec()).len(), 3);
    assert_eq!(node.list_connections(&peers[..3].to_vec()).len(), 3);
    let (white, grey) = node.list_peers();
    assert_eq!((white.len(), grey.len()), (40, 0));
    let actions = node.join_seed_peers(&vec![(peers[0].clone(), "/ip4/1.1.1.1/tcp/1".to_string())]);
    assert!(node.network_peer_store.is_seed_peer(&peers[0]));
    assert!(actions.iter().any(|a| matches!(a, Action::Dial(p) if p.same(&peers[0]))));
    assert!(node.list_blocks(PowAlgorithm::Sha3x, 0, 10).is_empty());
}

#[test]
fn blocks_are_drawn() {
    assert_eq!(graph_start(None), "digraph B {\nnode [shape=\"box\"]\n");
    let mut bytes = vec![0xabu8; 32];
    bytes[3] = 1;
    let hash = FixedHash::from_bytes(&bytes).unwrap();
    assert_eq!(
        graph_start(Some((4, hash))),
        "digraph B {\nnode [shape=\"box\"]\ncomment=\"4 - ababab01\"\nBababab01 [style=\"bold,filled\" penwidth=2]\n"
    );
    let block = P2Block { hash, height: 4, ..P2Block::default() };
    let text = draw_block(&block, "1.00 k", "f4abcdefgh");
    assert!(text.starts_with("Bababab01 [label=\"4 - ababab01 UNVERIFIED 1.00 k "), "{}", text);
    assert!(text.contains("Bababab01 -> B00000000\n"));
    assert!(shorten_address("abc").starts_with("abc.."));
}

#[test]
fn requests_name_their_chain() {
    let request = ShareChainSyncRequest::new(PowAlgorithm::RandomX, vec![(4, FixedHash::zero())]);
    assert_eq!(request.algo(), PowAlgorithm::RandomX);
    assert_eq!(request.missing_blocks(), &vec![(4, FixedHash::zero())]);
    let peer = new_peer();
    let local = LocalShareChainSyncRequest::new(peer.clone(), request);
    assert!(local.peer_id.same(&peer));
    assert_eq!(local.request.algo(), PowAlgorithm::RandomX);
    let block = P2Block { verified: true, ..P2Block::default() };
    let response = ShareChainSyncResponse::new(peer, PowAlgorithm::Sha3x, vec![Arc::new(block)]);
    assert!(!response.into_blocks()[0].verified);
    assert_eq!(notify(&new_peer(), &Vec::new(), 1).algo(), PowAlgorithm::Sha3x);
    assert_eq!(PowAlgorithm::from_u64(PowAlgorithm::Sha3x.as_u64()), Some(PowAlgorithm::Sha3x));
    assert_eq!(PowAlgorithm::from_u64(2), None);
}

#[test]
fn squads_are_listed_once() {
    let mut store = new_store();
    assert!(store.squads().is_empty());
    for squad in ["default", "blue", "default"] {
        let peer = new_peer();
        let info = PeerInfo { squad: squad.to_string(), ..info_of(&peer, 10, CLOCK.epoch) };
        assert_eq!(store.add(&peer, info, CLOCK.epoch), AddPeerStatus::NewPeer);
    }
    let mut names: Vec<String> = store.squads().iter().map(|squad| squad.to_text()).collect();
    names.sort();
    assert_eq!(names, vec!["blue".to_string(), "default".to_string()]);
}
