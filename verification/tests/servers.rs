use sha_p2pool::cli::args::{join, Cli, Commands, ListSquadArgs, StartArgs};
use sha_p2pool::cli::commands::enough_squads;
use sha_p2pool::cli::util::validate_tribe;
use sha_p2pool::server::config::Config;
use sha_p2pool::server::grpc::p2pool::{
    new_block_answer, requested_algo, submission_answer, submitted_algo, NewBlockReply, ShaP2PoolGrpc, Submission,
};
use sha_p2pool::server::grpc::status::{Code, Status};
use sha_p2pool::server::grpc::templates::TemplateStore;
use sha_p2pool::server::grpc::util::{convert_coinbase_extra, CoinbaseExtraError};
use sha_p2pool::server::p2p::squad::Squad;
use sha_p2pool::server::p2p::util::{generate_identity, IdentityError};
use sha_p2pool::sharechain::in_memory::InMemoryShareChain;
use sha_p2pool::sharechain::p2block::{BlockHeader, P2Block, TariAddress, TariBlock};
use sha_p2pool::stratum::{
    write_answer, Fields, Json, NiceHashStyleStatumStreamAdapter, StratumError, StratumJobHandler, StratumRequest,
    StratumServerBuilder, StratumStreamAdapter,
};
use sha_p2pool::types::{Difficulty, FixedHash, PowAlgorithm};
use std::sync::Arc;
use tari_crypto::keys::{PublicKey, SecretKey};
use tari_crypto::ristretto::{RistrettoPublicKey, RistrettoSecretKey};
use tari_utilities::ByteArray;

fn diff(i: u64) -> Difficulty {
    Difficulty::from_u64(i).unwrap()
}

fn new_address(seed: u8) -> TariAddress {
    let secret = RistrettoSecretKey::from_uniform_bytes(&[seed; 64]).unwrap();
    let key = RistrettoPublicKey::from_secret_key(&secret).to_vec();
    let mut bytes = vec![0x10, 0x01];
    bytes.extend(key.clone());
    bytes.extend(key);
    bytes.push(tari_common_types::dammsum::compute_checksum(&bytes));
    TariAddress { bytes }
}

fn told(status: Status) -> (Code, String) {
    (status.code, status.message)
}

fn tari_block(nonce: u64, height: u64) -> TariBlock {
    TariBlock {
        header: BlockHeader { nonce, pow_algo: PowAlgorithm::Sha3x, height, encoded: nonce.to_le_bytes().to_vec() },
        coinbases: Vec::new(),
        other_output_hash: FixedHash::zero(),
    }
}

fn reply(target: u64) -> NewBlockReply {
    NewBlockReply {
        target_difficulty: Some(target),
        block: Some(Ok(tari_block(0, 30))),
        tari_hash: FixedHash { first: 9, second: 0 },
        height: Some(30),
    }
}

#[test]
fn free_bytes_name_the_squad_and_the_message() {
    let bytes = convert_coinbase_extra(Squad::from("abc".to_string()), "hi".to_string()).unwrap();
    assert_eq!(bytes, vec![0xFF, 0x02, 3, b'a', b'b', b'c', 0x01, 2, b'h', b'i']);
    let empty = convert_coinbase_extra(Squad::from("abc".to_string()), String::new()).unwrap();
    assert_eq!(empty, vec![0xFF, 0x02, 3, b'a', b'b', b'c', 0x01, 0]);
    assert_eq!(
        convert_coinbase_extra(Squad::from("abc".to_string()), "x".repeat(256)),
        Err(CoinbaseExtraError::MessageTooLong)
    );
    assert_eq!(
        convert_coinbase_extra(Squad::from("a".repeat(256)), "x".repeat(256)),
        Err(CoinbaseExtraError::SquadTooLong)
    );
    assert!(convert_coinbase_extra(Squad::from("a".repeat(255)), "x".repeat(255)).is_ok());
}

#[test]
fn requests_must_name_an_algorithm() {
    assert_eq!(requested_algo(Some(1)).ok(), Some(PowAlgorithm::Sha3x));
    assert_eq!(requested_algo(Some(0)).ok(), Some(PowAlgorithm::RandomX));
    assert_eq!(
        told(requested_algo(None).err().unwrap()),
        (Code::InvalidArgument, "missing pow in request".to_string())
    );
    let bad = (Code::Internal, "invalid block header pow algo in request".to_string());
    assert_eq!(told(requested_algo(Some(2)).err().unwrap()), bad);
    assert_eq!(submitted_algo(Some(Some(Some(1)))).ok(), Some(PowAlgorithm::Sha3x));
    assert_eq!(told(submitted_algo(Some(Some(Some(3)))).err().unwrap()), bad);
    let message = |block: Option<Option<Option<u64>>>| submitted_algo(block).err().unwrap().message;
    assert_eq!(message(None), "missing block in request");
    assert_eq!(message(Some(None)), "missing block header in request");
    assert_eq!(message(Some(Some(None))), "missing block header pow in request");
    assert_eq!(message(Some(Some(Some(1 << 31)))), "general error");
}

#[test]
fn templates_are_found_when_they_were_mined() {
    let mut chain = InMemoryShareChain::new(PowAlgorithm::Sha3x, false, 10).ok().unwrap();
    let mut random_x = InMemoryShareChain::new(PowAlgorithm::RandomX, true, 10).ok().unwrap();
    let mut service = ShaP2PoolGrpc::new(Squad::from("default".to_string()));
    let address = new_address(3).to_base58().unwrap();
    let refused = service.prepare_new_block(&mut chain, "nobody", String::new(), 5).err().unwrap();
    let reason = "Invalid wallet payment address:  Could not recover TariAddress from string";
    assert_eq!(told(refused), (Code::FailedPrecondition, reason.to_string()));
    let (block, coinbases) = service.prepare_new_block(&mut chain, &address, "hi".to_string(), 5).ok().unwrap();
    assert_eq!(coinbases.len(), 1);
    assert_eq!(coinbases[0].address, address);
    assert_eq!(coinbases[0].coinbase_extra[..3], [0xFF, 0x02, 7]);
    assert_eq!((block.height, block.timestamp), (0, 5));

    let answer = service.finish_new_block(PowAlgorithm::Sha3x, block, reply(500), diff(20)).ok().unwrap();
    assert_eq!((answer.target_difficulty, answer.miner_target_difficulty), (20, 20));
    assert_eq!(answer.network_difficulty, diff(500));
    let hash = FixedHash { first: 9, second: 0 };
    let other = FixedHash { first: 8, second: 0 };

    let missing = service.check_submission(PowAlgorithm::Sha3x, &other, Ok(tari_block(7, 30)), Ok(diff(1)));
    assert_eq!(missing.err().unwrap().message, "missing template");
    let missing = service.check_submission(PowAlgorithm::RandomX, &hash, Ok(tari_block(7, 30)), Ok(diff(1)));
    assert_eq!(missing.err().unwrap().message, "missing template");
    let failed = service.check_submission(PowAlgorithm::Sha3x, &hash, Ok(tari_block(7, 30)), Err("no work".to_string()));
    assert_eq!(failed.err().unwrap().message, "no work");
    let unread = service.check_submission(PowAlgorithm::Sha3x, &hash, Err("bad".to_string()), Ok(diff(1)));
    assert_eq!(unread.err().unwrap().message, "Could not convert gprc block to tari block: bad");

    let weak = service.check_submission(PowAlgorithm::Sha3x, &hash, Ok(tari_block(7, 30)), Ok(diff(499))).ok().unwrap();
    assert!(!weak.to_main_chain);
    assert_eq!(weak.block.original_header.nonce, 7);
    assert_eq!(service.stats_max_difficulty_since_last_success, diff(499));
    let strong = service.check_submission(PowAlgorithm::Sha3x, &hash, Ok(tari_block(8, 30)), Ok(diff(500))).ok().unwrap();
    assert!(strong.to_main_chain);
    let mined = service.main_chain_accepted(strong);
    assert!(mined.sent_to_main_chain);
    assert_eq!(service.stats_max_difficulty_since_last_success, diff(1));
    let block = Arc::new(mined);
    assert!(ShaP2PoolGrpc::submit_share_chain_block(&mut chain, &mut random_x, block.clone(), Some(diff(500))));
    assert_eq!(chain.get_tip(), Some((0, block.hash)));
    assert!(!ShaP2PoolGrpc::submit_share_chain_block(&mut chain, &mut random_x, block, None));
    assert_eq!(random_x.get_tip(), None);
}

#[test]
fn a_useless_reply_is_refused() {
    let mut service = ShaP2PoolGrpc::new(Squad::from("default".to_string()));
    let mut message = |reply: NewBlockReply| {
        service.finish_new_block(PowAlgorithm::Sha3x, P2Block::default(), reply, diff(2)).err().unwrap().message
    };
    assert_eq!(message(NewBlockReply { target_difficulty: None, ..reply(3) }), "missing miner data");
    assert_eq!(message(NewBlockReply { block: None, ..reply(3) }), "missing missing block");
    assert_eq!(
        message(NewBlockReply { block: Some(Err("bad".to_string())), ..reply(3) }),
        "Could not convert gprc block to tari block: bad"
    );
    assert_eq!(message(NewBlockReply { height: None, ..reply(3) }), "missing missing header");
    assert_eq!(message(reply(0)), "Invalid target difficulty");
    assert!(service.templates_sha3x.list_of_templates.is_empty());
}

#[test]
fn a_lower_main_target_is_what_miners_work_for() {
    let mut service = ShaP2PoolGrpc::new(Squad::from("default".to_string()));
    let answer = service.finish_new_block(PowAlgorithm::Sha3x, P2Block::default(), reply(3), diff(20)).ok().unwrap();
    assert_eq!((answer.target_difficulty, answer.miner_target_difficulty), (20, 3));
}

#[test]
fn the_share_target_lies_within_bounds() {
    let chain = InMemoryShareChain::new(PowAlgorithm::RandomX, true, 10).ok().unwrap();
    assert_eq!(chain.get_target_difficulty(diff(100), diff(1000), Some(diff(5000))), diff(1000));
    assert_eq!(chain.get_target_difficulty(diff(100), diff(1000), None), diff(10));
    let mut service = ShaP2PoolGrpc::new(Squad::from("default".to_string()));
    let mut finish = |average: Option<Difficulty>| {
        let block = P2Block::default();
        service.finish_new_block_on(&chain, block, reply(500), diff(100), diff(1000), average).ok().unwrap()
    };
    let answer = finish(Some(diff(70)));
    assert_eq!((answer.target_difficulty, answer.miner_target_difficulty), (70, 70));
    let answer = finish(Some(diff(3)));
    assert_eq!((answer.target_difficulty, answer.miner_target_difficulty), (10, 10));
    let answer = finish(Some(diff(2000)));
    assert_eq!((answer.target_difficulty, answer.miner_target_difficulty), (1000, 500));
    assert!(service.templates_rx.get(&FixedHash { first: 9, second: 0 }).is_some());
    assert!(service.templates_sha3x.list_of_templates.is_empty());
}

#[test]
fn a_refused_block_goes_nowhere() {
    let mut service = ShaP2PoolGrpc::new(Squad::from("default".to_string()));
    service.stats_max_difficulty_since_last_success = diff(40);
    let offered = |to_main_chain: bool| Submission { block: P2Block::default(), to_main_chain };
    let refused = service.main_chain_answered(offered(true), Some("stale".to_string())).err().unwrap();
    assert_eq!(told(refused), (Code::Internal, "stale".to_string()));
    assert_eq!(service.stats_max_difficulty_since_last_success, diff(40));
    let share = service.main_chain_answered(offered(false), None).ok().unwrap();
    assert!(!share.sent_to_main_chain);
    assert_eq!(service.stats_max_difficulty_since_last_success, diff(40));
    let taken = service.main_chain_answered(offered(true), None).ok().unwrap();
    assert!(taken.sent_to_main_chain);
    assert_eq!(service.stats_max_difficulty_since_last_success, diff(1));
}

#[test]
fn only_so_many_templates_are_listed() {
    let mut store = TemplateStore::new();
    for i in 0..150 {
        store.save(FixedHash { first: i, second: 0 }, P2Block { height: i as u64, ..P2Block::default() });
    }
    assert_eq!(store.list_of_templates.len(), 100);
    assert_eq!(store.list_of_templates[0], FixedHash { first: 50, second: 0 });
    assert_eq!(store.get(&FixedHash { first: 140, second: 0 }).unwrap().height, 140);
    store.save(FixedHash { first: 140, second: 0 }, P2Block { height: 7, ..P2Block::default() });
    assert_eq!(store.get(&FixedHash { first: 140, second: 0 }).unwrap().height, 7);
    assert!(store.get(&FixedHash { first: 500, second: 0 }).is_none());
}

#[test]
fn slow_answers_time_out() {
    assert_eq!(
        told(new_block_answer(None).err().unwrap()),
        (Code::DeadlineExceeded, "get_new_block timed out".to_string())
    );
    assert_eq!(
        told(submission_answer(None).err().unwrap()),
        (Code::DeadlineExceeded, "submit_block timed out".to_string())
    );
    let failure = Status::with_cause(Code::InvalidArgument, "a ", "b");
    assert_eq!(failure.message, "a b");
    assert_eq!(
        told(submission_answer(Some(Err(failure))).err().unwrap()),
        (Code::Internal, "submit_block failed".to_string())
    );
    assert_eq!(submission_answer(Some(Ok(FixedHash::zero()))).ok(), Some(FixedHash::zero()));
}

fn convert(line: &str) -> Result<StratumRequest, StratumError> {
    NiceHashStyleStatumStreamAdapter::try_convert(line.to_string())
}

#[test]
fn stratum_lines_are_read() {
    match convert(r#"{"id": 1, "method": "login", "params": {"login": "me", "pass": "x", "agent": "rig"}}"#) {
        Ok(StratumRequest::Login { id, login, pass, agent }) => {
            assert_eq!((id.as_str(), login.as_str(), pass.as_str(), agent.as_str()), ("1", "me", "x", "rig"));
        },
        _ => panic!("a login"),
    }
    match convert(r#"{"id": -12, "method": "submit", "params": ["job", "ff00"]}"#) {
        Ok(StratumRequest::Submit { id, job_id, nonce }) => {
            assert_eq!((id.as_str(), job_id.as_str(), nonce.as_str()), ("-12", "job", "ff00"));
        },
        _ => panic!("a submission"),
    }
    let error = |line: &str| convert(line).err().unwrap();
    assert_eq!(error("nonsense"), StratumError::NotJson);
    assert_eq!(error(r#"{"id": 1}"#), StratumError::NoMethod);
    assert_eq!(error(r#"[1, 2]"#), StratumError::NoMethod);
    assert_eq!(error(r#"{"method": "login"}"#), StratumError::NoId);
    assert_eq!(error(r#"{"method": "login", "id": "1"}"#), StratumError::NoId);
    assert_eq!(error(r#"{"method": "login", "id": 1.5}"#), StratumError::NoId);
    assert_eq!(error(r#"{"method": "dance", "id": 1}"#), StratumError::UnknownMethod);
    assert_eq!(error(r#"{"method": "login", "id": 1, "params": []}"#), StratumError::NoParams);
    assert_eq!(error(r#"{"method": "login", "id": 1, "params": {}}"#), StratumError::NoLogin);
    assert_eq!(error(r#"{"method": "login", "id": 1, "params": {"login": "a"}}"#), StratumError::NoPass);
    assert_eq!(
        error(r#"{"method": "login", "id": 1, "params": {"login": "a", "pass": "b"}}"#),
        StratumError::NoAgent
    );
    assert_eq!(error(r#"{"method": "submit", "id": 1, "params": {"0": "a", "1": "b"}}"#), StratumError::BadSubmit);
    assert_eq!(error(r#"{"method": "submit", "id": 1, "params": ["a"]}"#), StratumError::BadSubmit);
    assert_eq!(StratumError::NoAgent.message(), "Invalid JSON. agent missing");
    let fields = Fields {
        method: Some(Json::Text("submit".to_string())),
        id: Some(Json::Number(Some(i64::MIN))),
        params: Some(Json::List),
        login: None,
        pass: None,
        agent: None,
        job_id: Some(Json::Text("a".to_string())),
        nonce: Some(Json::Text("b".to_string())),
    };
    assert_eq!(fields.request().ok().unwrap().id(), "-9223372036854775808");
}

#[derive(Clone)]
struct Echo;

impl StratumJobHandler for Echo {
    fn handle_request(&self, request: StratumRequest) -> Result<String, String> {
        match request {
            StratumRequest::Login { login, .. } => Ok(format!("\"{}\"", login)),
            StratumRequest::Submit { .. } => Err("no job".to_string()),
        }
    }
}

#[test]
fn stratum_lines_are_answered() {
    let server =
        StratumServerBuilder::<Echo, NiceHashStyleStatumStreamAdapter>::new().with_job_handler(Echo).build();
    assert_eq!(server.port, 3333);
    let login = r#"{"id": 4, "method": "login", "params": {"login": "me", "pass": "x", "agent": "rig"}}"#;
    assert_eq!(
        server.answer(login.to_string()),
        Some("{\"id\": \"4\", \"result\": \"me\", \"error\": null}\n".to_string())
    );
    let submit = r#"{"id": 5, "method": "submit", "params": ["job", "ff00"]}"#;
    assert_eq!(
        server.answer(submit.to_string()),
        Some("{\"id\": \"5\", \"error\": \"Failed to handle request:no job\", \"result\": null}\n".to_string())
    );
    assert_eq!(server.answer("nonsense".to_string()), None);
    let other = StratumServerBuilder::<Echo, NiceHashStyleStatumStreamAdapter>::new()
        .with_port(4444)
        .with_job_handler(Echo)
        .build();
    assert_eq!(other.port, 4444);
    assert!(write_answer("9", Ok("null".to_string())).starts_with("{\"id\": \"9\", \""));
}

#[test]
fn tribes_must_have_a_name() {
    assert_eq!(validate_tribe("default"), Ok("default".to_string()));
    assert_eq!(validate_tribe(" a "), Ok(" a ".to_string()));
    assert_eq!(validate_tribe(""), Err("tribe must be set".to_string()));
    assert_eq!(validate_tribe(" \t\n"), Err("tribe must be set".to_string()));
}

#[test]
fn the_command_line_sets_a_node_up() {
    let args = StartArgs::default();
    let config = args.server_config("esmeralda", None, None).unwrap();
    assert_eq!((config.grpc_port, config.p2p_port, config.http_server.port), (18145, 0, 19000));
    assert_eq!(config.base_node_address, "http://127.0.0.1:18142");
    assert_eq!(config.p2p_service.seed_peers, vec!["/dnsaddr/esmeralda.p2pool.tari.com"]);
    assert!(config.p2p_service.mdns_enabled && config.http_server.enabled);
    assert!(config.mining_enabled && config.serves_miners());
    assert!(config.p2p_service.private_key.is_none() && config.p2p_service.external_addr.is_none());
    assert!(args.server_config("localnet", None, None).unwrap().p2p_service.seed_peers.is_empty());

    let mut args = StartArgs::default();
    args.grpc_port = Some(1);
    args.p2p_port = Some(2);
    args.stats_server_port = Some(3);
    args.external_address = Some("/ip4/1.1.1.1/tcp/1".to_string());
    args.seed_peers = Some(vec!["a".to_string(), "b".to_string()]);
    args.stable_peer = true;
    args.squad = "My Squad".to_string();
    args.relay_server_enabled = true;
    args.http_server_disabled = true;
    let identity = generate_identity().unwrap().private_key;
    let text = hex::encode_upper(&identity);
    let config = args.server_config("esmeralda", Some(&text), None).unwrap();
    assert_eq!((config.grpc_port, config.p2p_port, config.http_server.port), (1, 2, 3));
    assert_eq!(config.p2p_service.seed_peers, vec!["/dnsaddr/esmeralda.p2pool.tari.com", "a", "b"]);
    assert_eq!(config.p2p_service.squad.to_text(), "my_squad");
    assert_eq!(config.p2p_service.private_key, Some(identity));
    assert_eq!(config.p2p_service.external_addr, Some("/ip4/1.1.1.1/tcp/1".to_string()));
    assert!(!config.p2p_service.relay_server_disabled && !config.http_server.enabled);
    let config = args.server_config("esmeralda", None, Some("/ip4/2.2.2.2/tcp/2".to_string())).unwrap();
    assert_eq!(config.p2p_service.external_addr, Some("/ip4/2.2.2.2/tcp/2".to_string()));
    args.no_default_seed_peers = true;
    assert_eq!(args.server_config("esmeralda", None, None).unwrap().p2p_service.seed_peers, vec!["a", "b"]);
    let listing = args.for_listing();
    assert!(listing.mining_disabled && listing.http_server_disabled);
    let config = listing.server_config("esmeralda", None, None).unwrap();
    assert!(!config.mining_enabled && !config.serves_miners());
    let refused = |text: &str| args.server_config("esmeralda", Some(text), None).err();
    assert_eq!(refused("0g"), Some(IdentityError::NotHex));
    assert_eq!(refused("012"), Some(IdentityError::NotHex));
    assert_eq!(refused("0102"), Some(IdentityError::NotAKey));
    assert_eq!(listing.squad, "My Squad");
}

#[test]
fn the_base_directory_lies_in_the_home() {
    let cli = Cli { command: Commands::GenerateIdentity };
    assert_eq!(cli.base_dir("/home/me"), "/home/me/.tari/p2pool");
    assert_eq!(cli.base_dir("/"), "/.tari/p2pool");
    let mut args = StartArgs::default();
    args.base_dir = Some("/data".to_string());
    let cli = Cli { command: Commands::Start { args: args.clone() } };
    assert_eq!(cli.base_dir("/home/me"), "/data");
    let cli = Cli { command: Commands::ListSquads { args, list_squad_args: ListSquadArgs::default() } };
    assert_eq!(cli.base_dir("/home/me"), "/data");
    assert_eq!(join("", "a"), "a");
    assert_eq!(ListSquadArgs::default().timeout, 15);
    let squad = || Squad::from("a".to_string());
    assert!(!enough_squads(&vec![squad()]) && enough_squads(&vec![squad(), squad()]));
}

#[test]
fn settings_are_changed_one_by_one() {
    let mut builder = Config::builder();
    builder.with_grpc_port(7).with_user_agent("me".to_string());
    builder.with_max_incoming_connections(5).with_peer_publish_interval(None);
    builder.with_relay_max_circuits(Some(9));
    let config = builder.build();
    assert_eq!((config.grpc_port, config.max_incoming_connections), (7, Some(5)));
    assert_eq!(config.p2p_service.user_agent, "me");
    assert_eq!(config.p2p_service.peer_info_publish_interval, 900);
    assert_eq!(config.max_relay_circuits, Some(9));
    assert_eq!(config.base_node_address, "http://127.0.0.1:18182");
}
