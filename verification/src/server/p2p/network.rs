//! Settings of the network, the names of its topics, and what it can be asked to do.
use crate::server::p2p::messages::{PeerInfo, PeerInfoView};
use crate::server::p2p::peer_id::PeerId;
use crate::server::p2p::squad::Squad;
use crate::sharechain::p2block::PROTOCOL_VERSION;
use crate::text::{copy_text, decimal_text};
use crate::types::{FixedHash, PowAlgorithm};
use vstd::prelude::*;
use vstd::string::*;

verus! {

/// Topic on which peers tell about themselves.
pub const PEER_INFO_TOPIC: &'static str = "peer_info";

/// Topic on which peers tell of new tips.
pub const BLOCK_NOTIFY_TOPIC: &'static str = "block_notify";

/// Protocol by which missing blocks are asked for.
pub const SHARE_CHAIN_SYNC_REQ_RESP_PROTOCOL: &'static str = "/share_chain_sync/5";

/// Protocol by which peers are told of other peers.
pub const DIRECT_PEER_EXCHANGE_REQ_RESP_PROTOCOL: &'static str = "/tari_direct_peer_info/5";

/// Protocol by which a node catches up with a peer.
pub const CATCH_UP_SYNC_REQUEST_RESPONSE_PROTOCOL: &'static str = "/catch_up_sync/5";

/// File that holds the private key of a stable peer.
pub const STABLE_PRIVATE_KEY_FILE: &'static str = "p2pool_private.key";

/// How many of its own blocks a node names when it catches up.
pub const CATCH_UP_SYNC_BLOCKS_IN_I_HAVE: usize = 100;

/// A node gives up to catch up with a peer after this many attempts in a row.
pub const MAX_CATCH_UP_ATTEMPTS: u64 = 500;

/// A node sends this many blocks at most to one that catches up.
pub const MAX_CATCH_UP_BLOCKS_TO_RETURN: usize = 10;

/// How many peers a node tells others of.
pub const NUM_PEERS_TO_SYNC_PER_ALGO: usize = 32;

/// How many peers a node tells one of that knows none.
pub const NUM_PEERS_INITIAL_SYNC: usize = 100;

/// A message that is older than this, in seconds, is not looked at.
pub const MAX_MESSAGE_AGE: u64 = 60;

/// A new tip that is further than this above ours is not looked at.
pub const MAX_TIP_LEAD: u64 = 10;

/// A new tip with less work that is this far below ours is not looked at.
pub const MAX_TIP_LAG: u64 = 4;

/// If a new tip lacks more blocks than this, they are not asked for.
pub const MAX_MISSING_FROM_NOTIFY: usize = 5;

/// If our tip is further than this above a new one, missing blocks are not asked for.
pub const MAX_OWN_LEAD: u64 = 5;

/// A peer whose chain ends further than this below a missing block is not asked for it.
pub const MAX_PEER_LAG: u64 = 20;

/// With more connections than this no others are sought.
pub const ENOUGH_CONNECTIONS: u32 = 20;

/// No more are dialed once this many were.
pub const MAX_DIALS: usize = 30;

/// Settings of the network. Times are in seconds.
pub struct Config {
    /// Address at which others reach this node.
    pub external_addr: Option<String>,
    /// Addresses of peers to start with.
    pub seed_peers: Vec<String>,
    /// Time between two messages about ourselves.
    pub peer_info_publish_interval: u64,
    /// Whether the identity of the node is kept.
    pub stable_peer: bool,
    /// Where it is kept.
    pub private_key_folder: String,
    /// The private key of the node in protobuf encoding, where one is given.
    pub private_key: Option<Vec<u8>>,
    /// Whether peers are looked for in the local network.
    pub mdns_enabled: bool,
    /// Whether the node relays for others no longer.
    pub relay_server_disabled: bool,
    /// The squad of the node.
    pub squad: Squad,
    /// What the names of squads start with.
    pub squad_prefix: String,
    /// How many squads there are.
    pub num_squads: usize,
    /// The program that runs the node.
    pub user_agent: String,
    /// Time after which the grey list is cleared.
    pub grey_list_clear_interval: u64,
    /// Time after which the black list is cleared.
    pub black_list_clear_interval: u64,
    /// Time between two exchanges of heights.
    pub chain_height_exchange_interval: u64,
    /// Whether the node is one that others start with.
    pub is_seed_peer: bool,
    /// Whether the chain is printed from time to time.
    pub debug_print_chain: bool,
    /// Whether the node syncs on its own.
    pub sync_job_enabled: bool,
    /// Whether SHA3x blocks are looked at.
    pub sha3x_enabled: bool,
    /// Whether RandomX blocks are looked at.
    pub randomx_enabled: bool,
    /// How many peers the node catches up with at once.
    pub num_concurrent_syncs: usize,
    /// How many last blocks of peers are kept.
    pub num_sync_tips_to_keep: usize,
    /// How often missing blocks of missing blocks are asked for.
    pub max_missing_blocks_sync_depth: usize,
}

impl Config {
    /// The settings of a node for which nothing was set.
    pub open spec fn is_default(self) -> bool {
        &&& self.external_addr is None
        &&& self.seed_peers@ == Seq::<String>::empty()
        &&& self.peer_info_publish_interval == 900
        &&& self.stable_peer
        &&& self.private_key_folder@ == "."@
        &&& self.private_key is None
        &&& !self.mdns_enabled
        &&& !self.relay_server_disabled
        &&& self.squad@ == crate::server::p2p::squad::cased(
            crate::server::p2p::squad::cased("default"@, false),
            true,
        )
        &&& self.squad_prefix@ == "default"@
        &&& self.num_squads == 1
        &&& self.user_agent@ == "tari-p2pool"@
        &&& self.grey_list_clear_interval == 900
        &&& self.black_list_clear_interval == 3600
        &&& self.chain_height_exchange_interval == 5
        &&& !self.is_seed_peer
        &&& !self.debug_print_chain
        &&& self.sync_job_enabled
        &&& self.sha3x_enabled
        &&& self.randomx_enabled
        &&& self.num_concurrent_syncs == 1
        &&& self.num_sync_tips_to_keep == 10
        &&& self.max_missing_blocks_sync_depth == 8
    }
}

impl Default for Config {
    fn default() -> (config: Self)
        ensures
            config.is_default(),
    {
        Config {
            external_addr: None,
            seed_peers: Vec::new(),
            peer_info_publish_interval: 900,
            stable_peer: true,
            private_key_folder: copy_text("."),
            private_key: None,
            mdns_enabled: false,
            relay_server_disabled: false,
            squad: Squad::named(copy_text("default")),
            squad_prefix: copy_text("default"),
            num_squads: 1,
            user_agent: copy_text("tari-p2pool"),
            grey_list_clear_interval: 900,
            black_list_clear_interval: 3600,
            chain_height_exchange_interval: 5,
            is_seed_peer: false,
            debug_print_chain: false,
            sync_job_enabled: true,
            sha3x_enabled: true,
            randomx_enabled: true,
            num_concurrent_syncs: 1,
            num_sync_tips_to_keep: 10,
            max_missing_blocks_sync_depth: 8,
        }
    }
}

impl Config {
    /// Whether blocks of an algorithm are looked at.
    pub open spec fn enabled(&self, algo: PowAlgorithm) -> bool {
        match algo {
            PowAlgorithm::RandomX => self.randomx_enabled,
            PowAlgorithm::Sha3x => self.sha3x_enabled,
        }
    }

    /// Whether blocks of an algorithm are looked at.
    pub fn is_enabled(&self, algo: PowAlgorithm) -> (enabled: bool)
        ensures
            enabled == self.enabled(algo),
    {
        match algo {
            PowAlgorithm::RandomX => self.randomx_enabled,
            PowAlgorithm::Sha3x => self.sha3x_enabled,
        }
    }
}

/// Topics of the network.
pub struct Topics {
    /// Name of the Tari network.
    pub network: String,
    /// Identifier of the chain.
    pub chain_id: String,
}

impl Topics {
    /// The name of a topic of the whole network: the network, the chain, the topic and the version of the rules.
    pub open spec fn network_name(network: Seq<char>, chain_id: Seq<char>, topic: Seq<char>) -> Seq<char> {
        network + "_"@ + chain_id + "_"@ + topic + "_"@ + crate::text::decimal(PROTOCOL_VERSION as nat)
    }

    /// The name of a topic of a squad: that of the whole network, with the squad before the topic.
    pub open spec fn squad_name(network: Seq<char>, chain_id: Seq<char>, squad: Seq<char>, topic: Seq<char>) -> Seq<
        char,
    > {
        network + "_"@ + chain_id + "_"@ + squad + "_"@ + topic + "_"@ + crate::text::decimal(PROTOCOL_VERSION as nat)
    }

    /// Generates a gossip sub topic name based on the current Tari network to avoid mixing up
    /// blocks and peers with different Tari networks.
    pub fn network_topic(&self, topic: &str) -> (name: String)
        ensures
            name@ == Topics::network_name(self.network@, self.chain_id@, topic@),
    {
        let mut name = self.network.clone();
        name.append("_");
        name.append(self.chain_id.as_str());
        name.append("_");
        name.append(topic);
        name.append("_");
        let version = decimal_text(PROTOCOL_VERSION);
        name.append(version.as_str());
        name
    }

    /// Generates a gossip sub topic name based on the current Tari network to avoid mixing up
    /// blocks and peers with different Tari networks and the given squad name.
    pub fn squad_topic(&self, squad: &Squad, topic: &str) -> (name: String)
        ensures
            name@ == Topics::squad_name(self.network@, self.chain_id@, squad@, topic@),
    {
        let mut name = self.network.clone();
        name.append("_");
        name.append(self.chain_id.as_str());
        name.append("_");
        name.append(squad.inner.as_str());
        name.append("_");
        name.append(topic);
        name.append("_");
        let version = decimal_text(PROTOCOL_VERSION);
        name.append(version.as_str());
        name
    }

    /// What a message is about, by the name of its topic.
    pub fn subject(&self, squad: &Squad, topic: &String) -> (subject: Subject)
        ensures
            subject == (if topic@ == Topics::squad_name(self.network@, self.chain_id@, squad@, PEER_INFO_TOPIC@) {
                Subject::PeerInfo
            } else if topic@ == Topics::squad_name(self.network@, self.chain_id@, squad@, BLOCK_NOTIFY_TOPIC@) {
                Subject::NewTip
            } else {
                Subject::Unknown
            }),
    {
        if *topic == self.squad_topic(squad, PEER_INFO_TOPIC) {
            Subject::PeerInfo
        } else if *topic == self.squad_topic(squad, BLOCK_NOTIFY_TOPIC) {
            Subject::NewTip
        } else {
            Subject::Unknown
        }
    }

    /// The topics that a node listens to. A seed peer listens to none.
    pub fn subscriptions(&self, config: &Config) -> (names: Vec<String>)
        ensures
            crate::text::texts(names@) == (if config.is_seed_peer {
                Seq::<Seq<char>>::empty()
            } else {
                seq![
                    Topics::squad_name(self.network@, self.chain_id@, config.squad@, PEER_INFO_TOPIC@),
                    Topics::squad_name(self.network@, self.chain_id@, config.squad@, BLOCK_NOTIFY_TOPIC@),
                ]
            }),
    {
        let mut names: Vec<String> = Vec::new();
        if !config.is_seed_peer {
            names.push(self.squad_topic(&config.squad, PEER_INFO_TOPIC));
            names.push(self.squad_topic(&config.squad, BLOCK_NOTIFY_TOPIC));
        }
        assert(crate::text::texts(names@) =~= (if config.is_seed_peer {
            Seq::<Seq<char>>::empty()
        } else {
            seq![
                Topics::squad_name(self.network@, self.chain_id@, config.squad@, PEER_INFO_TOPIC@),
                Topics::squad_name(self.network@, self.chain_id@, config.squad@, BLOCK_NOTIFY_TOPIC@),
            ]
        }));
        names
    }
}

/// What a message is about.
#[derive(Clone, Copy, PartialEq, Eq, Structural, Debug)]
pub enum Subject {
    /// What a peer tells about itself.
    PeerInfo,
    /// A new tip.
    NewTip,
    /// Something else.
    Unknown,
}

proof fn lemma_same_rest(before: Seq<char>, a: Seq<char>, b: Seq<char>, after: Seq<char>)
    requires
        before + a + after == before + b + after,
    ensures
        a == b,
{
    let left = before + a + after;
    let right = before + b + after;
    assert(left.len() == before.len() + a.len() + after.len());
    assert(right.len() == before.len() + b.len() + after.len());
    assert forall|i: int| 0 <= i < a.len() implies a[i] == b[i] by {
        assert(left[before.len() + i] == a[i]);
        assert(right[before.len() + i] == b[i]);
    }
    assert(a =~= b);
}

/// Squads do not hear each other: the same topic has different names for different squads.
pub proof fn law_squads_do_not_mix(network: Seq<char>, chain_id: Seq<char>, a: Seq<char>, b: Seq<char>, topic: Seq<char>)
    requires
        a != b,
    ensures
        Topics::squad_name(network, chain_id, a, topic) != Topics::squad_name(network, chain_id, b, topic),
{
    if Topics::squad_name(network, chain_id, a, topic) == Topics::squad_name(network, chain_id, b, topic) {
        let before = network + "_"@ + chain_id + "_"@;
        let after = "_"@ + topic + "_"@ + crate::text::decimal(PROTOCOL_VERSION as nat);
        assert(Topics::squad_name(network, chain_id, a, topic) =~= before + a + after);
        assert(Topics::squad_name(network, chain_id, b, topic) =~= before + b + after);
        lemma_same_rest(before, a, b, after);
    }
}

/// Networks do not hear each other: the same topic has different names in different networks.
pub proof fn law_networks_do_not_mix(a: Seq<char>, b: Seq<char>, chain_id: Seq<char>, squad: Seq<char>, topic: Seq<char>)
    requires
        a != b,
    ensures
        Topics::squad_name(a, chain_id, squad, topic) != Topics::squad_name(b, chain_id, squad, topic),
        Topics::network_name(a, chain_id, topic) != Topics::network_name(b, chain_id, topic),
{
    let none = Seq::<char>::empty();
    let after = "_"@ + chain_id + "_"@ + squad + "_"@ + topic + "_"@ + crate::text::decimal(PROTOCOL_VERSION as nat);
    if Topics::squad_name(a, chain_id, squad, topic) == Topics::squad_name(b, chain_id, squad, topic) {
        assert(Topics::squad_name(a, chain_id, squad, topic) =~= none + a + after);
        assert(Topics::squad_name(b, chain_id, squad, topic) =~= none + b + after);
        lemma_same_rest(none, a, b, after);
    }
    let behind = "_"@ + chain_id + "_"@ + topic + "_"@ + crate::text::decimal(PROTOCOL_VERSION as nat);
    if Topics::network_name(a, chain_id, topic) == Topics::network_name(b, chain_id, topic) {
        assert(Topics::network_name(a, chain_id, topic) =~= none + a + behind);
        assert(Topics::network_name(b, chain_id, topic) =~= none + b + behind);
        lemma_same_rest(none, a, b, behind);
    }
}

/// Different topics of a squad have different names.
pub proof fn law_topics_do_not_mix(network: Seq<char>, chain_id: Seq<char>, squad: Seq<char>, a: Seq<char>, b: Seq<char>)
    requires
        a != b,
    ensures
        Topics::squad_name(network, chain_id, squad, a) != Topics::squad_name(network, chain_id, squad, b),
{
    if Topics::squad_name(network, chain_id, squad, a) == Topics::squad_name(network, chain_id, squad, b) {
        let before = network + "_"@ + chain_id + "_"@ + squad + "_"@;
        let after = "_"@ + crate::text::decimal(PROTOCOL_VERSION as nat);
        assert(Topics::squad_name(network, chain_id, squad, a) =~= before + a + after);
        assert(Topics::squad_name(network, chain_id, squad, b) =~= before + b + after);
        lemma_same_rest(before, a, b, after);
    }
}

/// The time, by two clocks.
#[derive(Clone, Copy)]
pub struct Clock {
    /// Seconds of the Unix epoch.
    pub epoch: u64,
    /// Milliseconds of a clock that never goes back.
    pub millis: u64,
}

/// What becomes of a message that peers hand on.
#[derive(Clone, Copy, PartialEq, Eq, Structural, Debug)]
pub enum MessageAcceptance {
    /// It is handed on.
    Accept,
    /// It is not handed on, and the peer it came from is held to account.
    Reject,
    /// It is not handed on.
    Ignore,
}

/// Missing blocks that a peer is to be asked for.
pub struct SyncMissingBlocks {
    /// The chain.
    pub algo: PowAlgorithm,
    /// The peer.
    pub peer: PeerId,
    /// Heights and hashes of the blocks.
    pub missing_parents: Vec<(u64, FixedHash)>,
    /// Whether a new tip lacked them.
    pub is_from_new_block_notify: bool,
    /// How often missing blocks of missing blocks were asked for before.
    pub depth: usize,
}

/// A peer to catch up with.
pub struct PerformCatchUpSync {
    /// The chain.
    pub algo: PowAlgorithm,
    /// The peer.
    pub peer: PeerId,
    /// The last block that the peer sent.
    pub last_block_from_them: Option<(u64, FixedHash)>,
    /// Height of the peer's chain.
    pub their_height: u64,
    /// A permit that is at hand already, named by the chain that it was given for.
    pub permit: Option<PowAlgorithm>,
}

/// Work that a node gives itself.
pub enum InnerRequest {
    /// Ask for missing blocks.
    DoSyncMissingBlocks(SyncMissingBlocks),
    /// Catch up with a peer.
    PerformCatchUpSync(PerformCatchUpSync),
}

/// What an [`InnerRequest`] holds.
#[verifier::ext_equal]
pub enum InnerView {
    Missing {
        algo: PowAlgorithm,
        peer: Seq<char>,
        missing: Seq<(u64, FixedHash)>,
        from_notify: bool,
        depth: usize,
    },
    CatchUp {
        algo: PowAlgorithm,
        peer: Seq<char>,
        last: Option<(u64, FixedHash)>,
        their_height: u64,
        permit: Option<PowAlgorithm>,
    },
}

impl View for InnerRequest {
    type V = InnerView;

    open spec fn view(&self) -> InnerView {
        match self {
            InnerRequest::DoSyncMissingBlocks(sync) => InnerView::Missing {
                algo: sync.algo,
                peer: sync.peer@,
                missing: sync.missing_parents@,
                from_notify: sync.is_from_new_block_notify,
                depth: sync.depth,
            },
            InnerRequest::PerformCatchUpSync(sync) => InnerView::CatchUp {
                algo: sync.algo,
                peer: sync.peer@,
                last: sync.last_block_from_them,
                their_height: sync.their_height,
                permit: sync.permit,
            },
        }
    }
}

/// What the network is asked to do.
pub enum Action {
    /// Learn addresses of a peer.
    AddAddresses { peer: PeerId, addresses: Vec<String> },
    /// Ask a peer what it knows.
    Exchange(PeerId),
    /// Hand messages to a peer in any case.
    AddExplicitPeer(PeerId),
    /// No longer hand messages to a peer in any case.
    RemoveExplicitPeer(PeerId),
    /// Connect to a peer.
    Dial(PeerId),
    /// Disconnect from a peer.
    Disconnect(PeerId),
    /// Look for a relay.
    ReserveRelay,
    /// Tell the node of a peer that another peer told of.
    Learn(PeerInfo),
    /// Tell the node of an address of a peer that relays.
    LearnRelay { peer: PeerId, address: String },
    /// Come back to some work later.
    Queue(InnerRequest),
}

/// What an [`Action`] holds.
#[verifier::ext_equal]
pub enum ActionView {
    AddAddresses { peer: Seq<char>, addresses: Seq<Seq<char>> },
    Exchange(Seq<char>),
    AddExplicitPeer(Seq<char>),
    RemoveExplicitPeer(Seq<char>),
    Dial(Seq<char>),
    Disconnect(Seq<char>),
    ReserveRelay,
    Learn(PeerInfoView),
    LearnRelay { peer: Seq<char>, address: Seq<char> },
    Queue(InnerView),
}

impl View for Action {
    type V = ActionView;

    open spec fn view(&self) -> ActionView {
        match self {
            Action::AddAddresses { peer, addresses } => ActionView::AddAddresses {
                peer: peer@,
                addresses: crate::text::texts(addresses@),
            },
            Action::Exchange(peer) => ActionView::Exchange(peer@),
            Action::AddExplicitPeer(peer) => ActionView::AddExplicitPeer(peer@),
            Action::RemoveExplicitPeer(peer) => ActionView::RemoveExplicitPeer(peer@),
            Action::Dial(peer) => ActionView::Dial(peer@),
            Action::Disconnect(peer) => ActionView::Disconnect(peer@),
            Action::ReserveRelay => ActionView::ReserveRelay,
            Action::Learn(info) => ActionView::Learn(info@),
            Action::LearnRelay { peer, address } => ActionView::LearnRelay { peer: peer@, address: address@ },
            Action::Queue(request) => ActionView::Queue(request@),
        }
    }
}

impl Action {
    /// What some actions hold.
    pub open spec fn views(actions: Seq<Action>) -> Seq<ActionView> {
        actions.map_values(|a: Action| a@)
    }
}

/// Adds an action behind others.
pub fn push_action(actions: &mut Vec<Action>, action: Action)
    ensures
        Action::views(final(actions)@) == Action::views(old(actions)@).push(action@),
{
    actions.push(action);
    assert(Action::views(actions@) =~= Action::views(old(actions)@).push(action@));
}

/// No actions.
pub fn no_actions() -> (actions: Vec<Action>)
    ensures
        Action::views(actions@) == Seq::<ActionView>::empty(),
{
    let actions: Vec<Action> = Vec::new();
    assert(Action::views(actions@) =~= Seq::<ActionView>::empty());
    actions
}

}
