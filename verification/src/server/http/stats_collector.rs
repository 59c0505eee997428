//! Figures that a node collects about itself.
use crate::server::p2p::peer_id::PeerId;
use crate::types::{Difficulty, PowAlgorithm};
use vstd::prelude::*;

verus! {

/// Something that is counted or shown. Times are in seconds of the Unix epoch.
pub enum StatData {
    /// The node's squad or identity changed.
    InfoChanged { squad: String, local_peer_id: PeerId, timestamp: u64 },
    /// The target of the share chain changed.
    TargetDifficultyChanged { target_difficulty: Difficulty, pow_algo: PowAlgorithm, timestamp: u64 },
    /// The target of the main chain changed.
    NetworkDifficultyChanged { network_difficulty: Difficulty, pow_algo: PowAlgorithm, timestamp: u64 },
    /// A block of a miner got onto the share chain.
    MinerBlockAccepted { pow_algo: PowAlgorithm, timestamp: u64 },
    /// A block got onto the main chain.
    PoolBlockAccepted { pow_algo: PowAlgorithm, timestamp: u64 },
    /// A share chain changed.
    ChainChanged { algo: PowAlgorithm, height: u64, length: u64, timestamp: u64 },
    /// The lists of peers changed.
    NewPeer { total_peers: u64, total_grey_list: u64, total_black_list: u64, timestamp: u64 },
    /// The connections changed.
    LibP2PStats {
        pending_incoming: u32,
        pending_outgoing: u32,
        established_incoming: u32,
        established_outgoing: u32,
        timestamp: u64,
    },
    /// A message came.
    GossipsubMessageReceived { timestamp: u64 },
}

impl StatData {
    /// When it happened.
    pub open spec fn time(self) -> u64 {
        match self {
            StatData::InfoChanged { timestamp, .. } => timestamp,
            StatData::TargetDifficultyChanged { timestamp, .. } => timestamp,
            StatData::NetworkDifficultyChanged { timestamp, .. } => timestamp,
            StatData::MinerBlockAccepted { timestamp, .. } => timestamp,
            StatData::PoolBlockAccepted { timestamp, .. } => timestamp,
            StatData::ChainChanged { timestamp, .. } => timestamp,
            StatData::NewPeer { timestamp, .. } => timestamp,
            StatData::LibP2PStats { timestamp, .. } => timestamp,
            StatData::GossipsubMessageReceived { timestamp } => timestamp,
        }
    }

    /// When it happened.
    pub fn timestamp(&self) -> (timestamp: u64)
        ensures
            timestamp == self.time(),
    {
        match self {
            StatData::InfoChanged { timestamp, .. } => *timestamp,
            StatData::MinerBlockAccepted { timestamp, .. } => *timestamp,
            StatData::PoolBlockAccepted { timestamp, .. } => *timestamp,
            StatData::ChainChanged { timestamp, .. } => *timestamp,
            StatData::NewPeer { timestamp, .. } => *timestamp,
            StatData::TargetDifficultyChanged { timestamp, .. } => *timestamp,
            StatData::NetworkDifficultyChanged { timestamp, .. } => *timestamp,
            StatData::LibP2PStats { timestamp, .. } => *timestamp,
            StatData::GossipsubMessageReceived { timestamp } => *timestamp,
        }
    }
}

/// Figures of one chain.
#[verifier::ext_equal]
pub struct ChainFigures {
    /// Blocks of miners that got onto the share chain.
    pub miner_accepted: u64,
    /// Blocks that got onto the main chain.
    pub pool_accepted: u64,
    /// Target of the main chain.
    pub network_difficulty: Difficulty,
    /// Target of the share chain.
    pub target_difficulty: Difficulty,
    /// Height of the share chain.
    pub chain_height: u64,
    /// Length of the share chain.
    pub chain_length: u64,
}

impl ChainFigures {
    /// Nothing was counted.
    pub open spec fn is_fresh(self) -> bool {
        &&& self.miner_accepted == 0
        &&& self.pool_accepted == 0
        &&& self.network_difficulty@ == crate::types::MIN_DIFFICULTY
        &&& self.target_difficulty@ == crate::types::MIN_DIFFICULTY
        &&& self.chain_height == 0
        &&& self.chain_length == 0
    }

    /// Nothing was counted.
    pub fn new() -> (figures: ChainFigures)
        ensures
            figures.is_fresh(),
    {
        ChainFigures {
            miner_accepted: 0,
            pool_accepted: 0,
            network_difficulty: Difficulty::min(),
            target_difficulty: Difficulty::min(),
            chain_height: 0,
            chain_length: 0,
        }
    }

    /// Height of the lowest block.
    pub open spec fn start(self) -> u64 {
        if self.chain_height >= self.chain_length {
            (self.chain_height - self.chain_length) as u64
        } else {
            0
        }
    }

    /// Height of the lowest block.
    pub fn chain_start(&self) -> (height: u64)
        ensures
            height == self.start(),
    {
        if self.chain_height >= self.chain_length {
            self.chain_height - self.chain_length
        } else {
            0
        }
    }
}

/// Figures about peers and connections.
#[derive(Clone, Copy)]
pub struct PeerFigures {
    /// Trusted peers.
    pub total_peers: u64,
    /// Peers on the grey list.
    pub total_grey_list: u64,
    /// Peers on the black list.
    pub total_black_list: u64,
    /// Connections that peers are making.
    pub pending_incoming: u32,
    /// Connections that the node is making.
    pub pending_outgoing: u32,
    /// Connections that peers made.
    pub established_incoming: u32,
    /// Connections that the node made.
    pub established_outgoing: u32,
}

/// Figures that a node collects about itself.
pub struct StatsCollector {
    /// When the first of them came.
    pub first_stat_received: Option<u64>,
    /// The node's squad.
    pub last_squad: Option<String>,
    /// The node.
    pub local_peer_id: Option<PeerId>,
    /// The RandomX chain.
    pub random_x: ChainFigures,
    /// The SHA3x chain.
    pub sha3x: ChainFigures,
    /// Peers and connections.
    pub peers: PeerFigures,
    /// When the last message came.
    pub last_gossip_message: u64,
}

/// What is shown of one chain.
#[derive(Clone, Copy)]
pub struct GetStatsResponse {
    /// Height of the chain.
    pub height: u64,
    /// When this was asked.
    pub last_block_time: u64,
    /// Shares of this node.
    pub num_my_shares: u64,
    /// All shares.
    pub total_shares: u64,
}

impl StatsCollector {
    /// Nothing was collected. `now` counts as the time of the last message.
    pub fn new(now: u64) -> (collector: Self)
        ensures
            collector.first_stat_received is None,
            collector.last_squad is None,
            collector.local_peer_id is None,
            collector.random_x.is_fresh(),
            collector.sha3x.is_fresh(),
            collector.peers == (PeerFigures {
                total_peers: 0,
                total_grey_list: 0,
                total_black_list: 0,
                pending_incoming: 0,
                pending_outgoing: 0,
                established_incoming: 0,
                established_outgoing: 0,
            }),
            collector.last_gossip_message == now,
    {
        StatsCollector {
            first_stat_received: None,
            last_squad: None,
            local_peer_id: None,
            random_x: ChainFigures::new(),
            sha3x: ChainFigures::new(),
            peers: PeerFigures {
                total_peers: 0,
                total_grey_list: 0,
                total_black_list: 0,
                pending_incoming: 0,
                pending_outgoing: 0,
                established_incoming: 0,
                established_outgoing: 0,
            },
            last_gossip_message: now,
        }
    }

    /// Figures of one chain.
    pub open spec fn chain(self, algo: PowAlgorithm) -> ChainFigures {
        match algo {
            PowAlgorithm::RandomX => self.random_x,
            PowAlgorithm::Sha3x => self.sha3x,
        }
    }

    /// Other figures of one chain.
    pub open spec fn with_chain(self, algo: PowAlgorithm, figures: ChainFigures) -> StatsCollector {
        match algo {
            PowAlgorithm::RandomX => StatsCollector { random_x: figures, ..self },
            PowAlgorithm::Sha3x => StatsCollector { sha3x: figures, ..self },
        }
    }

    /// The figures after a sample: what it tells replaces what was known, and blocks are counted.
    pub open spec fn taken(self, sample: StatData) -> StatsCollector {
        match sample {
            StatData::InfoChanged { squad, local_peer_id, .. } => StatsCollector {
                last_squad: Some(squad),
                local_peer_id: Some(local_peer_id),
                ..self
            },
            StatData::MinerBlockAccepted { pow_algo, .. } => self.with_chain(
                pow_algo,
                ChainFigures {
                    miner_accepted: (self.chain(pow_algo).miner_accepted + 1) as u64,
                    ..self.chain(pow_algo)
                },
            ),
            StatData::PoolBlockAccepted { pow_algo, .. } => self.with_chain(
                pow_algo,
                ChainFigures {
                    pool_accepted: (self.chain(pow_algo).pool_accepted + 1) as u64,
                    ..self.chain(pow_algo)
                },
            ),
            StatData::ChainChanged { algo, height, length, .. } => self.with_chain(
                algo,
                ChainFigures { chain_height: height, chain_length: length, ..self.chain(algo) },
            ),
            StatData::NewPeer { total_peers, total_grey_list, total_black_list, .. } => StatsCollector {
                peers: PeerFigures { total_peers, total_grey_list, total_black_list, ..self.peers },
                ..self
            },
            StatData::TargetDifficultyChanged { target_difficulty, pow_algo, .. } => self.with_chain(
                pow_algo,
                ChainFigures { target_difficulty, ..self.chain(pow_algo) },
            ),
            StatData::NetworkDifficultyChanged { network_difficulty, pow_algo, .. } => self.with_chain(
                pow_algo,
                ChainFigures { network_difficulty, ..self.chain(pow_algo) },
            ),
            StatData::LibP2PStats {
                pending_incoming,
                pending_outgoing,
                established_incoming,
                established_outgoing,
                ..
            } => StatsCollector {
                peers: PeerFigures {
                    pending_incoming,
                    pending_outgoing,
                    established_incoming,
                    established_outgoing,
                    ..self.peers
                },
                ..self
            },
            StatData::GossipsubMessageReceived { timestamp } => StatsCollector {
                last_gossip_message: timestamp,
                ..self
            },
        }
    }

    /// A block can still be counted.
    pub open spec fn can_count(self, sample: StatData) -> bool {
        match sample {
            StatData::MinerBlockAccepted { pow_algo, .. } => self.chain(pow_algo).miner_accepted < u64::MAX,
            StatData::PoolBlockAccepted { pow_algo, .. } => self.chain(pow_algo).pool_accepted < u64::MAX,
            _ => true,
        }
    }

    /// Takes a sample.
    pub fn handle_stat(&mut self, sample: StatData)
        requires
            old(self).can_count(sample),
        ensures
            *final(self) == old(self).taken(sample),
    {
        match sample {
            StatData::InfoChanged { squad, local_peer_id, .. } => {
                self.last_squad = Some(squad);
                self.local_peer_id = Some(local_peer_id);
            },
            StatData::MinerBlockAccepted { pow_algo, .. } => match pow_algo {
                PowAlgorithm::Sha3x => {
                    self.sha3x.miner_accepted = self.sha3x.miner_accepted + 1;
                },
                PowAlgorithm::RandomX => {
                    self.random_x.miner_accepted = self.random_x.miner_accepted + 1;
                },
            },
            StatData::PoolBlockAccepted { pow_algo, .. } => match pow_algo {
                PowAlgorithm::Sha3x => {
                    self.sha3x.pool_accepted = self.sha3x.pool_accepted + 1;
                },
                PowAlgorithm::RandomX => {
                    self.random_x.pool_accepted = self.random_x.pool_accepted + 1;
                },
            },
            StatData::ChainChanged { algo, height, length, .. } => match algo {
                PowAlgorithm::Sha3x => {
                    self.sha3x.chain_height = height;
                    self.sha3x.chain_length = length;
                },
                PowAlgorithm::RandomX => {
                    self.random_x.chain_height = height;
                    self.random_x.chain_length = length;
                },
            },
            StatData::NewPeer { total_peers, total_grey_list, total_black_list, .. } => {
                self.peers.total_peers = total_peers;
                self.peers.total_grey_list = total_grey_list;
                self.peers.total_black_list = total_black_list;
            },
            StatData::TargetDifficultyChanged { target_difficulty, pow_algo, .. } => match pow_algo {
                PowAlgorithm::Sha3x => {
                    self.sha3x.target_difficulty = target_difficulty;
                },
                PowAlgorithm::RandomX => {
                    self.random_x.target_difficulty = target_difficulty;
                },
            },
            StatData::NetworkDifficultyChanged { network_difficulty, pow_algo, .. } => match pow_algo {
                PowAlgorithm::Sha3x => {
                    self.sha3x.network_difficulty = network_difficulty;
                },
                PowAlgorithm::RandomX => {
                    self.random_x.network_difficulty = network_difficulty;
                },
            },
            StatData::LibP2PStats {
                pending_incoming,
                pending_outgoing,
                established_incoming,
                established_outgoing,
                ..
            } => {
                self.peers.pending_incoming = pending_incoming;
                self.peers.pending_outgoing = pending_outgoing;
                self.peers.established_incoming = established_incoming;
                self.peers.established_outgoing = established_outgoing;
            },
            StatData::GossipsubMessageReceived { timestamp } => {
                self.last_gossip_message = timestamp;
            },
        }
    }

    /// Takes a sample; the time of the first one is kept.
    pub fn receive(&mut self, sample: StatData)
        requires
            old(self).can_count(sample),
        ensures
            *final(self) == (StatsCollector {
                first_stat_received: match old(self).first_stat_received {
                    Some(time) => Some(time),
                    None => Some(sample.time()),
                },
                ..*old(self)
            }).taken(sample),
    {
        if self.first_stat_received.is_none() {
            self.first_stat_received = Some(sample.timestamp());
        }
        self.handle_stat(sample);
    }

    /// How long ago a time was; 0 if it is to come.
    pub open spec fn since(now: u64, then: u64) -> u64 {
        if now >= then {
            (now - then) as u64
        } else {
            0
        }
    }

    /// How long the node has been collecting, in seconds.
    pub fn uptime(&self, now: u64) -> (seconds: u64)
        ensures
            seconds == (match self.first_stat_received {
                Some(time) => StatsCollector::since(now, time),
                None => 0,
            }),
    {
        match self.first_stat_received {
            Some(time) => if now >= time {
                now - time
            } else {
                0
            },
            None => 0,
        }
    }

    /// How long ago the last message came, in seconds.
    pub fn since_last_gossip(&self, now: u64) -> (seconds: u64)
        ensures
            seconds == StatsCollector::since(now, self.last_gossip_message),
    {
        if now >= self.last_gossip_message {
            now - self.last_gossip_message
        } else {
            0
        }
    }

    /// What is shown of one chain.
    pub fn chain_stats(&self, algo: PowAlgorithm, now: u64) -> (stats: GetStatsResponse)
        ensures
            stats == (GetStatsResponse {
                height: self.chain(algo).chain_height,
                last_block_time: now,
                num_my_shares: 0,
                total_shares: 0,
            }),
    {
        let height = match algo {
            PowAlgorithm::Sha3x => self.sha3x.chain_height,
            PowAlgorithm::RandomX => self.random_x.chain_height,
        };
        GetStatsResponse { height, last_block_time: now, num_my_shares: 0, total_shares: 0 }
    }
}

/// Samples of one chain leave the figures of the other alone.
pub proof fn law_chains_are_counted_apart(collector: StatsCollector, sample: StatData, algo: PowAlgorithm)
    requires
        match sample {
            StatData::MinerBlockAccepted { pow_algo, .. } => pow_algo != algo,
            StatData::PoolBlockAccepted { pow_algo, .. } => pow_algo != algo,
            StatData::ChainChanged { algo: of, .. } => of != algo,
            StatData::TargetDifficultyChanged { pow_algo, .. } => pow_algo != algo,
            StatData::NetworkDifficultyChanged { pow_algo, .. } => pow_algo != algo,
            _ => true,
        },
    ensures
        collector.taken(sample).chain(algo) == collector.chain(algo),
{
}

/// Each sample tells what it is about: a block of a miner or of the pool is counted once, a target or a length takes the
/// place of the one before, and what a sample does not tell of stays.
pub proof fn law_samples_are_counted(collector: StatsCollector, sample: StatData)
    requires
        collector.can_count(sample),
    ensures
        ({
            let after = collector.taken(sample);
            &&& after.first_stat_received == collector.first_stat_received
            &&& sample matches StatData::MinerBlockAccepted { pow_algo, .. } ==> after.chain(pow_algo).miner_accepted
                == collector.chain(pow_algo).miner_accepted + 1 && after.chain(pow_algo).pool_accepted
                == collector.chain(pow_algo).pool_accepted && after.peers == collector.peers
            &&& sample matches StatData::PoolBlockAccepted { pow_algo, .. } ==> after.chain(pow_algo).pool_accepted
                == collector.chain(pow_algo).pool_accepted + 1 && after.chain(pow_algo).miner_accepted
                == collector.chain(pow_algo).miner_accepted && after.peers == collector.peers
            &&& sample matches StatData::ChainChanged { algo, height, length, .. } ==> after.chain(algo).chain_height
                == height && after.chain(algo).chain_length == length && after.chain(algo).miner_accepted
                == collector.chain(algo).miner_accepted
            &&& sample matches StatData::TargetDifficultyChanged { target_difficulty, pow_algo, .. } ==> after.chain(
                pow_algo,
            ).target_difficulty == target_difficulty && after.chain(pow_algo).network_difficulty == collector.chain(
                pow_algo,
            ).network_difficulty
            &&& sample matches StatData::NetworkDifficultyChanged { network_difficulty, pow_algo, .. } ==> after.chain(
                pow_algo,
            ).network_difficulty == network_difficulty && after.chain(pow_algo).target_difficulty == collector.chain(
                pow_algo,
            ).target_difficulty
            &&& sample matches StatData::NewPeer { total_peers, total_grey_list, total_black_list, .. }
                ==> after.peers.total_peers == total_peers && after.peers.total_grey_list == total_grey_list
                && after.peers.total_black_list == total_black_list && after.peers.established_incoming
                == collector.peers.established_incoming
            &&& sample matches StatData::GossipsubMessageReceived { timestamp } ==> after.last_gossip_message
                == timestamp
            &&& !(sample matches StatData::GossipsubMessageReceived { timestamp }) ==> after.last_gossip_message
                == collector.last_gossip_message
        }),
{
}

}
