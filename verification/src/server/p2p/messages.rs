//! Messages between nodes.
use crate::server::p2p::peer_id::PeerId;
use crate::sharechain::p2block::{BlockView, P2Block, PROTOCOL_VERSION};
use crate::text::{copy_opt_text, copy_texts};
use crate::types::{FixedHash, PowAlgorithm};
use std::sync::Arc;
use vstd::prelude::*;

verus! {

/// The number by which messages name SHA3x.
pub const ALGO_SHA3X: u64 = 1;

/// The number by which messages name RandomX.
pub const ALGO_RANDOM_X: u64 = 0;

impl PowAlgorithm {
    /// The number by which messages name the algorithm.
    pub open spec fn number(self) -> u64 {
        match self {
            PowAlgorithm::RandomX => ALGO_RANDOM_X,
            PowAlgorithm::Sha3x => ALGO_SHA3X,
        }
    }

    /// The number by which messages name the algorithm.
    pub fn as_u64(&self) -> (number: u64)
        ensures
            number == self.number(),
    {
        match self {
            PowAlgorithm::RandomX => ALGO_RANDOM_X,
            PowAlgorithm::Sha3x => ALGO_SHA3X,
        }
    }

    /// The algorithm that a number names, if it names one.
    pub fn from_u64(number: u64) -> (algo: Option<PowAlgorithm>)
        ensures
            algo is Some <==> number == ALGO_RANDOM_X || number == ALGO_SHA3X,
            algo matches Some(a) ==> a.number() == number,
    {
        if number == ALGO_RANDOM_X {
            Some(PowAlgorithm::RandomX)
        } else if number == ALGO_SHA3X {
            Some(PowAlgorithm::Sha3x)
        } else {
            None
        }
    }
}

/// What a peer tells about itself.
pub struct PeerInfo {
    /// Version of the rules that the peer follows.
    pub version: u64,
    /// The peer.
    pub peer_id: Option<PeerId>,
    /// Height of the peer's SHA3x chain.
    pub current_sha3x_height: u64,
    /// Height of the peer's RandomX chain.
    pub current_random_x_height: u64,
    /// Work of the peer's SHA3x chain.
    pub current_sha3x_pow: u128,
    /// Work of the peer's RandomX chain.
    pub current_random_x_pow: u128,
    /// The peer's squad.
    pub squad: String,
    /// When the peer told this, in seconds of the Unix epoch.
    pub timestamp: u64,
    /// The peer's program.
    pub user_agent: Option<String>,
    /// Version of that program.
    pub user_agent_version: Option<String>,
    /// Addresses at which the peer can be reached.
    pub public_addresses: Vec<String>,
}

/// What a [`PeerInfo`] holds.
#[verifier::ext_equal]
pub struct PeerInfoView {
    pub version: u64,
    pub peer_id: Option<Seq<char>>,
    pub current_sha3x_height: u64,
    pub current_random_x_height: u64,
    pub current_sha3x_pow: u128,
    pub current_random_x_pow: u128,
    pub squad: Seq<char>,
    pub timestamp: u64,
    pub user_agent: Option<Seq<char>>,
    pub user_agent_version: Option<Seq<char>>,
    pub public_addresses: Seq<Seq<char>>,
}

/// The name of an optional peer.
pub open spec fn opt_peer(peer: Option<PeerId>) -> Option<Seq<char>> {
    match peer {
        Some(p) => Some(p@),
        None => None,
    }
}

impl View for PeerInfo {
    type V = PeerInfoView;

    open spec fn view(&self) -> PeerInfoView {
        PeerInfoView {
            version: self.version,
            peer_id: opt_peer(self.peer_id),
            current_sha3x_height: self.current_sha3x_height,
            current_random_x_height: self.current_random_x_height,
            current_sha3x_pow: self.current_sha3x_pow,
            current_random_x_pow: self.current_random_x_pow,
            squad: self.squad@,
            timestamp: self.timestamp,
            user_agent: crate::text::opt_text(self.user_agent),
            user_agent_version: crate::text::opt_text(self.user_agent_version),
            public_addresses: crate::text::texts(self.public_addresses@),
        }
    }
}

impl Clone for PeerInfo {
    fn clone(&self) -> (copy: Self)
        ensures
            copy@ == self@,
    {
        PeerInfo {
            version: self.version,
            peer_id: match &self.peer_id {
                Some(peer) => Some(peer.clone()),
                None => None,
            },
            current_sha3x_height: self.current_sha3x_height,
            current_random_x_height: self.current_random_x_height,
            current_sha3x_pow: self.current_sha3x_pow,
            current_random_x_pow: self.current_random_x_pow,
            squad: self.squad.clone(),
            timestamp: self.timestamp,
            user_agent: copy_opt_text(&self.user_agent),
            user_agent_version: copy_opt_text(&self.user_agent_version),
            public_addresses: copy_texts(&self.public_addresses),
        }
    }
}

/// Height and work of a node's chain.
pub struct ChainState {
    /// Height of the tip.
    pub height: u64,
    /// Work of the main chain.
    pub pow: u128,
}

impl PeerInfo {
    /// What a node tells about itself at time `timestamp`.
    pub fn new(
        peer_id: PeerId,
        sha3x: ChainState,
        random_x: ChainState,
        squad: String,
        public_addresses: Vec<String>,
        user_agent: Option<String>,
        user_agent_version: Option<String>,
        timestamp: u64,
    ) -> (info: Self)
        ensures
            info@ == (PeerInfoView {
                version: PROTOCOL_VERSION,
                peer_id: Some(peer_id@),
                current_sha3x_height: sha3x.height,
                current_random_x_height: random_x.height,
                current_sha3x_pow: sha3x.pow,
                current_random_x_pow: random_x.pow,
                squad: squad@,
                timestamp,
                user_agent: crate::text::opt_text(user_agent),
                user_agent_version: crate::text::opt_text(user_agent_version),
                public_addresses: crate::text::texts(public_addresses@),
            }),
    {
        PeerInfo {
            version: PROTOCOL_VERSION,
            peer_id: Some(peer_id),
            current_sha3x_height: sha3x.height,
            current_random_x_height: random_x.height,
            current_sha3x_pow: sha3x.pow,
            current_random_x_pow: random_x.pow,
            squad,
            timestamp,
            user_agent,
            user_agent_version,
            public_addresses,
        }
    }

    /// Addresses at which the peer can be reached.
    pub fn public_addresses(&self) -> (addresses: &Vec<String>)
        ensures
            crate::text::texts(addresses@) == self@.public_addresses,
    {
        &self.public_addresses
    }
}

/// Asks a peer what it knows, and tells it what we know.
pub struct DirectPeerInfoRequest {
    /// The peer that asks.
    pub peer_id: String,
    /// What it tells about itself.
    pub my_info: PeerInfo,
    /// The best peers that it knows.
    pub best_peers: Vec<PeerInfo>,
    /// All peers that it knows.
    pub known_peer_ids: Vec<PeerId>,
}

/// Answers a [`DirectPeerInfoRequest`].
pub struct DirectPeerInfoResponse {
    /// The peer that answers.
    pub peer_id: String,
    /// What it tells about itself.
    pub info: PeerInfo,
    /// The best peers that it knows.
    pub best_peers: Vec<PeerInfo>,
}

/// Asks a peer for blocks that are missing.
pub struct SyncMissingBlocksRequest {
    algo: u64,
    missing_blocks: Vec<(u64, FixedHash)>,
}

impl SyncMissingBlocksRequest {
    #[verifier::type_invariant]
    closed spec fn names_an_algorithm(self) -> bool {
        self.algo == ALGO_RANDOM_X || self.algo == ALGO_SHA3X
    }

    /// The algorithm and the blocks that are asked for.
    pub closed spec fn asks(&self) -> (PowAlgorithm, Seq<(u64, FixedHash)>) {
        (
            if self.algo == ALGO_RANDOM_X {
                PowAlgorithm::RandomX
            } else {
                PowAlgorithm::Sha3x
            },
            self.missing_blocks@,
        )
    }

    /// Asks for blocks of one chain.
    pub fn new(algo: PowAlgorithm, missing_blocks: Vec<(u64, FixedHash)>) -> (request: Self)
        ensures
            request.asks() == (algo, missing_blocks@),
    {
        SyncMissingBlocksRequest { algo: algo.as_u64(), missing_blocks }
    }

    /// The chain that is asked for.
    pub fn algo(&self) -> (algo: PowAlgorithm)
        ensures
            algo == self.asks().0,
    {
        proof {
            use_type_invariant(self);
        }
        if self.algo == ALGO_RANDOM_X {
            PowAlgorithm::RandomX
        } else {
            PowAlgorithm::Sha3x
        }
    }

    /// The blocks that are asked for.
    pub fn missing_blocks(&self) -> (blocks: &Vec<(u64, FixedHash)>)
        ensures
            blocks@ == self.asks().1,
    {
        &self.missing_blocks
    }
}

/// Copies of blocks that no longer count as verified: a receiver checks them itself.
pub open spec fn unverified(blocks: Seq<BlockView>) -> Seq<BlockView> {
    blocks.map_values(|b: BlockView| BlockView { verified: false, ..b })
}

/// Copies of blocks that no longer count as verified.
pub fn to_unverified(blocks: &Vec<Arc<P2Block>>) -> (copies: Vec<Arc<P2Block>>)
    ensures
        crate::sharechain::in_memory::views(copies@) == unverified(crate::sharechain::in_memory::views(blocks@)),
{
    let mut copies: Vec<Arc<P2Block>> = Vec::new();
    let mut i: usize = 0;
    while i < blocks.len()
        invariant
            i <= blocks@.len(),
            copies@.len() == i,
            forall|j: int|
                0 <= j < i ==> (#[trigger] copies@[j])@ == (BlockView { verified: false, ..blocks@[j]@ }),
        decreases blocks@.len() - i,
    {
        let mut block: P2Block = (*blocks[i]).clone();
        block.verified = false;
        copies.push(Arc::new(block));
        i = i + 1;
    }
    assert(crate::sharechain::in_memory::views(copies@) =~= unverified(crate::sharechain::in_memory::views(blocks@)));
    copies
}

/// Answers a [`SyncMissingBlocksRequest`].
pub struct SyncMissingBlocksResponse {
    /// Version of the rules that the peer follows.
    pub version: u64,
    /// The peer that answers.
    pub peer_id: PeerId,
    /// The chain that was asked for.
    pub algo: PowAlgorithm,
    /// The blocks that were found.
    pub blocks: Vec<Arc<P2Block>>,
}

impl SyncMissingBlocksResponse {
    /// Answers with the blocks that were found.
    pub fn new(peer_id: PeerId, algo: PowAlgorithm, blocks: Vec<Arc<P2Block>>) -> (response: Self)
        ensures
            response == (SyncMissingBlocksResponse { version: PROTOCOL_VERSION, peer_id, algo, blocks }),
    {
        SyncMissingBlocksResponse { version: PROTOCOL_VERSION, peer_id, algo, blocks }
    }

    /// The peer that answers.
    pub fn peer_id(&self) -> (peer: &PeerId)
        ensures
            *peer == self.peer_id,
    {
        &self.peer_id
    }

    /// The chain that was asked for.
    pub fn algo(&self) -> (algo: PowAlgorithm)
        ensures
            algo == self.algo,
    {
        self.algo
    }

    /// The blocks, none of which counts as verified.
    pub fn into_blocks(self) -> (blocks: Vec<Arc<P2Block>>)
        ensures
            crate::sharechain::in_memory::views(blocks@) == unverified(
                crate::sharechain::in_memory::views(self.blocks@),
            ),
    {
        to_unverified(&self.blocks)
    }
}

/// A request for missing blocks, by the name of the protocol that carries it.
pub type ShareChainSyncRequest = SyncMissingBlocksRequest;

/// The answer to a [`ShareChainSyncRequest`].
pub type ShareChainSyncResponse = SyncMissingBlocksResponse;

/// A request for missing blocks, and the peer that it goes to.
pub struct LocalShareChainSyncRequest {
    /// The peer.
    pub peer_id: PeerId,
    /// The request.
    pub request: ShareChainSyncRequest,
}

impl LocalShareChainSyncRequest {
    /// A request to a peer.
    pub fn new(peer_id: PeerId, request: ShareChainSyncRequest) -> (local: Self)
        ensures
            local == (LocalShareChainSyncRequest { peer_id, request }),
    {
        LocalShareChainSyncRequest { peer_id, request }
    }
}

/// Tells that a node has a new tip.
pub struct NotifyNewTipBlock {
    /// Version of the rules that the node follows.
    pub version: u64,
    /// The node.
    pub peer_id: PeerId,
    /// The chain.
    pub algo: PowAlgorithm,
    /// The new blocks.
    pub new_blocks: Vec<Arc<P2Block>>,
    /// The work of the chain.
    pub total_accumulated_difficulty: u128,
    /// When this was told, in seconds of the Unix epoch.
    pub timestamp: u64,
}

impl NotifyNewTipBlock {
    /// Tells of new blocks.
    pub fn new(
        peer_id: PeerId,
        algo: PowAlgorithm,
        new_blocks: Vec<Arc<P2Block>>,
        total_accumulated_difficulty: u128,
        timestamp: u64,
    ) -> (notify: Self)
        ensures
            notify == (NotifyNewTipBlock {
                version: PROTOCOL_VERSION,
                peer_id,
                algo,
                new_blocks,
                total_accumulated_difficulty,
                timestamp,
            }),
    {
        NotifyNewTipBlock {
            version: PROTOCOL_VERSION,
            peer_id,
            algo,
            new_blocks,
            total_accumulated_difficulty,
            timestamp,
        }
    }

    /// The chain.
    pub fn algo(&self) -> (algo: PowAlgorithm)
        ensures
            algo == self.algo,
    {
        self.algo
    }
}

/// Asks a peer for the blocks behind those that we have.
pub struct CatchUpSyncRequest {
    /// The chain.
    pub algo: PowAlgorithm,
    /// Blocks that we have.
    pub i_have: Vec<(u64, FixedHash)>,
    /// The last block that the peer sent.
    pub last_block_received: Option<(u64, FixedHash)>,
}

/// Answers a [`CatchUpSyncRequest`].
pub struct CatchUpSyncResponse {
    /// Version of the rules that the peer follows.
    pub version: u64,
    /// The peer that answers.
    pub peer_id: PeerId,
    /// The chain.
    pub algo: PowAlgorithm,
    /// The blocks.
    pub blocks: Vec<Arc<P2Block>>,
    /// Height and hash of the peer's tip.
    pub tip: (u64, FixedHash),
    /// Work of the peer's chain.
    pub achieved_pow: u128,
}

/// The number of an algorithm names it again.
pub proof fn law_algorithm_numbers_differ(a: PowAlgorithm, b: PowAlgorithm)
    ensures
        a.number() == b.number() ==> a == b,
{
}

}
