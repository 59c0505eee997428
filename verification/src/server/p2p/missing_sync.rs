//! Blocks that are missing are asked for.
use crate::server::p2p::messages::{to_unverified, SyncMissingBlocksRequest, SyncMissingBlocksResponse};
use crate::server::p2p::network::{
    no_actions, push_action, Action, ActionView, InnerRequest, InnerView, SyncMissingBlocks, MAX_PEER_LAG,
};
use crate::server::p2p::peer_id::PeerId;
use crate::server::p2p::service::{describe_bad_block, pair_with_achieved, Service, ServiceView};
use crate::server::p2p::peer_store::StoreView;
use crate::sharechain::chain_model::AddView;
use crate::sharechain::error::ShareChainError;
use crate::sharechain::p2block::{BlockView, PROTOCOL_VERSION};
use crate::sharechain::share_rules::ShareChainView;
use crate::text::copy_text;
use crate::types::{Difficulty, FixedHash, PowAlgorithm};
use vstd::prelude::*;

verus! {

/// A request for missing blocks that is to be sent.
pub struct MissingCall {
    /// The peer.
    pub peer: PeerId,
    /// The request.
    pub request: SyncMissingBlocksRequest,
    /// How often missing blocks of missing blocks will have been asked for.
    pub depth: usize,
}

/// What a [`MissingCall`] holds.
#[verifier::ext_equal]
pub struct MissingView {
    pub peer: Seq<char>,
    pub algo: PowAlgorithm,
    pub blocks: Seq<(u64, FixedHash)>,
    pub depth: int,
}

impl View for MissingCall {
    type V = MissingView;

    open spec fn view(&self) -> MissingView {
        MissingView {
            peer: self.peer@,
            algo: self.request.asks().0,
            blocks: self.request.asks().1,
            depth: self.depth as int,
        }
    }
}

impl MissingCall {
    /// What some calls hold.
    pub open spec fn views(calls: Seq<MissingCall>) -> Seq<MissingView> {
        calls.map_values(|c: MissingCall| c@)
    }
}

/// What a [`SyncMissingBlocksResponse`] holds, with the difficulties that its blocks reached.
pub struct MissingAnswer {
    pub version: u64,
    pub peer: Seq<char>,
    pub algo: PowAlgorithm,
    pub blocks: Seq<(BlockView, Option<u64>)>,
}

impl MissingAnswer {
    /// What an answer holds. Its blocks no longer count as verified.
    pub open spec fn of(response: SyncMissingBlocksResponse, achieved: Seq<Option<Difficulty>>) -> MissingAnswer {
        MissingAnswer {
            version: response.version,
            peer: response.peer_id@,
            algo: response.algo,
            blocks: crate::server::p2p::service::with_achieved(
                crate::server::p2p::messages::unverified(crate::sharechain::in_memory::views(response.blocks@)),
                achieved,
            ),
        }
    }
}

impl ServiceView {
    /// The lowest of some heights; 0 if there are none.
    pub open spec fn lowest(missing: Seq<(u64, FixedHash)>, n: int) -> u64
        decreases n,
    {
        if n <= 0 {
            0
        } else if n == 1 || missing[n - 1].0 < ServiceView::lowest(missing, n - 1) {
            missing[n - 1].0
        } else {
            ServiceView::lowest(missing, n - 1)
        }
    }

    /// Whether a peer is known to be too far behind to have a block of this height.
    pub open spec fn lags(self, peer: Seq<char>, algo: PowAlgorithm, height: u64) -> bool {
        if self.store.white.dom().contains(peer) {
            StoreView::height_of(self.store.white[peer], algo) + MAX_PEER_LAG < height
        } else if self.store.grey.dom().contains(peer) {
            StoreView::height_of(self.store.grey[peer], algo) + MAX_PEER_LAG < height
        } else {
            false
        }
    }

    /// The requests to the first `n` of the connected peers, without those that are too far behind.
    pub open spec fn asked_of(
        self,
        connected: Seq<Seq<char>>,
        n: int,
        algo: PowAlgorithm,
        missing: Seq<(u64, FixedHash)>,
        depth: int,
    ) -> Seq<MissingView>
        decreases n,
    {
        if n <= 0 {
            Seq::empty()
        } else {
            let before = self.asked_of(connected, n - 1, algo, missing, depth);
            if self.lags(connected[n - 1], algo, ServiceView::lowest(missing, missing.len() as int)) {
                before
            } else {
                before.push(MissingView { peer: connected[n - 1], algo, blocks: missing, depth })
            }
        }
    }

    /// Which peers are asked for missing blocks. Those that a new tip lacks are asked for from all connected peers, so
    /// that not everyone swarms the peer that sent it; others are asked for from the peer that sent the blocks that
    /// lack them. Blocks are not asked for beyond the depth of the settings.
    pub open spec fn missing_asked(
        self,
        algo: PowAlgorithm,
        peer: Seq<char>,
        missing: Seq<(u64, FixedHash)>,
        from_notify: bool,
        depth: usize,
        connected: Seq<Seq<char>>,
    ) -> Seq<MissingView> {
        if depth >= self.config.max_missing_blocks_sync_depth || missing.len() == 0 {
            Seq::empty()
        } else if !from_notify {
            seq![MissingView { peer, algo, blocks: missing, depth: depth + 1 }]
        } else {
            self.asked_of(connected, connected.len() as int, algo, missing, depth + 1)
        }
    }

    /// What follows when missing blocks were added with this result.
    pub open spec fn missing_added(
        self,
        answer: MissingAnswer,
        depth: usize,
        chain: ShareChainView,
        result: Result<AddView, ShareChainError>,
    ) -> (ServiceView, Seq<ActionView>) {
        let next = self.with_chain(answer.algo, chain);
        match result {
            Err(error) => (
                ServiceView {
                    store: self.store.greyed(
                        answer.peer,
                        crate::server::p2p::service::bad_block_reason(error),
                    ),
                    ..next
                },
                Seq::empty(),
            ),
            Ok(added) => if added.missing.len() == 0 || depth >= self.config.max_missing_blocks_sync_depth {
                (next, Seq::empty())
            } else {
                (
                    next,
                    seq![
                        ActionView::Queue(
                            InnerView::Missing {
                                algo: answer.algo,
                                peer: answer.peer,
                                missing: added.parents(),
                                from_notify: false,
                                depth: (depth + 1) as usize,
                            },
                        ),
                    ],
                )
            },
        }
    }

    /// What becomes of an answer with missing blocks. `None` if `fuel` does not suffice to add the blocks.
    pub open spec fn missing_answered(self, answer: MissingAnswer, depth: usize, fuel: nat) -> Option<
        (ServiceView, Seq<ActionView>),
    > {
        if answer.version != PROTOCOL_VERSION || answer.blocks.len() == 0 {
            Some((self, Seq::empty()))
        } else {
            match self.chain(answer.algo).synced_all(answer.blocks, fuel) {
                None => None,
                Some((chain, result)) => Some(self.missing_added(answer, depth, chain, result)),
            }
        }
    }
}

/// A copy of heights and hashes.
pub fn copy_blocks(blocks: &Vec<(u64, FixedHash)>) -> (copy: Vec<(u64, FixedHash)>)
    ensures
        copy@ == blocks@,
{
    let mut copy: Vec<(u64, FixedHash)> = Vec::new();
    let mut i: usize = 0;
    while i < blocks.len()
        invariant
            i <= blocks@.len(),
            copy@ == blocks@.take(i as int),
        decreases blocks@.len() - i,
    {
        copy.push(blocks[i]);
        i = i + 1;
        assert(copy@ =~= blocks@.take(i as int));
    }
    assert(copy@ =~= blocks@);
    copy
}

impl Service {
    /// Whether a peer is known to be too far behind to have a block of this height.
    fn lags(&self, peer: &PeerId, algo: PowAlgorithm, height: u64) -> (behind: bool)
        requires
            self.wf(),
        ensures
            behind == self@.lags(peer@, algo, height),
    {
        match self.network_peer_store.get(peer) {
            Some(record) => {
                let their_height = match algo {
                    PowAlgorithm::RandomX => record.peer_info.current_random_x_height,
                    PowAlgorithm::Sha3x => record.peer_info.current_sha3x_height,
                };
                height > MAX_PEER_LAG && their_height < height - MAX_PEER_LAG
            },
            None => false,
        }
    }

    /// Which peers are to be asked for missing blocks.
    pub fn sync_missing_blocks(&self, sync: SyncMissingBlocks, connected_peers: &Vec<PeerId>) -> (calls: Vec<
        MissingCall,
    >)
        requires
            self.wf(),
        ensures
            MissingCall::views(calls@) == self@.missing_asked(
                sync.algo,
                sync.peer@,
                sync.missing_parents@,
                sync.is_from_new_block_notify,
                sync.depth,
                PeerId::names(connected_peers@),
            ),
    {
        let mut calls: Vec<MissingCall> = Vec::new();
        assert(MissingCall::views(calls@) =~= Seq::empty());
        let algo = sync.algo;
        if sync.depth >= self.config.max_missing_blocks_sync_depth || sync.missing_parents.len() == 0 {
            return calls;
        }
        let depth = sync.depth + 1;
        let ghost missing = sync.missing_parents@;
        // If it's not from new_block_notify, ask only the peer that sent the blocks
        if !sync.is_from_new_block_notify {
            let ghost peer = sync.peer@;
            calls.push(
                MissingCall {
                    peer: sync.peer,
                    request: SyncMissingBlocksRequest::new(algo, sync.missing_parents),
                    depth,
                },
            );
            assert(MissingCall::views(calls@) =~= seq![
                MissingView { peer, algo, blocks: missing, depth: depth as int },
            ]);
            return calls;
        }
        // ask our connected peers rather than everyone swarming the original peer
        let mut lowest: u64 = sync.missing_parents[0].0;
        let mut k: usize = 1;
        while k < sync.missing_parents.len()
            invariant
                1 <= k <= sync.missing_parents@.len(),
                lowest == ServiceView::lowest(sync.missing_parents@, k as int),
            decreases sync.missing_parents@.len() - k,
        {
            if sync.missing_parents[k].0 < lowest {
                lowest = sync.missing_parents[k].0;
            }
            k = k + 1;
        }
        let ghost connected = PeerId::names(connected_peers@);
        let mut i: usize = 0;
        while i < connected_peers.len()
            invariant
                i <= connected_peers@.len(),
                self.wf(),
                missing == sync.missing_parents@,
                lowest == ServiceView::lowest(missing, missing.len() as int),
                connected == PeerId::names(connected_peers@),
                MissingCall::views(calls@) == self@.asked_of(connected, i as int, algo, missing, depth as int),
            decreases connected_peers@.len() - i,
        {
            let peer = &connected_peers[i];
            assert(connected[i as int] == peer@);
            if !self.lags(peer, algo, lowest) {
                let ghost before = MissingCall::views(calls@);
                calls.push(
                    MissingCall {
                        peer: peer.clone(),
                        request: SyncMissingBlocksRequest::new(algo, copy_blocks(&sync.missing_parents)),
                        depth,
                    },
                );
                assert(MissingCall::views(calls@) =~= before.push(
                    MissingView { peer: peer@, algo, blocks: missing, depth: depth as int },
                ));
            }
            i = i + 1;
        }
        calls
    }

    /// Notes the number of a request for missing blocks that was sent.
    pub fn note_missing_asked(&mut self, request_id: u64, depth: usize)
        requires
            old(self).wf(),
        ensures
            final(self).wf(),
            final(self)@ == (ServiceView { depths: old(self)@.depths.insert(request_id, depth), ..old(self)@ }),
    {
        broadcast use vstd::std_specs::hash::group_hash_axioms;

        self.missing_blocks_sync_request_depth.insert(request_id, depth);
    }

    /// Takes the depth of a request for missing blocks that was answered or failed.
    pub fn take_missing_depth(&mut self, request_id: u64) -> (depth: Option<usize>)
        requires
            old(self).wf(),
        ensures
            final(self).wf(),
            final(self)@ == (ServiceView { depths: old(self)@.depths.remove(request_id), ..old(self)@ }),
            depth == (if old(self)@.depths.dom().contains(request_id) {
                Some(old(self)@.depths[request_id])
            } else {
                None
            }),
    {
        broadcast use vstd::std_specs::hash::group_hash_axioms;

        let depth = self.missing_blocks_sync_request_depth.remove(&request_id);
        assert(self@.depths =~= old(self)@.depths.remove(request_id));
        depth
    }

    /// Answers a peer that asks for blocks. If none is there, the peer is told so.
    pub fn handle_sync_missing_blocks_request(&self, request: &SyncMissingBlocksRequest) -> (result: Result<
        SyncMissingBlocksResponse,
        String,
    >)
        requires
            self.wf(),
        ensures
            ({
                let (algo, asked) = request.asks();
                let found = self@.chain(algo).chain.fetched(asked, asked.len() as int);
                match result {
                    Err(text) => found.len() == 0 && text@ == "No blocks found"@,
                    Ok(answer) => {
                        &&& found.len() > 0
                        &&& answer.version == PROTOCOL_VERSION
                        &&& answer.peer_id@ == self@.local
                        &&& answer.algo == algo
                        &&& crate::sharechain::in_memory::views(answer.blocks@) == found
                        &&& self@.chain(algo).chain.answers_all(
                            asked,
                            crate::sharechain::in_memory::views(answer.blocks@),
                        )
                    },
                }
            }),
    {
        let algo = request.algo();
        let blocks = match algo {
            PowAlgorithm::RandomX => self.share_chain_random_x.get_blocks(request.missing_blocks().as_slice()),
            PowAlgorithm::Sha3x => self.share_chain_sha3x.get_blocks(request.missing_blocks().as_slice()),
        };
        assert(crate::sharechain::in_memory::views(blocks@).len() == blocks@.len());
        if blocks.len() == 0 {
            return Err(copy_text("No blocks found"));
        }
        Ok(
            SyncMissingBlocksResponse {
                version: PROTOCOL_VERSION,
                peer_id: self.local_peer_id.clone(),
                algo,
                blocks,
            },
        )
    }

    /// All the responding blocks will be tried to put into local share chain. Blocks that they lack are asked for in
    /// turn, to the depth of the settings.
    pub fn handle_sync_missing_blocks_response(
        &mut self,
        response: SyncMissingBlocksResponse,
        achieved: &Vec<Option<Difficulty>>,
        depth: usize,
    ) -> (actions: Vec<Action>)
        requires
            old(self).wf(),
        ensures
            final(self).wf(),
            exists|fuel: nat| #[trigger]
                old(self)@.missing_answered(MissingAnswer::of(response, achieved@), depth, fuel) == Some(
                    (final(self)@, Action::views(actions@)),
                ),
    {
        let ghost start = self@;
        let ghost answer = MissingAnswer::of(response, achieved@);
        let mut actions = no_actions();
        assert(answer.blocks.len() == response.blocks@.len());
        if response.version != PROTOCOL_VERSION || response.blocks.len() == 0 {
            assert(start.missing_answered(answer, depth, 0) == Some((self@, Action::views(actions@))));
            return actions;
        }
        let algo = response.algo;
        let copies = to_unverified(&response.blocks);
        let blocks = pair_with_achieved(&copies, achieved);
        let ghost all = crate::sharechain::sync_blocks::checked_views(blocks@);
        assert(all == answer.blocks);
        let result = self.add_synced_blocks(algo, &blocks);
        let ghost outcome = crate::sharechain::p2chain::add_outcome(result);
        let ghost chain = self@.chain(algo);
        let ghost fuel = choose|fuel: nat| #[trigger]
            start.chain(algo).synced_all(all, fuel) == Some((chain, outcome));
        assert(start.missing_answered(answer, depth, fuel) == Some(
            start.missing_added(answer, depth, chain, outcome),
        ));
        match result {
            Err(error) => {
                self.network_peer_store.move_to_grey_list(&response.peer_id, describe_bad_block(&error));
            },
            Ok(added) => {
                let ghost added_view = added@;
                let missing_parents = added.into_missing_parents_vec();
                assert(missing_parents@.len() == added_view.missing.len());
                if missing_parents.len() > 0 && depth < self.config.max_missing_blocks_sync_depth {
                    push_action(
                        &mut actions,
                        Action::Queue(
                            InnerRequest::DoSyncMissingBlocks(
                                SyncMissingBlocks {
                                    algo,
                                    peer: response.peer_id,
                                    missing_parents,
                                    is_from_new_block_notify: false,
                                    depth: depth + 1,
                                },
                            ),
                        ),
                    );
                }
                assert(Action::views(actions@) =~= start.missing_added(answer, depth, chain, outcome).1);
            },
        }
        actions
    }
}

/// Blocks are never asked for beyond the depth of the settings: each request goes one step deeper, and an answer to a
/// request at the last step gives rise to no other.
pub proof fn law_missing_blocks_have_a_depth(
    node: ServiceView,
    algo: PowAlgorithm,
    peer: Seq<char>,
    missing: Seq<(u64, FixedHash)>,
    from_notify: bool,
    depth: usize,
    connected: Seq<Seq<char>>,
)
    ensures
        forall|i: int|
            0 <= i < node.missing_asked(algo, peer, missing, from_notify, depth, connected).len() ==> (
            #[trigger] node.missing_asked(algo, peer, missing, from_notify, depth, connected)[i]).depth == depth + 1
                <= node.config.max_missing_blocks_sync_depth,
        depth >= node.config.max_missing_blocks_sync_depth ==> node.missing_asked(
            algo,
            peer,
            missing,
            from_notify,
            depth,
            connected,
        ).len() == 0,
{
    lemma_asked_depth(node, connected, connected.len() as int, algo, missing, depth + 1);
}

proof fn lemma_asked_depth(
    node: ServiceView,
    connected: Seq<Seq<char>>,
    n: int,
    algo: PowAlgorithm,
    missing: Seq<(u64, FixedHash)>,
    depth: int,
)
    ensures
        forall|i: int|
            0 <= i < node.asked_of(connected, n, algo, missing, depth).len() ==> (#[trigger] node.asked_of(
                connected,
                n,
                algo,
                missing,
                depth,
            )[i]).depth == depth,
    decreases n,
{
    if n > 0 {
        lemma_asked_depth(node, connected, n - 1, algo, missing, depth);
    }
}

/// Whoever is asked for missing blocks gets the same question, and no peer is asked that is not connected.
pub proof fn law_connected_peers_are_asked(
    node: ServiceView,
    connected: Seq<Seq<char>>,
    n: int,
    algo: PowAlgorithm,
    missing: Seq<(u64, FixedHash)>,
    depth: int,
)
    requires
        0 <= n <= connected.len(),
    ensures
        forall|i: int|
            0 <= i < node.asked_of(connected, n, algo, missing, depth).len() ==> {
                let call = #[trigger] node.asked_of(connected, n, algo, missing, depth)[i];
                call.blocks == missing && call.algo == algo && connected.contains(call.peer) && !node.lags(
                    call.peer,
                    algo,
                    ServiceView::lowest(missing, missing.len() as int),
                )
            },
    decreases n,
{
    if n > 0 {
        law_connected_peers_are_asked(node, connected, n - 1, algo, missing, depth);
        assert(connected.contains(connected[n - 1]));
    }
}

}
