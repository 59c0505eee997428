//! Peers tell each other what they know.
use crate::server::p2p::messages::{DirectPeerInfoRequest, DirectPeerInfoResponse, PeerInfo, PeerInfoView};
use crate::server::p2p::network::{
    no_actions, push_action, Action, ActionView, Clock, InnerRequest, InnerView, PerformCatchUpSync,
    NUM_PEERS_INITIAL_SYNC, NUM_PEERS_TO_SYNC_PER_ALGO,
};
use crate::server::p2p::peer_choice::{ChoiceView, Ranking};
use crate::server::p2p::peer_id::PeerId;
use crate::server::p2p::peer_map::{PeerStoreRecord, RecordView};
use crate::server::p2p::peer_store::{AddPeerStatus, StoreView};
use crate::server::p2p::service::{Service, ServiceView};
use crate::sharechain::p2block::PROTOCOL_VERSION;
use crate::text::copy_text;
use crate::types::PowAlgorithm;
use vstd::prelude::*;

verus! {

impl PeerInfo {
    /// What some peers tell about themselves.
    pub open spec fn views(infos: Seq<PeerInfo>) -> Seq<PeerInfoView> {
        infos.map_values(|i: PeerInfo| i@)
    }
}

impl RecordView {
    /// What some peers told about themselves.
    pub open spec fn infos(records: Seq<RecordView>) -> Seq<PeerInfoView> {
        records.map_values(|r: RecordView| r.peer_info)
    }
}

impl StoreView {
    /// Whether these are the best peers to tell another node of that knows `known`: those heard of last.
    pub open spec fn shares(self, count: nat, known: Seq<Seq<char>>, infos: Seq<PeerInfoView>) -> bool {
        exists|picked: Seq<RecordView>| #[trigger]
            (ChoiceView { ranking: Ranking::LastHeard, heard_after: None, except: known }).picks(
                self.white,
                count,
                picked,
            ) && infos == RecordView::infos(picked)
    }
}

/// What some records say of their peers.
fn infos_of(records: &Vec<PeerStoreRecord>) -> (infos: Vec<PeerInfo>)
    ensures
        PeerInfo::views(infos@) == RecordView::infos(PeerStoreRecord::views(records@)),
{
    let mut infos: Vec<PeerInfo> = Vec::new();
    let mut i: usize = 0;
    while i < records.len()
        invariant
            i <= records@.len(),
            infos@.len() == i,
            forall|j: int| 0 <= j < i ==> (#[trigger] infos@[j])@ == records@[j]@.peer_info,
        decreases records@.len() - i,
    {
        infos.push(records[i].peer_info.clone());
        i = i + 1;
    }
    assert(PeerInfo::views(infos@) =~= RecordView::infos(PeerStoreRecord::views(records@)));
    infos
}

impl ServiceView {
    /// The first `n` peers that another peer told of, each to be learned in its turn.
    pub open spec fn told(infos: Seq<PeerInfoView>, n: int) -> Seq<ActionView>
        decreases n,
    {
        if n <= 0 {
            Seq::empty()
        } else {
            match infos[n - 1].peer_id {
                None => ServiceView::told(infos, n - 1),
                Some(_) => ServiceView::told(infos, n - 1).push(ActionView::Learn(infos[n - 1])),
            }
        }
    }

    /// Adds a peer that another peer told of, as if it had told about itself now.
    pub open spec fn peer_told(self, info: PeerInfoView, clock: Clock) -> (ServiceView, Seq<ActionView>) {
        match info.peer_id {
            None => (self, Seq::empty()),
            Some(peer) => self.peer_added(peer, PeerInfoView { timestamp: clock.epoch, ..info }, clock),
        }
    }

    /// Adds a peer that asks. Those that it tells of are learned next.
    pub open spec fn exchange_heard(
        self,
        peer_text: Seq<char>,
        info: PeerInfoView,
        best_peers: Seq<PeerInfoView>,
        clock: Clock,
    ) -> (ServiceView, Seq<ActionView>) {
        match crate::server::p2p::peer_id::peer_named(peer_text) {
            None => (self, Seq::empty()),
            Some(peer) => {
                let (after, first) = self.peer_added(peer, info, clock);
                (after, first + ServiceView::told(best_peers, best_peers.len() as int))
            },
        }
    }

    /// A request to catch up with a peer whose chain has more work than ours.
    pub open spec fn catch_up_wanted(self, algo: PowAlgorithm, peer: Seq<char>, info: PeerInfoView) -> Seq<ActionView> {
        let (pow, height) = match algo {
            PowAlgorithm::RandomX => (info.current_random_x_pow, info.current_random_x_height),
            PowAlgorithm::Sha3x => (info.current_sha3x_pow, info.current_sha3x_height),
        };
        if self.config.enabled(algo) && pow > self.chain(algo).chain.tip_pow() {
            seq![
                ActionView::Queue(
                    InnerView::CatchUp { algo, peer, last: None, their_height: height, permit: None },
                ),
            ]
        } else {
            Seq::empty()
        }
    }

    /// What follows an answer to an exchange. Peers that the peer tells of are learned next. A peer of another squad is
    /// left, and so is a seed peer once it has told what it knows. With other peers we catch up if their chains have more
    /// work than ours.
    pub open spec fn exchange_answered(
        self,
        peer_text: Seq<char>,
        info: PeerInfoView,
        best_peers: Seq<PeerInfoView>,
        clock: Clock,
    ) -> (ServiceView, Seq<ActionView>) {
        match crate::server::p2p::peer_id::peer_named(peer_text) {
            None => (self, Seq::empty()),
            Some(peer) => if info.version != PROTOCOL_VERSION {
                (self, Seq::empty())
            } else if info.squad != self.config.squad@ {
                (self, seq![ActionView::Disconnect(peer)])
            } else {
                let (after, first) = self.peer_added(peer, info, clock);
                let again = if peer != self.local && self.store.added(peer, info, clock.millis).1
                    == AddPeerStatus::NewPeer {
                    seq![ActionView::AddExplicitPeer(peer)]
                } else {
                    Seq::empty()
                };
                let so_far = first + again + ServiceView::told(best_peers, best_peers.len() as int);
                if after.store.seeds.contains(peer) {
                    (after, so_far + seq![ActionView::Disconnect(peer)])
                } else if self.config.is_seed_peer {
                    (after, so_far)
                } else {
                    (
                        after,
                        so_far + after.catch_up_wanted(PowAlgorithm::Sha3x, peer, info) + after.catch_up_wanted(
                            PowAlgorithm::RandomX,
                            peer,
                            info,
                        ),
                    )
                }
            },
        }
    }
}

impl Service {
    /// The question that a peer is asked; a node does not ask itself.
    pub fn initiate_direct_peer_exchange(
        &self,
        peer: &PeerId,
        public_addresses: Vec<String>,
        user_agent_version: Option<String>,
        clock: Clock,
    ) -> (request: Option<DirectPeerInfoRequest>)
        requires
            self.wf(),
        ensures
            request is None <==> peer@ == self@.local,
            request matches Some(r) ==> {
                &&& r.peer_id@ == self@.local
                &&& r.my_info@ == self@.own_info(
                    crate::text::texts(public_addresses@),
                    crate::text::opt_text(user_agent_version),
                    clock,
                )
                &&& self@.store.shares(
                    NUM_PEERS_TO_SYNC_PER_ALGO as nat,
                    Seq::empty(),
                    PeerInfo::views(r.best_peers@),
                )
                &&& forall|p: Seq<char>| #[trigger]
                    PeerId::names(r.known_peer_ids@).contains(p) <==> (exists|k: Seq<char>| #[trigger]
                        self@.store.knows(k) && crate::server::p2p::peer_id::peer_named(k) == Some(p))
            },
    {
        if peer.same(&self.local_peer_id) {
            return None;
        }
        let my_info = self.create_peer_info(public_addresses, user_agent_version, clock);
        let nobody: Vec<PeerId> = Vec::new();
        assert(PeerId::names(nobody@) =~= Seq::empty());
        let records = self.network_peer_store.best_peers_to_share(NUM_PEERS_TO_SYNC_PER_ALGO, nobody);
        let best_peers = infos_of(&records);
        proof {
            let choice = ChoiceView { ranking: Ranking::LastHeard, heard_after: None, except: Seq::empty() };
            assert(choice.picks(
                self@.store.white,
                NUM_PEERS_TO_SYNC_PER_ALGO as nat,
                PeerStoreRecord::views(records@),
            ));
        }
        Some(
            DirectPeerInfoRequest {
                peer_id: self.local_peer_id.to_base58(),
                my_info,
                best_peers,
                known_peer_ids: self.network_peer_store.get_known_peers(),
            },
        )
    }

    /// Peers that another peer told of are learned next, one after the other.
    fn tell_of(infos: Vec<PeerInfo>, actions: &mut Vec<Action>)
        ensures
            Action::views(final(actions)@) == Action::views(old(actions)@) + ServiceView::told(
                PeerInfo::views(infos@),
                infos@.len() as int,
            ),
    {
        let ghost before = Action::views(actions@);
        let ghost all = PeerInfo::views(infos@);
        assert(before + Seq::<ActionView>::empty() =~= before);
        let mut i: usize = 0;
        while i < infos.len()
            invariant
                i <= infos@.len(),
                all == PeerInfo::views(infos@),
                Action::views(actions@) == before + ServiceView::told(all, i as int),
            decreases infos@.len() - i,
        {
            let ghost so_far = ServiceView::told(all, i as int);
            assert(all[i as int] == infos@[i as int]@);
            if infos[i].peer_id.is_some() {
                push_action(actions, Action::Learn(infos[i].clone()));
                assert((before + so_far).push(ActionView::Learn(all[i as int])) =~= before + so_far.push(
                    ActionView::Learn(all[i as int]),
                ));
            }
            i = i + 1;
        }
    }

    /// Hears of a peer from another one.
    pub fn learn_peer(&mut self, info: PeerInfo, clock: Clock) -> (actions: Vec<Action>)
        requires
            old(self).wf(),
        ensures
            final(self).wf(),
            (final(self)@, Action::views(actions@)) == old(self)@.peer_told(info@, clock),
    {
        let mut actions = no_actions();
        let mut info = info;
        let peer = match &info.peer_id {
            Some(peer) => peer.clone(),
            None => {
                return actions;
            },
        };
        // Reset the timestamp so that we can try to ping them
        info.timestamp = clock.epoch;
        let ghost more = self@.peer_added(peer@, info@, clock).1;
        self.add_peer(info, &peer, clock, &mut actions);
        assert(Seq::<ActionView>::empty() + more =~= more);
        actions
    }

    /// Answers a peer that asks what we know, and adds it. The peers that it tells of are learned next. A peer that follows
    /// other rules is turned away.
    pub fn handle_direct_peer_exchange_request(
        &mut self,
        request: DirectPeerInfoRequest,
        public_addresses: Vec<String>,
        user_agent_version: Option<String>,
        clock: Clock,
    ) -> (result: (Result<DirectPeerInfoResponse, String>, Vec<Action>))
        requires
            old(self).wf(),
        ensures
            final(self).wf(),
            request.my_info@.version != PROTOCOL_VERSION ==> {
                &&& final(self)@ == old(self)@
                &&& (result.0 matches Err(text) && text@ == "Peer has an outdated version"@)
                &&& Action::views(result.1@) == Seq::<ActionView>::empty()
            },
            request.my_info@.version == PROTOCOL_VERSION ==> {
                &&& (final(self)@, Action::views(result.1@)) == old(self)@.exchange_heard(
                    request.peer_id@,
                    request.my_info@,
                    PeerInfo::views(request.best_peers@),
                    clock,
                )
                &&& result.0 is Ok
            },
            result.0 matches Ok(answer) ==> {
                &&& answer.peer_id@ == old(self)@.local
                &&& answer.info@ == old(self)@.own_info(
                    crate::text::texts(public_addresses@),
                    crate::text::opt_text(user_agent_version),
                    clock,
                )
                &&& old(self)@.store.shares(
                    if request.best_peers@.len() == 0 {
                        NUM_PEERS_INITIAL_SYNC as nat
                    } else {
                        NUM_PEERS_TO_SYNC_PER_ALGO as nat
                    },
                    PeerId::names(request.known_peer_ids@),
                    PeerInfo::views(answer.best_peers@),
                )
            },
    {
        let mut actions = no_actions();
        if request.my_info.version != PROTOCOL_VERSION {
            return (Err(copy_text("Peer has an outdated version")), actions);
        }
        let info = self.create_peer_info(public_addresses, user_agent_version, clock);
        let num_peers = if request.best_peers.len() == 0 {
            NUM_PEERS_INITIAL_SYNC
        } else {
            NUM_PEERS_TO_SYNC_PER_ALGO
        };
        let ghost known = PeerId::names(request.known_peer_ids@);
        let records = self.network_peer_store.best_peers_to_share(num_peers, request.known_peer_ids);
        let best_peers = infos_of(&records);
        proof {
            let choice = ChoiceView { ranking: Ranking::LastHeard, heard_after: None, except: known };
            assert(choice.picks(self@.store.white, num_peers as nat, PeerStoreRecord::views(records@)));
        }
        let answer = DirectPeerInfoResponse { peer_id: self.local_peer_id.to_base58(), info, best_peers };
        if let Some(peer) = PeerId::parse(request.peer_id.as_str()) {
            let ghost first = self@.peer_added(peer@, request.my_info@, clock).1;
            self.add_peer(request.my_info, &peer, clock, &mut actions);
            assert(Seq::<ActionView>::empty() + first =~= first);
            Service::tell_of(request.best_peers, &mut actions);
        }
        (Ok(answer), actions)
    }

    /// Asks for a chain of a peer that has more work than ours.
    fn want_catch_up(&self, algo: PowAlgorithm, peer: &PeerId, info: &PeerInfo, actions: &mut Vec<Action>)
        requires
            self.wf(),
        ensures
            Action::views(final(actions)@) == Action::views(old(actions)@) + self@.catch_up_wanted(
                algo,
                peer@,
                info@,
            ),
    {
        let (pow, their_height): (u128, u64) = match algo {
            PowAlgorithm::RandomX => (info.current_random_x_pow, info.current_random_x_height),
            PowAlgorithm::Sha3x => (info.current_sha3x_pow, info.current_sha3x_height),
        };
        if self.config.is_enabled(algo) && pow > self.chain_pow(algo) {
            push_action(
                actions,
                Action::Queue(
                    InnerRequest::PerformCatchUpSync(
                        PerformCatchUpSync {
                            algo,
                            peer: peer.clone(),
                            last_block_from_them: None,
                            their_height,
                            permit: None,
                        },
                    ),
                ),
            );
        }
        assert(Action::views(actions@) =~= Action::views(old(actions)@) + self@.catch_up_wanted(algo, peer@, info@));
    }

    /// Hears the answer to an exchange.
    pub fn handle_direct_peer_exchange_response(&mut self, response: DirectPeerInfoResponse, clock: Clock) -> (actions:
        Vec<Action>)
        requires
            old(self).wf(),
        ensures
            final(self).wf(),
            (final(self)@, Action::views(actions@)) == old(self)@.exchange_answered(
                response.peer_id@,
                response.info@,
                PeerInfo::views(response.best_peers@),
                clock,
            ),
    {
        let mut actions = no_actions();
        let ghost start = self@;
        let ghost infos = PeerInfo::views(response.best_peers@);
        if response.info.version != PROTOCOL_VERSION {
            return actions;
        }
        let peer = match PeerId::parse(response.peer_id.as_str()) {
            Some(peer) => peer,
            None => {
                return actions;
            },
        };
        if response.info.squad != self.config.squad.inner {
            push_action(&mut actions, Action::Disconnect(peer));
            assert(Action::views(actions@) =~= seq![ActionView::Disconnect(peer@)]);
            return actions;
        }
        let ghost first = start.peer_added(peer@, response.info@, clock).1;
        let new = self.add_peer(response.info.clone(), &peer, clock, &mut actions);
        assert(Seq::<ActionView>::empty() + first =~= first);
        let ghost again = if new {
            seq![ActionView::AddExplicitPeer(peer@)]
        } else {
            Seq::empty()
        };
        if new {
            push_action(&mut actions, Action::AddExplicitPeer(peer.clone()));
        }
        assert(Action::views(actions@) =~= first + again);
        Service::tell_of(response.best_peers, &mut actions);
        // Once we have peer info from the seed peers, disconnect from them.
        if self.network_peer_store.is_seed_peer(&peer) {
            let ghost so_far = Action::views(actions@);
            push_action(&mut actions, Action::Disconnect(peer.clone()));
            assert(Action::views(actions@) =~= so_far + seq![ActionView::Disconnect(peer@)]);
            return actions;
        }
        // if we are a seed peer, end here
        if self.config.is_seed_peer {
            return actions;
        }
        self.want_catch_up(PowAlgorithm::Sha3x, &peer, &response.info, &mut actions);
        self.want_catch_up(PowAlgorithm::RandomX, &peer, &response.info, &mut actions);
        actions
    }
}

/// What peers tell of each other changes the lists of peers and nothing else: no chain, no setting and no seed peer.
pub proof fn law_exchanges_touch_only_peers(
    node: ServiceView,
    peer_text: Seq<char>,
    info: PeerInfoView,
    best_peers: Seq<PeerInfoView>,
    clock: Clock,
)
    ensures
        ({
            let heard = node.exchange_heard(peer_text, info, best_peers, clock).0;
            heard.config == node.config && heard.sha3x == node.sha3x && heard.random_x == node.random_x
                && heard.store.seeds == node.store.seeds
        }),
        ({
            let answered = node.exchange_answered(peer_text, info, best_peers, clock).0;
            answered.config == node.config && answered.sha3x == node.sha3x && answered.random_x == node.random_x
                && answered.store.seeds == node.store.seeds
        }),
        ({
            let learned = node.peer_told(info, clock).0;
            learned.config == node.config && learned.sha3x == node.sha3x && learned.random_x == node.random_x
                && learned.store.seeds == node.store.seeds
        }),
{
}

/// A node never adds itself, whoever tells it of itself.
pub proof fn law_node_does_not_add_itself(node: ServiceView, info: PeerInfoView, clock: Clock)
    ensures
        node.peer_added(node.local, info, clock) == (node, Seq::<ActionView>::empty()),
{
}

}
