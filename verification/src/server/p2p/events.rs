//! What a node does when something happens in the network.
use crate::server::p2p::catch_up::CatchUpAnswer;
use crate::server::p2p::messages::{CatchUpSyncResponse, DirectPeerInfoResponse, PeerInfo, SyncMissingBlocksResponse};
use crate::server::p2p::missing_sync::MissingAnswer;
use crate::server::p2p::network::{
    no_actions, push_action, Action, ActionView, Clock, MessageAcceptance, Topics,
    CATCH_UP_SYNC_REQUEST_RESPONSE_PROTOCOL, PEER_INFO_TOPIC,
};
use crate::server::p2p::peer_id::PeerId;
use crate::server::p2p::peer_map::RecordView;
use crate::server::p2p::peer_store::StoreView;
use crate::server::p2p::service::{Gossip, Service, ServiceView, TipNotice};
use crate::text::{copy_text, lists_text};
use crate::types::Difficulty;
use vstd::prelude::*;
use vstd::string::*;

verus! {

/// Protocol of a peer that relays for others.
pub const RELAY_HOP_PROTOCOL: &'static str = "/libp2p/circuit/relay/0.2.0/hop";

/// Something that happened in the network.
pub enum NetworkEvent {
    /// A connection to a peer was made.
    ConnectionEstablished { peer: PeerId },
    /// An address of ours is no longer good.
    ExternalAddrExpired,
    /// A connection to a peer could not be made.
    OutgoingConnectionError { peer: PeerId, error: String },
    /// Peers were found in the local network.
    PeersDiscovered { found: Vec<(PeerId, String)> },
    /// Peers in the local network are gone.
    PeersExpired { gone: Vec<PeerId> },
    /// A message came; `via` is the peer that handed it on.
    Message { source: Option<PeerId>, via: PeerId, content: Gossip },
    /// A peer listens to a topic.
    Subscribed { peer: PeerId, topic: String },
    /// A peer answered what it knows; `None` if it would not.
    ExchangeAnswered { answer: Option<DirectPeerInfoResponse> },
    /// Missing blocks came, with the difficulties that they reached; `None` if the peer has none.
    MissingAnswered {
        request_id: u64,
        missing: Option<(SyncMissingBlocksResponse, Vec<Option<Difficulty>>)>,
    },
    /// A request for missing blocks failed; `closed` if only the connection was closed.
    MissingFailed { peer: PeerId, request_id: u64, closed: bool, error: String },
    /// Blocks came from a peer that we catch up with; `None` if it would not send any.
    CatchUpAnswered { request_id: u64, caught: Option<(CatchUpSyncResponse, Vec<Option<Difficulty>>)> },
    /// A request to a peer that we catch up with failed; `closed` if only the connection was closed.
    CatchUpFailed { peer: PeerId, request_id: u64, closed: bool, error: String },
    /// A peer told which protocols it speaks and where it listens.
    Identified { peer: PeerId, protocols: Vec<String>, listen_addrs: Vec<String> },
    /// We found out that others cannot reach us.
    BehindNat,
    /// A peer answered a ping.
    Pinged { peer: PeerId },
    /// A peer was told of by another one.
    PeerTold { info: PeerInfo },
    /// An address of a peer that relays was found.
    RelayFound { peer: PeerId, address: String },
}

/// What a node does about an event.
pub struct Reaction {
    /// What the network is to do.
    pub actions: Vec<Action>,
    /// What becomes of a message.
    pub acceptance: Option<MessageAcceptance>,
}

impl ServiceView {
    /// The addresses of peers that were found.
    pub open spec fn found(peers: Seq<(PeerId, String)>) -> Seq<ActionView> {
        peers.map_values(
            |p: (PeerId, String)| ActionView::AddAddresses { peer: p.0@, addresses: seq![p.1@] },
        )
    }

    /// Peers that are gone get messages no longer in any case.
    pub open spec fn gone(peers: Seq<PeerId>) -> Seq<ActionView> {
        peers.map_values(|p: PeerId| ActionView::RemoveExplicitPeer(p@))
    }

    /// Puts a peer on the grey list.
    pub open spec fn greyed(self, peer: Seq<char>, reason: Seq<char>) -> ServiceView {
        ServiceView { store: self.store.greyed(peer, reason), ..self }
    }

    /// The times at which blocks of a trusted peer were last asked for are forgotten.
    pub open spec fn attempts_forgotten(self, peer: Seq<char>) -> ServiceView {
        ServiceView {
            store: StoreView {
                white: StoreView::changed(
                    self.store.white,
                    peer,
                    RecordView {
                        last_rx_sync_attempt: None,
                        last_sha3x_sync_attempt: None,
                        ..self.store.white[peer]
                    },
                ),
                ..self.store
            },
            ..self
        }
    }

    /// Of the first `n` addresses of a relay, those that name a peer, each to be learned in its turn.
    pub open spec fn relay_told(peer: Seq<char>, addresses: Seq<Seq<char>>, n: int) -> Seq<ActionView>
        decreases n,
    {
        if n <= 0 {
            Seq::empty()
        } else {
            let actions = ServiceView::relay_told(peer, addresses, n - 1);
            let address = addresses[n - 1];
            let usable = crate::server::p2p::addresses::address_parts(address) matches Some(parts)
                && crate::server::p2p::addresses::names_peer(parts);
            if usable {
                actions.push(ActionView::LearnRelay { peer, address })
            } else {
                actions
            }
        }
    }

    /// Learns an address of a relay. If it is new, a relay is looked for.
    pub open spec fn relay_found(self, peer: Seq<char>, address: Seq<char>) -> (ServiceView, Seq<ActionView>) {
        if self.relays.knows(peer, address) {
            (self, Seq::empty())
        } else {
            (ServiceView { relays: self.relays.learned(peer, address), ..self }, seq![ActionView::ReserveRelay])
        }
    }

    /// What follows when a peer told which protocols it speaks. A peer that does not speak ours is left; the
    /// addresses of one that relays are learned next.
    pub open spec fn identified(self, peer: Seq<char>, protocols: Seq<Seq<char>>, addresses: Seq<Seq<char>>) -> Seq<
        ActionView,
    > {
        if peer == self.local || self.config.is_seed_peer {
            Seq::empty()
        } else {
            let left = if protocols.contains(CATCH_UP_SYNC_REQUEST_RESPONSE_PROTOCOL@) {
                Seq::empty()
            } else {
                seq![ActionView::Disconnect(peer)]
            };
            if protocols.contains(RELAY_HOP_PROTOCOL@) {
                left + ServiceView::relay_told(peer, addresses, addresses.len() as int)
            } else {
                left
            }
        }
    }

    /// What becomes of a message. One without a source or on a topic that we do not know is rejected.
    #[verifier::opaque]
    pub open spec fn message_heard(
        self,
        source: Option<PeerId>,
        via: Seq<char>,
        content: Gossip,
        clock: Clock,
        fuel: nat,
    ) -> Option<(ServiceView, MessageAcceptance, Seq<ActionView>)> {
        match (source, content) {
            (None, _) => Some((self, MessageAcceptance::Reject, Seq::empty())),
            (Some(peer), Gossip::PeerInfo(Some(info))) => Some(self.info_heard(info@, peer@, clock)),
            (Some(_), Gossip::PeerInfo(None)) => Some((self, MessageAcceptance::Reject, Seq::empty())),
            (Some(_), Gossip::NewTip(Ok((notify, achieved)))) => self.tip_heard(
                TipNotice::of(notify, achieved@),
                via,
                clock,
                fuel,
            ),
            (Some(peer), Gossip::NewTip(Err(error))) => Some(
                (
                    self.greyed(peer@, "Node sent a block that could not be deserialized: "@ + error@),
                    MessageAcceptance::Reject,
                    Seq::empty(),
                ),
            ),
            (Some(_), Gossip::Unknown) => Some((self, MessageAcceptance::Reject, Seq::empty())),
        }
    }

    /// What follows when missing blocks came. Blocks that we did not ask for are not looked at.
    #[verifier::opaque]
    pub open spec fn missing_came(
        self,
        request_id: u64,
        missing: Option<(SyncMissingBlocksResponse, Vec<Option<Difficulty>>)>,
        fuel: nat,
    ) -> Option<(ServiceView, Seq<ActionView>)> {
        let noted = ServiceView { depths: self.depths.remove(request_id), ..self };
        match missing {
            Some((response, achieved)) => if !self.depths.dom().contains(request_id) {
                Some((noted, Seq::empty()))
            } else {
                noted.missing_answered(MissingAnswer::of(response, achieved@), self.depths[request_id], fuel)
            },
            None => Some((noted, Seq::empty())),
        }
    }

    /// What follows when blocks came from a peer that we catch up with.
    #[verifier::opaque]
    pub open spec fn caught_came(
        self,
        request_id: u64,
        caught: Option<(CatchUpSyncResponse, Vec<Option<Difficulty>>)>,
        fuel: nat,
    ) -> Option<(ServiceView, Seq<ActionView>)> {
        let (syncs, permit) = self.syncs.released(request_id);
        let noted = ServiceView { syncs, ..self };
        match caught {
            Some((response, achieved)) => noted.catch_up_answered(CatchUpAnswer::of(response, achieved@), permit, fuel),
            None => Some((noted.given_back(permit), Seq::empty())),
        }
    }

    /// What follows an event. `None` if `fuel` does not suffice to add blocks that came.
    pub open spec fn reacted(self, event: NetworkEvent, peer_info_topic: Seq<char>, clock: Clock, fuel: nat) -> Option<
        (ServiceView, Option<MessageAcceptance>, Seq<ActionView>),
    > {
        match event {
            NetworkEvent::ConnectionEstablished { peer } => Some((self, None, seq![ActionView::Exchange(peer@)])),
            NetworkEvent::ExternalAddrExpired => Some((self, None, seq![ActionView::ReserveRelay])),
            NetworkEvent::OutgoingConnectionError { peer, error } => Some(
                (self.greyed(peer@, "Outgoing connection error: "@ + error@), None, Seq::empty()),
            ),
            NetworkEvent::PeersDiscovered { found } => Some((self, None, ServiceView::found(found@))),
            NetworkEvent::PeersExpired { gone } => Some((self, None, ServiceView::gone(gone@))),
            NetworkEvent::Message { source, via, content } => match self.message_heard(
                source,
                via@,
                content,
                clock,
                fuel,
            ) {
                None => None,
                Some((next, acceptance, actions)) => Some((next, Some(acceptance), actions)),
            },
            NetworkEvent::Subscribed { peer, topic } => Some(
                (
                    self,
                    None,
                    if topic@ == peer_info_topic && !self.store.knows(peer@) {
                        seq![ActionView::Exchange(peer@)]
                    } else {
                        Seq::empty()
                    },
                ),
            ),
            NetworkEvent::ExchangeAnswered { answer: None } => Some((self, None, Seq::empty())),
            NetworkEvent::ExchangeAnswered { answer: Some(response) } => {
                let (next, actions) = self.exchange_answered(
                    response.peer_id@,
                    response.info@,
                    PeerInfo::views(response.best_peers@),
                    clock,
                );
                Some((next, None, actions))
            },
            NetworkEvent::MissingAnswered { request_id, missing } => match self.missing_came(request_id, missing, fuel) {
                None => None,
                Some((next, actions)) => Some((next, None, actions)),
            },
            NetworkEvent::MissingFailed { peer, request_id, closed, error } => {
                let noted = ServiceView { depths: self.depths.remove(request_id), ..self };
                Some(
                    (
                        if closed {
                            noted
                        } else {
                            noted.greyed(peer@, "ShareChainError during share chain sync:"@ + error@)
                        },
                        None,
                        Seq::empty(),
                    ),
                )
            },
            NetworkEvent::CatchUpAnswered { request_id, caught } => match self.caught_came(request_id, caught, fuel) {
                None => None,
                Some((next, actions)) => Some((next, None, actions)),
            },
            NetworkEvent::CatchUpFailed { peer, request_id, closed, error } => {
                let noted = ServiceView { syncs: self.syncs.failed(peer@, request_id), ..self };
                Some(
                    (
                        if closed {
                            noted.attempts_forgotten(peer@)
                        } else {
                            noted.greyed(peer@, "ShareChainError during catch up sync:"@ + error@)
                        },
                        None,
                        Seq::empty(),
                    ),
                )
            },
            NetworkEvent::Identified { peer, protocols, listen_addrs } => Some(
                (
                    self,
                    None,
                    self.identified(peer@, crate::text::texts(protocols@), crate::text::texts(listen_addrs@)),
                ),
            ),
            NetworkEvent::PeerTold { info } => {
                let (next, actions) = self.peer_told(info@, clock);
                Some((next, None, actions))
            },
            NetworkEvent::RelayFound { peer, address } => {
                let (next, actions) = self.relay_found(peer@, address@);
                Some((next, None, actions))
            },
            NetworkEvent::BehindNat => Some(
                (
                    self,
                    None,
                    if self.config.is_seed_peer {
                        Seq::empty()
                    } else {
                        seq![ActionView::ReserveRelay]
                    },
                ),
            ),
            NetworkEvent::Pinged { peer } => Some(
                (
                    ServiceView {
                        store: StoreView {
                            white: StoreView::changed(
                                self.store.white,
                                peer@,
                                RecordView { last_ping: Some(clock.epoch), ..self.store.white[peer@] },
                            ),
                            ..self.store
                        },
                        ..self
                    },
                    None,
                    Seq::empty(),
                ),
            ),
        }
    }
}

/// A reason that starts with a fixed text.
fn reason_with(start: &str, error: &str) -> (reason: String)
    ensures
        reason@ == start@ + error@,
{
    let mut reason = copy_text(start);
    reason.append(error);
    reason
}

impl Service {
    /// Main method to handle any message comes from gossipsub.
    pub fn handle_new_gossipsub_message(&mut self, source: Option<PeerId>, via: &PeerId, content: Gossip, clock: Clock) -> (
        result: (MessageAcceptance, Vec<Action>))
        requires
            old(self).wf(),
        ensures
            final(self).wf(),
            exists|fuel: nat| #[trigger]
                old(self)@.message_heard(source, via@, content, clock, fuel) == Some(
                    (final(self)@, result.0, Action::views(result.1@)),
                ),
    {
        reveal(ServiceView::message_heard);
        let ghost start = self@;
        let ghost heard = content;
        let source_peer = match source {
            Some(peer) => peer,
            None => {
                let actions = no_actions();
                assert(start.message_heard(source, via@, heard, clock, 0) == Some(
                    (self@, MessageAcceptance::Reject, Action::views(actions@)),
                ));
                return (MessageAcceptance::Reject, actions);
            },
        };
        match content {
            Gossip::PeerInfo(Some(payload)) => {
                let result = self.handle_peer_info(payload, &source_peer, clock);
                assert(start.message_heard(source, via@, heard, clock, 0) == Some(
                    (self@, result.0, Action::views(result.1@)),
                ));
                result
            },
            Gossip::NewTip(Ok((payload, achieved))) => {
                let result = self.handle_new_tip(payload, &achieved, via, clock);
                let ghost fuel = choose|fuel: nat| #[trigger]
                    start.tip_heard(TipNotice::of(payload, achieved@), via@, clock, fuel) == Some(
                        (self@, result.0, Action::views(result.1@)),
                    );
                assert(start.message_heard(source, via@, heard, clock, fuel) == Some(
                    (self@, result.0, Action::views(result.1@)),
                ));
                result
            },
            Gossip::NewTip(Err(error)) => {
                let reason = reason_with("Node sent a block that could not be deserialized: ", error.as_str());
                self.network_peer_store.move_to_grey_list(&source_peer, reason);
                let actions = no_actions();
                assert(start.message_heard(source, via@, heard, clock, 0) == Some(
                    (self@, MessageAcceptance::Reject, Action::views(actions@)),
                ));
                (MessageAcceptance::Reject, actions)
            },
            _ => {
                let actions = no_actions();
                assert(start.message_heard(source, via@, heard, clock, 0) == Some(
                    (self@, MessageAcceptance::Reject, Action::views(actions@)),
                ));
                (MessageAcceptance::Reject, actions)
            },
        }
    }

    /// Hears which protocols a peer speaks and where it listens.
    pub fn handle_peer_identified(&self, peer: &PeerId, protocols: &Vec<String>, listen_addrs: &Vec<String>) -> (actions:
        Vec<Action>)
        requires
            self.wf(),
        ensures
            Action::views(actions@) == self@.identified(
                peer@,
                crate::text::texts(protocols@),
                crate::text::texts(listen_addrs@),
            ),
    {
        let mut actions = no_actions();
        if peer.same(&self.local_peer_id) || self.config.is_seed_peer {
            return actions;
        }
        let is_relay = lists_text(protocols, &copy_text(RELAY_HOP_PROTOCOL));
        if !lists_text(protocols, &copy_text(CATCH_UP_SYNC_REQUEST_RESPONSE_PROTOCOL)) {
            push_action(&mut actions, Action::Disconnect(peer.clone()));
        }
        let ghost left = if crate::text::texts(protocols@).contains(CATCH_UP_SYNC_REQUEST_RESPONSE_PROTOCOL@) {
            Seq::empty()
        } else {
            seq![ActionView::Disconnect(peer@)]
        };
        assert(Action::views(actions@) =~= left);
        if !is_relay {
            return actions;
        }
        let ghost all = crate::text::texts(listen_addrs@);
        assert(left + Seq::<ActionView>::empty() =~= left);
        let mut i: usize = 0;
        while i < listen_addrs.len()
            invariant
                i <= listen_addrs@.len(),
                all == crate::text::texts(listen_addrs@),
                Action::views(actions@) == left + ServiceView::relay_told(peer@, all, i as int),
            decreases listen_addrs@.len() - i,
        {
            let ghost so_far = ServiceView::relay_told(peer@, all, i as int);
            assert(all[i as int] == listen_addrs@[i as int]@);
            if crate::server::p2p::addresses::is_p2p_address(listen_addrs[i].as_str()) {
                let ghost action = ActionView::LearnRelay { peer: peer@, address: all[i as int] };
                push_action(
                    &mut actions,
                    Action::LearnRelay { peer: peer.clone(), address: listen_addrs[i].clone() },
                );
                assert(left + so_far.push(action) =~= (left + so_far).push(action));
            }
            i = i + 1;
        }
        actions
    }

    /// Learns an address of a relay.
    fn learn_relay(&mut self, peer: PeerId, address: String) -> (actions: Vec<Action>)
        requires
            old(self).wf(),
        ensures
            final(self).wf(),
            (final(self)@, Action::views(actions@)) == old(self)@.relay_found(peer@, address@),
    {
        let mut actions = no_actions();
        if self.relay_store.add_possible_relay(peer, address) {
            push_action(&mut actions, Action::ReserveRelay);
            assert(Action::views(actions@) =~= seq![ActionView::ReserveRelay]);
        }
        actions
    }

    /// Missing blocks came.
    fn hear_missing(
        &mut self,
        request_id: u64,
        missing: Option<(SyncMissingBlocksResponse, Vec<Option<Difficulty>>)>,
    ) -> (actions: Vec<Action>)
        requires
            old(self).wf(),
        ensures
            final(self).wf(),
            exists|fuel: nat| #[trigger]
                old(self)@.missing_came(request_id, missing, fuel) == Some((final(self)@, Action::views(actions@))),
    {
        reveal(ServiceView::missing_came);
        let ghost start = self@;
        let depth = self.take_missing_depth(request_id);
        let ghost noted = self@;
        match (missing, depth) {
            (Some((response, achieved)), Some(depth)) => {
                let actions = self.handle_sync_missing_blocks_response(response, &achieved, depth);
                let ghost fuel = choose|fuel: nat| #[trigger]
                    noted.missing_answered(MissingAnswer::of(response, achieved@), depth, fuel) == Some(
                        (self@, Action::views(actions@)),
                    );
                assert(start.missing_came(request_id, missing, fuel) == Some((self@, Action::views(actions@))));
                actions
            },
            _ => {
                let actions = no_actions();
                assert(start.missing_came(request_id, missing, 0) == Some((self@, Action::views(actions@))));
                actions
            },
        }
    }

    /// Blocks came from a peer that we catch up with.
    fn hear_caught(&mut self, request_id: u64, caught: Option<(CatchUpSyncResponse, Vec<Option<Difficulty>>)>) -> (actions:
        Vec<Action>)
        requires
            old(self).wf(),
        ensures
            final(self).wf(),
            exists|fuel: nat| #[trigger]
                old(self)@.caught_came(request_id, caught, fuel) == Some((final(self)@, Action::views(actions@))),
    {
        reveal(ServiceView::caught_came);
        let ghost start = self@;
        let permit = self.syncs.release_catchup_sync_permit(request_id);
        let ghost noted = self@;
        match caught {
            Some((response, achieved)) => {
                let actions = self.handle_catch_up_sync_response(response, &achieved, permit);
                let ghost fuel = choose|fuel: nat| #[trigger]
                    noted.catch_up_answered(CatchUpAnswer::of(response, achieved@), permit, fuel) == Some(
                        (self@, Action::views(actions@)),
                    );
                assert(start.caught_came(request_id, caught, fuel) == Some((self@, Action::views(actions@))));
                actions
            },
            None => {
                self.syncs.give_back(permit);
                let actions = no_actions();
                assert(start.caught_came(request_id, caught, 0) == Some((self@, Action::views(actions@))));
                actions
            },
        }
    }

    /// Main method to handle libp2p events.
    pub fn handle_event(&mut self, event: NetworkEvent, topics: &Topics, clock: Clock) -> (reaction: Reaction)
        requires
            old(self).wf(),
        ensures
            final(self).wf(),
            exists|fuel: nat| #[trigger]
                old(self)@.reacted(
                    event,
                    Topics::squad_name(
                        topics.network@,
                        topics.chain_id@,
                        old(self)@.config.squad@,
                        PEER_INFO_TOPIC@,
                    ),
                    clock,
                    fuel,
                ) == Some((final(self)@, reaction.acceptance, Action::views(reaction.actions@))),
    {
        let ghost start = self@;
        let ghost happened = event;
        let ghost topic_name = Topics::squad_name(
            topics.network@,
            topics.chain_id@,
            start.config.squad@,
            PEER_INFO_TOPIC@,
        );
        let mut acceptance: Option<MessageAcceptance> = None;
        let mut actions = no_actions();
        let ghost mut spent: nat = 0;
        match event {
            NetworkEvent::ConnectionEstablished { peer } => {
                push_action(&mut actions, Action::Exchange(peer));
                assert(Action::views(actions@) =~= seq![ActionView::Exchange(peer@)]);
            },
            NetworkEvent::ExternalAddrExpired => {
                push_action(&mut actions, Action::ReserveRelay);
                assert(Action::views(actions@) =~= seq![ActionView::ReserveRelay]);
            },
            NetworkEvent::OutgoingConnectionError { peer, error } => {
                self.network_peer_store.move_to_grey_list(
                    &peer,
                    reason_with("Outgoing connection error: ", error.as_str()),
                );
            },
            NetworkEvent::PeersDiscovered { found } => {
                actions = Service::note_found(&found);
            },
            NetworkEvent::PeersExpired { gone } => {
                actions = Service::note_gone(&gone);
            },
            NetworkEvent::Message { source, via, content } => {
                let (verdict, wanted) = self.handle_new_gossipsub_message(source, &via, content, clock);
                proof {
                    spent = choose|fuel: nat| #[trigger]
                        start.message_heard(source, via@, content, clock, fuel) == Some(
                            (self@, verdict, Action::views(wanted@)),
                        );
                }
                acceptance = Some(verdict);
                actions = wanted;
            },
            NetworkEvent::Subscribed { peer, topic } => {
                if topic == topics.squad_topic(&self.config.squad, PEER_INFO_TOPIC) && !self.network_peer_store.is_known(
                    &peer,
                ) {
                    push_action(&mut actions, Action::Exchange(peer));
                    assert(Action::views(actions@) =~= seq![ActionView::Exchange(peer@)]);
                }
            },
            NetworkEvent::ExchangeAnswered { answer } => {
                match answer {
                    Some(response) => {
                        actions = self.handle_direct_peer_exchange_response(response, clock);
                    },
                    None => {},
                }
            },
            NetworkEvent::MissingAnswered { request_id, missing } => {
                actions = self.hear_missing(request_id, missing);
                proof {
                    spent = choose|fuel: nat| #[trigger]
                        start.missing_came(request_id, missing, fuel) == Some((self@, Action::views(actions@)));
                }
            },
            NetworkEvent::MissingFailed { peer, request_id, closed, error } => {
                self.take_missing_depth(request_id);
                if !closed {
                    self.network_peer_store.move_to_grey_list(
                        &peer,
                        reason_with("ShareChainError during share chain sync:", error.as_str()),
                    );
                }
            },
            NetworkEvent::CatchUpAnswered { request_id, caught } => {
                actions = self.hear_caught(request_id, caught);
                proof {
                    spent = choose|fuel: nat| #[trigger]
                        start.caught_came(request_id, caught, fuel) == Some((self@, Action::views(actions@)));
                }
            },
            NetworkEvent::CatchUpFailed { peer, request_id, closed, error } => {
                self.syncs.forget_failed(&peer, request_id);
                if closed {
                    self.network_peer_store.reset_last_sync_attempt(&peer);
                } else {
                    self.network_peer_store.move_to_grey_list(
                        &peer,
                        reason_with("ShareChainError during catch up sync:", error.as_str()),
                    );
                }
            },
            NetworkEvent::Identified { peer, protocols, listen_addrs } => {
                actions = self.handle_peer_identified(&peer, &protocols, &listen_addrs);
            },
            NetworkEvent::PeerTold { info } => {
                actions = self.learn_peer(info, clock);
            },
            NetworkEvent::RelayFound { peer, address } => {
                actions = self.learn_relay(peer, address);
            },
            NetworkEvent::BehindNat => {
                if !self.config.is_seed_peer {
                    push_action(&mut actions, Action::ReserveRelay);
                    assert(Action::views(actions@) =~= seq![ActionView::ReserveRelay]);
                }
            },
            NetworkEvent::Pinged { peer } => {
                self.network_peer_store.set_last_ping(&peer, clock.epoch);
            },
        }
        assert(start.reacted(happened, topic_name, clock, spent) == Some(
            (self@, acceptance, Action::views(actions@)),
        ));
        Reaction { actions, acceptance }
    }

    /// The addresses of peers that were found.
    fn note_found(peers: &Vec<(PeerId, String)>) -> (actions: Vec<Action>)
        ensures
            Action::views(actions@) == ServiceView::found(peers@),
    {
        let mut actions = no_actions();
        let mut i: usize = 0;
        while i < peers.len()
            invariant
                i <= peers@.len(),
                Action::views(actions@) == ServiceView::found(peers@).take(i as int),
            decreases peers@.len() - i,
        {
            let mut addresses: Vec<String> = Vec::new();
            addresses.push(peers[i].1.clone());
            assert(crate::text::texts(addresses@) =~= seq![peers@[i as int].1@]);
            push_action(&mut actions, Action::AddAddresses { peer: peers[i].0.clone(), addresses });
            i = i + 1;
            assert(Action::views(actions@) =~= ServiceView::found(peers@).take(i as int));
        }
        assert(ServiceView::found(peers@).take(peers@.len() as int) =~= ServiceView::found(peers@));
        actions
    }

    /// Peers that are gone.
    fn note_gone(peers: &Vec<PeerId>) -> (actions: Vec<Action>)
        ensures
            Action::views(actions@) == ServiceView::gone(peers@),
    {
        let mut actions = no_actions();
        let mut i: usize = 0;
        while i < peers.len()
            invariant
                i <= peers@.len(),
                Action::views(actions@) == ServiceView::gone(peers@).take(i as int),
            decreases peers@.len() - i,
        {
            push_action(&mut actions, Action::RemoveExplicitPeer(peers[i].clone()));
            i = i + 1;
            assert(Action::views(actions@) =~= ServiceView::gone(peers@).take(i as int));
        }
        assert(ServiceView::gone(peers@).take(peers@.len() as int) =~= ServiceView::gone(peers@));
        actions
    }
}

/// A peer that is put on the grey list by an event is a trusted one, and no event puts a peer on the white list that
/// is on the black one: only clearing the black list does that.
pub proof fn law_failures_only_grey_trusted_peers(node: ServiceView, peer: Seq<char>, reason: Seq<char>)
    ensures
        node.greyed(peer, reason).store.black == node.store.black,
        !node.store.white.dom().contains(peer) ==> node.greyed(peer, reason) == node,
        node.store.white.dom().contains(peer) ==> !node.greyed(peer, reason).store.white.dom().contains(peer)
            && node.greyed(peer, reason).store.grey.dom().contains(peer),
{
}

}
