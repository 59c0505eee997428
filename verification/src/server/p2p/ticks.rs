//! What a node does from time to time, and what it answers when it is asked about itself.
use crate::server::p2p::messages::{PeerInfo, PeerInfoView};
use crate::server::p2p::network::{no_actions, push_action, Action, ActionView, ENOUGH_CONNECTIONS, MAX_DIALS};
use crate::server::p2p::peer_id::PeerId;
use crate::server::p2p::peer_map::{PeerMap, PeerStoreRecord, RecordView};
use crate::server::p2p::peer_store::StoreView;
use crate::server::p2p::service::{Service, ServiceView};
use crate::sharechain::p2block::P2Block;
use crate::text::copy_opt_text;
use crate::types::PowAlgorithm;
use std::sync::Arc;
use vstd::prelude::*;

verus! {

/// A peer, as it is shown to users.
pub struct ConnectedPeerInfo {
    /// The peer.
    pub peer_id: String,
    /// What it told about itself.
    pub peer_info: PeerInfo,
    /// Why it was last put on the grey list.
    pub last_grey_list_reason: Option<String>,
    /// When it last answered a ping.
    pub last_ping: Option<u64>,
}

/// What a [`ConnectedPeerInfo`] holds.
#[verifier::ext_equal]
pub struct ShownView {
    pub peer_info: PeerInfoView,
    pub last_grey_list_reason: Option<Seq<char>>,
    pub last_ping: Option<u64>,
}

impl View for ConnectedPeerInfo {
    type V = (Seq<char>, ShownView);

    open spec fn view(&self) -> (Seq<char>, ShownView) {
        (
            self.peer_id@,
            ShownView {
                peer_info: self.peer_info@,
                last_grey_list_reason: crate::text::opt_text(self.last_grey_list_reason),
                last_ping: self.last_ping,
            },
        )
    }
}

impl ShownView {
    /// What is shown of a record.
    pub open spec fn of(record: RecordView) -> ShownView {
        ShownView {
            peer_info: record.peer_info,
            last_grey_list_reason: record.last_grey_list_reason,
            last_ping: record.last_ping,
        }
    }

    /// What is shown of the records of a map.
    pub open spec fn all(records: Map<Seq<char>, RecordView>) -> Map<Seq<char>, ShownView> {
        records.map_values(|r: RecordView| ShownView::of(r))
    }
}

impl ConnectedPeerInfo {
    /// What some peers show.
    pub open spec fn views(list: Seq<ConnectedPeerInfo>) -> Seq<(Seq<char>, ShownView)> {
        list.map_values(|i: ConnectedPeerInfo| i@)
    }

    /// What is shown of a record.
    pub fn of_record(record: &PeerStoreRecord) -> (info: ConnectedPeerInfo)
        ensures
            info@ == (record@.peer_id, ShownView::of(record@)),
    {
        ConnectedPeerInfo {
            peer_id: record.peer_id.to_base58(),
            peer_info: record.peer_info.clone(),
            last_grey_list_reason: copy_opt_text(&record.last_grey_list_reason),
            last_ping: record.last_ping,
        }
    }
}

impl PeerMap {
    /// What is shown of all peers.
    pub fn shown(&self) -> (list: Vec<ConnectedPeerInfo>)
        requires
            self.wf(),
        ensures
            crate::assoc::distinct_keys(ConnectedPeerInfo::views(list@)),
            crate::assoc::map_of(ConnectedPeerInfo::views(list@)) == ShownView::all(self@),
    {
        let ghost all = self.list();
        let mut list: Vec<ConnectedPeerInfo> = Vec::new();
        let mut i: usize = 0;
        while i < self.records.len()
            invariant
                i <= self.records@.len(),
                all == self.list(),
                list@.len() == i,
                forall|j: int|
                    0 <= j < i ==> (#[trigger] ConnectedPeerInfo::views(list@)[j]) == (
                        all[j].0,
                        ShownView::of(all[j].1),
                    ),
            decreases self.records@.len() - i,
        {
            let ghost before = ConnectedPeerInfo::views(list@);
            assert(all[i as int] == (self.records@[i as int].peer_id@, self.records@[i as int]@));
            list.push(ConnectedPeerInfo::of_record(&self.records[i]));
            i = i + 1;
            assert(ConnectedPeerInfo::views(list@) =~= before.push((all[i - 1].0, ShownView::of(all[i - 1].1))));
        }
        proof {
            let shown = ConnectedPeerInfo::views(list@);
            assert forall|a: int, b: int|
                0 <= a < shown.len() && 0 <= b < shown.len() && (#[trigger] shown[a]).0 == (
                #[trigger] shown[b]).0 implies a == b by {
                assert(all[a].0 == all[b].0);
            }
            let target = ShownView::all(self@);
            assert forall|k: Seq<char>| crate::assoc::map_of(shown).dom().contains(k) <==> #[trigger]
                target.dom().contains(k) by {
                if crate::assoc::map_of(shown).dom().contains(k) {
                    let j = crate::assoc::key_index(shown, k);
                    crate::assoc::lemma_key_at(all, j);
                }
                if target.dom().contains(k) {
                    let j = crate::assoc::key_index(all, k);
                    assert(shown[j].0 == k);
                    crate::assoc::lemma_key_at(shown, j);
                }
            }
            assert forall|k: Seq<char>| #[trigger] target.dom().contains(k) implies crate::assoc::map_of(shown)[k]
                == target[k] by {
                let j = crate::assoc::key_index(all, k);
                crate::assoc::lemma_key_at(all, j);
                assert(shown[j].0 == k);
                crate::assoc::lemma_key_at(shown, j);
            }
            assert(crate::assoc::map_of(shown) =~= target);
        }
        list
    }
}

impl ServiceView {
    /// Whether a trusted peer is dialed: it is not connected, and it is no seed peer unless nobody is connected.
    pub open spec fn dials(self, peer: Seq<char>, connected: Seq<Seq<char>>, alone: bool) -> bool {
        self.store.white.dom().contains(peer) && !connected.contains(peer) && (alone || !self.store.seeds.contains(
            peer,
        ))
    }

    /// What is shown of the first `n` connected peers, of those that we know.
    pub open spec fn connections(self, connected: Seq<Seq<char>>, n: int) -> Seq<(Seq<char>, ShownView)>
        decreases n,
    {
        if n <= 0 {
            Seq::empty()
        } else {
            let before = self.connections(connected, n - 1);
            let peer = connected[n - 1];
            if self.store.white.dom().contains(peer) {
                before.push((peer, ShownView::of(self.store.white[peer])))
            } else if self.store.grey.dom().contains(peer) {
                before.push((peer, ShownView::of(self.store.grey[peer])))
            } else {
                before
            }
        }
    }

    /// The first `n` seed peers are learned and dialed.
    pub open spec fn joined(seeds: Seq<(PeerId, String)>, n: int) -> Seq<ActionView>
        decreases n,
    {
        if n <= 0 {
            Seq::empty()
        } else {
            ServiceView::joined(seeds, n - 1) + seq![
                ActionView::AddAddresses { peer: seeds[n - 1].0@, addresses: seq![seeds[n - 1].1@] },
                ActionView::Dial(seeds[n - 1].0@),
            ]
        }
    }

    /// The names of some seed peers.
    pub open spec fn seed_names(seeds: Seq<(PeerId, String)>) -> Seq<Seq<char>> {
        seeds.map_values(|s: (PeerId, String)| s.0@)
    }
}

impl Service {
    /// Which peers to dial. A seed peer dials nobody, and neither does a node with enough connections.
    pub fn seek_connections(&self, connected: &Vec<PeerId>, established_incoming: u32, established_outgoing: u32) -> (peers:
        Vec<PeerId>)
        requires
            self.wf(),
        ensures
            self@.config.is_seed_peer || established_incoming + established_outgoing > ENOUGH_CONNECTIONS
                ==> peers@.len() == 0,
            !self@.config.is_seed_peer && established_incoming + established_outgoing <= ENOUGH_CONNECTIONS ==> {
                let names = PeerId::names(connected@);
                let alone = established_incoming + established_outgoing == 0;
                &&& peers@.len() <= MAX_DIALS + 1
                &&& forall|i: int|
                    0 <= i < peers@.len() ==> self@.dials((#[trigger] PeerId::names(peers@)[i]), names, alone)
                &&& forall|i: int, j: int|
                    0 <= i < j < peers@.len() ==> (#[trigger] PeerId::names(peers@)[i]) != (#[trigger] PeerId::names(
                        peers@,
                    )[j])
                &&& peers@.len() <= MAX_DIALS ==> forall|k: Seq<char>| #[trigger]
                    self@.dials(k, names, alone) ==> PeerId::names(peers@).contains(k)
            },
    {
        let mut peers: Vec<PeerId> = Vec::new();
        if self.config.is_seed_peer {
            return peers;
        }
        let num_connections: u64 = established_incoming as u64 + established_outgoing as u64;
        if num_connections > ENOUGH_CONNECTIONS as u64 {
            return peers;
        }
        let ghost names = PeerId::names(connected@);
        let ghost alone = num_connections == 0;
        let ghost list = self.network_peer_store.whitelist_peers.list();
        // Where in the list the dialed peers are.
        let ghost mut places: Seq<int> = Seq::empty();
        let mut i: usize = 0;
        while i < self.network_peer_store.whitelist_peers.records.len() && peers.len() <= MAX_DIALS
            invariant
                i <= self.network_peer_store.whitelist_peers.records@.len(),
                self.wf(),
                names == PeerId::names(connected@),
                alone == (num_connections == 0),
                list == self.network_peer_store.whitelist_peers.list(),
                peers@.len() <= MAX_DIALS + 1,
                places.len() == peers@.len(),
                forall|k: int|
                    0 <= k < places.len() ==> 0 <= (#[trigger] places[k]) < i && PeerId::names(peers@)[k]
                        == list[places[k]].0 && self@.dials(list[places[k]].0, names, alone),
                forall|a: int, b: int| 0 <= a < b < places.len() ==> (#[trigger] places[a]) < (#[trigger] places[b]),
                forall|m: int|
                    0 <= m < i && self@.dials((#[trigger] list[m]).0, names, alone) ==> places.contains(m),
            decreases self.network_peer_store.whitelist_peers.records@.len() - i,
        {
            let record = &self.network_peer_store.whitelist_peers.records[i];
            assert(list[i as int].0 == record.peer_id@);
            proof {
                crate::assoc::lemma_key_at(list, i as int);
            }
            // Only dial seed peers if we have 0 connections
            if !record.peer_id.is_in(connected) && (num_connections == 0 || !self.network_peer_store.is_seed_peer(
                &record.peer_id,
            )) {
                let ghost before = PeerId::names(peers@);
                let ghost held = places;
                peers.push(record.peer_id.clone());
                proof {
                    places = held.push(i as int);
                    assert(PeerId::names(peers@) =~= before.push(list[i as int].0));
                    assert forall|m: int|
                        0 <= m < i + 1 && self@.dials((#[trigger] list[m]).0, names, alone) implies places.contains(
                        m,
                    ) by {
                        if m < i {
                            let at = held.index_of(m);
                            assert(places[at] == m);
                        } else {
                            assert(places[held.len() as int] == m);
                        }
                    }
                }
            }
            i = i + 1;
        }
        proof {
            assert forall|a: int, b: int| 0 <= a < b < peers@.len() implies (#[trigger] PeerId::names(peers@)[a]) != (
            #[trigger] PeerId::names(peers@)[b]) by {
                assert(places[a] < places[b]);
                assert(list[places[a]].0 != list[places[b]].0);
            }
            assert forall|a: int| 0 <= a < peers@.len() implies self@.dials(
                #[trigger] PeerId::names(peers@)[a],
                names,
                alone,
            ) by {
                assert(0 <= places[a]);
            }
            if peers@.len() <= MAX_DIALS {
                assert forall|k: Seq<char>| #[trigger] self@.dials(k, names, alone) implies PeerId::names(
                    peers@,
                ).contains(k) by {
                    let m = crate::assoc::key_index(list, k);
                    assert(list[m].0 == k);
                    assert(places.contains(m));
                    let at = places.index_of(m);
                    assert(PeerId::names(peers@)[at] == k);
                }
            }
        }
        peers
    }

    /// Which of the connected peers are asked for their heights: all of them, if the node syncs on its own.
    pub fn peers_to_exchange_heights_with(&self, connected: &Vec<PeerId>) -> (peers: Vec<PeerId>)
        ensures
            PeerId::names(peers@) == (if !self@.config.is_seed_peer && self@.config.sync_job_enabled {
                PeerId::names(connected@)
            } else {
                Seq::empty()
            }),
    {
        let mut peers: Vec<PeerId> = Vec::new();
        assert(PeerId::names(peers@) =~= Seq::empty());
        if self.config.is_seed_peer || !self.config.sync_job_enabled {
            return peers;
        }
        let mut i: usize = 0;
        while i < connected.len()
            invariant
                i <= connected@.len(),
                PeerId::names(peers@) == PeerId::names(connected@).take(i as int),
            decreases connected@.len() - i,
        {
            let ghost before = PeerId::names(peers@);
            peers.push(connected[i].clone());
            i = i + 1;
            assert(PeerId::names(peers@) =~= before.push(PeerId::names(connected@)[i - 1]));
            assert(PeerId::names(peers@) =~= PeerId::names(connected@).take(i as int));
        }
        assert(PeerId::names(peers@) =~= PeerId::names(connected@));
        peers
    }

    /// The trusted peers and those on the grey list.
    pub fn list_peers(&self) -> (lists: (Vec<ConnectedPeerInfo>, Vec<ConnectedPeerInfo>))
        requires
            self.wf(),
        ensures
            crate::assoc::distinct_keys(ConnectedPeerInfo::views(lists.0@)),
            crate::assoc::map_of(ConnectedPeerInfo::views(lists.0@)) == ShownView::all(self@.store.white),
            crate::assoc::distinct_keys(ConnectedPeerInfo::views(lists.1@)),
            crate::assoc::map_of(ConnectedPeerInfo::views(lists.1@)) == ShownView::all(self@.store.grey),
    {
        (self.network_peer_store.whitelist_peers.shown(), self.network_peer_store.greylist_peers.shown())
    }

    /// The connected peers, of those that we know.
    pub fn list_connections(&self, connected: &Vec<PeerId>) -> (list: Vec<ConnectedPeerInfo>)
        requires
            self.wf(),
        ensures
            ConnectedPeerInfo::views(list@) == self@.connections(
                PeerId::names(connected@),
                connected@.len() as int,
            ),
    {
        let ghost names = PeerId::names(connected@);
        let mut list: Vec<ConnectedPeerInfo> = Vec::new();
        assert(ConnectedPeerInfo::views(list@) =~= Seq::empty());
        let mut i: usize = 0;
        while i < connected.len()
            invariant
                i <= connected@.len(),
                self.wf(),
                names == PeerId::names(connected@),
                ConnectedPeerInfo::views(list@) == self@.connections(names, i as int),
            decreases connected@.len() - i,
        {
            assert(names[i as int] == connected@[i as int]@);
            let ghost before = ConnectedPeerInfo::views(list@);
            match self.network_peer_store.get(&connected[i]) {
                Some(record) => {
                    let ghost view = record@;
                    let mut info = ConnectedPeerInfo::of_record(record);
                    info.peer_id = connected[i].to_base58();
                    list.push(info);
                    assert(ConnectedPeerInfo::views(list@) =~= before.push((names[i as int], ShownView::of(view))));
                },
                None => {},
            }
            i = i + 1;
        }
        list
    }

    /// A page of the main chain from a height on.
    pub fn list_blocks(&self, algo: PowAlgorithm, height: u64, count: usize) -> (blocks: Vec<Arc<P2Block>>)
        requires
            self.wf(),
        ensures
            crate::sharechain::in_memory::views(blocks@) == self@.chain(algo).chain.page(
                height as int,
                count as int,
                true,
            ),
    {
        match algo {
            PowAlgorithm::RandomX => self.share_chain_random_x.all_blocks(Some(height), count, true),
            PowAlgorithm::Sha3x => self.share_chain_sha3x.all_blocks(Some(height), count, true),
        }
    }

    /// Learns and dials the seed peers.
    pub fn join_seed_peers(&mut self, seeds: &Vec<(PeerId, String)>) -> (actions: Vec<Action>)
        requires
            old(self).wf(),
        ensures
            final(self).wf(),
            final(self)@ == (ServiceView {
                store: StoreView {
                    seeds: old(self)@.store.seeds + ServiceView::seed_names(seeds@),
                    ..old(self)@.store
                },
                ..old(self)@
            }),
            Action::views(actions@) == ServiceView::joined(seeds@, seeds@.len() as int),
    {
        let ghost start = self@;
        let ghost names = ServiceView::seed_names(seeds@);
        let mut actions = no_actions();
        assert(start.store.seeds + names.take(0) =~= start.store.seeds);
        let mut i: usize = 0;
        while i < seeds.len()
            invariant
                i <= seeds@.len(),
                self.wf(),
                names == ServiceView::seed_names(seeds@),
                self@ == (ServiceView {
                    store: StoreView { seeds: start.store.seeds + names.take(i as int), ..start.store },
                    ..start
                }),
                Action::views(actions@) == ServiceView::joined(seeds@, i as int),
            decreases seeds@.len() - i,
        {
            let ghost before = Action::views(actions@);
            let mut addresses: Vec<String> = Vec::new();
            addresses.push(seeds[i].1.clone());
            assert(crate::text::texts(addresses@) =~= seq![seeds@[i as int].1@]);
            push_action(&mut actions, Action::AddAddresses { peer: seeds[i].0.clone(), addresses });
            push_action(&mut actions, Action::Dial(seeds[i].0.clone()));
            self.network_peer_store.add_seed_peer(seeds[i].0.clone());
            i = i + 1;
            proof {
                assert(Action::views(actions@) =~= before + seq![
                    ActionView::AddAddresses { peer: seeds@[i - 1].0@, addresses: seq![seeds@[i - 1].1@] },
                    ActionView::Dial(seeds@[i - 1].0@),
                ]);
                assert((start.store.seeds + names.take(i - 1)).push(names[i - 1]) =~= start.store.seeds + names.take(
                    i as int,
                ));
            }
        }
        assert(names.take(seeds@.len() as int) =~= names);
        actions
    }
}

/// Peers that are connected are not dialed again, and a seed peer is dialed only by a node without connections.
pub proof fn law_dialing_is_careful(node: ServiceView, peer: Seq<char>, connected: Seq<Seq<char>>, alone: bool)
    requires
        node.dials(peer, connected, alone),
    ensures
        !connected.contains(peer),
        node.store.seeds.contains(peer) ==> alone,
        node.store.white.dom().contains(peer),
{
}

}
