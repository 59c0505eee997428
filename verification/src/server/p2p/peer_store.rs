//! All peers that a node knows, and how much it trusts them.
use crate::server::p2p::messages::{PeerInfo, PeerInfoView};
use crate::server::p2p::peer_id::PeerId;
use crate::server::p2p::peer_map::{PeerMap, PeerStoreRecord, RecordView};
use crate::types::PowAlgorithm;
use vstd::prelude::*;

verus! {

/// A peer that was put on the grey list this often goes to the black list.
pub const MAX_GREY_LISTINGS: u64 = 5;


/// Settings of the peer store.
#[derive(Clone, Copy)]
pub struct PeerStoreConfig {
    /// How long a record is kept, in seconds.
    pub peer_record_ttl: u64,
}

impl Default for PeerStoreConfig {
    fn default() -> (config: Self)
        ensures
            config.peer_record_ttl == 3600,
    {
        PeerStoreConfig { peer_record_ttl: 3600 }
    }
}

/// What became of a peer that was added.
#[derive(Clone, Copy, PartialEq, Eq, Structural, Debug)]
pub enum AddPeerStatus {
    /// The peer was not known.
    NewPeer,
    /// The peer was known, and its record is up to date now.
    Existing,
    /// The peer is on the black list.
    Blacklisted,
    /// The peer is on the grey list.
    Greylisted,
}

/// A peer store, which stores all the known peers (from broadcasted [`PeerInfo`] messages) in-memory.
pub struct PeerStore {
    /// Peers that are trusted.
    pub whitelist_peers: PeerMap,
    /// Peers that are left alone for a while.
    pub greylist_peers: PeerMap,
    /// Peers that are shunned.
    pub blacklist_peers: PeerMap,
    /// Peers by which a node finds others.
    pub seed_peers: Vec<PeerId>,
}

/// What a [`PeerStore`] holds.
pub struct StoreView {
    pub white: Map<Seq<char>, RecordView>,
    pub grey: Map<Seq<char>, RecordView>,
    pub black: Map<Seq<char>, RecordView>,
    pub seeds: Seq<Seq<char>>,
}

impl View for PeerStore {
    type V = StoreView;

    open spec fn view(&self) -> StoreView {
        StoreView {
            white: self.whitelist_peers@,
            grey: self.greylist_peers@,
            black: self.blacklist_peers@,
            seeds: PeerId::names(self.seed_peers@),
        }
    }
}

impl StoreView {
    /// The map with a change to one peer's record, if the peer is in it.
    pub open spec fn changed(map: Map<Seq<char>, RecordView>, peer: Seq<char>, record: RecordView) -> Map<
        Seq<char>,
        RecordView,
    > {
        if map.dom().contains(peer) {
            map.insert(peer, record)
        } else {
            map
        }
    }

    /// The record of a peer that told about itself again.
    pub open spec fn renewed(known: RecordView, peer_info: PeerInfoView, now: u64) -> RecordView {
        RecordView {
            catch_up_attempts: known.catch_up_attempts,
            last_rx_sync_attempt: known.last_rx_sync_attempt,
            last_sha3x_sync_attempt: known.last_sha3x_sync_attempt,
            created: known.created,
            ..RecordView::fresh(known.peer_id, peer_info, now)
        }
    }

    /// Adds a peer, or what it told last. Seed peers go to the grey list, so that they are not overwhelmed with syncs.
    pub open spec fn added(self, peer: Seq<char>, info: PeerInfoView, now: u64) -> (StoreView, AddPeerStatus) {
        if self.seeds.contains(peer) {
            let record = RecordView {
                last_grey_list_reason: Some("Seed peer"@),
                ..RecordView::fresh(peer, info, now)
            };
            (StoreView { grey: self.grey.insert(peer, record), ..self }, AddPeerStatus::Greylisted)
        } else if self.black.dom().contains(peer) {
            (self, AddPeerStatus::Blacklisted)
        } else if self.grey.dom().contains(peer) {
            (self, AddPeerStatus::Greylisted)
        } else if self.white.dom().contains(peer) {
            let record = RecordView { peer_id: peer, ..StoreView::renewed(self.white[peer], info, now) };
            (StoreView { white: self.white.insert(peer, record), ..self }, AddPeerStatus::Existing)
        } else {
            (
                StoreView { white: self.white.insert(peer, RecordView::fresh(peer, info, now)), ..self },
                AddPeerStatus::NewPeer,
            )
        }
    }

    /// Puts a trusted peer on the grey list.
    pub open spec fn greyed(self, peer: Seq<char>, reason: Seq<char>) -> StoreView {
        if self.white.dom().contains(peer) {
            let known = self.white[peer];
            let record = RecordView {
                last_grey_list_reason: Some(reason),
                num_grey_listings: if known.num_grey_listings == u64::MAX {
                    u64::MAX
                } else {
                    (known.num_grey_listings + 1) as u64
                },
                ..known
            };
            StoreView { white: self.white.remove(peer), grey: self.grey.insert(peer, record), ..self }
        } else {
            self
        }
    }

    /// The grey peers go back to the white list, or to the black one if they were grey too often; seed peers go nowhere.
    pub open spec fn grey_cleared(self) -> StoreView {
        StoreView {
            white: self.white.union_prefer_right(
                Map::new(
                    |k: Seq<char>|
                        self.grey.dom().contains(k) && self.grey[k].num_grey_listings < MAX_GREY_LISTINGS
                            && !self.seeds.contains(k),
                    |k: Seq<char>| self.grey[k],
                ),
            ),
            grey: Map::empty(),
            black: self.black.union_prefer_right(
                Map::new(
                    |k: Seq<char>|
                        self.grey.dom().contains(k) && self.grey[k].num_grey_listings >= MAX_GREY_LISTINGS,
                    |k: Seq<char>| self.grey[k],
                ),
            ),
            ..self
        }
    }

    /// A record with a clean slate.
    pub open spec fn pardoned(record: RecordView) -> RecordView {
        RecordView { catch_up_attempts: 0, last_grey_list_reason: None, num_grey_listings: 0, ..record }
    }

    /// The black peers go back to the white list, with a clean slate.
    pub open spec fn black_cleared(self) -> StoreView {
        StoreView {
            white: self.white.union_prefer_right(
                Map::new(
                    |k: Seq<char>| self.black.dom().contains(k),
                    |k: Seq<char>| StoreView::pardoned(self.black[k]),
                ),
            ),
            black: Map::empty(),
            ..self
        }
    }
}

impl PeerStore {
    /// The lists are in order.
    pub open spec fn wf(&self) -> bool {
        self.whitelist_peers.wf() && self.greylist_peers.wf() && self.blacklist_peers.wf()
    }

    /// Constructs a new peer store with config.
    pub fn new(_config: &PeerStoreConfig) -> (store: Self)
        ensures
            store.wf(),
            store@.white == Map::<Seq<char>, RecordView>::empty(),
            store@.grey == Map::<Seq<char>, RecordView>::empty(),
            store@.black == Map::<Seq<char>, RecordView>::empty(),
            store@.seeds == Seq::<Seq<char>>::empty(),
    {
        let store = PeerStore {
            whitelist_peers: PeerMap::new(),
            greylist_peers: PeerMap::new(),
            blacklist_peers: PeerMap::new(),
            seed_peers: Vec::new(),
        };
        assert(store@.seeds =~= Seq::<Seq<char>>::empty());
        store
    }

    /// Adds a seed peer.
    pub fn add_seed_peer(&mut self, peer_id: PeerId)
        requires
            old(self).wf(),
        ensures
            final(self).wf(),
            final(self)@ == (StoreView { seeds: old(self)@.seeds.push(peer_id@), ..old(self)@ }),
    {
        self.seed_peers.push(peer_id);
        assert(self@.seeds =~= old(self)@.seeds.push(peer_id@));
    }

    /// The peers that are trusted.
    pub fn whitelist_peers(&self) -> (peers: &PeerMap)
        ensures
            peers@ == self@.white,
    {
        &self.whitelist_peers
    }

    /// The peers that failed lately.
    pub fn greylist_peers(&self) -> (peers: &PeerMap)
        ensures
            peers@ == self@.grey,
    {
        &self.greylist_peers
    }

    /// Whether a peer is a seed peer.
    pub fn is_seed_peer(&self, peer_id: &PeerId) -> (seed: bool)
        ensures
            seed <==> self@.seeds.contains(peer_id@),
    {
        peer_id.is_in(&self.seed_peers)
    }

    /// How often in a row we tried to catch up with a trusted peer.
    pub fn num_catch_ups(&self, peer: &PeerId) -> (attempts: Option<u64>)
        requires
            self.wf(),
        ensures
            attempts == (if self@.white.dom().contains(peer@) {
                Some(self@.white[peer@].catch_up_attempts)
            } else {
                None
            }),
    {
        match self.whitelist_peers.get(peer) {
            Some(record) => Some(record.catch_up_attempts),
            None => None,
        }
    }

    /// Notes the time of a peer's new tip.
    pub fn add_last_new_tip_notify(&mut self, peer_id: &PeerId, timestamp: u64)
        requires
            old(self).wf(),
        ensures
            final(self).wf(),
            final(self)@ == (StoreView {
                white: StoreView::changed(
                    old(self)@.white,
                    peer_id@,
                    RecordView { last_new_tip_notify: Some(timestamp), ..old(self)@.white[peer_id@] },
                ),
                grey: StoreView::changed(
                    old(self)@.grey,
                    peer_id@,
                    RecordView { last_new_tip_notify: Some(timestamp), ..old(self)@.grey[peer_id@] },
                ),
                ..old(self)@
            }),
    {
        match self.whitelist_peers.get(peer_id) {
            Some(record) => {
                let mut record = record.clone();
                record.last_new_tip_notify = Some(timestamp);
                self.whitelist_peers.insert(record);
            },
            None => {},
        }
        match self.greylist_peers.get(peer_id) {
            Some(record) => {
                let mut record = record.clone();
                record.last_new_tip_notify = Some(timestamp);
                self.greylist_peers.insert(record);
            },
            None => {},
        }
    }

    /// Notes when a peer last answered a ping.
    pub fn set_last_ping(&mut self, peer_id: &PeerId, timestamp: u64)
        requires
            old(self).wf(),
        ensures
            final(self).wf(),
            final(self)@ == (StoreView {
                white: StoreView::changed(
                    old(self)@.white,
                    peer_id@,
                    RecordView { last_ping: Some(timestamp), ..old(self)@.white[peer_id@] },
                ),
                ..old(self)@
            }),
    {
        match self.whitelist_peers.get(peer_id) {
            Some(record) => {
                let mut record = record.clone();
                record.last_ping = Some(timestamp);
                self.whitelist_peers.insert(record);
            },
            None => {},
        }
    }

    /// Counts one more attempt to catch up with a trusted peer.
    pub fn add_catch_up_attempt(&mut self, peer_id: &PeerId)
        requires
            old(self).wf(),
        ensures
            final(self).wf(),
            final(self)@ == (StoreView {
                white: StoreView::changed(
                    old(self)@.white,
                    peer_id@,
                    RecordView {
                        catch_up_attempts: if old(self)@.white[peer_id@].catch_up_attempts == u64::MAX {
                            u64::MAX
                        } else {
                            (old(self)@.white[peer_id@].catch_up_attempts + 1) as u64
                        },
                        ..old(self)@.white[peer_id@]
                    },
                ),
                ..old(self)@
            }),
    {
        match self.whitelist_peers.get(peer_id) {
            Some(record) => {
                let mut record = record.clone();
                if record.catch_up_attempts < u64::MAX {
                    record.catch_up_attempts = record.catch_up_attempts + 1;
                }
                self.whitelist_peers.insert(record);
            },
            None => {},
        }
    }

    /// Forgets the attempts to catch up with a trusted peer.
    pub fn reset_catch_up_attempts(&mut self, peer_id: &PeerId)
        requires
            old(self).wf(),
        ensures
            final(self).wf(),
            final(self)@ == (StoreView {
                white: StoreView::changed(
                    old(self)@.white,
                    peer_id@,
                    RecordView { catch_up_attempts: 0, ..old(self)@.white[peer_id@] },
                ),
                ..old(self)@
            }),
    {
        match self.whitelist_peers.get(peer_id) {
            Some(record) => {
                let mut record = record.clone();
                record.catch_up_attempts = 0;
                self.whitelist_peers.insert(record);
            },
            None => {},
        }
    }

    /// Whether a peer is on any list.
    pub fn is_known(&self, peer_id: &PeerId) -> (known: bool)
        requires
            self.wf(),
        ensures
            known <==> self@.white.dom().contains(peer_id@) || self@.grey.dom().contains(peer_id@)
                || self@.black.dom().contains(peer_id@),
    {
        self.whitelist_peers.contains(peer_id) || self.greylist_peers.contains(peer_id)
            || self.blacklist_peers.contains(peer_id)
    }

    /// The record of a peer on the white or the grey list.
    pub fn get(&self, peer_id: &PeerId) -> (record: Option<&PeerStoreRecord>)
        requires
            self.wf(),
        ensures
            record is Some <==> self@.white.dom().contains(peer_id@) || self@.grey.dom().contains(peer_id@),
            record matches Some(r) ==> r@ == (if self@.white.dom().contains(peer_id@) {
                self@.white[peer_id@]
            } else {
                self@.grey[peer_id@]
            }),
    {
        match self.whitelist_peers.get(peer_id) {
            Some(record) => Some(record),
            None => self.greylist_peers.get(peer_id),
        }
    }

    /// How long ago blocks were last asked for from a trusted peer, in milliseconds.
    pub fn time_since_last_sync_attempt(&self, peer_id: &PeerId, algo: PowAlgorithm, now: u64) -> (elapsed: Option<u64>)
        requires
            self.wf(),
        ensures
            elapsed == (if self@.white.dom().contains(peer_id@) {
                let attempt = match algo {
                    PowAlgorithm::RandomX => self@.white[peer_id@].last_rx_sync_attempt,
                    PowAlgorithm::Sha3x => self@.white[peer_id@].last_sha3x_sync_attempt,
                };
                match attempt {
                    Some(then) => Some(
                        if now > then {
                            (now - then) as u64
                        } else {
                            0
                        },
                    ),
                    None => None,
                }
            } else {
                None
            }),
    {
        let attempt = match self.whitelist_peers.get(peer_id) {
            Some(record) => match algo {
                PowAlgorithm::RandomX => record.last_rx_sync_attempt,
                PowAlgorithm::Sha3x => record.last_sha3x_sync_attempt,
            },
            None => None,
        };
        match attempt {
            Some(then) => Some(
                if now > then {
                    now - then
                } else {
                    0
                },
            ),
            None => None,
        }
    }

    /// Forgets when blocks were last asked for from a trusted peer.
    pub fn reset_last_sync_attempt(&mut self, peer_id: &PeerId)
        requires
            old(self).wf(),
        ensures
            final(self).wf(),
            final(self)@ == (StoreView {
                white: StoreView::changed(
                    old(self)@.white,
                    peer_id@,
                    RecordView {
                        last_rx_sync_attempt: None,
                        last_sha3x_sync_attempt: None,
                        ..old(self)@.white[peer_id@]
                    },
                ),
                ..old(self)@
            }),
    {
        match self.whitelist_peers.get(peer_id) {
            Some(record) => {
                let mut record = record.clone();
                record.last_rx_sync_attempt = None;
                record.last_sha3x_sync_attempt = None;
                self.whitelist_peers.insert(record);
            },
            None => {},
        }
    }

    /// A record with the time of an attempt.
    pub open spec fn attempted(record: RecordView, algo: PowAlgorithm, now: u64) -> RecordView {
        match algo {
            PowAlgorithm::RandomX => RecordView { last_rx_sync_attempt: Some(now), ..record },
            PowAlgorithm::Sha3x => RecordView { last_sha3x_sync_attempt: Some(now), ..record },
        }
    }

    /// Notes that blocks are asked for from a peer.
    pub fn update_last_sync_attempt(&mut self, peer_id: &PeerId, algo: PowAlgorithm, now: u64)
        requires
            old(self).wf(),
        ensures
            final(self).wf(),
            final(self)@ == (StoreView {
                white: StoreView::changed(
                    old(self)@.white,
                    peer_id@,
                    PeerStore::attempted(old(self)@.white[peer_id@], algo, now),
                ),
                grey: StoreView::changed(
                    old(self)@.grey,
                    peer_id@,
                    PeerStore::attempted(old(self)@.grey[peer_id@], algo, now),
                ),
                ..old(self)@
            }),
    {
        match self.whitelist_peers.get(peer_id) {
            Some(record) => {
                let mut record = record.clone();
                match algo {
                    PowAlgorithm::RandomX => {
                        record.last_rx_sync_attempt = Some(now);
                    },
                    PowAlgorithm::Sha3x => {
                        record.last_sha3x_sync_attempt = Some(now);
                    },
                }
                self.whitelist_peers.insert(record);
            },
            None => {},
        }
        match self.greylist_peers.get(peer_id) {
            Some(record) => {
                let mut record = record.clone();
                match algo {
                    PowAlgorithm::RandomX => {
                        record.last_rx_sync_attempt = Some(now);
                    },
                    PowAlgorithm::Sha3x => {
                        record.last_sha3x_sync_attempt = Some(now);
                    },
                }
                self.greylist_peers.insert(record);
            },
            None => {},
        }
    }

    /// Add a new peer to store. If a peer already exists, just replaces it.
    pub fn add(&mut self, peer_id: &PeerId, peer_info: PeerInfo, now: u64) -> (status: AddPeerStatus)
        requires
            old(self).wf(),
        ensures
            final(self).wf(),
            (final(self)@, status) == old(self)@.added(peer_id@, peer_info@, now),
    {
        // Seed peers are automatically greylisted so that we don't overwhelm them with syncs
        if self.is_seed_peer(peer_id) {
            let mut record = PeerStoreRecord::new(peer_id.clone(), peer_info, now);
            record.last_grey_list_reason = Some("Seed peer".to_owned());
            self.greylist_peers.insert(record);
            return AddPeerStatus::Greylisted;
        }
        if self.blacklist_peers.contains(peer_id) {
            return AddPeerStatus::Blacklisted;
        }
        if self.greylist_peers.contains(peer_id) {
            return AddPeerStatus::Greylisted;
        }
        match self.whitelist_peers.get(peer_id) {
            Some(known) => {
                let mut record = PeerStoreRecord::new(peer_id.clone(), peer_info, now);
                record.catch_up_attempts = known.catch_up_attempts;
                record.last_rx_sync_attempt = known.last_rx_sync_attempt;
                record.last_sha3x_sync_attempt = known.last_sha3x_sync_attempt;
                record.created = known.created;
                self.whitelist_peers.insert(record);
                return AddPeerStatus::Existing;
            },
            None => {},
        }
        self.whitelist_peers.insert(PeerStoreRecord::new(peer_id.clone(), peer_info, now));
        AddPeerStatus::NewPeer
    }

    /// Puts a trusted peer on the grey list. Tells whether it was there.
    pub fn move_to_grey_list(&mut self, peer_id: &PeerId, reason: String) -> (moved: bool)
        requires
            old(self).wf(),
        ensures
            final(self).wf(),
            final(self)@ == old(self)@.greyed(peer_id@, reason@),
            moved <==> old(self)@.white.dom().contains(peer_id@),
    {
        match self.whitelist_peers.remove(peer_id) {
            Some(record) => {
                let mut record = record;
                record.last_grey_list_reason = Some(reason);
                if record.num_grey_listings < u64::MAX {
                    record.num_grey_listings = record.num_grey_listings + 1;
                }
                self.greylist_peers.insert(record);
                true
            },
            None => {
                assert(self@.white =~= old(self)@.white);
                false
            },
        }
    }

    /// Lets the grey peers go: back to the white list, or to the black one if they were grey too often.
    pub fn clear_grey_list(&mut self)
        requires
            old(self).wf(),
        ensures
            final(self).wf(),
            final(self)@ == old(self)@.grey_cleared(),
    {
        let ghost target = self@.grey_cleared();
        while self.greylist_peers.len() > 0
            invariant
                self.wf(),
                self@.grey_cleared() == target,
            decreases self.greylist_peers.list().len(),
        {
            let ghost before = self@;
            if let Some(record) = self.greylist_peers.take_one() {
                let ghost peer = record@.peer_id;
                if record.num_grey_listings >= MAX_GREY_LISTINGS {
                    self.blacklist_peers.insert(record);
                } else if !self.is_seed_peer(&record.peer_id) {
                    // Don't put seed peers in the whitelist
                    self.whitelist_peers.insert(record);
                }
                proof {
                    assert(self@.grey_cleared().white =~= before.grey_cleared().white);
                    assert(self@.grey_cleared().black =~= before.grey_cleared().black);
                }
            }
        }
        proof {
            assert(self@.grey =~= Map::<Seq<char>, RecordView>::empty());
            assert(self@.grey_cleared().white =~= self@.white);
            assert(self@.grey_cleared().black =~= self@.black);
        }
    }

    /// Lets the black peers go back to the white list, with a clean slate.
    pub fn clear_black_list(&mut self)
        requires
            old(self).wf(),
        ensures
            final(self).wf(),
            final(self)@ == old(self)@.black_cleared(),
    {
        let ghost target = self@.black_cleared();
        while self.blacklist_peers.len() > 0
            invariant
                self.wf(),
                self@.black_cleared() == target,
            decreases self.blacklist_peers.list().len(),
        {
            let ghost before = self@;
            if let Some(record) = self.blacklist_peers.take_one() {
                let mut record = record;
                record.catch_up_attempts = 0;
                record.last_grey_list_reason = None;
                record.num_grey_listings = 0;
                self.whitelist_peers.insert(record);
                assert(self@.black_cleared().white =~= before.black_cleared().white);
            }
        }
        proof {
            assert(self@.black =~= Map::<Seq<char>, RecordView>::empty());
            assert(self@.black_cleared().white =~= self@.white);
        }
    }

    /// Number of trusted peers.
    pub fn peer_count(&self) -> (count: u64)
        requires
            self.wf(),
        ensures
            count == self@.white.dom().len(),
    {
        self.whitelist_peers.len() as u64
    }

    /// Whether a peer is shunned.
    pub fn is_blacklisted(&self, peer_id: &PeerId) -> (black: bool)
        requires
            self.wf(),
        ensures
            black <==> self@.black.dom().contains(peer_id@),
    {
        self.blacklist_peers.contains(peer_id)
    }

    /// Whether a peer is trusted. If no peer is, those on the grey list are.
    pub fn is_whitelisted(&self, peer_id: &PeerId) -> (white: bool)
        requires
            self.wf(),
        ensures
            white <==> self@.white.dom().contains(peer_id@) || self@.white == Map::<Seq<char>, RecordView>::empty()
                && self@.grey.dom().contains(peer_id@),
    {
        if self.whitelist_peers.contains(peer_id) {
            return true;
        }
        if self.whitelist_peers.len() == 0 {
            assert(self@.white =~= Map::<Seq<char>, RecordView>::empty());
            return self.greylist_peers.contains(peer_id);
        }
        proof {
            crate::assoc::lemma_key_at(self.whitelist_peers.list(), 0);
            assert(!Map::<Seq<char>, RecordView>::empty().dom().contains(self.whitelist_peers.list()[0].0));
        }
        false
    }
}

}
