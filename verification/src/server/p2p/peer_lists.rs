//! Whole lists of peers: what is saved, what is loaded, and what is known of all of them.
use crate::server::p2p::messages::{PeerInfo, PeerInfoView};
use crate::server::p2p::peer_id::PeerId;
use crate::server::p2p::peer_map::{PeerMap, PeerStoreRecord, RecordView};
use crate::server::p2p::peer_store::{AddPeerStatus, PeerStore, StoreView, MAX_GREY_LISTINGS};
use crate::server::p2p::squad::Squad;
use crate::sharechain::p2block::PROTOCOL_VERSION;
use crate::types::PowAlgorithm;
use vstd::prelude::*;

verus! {

impl StoreView {
    /// What a saved list holds.
    pub open spec fn entries(list: Seq<(String, PeerInfo)>) -> Seq<(Seq<char>, PeerInfoView)> {
        list.map_values(|e: (String, PeerInfo)| (e.0@, e.1@))
    }

    /// The record that a saved entry gives.
    pub open spec fn loaded_record(peer: Seq<char>, info: PeerInfoView, now: u64) -> RecordView {
        let fresh = RecordView::fresh(peer, info, now);
        RecordView { peer_info: PeerInfoView { timestamp: now, ..info }, ..fresh }
    }

    /// The records that saved entries give. Those that name no peer, or a peer with old rules, give none.
    pub open spec fn loaded(entries: Seq<(Seq<char>, PeerInfoView)>, now: u64) -> Map<Seq<char>, RecordView>
        decreases entries.len(),
    {
        if entries.len() == 0 {
            Map::empty()
        } else {
            let before = StoreView::loaded(entries.drop_last(), now);
            let (text, info) = entries.last();
            match crate::server::p2p::peer_id::peer_named(text) {
                Some(peer) => if info.version < PROTOCOL_VERSION {
                    before
                } else {
                    before.insert(peer, StoreView::loaded_record(peer, info, now))
                },
                None => before,
            }
        }
    }

    /// The peer on any list.
    pub open spec fn knows(self, peer: Seq<char>) -> bool {
        self.white.dom().contains(peer) || self.grey.dom().contains(peer) || self.black.dom().contains(peer)
    }

    /// Each peer is on one list at most, and seed peers are on no list but the grey one.
    pub open spec fn settled(self) -> bool {
        &&& forall|k: Seq<char>| #[trigger] self.white.dom().contains(k) ==> !self.grey.dom().contains(k)
        &&& forall|k: Seq<char>| #[trigger] self.white.dom().contains(k) ==> !self.black.dom().contains(k)
        &&& forall|k: Seq<char>| #[trigger] self.grey.dom().contains(k) ==> !self.black.dom().contains(k)
        &&& forall|k: Seq<char>| #[trigger] self.seeds.contains(k) ==> !self.white.dom().contains(k)
        &&& forall|k: Seq<char>| #[trigger] self.seeds.contains(k) ==> !self.black.dom().contains(k)
        &&& forall|k: Seq<char>| #[trigger]
            self.seeds.contains(k) && self.grey.dom().contains(k) ==> self.grey[k].num_grey_listings
                < MAX_GREY_LISTINGS
    }

    /// Work of a peer's chain.
    pub open spec fn pow_of(record: RecordView, algo: PowAlgorithm) -> u128 {
        match algo {
            PowAlgorithm::RandomX => record.peer_info.current_random_x_pow,
            PowAlgorithm::Sha3x => record.peer_info.current_sha3x_pow,
        }
    }

    /// No trusted peer has a chain with more work than this.
    pub open spec fn none_above(self, algo: PowAlgorithm, pow: u128) -> bool {
        forall|k: Seq<char>| #[trigger] self.white.dom().contains(k) ==> StoreView::pow_of(self.white[k], algo) <= pow
    }

    /// A trusted peer whose chain has most work.
    pub open spec fn is_best(self, algo: PowAlgorithm, peer: Seq<char>) -> bool {
        self.white.dom().contains(peer) && self.none_above(algo, StoreView::pow_of(self.white[peer], algo))
    }

    /// Height of a peer's chain.
    pub open spec fn height_of(record: RecordView, algo: PowAlgorithm) -> u64 {
        match algo {
            PowAlgorithm::RandomX => record.peer_info.current_random_x_height,
            PowAlgorithm::Sha3x => record.peer_info.current_sha3x_height,
        }
    }
}

impl PeerMap {
    /// Appends those peers whose names can be read, and that are not there yet.
    fn collect_names(&self, names: &mut Vec<PeerId>)
        requires
            self.wf(),
            PeerId::names(old(names)@).no_duplicates(),
        ensures
            PeerId::names(final(names)@).no_duplicates(),
            forall|p: Seq<char>| #[trigger]
                PeerId::names(final(names)@).contains(p) <==> PeerId::names(old(names)@).contains(p) || (exists|
                    k: Seq<char>,
                |
                    #[trigger] self@.dom().contains(k) && crate::server::p2p::peer_id::peer_named(k) == Some(p)),
    {
        let ghost list = self.list();
        let ghost before = PeerId::names(names@);
        let mut i: usize = 0;
        while i < self.records.len()
            invariant
                i <= self.records@.len(),
                self.wf(),
                list == self.list(),
                PeerId::names(names@).no_duplicates(),
                forall|p: Seq<char>| #[trigger]
                    PeerId::names(names@).contains(p) <==> before.contains(p) || (exists|j: int|
                        0 <= j < i && crate::server::p2p::peer_id::peer_named((#[trigger] list[j]).0) == Some(p)),
            decreases self.records@.len() - i,
        {
            let ghost held = PeerId::names(names@);
            assert(list[i as int].0 == self.records@[i as int].peer_id@);
            if let Some(peer) = PeerId::parse(self.records[i].peer_id.text.as_str()) {
                let ghost name = peer@;
                if !peer.is_in(names) {
                    names.push(peer);
                    proof {
                        assert(PeerId::names(names@) =~= held.push(name));
                    }
                }
                proof {
                    assert forall|p: Seq<char>| #[trigger]
                        PeerId::names(names@).contains(p) <==> held.contains(p) || p == name by {
                        if held.contains(p) && PeerId::names(names@) != held {
                            let at = held.index_of(p);
                            assert(held.push(name)[at] == p);
                        }
                        if p == name && PeerId::names(names@) != held {
                            assert(held.push(name)[held.len() as int] == p);
                        }
                    }
                }
            }
            i = i + 1;
        }
        proof {
            assert forall|p: Seq<char>| #[trigger]
                PeerId::names(names@).contains(p) <==> before.contains(p) || (exists|k: Seq<char>| #[trigger]
                    self@.dom().contains(k) && crate::server::p2p::peer_id::peer_named(k) == Some(p)) by {
                if exists|j: int|
                    0 <= j < list.len() && crate::server::p2p::peer_id::peer_named((#[trigger] list[j]).0) == Some(p) {
                    let j = choose|j: int|
                        0 <= j < list.len() && crate::server::p2p::peer_id::peer_named((#[trigger] list[j]).0)
                            == Some(p);
                    crate::assoc::lemma_key_at(list, j);
                    assert(self@.dom().contains(list[j].0));
                }
                if exists|k: Seq<char>| #[trigger]
                    self@.dom().contains(k) && crate::server::p2p::peer_id::peer_named(k) == Some(p) {
                    let k = choose|k: Seq<char>| #[trigger]
                        self@.dom().contains(k) && crate::server::p2p::peer_id::peer_named(k) == Some(p);
                    let j = crate::assoc::key_index(list, k);
                    assert(list[j].0 == k);
                }
            }
        }
    }
}

impl PeerStore {
    /// All peers on any list whose names can be read, each once.
    pub fn get_known_peers(&self) -> (peers: Vec<PeerId>)
        requires
            self.wf(),
        ensures
            PeerId::names(peers@).no_duplicates(),
            forall|p: Seq<char>| #[trigger]
                PeerId::names(peers@).contains(p) <==> (exists|k: Seq<char>| #[trigger]
                    self@.knows(k) && crate::server::p2p::peer_id::peer_named(k) == Some(p)),
    {
        let mut peers: Vec<PeerId> = Vec::new();
        assert(PeerId::names(peers@) =~= Seq::empty());
        self.whitelist_peers.collect_names(&mut peers);
        self.greylist_peers.collect_names(&mut peers);
        self.blacklist_peers.collect_names(&mut peers);
        proof {
            assert forall|p: Seq<char>| #[trigger]
                PeerId::names(peers@).contains(p) <==> (exists|k: Seq<char>| #[trigger]
                    self@.knows(k) && crate::server::p2p::peer_id::peer_named(k) == Some(p)) by {
                if exists|k: Seq<char>| #[trigger]
                    self@.knows(k) && crate::server::p2p::peer_id::peer_named(k) == Some(p) {
                    let k = choose|k: Seq<char>| #[trigger]
                        self@.knows(k) && crate::server::p2p::peer_id::peer_named(k) == Some(p);
                    assert(self.whitelist_peers@.dom().contains(k) || self.greylist_peers@.dom().contains(k)
                        || self.blacklist_peers@.dom().contains(k));
                }
                if PeerId::names(peers@).contains(p) {
                    if exists|k: Seq<char>| #[trigger]
                        self.whitelist_peers@.dom().contains(k) && crate::server::p2p::peer_id::peer_named(k) == Some(
                            p,
                        ) {
                        let k = choose|k: Seq<char>| #[trigger]
                            self.whitelist_peers@.dom().contains(k) && crate::server::p2p::peer_id::peer_named(k)
                                == Some(p);
                        assert(self@.knows(k));
                    } else if exists|k: Seq<char>| #[trigger]
                        self.greylist_peers@.dom().contains(k) && crate::server::p2p::peer_id::peer_named(k) == Some(
                            p,
                        ) {
                        let k = choose|k: Seq<char>| #[trigger]
                            self.greylist_peers@.dom().contains(k) && crate::server::p2p::peer_id::peer_named(k)
                                == Some(p);
                        assert(self@.knows(k));
                    } else {
                        let k = choose|k: Seq<char>| #[trigger]
                            self.blacklist_peers@.dom().contains(k) && crate::server::p2p::peer_id::peer_named(k)
                                == Some(p);
                        assert(self@.knows(k));
                    }
                }
            }
        }
        peers
    }

    /// What is saved of the trusted peers: each one's name and what it told about itself.
    pub fn save_whitelist(&self) -> (list: Vec<(String, PeerInfo)>)
        requires
            self.wf(),
        ensures
            crate::assoc::distinct_keys(StoreView::entries(list@)),
            crate::assoc::map_of(StoreView::entries(list@)) == self@.white.map_values(|r: RecordView| r.peer_info),
    {
        let mut list: Vec<(String, PeerInfo)> = Vec::new();
        let ghost all = self.whitelist_peers.list();
        let mut i: usize = 0;
        while i < self.whitelist_peers.records.len()
            invariant
                i <= self.whitelist_peers.records@.len(),
                all == self.whitelist_peers.list(),
                list@.len() == i,
                forall|j: int|
                    0 <= j < i ==> (#[trigger] StoreView::entries(list@)[j]) == (all[j].0, all[j].1.peer_info),
            decreases self.whitelist_peers.records@.len() - i,
        {
            let record = &self.whitelist_peers.records[i];
            let ghost before = StoreView::entries(list@);
            list.push((record.peer_id.to_base58(), record.peer_info.clone()));
            i = i + 1;
            assert(StoreView::entries(list@) =~= before.push((all[i - 1].0, all[i - 1].1.peer_info)));
        }
        proof {
            let entries = StoreView::entries(list@);
            assert(crate::assoc::distinct_keys(entries)) by {
                assert forall|a: int, b: int| 0 <= a < b < entries.len() implies (#[trigger] entries[a]).0 != (
                #[trigger] entries[b]).0 by {
                    assert(all[a].0 != all[b].0);
                }
            }
            let target = self@.white.map_values(|r: RecordView| r.peer_info);
            assert forall|k: Seq<char>| crate::assoc::map_of(entries).dom().contains(k) <==> #[trigger]
                target.dom().contains(k) by {
                if crate::assoc::map_of(entries).dom().contains(k) {
                    let j = crate::assoc::key_index(entries, k);
                    crate::assoc::lemma_key_at(all, j);
                }
                if target.dom().contains(k) {
                    let j = crate::assoc::key_index(all, k);
                    assert(entries[j].0 == k);
                    crate::assoc::lemma_key_at(entries, j);
                }
            }
            assert forall|k: Seq<char>| #[trigger]
                target.dom().contains(k) implies crate::assoc::map_of(entries)[k] == target[k] by {
                let j = crate::assoc::key_index(all, k);
                crate::assoc::lemma_key_at(all, j);
                assert(entries[j].0 == k);
                crate::assoc::lemma_key_at(entries, j);
            }
            assert(crate::assoc::map_of(entries) =~= target);
        }
        list
    }

    /// Trusts the peers of a saved list, and no others.
    pub fn load_whitelist(&mut self, list: Vec<(String, PeerInfo)>, now: u64)
        requires
            old(self).wf(),
        ensures
            final(self).wf(),
            final(self)@ == (StoreView { white: StoreView::loaded(StoreView::entries(list@), now), ..old(self)@ }),
    {
        let ghost entries = StoreView::entries(list@);
        let mut map = PeerMap::new();
        let mut i: usize = 0;
        while i < list.len()
            invariant
                i <= list@.len(),
                entries == StoreView::entries(list@),
                map.wf(),
                map@ == StoreView::loaded(entries.take(i as int), now),
            decreases list@.len() - i,
        {
            let ghost next = entries.take(i + 1);
            assert(next.drop_last() =~= entries.take(i as int));
            assert(next.last() == (list@[i as int].0@, list@[i as int].1@));
            let entry = &list[i];
            if let Some(peer) = PeerId::parse(entry.0.as_str()) {
                if entry.1.version >= PROTOCOL_VERSION {
                    map.insert(PeerStoreRecord::new(peer, entry.1.clone(), now).with_timestamp(now));
                }
            }
            i = i + 1;
        }
        assert(entries.take(list@.len() as int) =~= entries);
        self.whitelist_peers = map;
    }

    /// Height, work and name of the trusted peer whose chain has most work.
    pub fn max_known_network_height(&self, algo: PowAlgorithm) -> (best: (u64, u128, Option<PeerId>))
        requires
            self.wf(),
        ensures
            match best.2 {
                Some(peer) => self@.white.dom().contains(peer@) && best.0 == StoreView::height_of(
                    self@.white[peer@],
                    algo,
                ) && best.1 == StoreView::pow_of(self@.white[peer@], algo),
                None => self@.white == Map::<Seq<char>, RecordView>::empty() && best.0 == 0 && best.1 == 0,
            },
            self@.none_above(algo, best.1),
    {
        let ghost list = self.whitelist_peers.list();
        let mut height: u64 = 0;
        let mut pow: u128 = 0;
        let mut best: Option<usize> = None;
        let mut i: usize = 0;
        while i < self.whitelist_peers.records.len()
            invariant
                i <= self.whitelist_peers.records@.len(),
                self.wf(),
                list == self.whitelist_peers.list(),
                match best {
                    Some(b) => b < i && height == StoreView::height_of(list[b as int].1, algo) && pow
                        == StoreView::pow_of(list[b as int].1, algo),
                    None => i == 0 && height == 0 && pow == 0,
                },
                forall|j: int| 0 <= j < i ==> StoreView::pow_of((#[trigger] list[j]).1, algo) <= pow,
            decreases self.whitelist_peers.records@.len() - i,
        {
            let record = &self.whitelist_peers.records[i];
            assert(list[i as int] == (record.peer_id@, record@));
            let (its_height, its_pow): (u64, u128) = match algo {
                PowAlgorithm::RandomX => (
                    record.peer_info.current_random_x_height,
                    record.peer_info.current_random_x_pow,
                ),
                PowAlgorithm::Sha3x => (record.peer_info.current_sha3x_height, record.peer_info.current_sha3x_pow),
            };
            if best.is_none() || its_pow > pow {
                height = its_height;
                pow = its_pow;
                best = Some(i);
            }
            i = i + 1;
        }
        proof {
            assert forall|k: Seq<char>| #[trigger] self@.white.dom().contains(k) implies StoreView::pow_of(
                self@.white[k],
                algo,
            ) <= pow by {
                let j = crate::assoc::key_index(list, k);
                assert(list[j].0 == k);
                crate::assoc::lemma_key_at(list, j);
            }
        }
        match best {
            Some(b) => {
                proof {
                    assert(list[b as int] == (
                        self.whitelist_peers.records@[b as int].peer_id@,
                        self.whitelist_peers.records@[b as int]@,
                    ));
                    crate::assoc::lemma_key_at(list, b as int);
                }
                (height, pow, Some(self.whitelist_peers.records[b].peer_id.clone()))
            },
            None => {
                assert(self@.white =~= Map::<Seq<char>, RecordView>::empty());
                (height, pow, None)
            },
        }
    }
}

impl PeerStore {
    /// Whether no trusted peer has a chain with more work than ours, or this peer's chain has most work of all.
    pub fn is_level_with_network(&self, algo: PowAlgorithm, our_pow: u128, peer: &PeerId) -> (level: bool)
        requires
            self.wf(),
        ensures
            level <==> self@.none_above(algo, our_pow) || self@.is_best(algo, peer@),
    {
        let (_, max_known_network_pow, peer_with_best) = self.max_known_network_height(algo);
        if our_pow >= max_known_network_pow {
            return true;
        }
        let level = match self.whitelist_peers.get(peer) {
            Some(record) => {
                let their_pow = match algo {
                    PowAlgorithm::RandomX => record.peer_info.current_random_x_pow,
                    PowAlgorithm::Sha3x => record.peer_info.current_sha3x_pow,
                };
                their_pow >= max_known_network_pow
            },
            None => false,
        };
        proof {
            if peer_with_best is Some {
                let best = peer_with_best.unwrap()@;
                assert(self@.white.dom().contains(best));
            }
        }
        level
    }
}

/// No operation puts a peer on two lists, or a seed peer on a list other than the grey one.
pub proof fn law_peer_is_on_one_list(
    store: StoreView,
    peer: Seq<char>,
    info: PeerInfoView,
    reason: Seq<char>,
    now: u64,
)
    requires
        store.settled(),
    ensures
        store.added(peer, info, now).0.settled(),
        store.greyed(peer, reason).settled(),
        store.grey_cleared().settled(),
        store.black_cleared().settled(),
{
    let added = store.added(peer, info, now).0;
    assert forall|k: Seq<char>| #[trigger] added.white.dom().contains(k) implies !added.grey.dom().contains(k) by {
        assert(store.seeds.contains(k) ==> !store.white.dom().contains(k));
    }
    let cleared = store.grey_cleared();
    assert forall|k: Seq<char>| #[trigger] cleared.white.dom().contains(k) implies !cleared.black.dom().contains(
        k,
    ) by {
        if store.grey.dom().contains(k) {
            assert(!store.white.dom().contains(k)) by {
                if store.white.dom().contains(k) {
                    assert(!store.grey.dom().contains(k));
                }
            }
            assert(!store.black.dom().contains(k));
        }
    }
    assert forall|k: Seq<char>| #[trigger] cleared.seeds.contains(k) implies !cleared.black.dom().contains(k) by {
        assert(store.seeds.contains(k));
    }
    let pardoned = store.black_cleared();
    assert forall|k: Seq<char>| #[trigger] pardoned.white.dom().contains(k) implies !pardoned.grey.dom().contains(
        k,
    ) by {
        if store.grey.dom().contains(k) {
            assert(!store.black.dom().contains(k));
        }
    }
}

/// A peer that misbehaves as often as the limit says is on the black list once the grey list is cleared; before that
/// it is trusted again, and its count is kept.
pub proof fn law_repeated_grey_listing_blacklists(store: StoreView, peer: Seq<char>, reason: Seq<char>)
    requires
        store.settled(),
        store.white.dom().contains(peer),
        store.white[peer].num_grey_listings < u64::MAX,
    ensures
        store.white[peer].num_grey_listings + 1 >= MAX_GREY_LISTINGS ==> {
            let after = store.greyed(peer, reason).grey_cleared();
            after.black.dom().contains(peer) && !after.white.dom().contains(peer)
        },
        store.white[peer].num_grey_listings + 1 < MAX_GREY_LISTINGS ==> {
            let after = store.greyed(peer, reason).grey_cleared();
            after.white.dom().contains(peer) && !after.black.dom().contains(peer)
                && after.white[peer].num_grey_listings == store.white[peer].num_grey_listings + 1
        },
{
    assert(!store.black.dom().contains(peer));
    assert(!store.seeds.contains(peer)) by {
        if store.seeds.contains(peer) {
            assert(!store.white.dom().contains(peer));
        }
    }
}

/// What a peer on the grey or the black list tells about itself changes nothing, seed peers excepted.
pub proof fn law_distrusted_peers_are_not_heard(store: StoreView, peer: Seq<char>, info: PeerInfoView, now: u64)
    requires
        !store.seeds.contains(peer),
        store.grey.dom().contains(peer) || store.black.dom().contains(peer),
    ensures
        store.added(peer, info, now).0 == store,
        store.added(peer, info, now).1 == (if store.black.dom().contains(peer) {
            AddPeerStatus::Blacklisted
        } else {
            AddPeerStatus::Greylisted
        }),
{
}

/// A peer from the black list comes back without a record of what it did.
pub proof fn law_pardoned_peers_start_anew(store: StoreView, peer: Seq<char>)
    requires
        store.black.dom().contains(peer),
    ensures
        store.black_cleared().white.dom().contains(peer),
        store.black_cleared().white[peer].num_grey_listings == 0,
        store.black_cleared().white[peer].catch_up_attempts == 0,
        store.black_cleared().white[peer].last_grey_list_reason is None,
        !store.black_cleared().black.dom().contains(peer),
{
}

/// Adding a trusted peer again keeps how often we tried to sync with it and when it was first met.
pub proof fn law_known_peers_keep_their_history(store: StoreView, peer: Seq<char>, info: PeerInfoView, now: u64)
    requires
        store.settled(),
        store.white.dom().contains(peer),
    ensures
        ({
            let (after, status) = store.added(peer, info, now);
            let (known, renewed) = (store.white[peer], after.white[peer]);
            status == AddPeerStatus::Existing && renewed.peer_info == info && renewed.created == known.created
                && renewed.catch_up_attempts == known.catch_up_attempts && renewed.last_rx_sync_attempt
                == known.last_rx_sync_attempt && renewed.last_sha3x_sync_attempt == known.last_sha3x_sync_attempt
                && after.white.remove(peer) == store.white.remove(peer)
        }),
{
    assert(!store.seeds.contains(peer)) by {
        if store.seeds.contains(peer) {
            assert(!store.white.dom().contains(peer));
        }
    }
    assert(!store.grey.dom().contains(peer) && !store.black.dom().contains(peer));
    let (after, status) = store.added(peer, info, now);
    assert(after.white.remove(peer) =~= store.white.remove(peer));
}

/// A saved list, loaded again, gives back each peer with what it told about itself, as if it had told it at the time
/// of loading. This holds of lists of peers that follow the rules of this version.
pub proof fn law_saved_peers_are_loaded_again(entries: Seq<(Seq<char>, PeerInfoView)>, now: u64)
    requires
        crate::assoc::distinct_keys(entries),
        forall|i: int|
            0 <= i < entries.len() ==> PeerId::is_name((#[trigger] entries[i]).0) && entries[i].1.version
                >= PROTOCOL_VERSION,
    ensures
        forall|k: Seq<char>|
            StoreView::loaded(entries, now).dom().contains(k) <==> #[trigger] crate::assoc::map_of(
                entries,
            ).dom().contains(k),
        forall|k: Seq<char>| #[trigger]
            crate::assoc::map_of(entries).dom().contains(k) ==> StoreView::loaded(entries, now)[k]
                == StoreView::loaded_record(k, crate::assoc::map_of(entries)[k], now),
    decreases entries.len(),
{
    if entries.len() > 0 {
        let rest = entries.drop_last();
        let (text, info) = entries.last();
        assert forall|i: int| 0 <= i < rest.len() implies PeerId::is_name((#[trigger] rest[i]).0) && rest[i].1.version
            >= PROTOCOL_VERSION by {
            assert(rest[i] == entries[i]);
        }
        assert(crate::assoc::distinct_keys(rest)) by {
            assert forall|a: int, b: int| 0 <= a < b < rest.len() implies (#[trigger] rest[a]).0 != (
            #[trigger] rest[b]).0 by {
                assert(entries[a].0 != entries[b].0);
            }
        }
        law_saved_peers_are_loaded_again(rest, now);
        assert(!crate::assoc::has_key(rest, text)) by {
            if crate::assoc::has_key(rest, text) {
                let j = crate::assoc::key_index(rest, text);
                assert(entries[j].0 != entries[entries.len() - 1].0);
            }
        }
        crate::assoc::lemma_push(rest, text, info);
        assert(rest.push((text, info)) =~= entries);
        assert(entries[entries.len() - 1] == (text, info));
    } else {
        assert(crate::assoc::map_of(entries) =~= Map::empty()) by {
            assert(entries =~= Seq::empty());
            crate::assoc::lemma_empty::<Seq<char>, PeerInfoView>();
        }
    }
}

impl Squad {
    /// The names of some squads.
    pub open spec fn names(squads: Seq<Squad>) -> Seq<Seq<char>> {
        squads.map_values(|s: Squad| s@)
    }

    fn is_in(&self, squads: &Vec<Squad>) -> (found: bool)
        ensures
            found == Squad::names(squads@).contains(self@),
    {
        let mut i: usize = 0;
        while i < squads.len()
            invariant
                i <= squads@.len(),
                forall|j: int| 0 <= j < i ==> (#[trigger] squads@[j])@ != self@,
            decreases squads@.len() - i,
        {
            if squads[i].inner == self.inner {
                assert(Squad::names(squads@)[i as int] == self@);
                return true;
            }
            i = i + 1;
        }
        assert forall|j: int| 0 <= j < squads@.len() implies #[trigger] Squad::names(squads@)[j] != self@ by {
            assert(squads@[j]@ != self@);
        }
        false
    }
}

impl StoreView {
    /// The squad has a trusted peer.
    pub open spec fn has_squad(self, squad: Seq<char>) -> bool {
        exists|p: Seq<char>| #[trigger] self.white.dom().contains(p) && self.white[p].peer_info.squad == squad
    }
}

impl PeerStore {
    /// The squads of the trusted peers, each once.
    pub fn squads(&self) -> (squads: Vec<Squad>)
        requires
            self.wf(),
        ensures
            Squad::names(squads@).no_duplicates(),
            forall|s: Seq<char>| #[trigger] Squad::names(squads@).contains(s) <==> self@.has_squad(s),
    {
        let mut squads: Vec<Squad> = Vec::new();
        let records = &self.whitelist_peers.records;
        let ghost list = self.whitelist_peers.list();
        let mut i: usize = 0;
        while i < records.len()
            invariant
                i <= records@.len(),
                self.wf(),
                *records == self.whitelist_peers.records,
                list == self.whitelist_peers.list(),
                Squad::names(squads@).no_duplicates(),
                forall|s: Seq<char>| #[trigger]
                    Squad::names(squads@).contains(s) <==> (exists|j: int|
                        0 <= j < i && (#[trigger] list[j]).1.peer_info.squad == s),
            decreases records@.len() - i,
        {
            let squad = Squad { inner: records[i].peer_info.squad.clone() };
            let ghost before = Squad::names(squads@);
            let ghost name = squad@;
            assert(list[i as int].1.peer_info.squad == name);
            if !squad.is_in(&squads) {
                squads.push(squad);
                assert(Squad::names(squads@) =~= before.push(name));
            }
            proof {
                assert forall|s: Seq<char>| #[trigger]
                    Squad::names(squads@).contains(s) <==> before.contains(s) || s == name by {
                    if before.contains(s) && Squad::names(squads@) != before {
                        assert(before.push(name)[before.index_of(s)] == s);
                    }
                    if s == name && Squad::names(squads@) != before {
                        assert(before.push(name)[before.len() as int] == s);
                    }
                }
            }
            i = i + 1;
        }
        proof {
            assert forall|s: Seq<char>| #[trigger] Squad::names(squads@).contains(s) <==> self@.has_squad(s) by {
                if Squad::names(squads@).contains(s) {
                    let j = choose|j: int| 0 <= j < list.len() && (#[trigger] list[j]).1.peer_info.squad == s;
                    crate::assoc::lemma_key_at(list, j);
                    assert(self@.white.dom().contains(list[j].0));
                }
                if self@.has_squad(s) {
                    let p = choose|p: Seq<char>| #[trigger]
                        self@.white.dom().contains(p) && self@.white[p].peer_info.squad == s;
                    let j = crate::assoc::key_index(list, p);
                    assert(list[j].0 == p);
                    assert(list[j].1.peer_info.squad == s);
                }
            }
        }
        squads
    }
}

}
