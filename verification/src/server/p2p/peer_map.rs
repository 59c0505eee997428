//! What is known of each peer, found by the peer's name.
use crate::server::p2p::messages::{PeerInfo, PeerInfoView};
use crate::server::p2p::peer_id::PeerId;
use crate::text::copy_opt_text;
use vstd::prelude::*;

verus! {

/// A record in peer store that holds all needed info of a peer. Times are in milliseconds.
pub struct PeerStoreRecord {
    /// The peer.
    pub peer_id: PeerId,
    /// What the peer told about itself.
    pub peer_info: PeerInfo,
    /// When the peer was first met.
    pub created: u64,
    /// When RandomX blocks were last asked for.
    pub last_rx_sync_attempt: Option<u64>,
    /// When SHA3x blocks were last asked for.
    pub last_sha3x_sync_attempt: Option<u64>,
    /// How often the peer was put on the grey list.
    pub num_grey_listings: u64,
    /// Why that was last done.
    pub last_grey_list_reason: Option<String>,
    /// How often in a row we tried to catch up with the peer.
    pub catch_up_attempts: u64,
    /// Time that the peer's last new tip bears, in seconds of the Unix epoch.
    pub last_new_tip_notify: Option<u64>,
    /// When the peer last answered a ping, in seconds of the Unix epoch.
    pub last_ping: Option<u64>,
}

/// What a [`PeerStoreRecord`] holds.
#[verifier::ext_equal]
pub struct RecordView {
    pub peer_id: Seq<char>,
    pub peer_info: PeerInfoView,
    pub created: u64,
    pub last_rx_sync_attempt: Option<u64>,
    pub last_sha3x_sync_attempt: Option<u64>,
    pub num_grey_listings: u64,
    pub last_grey_list_reason: Option<Seq<char>>,
    pub catch_up_attempts: u64,
    pub last_new_tip_notify: Option<u64>,
    pub last_ping: Option<u64>,
}

impl View for PeerStoreRecord {
    type V = RecordView;

    open spec fn view(&self) -> RecordView {
        RecordView {
            peer_id: self.peer_id@,
            peer_info: self.peer_info@,
            created: self.created,
            last_rx_sync_attempt: self.last_rx_sync_attempt,
            last_sha3x_sync_attempt: self.last_sha3x_sync_attempt,
            num_grey_listings: self.num_grey_listings,
            last_grey_list_reason: crate::text::opt_text(self.last_grey_list_reason),
            catch_up_attempts: self.catch_up_attempts,
            last_new_tip_notify: self.last_new_tip_notify,
            last_ping: self.last_ping,
        }
    }
}

impl Clone for PeerStoreRecord {
    fn clone(&self) -> (copy: Self)
        ensures
            copy@ == self@,
    {
        PeerStoreRecord {
            peer_id: self.peer_id.clone(),
            peer_info: self.peer_info.clone(),
            created: self.created,
            last_rx_sync_attempt: self.last_rx_sync_attempt,
            last_sha3x_sync_attempt: self.last_sha3x_sync_attempt,
            num_grey_listings: self.num_grey_listings,
            last_grey_list_reason: copy_opt_text(&self.last_grey_list_reason),
            catch_up_attempts: self.catch_up_attempts,
            last_new_tip_notify: self.last_new_tip_notify,
            last_ping: self.last_ping,
        }
    }
}

impl RecordView {
    /// The record of a peer that was just met.
    pub open spec fn fresh(peer_id: Seq<char>, peer_info: PeerInfoView, now: u64) -> RecordView {
        RecordView {
            peer_id,
            peer_info,
            created: now,
            last_rx_sync_attempt: None,
            last_sha3x_sync_attempt: None,
            num_grey_listings: 0,
            last_grey_list_reason: None,
            catch_up_attempts: 0,
            last_new_tip_notify: None,
            last_ping: None,
        }
    }

    /// When the peer was last heard of: the time of its last new tip, else of what it told about itself.
    pub open spec fn last_heard(self) -> u64 {
        match self.last_new_tip_notify {
            Some(timestamp) => timestamp,
            None => self.peer_info.timestamp,
        }
    }
}

impl PeerStoreRecord {
    /// The record of a peer that was just met.
    pub fn new(peer_id: PeerId, peer_info: PeerInfo, now: u64) -> (record: Self)
        ensures
            record@ == RecordView::fresh(peer_id@, peer_info@, now),
    {
        PeerStoreRecord {
            peer_id,
            peer_info,
            created: now,
            last_rx_sync_attempt: None,
            last_sha3x_sync_attempt: None,
            num_grey_listings: 0,
            last_grey_list_reason: None,
            catch_up_attempts: 0,
            last_new_tip_notify: None,
            last_ping: None,
        }
    }

    /// The record with another time for what the peer told about itself.
    pub fn with_timestamp(self, timestamp: u64) -> (record: Self)
        ensures
            record@ == (RecordView {
                peer_info: PeerInfoView { timestamp, ..self@.peer_info },
                ..self@
            }),
    {
        let mut record = self;
        record.peer_info.timestamp = timestamp;
        record
    }

    /// When the peer was last heard of.
    pub fn last_heard(&self) -> (timestamp: u64)
        ensures
            timestamp == self@.last_heard(),
    {
        match self.last_new_tip_notify {
            Some(timestamp) => timestamp,
            None => self.peer_info.timestamp,
        }
    }
}

/// Records of peers; no peer occurs twice.
pub struct PeerMap {
    /// The records, in the order in which the peers came.
    pub records: Vec<PeerStoreRecord>,
}

impl PeerMap {
    /// The peers with their records, in order.
    pub open spec fn list(&self) -> Seq<(Seq<char>, RecordView)> {
        self.records@.map_values(|r: PeerStoreRecord| (r.peer_id@, r@))
    }

    /// No peer occurs twice.
    pub open spec fn wf(&self) -> bool {
        crate::assoc::distinct_keys(self.list())
    }

    /// No peers.
    pub fn new() -> (map: PeerMap)
        ensures
            map.wf(),
            map@ == Map::<Seq<char>, RecordView>::empty(),
    {
        let map = PeerMap { records: Vec::new() };
        proof {
            crate::assoc::lemma_empty::<Seq<char>, RecordView>();
            assert(map.list() =~= Seq::<(Seq<char>, RecordView)>::empty());
        }
        map
    }

    /// Number of peers.
    pub fn len(&self) -> (len: usize)
        ensures
            len == self.list().len(),
            self.wf() ==> len == self@.dom().len(),
    {
        proof {
            if self.wf() {
                crate::assoc::lemma_len(self.list());
            }
        }
        self.records.len()
    }

    /// Where a peer's record is.
    pub fn position(&self, peer: &PeerId) -> (place: Option<usize>)
        requires
            self.wf(),
        ensures
            place is Some <==> self@.dom().contains(peer@),
            place matches Some(i) ==> i < self.records@.len() && self.list()[i as int].0 == peer@ && self.list()[i as int]
                == (peer@, self.records@[i as int]@) && self@[peer@] == self.records@[i as int]@,
    {
        let mut i: usize = 0;
        while i < self.records.len()
            invariant
                i <= self.records@.len(),
                self.wf(),
                forall|j: int| 0 <= j < i ==> (#[trigger] self.list()[j]).0 != peer@,
            decreases self.records@.len() - i,
        {
            assert(self.list()[i as int] == (self.records@[i as int].peer_id@, self.records@[i as int]@));
            if self.records[i].peer_id.same(peer) {
                proof {
                    crate::assoc::lemma_key_at(self.list(), i as int);
                }
                return Some(i);
            }
            i = i + 1;
        }
        None
    }

    /// A peer's record.
    pub fn get(&self, peer: &PeerId) -> (record: Option<&PeerStoreRecord>)
        requires
            self.wf(),
        ensures
            record is Some <==> self@.dom().contains(peer@),
            record matches Some(r) ==> self@[peer@] == r@ && r@.peer_id == peer@,
    {
        match self.position(peer) {
            Some(i) => Some(&self.records[i]),
            None => None,
        }
    }

    /// Whether a peer has a record.
    pub fn contains(&self, peer: &PeerId) -> (found: bool)
        requires
            self.wf(),
        ensures
            found <==> self@.dom().contains(peer@),
    {
        self.position(peer).is_some()
    }

    /// Sets the record of a peer.
    pub fn insert(&mut self, record: PeerStoreRecord)
        requires
            old(self).wf(),
        ensures
            final(self).wf(),
            final(self)@ == old(self)@.insert(record@.peer_id, record@),
    {
        let ghost before = self.list();
        let ghost view = record@;
        match self.position(&record.peer_id) {
            Some(i) => {
                proof {
                    crate::assoc::lemma_update(before, i as int, view);
                }
                self.records.set(i, record);
                assert(self.list() =~= before.update(i as int, (before[i as int].0, view)));
            },
            None => {
                proof {
                    crate::assoc::lemma_push(before, view.peer_id, view);
                }
                self.records.push(record);
                assert(self.list() =~= before.push((view.peer_id, view)));
            },
        }
    }

    /// Takes the record of a peer out.
    pub fn remove(&mut self, peer: &PeerId) -> (record: Option<PeerStoreRecord>)
        requires
            old(self).wf(),
        ensures
            final(self).wf(),
            final(self)@ == old(self)@.remove(peer@),
            record is Some <==> old(self)@.dom().contains(peer@),
            record matches Some(r) ==> r@ == old(self)@[peer@] && r@.peer_id == peer@,
    {
        let ghost before = self.list();
        match self.position(peer) {
            Some(i) => {
                proof {
                    crate::assoc::lemma_remove(before, i as int);
                }
                let record = self.records.remove(i);
                assert(self.list() =~= before.remove(i as int));
                Some(record)
            },
            None => {
                assert(self@.remove(peer@) =~= self@);
                None
            },
        }
    }
}

impl PeerMap {
    /// Takes some record out.
    pub fn take_one(&mut self) -> (record: Option<PeerStoreRecord>)
        requires
            old(self).wf(),
        ensures
            final(self).wf(),
            record is None <==> old(self)@ == Map::<Seq<char>, RecordView>::empty(),
            record is None <==> old(self).list().len() == 0,
            record is None ==> final(self)@ == old(self)@,
            record matches Some(r) ==> old(self)@.dom().contains(r@.peer_id) && old(self)@[r@.peer_id] == r@
                && final(self)@ == old(self)@.remove(r@.peer_id) && final(self).list().len() + 1 == old(
                self,
            ).list().len(),
    {
        let ghost before = self.list();
        match self.records.pop() {
            Some(record) => {
                proof {
                    let last = before.len() - 1;
                    assert(before[last] == (record.peer_id@, record@));
                    crate::assoc::lemma_key_at(before, last);
                    crate::assoc::lemma_remove(before, last);
                    assert(self.list() =~= before.remove(last));
                    assert(!Map::<Seq<char>, RecordView>::empty().dom().contains(record.peer_id@));
                }
                Some(record)
            },
            None => {
                assert(crate::assoc::map_of(before) =~= Map::<Seq<char>, RecordView>::empty());
                None
            },
        }
    }
}

impl View for PeerMap {
    type V = Map<Seq<char>, RecordView>;

    open spec fn view(&self) -> Map<Seq<char>, RecordView> {
        crate::assoc::map_of(self.list())
    }
}

}
