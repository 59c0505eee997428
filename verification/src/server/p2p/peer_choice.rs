//! Which peers to sync with and which to tell others of.
use crate::server::p2p::peer_id::PeerId;
use crate::server::p2p::peer_map::{PeerMap, PeerStoreRecord, RecordView};
use crate::server::p2p::peer_store::PeerStore;
use crate::types::PowAlgorithm;
use vstd::prelude::*;

verus! {

/// A peer that has not been heard of for this long, in seconds, is not synced with.
pub const MAX_SYNC_SILENCE: u64 = 60;

/// By what peers are ranked.
#[derive(Clone, Copy, PartialEq, Eq, Structural)]
pub enum Ranking {
    /// Those heard of last come first.
    LastHeard,
    /// Those with the highest chain come first; of these, those heard of last.
    Height(PowAlgorithm),
}

/// Which peers are wanted, and in what order.
pub struct PeerChoice {
    /// The order.
    pub ranking: Ranking,
    /// Only those heard of after this time.
    pub heard_after: Option<u64>,
    /// None of these.
    pub except: Vec<PeerId>,
}

/// What a [`PeerChoice`] holds.
pub struct ChoiceView {
    pub ranking: Ranking,
    pub heard_after: Option<u64>,
    pub except: Seq<Seq<char>>,
}

impl View for PeerChoice {
    type V = ChoiceView;

    open spec fn view(&self) -> ChoiceView {
        ChoiceView {
            ranking: self.ranking,
            heard_after: self.heard_after,
            except: PeerId::names(self.except@),
        }
    }
}

impl ChoiceView {
    /// Whether a peer is wanted: it can be reached, it was heard of, and it is not among those left out.
    pub open spec fn admits(self, record: RecordView) -> bool {
        &&& record.peer_info.public_addresses.len() > 0
        &&& self.heard_after matches Some(time) ==> record.last_heard() > time
        &&& !self.except.contains(record.peer_id)
    }

    /// What peers are compared by: first the first number, then the second.
    pub open spec fn rank(self, record: RecordView) -> (u64, u64) {
        match self.ranking {
            Ranking::LastHeard => (record.last_heard(), 0),
            Ranking::Height(PowAlgorithm::RandomX) => (record.peer_info.current_random_x_height, record.last_heard()),
            Ranking::Height(PowAlgorithm::Sha3x) => (record.peer_info.current_sha3x_height, record.last_heard()),
        }
    }

    /// Whether one peer has to come before another.
    pub open spec fn outranks(self, first: RecordView, second: RecordView) -> bool {
        self.rank(first).0 > self.rank(second).0 || self.rank(first).0 == self.rank(second).0 && self.rank(first).1
            > self.rank(second).1
    }

    /// Whether these are the best `count` of some peers, best first. Which of two peers of the same rank comes first
    /// is left open.
    pub open spec fn picks(self, all: Map<Seq<char>, RecordView>, count: nat, picked: Seq<RecordView>) -> bool {
        &&& picked.len() <= count
        &&& forall|i: int|
            0 <= i < picked.len() ==> all.dom().contains((#[trigger] picked[i]).peer_id) && all[picked[i].peer_id]
                == picked[i] && self.admits(picked[i])
        &&& forall|i: int, j: int|
            0 <= i < j < picked.len() ==> (#[trigger] picked[i]).peer_id != (#[trigger] picked[j]).peer_id
                && !self.outranks(picked[j], picked[i])
        &&& forall|k: Seq<char>| #[trigger]
            all.dom().contains(k) && self.admits(all[k]) && !picked.contains(all[k]) ==> picked.len() == count && (
            count > 0 ==> !self.outranks(all[k], picked.last()))
    }
}

impl PeerStoreRecord {
    /// What records hold.
    pub open spec fn views(records: Seq<PeerStoreRecord>) -> Seq<RecordView> {
        records.map_values(|r: PeerStoreRecord| r@)
    }
}

impl PeerChoice {
    /// Whether a peer is wanted.
    pub fn admits(&self, record: &PeerStoreRecord) -> (wanted: bool)
        ensures
            wanted == self@.admits(record@),
    {
        if record.peer_info.public_addresses.len() == 0 {
            return false;
        }
        match self.heard_after {
            Some(time) => {
                if record.last_heard() <= time {
                    return false;
                }
            },
            None => {},
        }
        !record.peer_id.is_in(&self.except)
    }

    /// What peers are compared by.
    pub fn rank(&self, record: &PeerStoreRecord) -> (rank: (u64, u64))
        ensures
            rank == self@.rank(record@),
    {
        match self.ranking {
            Ranking::LastHeard => (record.last_heard(), 0),
            Ranking::Height(PowAlgorithm::RandomX) => (record.peer_info.current_random_x_height, record.last_heard()),
            Ranking::Height(PowAlgorithm::Sha3x) => (record.peer_info.current_sha3x_height, record.last_heard()),
        }
    }

    /// Puts a record behind all those that it does not outrank.
    fn place(&self, sorted: &mut Vec<PeerStoreRecord>, record: PeerStoreRecord) -> (place: usize)
        requires
            forall|i: int, j: int|
                0 <= i < j < old(sorted)@.len() ==> !self@.outranks(
                    (#[trigger] old(sorted)@[j])@,
                    (#[trigger] old(sorted)@[i])@,
                ),
        ensures
            place <= old(sorted)@.len(),
            final(sorted)@ == old(sorted)@.insert(place as int, record),
            forall|i: int, j: int|
                0 <= i < j < final(sorted)@.len() ==> !self@.outranks(
                    (#[trigger] final(sorted)@[j])@,
                    (#[trigger] final(sorted)@[i])@,
                ),
    {
        let ghost before = sorted@;
        let rank = self.rank(&record);
        let mut place: usize = 0;
        let mut found = false;
        while place < sorted.len() && !found
            invariant
                sorted@ == before,
                rank == self@.rank(record@),
                place <= before.len(),
                found ==> place < before.len() && self@.outranks(record@, before[place as int]@),
                forall|i: int| 0 <= i < place ==> !self@.outranks(record@, (#[trigger] before[i])@),
            decreases (before.len() - place) * 2 - (if found { 1int } else { 0int }),
        {
            let other = self.rank(&sorted[place]);
            if rank.0 > other.0 || rank.0 == other.0 && rank.1 > other.1 {
                found = true;
            } else {
                place = place + 1;
            }
        }
        sorted.insert(place, record);
        proof {
            assert forall|i: int, j: int| 0 <= i < j < sorted@.len() implies !self@.outranks(
                (#[trigger] sorted@[j])@,
                (#[trigger] sorted@[i])@,
            ) by {
                if i == place {
                    assert(sorted@[j] == before[j - 1]);
                    assert(before[place as int]@ == before[place as int]@);
                } else if j == place {
                    assert(sorted@[i] == before[i]);
                } else {
                    let a = if i < place {
                        i
                    } else {
                        i - 1
                    };
                    let b = if j < place {
                        j
                    } else {
                        j - 1
                    };
                    assert(sorted@[i] == before[a] && sorted@[j] == before[b]);
                }
            }
        }
        place
    }
}

impl PeerMap {
    /// The best `count` peers, best first.
    pub fn best(&self, count: usize, choice: &PeerChoice) -> (picked: Vec<PeerStoreRecord>)
        requires
            self.wf(),
        ensures
            choice@.picks(self@, count as nat, PeerStoreRecord::views(picked@)),
    {
        let mut picked: Vec<PeerStoreRecord> = Vec::new();
        if count == 0 {
            return picked;
        }
        let ghost list = self.list();
        // Where in the list the picked ones are.
        let ghost mut places: Seq<int> = Seq::empty();
        let mut n: usize = 0;
        while n < self.records.len()
            invariant
                n <= self.records@.len(),
                count > 0,
                self.wf(),
                list == self.list(),
                picked@.len() <= count,
                places.len() == picked@.len(),
                forall|i: int|
                    0 <= i < picked@.len() ==> 0 <= (#[trigger] places[i]) < n && list[places[i]].1 == picked@[i]@
                        && choice@.admits(picked@[i]@),
                forall|i: int, j: int| 0 <= i < j < places.len() ==> (#[trigger] places[i]) != (#[trigger] places[j]),
                forall|i: int, j: int|
                    0 <= i < j < picked@.len() ==> !choice@.outranks(
                        (#[trigger] picked@[j])@,
                        (#[trigger] picked@[i])@,
                    ),
                forall|m: int|
                    0 <= m < n && choice@.admits((#[trigger] list[m]).1) && !places.contains(m) ==> picked@.len()
                        == count && !choice@.outranks(list[m].1, picked@.last()@),
            decreases self.records@.len() - n,
        {
            let record = &self.records[n];
            assert(list[n as int] == (record.peer_id@, record@));
            if choice.admits(record) {
                let ghost before = picked@;
                let ghost held = places;
                let copy = record.clone();
                let ghost view = copy@;
                let place = choice.place(&mut picked, copy);
                proof {
                    places = held.insert(place as int, n as int);
                    assert forall|i: int| 0 <= i < picked@.len() implies 0 <= (#[trigger] places[i]) < n + 1
                        && list[places[i]].1 == picked@[i]@ && choice@.admits(picked@[i]@) by {
                        if i < place {
                            assert(places[i] == held[i] && picked@[i] == before[i]);
                        } else if i > place {
                            assert(places[i] == held[i - 1] && picked@[i] == before[i - 1]);
                        }
                    }
                    assert forall|i: int, j: int| 0 <= i < j < places.len() implies (#[trigger] places[i]) != (
                    #[trigger] places[j]) by {
                        let a = if i < place {
                            i
                        } else {
                            i - 1
                        };
                        let b = if j < place {
                            j
                        } else {
                            j - 1
                        };
                        if i != place {
                            assert(places[i] == held[a]);
                        }
                        if j != place {
                            assert(places[j] == held[b]);
                        }
                    }
                    assert forall|m: int| held.contains(m) implies places.contains(m) by {
                        let i = choose|i: int| 0 <= i < held.len() && held[i] == m;
                        if i < place {
                            assert(places[i] == m);
                        } else {
                            assert(places[i + 1] == m);
                        }
                    }
                    assert(places[place as int] == n);
                }
                if picked.len() > count {
                    let ghost full = picked@;
                    let ghost marks = places;
                    picked.pop();
                    proof {
                        places = marks.drop_last();
                        assert(picked@ =~= full.drop_last());
                        let last = picked@.len() - 1;
                        assert forall|m: int|
                            0 <= m < n + 1 && choice@.admits((#[trigger] list[m]).1) && !places.contains(
                                m,
                            ) implies picked@.len() == count && !choice@.outranks(list[m].1, picked@.last()@) by {
                            assert(picked@[last] == full[last]);
                            if marks.contains(m) {
                                let i = choose|i: int| 0 <= i < marks.len() && marks[i] == m;
                                if i < marks.len() - 1 {
                                    assert(places[i] == m);
                                }
                                assert(full[i]@ == list[m].1);
                                assert(!choice@.outranks(full[last + 1]@, full[last]@));
                            } else {
                                assert(!held.contains(m));
                                assert(!choice@.outranks(list[m].1, before.last()@));
                                if place == before.len() {
                                    assert(full[last] == before.last());
                                } else {
                                    assert(full[last + 1] == before.last());
                                    assert(!choice@.outranks(full[last + 1]@, full[last]@));
                                }
                            }
                        }
                    }
                } else {
                    proof {
                        assert forall|m: int|
                            0 <= m < n + 1 && choice@.admits((#[trigger] list[m]).1) && !places.contains(
                                m,
                            ) implies picked@.len() == count && !choice@.outranks(list[m].1, picked@.last()@) by {
                            assert(!held.contains(m));
                            assert(m != n);
                        }
                    }
                }
            }
            n = n + 1;
        }
        proof {
            let views = PeerStoreRecord::views(picked@);
            assert forall|i: int| 0 <= i < views.len() implies self@.dom().contains((#[trigger] views[i]).peer_id)
                && self@[views[i].peer_id] == views[i] && choice@.admits(views[i]) by {
                assert(list[places[i]] == (self.records@[places[i]].peer_id@, self.records@[places[i]]@));
                crate::assoc::lemma_key_at(list, places[i]);
            }
            assert forall|i: int, j: int| 0 <= i < j < views.len() implies (#[trigger] views[i]).peer_id != (
            #[trigger] views[j]).peer_id && !choice@.outranks(views[j], views[i]) by {
                assert(list[places[i]] == (self.records@[places[i]].peer_id@, self.records@[places[i]]@));
                assert(list[places[j]] == (self.records@[places[j]].peer_id@, self.records@[places[j]]@));
                assert(list[places[i]].0 != list[places[j]].0);
                assert(views[i] == picked@[i]@ && views[j] == picked@[j]@);
            }
            assert forall|k: Seq<char>| #[trigger]
                self@.dom().contains(k) && choice@.admits(self@[k]) && !views.contains(
                    self@[k],
                ) implies views.len() == count && !choice@.outranks(self@[k], views.last()) by {
                let m = crate::assoc::key_index(list, k);
                assert(list[m].1 == self@[k]);
                if places.contains(m) {
                    let i = choose|i: int| 0 <= i < places.len() && places[i] == m;
                    assert(views[i] == self@[k]);
                }
            }
        }
        picked
    }
}

impl PeerStore {
    /// The best trusted peers to tell another node of, those heard of last first. Peers that the other node knows
    /// are left out.
    pub fn best_peers_to_share(&self, count: usize, other_nodes_peers: Vec<PeerId>) -> (picked: Vec<PeerStoreRecord>)
        requires
            self.wf(),
        ensures
            (ChoiceView {
                ranking: Ranking::LastHeard,
                heard_after: None,
                except: PeerId::names(other_nodes_peers@),
            }).picks(self@.white, count as nat, PeerStoreRecord::views(picked@)),
    {
        let choice = PeerChoice { ranking: Ranking::LastHeard, heard_after: None, except: other_nodes_peers };
        self.whitelist_peers.best(count, &choice)
    }

    /// The best trusted peers to sync with at time `now`, those with the highest chain first. Peers that have been
    /// silent are left out.
    pub fn best_peers_to_sync(&self, count: usize, algo: PowAlgorithm, now: u64) -> (picked: Vec<PeerStoreRecord>)
        requires
            self.wf(),
        ensures
            (ChoiceView {
                ranking: Ranking::Height(algo),
                heard_after: Some(
                    if now >= MAX_SYNC_SILENCE {
                        (now - MAX_SYNC_SILENCE) as u64
                    } else {
                        0
                    },
                ),
                except: Seq::empty(),
            }).picks(self@.white, count as nat, PeerStoreRecord::views(picked@)),
    {
        let oldest: u64 = if now >= MAX_SYNC_SILENCE {
            now - MAX_SYNC_SILENCE
        } else {
            0
        };
        let choice = PeerChoice { ranking: Ranking::Height(algo), heard_after: Some(oldest), except: Vec::new() };
        assert(choice@.except =~= Seq::empty());
        self.whitelist_peers.best(count, &choice)
    }
}

}
