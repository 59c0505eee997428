//! With which peers a node catches up, and how far it got.
use crate::server::p2p::messages::CatchUpSyncRequest;
use crate::server::p2p::network::{PerformCatchUpSync, MAX_TIP_LEAD};
use crate::server::p2p::peer_id::PeerId;
use crate::server::p2p::recent_tips::{RecentTips, TipsView, MAX_TIPS_TO_KEEP};
use crate::types::{FixedHash, PowAlgorithm};
use vstd::prelude::*;

verus! {

/// A peer that was asked for blocks.
pub struct Asked {
    /// The peer.
    pub peer: PeerId,
    /// Number of the request.
    pub request_id: u64,
    /// The permit that the request holds, named by the chain that it was given for.
    pub permit: PowAlgorithm,
}

impl View for Asked {
    type V = (Seq<char>, (u64, PowAlgorithm));

    open spec fn view(&self) -> (Seq<char>, (u64, PowAlgorithm)) {
        (self.peer@, (self.request_id, self.permit))
    }
}

/// How far one chain is.
pub struct ChainSync {
    /// How many more peers can be asked at once.
    pub permits: usize,
    /// Peers that were asked and have not answered.
    pub in_progress: Vec<Asked>,
    /// The last block that was named in a request that has not been answered.
    pub last_requested: Option<(u64, FixedHash)>,
    /// The last blocks that peers sent.
    pub recent_tips: RecentTips,
    /// Whether the chain is level with the network.
    pub synced: bool,
}

/// What a [`ChainSync`] holds.
pub struct SyncView {
    pub permits: usize,
    pub in_progress: Seq<(Seq<char>, (u64, PowAlgorithm))>,
    pub last_requested: Option<(u64, FixedHash)>,
    pub tips: TipsView,
    pub synced: bool,
}

impl View for ChainSync {
    type V = SyncView;

    open spec fn view(&self) -> SyncView {
        SyncView {
            permits: self.permits,
            in_progress: self.in_progress@.map_values(|a: Asked| a@),
            last_requested: self.last_requested,
            tips: self.recent_tips@,
            synced: self.synced,
        }
    }
}

/// How far both chains are.
pub struct Syncs {
    /// The RandomX chain.
    pub random_x: ChainSync,
    /// The SHA3x chain.
    pub sha3x: ChainSync,
}

/// What [`Syncs`] hold.
pub struct SyncsView {
    pub random_x: SyncView,
    pub sha3x: SyncView,
}

impl View for Syncs {
    type V = SyncsView;

    open spec fn view(&self) -> SyncsView {
        SyncsView { random_x: self.random_x@, sha3x: self.sha3x@ }
    }
}

/// A request to a peer that is to be sent.
pub struct CatchUpCall {
    /// The peer.
    pub peer: PeerId,
    /// The request.
    pub request: CatchUpSyncRequest,
    /// The permit that the request holds.
    pub permit: PowAlgorithm,
}

/// What a [`CatchUpCall`] holds.
pub struct CallView {
    pub peer: Seq<char>,
    pub algo: PowAlgorithm,
    pub i_have: Seq<(u64, FixedHash)>,
    pub last: Option<(u64, FixedHash)>,
    pub permit: PowAlgorithm,
}

impl View for CatchUpCall {
    type V = CallView;

    open spec fn view(&self) -> CallView {
        CallView {
            peer: self.peer@,
            algo: self.request.algo,
            i_have: self.request.i_have@,
            last: self.request.last_block_received,
            permit: self.permit,
        }
    }
}

impl CallView {
    /// What an optional call holds.
    pub open spec fn of(call: Option<CatchUpCall>) -> Option<CallView> {
        match call {
            Some(c) => Some(c@),
            None => None,
        }
    }
}

impl SyncView {
    /// Nothing was asked for.
    pub open spec fn fresh(permits: usize, tips_to_keep: nat) -> SyncView {
        SyncView {
            permits,
            in_progress: Seq::empty(),
            last_requested: None,
            tips: TipsView { items: Seq::empty(), limit: tips_to_keep },
            synced: false,
        }
    }

    /// Whether a peer was asked and has not answered.
    pub open spec fn asked(self, peer: Seq<char>) -> bool {
        crate::assoc::has_key(self.in_progress, peer)
    }

    /// One more permit.
    pub open spec fn given_back(self) -> SyncView {
        SyncView {
            permits: if self.permits == usize::MAX {
                usize::MAX
            } else {
                (self.permits + 1) as usize
            },
            ..self
        }
    }

    /// Where the first request of this number is, at `from` or behind it.
    pub open spec fn place_of(list: Seq<(Seq<char>, (u64, PowAlgorithm))>, request_id: u64, from: int) -> Option<int>
        decreases list.len() - from,
    {
        if from < 0 || from >= list.len() {
            None
        } else if list[from].1.0 == request_id {
            Some(from)
        } else {
            SyncView::place_of(list, request_id, from + 1)
        }
    }

    /// Without the entry at a place.
    pub open spec fn without(self, place: int) -> SyncView {
        SyncView { in_progress: self.in_progress.remove(place), ..self }
    }

    /// How many requests of a list hold a permit of a chain.
    pub open spec fn held(list: Seq<(Seq<char>, (u64, PowAlgorithm))>, algo: PowAlgorithm) -> nat
        decreases list.len(),
    {
        if list.len() == 0 {
            0
        } else {
            SyncView::held(list.drop_last(), algo) + if list.last().1.1 == algo {
                1nat
            } else {
                0nat
            }
        }
    }
}

/// One, if the option is this algorithm.
pub open spec fn one_if(permit: Option<PowAlgorithm>, algo: PowAlgorithm) -> nat {
    if permit == Some(algo) {
        1
    } else {
        0
    }
}

impl SyncsView {
    /// One chain.
    pub open spec fn chain(self, algo: PowAlgorithm) -> SyncView {
        match algo {
            PowAlgorithm::RandomX => self.random_x,
            PowAlgorithm::Sha3x => self.sha3x,
        }
    }

    /// Another state of one chain.
    pub open spec fn with(self, algo: PowAlgorithm, view: SyncView) -> SyncsView {
        match algo {
            PowAlgorithm::RandomX => SyncsView { random_x: view, ..self },
            PowAlgorithm::Sha3x => SyncsView { sha3x: view, ..self },
        }
    }

    /// A permit comes back.
    pub open spec fn given_back(self, permit: Option<PowAlgorithm>) -> SyncsView {
        match permit {
            Some(algo) => self.with(algo, self.chain(algo).given_back()),
            None => self,
        }
    }

    /// Starts to catch up with a peer, if it is not being asked already and a permit is at hand or free. A request
    /// names the last block that the peer sent. If there is none, it names our own blocks, and the last block of a
    /// request that was not answered. The last blocks that peers sent are always named.
    pub open spec fn started(
        self,
        algo: PowAlgorithm,
        peer: Seq<char>,
        last: Option<(u64, FixedHash)>,
        their_height: u64,
        permit: Option<PowAlgorithm>,
        our_tip: u64,
        i_have: Seq<(u64, FixedHash)>,
    ) -> (SyncsView, Option<CallView>) {
        let progress = self.chain(algo).last_requested;
        let cleared = self.with(algo, SyncView { last_requested: None, ..self.chain(algo) });
        if self.chain(algo).asked(peer) {
            (cleared.given_back(permit), None)
        } else if permit is None && self.chain(algo).permits == 0 {
            (cleared, None)
        } else {
            let chain = cleared.chain(algo);
            let (blocks, named) = match last {
                Some(block) => (Seq::empty(), Some(block)),
                None => (i_have, progress),
            };
            let next = SyncView {
                permits: if permit is None {
                    (chain.permits - 1) as usize
                } else {
                    chain.permits
                },
                last_requested: named,
                synced: if our_tip + MAX_TIP_LEAD < their_height {
                    false
                } else {
                    chain.synced
                },
                ..chain
            };
            let call = CallView {
                peer,
                algo,
                i_have: chain.tips.oldest_first() + blocks,
                last: named,
                permit: match permit {
                    Some(p) => p,
                    None => algo,
                },
            };
            (cleared.with(algo, next), Some(call))
        }
    }

    /// Notes a request that was sent. If the peer was being asked already, the permit of that request comes back.
    pub open spec fn sent(self, algo: PowAlgorithm, peer: Seq<char>, request_id: u64, permit: PowAlgorithm) -> SyncsView {
        let chain = self.chain(algo);
        if chain.asked(peer) {
            let place = crate::assoc::key_index(chain.in_progress, peer);
            let next = SyncView {
                in_progress: chain.in_progress.update(place, (peer, (request_id, permit))),
                ..chain
            };
            self.with(algo, next).given_back(Some(chain.in_progress[place].1.1))
        } else {
            self.with(
                algo,
                SyncView { in_progress: chain.in_progress.push((peer, (request_id, permit))), ..chain },
            )
        }
    }

    /// Takes the permit of a request that was answered.
    pub open spec fn released(self, request_id: u64) -> (SyncsView, Option<PowAlgorithm>) {
        match SyncView::place_of(self.random_x.in_progress, request_id, 0) {
            Some(place) => (
                SyncsView { random_x: self.random_x.without(place), ..self },
                Some(self.random_x.in_progress[place].1.1),
            ),
            None => match SyncView::place_of(self.sha3x.in_progress, request_id, 0) {
                Some(place) => (
                    SyncsView { sha3x: self.sha3x.without(place), ..self },
                    Some(self.sha3x.in_progress[place].1.1),
                ),
                None => (self, None),
            },
        }
    }

    /// Forgets a request of one chain that failed; its permit comes back.
    pub open spec fn dropped(self, algo: PowAlgorithm, peer: Seq<char>, request_id: u64) -> SyncsView {
        let chain = self.chain(algo);
        let place = crate::assoc::key_index(chain.in_progress, peer);
        if chain.asked(peer) && chain.in_progress[place].1.0 == request_id {
            self.with(algo, chain.without(place)).given_back(Some(chain.in_progress[place].1.1))
        } else {
            self
        }
    }

    /// Forgets a request that failed.
    pub open spec fn failed(self, peer: Seq<char>, request_id: u64) -> SyncsView {
        self.dropped(PowAlgorithm::RandomX, peer, request_id).dropped(PowAlgorithm::Sha3x, peer, request_id)
    }

    /// All permits of a chain, those that are free and those that requests hold.
    pub open spec fn permits_of(self, algo: PowAlgorithm) -> nat {
        self.chain(algo).permits as nat + SyncView::held(self.random_x.in_progress, algo) + SyncView::held(
            self.sha3x.in_progress,
            algo,
        )
    }

    /// No peer is asked twice for one chain.
    pub open spec fn wf(self) -> bool {
        crate::assoc::distinct_keys(self.random_x.in_progress) && crate::assoc::distinct_keys(self.sha3x.in_progress)
    }
}

impl ChainSync {
    /// No peer is asked twice, and the last blocks are in order.
    pub open spec fn wf(&self) -> bool {
        crate::assoc::distinct_keys(self@.in_progress) && self.recent_tips.wf()
    }

    /// Nothing was asked for.
    pub fn new(permits: usize, tips_to_keep: usize) -> (sync: ChainSync)
        requires
            0 < tips_to_keep <= MAX_TIPS_TO_KEEP,
        ensures
            sync.wf(),
            sync@ == SyncView::fresh(permits, tips_to_keep as nat),
    {
        let sync = ChainSync {
            permits,
            in_progress: Vec::new(),
            last_requested: None,
            recent_tips: RecentTips::new(tips_to_keep),
            synced: false,
        };
        assert(sync@.in_progress =~= Seq::<(Seq<char>, (u64, PowAlgorithm))>::empty());
        sync
    }

    /// Where the request to a peer is.
    pub fn place_of_peer(&self, peer: &PeerId) -> (place: Option<usize>)
        requires
            self.wf(),
        ensures
            place is Some <==> self@.asked(peer@),
            place matches Some(i) ==> i < self.in_progress@.len() && i == crate::assoc::key_index(
                self@.in_progress,
                peer@,
            ) && self@.in_progress[i as int] == self.in_progress@[i as int]@ && self.in_progress@[i as int].peer@
                == peer@,
    {
        let mut i: usize = 0;
        while i < self.in_progress.len()
            invariant
                i <= self.in_progress@.len(),
                self.wf(),
                forall|j: int| 0 <= j < i ==> (#[trigger] self@.in_progress[j]).0 != peer@,
            decreases self.in_progress@.len() - i,
        {
            assert(self@.in_progress[i as int] == self.in_progress@[i as int]@);
            if self.in_progress[i].peer.same(peer) {
                proof {
                    crate::assoc::lemma_key_at(self@.in_progress, i as int);
                }
                return Some(i);
            }
            i = i + 1;
        }
        None
    }

    /// Where the request of a number is.
    pub fn place_of_request(&self, request_id: u64) -> (place: Option<usize>)
        ensures
            match place {
                Some(i) => SyncView::place_of(self@.in_progress, request_id, 0) == Some(i as int) && i
                    < self.in_progress@.len() && self@.in_progress[i as int] == self.in_progress@[i as int]@,
                None => SyncView::place_of(self@.in_progress, request_id, 0) is None,
            },
    {
        let mut i: usize = 0;
        while i < self.in_progress.len()
            invariant
                i <= self.in_progress@.len(),
                SyncView::place_of(self@.in_progress, request_id, 0) == SyncView::place_of(
                    self@.in_progress,
                    request_id,
                    i as int,
                ),
            decreases self.in_progress@.len() - i,
        {
            assert(self@.in_progress[i as int] == self.in_progress@[i as int]@);
            if self.in_progress[i].request_id == request_id {
                return Some(i);
            }
            i = i + 1;
        }
        None
    }

    /// One more permit.
    pub fn give_back(&mut self)
        ensures
            final(self)@ == old(self)@.given_back(),
            old(self).wf() ==> final(self).wf(),
    {
        if self.permits < usize::MAX {
            self.permits = self.permits + 1;
        }
    }

    /// Takes a request out of the list. Its permit is returned.
    fn take(&mut self, place: usize) -> (permit: PowAlgorithm)
        requires
            old(self).wf(),
            place < old(self).in_progress@.len(),
        ensures
            final(self).wf(),
            final(self)@ == old(self)@.without(place as int),
            permit == old(self)@.in_progress[place as int].1.1,
    {
        let ghost before = self@.in_progress;
        let asked = self.in_progress.remove(place);
        proof {
            assert(before[place as int] == asked@);
            crate::assoc::lemma_remove(before, place as int);
            assert(self@.in_progress =~= before.remove(place as int));
        }
        asked.permit
    }
}

impl Syncs {
    /// Both chains are in order.
    pub open spec fn wf(&self) -> bool {
        self.random_x.wf() && self.sha3x.wf()
    }

    /// Nothing was asked for.
    pub fn new(permits: usize, tips_to_keep: usize) -> (syncs: Syncs)
        requires
            0 < tips_to_keep <= MAX_TIPS_TO_KEEP,
        ensures
            syncs.wf(),
            syncs@.random_x == SyncView::fresh(permits, tips_to_keep as nat),
            syncs@.sha3x == SyncView::fresh(permits, tips_to_keep as nat),
    {
        Syncs { random_x: ChainSync::new(permits, tips_to_keep), sha3x: ChainSync::new(permits, tips_to_keep) }
    }

    /// The network was silent for long: both chains count as level with it.
    pub fn note_silence(&mut self)
        requires
            old(self).wf(),
        ensures
            final(self).wf(),
            final(self)@ == (SyncsView {
                random_x: SyncView { synced: true, ..old(self)@.random_x },
                sha3x: SyncView { synced: true, ..old(self)@.sha3x },
            }),
    {
        self.random_x.synced = true;
        self.sha3x.synced = true;
    }

    /// A permit comes back.
    pub fn give_back(&mut self, permit: Option<PowAlgorithm>)
        requires
            old(self).wf(),
        ensures
            final(self).wf(),
            final(self)@ == old(self)@.given_back(permit),
    {
        match permit {
            Some(PowAlgorithm::RandomX) => self.random_x.give_back(),
            Some(PowAlgorithm::Sha3x) => self.sha3x.give_back(),
            None => {},
        }
    }

    /// Starts to catch up with a peer. `i_have` are blocks of our chain.
    pub fn start(&mut self, request: PerformCatchUpSync, our_tip: u64, i_have: Vec<(u64, FixedHash)>) -> (call: Option<
        CatchUpCall,
    >)
        requires
            old(self).wf(),
        ensures
            final(self).wf(),
            (final(self)@, CallView::of(call)) == old(self)@.started(
                request.algo,
                request.peer@,
                request.last_block_from_them,
                request.their_height,
                request.permit,
                our_tip,
                i_have@,
            ),
    {
        let algo = request.algo;
        match algo {
            PowAlgorithm::RandomX => {
                let (call, back) = self.random_x.start(request, our_tip, i_have);
                self.give_back(back);
                call
            },
            PowAlgorithm::Sha3x => {
                let (call, back) = self.sha3x.start(request, our_tip, i_have);
                self.give_back(back);
                call
            },
        }
    }

    /// Notes a request that was sent.
    pub fn note_sent(&mut self, algo: PowAlgorithm, peer: PeerId, request_id: u64, permit: PowAlgorithm)
        requires
            old(self).wf(),
        ensures
            final(self).wf(),
            final(self)@ == old(self)@.sent(algo, peer@, request_id, permit),
    {
        let back = match algo {
            PowAlgorithm::RandomX => self.random_x.note_sent(peer, request_id, permit),
            PowAlgorithm::Sha3x => self.sha3x.note_sent(peer, request_id, permit),
        };
        self.give_back(back);
    }

    /// Takes the permit of a request that was answered.
    pub fn release_catchup_sync_permit(&mut self, request_id: u64) -> (permit: Option<PowAlgorithm>)
        requires
            old(self).wf(),
        ensures
            final(self).wf(),
            (final(self)@, permit) == old(self)@.released(request_id),
    {
        match self.random_x.place_of_request(request_id) {
            Some(place) => {
                return Some(self.random_x.take(place));
            },
            None => {},
        }
        match self.sha3x.place_of_request(request_id) {
            Some(place) => Some(self.sha3x.take(place)),
            None => None,
        }
    }

    /// Forgets a request that failed.
    pub fn forget_failed(&mut self, peer: &PeerId, request_id: u64)
        requires
            old(self).wf(),
        ensures
            final(self).wf(),
            final(self)@ == old(self)@.failed(peer@, request_id),
    {
        match self.random_x.place_of_peer(peer) {
            Some(place) => {
                if self.random_x.in_progress[place].request_id == request_id {
                    let permit = self.random_x.take(place);
                    self.give_back(Some(permit));
                }
            },
            None => {},
        }
        match self.sha3x.place_of_peer(peer) {
            Some(place) => {
                if self.sha3x.in_progress[place].request_id == request_id {
                    let permit = self.sha3x.take(place);
                    self.give_back(Some(permit));
                }
            },
            None => {},
        }
    }
}

impl ChainSync {
    /// Starts to catch up with a peer. The second result is a permit that has to go back.
    fn start(&mut self, request: PerformCatchUpSync, our_tip: u64, i_have: Vec<(u64, FixedHash)>) -> (result: (
        Option<CatchUpCall>,
        Option<PowAlgorithm>,
    ))
        requires
            old(self).wf(),
        ensures
            final(self).wf(),
            ({
                let cleared = SyncView { last_requested: None, ..old(self)@ };
                let (blocks, named) = match request.last_block_from_them {
                    Some(block) => (Seq::empty(), Some(block)),
                    None => (i_have@, old(self)@.last_requested),
                };
                if old(self)@.asked(request.peer@) {
                    final(self)@ == cleared && result.0 is None && result.1 == request.permit
                } else if request.permit is None && old(self)@.permits == 0 {
                    final(self)@ == cleared && result.0 is None && result.1 is None
                } else {
                    &&& final(self)@ == SyncView {
                        permits: if request.permit is None {
                            (old(self)@.permits - 1) as usize
                        } else {
                            old(self)@.permits
                        },
                        last_requested: named,
                        synced: if our_tip + MAX_TIP_LEAD < request.their_height {
                            false
                        } else {
                            old(self)@.synced
                        },
                        ..old(self)@
                    }
                    &&& CallView::of(result.0) == Some(
                        CallView {
                            peer: request.peer@,
                            algo: request.algo,
                            i_have: old(self)@.tips.oldest_first() + blocks,
                            last: named,
                            permit: match request.permit {
                                Some(p) => p,
                                None => request.algo,
                            },
                        },
                    )
                    &&& result.1 is None
                }
            }),
    {
        let progress = self.last_requested;
        self.last_requested = None;
        if self.place_of_peer(&request.peer).is_some() {
            return (None, request.permit);
        }
        let permit = match request.permit {
            Some(permit) => permit,
            None => {
                if self.permits == 0 {
                    return (None, None);
                }
                self.permits = self.permits - 1;
                request.algo
            },
        };
        let mut named = self.recent_tips.oldest_first();
        let ghost tips = named@;
        let last_block_from_them = match request.last_block_from_them {
            // A continuation: the peer knows where we are.
            Some(block) => {
                assert(named@ =~= tips + Seq::<(u64, FixedHash)>::empty());
                Some(block)
            },
            // A new attempt: the last one may have failed half way.
            None => {
                let mut blocks = i_have;
                named.append(&mut blocks);
                progress
            },
        };
        self.last_requested = last_block_from_them;
        if request.their_height > MAX_TIP_LEAD && our_tip < request.their_height - MAX_TIP_LEAD {
            self.synced = false;
        }
        (
            Some(
                CatchUpCall {
                    peer: request.peer,
                    request: CatchUpSyncRequest {
                        algo: request.algo,
                        i_have: named,
                        last_block_received: last_block_from_them,
                    },
                    permit,
                },
            ),
            None,
        )
    }

    /// Notes a request that was sent. The result is a permit that has to go back.
    fn note_sent(&mut self, peer: PeerId, request_id: u64, permit: PowAlgorithm) -> (back: Option<PowAlgorithm>)
        requires
            old(self).wf(),
        ensures
            final(self).wf(),
            old(self)@.asked(peer@) ==> ({
                let place = crate::assoc::key_index(old(self)@.in_progress, peer@);
                &&& final(self)@ == SyncView {
                    in_progress: old(self)@.in_progress.update(place, (peer@, (request_id, permit))),
                    ..old(self)@
                }
                &&& back == Some(old(self)@.in_progress[place].1.1)
            }),
            !old(self)@.asked(peer@) ==> final(self)@ == (SyncView {
                in_progress: old(self)@.in_progress.push((peer@, (request_id, permit))),
                ..old(self)@
            }) && back is None,
    {
        let ghost before = self@.in_progress;
        let ghost name = peer@;
        match self.place_of_peer(&peer) {
            Some(place) => {
                let back = self.in_progress[place].permit;
                proof {
                    crate::assoc::lemma_update(before, place as int, (request_id, permit));
                }
                self.in_progress.set(place, Asked { peer, request_id, permit });
                assert(self@.in_progress =~= before.update(place as int, (name, (request_id, permit))));
                Some(back)
            },
            None => {
                proof {
                    crate::assoc::lemma_push(before, name, (request_id, permit));
                }
                self.in_progress.push(Asked { peer, request_id, permit });
                assert(self@.in_progress =~= before.push((name, (request_id, permit))));
                None
            },
        }
    }
}

proof fn lemma_held_push(list: Seq<(Seq<char>, (u64, PowAlgorithm))>, entry: (Seq<char>, (u64, PowAlgorithm)), algo:
    PowAlgorithm)
    ensures
        SyncView::held(list.push(entry), algo) == SyncView::held(list, algo) + one_if(Some(entry.1.1), algo),
{
    assert(list.push(entry).drop_last() =~= list);
}

proof fn lemma_held_remove(list: Seq<(Seq<char>, (u64, PowAlgorithm))>, place: int, algo: PowAlgorithm)
    requires
        0 <= place < list.len(),
    ensures
        SyncView::held(list, algo) == SyncView::held(list.remove(place), algo) + one_if(
            Some(list[place].1.1),
            algo,
        ),
    decreases list.len(),
{
    if place == list.len() - 1 {
        assert(list.remove(place) =~= list.drop_last());
    } else {
        let rest = list.drop_last();
        lemma_held_remove(rest, place, algo);
        assert(list.remove(place).drop_last() =~= rest.remove(place));
        assert(list.remove(place).last() == list.last());
        assert(rest[place] == list[place]);
    }
}

proof fn lemma_held_update(
    list: Seq<(Seq<char>, (u64, PowAlgorithm))>,
    place: int,
    entry: (Seq<char>, (u64, PowAlgorithm)),
    algo: PowAlgorithm,
)
    requires
        0 <= place < list.len(),
    ensures
        SyncView::held(list.update(place, entry), algo) + one_if(Some(list[place].1.1), algo) == SyncView::held(
            list,
            algo,
        ) + one_if(Some(entry.1.1), algo),
{
    let changed = list.update(place, entry);
    lemma_held_remove(list, place, algo);
    lemma_held_remove(changed, place, algo);
    assert(list.remove(place) =~= changed.remove(place));
}

proof fn lemma_place_of(list: Seq<(Seq<char>, (u64, PowAlgorithm))>, request_id: u64, from: int)
    requires
        0 <= from,
    ensures
        SyncView::place_of(list, request_id, from) matches Some(place) ==> from <= place < list.len()
            && list[place].1.0 == request_id,
    decreases list.len() - from,
{
    if from < list.len() && list[from].1.0 != request_id {
        lemma_place_of(list, request_id, from + 1);
    }
}

/// Starting to catch up neither makes nor loses permits: of each chain there are as many as before, counting those
/// that are free, those that requests hold, the one that goes in and the one that comes out.
pub proof fn law_starting_keeps_permits(
    syncs: SyncsView,
    algo: PowAlgorithm,
    peer: Seq<char>,
    last: Option<(u64, FixedHash)>,
    their_height: u64,
    permit: Option<PowAlgorithm>,
    our_tip: u64,
    i_have: Seq<(u64, FixedHash)>,
    of: PowAlgorithm,
)
    requires
        syncs.permits_of(PowAlgorithm::RandomX) < usize::MAX,
        syncs.permits_of(PowAlgorithm::Sha3x) < usize::MAX,
    ensures
        ({
            let (next, call) = syncs.started(algo, peer, last, their_height, permit, our_tip, i_have);
            let taken = match call {
                Some(c) => Some(c.permit),
                None => None,
            };
            next.permits_of(of) + one_if(taken, of) == syncs.permits_of(of) + one_if(permit, of)
        }),
{
}

/// Noting a request that was sent puts its permit to those that requests hold.
pub proof fn law_sending_keeps_permits(
    syncs: SyncsView,
    algo: PowAlgorithm,
    peer: Seq<char>,
    request_id: u64,
    permit: PowAlgorithm,
    of: PowAlgorithm,
)
    requires
        syncs.permits_of(PowAlgorithm::RandomX) < usize::MAX,
        syncs.permits_of(PowAlgorithm::Sha3x) < usize::MAX,
    ensures
        syncs.sent(algo, peer, request_id, permit).permits_of(of) == syncs.permits_of(of) + one_if(Some(permit), of),
{
    let list = syncs.chain(algo).in_progress;
    let entry = (peer, (request_id, permit));
    if syncs.chain(algo).asked(peer) {
        let place = crate::assoc::key_index(list, peer);
        lemma_held_update(list, place, entry, of);
    } else {
        lemma_held_push(list, entry, of);
    }
}

/// An answer frees the permit that its request held, and no other.
pub proof fn law_answers_keep_permits(syncs: SyncsView, request_id: u64, of: PowAlgorithm)
    ensures
        ({
            let (next, taken) = syncs.released(request_id);
            next.permits_of(of) + one_if(taken, of) == syncs.permits_of(of)
        }),
{
    lemma_place_of(syncs.random_x.in_progress, request_id, 0);
    lemma_place_of(syncs.sha3x.in_progress, request_id, 0);
    match SyncView::place_of(syncs.random_x.in_progress, request_id, 0) {
        Some(place) => lemma_held_remove(syncs.random_x.in_progress, place, of),
        None => match SyncView::place_of(syncs.sha3x.in_progress, request_id, 0) {
            Some(place) => lemma_held_remove(syncs.sha3x.in_progress, place, of),
            None => {},
        },
    }
}

/// A request that fails gives its permit back.
pub proof fn law_failures_keep_permits(syncs: SyncsView, peer: Seq<char>, request_id: u64, of: PowAlgorithm)
    requires
        syncs.permits_of(PowAlgorithm::RandomX) < usize::MAX,
        syncs.permits_of(PowAlgorithm::Sha3x) < usize::MAX,
    ensures
        syncs.failed(peer, request_id).permits_of(of) == syncs.permits_of(of),
{
    lemma_dropped(syncs, PowAlgorithm::RandomX, peer, request_id, of);
    lemma_dropped(syncs, PowAlgorithm::RandomX, peer, request_id, PowAlgorithm::RandomX);
    lemma_dropped(syncs, PowAlgorithm::RandomX, peer, request_id, PowAlgorithm::Sha3x);
    let half = syncs.dropped(PowAlgorithm::RandomX, peer, request_id);
    lemma_dropped(half, PowAlgorithm::Sha3x, peer, request_id, of);
}

proof fn lemma_dropped(syncs: SyncsView, algo: PowAlgorithm, peer: Seq<char>, request_id: u64, of: PowAlgorithm)
    requires
        syncs.permits_of(PowAlgorithm::RandomX) < usize::MAX,
        syncs.permits_of(PowAlgorithm::Sha3x) < usize::MAX,
    ensures
        syncs.dropped(algo, peer, request_id).permits_of(of) == syncs.permits_of(of),
{
    let chain = syncs.chain(algo);
    let place = crate::assoc::key_index(chain.in_progress, peer);
    if chain.asked(peer) && chain.in_progress[place].1.0 == request_id {
        lemma_held_remove(chain.in_progress, place, of);
    }
}

/// A peer that is being asked is not asked again, and without a permit nobody is asked.
pub proof fn law_no_request_without_permit(
    syncs: SyncsView,
    algo: PowAlgorithm,
    peer: Seq<char>,
    last: Option<(u64, FixedHash)>,
    their_height: u64,
    permit: Option<PowAlgorithm>,
    our_tip: u64,
    i_have: Seq<(u64, FixedHash)>,
)
    ensures
        ({
            let (next, call) = syncs.started(algo, peer, last, their_height, permit, our_tip, i_have);
            &&& call is Some <==> !syncs.chain(algo).asked(peer) && (permit is Some || syncs.chain(algo).permits > 0)
            &&& call matches Some(c) ==> c.peer == peer && c.algo == algo
        }),
{
}

/// While a node continues with a peer it names the last block that the peer sent, and none of its own blocks. When it
/// starts anew after a request that was not answered, it names the last block of that request too.
pub proof fn law_progress_is_not_lost(
    syncs: SyncsView,
    algo: PowAlgorithm,
    peer: Seq<char>,
    last: Option<(u64, FixedHash)>,
    their_height: u64,
    permit: Option<PowAlgorithm>,
    our_tip: u64,
    i_have: Seq<(u64, FixedHash)>,
)
    requires
        syncs.started(algo, peer, last, their_height, permit, our_tip, i_have).1 is Some,
    ensures
        ({
            let (next, call) = syncs.started(algo, peer, last, their_height, permit, our_tip, i_have);
            let tips = syncs.chain(algo).tips.oldest_first();
            &&& last is Some ==> call.unwrap().last == last && call.unwrap().i_have == tips
            &&& last is None ==> call.unwrap().last == syncs.chain(algo).last_requested && call.unwrap().i_have == tips
                + i_have
            &&& next.chain(algo).last_requested == call.unwrap().last
        }),
{
    let (next, call) = syncs.started(algo, peer, last, their_height, permit, our_tip, i_have);
    let tips = syncs.chain(algo).tips.oldest_first();
    assert(tips + Seq::<(u64, FixedHash)>::empty() =~= tips);
}

}
