//! A node catches up with peers whose chains have more work.
use crate::server::p2p::chain_sync::{CallView, CatchUpCall, SyncView};
use crate::server::p2p::messages::{to_unverified, CatchUpSyncRequest, CatchUpSyncResponse};
use crate::server::p2p::network::{
    no_actions, push_action, Action, ActionView, Clock, InnerRequest, InnerView, PerformCatchUpSync, SyncMissingBlocks,
    CATCH_UP_SYNC_BLOCKS_IN_I_HAVE, MAX_CATCH_UP_ATTEMPTS, MAX_CATCH_UP_BLOCKS_TO_RETURN,
};
use crate::server::p2p::peer_id::PeerId;
use crate::server::p2p::peer_map::RecordView;
use crate::server::p2p::peer_store::{PeerStore, StoreView};
use crate::server::p2p::service::{describe_bad_block, pair_with_achieved, Service, ServiceView};
use crate::sharechain::chain_model::AddView;
use crate::sharechain::error::ShareChainError;
use crate::sharechain::in_memory::CheckedBlock;
use crate::sharechain::p2block::{share, BlockView, P2Block, PROTOCOL_VERSION};
use crate::sharechain::p2chain::ChainAddResult;
use crate::sharechain::share_rules::ShareChainView;
use crate::sharechain::sync_blocks::sort_by_height;
use crate::types::{Difficulty, FixedHash, PowAlgorithm};
use std::sync::Arc;
use vstd::prelude::*;

verus! {

/// What a [`CatchUpSyncResponse`] holds, with the difficulties that its blocks reached.
pub struct CatchUpAnswer {
    pub version: u64,
    pub peer: Seq<char>,
    pub algo: PowAlgorithm,
    pub blocks: Seq<(BlockView, Option<u64>)>,
    pub tip: (u64, FixedHash),
    pub pow: u128,
}

impl CatchUpAnswer {
    /// What an answer holds. Its blocks no longer count as verified.
    pub open spec fn of(response: CatchUpSyncResponse, achieved: Seq<Option<Difficulty>>) -> CatchUpAnswer {
        CatchUpAnswer {
            version: response.version,
            peer: response.peer_id@,
            algo: response.algo,
            blocks: crate::server::p2p::service::with_achieved(
                crate::server::p2p::messages::unverified(crate::sharechain::in_memory::views(response.blocks@)),
                achieved,
            ),
            tip: response.tip,
            pow: response.achieved_pow,
        }
    }

    /// The blocks by height, lowest first.
    pub open spec fn sorted(self) -> Seq<(BlockView, Option<u64>)> {
        ShareChainView::by_height(self.blocks)
    }

    /// Height and hash of the highest block.
    pub open spec fn last(self) -> (u64, FixedHash) {
        (self.sorted().last().0.height, self.sorted().last().0.hash)
    }

    /// Whether a list holds the block of a hash.
    pub open spec fn holds(blocks: Seq<(BlockView, Option<u64>)>, hash: FixedHash) -> bool {
        exists|i: int| 0 <= i < blocks.len() && (#[trigger] blocks[i]).0.hash == hash
    }
}

impl StoreView {
    /// How often in a row we tried to catch up with a trusted peer.
    pub open spec fn catch_ups(self, peer: Seq<char>) -> Option<u64> {
        if self.white.dom().contains(peer) {
            Some(self.white[peer].catch_up_attempts)
        } else {
            None
        }
    }

    /// The store with another number of attempts for a trusted peer.
    pub open spec fn with_catch_ups(self, peer: Seq<char>, attempts: u64) -> StoreView {
        StoreView {
            white: StoreView::changed(
                self.white,
                peer,
                RecordView { catch_up_attempts: attempts, ..self.white[peer] },
            ),
            ..self
        }
    }
}

impl ServiceView {
    /// The state in which an answer came: nothing of its chain is asked for any more.
    pub open spec fn answer_came(self, algo: PowAlgorithm) -> ServiceView {
        ServiceView {
            syncs: self.syncs.with(algo, SyncView { last_requested: None, ..self.syncs.chain(algo) }),
            ..self
        }
    }

    /// A permit comes back.
    pub open spec fn given_back(self, permit: Option<PowAlgorithm>) -> ServiceView {
        ServiceView { syncs: self.syncs.given_back(permit), ..self }
    }

    /// Whether to go on with a peer: its chain has more work than ours, we have not got its tip, and we have not tried
    /// too often.
    pub open spec fn goes_on(self, answer: CatchUpAnswer) -> bool {
        &&& answer.pow > self.chain(answer.algo).chain.tip_pow()
        &&& !CatchUpAnswer::holds(answer.blocks, answer.tip.1)
        &&& (self.store.catch_ups(answer.peer) matches Some(attempts) ==> attempts < MAX_CATCH_UP_ATTEMPTS)
    }

    /// What follows when all blocks of an answer were added. Blocks that they lack are asked for. Then either we go on
    /// with the peer, with the same permit, or we are done with it; then our chain is level with the network if no
    /// trusted peer has more work, or if the peer was the one with most work.
    pub open spec fn caught_up(self, answer: CatchUpAnswer, permit: Option<PowAlgorithm>, added: AddView) -> (
        ServiceView,
        Seq<ActionView>,
    ) {
        let algo = answer.algo;
        let missing = if added.missing.len() == 0 {
            Seq::empty()
        } else {
            seq![
                ActionView::Queue(
                    InnerView::Missing {
                        algo,
                        peer: answer.peer,
                        missing: added.parents(),
                        from_notify: false,
                        depth: 0,
                    },
                ),
            ]
        };
        let sync = self.syncs.chain(algo);
        let noted = SyncView { tips: sync.tips.put(answer.peer, answer.last()), ..sync };
        if self.goes_on(answer) {
            let attempts = self.store.white[answer.peer].catch_up_attempts;
            (
                ServiceView {
                    syncs: self.syncs.with(algo, noted),
                    store: self.store.with_catch_ups(answer.peer, (attempts + 1) as u64),
                    ..self
                },
                missing + seq![
                    ActionView::Queue(
                        InnerView::CatchUp {
                            algo,
                            peer: answer.peer,
                            last: Some(answer.last()),
                            their_height: answer.tip.0,
                            permit,
                        },
                    ),
                ],
            )
        } else {
            let level = self.store.none_above(algo, self.chain(algo).chain.tip_pow()) || self.store.is_best(
                algo,
                answer.peer,
            );
            (
                ServiceView {
                    syncs: self.syncs.with(algo, SyncView { synced: level || noted.synced, ..noted }),
                    store: self.store.with_catch_ups(answer.peer, 0),
                    ..self
                }.given_back(permit),
                missing,
            )
        }
    }

    /// What follows when the blocks of an answer were added to a chain. A peer that sent a bad one is put on the grey list.
    pub open spec fn catch_up_added(
        self,
        answer: CatchUpAnswer,
        permit: Option<PowAlgorithm>,
        chain: ShareChainView,
        outcome: Result<AddView, ShareChainError>,
    ) -> (ServiceView, Seq<ActionView>) {
        let next = self.with_chain(answer.algo, chain);
        match outcome {
            Err(error) => {
                let reason = crate::server::p2p::service::bad_block_reason(error);
                (
                    ServiceView { store: next.store.greyed(answer.peer, reason), ..next.given_back(permit) },
                    Seq::empty(),
                )
            },
            Ok(added) => next.caught_up(answer, permit, added),
        }
    }

    /// What becomes of an answer of a peer that we catch up with. `None` if `fuel` does not suffice to add the blocks.
    pub open spec fn catch_up_answered(self, answer: CatchUpAnswer, permit: Option<PowAlgorithm>, fuel: nat) -> Option<
        (ServiceView, Seq<ActionView>),
    > {
        if answer.version != PROTOCOL_VERSION {
            Some((self.given_back(permit), Seq::empty()))
        } else if answer.blocks.len() == 0 {
            Some((self.answer_came(answer.algo).given_back(permit), Seq::empty()))
        } else {
            match self.chain(answer.algo).each_synced(answer.sorted(), 0, AddView::nothing(), fuel) {
                None => None,
                Some((chain, outcome)) => Some(
                    self.answer_came(answer.algo).catch_up_added(answer, permit, chain, outcome),
                ),
            }
        }
    }
}

/// Whether a list holds the block of a hash.
fn holds_hash(blocks: &Vec<CheckedBlock>, hash: FixedHash) -> (found: bool)
    ensures
        found <==> CatchUpAnswer::holds(crate::sharechain::sync_blocks::checked_views(blocks@), hash),
{
    let ghost all = crate::sharechain::sync_blocks::checked_views(blocks@);
    let mut i: usize = 0;
    while i < blocks.len()
        invariant
            i <= blocks@.len(),
            all == crate::sharechain::sync_blocks::checked_views(blocks@),
            forall|j: int| 0 <= j < i ==> (#[trigger] all[j]).0.hash != hash,
        decreases blocks@.len() - i,
    {
        assert(all[i as int] == blocks@[i as int]@);
        if blocks[i].block.hash == hash {
            return true;
        }
        i = i + 1;
    }
    false
}

impl Service {
    /// Answers a node that catches up with us: blocks from the highest one on that both have, and our tip.
    pub fn handle_catch_up_sync_request(&self, request: &CatchUpSyncRequest) -> (answer: CatchUpSyncResponse)
        requires
            self.wf(),
        ensures
            ({
                let chain = self@.chain(request.algo).chain;
                let last = chain.known_height(request.last_block_received);
                let split = chain.highest_match(request.i_have@, request.i_have@.len() as int);
                let start = if last > split {
                    last
                } else {
                    split
                };
                &&& answer.version == PROTOCOL_VERSION
                &&& answer.peer_id@ == self@.local
                &&& answer.algo == request.algo
                &&& crate::sharechain::in_memory::views(answer.blocks@) == chain.page(
                    start as int,
                    MAX_CATCH_UP_BLOCKS_TO_RETURN as int,
                    true,
                )
                &&& chain.syncs_from(request.i_have@, request.last_block_received, start as int)
                &&& chain.hands_out(
                    start as int,
                    MAX_CATCH_UP_BLOCKS_TO_RETURN as int,
                    true,
                    crate::sharechain::in_memory::views(answer.blocks@),
                )
                &&& answer.tip == (match chain.tip() {
                    Some(level) => (level.height, level.chain_block),
                    None => (0, FixedHash::spec_zero()),
                })
                &&& answer.achieved_pow == chain.tip_pow()
            }),
    {
        let algo = request.algo;
        let (blocks, tip) = match algo {
            PowAlgorithm::RandomX => (
                self.share_chain_random_x.request_sync(
                    request.i_have.as_slice(),
                    MAX_CATCH_UP_BLOCKS_TO_RETURN,
                    request.last_block_received,
                ),
                self.share_chain_random_x.get_tip(),
            ),
            PowAlgorithm::Sha3x => (
                self.share_chain_sha3x.request_sync(
                    request.i_have.as_slice(),
                    MAX_CATCH_UP_BLOCKS_TO_RETURN,
                    request.last_block_received,
                ),
                self.share_chain_sha3x.get_tip(),
            ),
        };
        let tip = match tip {
            Some(tip) => tip,
            None => (0, FixedHash::zero()),
        };
        CatchUpSyncResponse {
            version: PROTOCOL_VERSION,
            peer_id: self.local_peer_id.clone(),
            algo,
            blocks,
            tip,
            achieved_pow: self.chain_pow(algo),
        }
    }

    /// The newest blocks of one chain, as a peer is told of them that we catch up with: those of the main chain from
    /// [`CATCH_UP_SYNC_BLOCKS_IN_I_HAVE`] below the tip up to the tip, newest first.
    pub fn newest_blocks(&self, algo: PowAlgorithm) -> (list: Vec<(u64, FixedHash)>)
        requires
            self.wf(),
        ensures
            list@ == self@.chain(algo).chain.newest(CATCH_UP_SYNC_BLOCKS_IN_I_HAVE as int),
    {
        match algo {
            PowAlgorithm::RandomX => self.share_chain_random_x.create_catchup_sync_blocks(
                CATCH_UP_SYNC_BLOCKS_IN_I_HAVE,
            ),
            PowAlgorithm::Sha3x => self.share_chain_sha3x.create_catchup_sync_blocks(CATCH_UP_SYNC_BLOCKS_IN_I_HAVE),
        }
    }

    /// Starts to catch up with a peer. The peer is told of our newest blocks.
    pub fn perform_catch_up_sync(&mut self, request: PerformCatchUpSync) -> (call: Option<CatchUpCall>)
        requires
            old(self).wf(),
        ensures
            final(self).wf(),
            ({
                let (syncs, wanted) = old(self)@.syncs.started(
                    request.algo,
                    request.peer@,
                    request.last_block_from_them,
                    request.their_height,
                    request.permit,
                    old(self)@.tip_height(request.algo),
                    old(self)@.chain(request.algo).chain.newest(CATCH_UP_SYNC_BLOCKS_IN_I_HAVE as int),
                );
                CallView::of(call) == wanted && final(self)@ == (ServiceView { syncs, ..old(self)@ })
            }),
    {
        let our_tip = self.tip_height(request.algo);
        let i_have = self.newest_blocks(request.algo);
        self.syncs.start(request, our_tip, i_have)
    }

    /// Notes the number of a request that was sent to a peer that we catch up with.
    pub fn note_catch_up_sent(&mut self, call: CatchUpCall, request_id: u64, clock: Clock)
        requires
            old(self).wf(),
        ensures
            final(self).wf(),
            final(self)@ == (ServiceView {
                syncs: old(self)@.syncs.sent(call@.algo, call@.peer, request_id, call@.permit),
                store: StoreView {
                    white: StoreView::changed(
                        old(self)@.store.white,
                        call@.peer,
                        PeerStore::attempted(old(self)@.store.white[call@.peer], call@.algo, clock.millis),
                    ),
                    grey: StoreView::changed(
                        old(self)@.store.grey,
                        call@.peer,
                        PeerStore::attempted(old(self)@.store.grey[call@.peer], call@.algo, clock.millis),
                    ),
                    ..old(self)@.store
                },
                ..old(self)@
            }),
    {
        let algo = call.request.algo;
        self.network_peer_store.update_last_sync_attempt(&call.peer, algo, clock.millis);
        self.syncs.note_sent(algo, call.peer, request_id, call.permit);
    }

    /// Adds blocks one by one, lowest first, until one is bad.
    fn add_each(&mut self, algo: PowAlgorithm, blocks: &Vec<CheckedBlock>) -> (result: Result<
        ChainAddResult,
        ShareChainError,
    >)
        requires
            old(self).wf(),
        ensures
            final(self).wf(),
            final(self)@ == old(self)@.with_chain(algo, final(self)@.chain(algo)),
            exists|fuel: nat| #[trigger]
                old(self)@.chain(algo).each_synced(
                    crate::sharechain::sync_blocks::checked_views(blocks@),
                    0,
                    AddView::nothing(),
                    fuel,
                ) == Some((final(self)@.chain(algo), crate::sharechain::p2chain::add_outcome(result))),
    {
        let ghost all = crate::sharechain::sync_blocks::checked_views(blocks@);
        let ghost begin = self@;
        let ghost start = self@.chain(algo);
        let mut outcome = ChainAddResult::empty();
        let ghost mut spent: nat = 0;
        let mut i: usize = 0;
        while i < blocks.len()
            invariant
                i <= blocks@.len(),
                self.wf(),
                all == crate::sharechain::sync_blocks::checked_views(blocks@),
                self@ == begin.with_chain(algo, self@.chain(algo)),
                start == begin.chain(algo),
                begin == old(self)@,
                self@.chain(algo).chain.total_size == start.chain.total_size,
                AddView::distinct(outcome@.missing),
                forall|f: nat|
                    f >= spent ==> #[trigger] start.each_synced(all, 0, AddView::nothing(), f) == self@.chain(
                        algo,
                    ).each_synced(all, i as int, outcome@, f),
            decreases blocks@.len() - i,
        {
            let ghost before = self@.chain(algo);
            let ghost passed = outcome@;
            let mut one: Vec<CheckedBlock> = Vec::new();
            one.push(CheckedBlock { block: share(&blocks[i].block), achieved: blocks[i].achieved });
            let ghost single = crate::sharechain::sync_blocks::checked_views(one@);
            assert(all[i as int] == blocks@[i as int]@);
            assert(single =~= seq![all[i as int]]);
            let result = self.add_synced_blocks(algo, &one);
            let ghost view = crate::sharechain::p2chain::add_outcome(result);
            let ghost fuel = choose|fuel: nat| #[trigger]
                before.synced_all(single, fuel) == Some((self@.chain(algo), view));
            let ghost most: nat = if spent < fuel {
                fuel
            } else {
                spent
            };
            proof {
                assert forall|f: nat| f >= most implies #[trigger] before.synced_all(seq![all[i as int]], f) == Some(
                    (self@.chain(algo), view),
                ) by {
                    before.lemma_synced_all_fuel(single, fuel, f);
                }
            }
            match result {
                Ok(added) => {
                    let ghost added_view = added@;
                    outcome.combine(added);
                    proof {
                        assert forall|f: nat| f >= most implies #[trigger] start.each_synced(
                            all,
                            0,
                            AddView::nothing(),
                            f,
                        ) == self@.chain(algo).each_synced(all, i + 1, outcome@, f) by {
                            assert(before.synced_all(seq![all[i as int]], f) == Some(
                                (self@.chain(algo), Ok::<_, ShareChainError>(added_view)),
                            ));
                            assert(start.each_synced(all, 0, AddView::nothing(), f) == before.each_synced(
                                all,
                                i as int,
                                passed,
                                f,
                            ));
                        }
                        spent = most;
                    }
                },
                Err(error) => {
                    proof {
                        assert(before.synced_all(seq![all[i as int]], most) == Some(
                            (self@.chain(algo), Err::<AddView, _>(error)),
                        ));
                        assert(start.each_synced(all, 0, AddView::nothing(), most) == before.each_synced(
                            all,
                            i as int,
                            passed,
                            most,
                        ));
                        assert(start.each_synced(all, 0, AddView::nothing(), most) == Some(
                            (self@.chain(algo), Err::<AddView, _>(error)),
                        ));
                    }
                    return Err(error);
                },
            }
            i = i + 1;
        }
        assert(start.each_synced(all, 0, AddView::nothing(), spent) == Some(
            (self@.chain(algo), Ok::<_, ShareChainError>(outcome@)),
        ));
        Ok(outcome)
    }

    /// What follows when all blocks of an answer were added.
    fn after_catch_up(
        &mut self,
        peer: PeerId,
        algo: PowAlgorithm,
        tip: (u64, FixedHash),
        their_pow: u128,
        sorted: &Vec<CheckedBlock>,
        permit: Option<PowAlgorithm>,
        added: ChainAddResult,
        Ghost(answer): Ghost<CatchUpAnswer>,
    ) -> (actions: Vec<Action>)
        requires
            old(self).wf(),
            sorted@.len() > 0,
            answer.peer == peer@,
            answer.algo == algo,
            answer.tip == tip,
            answer.pow == their_pow,
            answer.sorted() == crate::sharechain::sync_blocks::checked_views(sorted@),
            CatchUpAnswer::holds(answer.blocks, tip.1) == CatchUpAnswer::holds(answer.sorted(), tip.1),
        ensures
            final(self).wf(),
            (final(self)@, Action::views(actions@)) == old(self)@.caught_up(answer, permit, added@),
    {
        let ghost start = self@;
        let ghost added_view = added@;
        let mut actions = no_actions();
        let last_block = &sorted[sorted.len() - 1].block;
        assert(answer.sorted().last() == sorted@[sorted@.len() - 1]@);
        let last: (u64, FixedHash) = (last_block.height, last_block.hash);
        match algo {
            PowAlgorithm::RandomX => self.syncs.random_x.recent_tips.put(&peer, last),
            PowAlgorithm::Sha3x => self.syncs.sha3x.recent_tips.put(&peer, last),
        }
        let missing_parents = added.into_missing_parents_vec();
        assert(missing_parents@.len() == added_view.missing.len());
        if missing_parents.len() > 0 {
            push_action(
                &mut actions,
                Action::Queue(
                    InnerRequest::DoSyncMissingBlocks(
                        SyncMissingBlocks {
                            algo,
                            peer: peer.clone(),
                            missing_parents,
                            is_from_new_block_notify: false,
                            depth: 0,
                        },
                    ),
                ),
            );
        }
        let ghost missing = Action::views(actions@);
        assert(missing =~= (if added_view.missing.len() == 0 {
            Seq::empty()
        } else {
            seq![
                ActionView::Queue(
                    InnerView::Missing {
                        algo,
                        peer: answer.peer,
                        missing: added_view.parents(),
                        from_notify: false,
                        depth: 0,
                    },
                ),
            ]
        }));
        let our_pow = self.chain_pow(algo);
        // Check if we have received their tip
        let must_continue = their_pow > our_pow && !holds_hash(sorted, tip.1);
        let may_continue = match self.network_peer_store.num_catch_ups(&peer) {
            Some(attempts) => attempts < MAX_CATCH_UP_ATTEMPTS,
            None => true,
        };
        if must_continue && may_continue {
            self.network_peer_store.add_catch_up_attempt(&peer);
            push_action(
                &mut actions,
                Action::Queue(
                    InnerRequest::PerformCatchUpSync(
                        PerformCatchUpSync {
                            algo,
                            peer,
                            last_block_from_them: Some(last),
                            their_height: tip.0,
                            permit,
                        },
                    ),
                ),
            );
            proof {
                assert(start.goes_on(answer));
                assert(Action::views(actions@) =~= start.caught_up(answer, permit, added_view).1);
                assert(self@.store.white =~= start.caught_up(answer, permit, added_view).0.store.white);
            }
        } else {
            // this only gets called after sync completes, lets set synced status = true
            if self.network_peer_store.is_level_with_network(algo, our_pow, &peer) {
                match algo {
                    PowAlgorithm::RandomX => {
                        self.syncs.random_x.synced = true;
                    },
                    PowAlgorithm::Sha3x => {
                        self.syncs.sha3x.synced = true;
                    },
                }
            }
            self.network_peer_store.reset_catch_up_attempts(&peer);
            self.syncs.give_back(permit);
        }
        actions
    }

    /// Nothing of a chain is asked for any more.
    fn note_answer(&mut self, algo: PowAlgorithm)
        requires
            old(self).wf(),
        ensures
            final(self).wf(),
            final(self)@ == old(self)@.answer_came(algo),
    {
        match algo {
            PowAlgorithm::RandomX => {
                self.syncs.random_x.last_requested = None;
            },
            PowAlgorithm::Sha3x => {
                self.syncs.sha3x.last_requested = None;
            },
        }
    }

    /// Adds the blocks of an answer, lowest first. Gives them back in that order.
    fn add_caught(&mut self, algo: PowAlgorithm, blocks: &Vec<Arc<P2Block>>, achieved: &Vec<Option<Difficulty>>) -> (caught: (
        Vec<CheckedBlock>,
        Result<ChainAddResult, ShareChainError>,
    ))
        requires
            old(self).wf(),
        ensures
            final(self).wf(),
            final(self)@ == old(self)@.with_chain(algo, final(self)@.chain(algo)),
            crate::sharechain::sync_blocks::checked_views(caught.0@) == ShareChainView::by_height(
                crate::server::p2p::service::with_achieved(
                    crate::server::p2p::messages::unverified(crate::sharechain::in_memory::views(blocks@)),
                    achieved@,
                ),
            ),
            exists|fuel: nat| #[trigger]
                old(self)@.chain(algo).each_synced(
                    crate::sharechain::sync_blocks::checked_views(caught.0@),
                    0,
                    AddView::nothing(),
                    fuel,
                ) == Some((final(self)@.chain(algo), crate::sharechain::p2chain::add_outcome(caught.1))),
    {
        let copies = to_unverified(blocks);
        let paired = pair_with_achieved(&copies, achieved);
        let sorted = sort_by_height(&paired);
        let result = self.add_each(algo, &sorted);
        let caught = (sorted, result);
        assert(exists|fuel: nat| #[trigger]
            old(self)@.chain(algo).each_synced(
                crate::sharechain::sync_blocks::checked_views(caught.0@),
                0,
                AddView::nothing(),
                fuel,
            ) == Some((self@.chain(algo), crate::sharechain::p2chain::add_outcome(caught.1))));
        caught
    }

    /// Adds the blocks of a peer that we catch up with, and goes on with it if need be. `permit` is the one that the
    /// request held.
    pub fn handle_catch_up_sync_response(
        &mut self,
        response: CatchUpSyncResponse,
        achieved: &Vec<Option<Difficulty>>,
        permit: Option<PowAlgorithm>,
    ) -> (actions: Vec<Action>)
        requires
            old(self).wf(),
        ensures
            final(self).wf(),
            exists|fuel: nat| #[trigger]
                old(self)@.catch_up_answered(CatchUpAnswer::of(response, achieved@), permit, fuel) == Some(
                    (final(self)@, Action::views(actions@)),
                ),
    {
        let ghost begin = self@;
        let ghost answer = CatchUpAnswer::of(response, achieved@);
        assert(answer.blocks.len() == response.blocks@.len());
        if response.version != PROTOCOL_VERSION {
            self.syncs.give_back(permit);
            let actions = no_actions();
            assert(begin.catch_up_answered(answer, permit, 0) == Some((self@, Action::views(actions@))));
            return actions;
        }
        let algo = response.algo;
        self.note_answer(algo);
        if response.blocks.len() == 0 {
            self.syncs.give_back(permit);
            let actions = no_actions();
            assert(begin.catch_up_answered(answer, permit, 0) == Some((self@, Action::views(actions@))));
            return actions;
        }
        let ghost start = self@;
        let (sorted, result) = self.add_caught(algo, &response.blocks, achieved);
        let ghost outcome = crate::sharechain::p2chain::add_outcome(result);
        let ghost chain = self@.chain(algo);
        let ghost fuel = choose|fuel: nat| #[trigger]
            start.chain(algo).each_synced(answer.sorted(), 0, AddView::nothing(), fuel) == Some((chain, outcome));
        proof {
            lemma_sorted_blocks(answer);
            assert(begin.catch_up_answered(answer, permit, fuel) == Some(
                start.catch_up_added(answer, permit, chain, outcome),
            ));
        }
        match result {
            Err(error) => {
                self.syncs.give_back(permit);
                self.network_peer_store.move_to_grey_list(&response.peer_id, describe_bad_block(&error));
                no_actions()
            },
            Ok(added) => self.after_catch_up(
                response.peer_id,
                algo,
                response.tip,
                response.achieved_pow,
                &sorted,
                permit,
                added,
                Ghost(answer),
            ),
        }
    }
}

/// Sorting keeps which blocks there are.
proof fn lemma_sorted_blocks(answer: CatchUpAnswer)
    ensures
        answer.sorted().len() == answer.blocks.len(),
        forall|hash: FixedHash| #[trigger]
            CatchUpAnswer::holds(answer.blocks, hash) == CatchUpAnswer::holds(answer.sorted(), hash),
{
    broadcast use vstd::seq_lib::group_to_multiset_ensures;

    let sorted = answer.sorted();
    crate::sharechain::sync_blocks::law_sorting_by_height(answer.blocks);
    assert forall|i: int| 0 <= i < sorted.len() implies answer.blocks.contains(#[trigger] sorted[i]) by {
        assert(sorted.contains(sorted[i]));
        assert(sorted.to_multiset().count(sorted[i]) > 0);
        assert(answer.blocks.to_multiset().count(sorted[i]) > 0);
    }
    assert forall|i: int| 0 <= i < answer.blocks.len() implies sorted.contains(#[trigger] answer.blocks[i]) by {
        assert(answer.blocks.contains(answer.blocks[i]));
        assert(answer.blocks.to_multiset().count(answer.blocks[i]) > 0);
        assert(sorted.to_multiset().count(answer.blocks[i]) > 0);
    }
    assert forall|hash: FixedHash| #[trigger]
        CatchUpAnswer::holds(answer.blocks, hash) == CatchUpAnswer::holds(sorted, hash) by {
        if CatchUpAnswer::holds(answer.blocks, hash) {
            let i = choose|i: int| 0 <= i < answer.blocks.len() && (#[trigger] answer.blocks[i]).0.hash == hash;
            assert(sorted.contains(answer.blocks[i]));
            let j = choose|j: int| 0 <= j < sorted.len() && sorted[j] == answer.blocks[i];
            assert(sorted[j].0.hash == hash);
        }
        if CatchUpAnswer::holds(sorted, hash) {
            let i = choose|i: int| 0 <= i < sorted.len() && (#[trigger] sorted[i]).0.hash == hash;
            assert(answer.blocks.contains(sorted[i]));
            let j = choose|j: int| 0 <= j < answer.blocks.len() && answer.blocks[j] == sorted[i];
            assert(answer.blocks[j].0.hash == hash);
        }
    }
}

/// A node does not go on with a trusted peer for ever: each step counts, and there are at most
/// [`MAX_CATCH_UP_ATTEMPTS`]. Once it is done with the peer, the count starts anew.
pub proof fn law_catching_up_is_bounded(
    node: ServiceView,
    answer: CatchUpAnswer,
    permit: Option<PowAlgorithm>,
    added: AddView,
)
    requires
        node.store.white.dom().contains(answer.peer),
    ensures
        ({
            let after = node.caught_up(answer, permit, added).0.store.catch_ups(answer.peer);
            let before = node.store.catch_ups(answer.peer);
            &&& node.goes_on(answer) ==> after == Some((before.unwrap() + 1) as u64) && after.unwrap()
                <= MAX_CATCH_UP_ATTEMPTS
            &&& !node.goes_on(answer) ==> after == Some(0u64)
        }),
{
}

/// Once the tip of a peer has come, or our chain has as much work, a node does not go on with the peer.
pub proof fn law_catching_up_ends_at_the_tip(node: ServiceView, answer: CatchUpAnswer)
    ensures
        CatchUpAnswer::holds(answer.blocks, answer.tip.1) ==> !node.goes_on(answer),
        answer.pow <= node.chain(answer.algo).chain.tip_pow() ==> !node.goes_on(answer),
{
}

/// The permit of an answered request is handed on if the node goes on with the peer, and else comes back.
pub proof fn law_permit_is_handed_on(
    node: ServiceView,
    answer: CatchUpAnswer,
    permit: Option<PowAlgorithm>,
    added: AddView,
    of: PowAlgorithm,
)
    requires
        node.syncs.permits_of(PowAlgorithm::RandomX) < usize::MAX,
        node.syncs.permits_of(PowAlgorithm::Sha3x) < usize::MAX,
    ensures
        ({
            let (after, actions) = node.caught_up(answer, permit, added);
            if node.goes_on(answer) {
                &&& after.syncs.permits_of(of) == node.syncs.permits_of(of)
                &&& actions.len() > 0
                &&& actions.last() == ActionView::Queue(
                    InnerView::CatchUp {
                        algo: answer.algo,
                        peer: answer.peer,
                        last: Some(answer.last()),
                        their_height: answer.tip.0,
                        permit,
                    },
                )
            } else {
                after.syncs.permits_of(of) == node.syncs.permits_of(of) + crate::server::p2p::chain_sync::one_if(
                    permit,
                    of,
                )
            }
        }),
{
}

}
