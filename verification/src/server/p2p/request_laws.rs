//! Laws on what peers are asked and on what becomes of their answers.
use crate::server::p2p::catch_up::CatchUpAnswer;
use crate::server::p2p::messages::{CatchUpSyncResponse, PeerInfoView, SyncMissingBlocksResponse};
use crate::server::p2p::missing_sync::{MissingAnswer, MissingView};
use crate::server::p2p::network::{ActionView, Clock, InnerView};
use crate::server::p2p::peer_store::StoreView;
use crate::server::p2p::service::ServiceView;
use crate::sharechain::chain_model::AddView;
use crate::types::{Difficulty, FixedHash, PowAlgorithm};
use vstd::prelude::*;

verus! {

impl ServiceView {
    /// Every one of these blocks lies more than 20 levels above the height that a peer told of last. A peer that told
    /// nothing does not fall short.
    pub open spec fn falls_short(self, peer: Seq<char>, algo: PowAlgorithm, missing: Seq<(u64, FixedHash)>) -> bool {
        ||| self.store.white.dom().contains(peer) && (forall|i: int|
            0 <= i < missing.len() ==> StoreView::height_of(self.store.white[peer], algo) + 20 < (
            #[trigger] missing[i]).0)
        ||| !self.store.white.dom().contains(peer) && self.store.grey.dom().contains(peer) && (forall|i: int|
            0 <= i < missing.len() ==> StoreView::height_of(self.store.grey[peer], algo) + 20 < (
            #[trigger] missing[i]).0)
    }

    /// An answer was left out: no chain changes, no peer is met or distrusted, and nothing is asked.
    pub open spec fn leaves_out(self, outcome: Option<(ServiceView, Seq<ActionView>)>) -> bool {
        &&& outcome matches Some((after, actions))
        &&& after.random_x == self.random_x
        &&& after.sha3x == self.sha3x
        &&& after.store == self.store
        &&& actions.len() == 0
    }
}

proof fn lemma_lowest(missing: Seq<(u64, FixedHash)>, n: int)
    requires
        0 < n <= missing.len(),
    ensures
        forall|i: int| 0 <= i < n ==> ServiceView::lowest(missing, n) <= (#[trigger] missing[i]).0,
        exists|i: int| 0 <= i < n && ServiceView::lowest(missing, n) == (#[trigger] missing[i]).0,
    decreases n,
{
    if n > 1 {
        lemma_lowest(missing, n - 1);
        if missing[n - 1].0 < ServiceView::lowest(missing, n - 1) {
            assert(ServiceView::lowest(missing, n) == missing[n - 1].0);
        } else {
            let i = choose|i: int| 0 <= i < n - 1 && ServiceView::lowest(missing, n - 1) == (#[trigger] missing[i]).0;
            assert(ServiceView::lowest(missing, n) == missing[i].0);
        }
    } else {
        assert(ServiceView::lowest(missing, n) == missing[0].0);
    }
}

proof fn lemma_lags(node: ServiceView, peer: Seq<char>, algo: PowAlgorithm, missing: Seq<(u64, FixedHash)>)
    requires
        missing.len() > 0,
    ensures
        node.lags(peer, algo, ServiceView::lowest(missing, missing.len() as int)) <==> node.falls_short(
            peer,
            algo,
            missing,
        ),
{
    let n = missing.len() as int;
    lemma_lowest(missing, n);
    let i = choose|i: int| 0 <= i < n && ServiceView::lowest(missing, n) == (#[trigger] missing[i]).0;
    assert(missing[i].0 == ServiceView::lowest(missing, n));
}

proof fn lemma_asked_of(
    node: ServiceView,
    connected: Seq<Seq<char>>,
    n: int,
    algo: PowAlgorithm,
    missing: Seq<(u64, FixedHash)>,
    depth: int,
    k: int,
)
    requires
        0 <= k < n <= connected.len(),
        !node.lags(connected[k], algo, ServiceView::lowest(missing, missing.len() as int)),
    ensures
        node.asked_of(connected, n, algo, missing, depth).contains(
            MissingView { peer: connected[k], algo, blocks: missing, depth },
        ),
    decreases n,
{
    let call = MissingView { peer: connected[k], algo, blocks: missing, depth };
    let calls = node.asked_of(connected, n, algo, missing, depth);
    if k == n - 1 {
        assert(calls.last() == call);
    } else {
        let before = node.asked_of(connected, n - 1, algo, missing, depth);
        lemma_asked_of(node, connected, n - 1, algo, missing, depth, k);
        let i = choose|i: int| 0 <= i < before.len() && before[i] == call;
        assert(calls[i] == call);
    }
}

/// Blocks that a new tip lacks are asked for from every connected peer that can have one of them, and from no other.
/// Blocks that other blocks lack are asked for from the peer that sent those, and from nobody else. Every question names
/// all missing blocks. Nothing is asked beyond the depth of the settings, and nothing if nothing is missing.
pub proof fn law_missing_blocks_are_asked_for(
    node: ServiceView,
    algo: PowAlgorithm,
    sender: Seq<char>,
    missing: Seq<(u64, FixedHash)>,
    from_notify: bool,
    depth: usize,
    connected: Seq<Seq<char>>,
    peer: Seq<char>,
)
    ensures
        ({
            let calls = node.missing_asked(algo, sender, missing, from_notify, depth, connected);
            let call = MissingView { peer, algo, blocks: missing, depth: depth + 1 };
            let is_asked = if from_notify {
                connected.contains(peer) && !node.falls_short(peer, algo, missing)
            } else {
                peer == sender
            };
            &&& calls.contains(call) <==> depth < node.config.max_missing_blocks_sync_depth && missing.len() > 0
                && is_asked
            &&& forall|i: int|
                0 <= i < calls.len() ==> (#[trigger] calls[i]).algo == algo && calls[i].blocks == missing
                    && calls[i].depth == depth + 1
        }),
{
    let calls = node.missing_asked(algo, sender, missing, from_notify, depth, connected);
    let call = MissingView { peer, algo, blocks: missing, depth: depth + 1 };
    let n = connected.len() as int;
    if depth < node.config.max_missing_blocks_sync_depth && missing.len() > 0 {
        lemma_lags(node, peer, algo, missing);
        if from_notify {
            crate::server::p2p::missing_sync::law_connected_peers_are_asked(
                node,
                connected,
                n,
                algo,
                missing,
                depth + 1,
            );
            crate::server::p2p::missing_sync::law_missing_blocks_have_a_depth(
                node,
                algo,
                sender,
                missing,
                from_notify,
                depth,
                connected,
            );
            if connected.contains(peer) && !node.falls_short(peer, algo, missing) {
                let k = choose|k: int| 0 <= k < n && connected[k] == peer;
                lemma_asked_of(node, connected, n, algo, missing, depth + 1, k);
            }
            if calls.contains(call) {
                let i = choose|i: int| 0 <= i < calls.len() && calls[i] == call;
                assert(node.asked_of(connected, n, algo, missing, depth + 1)[i].peer == peer);
            }
        } else {
            assert(calls[0].peer == sender);
            if peer == sender {
                assert(calls[0] == call);
            }
        }
    }
}

impl AddView {
    /// A list names what is missing: one entry for each block, with its height in front.
    pub open spec fn is_named_by(self, list: Seq<(u64, FixedHash)>) -> bool {
        &&& list.len() == self.missing.len()
        &&& forall|i: int| 0 <= i < list.len() ==> (#[trigger] list[i]).0 == self.missing[i].1 && list[i].1
            == self.missing[i].0
    }
}

/// Missing blocks that came are added to the chain of their algorithm, and to no other; an answer of another version
/// changes nothing. If a block is bad, its sender is trusted no longer. What the blocks lack in turn is asked for from the
/// same peer, one step deeper, unless the depth of the settings is reached.
pub proof fn law_missing_blocks_are_added(node: ServiceView, answer: MissingAnswer, depth: usize, fuel: nat)
    ensures
        answer.version != 7 || answer.blocks.len() == 0 ==> node.missing_answered(answer, depth, fuel) == Some(
            (node, Seq::<ActionView>::empty()),
        ),
        answer.version == 7 && answer.blocks.len() > 0 ==> {
            let outcome = node.missing_answered(answer, depth, fuel);
            let added = node.chain(answer.algo).synced_all(answer.blocks, fuel);
            &&& outcome is None <==> added is None
            &&& outcome matches Some((after, actions)) ==> {
                &&& after.chain(answer.algo) == (added->Some_0).0
                &&& node.changes_only(after, answer.algo)
                &&& after.syncs == node.syncs
                &&& match (added->Some_0).1 {
                    Err(_) => actions.len() == 0 && after.store.white == node.store.white.remove(answer.peer),
                    Ok(added) => {
                        &&& after.store == node.store
                        &&& if added.missing.len() > 0 && depth < node.config.max_missing_blocks_sync_depth {
                            &&& actions.len() == 1
                            &&& actions[0] matches ActionView::Queue(asked)
                            &&& asked matches InnerView::Missing { algo, peer, missing, from_notify, depth: next }
                            &&& algo == answer.algo && peer == answer.peer && !from_notify && next == depth + 1
                            &&& added.is_named_by(missing)
                        } else {
                            actions.len() == 0
                        }
                    },
                }
            }
        },
{
    if let Some((after, actions)) = node.missing_answered(answer, depth, fuel) {
        if answer.version == 7 && answer.blocks.len() > 0 {
            let (chain, result) = node.chain(answer.algo).synced_all(answer.blocks, fuel)->Some_0;
            if result is Err {
                assert(after.store.white =~= node.store.white.remove(answer.peer));
            }
        }
    }
}

/// Blocks that nobody asked for are not looked at, and no question is answered twice.
pub proof fn law_only_questions_are_answered(
    node: ServiceView,
    request_id: u64,
    missing: Option<(SyncMissingBlocksResponse, Vec<Option<Difficulty>>)>,
    fuel: nat,
)
    ensures
        !node.depths.dom().contains(request_id) || missing is None ==> node.leaves_out(
            node.missing_came(request_id, missing, fuel),
        ),
        node.missing_came(request_id, missing, fuel) matches Some((after, _)) ==> !after.depths.dom().contains(
            request_id,
        ),
        node.missing_came(request_id, missing, fuel) matches Some((after, _)) ==> forall|other: u64|
            other != request_id ==> (#[trigger] after.depths.dom().contains(other) <==> node.depths.dom().contains(
                other,
            )),
        (missing matches Some((response, achieved)) && node.depths.dom().contains(request_id)) ==> node.missing_came(
            request_id,
            missing,
            fuel,
        ) == (ServiceView { depths: node.depths.remove(request_id), ..node }).missing_answered(
            MissingAnswer::of((missing->Some_0).0, (missing->Some_0).1@),
            node.depths[request_id],
            fuel,
        ),
{
    reveal(ServiceView::missing_came);
    let noted = ServiceView { depths: node.depths.remove(request_id), ..node };
    if let Some((response, achieved)) = missing {
        if node.depths.dom().contains(request_id) {
            law_missing_blocks_are_added(
                noted,
                MissingAnswer::of(response, achieved@),
                node.depths[request_id],
                fuel,
            );
        }
    }
}

/// Blocks of a peer that the node catches up with are added to the chain of their algorithm, and to no other; an answer
/// of another version adds nothing. If a block is bad, its sender is trusted no longer, and nothing more is asked. Whatever
/// the blocks lack is asked for from the peer. The node goes on with the peer as long as the peer has more work, its tip has
/// not come, and it was not asked 500 times.
pub proof fn law_caught_up_blocks_are_added(
    node: ServiceView,
    answer: CatchUpAnswer,
    permit: Option<PowAlgorithm>,
    fuel: nat,
)
    ensures
        answer.version != 7 || answer.blocks.len() == 0 ==> node.leaves_out(
            node.catch_up_answered(answer, permit, fuel),
        ),
        answer.version == 7 && answer.blocks.len() > 0 ==> {
            let outcome = node.catch_up_answered(answer, permit, fuel);
            let added = node.chain(answer.algo).each_synced(answer.sorted(), 0, AddView::nothing(), fuel);
            &&& outcome is None <==> added is None
            &&& outcome matches Some((after, actions)) ==> {
                &&& after.chain(answer.algo) == (added->Some_0).0
                &&& node.changes_only(after, answer.algo)
                &&& match (added->Some_0).1 {
                    Err(_) => actions.len() == 0 && after.store.white == node.store.white.remove(answer.peer),
                    Ok(added) => {
                        let asks = if added.missing.len() > 0 {
                            1int
                        } else {
                            0int
                        };
                        let more = answer.pow > after.chain(answer.algo).chain.tip_pow() && (forall|i: int|
                            0 <= i < answer.blocks.len() ==> (#[trigger] answer.blocks[i]).0.hash != answer.tip.1) && (
                        node.store.white.dom().contains(answer.peer) ==> node.store.white[answer.peer].catch_up_attempts
                            < 500);
                        &&& actions.len() == asks + (if more {
                            1int
                        } else {
                            0int
                        })
                        &&& asks == 1 ==> {
                            &&& actions[0] matches ActionView::Queue(asked)
                            &&& asked matches InnerView::Missing { algo, peer, missing, from_notify, depth }
                            &&& algo == answer.algo && peer == answer.peer && !from_notify && depth == 0
                            &&& added.is_named_by(missing)
                        }
                        &&& more ==> {
                            &&& actions[asks] matches ActionView::Queue(asked)
                            &&& asked matches InnerView::CatchUp { algo, peer, last, their_height, permit: given }
                            &&& algo == answer.algo && peer == answer.peer && their_height == answer.tip.0 && given
                                == permit
                            &&& last is Some
                            &&& answer.is_highest(last->Some_0)
                        }
                    },
                }
            }
        },
{
    if answer.version == 7 && answer.blocks.len() > 0 {
        if let Some((after, actions)) = node.catch_up_answered(answer, permit, fuel) {
            let (chain, result) = node.chain(answer.algo).each_synced(
                answer.sorted(),
                0,
                AddView::nothing(),
                fuel,
            )->Some_0;
            answer.lemma_last();
            if result is Err {
                assert(after.store.white =~= node.store.white.remove(answer.peer));
            }
        }
    }
}

impl CatchUpAnswer {
    /// This is a block of the answer, and none lies above it.
    pub open spec fn is_highest(self, block: (u64, FixedHash)) -> bool {
        &&& exists|i: int|
            0 <= i < self.blocks.len() && (#[trigger] self.blocks[i]).0.height == block.0 && self.blocks[i].0.hash
                == block.1
        &&& forall|i: int| 0 <= i < self.blocks.len() ==> (#[trigger] self.blocks[i]).0.height <= block.0
    }

    proof fn lemma_last(self)
        requires
            self.blocks.len() > 0,
        ensures
            self.is_highest(self.last()),
    {
        broadcast use vstd::seq_lib::group_to_multiset_ensures;

        let sorted = self.sorted();
        crate::sharechain::sync_blocks::law_sorting_by_height(self.blocks);
        assert(sorted.contains(sorted.last()));
        assert(self.blocks.to_multiset().count(sorted.last()) > 0);
        let i = choose|i: int| 0 <= i < self.blocks.len() && self.blocks[i] == sorted.last();
        assert(self.blocks[i].0.hash == self.last().1);
        assert forall|j: int| 0 <= j < self.blocks.len() implies (#[trigger] self.blocks[j]).0.height
            <= self.last().0 by {
            assert(self.blocks.contains(self.blocks[j]));
            assert(sorted.to_multiset().count(self.blocks[j]) > 0);
            let k = choose|k: int| 0 <= k < sorted.len() && sorted[k] == self.blocks[j];
            assert(sorted[k].0.height <= sorted[sorted.len() - 1].0.height);
        }
    }
}

/// An answer to a request to catch up that could not be read adds nothing.
pub proof fn law_unreadable_answers_add_nothing(
    node: ServiceView,
    request_id: u64,
    caught: Option<(CatchUpSyncResponse, Vec<Option<Difficulty>>)>,
    fuel: nat,
)
    ensures
        caught is None ==> node.leaves_out(node.caught_came(request_id, caught, fuel)),
        caught matches Some((response, achieved)) ==> node.caught_came(request_id, caught, fuel) == (ServiceView {
            syncs: node.syncs.released(request_id).0,
            ..node
        }).catch_up_answered(CatchUpAnswer::of(response, achieved@), node.syncs.released(request_id).1, fuel),
{
    reveal(ServiceView::caught_came);
}

/// A node wants to catch up with a peer on a chain that it takes part in if the peer's chain has more work than ours, and
/// only then.
pub proof fn law_catching_up_is_wanted(node: ServiceView, algo: PowAlgorithm, peer: Seq<char>, info: PeerInfoView)
    ensures
        ({
            let wanted = node.catch_up_wanted(algo, peer, info);
            let (pow, height) = if algo == PowAlgorithm::RandomX {
                (info.current_random_x_pow, info.current_random_x_height)
            } else {
                (info.current_sha3x_pow, info.current_sha3x_height)
            };
            if node.config.enabled(algo) && pow > node.chain(algo).chain.tip_pow() {
                &&& wanted.len() == 1
                &&& wanted[0] == ActionView::Queue(
                    InnerView::CatchUp { algo, peer, last: None, their_height: height, permit: None },
                )
            } else {
                wanted.len() == 0
            }
        }),
{
}

/// All peers that another peer tells of by their names are learned, each once for every time it is told of, and no others.
pub proof fn law_told_peers_are_learned(infos: Seq<PeerInfoView>, n: int)
    requires
        0 <= n <= infos.len(),
    ensures
        forall|i: int|
            0 <= i < n && (#[trigger] infos[i]).peer_id is Some ==> ServiceView::told(infos, n).contains(
                ActionView::Learn(infos[i]),
            ),
        forall|j: int|
            0 <= j < ServiceView::told(infos, n).len() ==> exists|i: int|
                0 <= i < n && (#[trigger] infos[i]).peer_id is Some && #[trigger] ServiceView::told(infos, n)[j]
                    == ActionView::Learn(infos[i]),
        ServiceView::told(infos, n).len() == infos.take(n).filter(|i: PeerInfoView| i.peer_id is Some).len(),
    decreases n,
{
    let named = |i: PeerInfoView| i.peer_id is Some;
    reveal(Seq::filter);
    if n > 0 {
        law_told_peers_are_learned(infos, n - 1);
        let before = ServiceView::told(infos, n - 1);
        let told = ServiceView::told(infos, n);
        assert(infos.take(n).drop_last() =~= infos.take(n - 1));
        assert(infos.take(n).last() == infos[n - 1]);
        assert forall|i: int| 0 <= i < n && (#[trigger] infos[i]).peer_id is Some implies told.contains(
            ActionView::Learn(infos[i]),
        ) by {
            if i == n - 1 {
                assert(told.last() == ActionView::Learn(infos[i]));
            } else {
                let j = choose|j: int| 0 <= j < before.len() && before[j] == ActionView::Learn(infos[i]);
                assert(told[j] == before[j]);
            }
        }
        assert forall|j: int| 0 <= j < told.len() implies exists|i: int|
            0 <= i < n && (#[trigger] infos[i]).peer_id is Some && #[trigger] told[j] == ActionView::Learn(
                infos[i],
            ) by {
            if j < before.len() {
                assert(told[j] == before[j]);
                let i = choose|i: int|
                    0 <= i < n - 1 && (#[trigger] infos[i]).peer_id is Some && before[j] == ActionView::Learn(
                        infos[i],
                    );
                assert(infos[i].peer_id is Some);
            } else {
                assert(infos[n - 1].peer_id is Some);
            }
        }
    } else {
        assert(infos.take(0) =~= Seq::empty());
    }
}

/// A peer that follows other rules, or whose name cannot be read, is not added by what it answers. One of another squad is
/// not added either, and is left. Any other is known afterwards, and all that it tells of are learned. A seed peer is left
/// then. With any other peer a node that is no seed peer catches up on each chain on which the peer has more work.
pub proof fn law_exchanges_are_followed(
    node: ServiceView,
    peer_text: Seq<char>,
    info: PeerInfoView,
    best_peers: Seq<PeerInfoView>,
    clock: Clock,
    algo: PowAlgorithm,
)
    ensures
        ({
            let (after, actions) = node.exchange_answered(peer_text, info, best_peers, clock);
            match crate::server::p2p::peer_id::peer_named(peer_text) {
                None => after == node && actions.len() == 0,
                Some(peer) => {
                    let (pow, height) = if algo == PowAlgorithm::RandomX {
                        (info.current_random_x_pow, info.current_random_x_height)
                    } else {
                        (info.current_sha3x_pow, info.current_sha3x_height)
                    };
                    let catch_up = ActionView::Queue(
                        InnerView::CatchUp { algo, peer, last: None, their_height: height, permit: None },
                    );
                    let seed = node.store.seeds.contains(peer);
                    &&& info.version != 7 ==> after == node && actions.len() == 0
                    &&& info.version == 7 && info.squad != node.config.squad@ ==> after == node && actions.len() == 1
                        && actions[0] == ActionView::Disconnect(peer)
                    &&& info.version == 7 && info.squad == node.config.squad@ ==> {
                        &&& peer != node.local ==> after.store.knows(peer)
                        &&& seed ==> actions.contains(ActionView::Disconnect(peer))
                        &&& !seed && !node.config.is_seed_peer && node.config.enabled(algo) && pow > node.chain(
                            algo,
                        ).chain.tip_pow() ==> actions.contains(catch_up)
                        &&& forall|i: int|
                            0 <= i < best_peers.len() && (#[trigger] best_peers[i]).peer_id is Some
                                ==> actions.contains(ActionView::Learn(best_peers[i]))
                    }
                },
            }
        }),
{
    let (after, actions) = node.exchange_answered(peer_text, info, best_peers, clock);
    let n = best_peers.len() as int;
    let told = ServiceView::told(best_peers, n);
    law_told_peers_are_learned(best_peers, n);
    if let Some(peer) = crate::server::p2p::peer_id::peer_named(peer_text) {
        if info.version == 7 && info.squad == node.config.squad@ {
            let (added, first) = node.peer_added(peer, info, clock);
            let again = if peer != node.local && node.store.added(peer, info, clock.millis).1
                == crate::server::p2p::peer_store::AddPeerStatus::NewPeer {
                seq![ActionView::AddExplicitPeer(peer)]
            } else {
                Seq::empty()
            };
            let start = (first + again).len() as int;
            assert forall|i: int| 0 <= i < best_peers.len() && (
            #[trigger] best_peers[i]).peer_id is Some implies actions.contains(ActionView::Learn(best_peers[i])) by {
                let j = choose|j: int| 0 <= j < told.len() && told[j] == ActionView::Learn(best_peers[i]);
                assert(actions[start + j] == told[j]);
            }
            let so_far = first + again + told;
            if node.store.seeds.contains(peer) {
                assert(actions[so_far.len() as int] == ActionView::Disconnect(peer));
            } else if !node.config.is_seed_peer {
                let sha3x = added.catch_up_wanted(PowAlgorithm::Sha3x, peer, info);
                let random_x = added.catch_up_wanted(PowAlgorithm::RandomX, peer, info);
                assert(actions =~= so_far + sha3x + random_x);
                law_catching_up_is_wanted(added, algo, peer, info);
                if algo == PowAlgorithm::Sha3x && sha3x.len() == 1 {
                    assert(actions[so_far.len() as int] == sha3x[0]);
                }
                if algo == PowAlgorithm::RandomX && random_x.len() == 1 {
                    assert(actions[(so_far.len() + sha3x.len()) as int] == random_x[0]);
                }
            }
        }
    }
}

/// Whatever comes of it, the highest block of an answer is noted as the last that the peer sent. When the node is done with a
/// peer, its chain counts as synced if it did before, if no trusted peer has more work, or if no trusted peer has more work
/// than this one; while it goes on, that does not change.
pub proof fn law_level_chains_are_synced(
    node: ServiceView,
    answer: CatchUpAnswer,
    permit: Option<PowAlgorithm>,
    added: AddView,
    other: PowAlgorithm,
)
    requires
        other != answer.algo,
    ensures
        ({
            let after = node.caught_up(answer, permit, added).0;
            let pow = node.chain(answer.algo).chain.tip_pow();
            let white = node.store.white;
            let nobody_above = forall|k: Seq<char>| #[trigger]
                white.dom().contains(k) ==> StoreView::pow_of(white[k], answer.algo) <= pow;
            let is_best = white.dom().contains(answer.peer) && forall|k: Seq<char>| #[trigger]
                white.dom().contains(k) ==> StoreView::pow_of(white[k], answer.algo) <= StoreView::pow_of(
                    white[answer.peer],
                    answer.algo,
                );
            &&& after.syncs.chain(answer.algo).tips == node.syncs.chain(answer.algo).tips.put(
                answer.peer,
                answer.last(),
            )
            &&& node.goes_on(answer) ==> after.syncs.chain(answer.algo).synced == node.syncs.chain(answer.algo).synced
            &&& !node.goes_on(answer) ==> after.syncs.chain(answer.algo).synced == (node.syncs.chain(
                answer.algo,
            ).synced || nobody_above || is_best)
            &&& after.syncs.chain(other).synced == node.syncs.chain(other).synced
            &&& after.syncs.chain(other).tips == node.syncs.chain(other).tips
        }),
{
}

}
