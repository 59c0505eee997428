//! Laws on what becomes of the messages of peers.
use crate::server::p2p::messages::PeerInfoView;
use crate::server::p2p::network::{ActionView, Clock, InnerView, MessageAcceptance};
use crate::server::p2p::service::{ServiceView, TipNotice};
use crate::sharechain::p2block::BlockView;
use crate::types::PowAlgorithm;
use vstd::prelude::*;

verus! {

impl TipNotice {
    /// Some block of the notice lies above this height.
    pub open spec fn rises_above(self, height: int) -> bool {
        exists|i: int| 0 <= i < self.blocks.len() && (#[trigger] self.blocks[i]).0.height > height
    }

    /// Whether a node looks at the blocks: the notice follows our rules and is at most a minute old, it is about a chain
    /// that the node takes part in, no block lies more than 10 levels above the tip, and the notice tells of as much work
    /// as ours or of a block less than 4 levels below the tip.
    pub open spec fn is_news(self, node: ServiceView, clock: Clock) -> bool {
        let tip = node.tip_height(self.algo);
        &&& self.version == 7
        &&& self.timestamp + 60 >= clock.epoch
        &&& node.config.enabled(self.algo)
        &&& self.blocks.len() > 0
        &&& !self.rises_above(tip + 10)
        &&& self.pow >= node.chain(self.algo).chain.tip_pow() || (self.rises_above(0) && self.rises_above(tip - 4))
    }
}

impl ServiceView {
    /// Nothing but one chain and the lists of peers differs.
    pub open spec fn changes_only(self, after: ServiceView, algo: PowAlgorithm) -> bool {
        &&& after.config == self.config
        &&& after.local == self.local
        &&& after.relays == self.relays
        &&& after.depths == self.depths
        &&& algo == PowAlgorithm::RandomX ==> after.sha3x == self.sha3x
        &&& algo == PowAlgorithm::Sha3x ==> after.random_x == self.random_x
    }
}

/// The height of a notice is that of its highest block.
pub proof fn law_height_of_a_notice(blocks: Seq<(BlockView, Option<u64>)>)
    ensures
        forall|i: int| 0 <= i < blocks.len() ==> (#[trigger] blocks[i]).0.height <= TipNotice::max_height(blocks),
        blocks.len() > 0 ==> exists|i: int|
            0 <= i < blocks.len() && (#[trigger] blocks[i]).0.height == TipNotice::max_height(blocks),
    decreases blocks.len(),
{
    if blocks.len() > 0 {
        let rest = blocks.drop_last();
        law_height_of_a_notice(rest);
        assert forall|i: int| 0 <= i < blocks.len() implies (#[trigger] blocks[i]).0.height <= TipNotice::max_height(
            blocks,
        ) by {
            if i < rest.len() {
                assert(rest[i] == blocks[i]);
            }
        }
        if rest.len() > 0 && blocks.last().0.height <= TipNotice::max_height(rest) {
            let i = choose|i: int| 0 <= i < rest.len() && (#[trigger] rest[i]).0.height == TipNotice::max_height(rest);
            assert(blocks[i] == rest[i]);
        } else {
            assert(blocks[blocks.len() - 1] == blocks.last());
        }
    }
}

/// Each algorithm has its own chain, and the height of a chain is that of its tip.
pub proof fn law_each_algorithm_has_its_chain(node: ServiceView, algo: PowAlgorithm)
    ensures
        algo == PowAlgorithm::RandomX ==> node.chain(algo) == node.random_x,
        algo == PowAlgorithm::Sha3x ==> node.chain(algo) == node.sha3x,
        node.chain(algo).chain.tip() is Some ==> node.tip_height(algo) == node.chain(algo).chain.current_tip,
        node.chain(algo).chain.tip() is None ==> node.tip_height(algo) == 0,
        algo == PowAlgorithm::RandomX ==> node.config.enabled(algo) == node.config.randomx_enabled,
        algo == PowAlgorithm::Sha3x ==> node.config.enabled(algo) == node.config.sha3x_enabled,
{
}

/// A notice that is no news changes nothing and asks for nothing. It is rejected if it follows other rules, or if it
/// is of our time, about a chain that the node takes part in, and without blocks; else it is ignored.
pub proof fn law_old_news_changes_nothing(
    node: ServiceView,
    notice: TipNotice,
    via: Seq<char>,
    clock: Clock,
    fuel: nat,
)
    requires
        !notice.is_news(node, clock),
    ensures
        node.tip_heard(notice, via, clock, fuel) matches Some((after, verdict, actions)) && after == node && actions
            == Seq::<ActionView>::empty() && (verdict == MessageAcceptance::Reject <==> notice.version != 7 || (
        notice.timestamp + 60 >= clock.epoch && node.config.enabled(notice.algo) && notice.blocks.len() == 0)) && (
        verdict == MessageAcceptance::Reject || verdict == MessageAcceptance::Ignore),
{
    lemma_news(node, notice, clock);
}

proof fn lemma_news(node: ServiceView, notice: TipNotice, clock: Clock)
    ensures
        notice.is_news(node, clock) <==> node.tip_verdict(notice, clock) is None,
{
    law_height_of_a_notice(notice.blocks);
    let tip = node.tip_height(notice.algo);
    let height = TipNotice::max_height(notice.blocks);
    if notice.blocks.len() > 0 {
        let i = choose|i: int| 0 <= i < notice.blocks.len() && (#[trigger] notice.blocks[i]).0.height == height;
        assert(notice.blocks[i].0.height == height);
        assert forall|h: int| #[trigger] notice.rises_above(h) <==> height > h by {
            if notice.rises_above(h) {
                let j = choose|j: int| 0 <= j < notice.blocks.len() && (#[trigger] notice.blocks[j]).0.height > h;
                assert(notice.blocks[j].0.height <= height);
            }
        }
    }
}

/// The blocks of a notice that is news are added to the chain of its algorithm, and to no other. If one of them is bad,
/// the notice is ignored and nobody but the peer that it names is distrusted for it. If nothing is missing, the notice
/// is accepted. If more than 5 blocks are missing, it is ignored. Of 1 to 5 missing blocks each is asked for by way of the
/// peer that handed the notice on, but only if our tip lies at most 5 levels above the notice; the notice is accepted in
/// any case.
pub proof fn law_news_is_added(node: ServiceView, notice: TipNotice, via: Seq<char>, clock: Clock, fuel: nat)
    requires
        notice.is_news(node, clock),
    ensures
        node.tip_heard(notice, via, clock, fuel) is None <==> node.chain(notice.algo).synced_all(
            notice.blocks,
            fuel,
        ) is None,
        node.tip_heard(notice, via, clock, fuel) matches Some((after, verdict, actions)) ==> {
            let (chain, result) = node.chain(notice.algo).synced_all(notice.blocks, fuel)->Some_0;
            let near = notice.rises_above(node.tip_height(notice.algo) - 6);
            &&& after.chain(notice.algo) == chain
            &&& node.changes_only(after, notice.algo)
            &&& after.syncs == node.syncs
            &&& after.store.black == node.store.black
            &&& after.store.white == (if result is Err {
                node.store.white.remove(notice.peer)
            } else {
                node.store.white
            })
            &&& result is Err ==> verdict == MessageAcceptance::Ignore && actions.len() == 0
            &&& result matches Ok(added) ==> {
                &&& after.store == node.store
                &&& verdict == (if added.missing.len() > 5 {
                    MessageAcceptance::Ignore
                } else {
                    MessageAcceptance::Accept
                })
                &&& actions.len() == (if 0 < added.missing.len() <= 5 && near {
                    1int
                } else {
                    0int
                })
                &&& actions.len() == 1 ==> {
                    &&& actions[0] matches ActionView::Queue(asked)
                    &&& asked matches InnerView::Missing { algo, peer, missing, from_notify, depth }
                    &&& algo == notice.algo && peer == via && from_notify && depth == 0
                    &&& missing.len() == added.missing.len()
                    &&& forall|i: int|
                        0 <= i < missing.len() ==> (#[trigger] missing[i]) == (
                            added.missing[i].1,
                            added.missing[i].0,
                        )
                }
            }
        },
{
    lemma_news(node, notice, clock);
    law_height_of_a_notice(notice.blocks);
    let tip = node.tip_height(notice.algo);
    let height = TipNotice::max_height(notice.blocks);
    let i = choose|i: int| 0 <= i < notice.blocks.len() && (#[trigger] notice.blocks[i]).0.height == height;
    assert(notice.blocks[i].0.height == height);
    assert forall|h: int| #[trigger] notice.rises_above(h) <==> height > h by {
        if notice.rises_above(h) {
            let j = choose|j: int| 0 <= j < notice.blocks.len() && (#[trigger] notice.blocks[j]).0.height > h;
            assert(notice.blocks[j].0.height <= height);
        }
    }
    assert(notice.rises_above(tip - 6) <==> height + 5 >= tip);
    if let Some((chain, result)) = node.chain(notice.algo).synced_all(notice.blocks, fuel) {
        if result is Err {
            let after = (node.tip_heard(notice, via, clock, fuel)->Some_0).0;
            assert(after.store.white =~= node.store.white.remove(notice.peer));
        }
    }
}

/// What a peer tells about itself is rejected if it follows other rules, and ignored if it is more than a minute old or
/// comes from the node itself; then nothing changes. Else it is accepted, nothing but the lists of peers changes, and
/// whoever is not heard of for the first time is not dialed.
pub proof fn law_peers_are_heard(node: ServiceView, info: PeerInfoView, source: Seq<char>, clock: Clock)
    ensures
        ({
            let (after, verdict, actions) = node.info_heard(info, source, clock);
            let own = info.peer_id == Some(node.local);
            &&& verdict == MessageAcceptance::Reject <==> info.version != 7
            &&& verdict == MessageAcceptance::Accept <==> info.version == 7 && info.timestamp + 60 >= clock.epoch && !own
            &&& verdict != MessageAcceptance::Accept || source == node.local ==> after == node && actions.len() == 0
            &&& after.random_x == node.random_x && after.sha3x == node.sha3x && after.syncs == node.syncs
            &&& after.relays == node.relays && after.config == node.config && after.store.seeds == node.store.seeds
            &&& verdict == MessageAcceptance::Accept && source != node.local ==> {
                &&& after.store.knows(source)
                &&& actions.contains(ActionView::AddAddresses { peer: source, addresses: info.public_addresses })
                &&& actions.contains(ActionView::Dial(source)) <==> !node.store.knows(source)
                    && !node.store.seeds.contains(source)
                &&& actions.contains(ActionView::Exchange(source)) <==> !node.store.knows(source)
                    && !node.store.seeds.contains(source)
                &&& actions.contains(ActionView::AddExplicitPeer(source)) <==> !node.store.knows(source)
                    && !node.store.seeds.contains(source)
            }
        }),
{
    let (after, verdict, actions) = node.info_heard(info, source, clock);
    if verdict == MessageAcceptance::Accept && source != node.local {
        assert(actions[0] == ActionView::AddAddresses { peer: source, addresses: info.public_addresses });
        if actions.len() > 1 {
            assert(actions[1] == ActionView::Exchange(source));
            assert(actions[2] == ActionView::AddExplicitPeer(source));
            assert(actions[3] == ActionView::Dial(source));
        }
    }
}

/// What a node tells about itself is true: its name, its squad, and the height and the work of each of its chains.
pub proof fn law_nodes_tell_the_truth(
    node: ServiceView,
    addresses: Seq<Seq<char>>,
    user_agent_version: Option<Seq<char>>,
    clock: Clock,
)
    ensures
        ({
            let info = node.own_info(addresses, user_agent_version, clock);
            &&& info.version == 7
            &&& info.peer_id == Some(node.local)
            &&& info.squad == node.config.squad@
            &&& info.timestamp == clock.epoch
            &&& info.public_addresses == addresses
            &&& info.user_agent == Some(node.config.user_agent@)
            &&& info.user_agent_version == user_agent_version
            &&& info.current_sha3x_pow == node.sha3x.chain.tip_pow()
            &&& info.current_random_x_pow == node.random_x.chain.tip_pow()
            &&& node.sha3x.chain.tip() is Some ==> info.current_sha3x_height == node.sha3x.chain.current_tip
            &&& node.random_x.chain.tip() is Some ==> info.current_random_x_height == node.random_x.chain.current_tip
            &&& node.sha3x.chain.tip() is None ==> info.current_sha3x_height == 0
            &&& node.random_x.chain.tip() is None ==> info.current_random_x_height == 0
        }),
{
}

/// A node tells what it accepts: another node whose clock is at most a minute ahead accepts what this one tells.
pub proof fn law_nodes_accept_each_other(
    teller: ServiceView,
    hearer: ServiceView,
    addresses: Seq<Seq<char>>,
    user_agent_version: Option<Seq<char>>,
    told: Clock,
    heard: Clock,
)
    requires
        teller.local != hearer.local,
        heard.epoch <= told.epoch + 60,
    ensures
        hearer.info_heard(teller.own_info(addresses, user_agent_version, told), teller.local, heard).1
            == MessageAcceptance::Accept,
        hearer.info_heard(
            teller.own_info(addresses, user_agent_version, told),
            teller.local,
            heard,
        ).0.store.knows(teller.local),
{
    law_peers_are_heard(hearer, teller.own_info(addresses, user_agent_version, told), teller.local, heard);
}

}
