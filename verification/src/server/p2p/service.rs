//! What a node does with what peers tell it.
use crate::server::p2p::chain_sync::{SyncView, Syncs, SyncsView};
use crate::server::p2p::messages::{to_unverified, ChainState, NotifyNewTipBlock, PeerInfo, PeerInfoView};
use crate::server::p2p::network::{
    no_actions, push_action, Action, ActionView, Clock, Config, InnerRequest, InnerView, MessageAcceptance,
    SyncMissingBlocks, MAX_MESSAGE_AGE, MAX_MISSING_FROM_NOTIFY, MAX_OWN_LEAD, MAX_TIP_LAG, MAX_TIP_LEAD,
};
use crate::server::p2p::peer_id::PeerId;
use crate::server::p2p::peer_store::{AddPeerStatus, PeerStore, StoreView};
use crate::server::p2p::recent_tips::MAX_TIPS_TO_KEEP;
use crate::server::p2p::relay_store::{RelayStore, RelaysView};
use crate::sharechain::chain_model::AddView;
use crate::sharechain::error::ShareChainError;
use crate::sharechain::in_memory::{CheckedBlock, InMemoryShareChain};
use crate::sharechain::p2block::{share, BlockView, P2Block, PROTOCOL_VERSION};
use crate::sharechain::p2chain::ChainAddResult;
use crate::sharechain::share_rules::ShareChainView;
use crate::text::{copy_text, copy_texts};
use crate::types::{Difficulty, PowAlgorithm};
use std::collections::HashMap;
use std::sync::Arc;
use vstd::prelude::*;
use vstd::string::*;

verus! {

/// Service is the implementation that holds every peer-to-peer related logic
/// that makes sure that all the communications, syncing, broadcasting etc... are done.
pub struct Service {
    /// Settings.
    pub config: Config,
    /// This node.
    pub local_peer_id: PeerId,
    /// The SHA3x chain.
    pub share_chain_sha3x: InMemoryShareChain,
    /// The RandomX chain.
    pub share_chain_random_x: InMemoryShareChain,
    /// The peers that the node knows.
    pub network_peer_store: PeerStore,
    /// The relays that the node knows.
    pub relay_store: RelayStore,
    /// With which peers the node catches up.
    pub syncs: Syncs,
    /// How often missing blocks of missing blocks were asked for, by the number of the request.
    pub missing_blocks_sync_request_depth: HashMap<u64, usize>,
}

/// What a [`Service`] holds.
pub struct ServiceView {
    pub config: Config,
    pub local: Seq<char>,
    pub sha3x: ShareChainView,
    pub random_x: ShareChainView,
    pub store: StoreView,
    pub relays: RelaysView,
    pub syncs: SyncsView,
    pub depths: Map<u64, usize>,
}

impl View for Service {
    type V = ServiceView;

    open spec fn view(&self) -> ServiceView {
        ServiceView {
            config: self.config,
            local: self.local_peer_id@,
            sha3x: self.share_chain_sha3x@,
            random_x: self.share_chain_random_x@,
            store: self.network_peer_store@,
            relays: self.relay_store@,
            syncs: self.syncs@,
            depths: self.missing_blocks_sync_request_depth@,
        }
    }
}

/// What a [`NotifyNewTipBlock`] holds, with the difficulties that its blocks reached.
pub struct TipNotice {
    pub version: u64,
    pub peer: Seq<char>,
    pub algo: PowAlgorithm,
    pub blocks: Seq<(BlockView, Option<u64>)>,
    pub pow: u128,
    pub timestamp: u64,
}

impl TipNotice {
    /// The greatest height among some blocks; 0 if there are none.
    pub open spec fn max_height(blocks: Seq<(BlockView, Option<u64>)>) -> u64
        decreases blocks.len(),
    {
        if blocks.len() == 0 {
            0
        } else if blocks.last().0.height > TipNotice::max_height(blocks.drop_last()) {
            blocks.last().0.height
        } else {
            TipNotice::max_height(blocks.drop_last())
        }
    }

    /// What a message holds. Its blocks no longer count as verified.
    pub open spec fn of(notify: NotifyNewTipBlock, achieved: Seq<Option<Difficulty>>) -> TipNotice {
        TipNotice {
            version: notify.version,
            peer: notify.peer_id@,
            algo: notify.algo,
            blocks: with_achieved(
                crate::server::p2p::messages::unverified(crate::sharechain::in_memory::views(notify.new_blocks@)),
                achieved,
            ),
            pow: notify.total_accumulated_difficulty,
            timestamp: notify.timestamp,
        }
    }
}

/// Blocks with the difficulties that they reached; nothing is known of those that have none beside them.
pub open spec fn with_achieved(blocks: Seq<BlockView>, achieved: Seq<Option<Difficulty>>) -> Seq<
    (BlockView, Option<u64>),
> {
    Seq::new(
        blocks.len(),
        |i: int|
            (
                blocks[i],
                if i < achieved.len() {
                    crate::sharechain::in_memory::reached(achieved[i])
                } else {
                    None
                },
            ),
    )
}

/// Blocks with the difficulties that they reached.
pub fn pair_with_achieved(blocks: &Vec<Arc<P2Block>>, achieved: &Vec<Option<Difficulty>>) -> (checked: Vec<CheckedBlock>)
    ensures
        crate::sharechain::sync_blocks::checked_views(checked@) == with_achieved(
            crate::sharechain::in_memory::views(blocks@),
            achieved@,
        ),
{
    let mut checked: Vec<CheckedBlock> = Vec::new();
    let mut i: usize = 0;
    while i < blocks.len()
        invariant
            i <= blocks@.len(),
            checked@.len() == i,
            forall|j: int|
                0 <= j < i ==> (#[trigger] checked@[j])@ == with_achieved(
                    crate::sharechain::in_memory::views(blocks@),
                    achieved@,
                )[j],
        decreases blocks@.len() - i,
    {
        let reached: Option<Difficulty> = if i < achieved.len() {
            achieved[i]
        } else {
            None
        };
        checked.push(CheckedBlock { block: share(&blocks[i]), achieved: reached });
        i = i + 1;
    }
    assert(crate::sharechain::sync_blocks::checked_views(checked@) =~= with_achieved(
        crate::sharechain::in_memory::views(blocks@),
        achieved@,
    ));
    checked
}

/// The reason by which a peer that sent a bad block is put on the grey list.
pub open spec fn bad_block_reason(error: ShareChainError) -> Seq<char> {
    "Block failed validation: "@ + error.text()
}

/// The reason by which a peer that sent a bad block is put on the grey list.
pub fn describe_bad_block(error: &ShareChainError) -> (reason: String)
    ensures
        reason@ == bad_block_reason(*error),
{
    let mut reason = copy_text("Block failed validation: ");
    reason.append(error.message().as_str());
    reason
}

/// The difference, or 0 if it would be negative.
pub open spec fn minus(a: u64, b: u64) -> int {
    if a >= b {
        a - b
    } else {
        0
    }
}

impl ServiceView {
    /// One of the two chains.
    pub open spec fn chain(self, algo: PowAlgorithm) -> ShareChainView {
        match algo {
            PowAlgorithm::RandomX => self.random_x,
            PowAlgorithm::Sha3x => self.sha3x,
        }
    }

    /// Another state of one chain.
    pub open spec fn with_chain(self, algo: PowAlgorithm, chain: ShareChainView) -> ServiceView {
        match algo {
            PowAlgorithm::RandomX => ServiceView { random_x: chain, ..self },
            PowAlgorithm::Sha3x => ServiceView { sha3x: chain, ..self },
        }
    }

    /// Height of the tip of one chain.
    pub open spec fn tip_height(self, algo: PowAlgorithm) -> u64 {
        if self.chain(algo).chain.tip() is Some {
            self.chain(algo).chain.current_tip
        } else {
            0
        }
    }

    /// Adds a peer, or what it told last. A node does not add itself. A new peer is asked what it knows, gets messages
    /// in any case, and is dialed.
    pub open spec fn peer_added(self, peer: Seq<char>, info: PeerInfoView, clock: Clock) -> (
        ServiceView,
        Seq<ActionView>,
    ) {
        if peer == self.local {
            (self, Seq::empty())
        } else {
            let (store, status) = self.store.added(peer, info, clock.millis);
            let addresses = ActionView::AddAddresses { peer, addresses: info.public_addresses };
            (
                ServiceView { store, ..self },
                if status == AddPeerStatus::NewPeer {
                    seq![
                        addresses,
                        ActionView::Exchange(peer),
                        ActionView::AddExplicitPeer(peer),
                        ActionView::Dial(peer),
                    ]
                } else {
                    seq![addresses]
                },
            )
        }
    }

    /// Why what a peer tells about itself is not looked at, if it is not.
    pub open spec fn info_verdict(self, info: PeerInfoView, clock: Clock) -> Option<MessageAcceptance> {
        if info.version != PROTOCOL_VERSION {
            Some(MessageAcceptance::Reject)
        } else if info.timestamp < minus(clock.epoch, MAX_MESSAGE_AGE) {
            Some(MessageAcceptance::Ignore)
        } else if info.peer_id == Some(self.local) {
            Some(MessageAcceptance::Ignore)
        } else {
            None
        }
    }

    /// What becomes of a message in which `source` tells about itself.
    pub open spec fn info_heard(self, info: PeerInfoView, source: Seq<char>, clock: Clock) -> (
        ServiceView,
        MessageAcceptance,
        Seq<ActionView>,
    ) {
        match self.info_verdict(info, clock) {
            Some(verdict) => (self, verdict, Seq::empty()),
            None => {
                let (next, actions) = self.peer_added(source, info, clock);
                (next, MessageAcceptance::Accept, actions)
            },
        }
    }

    /// Why a new tip is not looked at, if it is not.
    pub open spec fn tip_verdict(self, notice: TipNotice, clock: Clock) -> Option<MessageAcceptance> {
        let tip = self.tip_height(notice.algo);
        let height = TipNotice::max_height(notice.blocks);
        if notice.version != PROTOCOL_VERSION {
            Some(MessageAcceptance::Reject)
        } else if notice.timestamp < minus(clock.epoch, MAX_MESSAGE_AGE) {
            Some(MessageAcceptance::Ignore)
        } else if !self.config.enabled(notice.algo) {
            Some(MessageAcceptance::Ignore)
        } else if notice.blocks.len() == 0 {
            Some(MessageAcceptance::Reject)
        } else if notice.pow < self.chain(notice.algo).chain.tip_pow() && height <= minus(tip, MAX_TIP_LAG) {
            Some(MessageAcceptance::Ignore)
        } else if height > tip + MAX_TIP_LEAD {
            Some(MessageAcceptance::Ignore)
        } else {
            None
        }
    }

    /// What follows when the blocks of a new tip were added with this result. Blocks that they lack are asked for if
    /// they are few and our tip is near. A peer that sent a bad block is put on the grey list.
    pub open spec fn tip_added(
        self,
        notice: TipNotice,
        via: Seq<char>,
        chain: ShareChainView,
        result: Result<AddView, ShareChainError>,
    ) -> (ServiceView, MessageAcceptance, Seq<ActionView>) {
        let next = self.with_chain(notice.algo, chain);
        let tip = self.tip_height(notice.algo);
        let height = TipNotice::max_height(notice.blocks);
        match result {
            Err(error) => (
                ServiceView { store: self.store.greyed(notice.peer, bad_block_reason(error)), ..next },
                MessageAcceptance::Ignore,
                Seq::empty(),
            ),
            Ok(added) => if added.missing.len() == 0 {
                (next, MessageAcceptance::Accept, Seq::empty())
            } else if added.missing.len() > MAX_MISSING_FROM_NOTIFY {
                (next, MessageAcceptance::Ignore, Seq::empty())
            } else if tip < minus(height, MAX_TIP_LEAD) || tip > height + MAX_OWN_LEAD {
                (next, MessageAcceptance::Accept, Seq::empty())
            } else {
                (
                    next,
                    MessageAcceptance::Accept,
                    seq![
                        ActionView::Queue(
                            InnerView::Missing {
                                algo: notice.algo,
                                peer: via,
                                missing: added.parents(),
                                from_notify: true,
                                depth: 0,
                            },
                        ),
                    ],
                )
            },
        }
    }

    /// What becomes of a message that tells of a new tip. `None` if `fuel` does not suffice to add the blocks.
    pub open spec fn tip_heard(self, notice: TipNotice, via: Seq<char>, clock: Clock, fuel: nat) -> Option<
        (ServiceView, MessageAcceptance, Seq<ActionView>),
    > {
        match self.tip_verdict(notice, clock) {
            Some(verdict) => Some((self, verdict, Seq::empty())),
            None => match self.chain(notice.algo).synced_all(notice.blocks, fuel) {
                None => None,
                Some((chain, result)) => Some(self.tip_added(notice, via, chain, result)),
            },
        }
    }

    /// What a node tells about itself.
    pub open spec fn own_info(
        self,
        addresses: Seq<Seq<char>>,
        user_agent_version: Option<Seq<char>>,
        clock: Clock,
    ) -> PeerInfoView {
        PeerInfoView {
            version: PROTOCOL_VERSION,
            peer_id: Some(self.local),
            current_sha3x_height: self.tip_height(PowAlgorithm::Sha3x),
            current_random_x_height: self.tip_height(PowAlgorithm::RandomX),
            current_sha3x_pow: self.sha3x.chain.tip_pow(),
            current_random_x_pow: self.random_x.chain.tip_pow(),
            squad: self.config.squad@,
            timestamp: clock.epoch,
            user_agent: Some(self.config.user_agent@),
            user_agent_version,
            public_addresses: addresses,
        }
    }
}

/// A message that peers hand on.
pub enum Gossip {
    /// What a peer tells about itself; `None` if it could not be read.
    PeerInfo(Option<PeerInfo>),
    /// A new tip, with the difficulties that its blocks reached, or the reason why it could not be read.
    NewTip(Result<(NotifyNewTipBlock, Vec<Option<Difficulty>>), String>),
    /// A message on another topic.
    Unknown,
}

impl Service {
    /// All parts are in order.
    pub open spec fn wf(&self) -> bool {
        &&& self.share_chain_sha3x.wf()
        &&& self.share_chain_random_x.wf()
        &&& self.network_peer_store.wf()
        &&& self.relay_store.wf()
        &&& self.syncs.wf()
    }

    /// Constructs a new Service from the provided config.
    pub fn new(
        config: Config,
        local_peer_id: PeerId,
        share_chain_sha3x: InMemoryShareChain,
        share_chain_random_x: InMemoryShareChain,
        network_peer_store: PeerStore,
    ) -> (service: Self)
        requires
            share_chain_sha3x.wf(),
            share_chain_random_x.wf(),
            network_peer_store.wf(),
            0 < config.num_sync_tips_to_keep <= MAX_TIPS_TO_KEEP,
        ensures
            service.wf(),
            service@.config == config,
            service@.local == local_peer_id@,
            service@.sha3x == share_chain_sha3x@,
            service@.random_x == share_chain_random_x@,
            service@.store == network_peer_store@,
            service@.relays.selected is None,
            service@.relays.possible == Seq::<(Seq<char>, Seq<Seq<char>>)>::empty(),
            service@.syncs.random_x == SyncView::fresh(
                config.num_concurrent_syncs,
                config.num_sync_tips_to_keep as nat,
            ),
            service@.syncs.sha3x == SyncView::fresh(config.num_concurrent_syncs, config.num_sync_tips_to_keep as nat),
            service@.depths == Map::<u64, usize>::empty(),
    {
        broadcast use vstd::std_specs::hash::group_hash_axioms;

        let syncs = Syncs::new(config.num_concurrent_syncs, config.num_sync_tips_to_keep);
        Service {
            config,
            local_peer_id,
            share_chain_sha3x,
            share_chain_random_x,
            network_peer_store,
            relay_store: RelayStore::default(),
            syncs,
            missing_blocks_sync_request_depth: HashMap::new(),
        }
    }

    /// Height of the tip of one chain.
    pub fn tip_height(&self, algo: PowAlgorithm) -> (height: u64)
        requires
            self.wf(),
        ensures
            height == self@.tip_height(algo),
    {
        match algo {
            PowAlgorithm::RandomX => self.share_chain_random_x.tip_height(),
            PowAlgorithm::Sha3x => self.share_chain_sha3x.tip_height(),
        }
    }

    /// Work of one chain.
    pub fn chain_pow(&self, algo: PowAlgorithm) -> (pow: u128)
        requires
            self.wf(),
        ensures
            pow == self@.chain(algo).chain.tip_pow(),
    {
        match algo {
            PowAlgorithm::RandomX => self.share_chain_random_x.chain_pow().as_u128(),
            PowAlgorithm::Sha3x => self.share_chain_sha3x.chain_pow().as_u128(),
        }
    }

    /// Adds blocks that a peer sent to one chain.
    pub fn add_synced_blocks(&mut self, algo: PowAlgorithm, blocks: &Vec<CheckedBlock>) -> (result: Result<
        ChainAddResult,
        ShareChainError,
    >)
        requires
            old(self).wf(),
        ensures
            final(self).wf(),
            final(self)@ == old(self)@.with_chain(algo, final(self)@.chain(algo)),
            final(self)@.chain(algo).chain.total_size == old(self)@.chain(algo).chain.total_size,
            exists|fuel: nat| #[trigger]
                old(self)@.chain(algo).synced_all(
                    crate::sharechain::sync_blocks::checked_views(blocks@),
                    fuel,
                ) == Some((final(self)@.chain(algo), crate::sharechain::p2chain::add_outcome(result))),
    {
        match algo {
            PowAlgorithm::RandomX => self.share_chain_random_x.add_synced_blocks(blocks),
            PowAlgorithm::Sha3x => self.share_chain_sha3x.add_synced_blocks(blocks),
        }
    }

    /// What a node tells about itself.
    pub fn create_peer_info(
        &self,
        public_addresses: Vec<String>,
        user_agent_version: Option<String>,
        clock: Clock,
    ) -> (info: PeerInfo)
        requires
            self.wf(),
        ensures
            info@ == self@.own_info(
                crate::text::texts(public_addresses@),
                crate::text::opt_text(user_agent_version),
                clock,
            ),
    {
        PeerInfo::new(
            self.local_peer_id.clone(),
            ChainState {
                height: self.tip_height(PowAlgorithm::Sha3x),
                pow: self.chain_pow(PowAlgorithm::Sha3x),
            },
            ChainState {
                height: self.tip_height(PowAlgorithm::RandomX),
                pow: self.chain_pow(PowAlgorithm::RandomX),
            },
            self.config.squad.to_text(),
            public_addresses,
            Some(self.config.user_agent.clone()),
            user_agent_version,
            clock.epoch,
        )
    }

    /// This node.
    pub fn local_peer_id(&self) -> (peer: PeerId)
        ensures
            peer@ == self@.local,
    {
        self.local_peer_id.clone()
    }

    /// What is told to the squad; a node without public addresses tells nothing.
    pub fn broadcast_peer_info(
        &self,
        public_addresses: Vec<String>,
        user_agent_version: Option<String>,
        clock: Clock,
    ) -> (info: Option<PeerInfo>)
        requires
            self.wf(),
        ensures
            info is None <==> public_addresses@.len() == 0,
            info matches Some(i) ==> i@ == self@.own_info(
                crate::text::texts(public_addresses@),
                crate::text::opt_text(user_agent_version),
                clock,
            ),
    {
        if public_addresses.len() == 0 {
            None
        } else {
            Some(self.create_peer_info(public_addresses, user_agent_version, clock))
        }
    }

    /// Adds a peer, or what it told last. What is to be done is put behind `actions`. Tells whether the peer is new.
    pub fn add_peer(&mut self, payload: PeerInfo, peer: &PeerId, clock: Clock, actions: &mut Vec<Action>) -> (new: bool)
        requires
            old(self).wf(),
        ensures
            final(self).wf(),
            final(self)@ == old(self)@.peer_added(peer@, payload@, clock).0,
            Action::views(final(actions)@) == Action::views(old(actions)@) + old(self)@.peer_added(
                peer@,
                payload@,
                clock,
            ).1,
            new <==> peer@ != old(self)@.local && old(self)@.store.added(peer@, payload@, clock.millis).1
                == AddPeerStatus::NewPeer,
    {
        let ghost before = Action::views(actions@);
        // Don't add ourselves
        if peer.same(&self.local_peer_id) {
            assert(before + Seq::<ActionView>::empty() =~= before);
            return false;
        }
        let addresses = copy_texts(&payload.public_addresses);
        push_action(actions, Action::AddAddresses { peer: peer.clone(), addresses });
        let status = self.network_peer_store.add(peer, payload, clock.millis);
        if status == AddPeerStatus::NewPeer {
            push_action(actions, Action::Exchange(peer.clone()));
            push_action(actions, Action::AddExplicitPeer(peer.clone()));
            push_action(actions, Action::Dial(peer.clone()));
            assert(Action::views(actions@) =~= before + old(self)@.peer_added(peer@, payload@, clock).1);
            return true;
        }
        assert(Action::views(actions@) =~= before + old(self)@.peer_added(peer@, payload@, clock).1);
        false
    }

    /// Hears what a peer tells about itself.
    pub fn handle_peer_info(&mut self, payload: PeerInfo, source_peer: &PeerId, clock: Clock) -> (result: (
        MessageAcceptance,
        Vec<Action>,
    ))
        requires
            old(self).wf(),
        ensures
            final(self).wf(),
            (final(self)@, result.0, Action::views(result.1@)) == old(self)@.info_heard(
                payload@,
                source_peer@,
                clock,
            ),
    {
        let mut actions = no_actions();
        if payload.version != PROTOCOL_VERSION {
            return (MessageAcceptance::Reject, actions);
        }
        if clock.epoch >= MAX_MESSAGE_AGE && payload.timestamp < clock.epoch - MAX_MESSAGE_AGE {
            return (MessageAcceptance::Ignore, actions);
        }
        let from_ourselves = match &payload.peer_id {
            Some(peer) => peer.same(&self.local_peer_id),
            None => false,
        };
        if from_ourselves {
            return (MessageAcceptance::Ignore, actions);
        }
        let ghost added = self@.peer_added(source_peer@, payload@, clock).1;
        self.add_peer(payload, source_peer, clock, &mut actions);
        assert(Seq::<ActionView>::empty() + added =~= added);
        (MessageAcceptance::Accept, actions)
    }

    /// The greatest height among some blocks.
    fn max_height(blocks: &Vec<CheckedBlock>) -> (height: u64)
        ensures
            height == TipNotice::max_height(crate::sharechain::sync_blocks::checked_views(blocks@)),
    {
        let ghost all = crate::sharechain::sync_blocks::checked_views(blocks@);
        let mut height: u64 = 0;
        let mut i: usize = 0;
        while i < blocks.len()
            invariant
                i <= blocks@.len(),
                all == crate::sharechain::sync_blocks::checked_views(blocks@),
                height == TipNotice::max_height(all.take(i as int)),
            decreases blocks@.len() - i,
        {
            let ghost next = all.take(i + 1);
            assert(next.drop_last() =~= all.take(i as int));
            assert(next.last() == blocks@[i as int]@);
            if blocks[i].block.height > height {
                height = blocks[i].block.height;
            }
            i = i + 1;
        }
        assert(all.take(blocks@.len() as int) =~= all);
        height
    }

    /// Hears of a new tip. `achieved` are the difficulties that its blocks reached, and `propagation_source` is the
    /// peer that handed the message on.
    pub fn handle_new_tip(
        &mut self,
        payload: NotifyNewTipBlock,
        achieved: &Vec<Option<Difficulty>>,
        propagation_source: &PeerId,
        clock: Clock,
    ) -> (result: (MessageAcceptance, Vec<Action>))
        requires
            old(self).wf(),
        ensures
            final(self).wf(),
            exists|fuel: nat| #[trigger]
                old(self)@.tip_heard(TipNotice::of(payload, achieved@), propagation_source@, clock, fuel) == Some(
                    (final(self)@, result.0, Action::views(result.1@)),
                ),
    {
        let ghost notice = TipNotice::of(payload, achieved@);
        let ghost via = propagation_source@;
        let ghost start = self@;
        let mut actions = no_actions();
        if payload.version != PROTOCOL_VERSION {
            assert(start.tip_heard(notice, via, clock, 0) == Some((self@, MessageAcceptance::Reject, Action::views(actions@))));
            return (MessageAcceptance::Reject, actions);
        }
        if clock.epoch >= MAX_MESSAGE_AGE && payload.timestamp < clock.epoch - MAX_MESSAGE_AGE {
            assert(start.tip_heard(notice, via, clock, 0) == Some((self@, MessageAcceptance::Ignore, Action::views(actions@))));
            return (MessageAcceptance::Ignore, actions);
        }
        let algo = payload.algo;
        if !self.config.is_enabled(algo) {
            assert(start.tip_heard(notice, via, clock, 0) == Some((self@, MessageAcceptance::Ignore, Action::views(actions@))));
            return (MessageAcceptance::Ignore, actions);
        }
        let copies = to_unverified(&payload.new_blocks);
        let blocks = pair_with_achieved(&copies, achieved);
        let ghost all = crate::sharechain::sync_blocks::checked_views(blocks@);
        assert(all == notice.blocks);
        assert(notice.blocks.len() == payload.new_blocks@.len());
        if payload.new_blocks.len() == 0 {
            assert(start.tip_heard(notice, via, clock, 0) == Some((self@, MessageAcceptance::Reject, Action::views(actions@))));
            return (MessageAcceptance::Reject, actions);
        }
        let our_tip = self.tip_height(algo);
        let our_pow = self.chain_pow(algo);
        let height = Service::max_height(&blocks);
        let lowest: u64 = if our_tip >= MAX_TIP_LAG {
            our_tip - MAX_TIP_LAG
        } else {
            0
        };
        if payload.total_accumulated_difficulty < our_pow && height <= lowest {
            assert(start.tip_heard(notice, via, clock, 0) == Some((self@, MessageAcceptance::Ignore, Action::views(actions@))));
            return (MessageAcceptance::Ignore, actions);
        }
        // If the tip is much higher than ours, it may be either a fake block or on a part of the
        // network that we can't get to
        if height > our_tip && height - our_tip > MAX_TIP_LEAD {
            assert(start.tip_heard(notice, via, clock, 0) == Some((self@, MessageAcceptance::Ignore, Action::views(actions@))));
            return (MessageAcceptance::Ignore, actions);
        }
        let result = self.add_synced_blocks(algo, &blocks);
        let ghost outcome = crate::sharechain::p2chain::add_outcome(result);
        let ghost fuel = choose|fuel: nat| #[trigger]
            start.chain(algo).synced_all(all, fuel) == Some((self@.chain(algo), outcome));
        let ghost chain = self@.chain(algo);
        assert(start.tip_heard(notice, via, clock, fuel) == Some(start.tip_added(notice, via, chain, outcome)));
        match result {
            Err(error) => {
                self.network_peer_store.move_to_grey_list(&payload.peer_id, describe_bad_block(&error));
                (MessageAcceptance::Ignore, actions)
            },
            Ok(added) => {
                let ghost added_view = added@;
                let missing_parents = added.into_missing_parents_vec();
                assert(missing_parents@.len() == added_view.missing.len());
                if missing_parents.len() == 0 {
                    return (MessageAcceptance::Accept, actions);
                }
                if missing_parents.len() > MAX_MISSING_FROM_NOTIFY {
                    return (MessageAcceptance::Ignore, actions);
                }
                if our_tip < height && height - our_tip > MAX_TIP_LEAD || our_tip > height && our_tip - height
                    > MAX_OWN_LEAD {
                    return (MessageAcceptance::Accept, actions);
                }
                let ghost missing = missing_parents@;
                let sync = SyncMissingBlocks {
                    algo,
                    peer: propagation_source.clone(),
                    missing_parents,
                    is_from_new_block_notify: true,
                    depth: 0,
                };
                push_action(&mut actions, Action::Queue(InnerRequest::DoSyncMissingBlocks(sync)));
                assert(Action::views(actions@) =~= start.tip_added(notice, via, chain, outcome).2);
                (MessageAcceptance::Accept, actions)
            },
        }
    }
}

}
