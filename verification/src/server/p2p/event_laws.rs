//! Laws on what follows what happens in the network.
use crate::server::p2p::addresses::{EntryView, PartKind, SeedEntry, SeedError};
use crate::server::p2p::catch_up::CatchUpAnswer;
use crate::server::p2p::events::NetworkEvent;
use crate::server::p2p::messages::{CatchUpSyncResponse, NotifyNewTipBlock, SyncMissingBlocksResponse};
use crate::server::p2p::missing_sync::MissingAnswer;
use crate::server::p2p::network::{ActionView, Clock, MessageAcceptance};
use crate::server::p2p::peer_id::PeerId;
use crate::server::p2p::service::{Gossip, ServiceView, TipNotice};
use crate::sharechain::p2block::{BlockView, P2Block};
use crate::types::Difficulty;
use std::sync::Arc;
use vstd::prelude::*;

verus! {

/// What a node makes of the blocks of a message: no block counts as verified, whatever its sender says, each has the
/// difficulty that it reached itself, and nothing else about it is changed. All blocks are there, in their order.
pub open spec fn are_unverified(
    blocks: Seq<Arc<P2Block>>,
    achieved: Seq<Option<Difficulty>>,
    taken: Seq<(BlockView, Option<u64>)>,
) -> bool {
    &&& taken.len() == blocks.len()
    &&& forall|i: int|
        0 <= i < blocks.len() ==> {
            let block = (#[trigger] taken[i]).0;
            &&& !block.verified
            &&& (BlockView { verified: blocks[i]@.verified, ..block }) == blocks[i]@
            &&& taken[i].1 is Some <==> i < achieved.len() && achieved[i] is Some
            &&& i < achieved.len() && achieved[i] is Some ==> taken[i].1->Some_0 == (achieved[i]->Some_0)@
        }
}

/// No block that another node sends counts as verified: not one of a new tip, not one that was missing, and not one of a
/// peer that the node catches up with.
pub proof fn law_received_blocks_are_unverified(
    notify: NotifyNewTipBlock,
    missing: SyncMissingBlocksResponse,
    caught: CatchUpSyncResponse,
    achieved: Seq<Option<Difficulty>>,
)
    ensures
        are_unverified(notify.new_blocks@, achieved, TipNotice::of(notify, achieved).blocks),
        are_unverified(missing.blocks@, achieved, MissingAnswer::of(missing, achieved).blocks),
        are_unverified(caught.blocks@, achieved, CatchUpAnswer::of(caught, achieved).blocks),
        TipNotice::of(notify, achieved).algo == notify.algo,
        TipNotice::of(notify, achieved).peer == notify.peer_id@,
        TipNotice::of(notify, achieved).version == notify.version,
        TipNotice::of(notify, achieved).pow == notify.total_accumulated_difficulty,
        TipNotice::of(notify, achieved).timestamp == notify.timestamp,
        MissingAnswer::of(missing, achieved).algo == missing.algo,
        MissingAnswer::of(missing, achieved).peer == missing.peer_id@,
        MissingAnswer::of(missing, achieved).version == missing.version,
        CatchUpAnswer::of(caught, achieved).algo == caught.algo,
        CatchUpAnswer::of(caught, achieved).peer == caught.peer_id@,
        CatchUpAnswer::of(caught, achieved).version == caught.version,
        CatchUpAnswer::of(caught, achieved).tip == caught.tip,
        CatchUpAnswer::of(caught, achieved).pow == caught.achieved_pow,
{
}

impl NetworkEvent {
    /// Blocks can come with the event.
    pub open spec fn brings_blocks(self) -> bool {
        ||| self is Message
        ||| self is MissingAnswered
        ||| self is CatchUpAnswered
    }
}

impl ServiceView {
    /// The settings, the name and the seed peers are the same.
    pub open spec fn keeps_settings_of(self, before: ServiceView) -> bool {
        self.config == before.config && self.local == before.local && self.store.seeds == before.store.seeds
    }
}

proof fn lemma_message_keeps(
    node: ServiceView,
    source: Option<PeerId>,
    via: Seq<char>,
    content: Gossip,
    clock: Clock,
    fuel: nat,
)
    ensures
        node.message_heard(source, via, content, clock, fuel) matches Some((after, _, _)) ==> after.keeps_settings_of(
            node,
        ),
{
    reveal(ServiceView::message_heard);
    if let (Some(_), Gossip::NewTip(Ok((notify, achieved)))) = (source, content) {
        let notice = TipNotice::of(notify, achieved@);
        if notice.is_news(node, clock) {
            if let Some((chain, result)) = node.chain(notice.algo).synced_all(notice.blocks, fuel) {
                assert(node.tip_added(notice, via, chain, result).0.keeps_settings_of(node));
            }
        }
    }
}

proof fn lemma_missing_keeps(
    node: ServiceView,
    request_id: u64,
    missing: Option<(SyncMissingBlocksResponse, Vec<Option<Difficulty>>)>,
    fuel: nat,
)
    ensures
        node.missing_came(request_id, missing, fuel) matches Some((after, _)) ==> after.keeps_settings_of(node),
{
    reveal(ServiceView::missing_came);
}

proof fn lemma_caught_keeps(
    node: ServiceView,
    request_id: u64,
    caught: Option<(CatchUpSyncResponse, Vec<Option<Difficulty>>)>,
    fuel: nat,
)
    ensures
        node.caught_came(request_id, caught, fuel) matches Some((after, _)) ==> after.keeps_settings_of(node),
{
    reveal(ServiceView::caught_came);
}

/// Only messages and answers can change a chain, and only messages are accepted or turned away. No event changes the
/// settings, the node's name or who is a seed peer.
pub proof fn law_only_blocks_change_chains(
    node: ServiceView,
    event: NetworkEvent,
    topic: Seq<char>,
    clock: Clock,
    fuel: nat,
)
    ensures
        !event.brings_blocks() ==> node.reacted(event, topic, clock, fuel) is Some,
        node.reacted(event, topic, clock, fuel) matches Some((after, verdict, actions)) ==> {
            &&& !event.brings_blocks() ==> after.random_x == node.random_x && after.sha3x == node.sha3x
            &&& verdict is Some <==> event is Message
            &&& after.keeps_settings_of(node)
        },
{
    match event {
        NetworkEvent::Message { source, via, content } => {
            lemma_message_keeps(node, source, via@, content, clock, fuel);
        },
        NetworkEvent::MissingAnswered { request_id, missing } => {
            lemma_missing_keeps(node, request_id, missing, fuel);
        },
        NetworkEvent::CatchUpAnswered { request_id, caught } => {
            lemma_caught_keeps(node, request_id, caught, fuel);
        },
        _ => {},
    }
}

/// A message without a source, one on a topic that nobody knows, and one that cannot be read are rejected, and change no
/// chain. A peer that sends a tip that cannot be read is trusted no longer.
pub proof fn law_unreadable_messages_are_rejected(
    node: ServiceView,
    source: Option<PeerId>,
    via: Seq<char>,
    content: Gossip,
    clock: Clock,
    fuel: nat,
)
    ensures
        source is None || content is Unknown || (content matches Gossip::PeerInfo(info) && info is None) || (
        content matches Gossip::NewTip(tip) && tip is Err) ==> {
            &&& node.message_heard(source, via, content, clock, fuel) matches Some((after, verdict, actions))
            &&& verdict == MessageAcceptance::Reject
            &&& actions.len() == 0
            &&& after.random_x == node.random_x && after.sha3x == node.sha3x
            &&& after.store.white == (if source is Some && content is NewTip {
                node.store.white.remove((source->Some_0)@)
            } else {
                node.store.white
            })
        },
{
    reveal(ServiceView::message_heard);
    if let Some((after, verdict, actions)) = node.message_heard(source, via, content, clock, fuel) {
        if source is Some && content is NewTip {
            assert(content->NewTip_0 is Err ==> after.store.white =~= node.store.white.remove((source->Some_0)@));
        }
    }
}

/// Whoever a connection is made to is asked what it knows. A peer that cannot be connected to, or that fails a request other
/// than by closing the connection, is trusted no longer; a closed connection is no reason to distrust. A peer that listens is
/// asked only if nobody knows it.
pub proof fn law_failures_are_followed(
    node: ServiceView,
    event: NetworkEvent,
    topic: Seq<char>,
    clock: Clock,
    fuel: nat,
)
    ensures
        node.reacted(event, topic, clock, fuel) matches Some((after, _, actions)) ==> {
            &&& event matches NetworkEvent::ConnectionEstablished { peer } ==> after == node && actions.len() == 1
                && actions[0] == ActionView::Exchange(peer@)
            &&& event matches NetworkEvent::OutgoingConnectionError { peer, .. } ==> !after.store.white.dom().contains(
                peer@,
            ) && actions.len() == 0
            &&& event matches NetworkEvent::MissingFailed { peer, request_id, closed, .. } ==> {
                &&& !after.depths.dom().contains(request_id)
                &&& closed ==> after.store == node.store
                &&& !closed ==> !after.store.white.dom().contains(peer@)
                &&& actions.len() == 0
            }
            &&& event matches NetworkEvent::CatchUpFailed { peer, request_id, closed, .. } ==> {
                &&& closed ==> (after.store.white.dom().contains(peer@) <==> node.store.white.dom().contains(peer@))
                &&& closed && node.store.white.dom().contains(peer@)
                    ==> after.store.white[peer@].last_rx_sync_attempt is None
                    && after.store.white[peer@].last_sha3x_sync_attempt is None
                    && after.store.white[peer@].num_grey_listings == node.store.white[peer@].num_grey_listings
                &&& !closed ==> !after.store.white.dom().contains(peer@)
                &&& after.depths == node.depths
                &&& actions.len() == 0
            }
            &&& event matches NetworkEvent::Subscribed { peer, topic: heard } ==> after == node && (actions.len() == 1
                <==> heard@ == topic && !node.store.knows(peer@)) && (actions.len() == 1 ==> actions[0]
                == ActionView::Exchange(peer@)) && actions.len() <= 1
            &&& event matches NetworkEvent::Pinged { peer } ==> actions.len() == 0 && (node.store.white.dom().contains(
                peer@,
            ) ==> after.store.white[peer@].last_ping == Some(clock.epoch) && after.store.white[peer@].peer_info
                == node.store.white[peer@].peer_info)
            &&& event is BehindNat ==> after == node && (actions.len() == 1 <==> !node.config.is_seed_peer) && (
            actions.len() == 1 ==> actions[0] == ActionView::ReserveRelay)
            &&& event is ExternalAddrExpired ==> after == node && actions.len() == 1 && actions[0]
                == ActionView::ReserveRelay
            &&& event matches NetworkEvent::RelayFound { peer, address } ==> actions.contains(ActionView::ReserveRelay)
                == !node.relays.knows(peer@, address@)
            &&& event matches NetworkEvent::PeersDiscovered { found } ==> after == node && actions.len() == found@.len()
                && forall|i: int|
                0 <= i < found@.len() ==> (#[trigger] actions[i]) == (ActionView::AddAddresses {
                    peer: found@[i].0@,
                    addresses: seq![found@[i].1@],
                })
            &&& event matches NetworkEvent::PeersExpired { gone } ==> after == node && actions.len() == gone@.len()
                && forall|i: int|
                0 <= i < gone@.len() ==> (#[trigger] actions[i]) == ActionView::RemoveExplicitPeer(gone@[i]@)
        },
{
    if let NetworkEvent::RelayFound { peer, address } = event {
        let actions = (node.reacted(event, topic, clock, fuel)->Some_0).2;
        if !node.relays.knows(peer@, address@) {
            assert(actions[0] == ActionView::ReserveRelay);
        }
    }
}

proof fn lemma_relay_told(peer: Seq<char>, addresses: Seq<Seq<char>>, n: int, i: int)
    requires
        0 <= i < n <= addresses.len(),
        crate::server::p2p::addresses::address_parts(addresses[i]) matches Some(parts)
            && crate::server::p2p::addresses::names_peer(parts),
    ensures
        ServiceView::relay_told(peer, addresses, n).contains(ActionView::LearnRelay { peer, address: addresses[i] }),
    decreases n,
{
    let before = ServiceView::relay_told(peer, addresses, n - 1);
    let all = ServiceView::relay_told(peer, addresses, n);
    let action = ActionView::LearnRelay { peer, address: addresses[i] };
    if i == n - 1 {
        assert(all.last() == action);
    } else {
        lemma_relay_told(peer, addresses, n - 1, i);
        let k = choose|k: int| 0 <= k < before.len() && before[k] == action;
        assert(all[k] == action);
    }
}

/// A peer that does not speak the protocol to catch up is left, and one that does is not. Of one that relays, every address
/// that names a peer is learned. A seed peer does neither, and nobody looks at itself.
pub proof fn law_identified_peers(
    node: ServiceView,
    peer: Seq<char>,
    protocols: Seq<Seq<char>>,
    addresses: Seq<Seq<char>>,
    i: int,
)
    requires
        0 <= i < addresses.len(),
        crate::server::p2p::addresses::address_parts(addresses[i]) matches Some(parts)
            && crate::server::p2p::addresses::names_peer(parts),
    ensures
        ({
            let actions = node.identified(peer, protocols, addresses);
            let looks = peer != node.local && !node.config.is_seed_peer;
            &&& !looks ==> actions.len() == 0
            &&& looks && !protocols.contains("/catch_up_sync/5"@) ==> actions.len() > 0 && actions[0]
                == ActionView::Disconnect(peer)
            &&& looks && protocols.contains("/catch_up_sync/5"@) && !protocols.contains(
                "/libp2p/circuit/relay/0.2.0/hop"@,
            ) ==> actions.len() == 0
            &&& looks && protocols.contains("/libp2p/circuit/relay/0.2.0/hop"@) ==> actions.contains(
                ActionView::LearnRelay { peer, address: addresses[i] },
            )
        }),
{
    let n = addresses.len() as int;
    let told = ServiceView::relay_told(peer, addresses, n);
    let action = ActionView::LearnRelay { peer, address: addresses[i] };
    lemma_relay_told(peer, addresses, n, i);
    let k = choose|k: int| 0 <= k < told.len() && told[k] == action;
    let actions = node.identified(peer, protocols, addresses);
    if peer != node.local && !node.config.is_seed_peer && protocols.contains("/libp2p/circuit/relay/0.2.0/hop"@) {
        if protocols.contains("/catch_up_sync/5"@) {
            assert(actions[k] == action);
        } else {
            assert(actions[k + 1] == action);
        }
    }
}

/// All seed peers are found, each by its own address, or one of the addresses is bad.
pub proof fn law_every_seed_address_counts(addresses: Seq<Seq<char>>, n: int)
    requires
        0 <= n <= addresses.len(),
    ensures
        SeedEntry::all_of(addresses, n) is Ok <==> forall|i: int|
            0 <= i < n ==> (#[trigger] SeedEntry::of_text(addresses[i])) is Ok,
        SeedEntry::all_of(addresses, n) matches Ok(entries) ==> entries.len() == n && forall|i: int|
            0 <= i < n ==> SeedEntry::of_text(addresses[i]) == Ok::<_, SeedError>(#[trigger] entries[i]),
    decreases n,
{
    if n > 0 {
        law_every_seed_address_counts(addresses, n - 1);
        if SeedEntry::all_of(addresses, n) is Ok {
            assert forall|i: int| 0 <= i < n implies (#[trigger] SeedEntry::of_text(addresses[i])) is Ok by {
                if i < n - 1 {
                    assert(SeedEntry::all_of(addresses, n - 1) is Ok);
                }
            }
        } else if SeedEntry::all_of(addresses, n - 1) is Ok {
            assert(SeedEntry::of_text(addresses[n - 1]) is Err);
        }
    }
}

/// The peer of a seed address is the one that its last part names, and it is reached by the whole address; a domain is looked
/// up instead.
pub proof fn law_seed_addresses_end_with_a_peer(address: Seq<char>, parts: Seq<(PartKind, Seq<char>)>)
    requires
        parts.len() > 0,
    ensures
        SeedEntry::found(address, parts) matches Ok(EntryView::Peer { peer, address: whole }) ==> parts[parts.len()
            - 1] == (PartKind::Peer, peer) && whole == address && parts[0].0 != PartKind::Domain,
        SeedEntry::found(address, parts) matches Ok(EntryView::Lookup { domain }) ==> parts[parts.len() - 1] == (
            PartKind::Domain,
            domain,
        ) && parts[0].0 == PartKind::Domain,
        parts[0].0 != PartKind::Domain && parts[parts.len() - 1].0 == PartKind::Peer ==> (SeedEntry::found(
            address,
            parts,
        ) matches Ok(entry) && entry is Peer),
        parts[0].0 != PartKind::Domain && parts[parts.len() - 1].0 != PartKind::Peer ==> SeedEntry::found(
            address,
            parts,
        ) == Err::<EntryView, _>(SeedError::NoPeerId),
{
}

/// A text record of a domain holds an address behind `dnsaddr=`, and a record without that holds none. Its seed peer is the
/// one that the last part of the address names.
pub proof fn law_records_hold_addresses(address: Seq<char>, record: Seq<char>)
    ensures
        crate::server::p2p::addresses::dnsaddr_of("dnsaddr="@ + address) == Some(address),
        crate::server::p2p::addresses::dnsaddr_of(record) matches Some(a) ==> record == "dnsaddr="@ + a,
        crate::server::p2p::addresses::record_entry("dnsaddr="@ + address) matches Ok(Some((peer, whole))) ==> whole
            == address && (crate::server::p2p::addresses::address_parts(address) matches Some(parts) && parts.len() > 0
            && parts[parts.len() - 1] == (PartKind::Peer, peer)),
{
    let prefix = "dnsaddr="@;
    assert((prefix + address).take(prefix.len() as int) =~= prefix);
    assert((prefix + address).skip(prefix.len() as int) =~= address);
    if let Some(a) = crate::server::p2p::addresses::dnsaddr_of(record) {
        assert(record =~= record.take(prefix.len() as int) + record.skip(prefix.len() as int));
    }
}

}
