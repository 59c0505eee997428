//! Laws on the lists of peers, on whom a node asks, and on what it shows.
use crate::server::p2p::chain_sync::{SyncView, SyncsView};
use crate::server::p2p::messages::PeerInfoView;
use crate::server::p2p::network::ActionView;
use crate::server::p2p::peer_choice::{ChoiceView, Ranking};
use crate::server::p2p::peer_id::PeerId;
use crate::server::p2p::peer_map::RecordView;
use crate::server::p2p::peer_store::{AddPeerStatus, PeerStore, StoreView};
use crate::server::p2p::recent_tips::TipsView;
use crate::server::p2p::relay_store::{RelayView, RelaysView};
use crate::server::p2p::service::ServiceView;
use crate::server::p2p::ticks::ShownView;
use crate::types::{FixedHash, PowAlgorithm};
use vstd::prelude::*;

verus! {

/// A peer that nobody knew is trusted from then on, with what it told and without a record. Everybody else stays where
/// they were.
pub proof fn law_new_peers_are_trusted(
    store: StoreView,
    peer: Seq<char>,
    info: PeerInfoView,
    now: u64,
    other: Seq<char>,
)
    requires
        !store.knows(peer),
        !store.seeds.contains(peer),
    ensures
        ({
            let (after, status) = store.added(peer, info, now);
            &&& status == AddPeerStatus::NewPeer
            &&& after.white.dom().contains(peer)
            &&& after.white[peer].peer_id == peer
            &&& after.white[peer].peer_info == info
            &&& after.white[peer].created == now
            &&& after.white[peer].num_grey_listings == 0
            &&& after.white[peer].catch_up_attempts == 0
            &&& after.white[peer].last_grey_list_reason is None
            &&& after.grey == store.grey && after.black == store.black && after.seeds == store.seeds
            &&& other != peer ==> (after.white.dom().contains(other) <==> store.white.dom().contains(other))
                && after.white[other] == store.white[other]
        }),
{
}

/// A seed peer is put on the grey list with what it told, whatever was known of it, and never among the trusted ones.
pub proof fn law_seed_peers_are_kept_apart(
    store: StoreView,
    peer: Seq<char>,
    info: PeerInfoView,
    now: u64,
    other: Seq<char>,
)
    requires
        store.seeds.contains(peer),
    ensures
        ({
            let (after, status) = store.added(peer, info, now);
            &&& status == AddPeerStatus::Greylisted
            &&& after.white == store.white && after.black == store.black && after.seeds == store.seeds
            &&& after.grey.dom().contains(peer)
            &&& after.grey[peer].peer_id == peer && after.grey[peer].peer_info == info
            &&& after.grey[peer].num_grey_listings == 0
            &&& other != peer ==> (after.grey.dom().contains(other) <==> store.grey.dom().contains(other))
                && after.grey[other] == store.grey[other]
        }),
{
}

/// A trusted peer that is put on the grey list is counted there once more, with the reason; what it told is kept.
/// Everybody else stays where they were.
pub proof fn law_grey_listing_counts(store: StoreView, peer: Seq<char>, reason: Seq<char>, other: Seq<char>)
    requires
        store.white.dom().contains(peer),
        store.white[peer].num_grey_listings < u64::MAX,
    ensures
        ({
            let after = store.greyed(peer, reason);
            &&& !after.white.dom().contains(peer)
            &&& after.grey.dom().contains(peer)
            &&& after.grey[peer].num_grey_listings == store.white[peer].num_grey_listings + 1
            &&& after.grey[peer].last_grey_list_reason == Some(reason)
            &&& after.grey[peer].peer_info == store.white[peer].peer_info
            &&& after.grey[peer].created == store.white[peer].created
            &&& after.black == store.black && after.seeds == store.seeds
            &&& other != peer ==> {
                &&& after.white.dom().contains(other) <==> store.white.dom().contains(other)
                &&& after.white.dom().contains(other) ==> after.white[other] == store.white[other]
                &&& after.grey.dom().contains(other) <==> store.grey.dom().contains(other)
                &&& after.grey.dom().contains(other) ==> after.grey[other] == store.grey[other]
            }
        }),
{
}

/// Clearing the grey list leaves nobody on it: whoever was put on it fewer than 5 times is trusted again, unless it is a
/// seed peer, and whoever was put on it 5 times or more is on the black list. Records stay, and so do all other peers.
pub proof fn law_clearing_the_grey_list(store: StoreView, peer: Seq<char>)
    requires
        store.settled(),
    ensures
        ({
            let after = store.grey_cleared();
            let grey = store.grey.dom().contains(peer);
            &&& !after.grey.dom().contains(peer)
            &&& after.seeds == store.seeds
            &&& grey && store.grey[peer].num_grey_listings >= 5 ==> after.black.dom().contains(peer)
                && after.black[peer] == store.grey[peer] && !after.white.dom().contains(peer)
            &&& grey && store.grey[peer].num_grey_listings < 5 && !store.seeds.contains(peer)
                ==> after.white.dom().contains(peer) && after.white[peer] == store.grey[peer]
                && !after.black.dom().contains(peer)
            &&& grey && store.seeds.contains(peer) ==> !after.white.dom().contains(peer) && !after.black.dom().contains(
                peer,
            )
            &&& !grey ==> {
                &&& after.white.dom().contains(peer) <==> store.white.dom().contains(peer)
                &&& after.white.dom().contains(peer) ==> after.white[peer] == store.white[peer]
                &&& after.black.dom().contains(peer) <==> store.black.dom().contains(peer)
                &&& after.black.dom().contains(peer) ==> after.black[peer] == store.black[peer]
            }
        }),
{
    if store.grey.dom().contains(peer) {
        assert(!store.black.dom().contains(peer));
        if store.white.dom().contains(peer) {
            assert(!store.grey.dom().contains(peer));
        }
    }
    if store.seeds.contains(peer) {
        assert(!store.white.dom().contains(peer) && !store.black.dom().contains(peer));
    }
}

/// Clearing the black list leaves nobody on it. Whoever was on it keeps what it told and when it was met; all other peers
/// stay as they were.
pub proof fn law_clearing_the_black_list(store: StoreView, peer: Seq<char>)
    ensures
        ({
            let after = store.black_cleared();
            &&& !after.black.dom().contains(peer)
            &&& after.grey == store.grey && after.seeds == store.seeds
            &&& store.black.dom().contains(peer) ==> after.white.dom().contains(peer) && after.white[peer].peer_info
                == store.black[peer].peer_info && after.white[peer].created == store.black[peer].created
            &&& !store.black.dom().contains(peer) ==> (after.white.dom().contains(peer) <==> store.white.dom().contains(
                peer,
            )) && (after.white.dom().contains(peer) ==> after.white[peer] == store.white[peer])
        }),
{
}

/// A chosen peer has an address, was heard of, and is not left out. Those with the higher chain come first, and of these,
/// or if heights do not count, those heard of last. No peer that is passed over should have come before one that is chosen.
pub proof fn law_best_peers_are_chosen(
    choice: ChoiceView,
    all: Map<Seq<char>, RecordView>,
    count: nat,
    picked: Seq<RecordView>,
    i: int,
    j: int,
    passed: Seq<char>,
)
    requires
        choice.picks(all, count, picked),
        0 <= i < j < picked.len(),
        all.dom().contains(passed),
        !picked.contains(all[passed]),
        all[passed].peer_info.public_addresses.len() > 0,
        choice.heard_after matches Some(time) ==> all[passed].last_heard() > time,
        !choice.except.contains(all[passed].peer_id),
    ensures
        picked.len() == count,
        picked[i].peer_info.public_addresses.len() > 0,
        !choice.except.contains(picked[i].peer_id),
        choice.heard_after matches Some(time) ==> picked[i].last_heard() > time,
        choice.ranking == Ranking::LastHeard ==> picked[i].last_heard() >= picked[j].last_heard()
            && picked[j].last_heard() >= all[passed].last_heard(),
        choice.ranking matches Ranking::Height(algo) ==> StoreView::height_of(picked[i], algo) >= StoreView::height_of(
            picked[j],
            algo,
        ) && StoreView::height_of(picked[j], algo) >= StoreView::height_of(all[passed], algo),
{
    let last = picked.len() - 1;
    assert(choice.admits(all[passed]));
    assert(!choice.outranks(all[passed], picked[last]));
    if j < last {
        assert(!choice.outranks(picked[last], picked[j]));
    }
    assert(!choice.outranks(picked[j], picked[i]));
    assert(choice.admits(picked[i]));
}

proof fn lemma_connections(node: ServiceView, connected: Seq<Seq<char>>, n: int, i: int)
    requires
        0 <= i < n <= connected.len(),
    ensures
        node.store.white.dom().contains(connected[i]) ==> node.connections(connected, n).contains(
            (connected[i], ShownView::of(node.store.white[connected[i]])),
        ),
        !node.store.white.dom().contains(connected[i]) && node.store.grey.dom().contains(connected[i])
            ==> node.connections(connected, n).contains(
            (connected[i], ShownView::of(node.store.grey[connected[i]])),
        ),
    decreases n,
{
    let all = node.connections(connected, n);
    let before = node.connections(connected, n - 1);
    if i == n - 1 {
        if all.len() > before.len() {
            assert(all[before.len() as int] == all.last());
        }
    } else {
        lemma_connections(node, connected, n - 1, i);
        assert forall|shown: (Seq<char>, ShownView)| before.contains(shown) implies all.contains(shown) by {
            let k = choose|k: int| 0 <= k < before.len() && before[k] == shown;
            assert(all[k] == shown);
        }
    }
}

/// Every connected peer that the node knows is shown, with what it told last, and no peer is shown that is not connected.
pub proof fn law_connected_peers_are_shown(node: ServiceView, connected: Seq<Seq<char>>, n: int)
    requires
        0 <= n <= connected.len(),
    ensures
        forall|i: int|
            0 <= i < n && node.store.white.dom().contains(#[trigger] connected[i]) ==> node.connections(
                connected,
                n,
            ).contains((connected[i], ShownView::of(node.store.white[connected[i]]))),
        forall|i: int|
            0 <= i < n && !node.store.white.dom().contains(#[trigger] connected[i]) && node.store.grey.dom().contains(
                connected[i],
            ) ==> node.connections(connected, n).contains(
                (connected[i], ShownView::of(node.store.grey[connected[i]])),
            ),
        forall|j: int|
            0 <= j < node.connections(connected, n).len() ==> connected.contains(
                (#[trigger] node.connections(connected, n)[j]).0,
            ),
    decreases n,
{
    assert forall|i: int| 0 <= i < n && node.store.white.dom().contains(
        #[trigger] connected[i],
    ) implies node.connections(connected, n).contains(
        (connected[i], ShownView::of(node.store.white[connected[i]])),
    ) by {
        lemma_connections(node, connected, n, i);
    }
    assert forall|i: int|
        0 <= i < n && !node.store.white.dom().contains(#[trigger] connected[i]) && node.store.grey.dom().contains(
            connected[i],
        ) implies node.connections(connected, n).contains(
        (connected[i], ShownView::of(node.store.grey[connected[i]])),
    ) by {
        lemma_connections(node, connected, n, i);
    }
    if n > 0 {
        law_connected_peers_are_shown(node, connected, n - 1);
        let before = node.connections(connected, n - 1);
        let all = node.connections(connected, n);
        assert(connected.contains(connected[n - 1]));
        assert forall|j: int| 0 <= j < all.len() implies connected.contains((#[trigger] all[j]).0) by {
            if j < before.len() {
                assert(all[j] == before[j]);
            }
        }
    }
}

/// Every seed peer is learned and dialed.
pub proof fn law_seed_peers_are_dialed(seeds: Seq<(PeerId, String)>, n: int, i: int)
    requires
        0 <= i < n <= seeds.len(),
    ensures
        ServiceView::joined(seeds, n).contains(ActionView::Dial(seeds[i].0@)),
        ServiceView::joined(seeds, n).contains(
            ActionView::AddAddresses { peer: seeds[i].0@, addresses: seq![seeds[i].1@] },
        ),
        ServiceView::joined(seeds, n).len() == 2 * n,
    decreases n,
{
    let before = ServiceView::joined(seeds, n - 1);
    let all = ServiceView::joined(seeds, n);
    if n > 1 {
        law_seed_peers_are_dialed(seeds, n - 1, if i < n - 1 {
            i
        } else {
            0
        });
    } else {
        assert(before.len() == 0);
    }
    if i == n - 1 {
        assert(all[before.len() as int] == ActionView::AddAddresses { peer: seeds[i].0@, addresses: seq![seeds[i].1@] });
        assert(all[(before.len() + 1) as int] == ActionView::Dial(seeds[i].0@));
    } else {
        assert forall|action: ActionView| before.contains(action) implies all.contains(action) by {
            let k = choose|k: int| 0 <= k < before.len() && before[k] == action;
            assert(all[k] == action);
        }
    }
}

/// Through a relay a node listens on each of its addresses, with the circuit behind it.
pub proof fn law_circuits_go_through_the_relay(addresses: Seq<Seq<char>>, n: int)
    requires
        0 <= n <= addresses.len(),
    ensures
        RelayView::circuits(addresses, n).len() == n,
        forall|i: int|
            0 <= i < n ==> (#[trigger] RelayView::circuits(addresses, n)[i]) == addresses[i] + "/p2p-circuit"@,
    decreases n,
{
    if n > 0 {
        law_circuits_go_through_the_relay(addresses, n - 1);
    }
}

proof fn lemma_without(items: Seq<(Seq<char>, (u64, FixedHash))>, peer: Seq<char>, item: (Seq<char>, (u64, FixedHash)))
    ensures
        TipsView::without(items, peer).contains(item) <==> items.contains(item) && item.0 != peer,
        TipsView::without(items, peer).len() <= items.len(),
    decreases items.len(),
{
    let rest = items.drop_last();
    let others = TipsView::without(items, peer);
    if items.len() > 0 {
        lemma_without(rest, peer, item);
        let fewer = TipsView::without(rest, peer);
        if items.contains(item) {
            let k = choose|k: int| 0 <= k < items.len() && items[k] == item;
            if k < rest.len() {
                assert(rest[k] == item);
            }
        }
        if rest.contains(item) {
            let k = choose|k: int| 0 <= k < rest.len() && rest[k] == item;
            assert(items[k] == item);
        }
        if items.last().0 != peer {
            assert(others =~= fewer.push(items.last()));
            if fewer.contains(item) {
                let k = choose|k: int| 0 <= k < fewer.len() && fewer[k] == item;
                assert(others[k] == item);
            }
            if others.contains(item) && item != items.last() {
                let k = choose|k: int| 0 <= k < others.len() && others[k] == item;
                assert(fewer[k] == item);
            }
            assert(others[others.len() - 1] == items.last());
            assert(items[items.len() - 1] == items.last());
        }
    }
}

/// The block that a peer sent last takes the place of what the peer sent before, and is named last. The last blocks of other
/// peers stay as long as there is room.
pub proof fn law_last_blocks_are_kept(
    tips: TipsView,
    peer: Seq<char>,
    block: (u64, FixedHash),
    item: (Seq<char>, (u64, FixedHash)),
)
    requires
        tips.limit > 0,
    ensures
        ({
            let after = tips.put(peer, block);
            &&& after.limit == tips.limit
            &&& after.oldest_first().len() > 0
            &&& after.oldest_first().last() == block
            &&& item.0 != peer && after.items.contains(item) ==> tips.items.contains(item)
            &&& tips.items.len() < tips.limit && item.0 != peer && tips.items.contains(item) ==> after.items.contains(
                item,
            )
            &&& item.0 == peer && after.items.contains(item) ==> item.1 == block
        }),
{
    let others = TipsView::without(tips.items, peer);
    let whole = seq![(peer, block)] + others;
    let after = tips.put(peer, block);
    lemma_without(tips.items, peer, item);
    assert(whole[0] == (peer, block));
    if after.items.contains(item) {
        let k = choose|k: int| 0 <= k < after.items.len() && after.items[k] == item;
        if k > 0 {
            assert(others[k - 1] == item);
            assert(others.contains(item));
        }
    }
    if others.contains(item) && tips.items.len() < tips.limit {
        let k = choose|k: int| 0 <= k < others.len() && others[k] == item;
        assert(whole[k + 1] == item);
    }
}

proof fn lemma_place(list: Seq<(Seq<char>, (u64, PowAlgorithm))>, request_id: u64, from: int)
    requires
        0 <= from <= list.len(),
    ensures
        match SyncView::place_of(list, request_id, from) {
            Some(place) => from <= place < list.len() && list[place].1.0 == request_id,
            None => forall|i: int| from <= i < list.len() ==> (#[trigger] list[i]).1.0 != request_id,
        },
    decreases list.len() - from,
{
    if from < list.len() && list[from].1.0 != request_id {
        lemma_place(list, request_id, from + 1);
    }
}

/// An answer ends the request with its number, gives out the permit of that request, and leaves all other requests as they
/// are. If there is no such request, nothing changes.
pub proof fn law_answers_end_their_requests(
    syncs: SyncsView,
    request_id: u64,
    algo: PowAlgorithm,
    entry: (Seq<char>, (u64, PowAlgorithm)),
)
    requires
        syncs.wf(),
    ensures
        ({
            let (after, permit) = syncs.released(request_id);
            &&& permit is None ==> after == syncs
            &&& permit is None <==> (forall|i: int|
                0 <= i < syncs.random_x.in_progress.len() ==> (#[trigger] syncs.random_x.in_progress[i]).1.0
                    != request_id) && (forall|i: int|
                0 <= i < syncs.sha3x.in_progress.len() ==> (#[trigger] syncs.sha3x.in_progress[i]).1.0 != request_id)
            &&& permit matches Some(given) ==> after.random_x.in_progress.len() + after.sha3x.in_progress.len() + 1
                == syncs.random_x.in_progress.len() + syncs.sha3x.in_progress.len()
            &&& entry.1.0 != request_id ==> (after.chain(algo).in_progress.contains(entry) <==> syncs.chain(
                algo,
            ).in_progress.contains(entry))
            &&& after.chain(algo).permits == syncs.chain(algo).permits
            &&& after.chain(algo).last_requested == syncs.chain(algo).last_requested
        }),
{
    let (random_x, sha3x) = (syncs.random_x.in_progress, syncs.sha3x.in_progress);
    lemma_place(random_x, request_id, 0);
    lemma_place(sha3x, request_id, 0);
    if let Some(place) = SyncView::place_of(random_x, request_id, 0) {
        lemma_removed(random_x, place, entry);
    } else if let Some(place) = SyncView::place_of(sha3x, request_id, 0) {
        lemma_removed(sha3x, place, entry);
    }
}

proof fn lemma_removed(
    list: Seq<(Seq<char>, (u64, PowAlgorithm))>,
    place: int,
    entry: (Seq<char>, (u64, PowAlgorithm)),
)
    requires
        0 <= place < list.len(),
    ensures
        entry.1.0 != list[place].1.0 ==> (list.remove(place).contains(entry) <==> list.contains(entry)),
{
    let after = list.remove(place);
    if list.contains(entry) && entry.1.0 != list[place].1.0 {
        let k = choose|k: int| 0 <= k < list.len() && list[k] == entry;
        if k < place {
            assert(after[k] == entry);
        } else {
            assert(after[k - 1] == entry);
        }
    }
    if after.contains(entry) {
        let k = choose|k: int| 0 <= k < after.len() && after[k] == entry;
        if k < place {
            assert(list[k] == entry);
        } else {
            assert(list[k + 1] == entry);
        }
    }
}

/// A chain stops to count as synced when a node starts to catch up with a peer that is more than 10 levels ahead, and not
/// otherwise. Starting touches nothing of the other chain, if the permit is not one of it.
pub proof fn law_catching_up_from_afar_unsyncs(
    syncs: SyncsView,
    algo: PowAlgorithm,
    peer: Seq<char>,
    last: Option<(u64, FixedHash)>,
    their_height: u64,
    our_tip: u64,
    i_have: Seq<(u64, FixedHash)>,
    other: PowAlgorithm,
)
    requires
        other != algo,
    ensures
        ({
            let (after, call) = syncs.started(algo, peer, last, their_height, None, our_tip, i_have);
            &&& after.chain(algo).synced == (syncs.chain(algo).synced && !(call is Some && their_height > our_tip + 10))
            &&& call is Some ==> after.chain(algo).permits + 1 == syncs.chain(algo).permits
            &&& call is None ==> after.chain(algo).permits == syncs.chain(algo).permits
            &&& after.chain(algo).in_progress == syncs.chain(algo).in_progress
            &&& after.chain(algo).tips == syncs.chain(algo).tips
            &&& after.chain(other) == syncs.chain(other)
        }),
{
}

/// The relay that is chosen is one of those that are known, with all its addresses, and is not established yet. The known
/// ones stay.
pub proof fn law_chosen_relays_are_known(relays: RelaysView, after: RelaysView)
    requires
        relays.any_chosen(after),
        relays.possible.len() > 0,
    ensures
        after.selected is Some,
        relays.possible.contains(((after.selected->Some_0).peer, (after.selected->Some_0).addresses)),
        !(after.selected->Some_0).established,
        after.possible == relays.possible,
{
    let place = choose|place: int| 0 <= place < relays.possible.len() && after == #[trigger] relays.chosen(place);
    assert(relays.possible[place] == ((after.selected->Some_0).peer, (after.selected->Some_0).addresses));
}

/// A request that was sent is in progress, with its number and its permit, and no other request to the peer is. A request
/// that failed is in progress no longer.
pub proof fn law_requests_are_noted(
    syncs: SyncsView,
    algo: PowAlgorithm,
    peer: Seq<char>,
    request_id: u64,
    permit: PowAlgorithm,
)
    requires
        syncs.wf(),
    ensures
        ({
            let after = syncs.sent(algo, peer, request_id, permit);
            let failed = syncs.failed(peer, request_id);
            &&& after.chain(algo).in_progress.contains((peer, (request_id, permit)))
            &&& forall|i: int|
                0 <= i < after.chain(algo).in_progress.len() && (#[trigger] after.chain(algo).in_progress[i]).0 == peer
                    ==> after.chain(algo).in_progress[i].1 == (request_id, permit)
            &&& forall|i: int|
                0 <= i < failed.random_x.in_progress.len() ==> !((
                #[trigger] failed.random_x.in_progress[i]).0 == peer && failed.random_x.in_progress[i].1.0
                    == request_id)
            &&& forall|i: int|
                0 <= i < failed.sha3x.in_progress.len() ==> !((#[trigger] failed.sha3x.in_progress[i]).0 == peer
                    && failed.sha3x.in_progress[i].1.0 == request_id)
        }),
{
    let list = syncs.chain(algo).in_progress;
    let after = syncs.sent(algo, peer, request_id, permit).chain(algo).in_progress;
    if syncs.chain(algo).asked(peer) {
        let place = crate::assoc::key_index(list, peer);
        assert(after[place] == (peer, (request_id, permit)));
        assert forall|i: int| 0 <= i < after.len() && (#[trigger] after[i]).0 == peer implies after[i].1 == (
            request_id,
            permit,
        ) by {
            if i != place {
                assert(list[i].0 != list[place].0);
            }
        }
    } else {
        assert(after[list.len() as int] == (peer, (request_id, permit)));
        assert forall|i: int| 0 <= i < after.len() && (#[trigger] after[i]).0 == peer implies after[i].1 == (
            request_id,
            permit,
        ) by {
            if i < list.len() {
                assert(list[i].0 == peer);
            }
        }
    }
    lemma_dropped_is_gone(syncs, PowAlgorithm::RandomX, peer, request_id);
    let half = syncs.dropped(PowAlgorithm::RandomX, peer, request_id);
    lemma_dropped_is_gone(half, PowAlgorithm::Sha3x, peer, request_id);
}

proof fn lemma_dropped_is_gone(syncs: SyncsView, algo: PowAlgorithm, peer: Seq<char>, request_id: u64)
    requires
        syncs.wf(),
    ensures
        ({
            let after = syncs.dropped(algo, peer, request_id);
            &&& after.wf()
            &&& forall|i: int|
                0 <= i < after.chain(algo).in_progress.len() ==> !((#[trigger] after.chain(algo).in_progress[i]).0
                    == peer && after.chain(algo).in_progress[i].1.0 == request_id)
            &&& algo == PowAlgorithm::Sha3x ==> after.random_x.in_progress == syncs.random_x.in_progress
            &&& algo == PowAlgorithm::RandomX ==> after.sha3x.in_progress == syncs.sha3x.in_progress
        }),
{
    let list = syncs.chain(algo).in_progress;
    let after = syncs.dropped(algo, peer, request_id).chain(algo).in_progress;
    let place = crate::assoc::key_index(list, peer);
    if syncs.chain(algo).asked(peer) && list[place].1.0 == request_id {
        assert(after =~= list.remove(place));
        assert forall|i: int| 0 <= i < after.len() implies !((#[trigger] after[i]).0 == peer && after[i].1.0
            == request_id) by {
            let k = if i < place {
                i
            } else {
                i + 1
            };
            assert(after[i] == list[k]);
            assert(list[k].0 == list[place].0 ==> k == place);
        }
        assert(crate::assoc::distinct_keys(after)) by {
            assert forall|a: int, b: int|
                0 <= a < after.len() && 0 <= b < after.len() && (#[trigger] after[a]).0 == (
                #[trigger] after[b]).0 implies a == b by {
                let (x, y) = (
                    if a < place {
                        a
                    } else {
                        a + 1
                    },
                    if b < place {
                        b
                    } else {
                        b + 1
                    },
                );
                assert(after[a] == list[x] && after[b] == list[y]);
            }
        }
    } else {
        assert forall|i: int| 0 <= i < list.len() implies !((#[trigger] list[i]).0 == peer && list[i].1.0
            == request_id) by {
            if list[i].0 == peer {
                assert(crate::assoc::has_key(list, peer));
                assert(list[place].0 == peer);
                assert(i == place);
            }
        }
    }
}

/// A peer was last heard of when it told of its last new tip; if it told of none, when it told about itself. What is shown of
/// a peer is what it told, why it was distrusted last, and when it answered a ping.
pub proof fn law_records_tell_when_a_peer_was_heard(record: RecordView)
    ensures
        record.last_new_tip_notify matches Some(time) ==> record.last_heard() == time,
        record.last_new_tip_notify is None ==> record.last_heard() == record.peer_info.timestamp,
        ShownView::of(record).peer_info == record.peer_info,
        ShownView::of(record).last_ping == record.last_ping,
        ShownView::of(record).last_grey_list_reason == record.last_grey_list_reason,
{
}

/// A trusted peer that tells about itself again is as if it had just been met, but for when it was met first, when blocks were
/// last asked for, and how often in a row. A peer that was loaded is as if it had told at the time of loading.
pub proof fn law_renewed_records(known: RecordView, info: PeerInfoView, peer: Seq<char>, now: u64)
    ensures
        ({
            let renewed = StoreView::renewed(known, info, now);
            &&& renewed.peer_id == known.peer_id
            &&& renewed.peer_info == info
            &&& renewed.num_grey_listings == 0
            &&& renewed.last_grey_list_reason is None
            &&& renewed.last_new_tip_notify is None
            &&& renewed.last_ping is None
            &&& renewed.catch_up_attempts == known.catch_up_attempts
            &&& renewed.created == known.created
        }),
        ({
            let loaded = StoreView::loaded_record(peer, info, now);
            &&& loaded.peer_id == peer
            &&& loaded.created == now
            &&& loaded.num_grey_listings == 0
            &&& loaded.catch_up_attempts == 0
            &&& loaded.peer_info.public_addresses == info.public_addresses
            &&& loaded.peer_info.current_sha3x_height == info.current_sha3x_height
            &&& loaded.peer_info.current_random_x_height == info.current_random_x_height
            &&& loaded.peer_info.squad == info.squad
            &&& loaded.peer_info.version == info.version
        }),
{
}

/// Noting an attempt changes the time of the last attempt of one chain and nothing else.
pub proof fn law_attempts_are_noted(record: RecordView, algo: PowAlgorithm, now: u64)
    ensures
        ({
            let after = PeerStore::attempted(record, algo, now);
            &&& algo == PowAlgorithm::RandomX ==> after.last_rx_sync_attempt == Some(now)
                && after.last_sha3x_sync_attempt == record.last_sha3x_sync_attempt
            &&& algo == PowAlgorithm::Sha3x ==> after.last_sha3x_sync_attempt == Some(now) && after.last_rx_sync_attempt
                == record.last_rx_sync_attempt
            &&& after.peer_info == record.peer_info
            &&& after.num_grey_listings == record.num_grey_listings
            &&& after.catch_up_attempts == record.catch_up_attempts
            &&& after.created == record.created
        }),
{
}

}
