//! Peers that relay for a node that others cannot reach.
use crate::server::p2p::peer_id::PeerId;
use crate::text::{copy_texts, lists_text};
use rand::seq::IteratorRandom;
use vstd::prelude::*;
use vstd::string::*;

verus! {

/// A node listens at this many addresses of its relay.
pub const MAX_RELAY_ADDRESSES: usize = 8;

/// The relay of a node.
pub struct RelayPeer {
    /// The peer.
    pub peer_id: PeerId,
    /// Its addresses.
    pub addresses: Vec<String>,
    /// Whether the node listens there.
    pub is_circuit_established: bool,
}

/// What a [`RelayPeer`] holds.
#[verifier::ext_equal]
pub struct RelayView {
    pub peer: Seq<char>,
    pub addresses: Seq<Seq<char>>,
    pub established: bool,
}

impl View for RelayPeer {
    type V = RelayView;

    open spec fn view(&self) -> RelayView {
        RelayView {
            peer: self.peer_id@,
            addresses: crate::text::texts(self.addresses@),
            established: self.is_circuit_established,
        }
    }
}

/// A peer that could be a relay.
pub struct PossibleRelay {
    /// The peer.
    pub peer_id: PeerId,
    /// Its addresses; none occurs twice.
    pub addresses: Vec<String>,
}

impl View for PossibleRelay {
    type V = (Seq<char>, Seq<Seq<char>>);

    open spec fn view(&self) -> (Seq<char>, Seq<Seq<char>>) {
        (self.peer_id@, crate::text::texts(self.addresses@))
    }
}

/// The relays that a node knows.
pub struct RelayStore {
    /// The relay that was chosen.
    pub selected_relay: Option<RelayPeer>,
    /// Peers that could be chosen; none occurs twice.
    pub possible_relays: Vec<PossibleRelay>,
}

/// What a [`RelayStore`] holds.
pub struct RelaysView {
    pub selected: Option<RelayView>,
    pub possible: Seq<(Seq<char>, Seq<Seq<char>>)>,
}

impl View for RelayStore {
    type V = RelaysView;

    open spec fn view(&self) -> RelaysView {
        RelaysView {
            selected: match self.selected_relay {
                Some(relay) => Some(relay@),
                None => None,
            },
            possible: self.possible_relays@.map_values(|r: PossibleRelay| r@),
        }
    }
}

/// Where a node listens through a relay.
pub struct RelayPlan {
    /// The relay.
    pub peer: PeerId,
    /// The addresses at which it is dialed.
    pub dial: Vec<String>,
    /// The addresses at which the node listens.
    pub listen: Vec<String>,
}

impl RelayView {
    /// The first `n` addresses, through the relay.
    pub open spec fn circuits(addresses: Seq<Seq<char>>, n: int) -> Seq<Seq<char>>
        decreases n,
    {
        if n <= 0 {
            Seq::empty()
        } else {
            RelayView::circuits(addresses, n - 1).push(addresses[n - 1] + "/p2p-circuit"@)
        }
    }

    /// Whether a plan is the one for this relay: all its addresses are dialed, and the node listens through the first
    /// of them.
    pub open spec fn reached_by(self, plan: RelayPlan) -> bool {
        &&& plan.peer@ == self.peer
        &&& crate::text::texts(plan.dial@) == self.addresses
        &&& crate::text::texts(plan.listen@) == RelayView::circuits(
            self.addresses,
            if self.addresses.len() > MAX_RELAY_ADDRESSES {
                MAX_RELAY_ADDRESSES as int
            } else {
                self.addresses.len() as int
            },
        )
    }
}

impl RelaysView {
    /// Where a peer is, if it is there.
    pub open spec fn place(self, peer: Seq<char>) -> int {
        crate::assoc::key_index(self.possible, peer)
    }

    /// Whether an address of a peer is known.
    pub open spec fn knows(self, peer: Seq<char>, address: Seq<char>) -> bool {
        crate::assoc::has_key(self.possible, peer) && self.possible[self.place(peer)].1.contains(address)
    }

    /// Learns an address of a peer.
    pub open spec fn learned(self, peer: Seq<char>, address: Seq<char>) -> RelaysView {
        let place = self.place(peer);
        if self.knows(peer, address) {
            self
        } else if crate::assoc::has_key(self.possible, peer) {
            RelaysView {
                possible: self.possible.update(place, (peer, self.possible[place].1.push(address))),
                ..self
            }
        } else {
            RelaysView { possible: self.possible.push((peer, seq![address])), ..self }
        }
    }

    /// Chooses the peer at a place.
    pub open spec fn chosen(self, place: int) -> RelaysView {
        RelaysView {
            selected: Some(
                RelayView {
                    peer: self.possible[place].0,
                    addresses: self.possible[place].1,
                    established: false,
                },
            ),
            ..self
        }
    }

    /// Whether this can be the state after one peer was chosen, whichever it is.
    pub open spec fn any_chosen(self, after: RelaysView) -> bool {
        if self.possible.len() == 0 {
            after == self
        } else {
            exists|place: int| 0 <= place < self.possible.len() && after == #[trigger] self.chosen(place)
        }
    }
}

/// `rand::seq::IteratorRandom::choose` on the numbers below `len`, with `rand::thread_rng`: one of them, if there is
/// any. Which one it is, is left to chance.
#[verifier::external_body]
fn random_place(len: usize) -> (place: Option<usize>)
    ensures
        place is Some <==> len > 0,
        place matches Some(p) ==> p < len,
{
    (0..len).choose(&mut rand::thread_rng())
}

impl Default for RelayStore {
    fn default() -> (store: Self)
        ensures
            store.wf(),
            store@.selected is None,
            store@.possible == Seq::<(Seq<char>, Seq<Seq<char>>)>::empty(),
    {
        let store = RelayStore { selected_relay: None, possible_relays: Vec::new() };
        assert(store@.possible =~= Seq::<(Seq<char>, Seq<Seq<char>>)>::empty());
        store
    }
}

impl RelayStore {
    /// No peer occurs twice.
    pub open spec fn wf(&self) -> bool {
        crate::assoc::distinct_keys(self@.possible)
    }

    /// Whether the node listens through a relay.
    pub fn has_active_relay(&self) -> (active: bool)
        ensures
            active == (self@.selected matches Some(relay) && relay.established),
    {
        match &self.selected_relay {
            Some(relay) => relay.is_circuit_established,
            None => false,
        }
    }

    /// Learns an address of a peer. Tells whether it was not known.
    pub fn add_possible_relay(&mut self, peer: PeerId, address: String) -> (added: bool)
        requires
            old(self).wf(),
        ensures
            final(self).wf(),
            final(self)@ == old(self)@.learned(peer@, address@),
            added <==> !old(self)@.knows(peer@, address@),
    {
        let ghost before = self@.possible;
        let mut i: usize = 0;
        while i < self.possible_relays.len()
            invariant
                i <= self.possible_relays@.len(),
                self.wf(),
                before == self@.possible,
                *self == *old(self),
                forall|j: int| 0 <= j < i ==> (#[trigger] before[j]).0 != peer@,
            decreases self.possible_relays@.len() - i,
        {
            assert(before[i as int] == self.possible_relays@[i as int]@);
            if self.possible_relays[i].peer_id.same(&peer) {
                proof {
                    crate::assoc::lemma_key_at(before, i as int);
                }
                if lists_text(&self.possible_relays[i].addresses, &address) {
                    return false;
                }
                let mut addresses = copy_texts(&self.possible_relays[i].addresses);
                let ghost known = crate::text::texts(addresses@);
                let ghost new_address = address@;
                let ghost name = peer@;
                addresses.push(address);
                assert(crate::text::texts(addresses@) =~= known.push(new_address));
                proof {
                    crate::assoc::lemma_update(before, i as int, known.push(new_address));
                }
                self.possible_relays.set(i, PossibleRelay { peer_id: peer, addresses });
                assert(self@.possible =~= before.update(i as int, (name, known.push(new_address))));
                return true;
            }
            i = i + 1;
        }
        let mut addresses: Vec<String> = Vec::new();
        let ghost new_address = address@;
        let ghost name = peer@;
        addresses.push(address);
        assert(crate::text::texts(addresses@) =~= seq![new_address]);
        proof {
            crate::assoc::lemma_push(before, name, seq![new_address]);
        }
        self.possible_relays.push(PossibleRelay { peer_id: peer, addresses });
        assert(self@.possible =~= before.push((name, seq![new_address])));
        true
    }

    /// Chooses the peer at a place.
    pub fn select_relay(&mut self, place: usize)
        requires
            old(self).wf(),
            place < old(self)@.possible.len(),
        ensures
            final(self).wf(),
            final(self)@ == old(self)@.chosen(place as int),
    {
        let relay = &self.possible_relays[place];
        assert(self@.possible[place as int] == relay@);
        self.selected_relay = Some(
            RelayPeer {
                peer_id: relay.peer_id.clone(),
                addresses: copy_texts(&relay.addresses),
                is_circuit_established: false,
            },
        );
        assert(self@.possible =~= old(self)@.possible);
    }

    /// Chooses some peer, if there is any.
    pub fn select_random_relay(&mut self)
        requires
            old(self).wf(),
        ensures
            final(self).wf(),
            old(self)@.any_chosen(final(self)@),
    {
        match random_place(self.possible_relays.len()) {
            Some(place) => {
                self.select_relay(place);
                assert(self@ == old(self)@.chosen(place as int));
            },
            None => {},
        }
    }

    /// How to reach the chosen relay. At most [`MAX_RELAY_ADDRESSES`] of its addresses are listened at.
    pub fn plan(&self) -> (plan: Option<RelayPlan>)
        ensures
            plan is Some <==> self@.selected is Some,
            plan matches Some(p) ==> self@.selected.unwrap().reached_by(p),
    {
        match &self.selected_relay {
            Some(relay) => {
                let ghost addresses = relay@.addresses;
                let mut listen: Vec<String> = Vec::new();
                let mut i: usize = 0;
                while i < relay.addresses.len() && i < MAX_RELAY_ADDRESSES
                    invariant
                        i <= relay.addresses@.len(),
                        i <= MAX_RELAY_ADDRESSES,
                        addresses == crate::text::texts(relay.addresses@),
                        crate::text::texts(listen@) == RelayView::circuits(addresses, i as int),
                    decreases relay.addresses@.len() - i,
                {
                    let ghost before = listen@;
                    let mut address = relay.addresses[i].clone();
                    address.append("/p2p-circuit");
                    assert(address@ == addresses[i as int] + "/p2p-circuit"@);
                    let ghost text = address@;
                    listen.push(address);
                    i = i + 1;
                    assert(crate::text::texts(listen@) =~= crate::text::texts(before).push(text));
                }
                Some(RelayPlan { peer: relay.peer_id.clone(), dial: copy_texts(&relay.addresses), listen })
            },
            None => None,
        }
    }

    /// Looks for a relay, unless the node can be reached already.
    pub fn attempt_relay_reservation(&mut self, external_addresses: usize) -> (plan: Option<RelayPlan>)
        requires
            old(self).wf(),
        ensures
            final(self).wf(),
            external_addresses > 0 ==> final(self)@ == old(self)@ && plan is None,
            external_addresses == 0 ==> old(self)@.any_chosen(final(self)@) && (plan is Some
                <==> final(self)@.selected is Some),
            plan matches Some(p) ==> final(self)@.selected.unwrap().reached_by(p),
    {
        if external_addresses > 0 {
            return None;
        }
        self.select_random_relay();
        self.plan()
    }

    /// Notes that the node listens through its relay.
    pub fn note_circuit_established(&mut self)
        requires
            old(self).wf(),
        ensures
            final(self).wf(),
            final(self)@ == (RelaysView {
                selected: match old(self)@.selected {
                    Some(relay) => Some(RelayView { established: true, ..relay }),
                    None => None,
                },
                ..old(self)@
            }),
    {
        let selected = self.selected_relay.take();
        match selected {
            Some(relay) => {
                let mut relay = relay;
                relay.is_circuit_established = true;
                self.selected_relay = Some(relay);
            },
            None => {},
        }
    }
}

/// An address that was learned is known from then on, and learning it again changes nothing.
pub proof fn law_learned_relays_are_known(store: RelaysView, peer: Seq<char>, address: Seq<char>)
    requires
        crate::assoc::distinct_keys(store.possible),
    ensures
        store.learned(peer, address).knows(peer, address),
        store.learned(peer, address).learned(peer, address) == store.learned(peer, address),
{
    let after = store.learned(peer, address);
    if !store.knows(peer, address) {
        if crate::assoc::has_key(store.possible, peer) {
            let place = store.place(peer);
            let addresses = store.possible[place].1;
            crate::assoc::lemma_update(store.possible, place, addresses.push(address));
            crate::assoc::lemma_key_at(after.possible, place);
            assert(addresses.push(address)[addresses.len() as int] == address);
        } else {
            crate::assoc::lemma_push(store.possible, peer, seq![address]);
            crate::assoc::lemma_key_at(after.possible, store.possible.len() as int);
            assert(seq![address][0] == address);
        }
    }
}

}
