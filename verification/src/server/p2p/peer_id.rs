//! Names of peers.
use vstd::prelude::*;

verus! {

/// The identity of a peer, as base58 text.
pub struct PeerId {
    /// The text.
    pub text: String,
}

impl View for PeerId {
    type V = Seq<char>;

    open spec fn view(&self) -> Seq<char> {
        self.text@
    }
}

impl Clone for PeerId {
    fn clone(&self) -> (copy: Self)
        ensures
            copy@ == self@,
    {
        PeerId { text: self.text.clone() }
    }
}

/// The base58 text of the peer that this text names, if it names one.
pub uninterp spec fn peer_named(text: Seq<char>) -> Option<Seq<char>>;

/// `libp2p::PeerId::from_str`, as the text that `PeerId::to_base58` gives. It depends on the text alone, and names the
/// same peer again; nothing is said of it beyond that.
#[verifier::external_body]
fn canonical_peer_id(text: &str) -> (canonical: Option<String>)
    ensures
        canonical is Some <==> peer_named(text@) is Some,
        canonical matches Some(t) ==> peer_named(text@) == Some(t@) && peer_named(t@) == Some(t@),
{
    text.parse::<libp2p::PeerId>().ok().map(|peer| peer.to_base58())
}

impl PeerId {
    /// The text is the base58 text of a peer.
    pub open spec fn is_name(text: Seq<char>) -> bool {
        peer_named(text) == Some(text)
    }

    /// Reads a peer's name; `None` if the text names no peer.
    pub fn parse(text: &str) -> (peer: Option<PeerId>)
        ensures
            peer is Some <==> peer_named(text@) is Some,
            peer matches Some(p) ==> peer_named(text@) == Some(p@) && PeerId::is_name(p@),
    {
        match canonical_peer_id(text) {
            Some(text) => Some(PeerId { text }),
            None => None,
        }
    }

    /// Whether two names are the same.
    pub fn same(&self, other: &PeerId) -> (same: bool)
        ensures
            same <==> self@ == other@,
    {
        self.text == other.text
    }

    /// The name as base58 text.
    pub fn to_base58(&self) -> (text: String)
        ensures
            text@ == self@,
    {
        self.text.clone()
    }

    /// The names of some peers.
    pub open spec fn names(peers: Seq<PeerId>) -> Seq<Seq<char>> {
        peers.map_values(|p: PeerId| p@)
    }

    /// Whether a peer is in a list.
    pub fn is_in(&self, peers: &[PeerId]) -> (found: bool)
        ensures
            found <==> PeerId::names(peers@).contains(self@),
    {
        let mut i: usize = 0;
        while i < peers.len()
            invariant
                i <= peers@.len(),
                forall|j: int| 0 <= j < i ==> (#[trigger] PeerId::names(peers@)[j]) != self@,
            decreases peers@.len() - i,
        {
            assert(PeerId::names(peers@)[i as int] == peers@[i as int]@);
            if self.same(&peers[i]) {
                return true;
            }
            i = i + 1;
        }
        false
    }
}

}
