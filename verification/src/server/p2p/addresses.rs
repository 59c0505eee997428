//! Addresses of peers, and the peers that a node starts with.
use crate::server::p2p::network::Config;
use crate::server::p2p::peer_id::PeerId;
use crate::text::copy_text;
use vstd::prelude::*;
use vstd::string::*;

verus! {

/// What a part of an address is for.
#[derive(Clone, Copy, PartialEq, Eq, Structural, Debug)]
pub enum PartKind {
    /// It names a peer.
    Peer,
    /// It names a domain whose text records hold addresses.
    Domain,
    /// It says how to get there.
    Way,
}

/// The parts of an address, each with what it names; `None` if the text is no address.
pub uninterp spec fn address_parts(text: Seq<char>) -> Option<Seq<(PartKind, Seq<char>)>>;

/// The parts as texts.
pub open spec fn part_views(parts: Seq<(PartKind, String)>) -> Seq<(PartKind, Seq<char>)> {
    parts.map_values(|p: (PartKind, String)| (p.0, p.1@))
}

/// `libp2p::Multiaddr::from_str` and `Multiaddr::iter`: the parts of an address. Peers are written in base58; of the
/// parts that name neither a peer nor a domain nothing is kept. The result depends on the text alone; nothing is said
/// of it beyond that.
#[verifier::external_body]
fn split_address(text: &str) -> (parts: Option<Vec<(PartKind, String)>>)
    ensures
        parts is Some <==> address_parts(text@) is Some,
        parts matches Some(p) ==> address_parts(text@) == Some(part_views(p@)),
{
    let address = text.parse::<libp2p::Multiaddr>().ok()?;
    let parts = address.iter().map(|part| match part {
        libp2p::multiaddr::Protocol::P2p(peer) => (PartKind::Peer, peer.to_base58()),
        libp2p::multiaddr::Protocol::Dnsaddr(name) => (PartKind::Domain, name.to_string()),
        _ => (PartKind::Way, String::new()),
    });
    Some(parts.collect())
}

/// Where a seed peer is found.
pub enum SeedEntry {
    /// A peer at an address.
    Peer { peer: PeerId, address: String },
    /// Peers whose addresses stand in the text records of a domain.
    Lookup { domain: String },
    /// Nothing is found.
    Nothing,
}

/// What a [`SeedEntry`] holds.
#[verifier::ext_equal]
pub enum EntryView {
    Peer { peer: Seq<char>, address: Seq<char> },
    Lookup { domain: Seq<char> },
    Nothing,
}

impl View for SeedEntry {
    type V = EntryView;

    open spec fn view(&self) -> EntryView {
        match self {
            SeedEntry::Peer { peer, address } => EntryView::Peer { peer: peer@, address: address@ },
            SeedEntry::Lookup { domain } => EntryView::Lookup { domain: domain@ },
            SeedEntry::Nothing => EntryView::Nothing,
        }
    }
}

/// Why the address of a seed peer is of no use.
#[derive(Clone, Copy, PartialEq, Eq, Structural, Debug)]
pub enum SeedError {
    /// It is no address.
    Unreadable,
    /// It has no parts.
    Empty,
    /// It does not say which peer is there.
    NoPeerId,
    /// A text record does not start as it should.
    MissingPrefix,
}

impl SeedError {
    /// The text of the error.
    pub open spec fn text(self) -> Seq<char> {
        match self {
            SeedError::Unreadable => "Invalid multiaddr"@,
            SeedError::Empty => "Seed peer address is empty"@,
            SeedError::NoPeerId => "Seed peer address does not contain peer id"@,
            SeedError::MissingPrefix => "Missing `dnsaddr=` prefix."@,
        }
    }

    /// The text of the error.
    pub fn message(&self) -> (text: &'static str)
        ensures
            text@ == self.text(),
    {
        match self {
            SeedError::Unreadable => "Invalid multiaddr",
            SeedError::Empty => "Seed peer address is empty",
            SeedError::NoPeerId => "Seed peer address does not contain peer id",
            SeedError::MissingPrefix => "Missing `dnsaddr=` prefix.",
        }
    }
}

impl SeedEntry {
    /// Where the seed peer of an address with these parts is found. An address that does not start with a domain must
    /// end with a peer.
    pub open spec fn found(address: Seq<char>, parts: Seq<(PartKind, Seq<char>)>) -> Result<EntryView, SeedError> {
        if parts.len() == 0 {
            Err(SeedError::Empty)
        } else if parts.first().0 == PartKind::Domain {
            Ok(
                if parts.last().0 == PartKind::Domain {
                    EntryView::Lookup { domain: parts.last().1 }
                } else {
                    EntryView::Nothing
                },
            )
        } else if parts.last().0 == PartKind::Peer {
            Ok(EntryView::Peer { peer: parts.last().1, address })
        } else {
            Err(SeedError::NoPeerId)
        }
    }

    /// Where the seed peer of an address is found.
    pub open spec fn of_text(address: Seq<char>) -> Result<EntryView, SeedError> {
        match address_parts(address) {
            None => Err(SeedError::Unreadable),
            Some(parts) => SeedEntry::found(address, parts),
        }
    }

    /// Where the first `n` seed peers are found; the first bad address is an error.
    pub open spec fn all_of(addresses: Seq<Seq<char>>, n: int) -> Result<Seq<EntryView>, SeedError>
        decreases n,
    {
        if n <= 0 {
            Ok(Seq::empty())
        } else {
            match SeedEntry::all_of(addresses, n - 1) {
                Err(error) => Err(error),
                Ok(entries) => match SeedEntry::of_text(addresses[n - 1]) {
                    Err(error) => Err(error),
                    Ok(entry) => Ok(entries.push(entry)),
                },
            }
        }
    }

    /// What some entries hold.
    pub open spec fn views(entries: Seq<SeedEntry>) -> Seq<EntryView> {
        entries.map_values(|e: SeedEntry| e@)
    }

    /// What a result holds.
    pub open spec fn outcome(result: Result<SeedEntry, SeedError>) -> Result<EntryView, SeedError> {
        match result {
            Ok(entry) => Ok(entry@),
            Err(error) => Err(error),
        }
    }

    /// Where the seed peer of an address with these parts is found.
    pub fn from_parts(address: &str, parts: &Vec<(PartKind, String)>) -> (result: Result<SeedEntry, SeedError>)
        ensures
            SeedEntry::outcome(result) == SeedEntry::found(address@, part_views(parts@)),
    {
        let ghost views = part_views(parts@);
        if parts.len() == 0 {
            return Err(SeedError::Empty);
        }
        let last: usize = parts.len() - 1;
        assert(views.first() == (parts@[0].0, parts@[0].1@));
        assert(views.last() == (parts@[last as int].0, parts@[last as int].1@));
        if parts[0].0 == PartKind::Domain {
            if parts[last].0 == PartKind::Domain {
                Ok(SeedEntry::Lookup { domain: parts[last].1.clone() })
            } else {
                Ok(SeedEntry::Nothing)
            }
        } else if parts[last].0 == PartKind::Peer {
            Ok(SeedEntry::Peer { peer: PeerId { text: parts[last].1.clone() }, address: copy_text(address) })
        } else {
            Err(SeedError::NoPeerId)
        }
    }

    /// Where the seed peer of an address is found.
    pub fn from_text(address: &str) -> (result: Result<SeedEntry, SeedError>)
        ensures
            SeedEntry::outcome(result) == SeedEntry::of_text(address@),
    {
        match split_address(address) {
            None => Err(SeedError::Unreadable),
            Some(parts) => SeedEntry::from_parts(address, &parts),
        }
    }
}

impl Config {
    /// Where the seed peers of the settings are found.
    pub fn parse_seed_peers(&self) -> (result: Result<Vec<SeedEntry>, SeedError>)
        ensures
            match result {
                Ok(entries) => SeedEntry::all_of(crate::text::texts(self.seed_peers@), self.seed_peers@.len() as int)
                    == Ok::<_, SeedError>(SeedEntry::views(entries@)),
                Err(error) => SeedEntry::all_of(crate::text::texts(self.seed_peers@), self.seed_peers@.len() as int)
                    == Err::<Seq<EntryView>, _>(error),
            },
    {
        let ghost all = crate::text::texts(self.seed_peers@);
        let mut entries: Vec<SeedEntry> = Vec::new();
        assert(SeedEntry::views(entries@) =~= Seq::empty());
        let mut i: usize = 0;
        while i < self.seed_peers.len()
            invariant
                i <= self.seed_peers@.len(),
                all == crate::text::texts(self.seed_peers@),
                SeedEntry::all_of(all, i as int) == Ok::<_, SeedError>(SeedEntry::views(entries@)),
            decreases self.seed_peers@.len() - i,
        {
            assert(all[i as int] == self.seed_peers@[i as int]@);
            match SeedEntry::from_text(self.seed_peers[i].as_str()) {
                Ok(entry) => {
                    let ghost before = SeedEntry::views(entries@);
                    let ghost view = entry@;
                    entries.push(entry);
                    assert(SeedEntry::views(entries@) =~= before.push(view));
                },
                Err(error) => {
                    proof {
                        lemma_first_error(all, i + 1, all.len() as int, error);
                    }
                    return Err(error);
                },
            }
            i = i + 1;
        }
        Ok(entries)
    }
}

proof fn lemma_first_error(addresses: Seq<Seq<char>>, n: int, m: int, error: SeedError)
    requires
        n <= m,
        SeedEntry::all_of(addresses, n) == Err::<Seq<EntryView>, _>(error),
    ensures
        SeedEntry::all_of(addresses, m) == Err::<Seq<EntryView>, _>(error),
    decreases m - n,
{
    if n < m {
        assert(m > 0) by {
            if m <= 0 {
                assert(SeedEntry::all_of(addresses, n) is Ok);
            }
        }
        lemma_first_error(addresses, n, m - 1, error);
    }
}

/// What a text record of a domain that holds an address starts with.
pub const DNSADDR_PREFIX: &'static str = "dnsaddr=";

/// The address in a text record of a domain.
pub open spec fn dnsaddr_of(record: Seq<char>) -> Option<Seq<char>> {
    let prefix = DNSADDR_PREFIX@;
    if record.len() >= prefix.len() && record.take(prefix.len() as int) == prefix {
        Some(record.skip(prefix.len() as int))
    } else {
        None
    }
}

/// The seed peer of a text record: the address behind the prefix must end with a peer.
pub open spec fn record_entry(record: Seq<char>) -> Result<Option<(Seq<char>, Seq<char>)>, SeedError> {
    match dnsaddr_of(record) {
        None => Err(SeedError::MissingPrefix),
        Some(address) => match address_parts(address) {
            None => Err(SeedError::Unreadable),
            Some(parts) => Ok(
                if parts.len() > 0 && parts.last().0 == PartKind::Peer {
                    Some((parts.last().1, address))
                } else {
                    None
                },
            ),
        },
    }
}

/// The seed peer of a text record of a domain, with its address; `None` if the address names no peer.
pub fn parse_dnsaddr_txt(record: &str) -> (result: Result<Option<(PeerId, String)>, SeedError>)
    ensures
        match result {
            Err(error) => record_entry(record@) == Err::<Option<(Seq<char>, Seq<char>)>, _>(error),
            Ok(None) => record_entry(record@) == Ok::<Option<(Seq<char>, Seq<char>)>, SeedError>(None),
            Ok(Some((peer, address))) => record_entry(record@) == Ok::<_, SeedError>(Some((peer@, address@))),
        },
{
    let prefix_len = DNSADDR_PREFIX.unicode_len();
    let len = record.unicode_len();
    if len < prefix_len {
        return Err(SeedError::MissingPrefix);
    }
    let start = record.substring_char(0, prefix_len);
    assert(start@ =~= record@.take(prefix_len as int));
    if copy_text(start) != copy_text(DNSADDR_PREFIX) {
        return Err(SeedError::MissingPrefix);
    }
    let address = record.substring_char(prefix_len, len);
    assert(address@ =~= record@.skip(prefix_len as int));
    match split_address(address) {
        None => Err(SeedError::Unreadable),
        Some(parts) => {
            let ghost views = part_views(parts@);
            if parts.len() == 0 {
                return Ok(None);
            }
            let last: usize = parts.len() - 1;
            assert(views.last() == (parts@[last as int].0, parts@[last as int].1@));
            if parts[last].0 == PartKind::Peer {
                Ok(Some((PeerId { text: parts[last].1.clone() }, copy_text(address))))
            } else {
                Ok(None)
            }
        },
    }
}

/// Whether some part names a peer.
pub open spec fn names_peer(parts: Seq<(PartKind, Seq<char>)>) -> bool {
    exists|i: int| 0 <= i < parts.len() && (#[trigger] parts[i]).0 == PartKind::Peer
}

/// Whether a text is an address that names a peer.
pub fn is_p2p_address(address: &str) -> (named: bool)
    ensures
        named <==> (address_parts(address@) matches Some(parts) && names_peer(parts)),
{
    match split_address(address) {
        None => false,
        Some(parts) => has_peer_part(&parts),
    }
}

/// Whether some part names a peer.
pub fn has_peer_part(parts: &Vec<(PartKind, String)>) -> (named: bool)
    ensures
        named <==> names_peer(part_views(parts@)),
{
    let ghost views = part_views(parts@);
    let mut i: usize = 0;
    while i < parts.len()
        invariant
            i <= parts@.len(),
            views == part_views(parts@),
            forall|j: int| 0 <= j < i ==> (#[trigger] views[j]).0 != PartKind::Peer,
        decreases parts@.len() - i,
    {
        assert(views[i as int].0 == parts@[i as int].0);
        if parts[i].0 == PartKind::Peer {
            return true;
        }
        i = i + 1;
    }
    false
}

/// The addresses at which a node listens: on all interfaces, over QUIC and over TCP, of IPv6 and of IPv4.
pub open spec fn listen_address(label: Seq<char>, address: Seq<char>, protocol: Seq<char>, port: Seq<char>, end:
    Seq<char>) -> Seq<char> {
    "/"@ + label + "/"@ + address + protocol + port + end
}

fn write_listen_address(label: &str, address: &str, protocol: &str, port: &str, end: &str) -> (text: String)
    ensures
        text@ == listen_address(label@, address@, protocol@, port@, end@),
{
    let mut text = copy_text("/");
    text.append(label);
    text.append("/");
    text.append(address);
    text.append(protocol);
    text.append(port);
    text.append(end);
    text
}

/// The addresses at which a node listens on a port.
pub fn listen_addresses(port: u16) -> (addresses: Vec<String>)
    ensures
        ({
            let number = crate::text::decimal(port as nat);
            crate::text::texts(addresses@) == seq![
                listen_address("ip6"@, "::"@, "/udp/"@, number, "/quic-v1"@),
                listen_address("ip6"@, "::"@, "/tcp/"@, number, ""@),
                listen_address("ip4"@, "0.0.0.0"@, "/udp/"@, number, "/quic-v1"@),
                listen_address("ip4"@, "0.0.0.0"@, "/tcp/"@, number, ""@),
            ]
        }),
{
    let number = crate::text::decimal_text(port as u64);
    let mut addresses: Vec<String> = Vec::new();
    addresses.push(write_listen_address("ip6", "::", "/udp/", number.as_str(), "/quic-v1"));
    addresses.push(write_listen_address("ip6", "::", "/tcp/", number.as_str(), ""));
    addresses.push(write_listen_address("ip4", "0.0.0.0", "/udp/", number.as_str(), "/quic-v1"));
    addresses.push(write_listen_address("ip4", "0.0.0.0", "/tcp/", number.as_str(), ""));
    proof {
        let text = crate::text::decimal(port as nat);
        assert(crate::text::texts(addresses@) =~= seq![
            listen_address("ip6"@, "::"@, "/udp/"@, text, "/quic-v1"@),
            listen_address("ip6"@, "::"@, "/tcp/"@, text, ""@),
            listen_address("ip4"@, "0.0.0.0"@, "/udp/"@, text, "/quic-v1"@),
            listen_address("ip4"@, "0.0.0.0"@, "/tcp/"@, text, ""@),
        ]);
    }
    addresses
}

}
