//! Identities of nodes.
use crate::server::p2p::peer_id::PeerId;
use crate::text::decode_hex;
use vstd::prelude::*;

verus! {

/// Length of a private key as it is saved: two bytes that say what kind of key it is, two that say how long it is, and
/// the key.
pub const PRIVATE_KEY_LENGTH: usize = 68;

/// A new private key of a node.
pub struct GenerateIdentityResult {
    /// The key as it is saved.
    pub private_key: Vec<u8>,
}

impl GenerateIdentityResult {
    /// Holds a private key.
    pub fn new(private_key: Vec<u8>) -> (result: Self)
        ensures
            result.private_key@ == private_key@,
    {
        GenerateIdentityResult { private_key }
    }

    /// The private key.
    pub fn private_key(&self) -> (key: &Vec<u8>)
        ensures
            key@ == self.private_key@,
    {
        &self.private_key
    }
}

/// The key that these bytes hold, as it is saved, if they hold one.
pub uninterp spec fn key_in(raw: Seq<u8>) -> Option<Seq<u8>>;

/// The peer whose key these bytes hold, as base58 text, if they hold one.
pub uninterp spec fn peer_with_key(raw: Seq<u8>) -> Option<Seq<char>>;

/// `libp2p::identity::Keypair::generate_ed25519` and `Keypair::to_protobuf_encoding`, which never fails on such a key:
/// a new key, as it is saved. The key itself is left to chance; how it is framed and how long it is, is not, and it is
/// read back as it is.
#[verifier::external_body]
fn random_private_key() -> (key: Option<Vec<u8>>)
    ensures
        key is Some,
        key matches Some(k) ==> k@.len() == PRIVATE_KEY_LENGTH && k@.take(4) == seq![0x08u8, 0x01u8, 0x12u8, 0x40u8],
        key matches Some(k) ==> key_in(k@) == Some(k@),
{
    libp2p::identity::Keypair::generate_ed25519().to_protobuf_encoding().ok()
}

/// `libp2p::identity::Keypair::from_protobuf_encoding`, as the bytes that `to_protobuf_encoding` gives. They depend on
/// the bytes that were read alone, and are read back as they are.
#[verifier::external_body]
fn decode_key(raw: &[u8]) -> (key: Option<Vec<u8>>)
    ensures
        key is Some <==> key_in(raw@) is Some,
        key matches Some(k) ==> key_in(raw@) == Some(k@) && key_in(k@) == Some(k@),
{
    libp2p::identity::Keypair::from_protobuf_encoding(raw).ok().and_then(|key| key.to_protobuf_encoding().ok())
}

/// `libp2p::identity::PublicKey::to_peer_id` and `PeerId::to_base58`, on the public key of the key that
/// `Keypair::from_protobuf_encoding` reads. The text depends on the bytes that were read alone, and names the peer that
/// it is the text of. Where the bytes hold a key that can be saved, there is one.
#[verifier::external_body]
fn decode_peer(raw: &[u8]) -> (peer: Option<String>)
    ensures
        peer is Some <==> peer_with_key(raw@) is Some,
        key_in(raw@) is Some ==> peer is Some,
        peer matches Some(p) ==> peer_with_key(raw@) == Some(p@) && PeerId::is_name(p@),
{
    libp2p::identity::Keypair::from_protobuf_encoding(raw).ok().map(|key| key.public().to_peer_id().to_base58())
}

/// Generates a new private key that can be used to return when generating identity.
pub fn generate_identity() -> (result: Option<GenerateIdentityResult>)
    ensures
        result matches Some(identity) && identity.private_key@.len() == PRIVATE_KEY_LENGTH
            && identity.private_key@.take(4) == seq![0x08u8, 0x01u8, 0x12u8, 0x40u8] && key_in(identity.private_key@)
            == Some(identity.private_key@),
{
    match random_private_key() {
        Some(key) => Some(GenerateIdentityResult::new(key)),
        None => None,
    }
}

/// Why there is no key.
#[derive(Clone, Copy, PartialEq, Eq, Structural, Debug)]
pub enum IdentityError {
    /// The text is not bytes in hexadecimal.
    NotHex,
    /// The bytes hold no key.
    NotAKey,
}

impl IdentityError {
    /// The text of the error.
    pub fn message(&self) -> (text: &'static str)
        ensures
            text@ == (match self {
                IdentityError::NotHex => "the identity is not hexadecimal"@,
                IdentityError::NotAKey => "the identity is not a private key"@,
            }),
    {
        match self {
            IdentityError::NotHex => "the identity is not hexadecimal",
            IdentityError::NotAKey => "the identity is not a private key",
        }
    }
}

/// The key that a text holds in hexadecimal, or why it holds none.
pub open spec fn key_in_text(text: Seq<char>) -> Result<Seq<u8>, IdentityError> {
    match crate::text::hex_bytes(text) {
        None => Err(IdentityError::NotHex),
        Some(raw) => match key_in(raw) {
            None => Err(IdentityError::NotAKey),
            Some(key) => Ok(key),
        },
    }
}

/// Reads a private key from its bytes in hexadecimal.
pub fn identity_of_text(text: &str) -> (identity: Result<Vec<u8>, IdentityError>)
    ensures
        match identity {
            Ok(key) => key_in_text(text@) == Ok::<_, IdentityError>(key@) && key_in(key@) == Some(key@),
            Err(error) => key_in_text(text@) == Err::<Seq<u8>, _>(error),
        },
{
    let raw = match decode_hex(text) {
        Some(raw) => raw,
        None => {
            return Err(IdentityError::NotHex);
        },
    };
    match decode_key(&raw) {
        Some(key) => Ok(key),
        None => Err(IdentityError::NotAKey),
    }
}

/// Whether this is the key of a node: its private key, and whether it is to be saved. Only a stable peer keeps its key;
/// then a key of the settings goes before one that was saved. Any other key is new.
pub open spec fn is_node_key(
    stable_peer: bool,
    given: Option<Seq<u8>>,
    saved: Option<Seq<u8>>,
    key: Result<(Seq<u8>, bool), IdentityError>,
) -> bool {
    match (stable_peer, given, saved) {
        (true, Some(own), _) => key == Ok::<_, IdentityError>((own, false)),
        (true, None, Some(raw)) => match key_in(raw) {
            Some(own) => key == Ok::<_, IdentityError>((own, false)),
            None => key == Err::<(Seq<u8>, bool), _>(IdentityError::NotAKey),
        },
        _ => key matches Ok((own, save)) && save == stable_peer && own.len() == PRIVATE_KEY_LENGTH && key_in(own)
            == Some(own),
    }
}

/// The bytes, if there are any.
pub open spec fn opt_bytes(bytes: Option<Vec<u8>>) -> Option<Seq<u8>> {
    match bytes {
        Some(list) => Some(list@),
        None => None,
    }
}

/// Generates or reads the private key of a node if it is a stable peer, otherwise gives a random key. `given` is the key
/// of the settings, and `saved` what the key file holds. Tells whether the key is to be saved, too.
///
/// Using this we can be sure that the peer ID remains the same across restarts of a stable peer.
pub fn node_key(stable_peer: bool, given: Option<Vec<u8>>, saved: Option<Vec<u8>>) -> (key: Result<
    (Vec<u8>, bool),
    IdentityError,
>)
    ensures
        is_node_key(
            stable_peer,
            opt_bytes(given),
            opt_bytes(saved),
            match key {
                Ok((own, save)) => Ok((own@, save)),
                Err(error) => Err(error),
            },
        ),
{
    if stable_peer {
        // if we have a private key set, use it instead
        if let Some(key) = given {
            return Ok((key, false));
        }
        // if we have a saved private key from file, just use it
        if let Some(raw) = saved {
            return match decode_key(&raw) {
                Some(key) => Ok((key, false)),
                None => Err(IdentityError::NotAKey),
            };
        }
    }
    // otherwise create a new one
    match random_private_key() {
        Some(key) => Ok((key, stable_peer)),
        None => Err(IdentityError::NotAKey),
    }
}

/// The name by which others know the node with a key; `None` if the bytes hold no key.
pub fn peer_of_key(key: &[u8]) -> (peer: Option<PeerId>)
    ensures
        peer is Some <==> peer_with_key(key@) is Some,
        key_in(key@) is Some ==> peer is Some,
        peer matches Some(p) ==> peer_with_key(key@) == Some(p@) && PeerId::is_name(p@),
{
    match decode_peer(key) {
        Some(text) => Some(PeerId { text }),
        None => None,
    }
}

/// A stable peer has the same key when it is started again, and so the same name, as long as nobody touches the key file:
/// `saved` is what the file held at the first start, and a key that was to be saved is there at the second.
pub proof fn law_stable_peer_keeps_its_key(
    given: Option<Seq<u8>>,
    saved: Option<Seq<u8>>,
    first: Result<(Seq<u8>, bool), IdentityError>,
    second: Result<(Seq<u8>, bool), IdentityError>,
)
    requires
        is_node_key(true, given, saved, first),
        first is Ok,
        is_node_key(
            true,
            given,
            if first->Ok_0.1 {
                Some(first->Ok_0.0)
            } else {
                saved
            },
            second,
        ),
    ensures
        second == Ok::<_, IdentityError>((first->Ok_0.0, false)),
        peer_with_key(second->Ok_0.0) == peer_with_key(first->Ok_0.0),
        given is None && saved is None ==> first->Ok_0.1,
        given matches Some(own) ==> first->Ok_0.0 == own,
        given is None ==> (saved matches Some(raw) ==> key_in(raw) == Some(first->Ok_0.0)),
{
}

/// An identity that was generated is read back from its text.
pub proof fn law_identity_is_read_back(key: Seq<u8>)
    requires
        key_in(key) == Some(key),
    ensures
        key_in_text(crate::text::hex(key)) == Ok::<_, IdentityError>(key),
{
    crate::text::law_hex_is_read_back(key);
}

/// The digest by which a message is told apart from others.
pub uninterp spec fn message_digest(data: Seq<u8>) -> Seq<u8>;

/// `blake2::Blake2b` with an output of 32 bytes, over the data of a message. The result depends on the data alone;
/// nothing is said of it beyond that but its length.
#[verifier::external_body]
fn digest_message(data: &[u8]) -> (digest: Vec<u8>)
    ensures
        digest@ == message_digest(data@),
        digest@.len() == 32,
{
    <blake2::Blake2b<digest::consts::U32> as digest::Digest>::digest(data).to_vec()
}

/// The name by which a message is told apart from others: messages with the same data have the same name.
pub fn message_id(data: &[u8]) -> (id: Vec<u8>)
    ensures
        id@ == message_digest(data@),
        id@.len() == 32,
{
    digest_message(data)
}

}
