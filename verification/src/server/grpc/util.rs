//! The free bytes that a miner puts into a coinbase.
use crate::bytes::append_bytes;
use crate::server::p2p::squad::Squad;
use vstd::prelude::*;
use vstd::string::*;

verus! {

/// Marks that fields follow, each as its type, its length and its value.
pub const TYPE_LENGTH_VALUE_MARKER: u8 = 0xFF;

/// Type of the field that holds the squad.
pub const SQUAD_TYPE_MARKER: u8 = 0x02;

/// Type of the field that holds what the miner wrote.
pub const CUSTOM_MESSAGE_TYPE_MARKER: u8 = 0x01;

/// Why free bytes cannot be written.
#[derive(Clone, Copy, PartialEq, Eq, Structural, Debug)]
pub enum CoinbaseExtraError {
    /// The squad's name is longer than a byte can say.
    SquadTooLong,
    /// What the miner wrote is longer than a byte can say.
    MessageTooLong,
}

/// The free bytes of a squad and a message, both in UTF-8.
pub open spec fn coinbase_extra_bytes(squad: Seq<u8>, message: Seq<u8>) -> Seq<u8> {
    seq![TYPE_LENGTH_VALUE_MARKER, SQUAD_TYPE_MARKER, squad.len() as u8] + squad + seq![
        CUSTOM_MESSAGE_TYPE_MARKER,
        message.len() as u8,
    ] + message
}

/// The free bytes of a squad and of what a miner wrote.
pub open spec fn coinbase_extra(squad: Seq<char>, message: Seq<char>) -> Result<Seq<u8>, CoinbaseExtraError> {
    let squad_bytes = vstd::utf8::encode_utf8(squad);
    let message_bytes = vstd::utf8::encode_utf8(message);
    if squad_bytes.len() > u8::MAX {
        Err(CoinbaseExtraError::SquadTooLong)
    } else if message_bytes.len() > u8::MAX {
        Err(CoinbaseExtraError::MessageTooLong)
    } else {
        Ok(coinbase_extra_bytes(squad_bytes, message_bytes))
    }
}

/// Writes the squad and what the miner wrote into free bytes, each behind its type and its length.
pub fn convert_coinbase_extra(squad: Squad, custom_coinbase_extra: String) -> (result: Result<
    Vec<u8>,
    CoinbaseExtraError,
>)
    ensures
        match result {
            Ok(bytes) => coinbase_extra(squad@, custom_coinbase_extra@) == Ok::<_, CoinbaseExtraError>(bytes@),
            Err(error) => coinbase_extra(squad@, custom_coinbase_extra@) == Err::<Seq<u8>, _>(error),
        },
{
    let squad_bytes = squad.inner.as_str().as_bytes_vec();
    if squad_bytes.len() > 255 {
        return Err(CoinbaseExtraError::SquadTooLong);
    }
    let message_bytes = custom_coinbase_extra.as_str().as_bytes_vec();
    if message_bytes.len() > 255 {
        return Err(CoinbaseExtraError::MessageTooLong);
    }
    let mut result: Vec<u8> = Vec::new();
    result.push(TYPE_LENGTH_VALUE_MARKER);
    result.push(SQUAD_TYPE_MARKER);
    result.push(squad_bytes.len() as u8);
    append_bytes(&mut result, &squad_bytes);
    result.push(CUSTOM_MESSAGE_TYPE_MARKER);
    result.push(message_bytes.len() as u8);
    append_bytes(&mut result, &message_bytes);
    assert(result@ =~= coinbase_extra_bytes(squad_bytes@, message_bytes@));
    Ok(result)
}

/// The free bytes give back the squad and the message that they were written from.
pub proof fn law_coinbase_extra_is_read_back(squad: Seq<u8>, message: Seq<u8>)
    requires
        squad.len() <= u8::MAX,
        message.len() <= u8::MAX,
    ensures
        ({
            let bytes = coinbase_extra_bytes(squad, message);
            let squad_end = 3 + bytes[2] as int;
            let message_end = squad_end + 2 + bytes[squad_end + 1] as int;
            &&& bytes[0] == TYPE_LENGTH_VALUE_MARKER
            &&& bytes[1] == SQUAD_TYPE_MARKER
            &&& bytes.subrange(3, squad_end) == squad
            &&& bytes[squad_end] == CUSTOM_MESSAGE_TYPE_MARKER
            &&& message_end == bytes.len()
            &&& bytes.subrange(squad_end + 2, message_end) == message
        }),
{
    let bytes = coinbase_extra_bytes(squad, message);
    let squad_end = 3 + bytes[2] as int;
    assert(bytes[2] == squad.len());
    assert(bytes.subrange(3, squad_end) =~= squad);
    assert(bytes[squad_end] == CUSTOM_MESSAGE_TYPE_MARKER);
    assert(bytes[squad_end + 1] == message.len());
    assert(bytes.subrange(squad_end + 2, bytes.len() as int) =~= message);
}

}
