//! Raft messages, and the codec that writes and reads them.

use rafter::Message;
use rafter_codec::{DecodePeerMessageError, EncodePeerMessageError};
use vstd::prelude::*;

verus! {

/// A Raft message, which is carried and not looked into.
#[verifier::external_type_specification]
#[verifier::external_body]
pub struct ExMessage(rafter::Message);

/// Why the peer message codec does not encode a message.
#[verifier::external_type_specification]
#[verifier::external_body]
pub struct ExEncodePeerMessageError(rafter_codec::EncodePeerMessageError);

/// Why the peer message codec does not decode bytes.
#[verifier::external_type_specification]
#[verifier::external_body]
pub struct ExDecodePeerMessageError(rafter_codec::DecodePeerMessageError);

/// Bytes that the peer message codec writes for a message, where it has a wire form.
pub uninterp spec fn encoded_message(message: Message) -> Option<Seq<u8>>;

/// Message that the peer message codec reads from bytes, where they are exactly one.
pub uninterp spec fn decoded_message(bytes: Seq<u8>) -> Option<Message>;

/// Encodes a message with `rafter_codec::encode_message`. The contract claims that whether it has a
/// wire form, and which, is a function of the message alone. It does not claim that the bytes are
/// decoded again: the codec writes snapshot metadata that it refuses to read.
#[verifier::external_body]
pub(crate) fn encode_message(message: &Message) -> (r: Result<Vec<u8>, EncodePeerMessageError>)
    ensures
        match r {
            Ok(bytes) => encoded_message(*message) == Some(bytes@),
            Err(_) => encoded_message(*message) is None,
        },
{
    rafter_codec::encode_message(message)
}

/// Decodes a message with `rafter_codec::decode_message`. The contract claims that whether the bytes
/// are exactly one message, and which, is a function of the bytes alone.
#[verifier::external_body]
pub(crate) fn decode_message(bytes: &[u8]) -> (r: Result<Message, DecodePeerMessageError>)
    ensures
        match r {
            Ok(message) => decoded_message(bytes@) == Some(message),
            Err(_) => decoded_message(bytes@) is None,
        },
{
    rafter_codec::decode_message(bytes)
}

} // verus!
