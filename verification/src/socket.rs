//! Messages as text: a message on a text connection is its bytes in
//! base64, without padding, followed by one end-of-transmission byte. An
//! empty answer is the end-of-transmission byte alone.

use base64::engine::general_purpose::STANDARD_NO_PAD;
use base64::Engine;
use vstd::prelude::*;
use vstd::slice::slice_subrange;
use crate::frame::TransportError;

verus! {

/// `DecodeError` of the crate `base64`: why a text is no base64. Nothing
/// is read from it here.
#[verifier::external_type_specification]
#[verifier::external_body]
pub struct ExDecodeError(base64::DecodeError);

/// The text that the engine `STANDARD_NO_PAD` of the crate `base64`
/// encodes `data` to, as bytes.
pub uninterp spec fn base64_text(data: Seq<u8>) -> Seq<u8>;

/// The bytes that the engine `STANDARD_NO_PAD` of the crate `base64`
/// decodes `text` to, or `None` where it refuses the text.
pub uninterp spec fn base64_data(text: Seq<u8>) -> Option<Seq<u8>>;

/// The byte that ends a message: end of transmission.
pub const EOT: u8 = 4;

/// The longest message whose text has a length that fits in `usize`.
pub open spec fn max_message_len() -> int {
    usize::MAX / 4 * 3
}

/// Whether `b` is a letter, a digit, `+` or `/`: a symbol of the standard
/// base64 alphabet.
pub open spec fn is_symbol(b: u8) -> bool {
    ||| 0x41 <= b <= 0x5a
    ||| 0x61 <= b <= 0x7a
    ||| 0x30 <= b <= 0x39
    ||| b == 0x2b
    ||| b == 0x2f
}

/// The length of the text of `len` bytes: four symbols for every three
/// bytes, and two or three symbols for one or two bytes left over.
pub open spec fn text_len(len: int) -> int {
    len / 3 * 4 + if len % 3 == 0 {
        0int
    } else {
        len % 3 + 1
    }
}

/// Calls `Engine::encode` of the crate `base64` on `STANDARD_NO_PAD`.
/// Taken on trust: the text depends on the bytes alone, has the length
/// that the crate computes for it, holds only symbols of the standard
/// alphabet, and decodes to `data`. The call panics where the length of
/// the text does not fit in `usize`, which the bound on the length of
/// `data` rules out.
#[verifier::external_body]
fn base64_encode(data: &[u8]) -> (text: Vec<u8>)
    requires
        data@.len() <= max_message_len(),
    ensures
        text@ == base64_text(data@),
        text@.len() == text_len(data@.len() as int),
        forall|i: int| 0 <= i < text@.len() ==> is_symbol(#[trigger] text@[i]),
        base64_data(text@) == Some(data@),
{
    STANDARD_NO_PAD.encode(data).into_bytes()
}

/// Calls `Engine::decode` of the crate `base64` on `STANDARD_NO_PAD`.
/// Taken on trust: whether the text is accepted, and the bytes where it
/// is, depend on the text alone.
#[verifier::external_body]
fn base64_decode(text: &[u8]) -> (r: Result<Vec<u8>, base64::DecodeError>)
    ensures
        r is Ok <==> base64_data(text@) is Some,
        r matches Ok(data) ==> base64_data(text@) == Some(data@),
{
    STANDARD_NO_PAD.decode(text)
}

/// What was received without its last byte, the end of transmission.
pub open spec fn body_of(received: Seq<u8>) -> Seq<u8> {
    if received.len() == 0 {
        received
    } else {
        received.drop_last()
    }
}

/// What a decoded body means: nothing where the body is empty, the bytes
/// where it is base64, and an error where it is not.
pub open spec fn meaning(body: Seq<u8>, decoded: Option<Seq<u8>>) -> Result<
    Option<Seq<u8>>,
    TransportError,
> {
    if body.len() == 0 {
        Ok(None)
    } else {
        match decoded {
            Some(data) => Ok(Some(data)),
            None => Err(TransportError::ProtocolError),
        }
    }
}

/// The message that a received text stands for.
pub open spec fn message_of(received: Seq<u8>) -> Result<Option<Seq<u8>>, TransportError> {
    meaning(body_of(received), base64_data(body_of(received)))
}

/// What `message` decodes to once it was sent: itself, or nothing where
/// it is empty.
pub open spec fn sent(message: Seq<u8>) -> Result<Option<Seq<u8>>, TransportError> {
    if message.len() == 0 {
        Ok(None)
    } else {
        Ok(Some(message))
    }
}

/// A received message, with its bytes as a sequence.
pub open spec fn message_view(r: Result<Option<Vec<u8>>, TransportError>) -> Result<
    Option<Seq<u8>>,
    TransportError,
> {
    match r {
        Ok(Some(data)) => Ok(Some(data@)),
        Ok(None) => Ok(None),
        Err(e) => Err(e),
    }
}

/// Ends a text with the end-of-transmission byte.
pub fn terminate(text: Vec<u8>) -> (r: Vec<u8>)
    ensures
        r@ == text@.push(EOT),
{
    let mut out = text;
    out.push(EOT);
    out
}

/// What was received without its last byte. The last byte is dropped
/// whatever it is; nothing is dropped from nothing.
pub fn message_body(received: &[u8]) -> (body: &[u8])
    ensures
        body@ == body_of(received@),
{
    if received.len() == 0 {
        received
    } else {
        proof {
            assert(received@.subrange(0, received@.len() - 1) =~= received@.drop_last());
        }
        slice_subrange(received, 0, received.len() - 1)
    }
}

/// The bytes to send for `message`: its base64 text and the end of
/// transmission, or `None` where the message is too long to be encoded.
/// No byte before the last is an end of transmission, and the bytes
/// decode to the message, or to nothing where the message is empty.
pub fn encode_message(message: &[u8]) -> (r: Option<Vec<u8>>)
    ensures
        r is Some <==> message@.len() <= max_message_len(),
        r matches Some(bytes) ==> {
            &&& bytes@ == base64_text(message@).push(EOT)
            &&& forall|i: int| 0 <= i < bytes@.len() - 1 ==> bytes@[i] != EOT
            &&& message_of(bytes@) == sent(message@)
        },
{
    if message.len() > usize::MAX / 4 * 3 {
        return None;
    }
    let text = base64_encode(message);
    let ghost encoded = text@;
    let bytes = terminate(text);
    proof {
        assert(body_of(bytes@) =~= encoded);
        assert forall|i: int| 0 <= i < bytes@.len() - 1 implies bytes@[i] != EOT by {
            assert(is_symbol(encoded[i]));
        }
    }
    Some(bytes)
}

/// The bytes to send for an answer: those of the message where there is
/// one, and the end of transmission alone where there is none.
pub fn encode_answer(answer: &Option<Vec<u8>>) -> (r: Option<Vec<u8>>)
    ensures
        match *answer {
            Some(message) => {
                &&& r is Some <==> message@.len() <= max_message_len()
                &&& r matches Some(bytes) ==> bytes@ == base64_text(message@).push(EOT)
                    && message_of(bytes@) == sent(message@)
            },
            None => r matches Some(bytes) && bytes@ == seq![EOT] && message_of(bytes@) == Ok::<
                Option<Seq<u8>>,
                TransportError,
            >(None),
        },
{
    match answer {
        Some(message) => encode_message(message.as_slice()),
        None => {
            let bytes = terminate(Vec::new());
            proof {
                assert(bytes@ =~= seq![EOT]);
                assert(body_of(bytes@) =~= Seq::<u8>::empty());
            }
            Some(bytes)
        },
    }
}

/// One segment of a stream that was split at each end of transmission: the
/// bytes that its text stands for.
pub fn decode_segment(segment: &[u8]) -> (r: Result<Vec<u8>, TransportError>)
    ensures
        match r {
            Ok(data) => base64_data(segment@) == Some(data@),
            Err(e) => e == TransportError::ProtocolError && base64_data(segment@) is None,
        },
{
    match base64_decode(segment) {
        Ok(data) => Ok(data),
        Err(_) => Err(TransportError::ProtocolError),
    }
}

/// The message in what was read up to and with an end of transmission:
/// nothing where only the end of transmission came, or not even that.
pub fn decode_message(received: &[u8]) -> (r: Result<Option<Vec<u8>>, TransportError>)
    ensures
        message_view(r) == message_of(received@),
{
    let body = message_body(received);
    if body.len() == 0 {
        return Ok(None);
    }
    match decode_segment(body) {
        Ok(data) => Ok(Some(data)),
        Err(e) => Err(e),
    }
}

} // verus!
