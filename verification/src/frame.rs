//! Frames: a message on the wire is its length in four bytes, most
//! significant first, followed by that many bytes of payload.

use vstd::prelude::*;
use vstd::slice::slice_subrange;

verus! {

/// Why an exchange over a connection failed.
#[derive(Debug, Clone, Copy, PartialEq, Eq, Structural)]
pub enum TransportError {
    /// The bytes ended before the message did.
    ConnectionClosed,
    /// The bytes are not those of a message.
    ProtocolError,
}

/// The longest payload that a frame can carry.
pub const MAX_PAYLOAD: usize = 0xffff_ffff;

/// A length in four bytes, most significant first.
pub open spec fn prefix_of(len: int) -> Seq<u8> {
    seq![
        (len / 0x100_0000) as u8,
        (len / 0x1_0000 % 0x100) as u8,
        (len / 0x100 % 0x100) as u8,
        (len % 0x100) as u8,
    ]
}

/// The length that the first four bytes of `bytes` declare.
pub open spec fn declared_len(bytes: Seq<u8>) -> int {
    bytes[0] * 0x100_0000 + bytes[1] * 0x1_0000 + bytes[2] * 0x100 + bytes[3]
}

/// The frame that carries `payload`.
pub open spec fn frame_of(payload: Seq<u8>) -> Seq<u8> {
    prefix_of(payload.len() as int) + payload
}

/// Whether `bytes` begin with a whole frame.
pub open spec fn holds_frame(bytes: Seq<u8>) -> bool {
    bytes.len() >= 4 && bytes.len() >= 4 + declared_len(bytes)
}

/// The payload of the frame that `bytes` begin with.
pub open spec fn payload_of(bytes: Seq<u8>) -> Seq<u8> {
    bytes.subrange(4, 4 + declared_len(bytes))
}

/// The four bytes that declare a payload of `len` bytes.
pub fn encode_len(len: u32) -> (prefix: Vec<u8>)
    ensures
        prefix@ == prefix_of(len as int),
{
    let mut prefix: Vec<u8> = Vec::new();
    prefix.push((len / 0x100_0000) as u8);
    prefix.push((len / 0x1_0000 % 0x100) as u8);
    prefix.push((len / 0x100 % 0x100) as u8);
    prefix.push((len % 0x100) as u8);
    proof {
        assert(prefix@ =~= prefix_of(len as int));
    }
    prefix
}

/// The length that a prefix declares. Fewer than four bytes mean that the
/// connection was closed before the prefix was complete.
pub fn decode_len(prefix: &[u8]) -> (r: Result<u32, TransportError>)
    ensures
        r is Ok <==> prefix@.len() >= 4,
        r matches Ok(len) ==> len == declared_len(prefix@),
        r matches Err(e) ==> e == TransportError::ConnectionClosed,
{
    if prefix.len() < 4 {
        return Err(TransportError::ConnectionClosed);
    }
    let b0 = prefix[0] as u32;
    let b1 = prefix[1] as u32;
    let b2 = prefix[2] as u32;
    let b3 = prefix[3] as u32;
    Ok(b0 * 0x100_0000 + b1 * 0x1_0000 + b2 * 0x100 + b3)
}

/// The frame that carries `payload`, or `None` where the payload is too
/// long for its length to be declared in four bytes.
pub fn encode_frame(payload: &[u8]) -> (r: Option<Vec<u8>>)
    ensures
        r is Some <==> payload@.len() <= MAX_PAYLOAD,
        r matches Some(frame) ==> frame@ == frame_of(payload@),
{
    if payload.len() > MAX_PAYLOAD {
        return None;
    }
    let mut frame = encode_len(payload.len() as u32);
    let mut i: usize = 0;
    while i < payload.len()
        invariant
            i <= payload.len(),
            frame@ == prefix_of(payload@.len() as int) + payload@.take(i as int),
        decreases payload.len() - i,
    {
        frame.push(payload[i]);
        proof {
            assert(payload@.take(i + 1) =~= payload@.take(i as int).push(payload@[i as int]));
            assert(frame@ =~= prefix_of(payload@.len() as int) + payload@.take(i + 1));
        }
        i = i + 1;
    }
    proof {
        assert(payload@.take(i as int) =~= payload@);
    }
    Some(frame)
}

/// Takes the frame that `bytes` begin with: returns its payload and the
/// number of bytes that the frame takes up. Where the bytes end before the
/// prefix or before the declared length, the connection was closed.
pub fn decode_frame(bytes: &[u8]) -> (r: Result<(Vec<u8>, usize), TransportError>)
    ensures
        r is Ok <==> holds_frame(bytes@),
        r matches Ok(taken) ==> taken.0@ == payload_of(bytes@) && taken.1 == 4 + declared_len(
            bytes@,
        ),
        r matches Err(e) ==> e == TransportError::ConnectionClosed,
{
    let len = match decode_len(bytes) {
        Ok(len) => len,
        Err(e) => {
            return Err(e);
        },
    };
    if ((bytes.len() - 4) as u64) < len as u64 {
        return Err(TransportError::ConnectionClosed);
    }
    let end: usize = 4 + len as usize;
    let body = slice_subrange(bytes, 4, end);
    let mut payload: Vec<u8> = Vec::new();
    let mut i: usize = 0;
    while i < body.len()
        invariant
            i <= body.len(),
            payload@ == body@.take(i as int),
        decreases body.len() - i,
    {
        payload.push(body[i]);
        proof {
            assert(body@.take(i + 1) =~= body@.take(i as int).push(body@[i as int]));
        }
        i = i + 1;
    }
    proof {
        assert(body@.take(i as int) =~= body@);
    }
    Ok((payload, end))
}

/// The length that a prefix declares is the length it was made from.
pub proof fn lemma_prefix_round_trip(len: int)
    requires
        0 <= len <= MAX_PAYLOAD,
    ensures
        prefix_of(len).len() == 4,
        declared_len(prefix_of(len)) == len,
{
}

/// A frame, whatever follows it, holds its payload: taking the frame from
/// the bytes gives the payload back and leaves what follows.
pub proof fn lemma_frame_round_trip(payload: Seq<u8>, rest: Seq<u8>)
    requires
        payload.len() <= MAX_PAYLOAD,
    ensures
        holds_frame(frame_of(payload) + rest),
        payload_of(frame_of(payload) + rest) == payload,
        (frame_of(payload) + rest).skip(4 + declared_len(frame_of(payload) + rest)) == rest,
{
    let bytes = frame_of(payload) + rest;
    lemma_prefix_round_trip(payload.len() as int);
    assert(bytes[0] == prefix_of(payload.len() as int)[0]);
    assert(bytes[1] == prefix_of(payload.len() as int)[1]);
    assert(bytes[2] == prefix_of(payload.len() as int)[2]);
    assert(bytes[3] == prefix_of(payload.len() as int)[3]);
    assert(declared_len(bytes) == payload.len());
    assert(payload_of(bytes) =~= payload);
    assert(bytes.skip(4 + declared_len(bytes)) =~= rest);
}

/// A frame that was cut short holds no frame: with fewer bytes than the
/// prefix and the declared length ask for, the connection counts as
/// closed.
pub proof fn lemma_truncated_frame(payload: Seq<u8>, kept: int)
    requires
        payload.len() <= MAX_PAYLOAD,
        0 <= kept < frame_of(payload).len(),
    ensures
        !holds_frame(frame_of(payload).take(kept)),
{
    let frame = frame_of(payload);
    let cut = frame.take(kept);
    lemma_prefix_round_trip(payload.len() as int);
    if kept >= 4 {
        assert(cut[0] == prefix_of(payload.len() as int)[0]);
        assert(cut[1] == prefix_of(payload.len() as int)[1]);
        assert(cut[2] == prefix_of(payload.len() as int)[2]);
        assert(cut[3] == prefix_of(payload.len() as int)[3]);
        assert(declared_len(cut) == payload.len());
    }
}

/// The payloads of the whole frames that `bytes` begin with, in order.
pub open spec fn frames(bytes: Seq<u8>) -> Seq<Seq<u8>>
    decreases bytes.len(),
{
    if holds_frame(bytes) {
        seq![payload_of(bytes)] + frames(bytes.skip(4 + declared_len(bytes)))
    } else {
        Seq::empty()
    }
}

/// The bytes of a stream that carries `payloads`, one frame after the
/// other.
pub open spec fn stream_of(payloads: Seq<Seq<u8>>) -> Seq<u8>
    decreases payloads.len(),
{
    if payloads.len() == 0 {
        Seq::empty()
    } else {
        frame_of(payloads[0]) + stream_of(payloads.skip(1))
    }
}

/// A stream of frames holds the payloads it was made of, in order.
pub proof fn lemma_frames_of_stream(payloads: Seq<Seq<u8>>)
    requires
        forall|i: int| 0 <= i < payloads.len() ==> (#[trigger] payloads[i]).len() <= MAX_PAYLOAD,
    ensures
        frames(stream_of(payloads)) == payloads,
    decreases payloads.len(),
{
    if payloads.len() == 0 {
        assert(frames(stream_of(payloads)) =~= payloads);
    } else {
        let rest = payloads.skip(1);
        assert forall|i: int| 0 <= i < rest.len() implies (#[trigger] rest[i]).len()
            <= MAX_PAYLOAD by {
            assert(rest[i] == payloads[i + 1]);
        }
        lemma_frames_of_stream(rest);
        lemma_frame_round_trip(payloads[0], stream_of(rest));
        assert(seq![payloads[0]] + rest =~= payloads);
    }
}

/// The receiving end of a stream of frames: it is fed the bytes as they
/// come, in pieces of any size, and gives out the payloads as they
/// complete.
#[derive(Debug)]
pub struct FrameReader {
    buffer: Vec<u8>,
}

impl View for FrameReader {
    type V = Seq<u8>;

    /// The bytes that have come and belong to no payload given out yet.
    closed spec fn view(&self) -> Seq<u8> {
        self.buffer@
    }
}

impl FrameReader {
    /// A reader to which nothing has come yet.
    pub fn new() -> (r: FrameReader)
        ensures
            r@ == Seq::<u8>::empty(),
    {
        FrameReader { buffer: Vec::new() }
    }

    /// Takes the bytes that have come.
    pub fn push(&mut self, bytes: &[u8])
        ensures
            final(self)@ == old(self)@ + bytes@,
    {
        self.buffer.extend_from_slice(bytes);
        proof {
            assert(self.buffer@ =~= old(self)@ + bytes@);
        }
    }

    /// Gives out the payload of the first frame if it has come whole, and
    /// keeps what follows it. Until then it gives `None` and keeps all.
    pub fn next_frame(&mut self) -> (r: Option<Vec<u8>>)
        ensures
            r is Some <==> holds_frame(old(self)@),
            r matches Some(payload) ==> payload@ == payload_of(old(self)@) && final(self)@ == old(
                self,
            )@.skip(4 + declared_len(old(self)@)),
            r is None ==> final(self)@ == old(self)@,
    {
        let len = match decode_len(self.buffer.as_slice()) {
            Ok(len) => len,
            Err(_) => {
                return None;
            },
        };
        if ((self.buffer.len() - 4) as u64) < len as u64 {
            return None;
        }
        let end: usize = 4 + len as usize;
        let rest = self.buffer.split_off(end);
        let payload = self.buffer.split_off(4);
        self.buffer = rest;
        proof {
            assert(payload@ =~= payload_of(old(self)@));
            assert(self.buffer@ =~= old(self)@.skip(end as int));
        }
        Some(payload)
    }

    /// Whether bytes have come that belong to no payload given out yet.
    /// Where the stream ends with some, its last frame was cut short.
    pub fn has_pending(&self) -> (r: bool)
        ensures
            r == (self@.len() > 0),
    {
        self.buffer.len() > 0
    }
}

} // verus!
