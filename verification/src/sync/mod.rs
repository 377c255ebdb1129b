//! Exchanging replicas with a peer: the connection and the byte frames that
//! carry a serialized replica (a big-endian `u32` length, then the payload).

use vstd::prelude::*;

verus! {

/// A connection to a peer over a byte stream.
pub struct PeerConnection<S> {
    stream: S,
}

impl<S> PeerConnection<S> {
    /// The stream that the connection uses.
    pub closed spec fn spec_stream(&self) -> S {
        self.stream
    }

    /// A connection over `stream`.
    pub fn new(stream: S) -> (r: Self)
        ensures
            r.spec_stream() == stream,
    {
        Self { stream }
    }

    /// The stream, for reading and writing.
    pub fn stream_mut(&mut self) -> (r: &mut S)
        ensures
            *r == old(self).spec_stream(),
            final(self).spec_stream() == *final(r),
    {
        &mut self.stream
    }
}

/// Why a payload cannot be framed.
#[derive(Debug, Clone, Copy, PartialEq, Eq, Structural)]
pub enum FrameError {
    /// The payload is longer than a `u32` can count.
    PayloadTooLarge,
}

/// The number of bytes of a frame header.
pub const FRAME_HEADER_LEN: usize = 4;

/// The big-endian bytes of `n`.
pub open spec fn be_bytes(n: u32) -> Seq<u8> {
    seq![
        (n / 0x100_0000) as u8,
        ((n / 0x1_0000) % 0x100) as u8,
        ((n / 0x100) % 0x100) as u8,
        (n % 0x100) as u8,
    ]
}

/// The number that four big-endian bytes spell.
pub open spec fn be_value(b: Seq<u8>) -> int {
    b[0] * 0x100_0000 + b[1] * 0x1_0000 + b[2] * 0x100 + b[3]
}

/// The frame that carries `payload`: its length, then the payload.
pub open spec fn frame_of(payload: Seq<u8>) -> Seq<u8> {
    be_bytes(payload.len() as u32) + payload
}

/// Frames `payload`: its length as four big-endian bytes, then the payload
/// itself. A payload longer than `u32::MAX` bytes cannot be framed.
pub fn encode_frame(payload: &[u8]) -> (r: Result<Vec<u8>, FrameError>)
    ensures
        r is Err <==> payload@.len() > u32::MAX,
        r matches Ok(frame) ==> frame@ == frame_of(payload@),
{
    if payload.len() > 0xFFFF_FFFF {
        return Err(FrameError::PayloadTooLarge);
    }
    let n = payload.len() as u32;
    let mut frame: Vec<u8> = Vec::new();
    frame.push((n >> 24) as u8);
    frame.push(((n >> 16) & 0xFF) as u8);
    frame.push(((n >> 8) & 0xFF) as u8);
    frame.push((n & 0xFF) as u8);
    assert((n >> 24) as u8 == (n / 0x100_0000) as u8) by (bit_vector);
    assert(((n >> 16) & 0xFF) as u8 == ((n / 0x1_0000) % 0x100) as u8) by (bit_vector);
    assert(((n >> 8) & 0xFF) as u8 == ((n / 0x100) % 0x100) as u8) by (bit_vector);
    assert((n & 0xFF) as u8 == (n % 0x100) as u8) by (bit_vector);
    assert(frame@ =~= be_bytes(n));
    for i in 0..payload.len()
        invariant
            frame@ == be_bytes(n) + payload@.take(i as int),
    {
        frame.push(payload[i]);
        assert(payload@.take(i + 1) =~= payload@.take(i as int).push(payload@[i as int]));
        assert(frame@ =~= be_bytes(n) + payload@.take(i + 1));
    }
    assert(payload@.take(payload@.len() as int) =~= payload@);
    Ok(frame)
}

/// The payload length that a frame header announces.
pub fn frame_length(header: [u8; 4]) -> (r: u32)
    ensures
        r == be_value(header@),
{
    let b0 = header[0] as u32;
    let b1 = header[1] as u32;
    let b2 = header[2] as u32;
    let b3 = header[3] as u32;
    assert(b0 * 0x100_0000 + b1 * 0x1_0000 + b2 * 0x100 + b3 <= u32::MAX) by (nonlinear_arith)
        requires
            b0 < 256,
            b1 < 256,
            b2 < 256,
            b3 < 256,
    ;
    b0 * 0x100_0000 + b1 * 0x1_0000 + b2 * 0x100 + b3
}

/// The header of a frame announces the length of its payload, and the
/// payload follows it unchanged: reading a frame back gives what was framed.
pub proof fn lemma_frame_roundtrip(payload: Seq<u8>)
    requires
        payload.len() <= u32::MAX,
    ensures
        be_value(frame_of(payload).take(FRAME_HEADER_LEN as int)) == payload.len(),
        frame_of(payload).skip(FRAME_HEADER_LEN as int) == payload,
{
    let n = payload.len() as u32;
    lemma_header_value(n);
    assert(frame_of(payload).take(4) =~= be_bytes(n));
    assert(frame_of(payload).skip(4) =~= payload);
}

proof fn lemma_header_value(n: u32)
    ensures
        be_value(be_bytes(n)) == n,
{
    let b = be_bytes(n);
    assert(b[0] * 0x100_0000 + b[1] * 0x1_0000 + b[2] * 0x100 + b[3] == n) by (nonlinear_arith)
        requires
            b[0] == (n / 0x100_0000) as u8,
            b[1] == ((n / 0x1_0000) % 0x100) as u8,
            b[2] == ((n / 0x100) % 0x100) as u8,
            b[3] == (n % 0x100) as u8,
    ;
}

} // verus!
