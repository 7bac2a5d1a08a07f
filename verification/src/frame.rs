//! Wire framing: every frame is a four-byte big-endian body length followed
//! by the body. The same convention serves the handshake, client messages and
//! deliveries; only the body limit differs.

use crate::error::FrameError;
use vstd::prelude::*;
use vstd::slice::{slice_subrange, slice_to_vec};

verus! {

/// Length of the length prefix, in bytes.
pub const HEADER_LEN: usize = 4;

/// Longest body of a message or delivery frame.
pub const MAX_FRAME_LEN: usize = 65536;

/// Longest body of the handshake frame.
pub const MAX_HANDSHAKE_LEN: usize = 1024;

/// The four big-endian bytes of `n`.
pub open spec fn be32(n: nat) -> Seq<u8>
    recommends
        n <= u32::MAX,
{
    seq![
        ((n / 0x100_0000) % 0x100) as u8,
        ((n / 0x1_0000) % 0x100) as u8,
        ((n / 0x100) % 0x100) as u8,
        (n % 0x100) as u8,
    ]
}

/// The number that the first four bytes of `header` spell, big-endian.
pub open spec fn be32_value(header: Seq<u8>) -> nat
    recommends
        header.len() >= HEADER_LEN,
{
    (header[0] as nat) * 0x100_0000 + (header[1] as nat) * 0x1_0000 + (header[2] as nat) * 0x100
        + (header[3] as nat)
}

/// The frame that carries `body`.
pub open spec fn frame_of(body: Seq<u8>) -> Seq<u8> {
    be32(body.len()) + body
}

/// What a buffer holds at its front.
#[derive(Debug, PartialEq, Eq)]
pub enum Decoded {
    /// Not enough bytes yet for the header, or for the body it announces.
    Incomplete,
    /// The header announces a body longer than the limit.
    TooLarge,
    /// One whole frame: its body, and how many bytes of the buffer it took.
    Frame { body: Vec<u8>, used: usize },
}

/// What [`decode_frame`] returns on a buffer `buf` under a body limit `limit`.
pub open spec fn frame_at_front(buf: Seq<u8>, limit: nat, r: Decoded) -> bool {
    match r {
        Decoded::Incomplete => buf.len() < HEADER_LEN || (be32_value(buf) <= limit && buf.len()
            < HEADER_LEN + be32_value(buf)),
        Decoded::TooLarge => buf.len() >= HEADER_LEN && be32_value(buf) > limit,
        Decoded::Frame { body, used } => {
            &&& buf.len() >= HEADER_LEN
            &&& be32_value(buf) <= limit
            &&& used == HEADER_LEN + be32_value(buf)
            &&& used <= buf.len()
            &&& body@ == buf.subrange(HEADER_LEN as int, used as int)
        },
    }
}

/// Reading back the bytes of a number gives the number.
pub proof fn lemma_be32_round_trip(n: nat)
    requires
        n <= u32::MAX,
    ensures
        be32(n).len() == HEADER_LEN,
        be32_value(be32(n)) == n,
{
}

/// Decoding undoes encoding: a buffer that starts with the frame of `body`
/// yields exactly `body`, and the frame's own length as the bytes used,
/// whatever follows the frame in the buffer.
pub proof fn lemma_decode_of_encode(body: Seq<u8>, rest: Seq<u8>, limit: nat, r: Decoded)
    requires
        body.len() <= limit,
        body.len() <= u32::MAX,
        frame_at_front(frame_of(body) + rest, limit, r),
    ensures
        r matches Decoded::Frame { body: decoded, used } && decoded@ == body && used == HEADER_LEN
            + body.len(),
{
    lemma_be32_round_trip(body.len());
    let buf = frame_of(body) + rest;
    assert(buf[0] == be32(body.len())[0]);
    assert(buf[1] == be32(body.len())[1]);
    assert(buf[2] == be32(body.len())[2]);
    assert(buf[3] == be32(body.len())[3]);
    assert(be32_value(buf) == body.len());
    assert(buf.subrange(HEADER_LEN as int, HEADER_LEN + body.len()) =~= body);
}

/// A buffer that ends before the frame of `body` does is incomplete.
pub proof fn lemma_decode_of_prefix(body: Seq<u8>, cut: int, limit: nat, r: Decoded)
    requires
        body.len() <= limit,
        body.len() <= u32::MAX,
        0 <= cut < frame_of(body).len(),
        frame_at_front(frame_of(body).take(cut), limit, r),
    ensures
        r is Incomplete,
{
    lemma_be32_round_trip(body.len());
    let buf = frame_of(body).take(cut);
    if cut >= HEADER_LEN {
        assert(buf[0] == be32(body.len())[0]);
        assert(buf[1] == be32(body.len())[1]);
        assert(buf[2] == be32(body.len())[2]);
        assert(buf[3] == be32(body.len())[3]);
        assert(be32_value(buf) == body.len());
    }
}

/// Puts `body` in a frame. Fails exactly when the body is longer than
/// [`MAX_FRAME_LEN`].
pub fn encode_frame(body: &[u8]) -> (r: Result<Vec<u8>, FrameError>)
    ensures
        r is Ok <==> body@.len() <= MAX_FRAME_LEN,
        r matches Ok(wire) ==> wire@ == frame_of(body@),
        r matches Err(e) ==> e == FrameError::TooLarge,
{
    if body.len() > MAX_FRAME_LEN {
        return Err(FrameError::TooLarge);
    }
    let n: usize = body.len();
    let mut wire: Vec<u8> = Vec::new();
    wire.push(((n / 0x100_0000) % 0x100) as u8);
    wire.push(((n / 0x1_0000) % 0x100) as u8);
    wire.push(((n / 0x100) % 0x100) as u8);
    wire.push((n % 0x100) as u8);
    assert(wire@ =~= be32(n as nat));
    let mut i: usize = 0;
    while i < n
        invariant
            n == body@.len(),
            i <= n,
            wire@ == be32(n as nat) + body@.subrange(0, i as int),
        decreases n - i,
    {
        wire.push(body[i]);
        i += 1;
        assert(wire@ =~= be32(n as nat) + body@.subrange(0, i as int));
    }
    assert(body@.subrange(0, n as int) =~= body@);
    Ok(wire)
}

/// Reads the body length out of a frame header and holds it against `limit`.
pub fn decode_header(header: &[u8; 4], limit: usize) -> (r: Result<usize, FrameError>)
    ensures
        r is Ok <==> be32_value(header@) <= limit,
        r matches Ok(n) ==> n == be32_value(header@),
        r matches Err(e) ==> e == FrameError::TooLarge,
{
    let n: u64 = (header[0] as u64) * 0x100_0000 + (header[1] as u64) * 0x1_0000 + (
    header[2] as u64) * 0x100 + (header[3] as u64);
    if n > limit as u64 {
        Err(FrameError::TooLarge)
    } else {
        Ok(n as usize)
    }
}

/// Takes one frame off the front of `buf`, if a whole one is there.
pub fn decode_frame(buf: &[u8], limit: usize) -> (r: Decoded)
    ensures
        frame_at_front(buf@, limit as nat, r),
{
    if buf.len() < HEADER_LEN {
        return Decoded::Incomplete;
    }
    let header: [u8; 4] = [buf[0], buf[1], buf[2], buf[3]];
    match decode_header(&header, limit) {
        Err(_) => Decoded::TooLarge,
        Ok(n) => {
            if buf.len() - HEADER_LEN < n {
                Decoded::Incomplete
            } else {
                let used: usize = HEADER_LEN + n;
                let body = slice_to_vec(slice_subrange(buf, HEADER_LEN, used));
                Decoded::Frame { body, used }
            }
        },
    }
}

} // verus!
