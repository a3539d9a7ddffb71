//! Length framing for the coordination stream.
//!
//! TCP provides no message boundaries, so every message travels as a
//! four-byte big-endian length followed by that many payload bytes. The
//! transport reads bytes; this module decides where one message ends.

use vstd::prelude::*;

verus! {

/// The four big-endian bytes of `n`.
pub open spec fn be_bytes(n: u32) -> Seq<u8> {
    seq![(n >> 24) as u8, (n >> 16) as u8, (n >> 8) as u8, n as u8]
}

/// The length encoded by four big-endian bytes.
pub open spec fn be_value(b0: u8, b1: u8, b2: u8, b3: u8) -> u32 {
    ((b0 as u32) << 24) | ((b1 as u32) << 16) | ((b2 as u32) << 8) | (b3 as u32)
}

/// Encoding a length and decoding it give the length back.
pub proof fn lemma_be_round_trip(n: u32)
    ensures
        be_value(be_bytes(n)[0], be_bytes(n)[1], be_bytes(n)[2], be_bytes(n)[3]) == n,
{
    assert(((((n >> 24) as u8) as u32) << 24) | ((((n >> 16) as u8) as u32) << 16) | ((((n >> 8) as u8) as u32)
        << 8) | ((n as u8) as u32) == n) by (bit_vector);
}

/// Frames one payload: its length as four big-endian bytes, then the
/// payload itself.
pub fn frame_message(payload: &[u8]) -> (r: Vec<u8>)
    requires
        payload@.len() <= u32::MAX,
    ensures
        r@ == be_bytes(payload@.len() as u32) + payload@,
{
    let len: u32 = payload.len() as u32;
    let mut out: Vec<u8> = Vec::new();
    out.push(#[verifier::truncate] ((len >> 24) as u8));
    out.push(#[verifier::truncate] ((len >> 16) as u8));
    out.push(#[verifier::truncate] ((len >> 8) as u8));
    out.push(#[verifier::truncate] (len as u8));
    proof {
        assert(out@ =~= be_bytes(len));
    }
    let n = payload.len();
    let mut i: usize = 0;
    while i < n
        invariant
            i <= n,
            n == payload@.len(),
            n <= u32::MAX,
            out@ == be_bytes(n as u32) + payload@.subrange(0, i as int),
        decreases n - i,
    {
        out.push(payload[i]);
        proof {
            assert(out@ =~= be_bytes(n as u32) + payload@.subrange(0, i as int + 1));
        }
        i = i + 1;
    }
    proof {
        assert(payload@.subrange(0, n as int) =~= payload@);
    }
    out
}

/// The length declared by the header at the front of `buf`.
pub open spec fn declared_len(buf: Seq<u8>) -> int {
    be_value(buf[0], buf[1], buf[2], buf[3]) as int
}

/// Tries to split one complete frame off the front of `buf`: `Some` exactly
/// when the header and its declared payload have arrived, carrying the
/// payload and how many bytes the frame consumed.
pub fn take_frame(buf: &[u8]) -> (r: Option<(Vec<u8>, usize)>)
    ensures
        r is Some <==> buf@.len() >= 4 && buf@.len() >= 4 + declared_len(buf@),
        r matches Some(pr) ==> pr.1 == 4 + declared_len(buf@) && pr.0@ == buf@.subrange(
            4,
            4 + declared_len(buf@),
        ),
{
    if buf.len() < 4 {
        return None;
    }
    let len = be_value_exec(buf[0], buf[1], buf[2], buf[3]) as usize;
    if buf.len() - 4 < len {
        return None;
    }
    let consumed = 4 + len;
    let mut payload: Vec<u8> = Vec::new();
    let mut i: usize = 4;
    while i < consumed
        invariant
            4 <= i <= consumed,
            consumed == 4 + len,
            consumed <= buf@.len(),
            len == declared_len(buf@),
            payload@ == buf@.subrange(4, i as int),
        decreases consumed - i,
    {
        payload.push(buf[i]);
        proof {
            assert(payload@ =~= buf@.subrange(4, i as int + 1));
        }
        i = i + 1;
    }
    Some((payload, consumed))
}

/// The length decoder as executable code.
fn be_value_exec(b0: u8, b1: u8, b2: u8, b3: u8) -> (r: u32)
    ensures
        r == be_value(b0, b1, b2, b3),
{
    ((b0 as u32) << 24) | ((b1 as u32) << 16) | ((b2 as u32) << 8) | (b3 as u32)
}

/// Framing round trip: a frame followed by any further bytes is recognized
/// as complete, splits off exactly the framed payload, and consumes exactly
/// the frame.
pub proof fn lemma_frame_round_trip(payload: Seq<u8>, rest: Seq<u8>)
    requires
        payload.len() <= u32::MAX,
    ensures
        ({
            let framed = be_bytes(payload.len() as u32) + payload + rest;
            &&& framed.len() >= 4 + declared_len(framed)
            &&& declared_len(framed) == payload.len()
            &&& framed.subrange(4, 4 + declared_len(framed)) == payload
        }),
{
    let n = payload.len() as u32;
    let framed = be_bytes(n) + payload + rest;
    lemma_be_round_trip(n);
    assert(framed[0] == be_bytes(n)[0]);
    assert(framed[1] == be_bytes(n)[1]);
    assert(framed[2] == be_bytes(n)[2]);
    assert(framed[3] == be_bytes(n)[3]);
    assert(framed.subrange(4, 4 + payload.len() as int) =~= payload);
}

} // verus!
