//! The framed transport format.
//!
//! Every message after the version preamble travels as one frame:
//! an 8-byte little-endian token, a 4-byte little-endian payload length,
//! then the payload itself.  No partial frame is ever exposed to callers:
//! [`take_frame`] yields a frame only once the buffer holds all of it.

use vstd::prelude::*;
use vstd::bytes::*;
use vstd::slice::{slice_subrange, slice_to_vec};

verus! {

/// Bytes of the fixed frame header: token (8) plus length (4).
pub const HEADER_LEN: usize = 12;

/// The frame that carries `payload` for request `token`.
pub open spec fn frame_spec(token: u64, payload: Seq<u8>) -> Seq<u8> {
    spec_u64_to_le_bytes(token) + spec_u32_to_le_bytes(payload.len() as u32) + payload
}

/// Encodes one frame: `token (u64 LE) || length (u32 LE) || payload`.
pub fn encode_frame(token: u64, payload: &[u8]) -> (r: Vec<u8>)
    requires
        payload@.len() <= u32::MAX,
    ensures
        r@ == frame_spec(token, payload@),
{
    proof {
        lemma_auto_spec_u64_to_from_le_bytes();
        lemma_auto_spec_u32_to_from_le_bytes();
    }
    let mut r = u64_to_le_bytes(token);
    let mut len = u32_to_le_bytes(payload.len() as u32);
    r.append(&mut len);
    let mut body = slice_to_vec(payload);
    r.append(&mut body);
    r
}

/// Splits off one complete frame from the front of `buf`, if one is there:
/// the token, the payload, and how many bytes of `buf` the frame used.
pub fn take_frame(buf: &[u8]) -> (r: Option<(u64, Vec<u8>, usize)>)
    ensures
        match r {
            Some((token, payload, used)) => {
                &&& HEADER_LEN <= used <= buf@.len()
                &&& token == spec_u64_from_le_bytes(buf@.subrange(0, 8))
                &&& payload@ == buf@.subrange(HEADER_LEN as int, used as int)
                &&& used == HEADER_LEN + spec_u32_from_le_bytes(buf@.subrange(8, 12))
            },
            None => buf@.len() < HEADER_LEN || HEADER_LEN + spec_u32_from_le_bytes(
                buf@.subrange(8, 12),
            ) > buf@.len(),
        },
{
    if buf.len() < HEADER_LEN {
        return None;
    }
    let token = u64_from_le_bytes(slice_subrange(buf, 0, 8));
    let len = u32_from_le_bytes(slice_subrange(buf, 8, 12)) as usize;
    if len > buf.len() - HEADER_LEN {
        return None;
    }
    let used = HEADER_LEN + len;
    let payload = slice_to_vec(slice_subrange(buf, HEADER_LEN, used));
    Some((token, payload, used))
}

/// A frame followed by anything parses back to exactly the token and
/// payload it was built from, using exactly the frame's own bytes.
pub proof fn lemma_frame_round_trip(token: u64, payload: Seq<u8>, rest: Seq<u8>)
    requires
        payload.len() <= u32::MAX,
    ensures
        ({
            let buf = frame_spec(token, payload) + rest;
            &&& buf.len() >= HEADER_LEN
            &&& spec_u64_from_le_bytes(buf.subrange(0, 8)) == token
            &&& spec_u32_from_le_bytes(buf.subrange(8, 12)) == payload.len()
            &&& buf.subrange(HEADER_LEN as int, HEADER_LEN + payload.len()) == payload
        }),
{
    lemma_auto_spec_u64_to_from_le_bytes();
    lemma_auto_spec_u32_to_from_le_bytes();
    let buf = frame_spec(token, payload) + rest;
    assert(buf.subrange(0, 8) =~= spec_u64_to_le_bytes(token));
    assert(buf.subrange(8, 12) =~= spec_u32_to_le_bytes(payload.len() as u32));
    assert(buf.subrange(HEADER_LEN as int, HEADER_LEN + payload.len()) =~= payload);
}

} // verus!
