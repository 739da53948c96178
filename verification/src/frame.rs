//! The transport envelope: a 4-byte big-endian length prefix followed by
//! exactly that many payload bytes. Sending writes the prefix and the
//! payload; receiving reads the prefix, then exactly that many bytes. The
//! byte-level layout and its round trip are verified here; moving the bytes
//! over a socket is the caller's concern.

use vstd::prelude::*;
use vstd::slice::{slice_subrange, slice_to_vec};

verus! {

/// The four big-endian bytes of a 32-bit length, most significant first.
pub open spec fn spec_u32_to_be_bytes(x: u32) -> Seq<u8> {
    seq![
        ((x >> 24) & 0xff) as u8,
        ((x >> 16) & 0xff) as u8,
        ((x >> 8) & 0xff) as u8,
        (x & 0xff) as u8,
    ]
}

/// The 32-bit length read from four big-endian bytes.
pub open spec fn spec_u32_from_be_bytes(s: Seq<u8>) -> u32
    recommends
        s.len() == 4,
{
    ((s[0] as u32) << 24) | ((s[1] as u32) << 16) | ((s[2] as u32) << 8) | (s[3] as u32)
}

/// A 32-bit value and its big-endian bytes determine each other.
pub proof fn lemma_u32_be_bytes_round_trip()
    ensures
        forall|x: u32|
            {
                &&& (#[trigger] spec_u32_to_be_bytes(x)).len() == 4
                &&& spec_u32_from_be_bytes(spec_u32_to_be_bytes(x)) == x
            },
        forall|s: Seq<u8>|
            s.len() == 4 ==> #[trigger] spec_u32_to_be_bytes(spec_u32_from_be_bytes(s)) == s,
{
    assert forall|x: u32|
        {
            &&& (#[trigger] spec_u32_to_be_bytes(x)).len() == 4
            &&& spec_u32_from_be_bytes(spec_u32_to_be_bytes(x)) == x
        } by {
        assert(((((x >> 24) & 0xff) as u8) as u32) << 24 | ((((x >> 16) & 0xff) as u8) as u32)
            << 16 | ((((x >> 8) & 0xff) as u8) as u32) << 8 | (((x & 0xff) as u8) as u32)
            == x) by (bit_vector);
    };
    assert forall|s: Seq<u8>| s.len() == 4 implies #[trigger] spec_u32_to_be_bytes(
        spec_u32_from_be_bytes(s),
    ) == s by {
        let x = spec_u32_from_be_bytes(s);
        let s0 = s[0];
        let s1 = s[1];
        let s2 = s[2];
        let s3 = s[3];
        assert((x == (s0 as u32) << 24 | (s1 as u32) << 16 | (s2 as u32) << 8 | (s3 as u32))
            ==> s0 == ((x >> 24) & 0xff) as u8 && s1 == ((x >> 16) & 0xff) as u8 && s2 == ((x
            >> 8) & 0xff) as u8 && s3 == (x & 0xff) as u8) by (bit_vector);
        assert(spec_u32_to_be_bytes(x) =~= s);
    };
}

/// Writes a 32-bit length as its four big-endian bytes.
pub fn u32_to_be_bytes(x: u32) -> (r: Vec<u8>)
    ensures
        r@ == spec_u32_to_be_bytes(x),
{
    proof {
        assert((x >> 24) & 0xff < 256 && (x >> 16) & 0xff < 256 && (x >> 8) & 0xff < 256 && x
            & 0xff < 256) by (bit_vector);
    }
    let mut r: Vec<u8> = Vec::new();
    r.push(((x >> 24) & 0xff) as u8);
    r.push(((x >> 16) & 0xff) as u8);
    r.push(((x >> 8) & 0xff) as u8);
    r.push((x & 0xff) as u8);
    proof {
        assert(r@ =~= spec_u32_to_be_bytes(x));
    }
    r
}

/// Reads a 32-bit length from a four-byte big-endian prefix.
pub fn u32_from_be_bytes(s: &[u8]) -> (x: u32)
    requires
        s@.len() == 4,
    ensures
        x == spec_u32_from_be_bytes(s@),
{
    let b0 = *slice_subrange(s, 0, 1).first().unwrap();
    let b1 = *slice_subrange(s, 1, 2).first().unwrap();
    let b2 = *slice_subrange(s, 2, 3).first().unwrap();
    let b3 = *slice_subrange(s, 3, 4).first().unwrap();
    proof {
        assert(s@.subrange(0, 1)[0] == s@[0]);
        assert(s@.subrange(1, 2)[0] == s@[1]);
        assert(s@.subrange(2, 3)[0] == s@[2]);
        assert(s@.subrange(3, 4)[0] == s@[3]);
    }
    ((b0 as u32) << 24) | ((b1 as u32) << 16) | ((b2 as u32) << 8) | (b3 as u32)
}

/// One frame: the payload's length as four big-endian bytes, then the payload.
pub open spec fn spec_frame(payload: Seq<u8>) -> Seq<u8>
    recommends
        payload.len() <= u32::MAX,
{
    spec_u32_to_be_bytes(payload.len() as u32) + payload
}

/// Splits one frame off the front of a buffer: the payload it carries and how
/// many bytes it occupied. `None` when the buffer does not yet hold the whole
/// frame.
pub open spec fn spec_take_frame(buf: Seq<u8>) -> Option<(Seq<u8>, int)> {
    if buf.len() < 4 {
        None
    } else {
        let n = spec_u32_from_be_bytes(buf.subrange(0, 4)) as int;
        if 4 + n <= buf.len() {
            Some((buf.subrange(4, 4 + n), 4 + n))
        } else {
            None
        }
    }
}

/// Wraps a payload in a frame. `None` exactly when the payload is too long
/// for the 32-bit length prefix.
pub fn encode_frame(payload: &[u8]) -> (r: Option<Vec<u8>>)
    ensures
        r is Some <==> payload@.len() <= u32::MAX,
        r matches Some(f) ==> f@ == spec_frame(payload@),
{
    let len = payload.len();
    if (len as u64) > (u32::MAX as u64) {
        return None;
    }
    let mut out = u32_to_be_bytes(len as u32);
    let mut body = slice_to_vec(payload);
    out.append(&mut body);
    proof {
        assert(out@ =~= spec_frame(payload@));
    }
    Some(out)
}

/// Takes one whole frame off the front of a buffer, returning its payload and
/// the number of bytes consumed; `None` when the buffer holds no whole frame.
pub fn take_frame(buf: &[u8]) -> (r: Option<(Vec<u8>, usize)>)
    ensures
        match r {
            Some(p) => spec_take_frame(buf@) == Some((p.0@, p.1 as int)),
            None => spec_take_frame(buf@) is None,
        },
{
    if buf.len() < 4 {
        return None;
    }
    let header = slice_subrange(buf, 0, 4);
    let n = u32_from_be_bytes(header);
    if (n as u64) + 4 > (buf.len() as u64) {
        return None;
    }
    let end = 4 + (n as usize);
    let payload = slice_to_vec(slice_subrange(buf, 4, end));
    Some((payload, end))
}

/// Receiving a sent frame hands back exactly the payload that was framed,
/// whatever else follows it in the stream.
pub proof fn lemma_frame_round_trip(payload: Seq<u8>, rest: Seq<u8>)
    requires
        payload.len() <= u32::MAX,
    ensures
        spec_take_frame(spec_frame(payload) + rest) == Some(
            (payload, 4 + payload.len() as int),
        ),
{
    lemma_u32_be_bytes_round_trip();
    let b = spec_frame(payload) + rest;
    assert(b.subrange(0, 4) =~= spec_u32_to_be_bytes(payload.len() as u32));
    assert(b.subrange(4, 4 + payload.len() as int) =~= payload);
}

} // verus!
