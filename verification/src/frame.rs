//! Wire framing: a 4-byte little-endian length prefix before each encoded
//! message, and the maximum frame size a peer may declare.

use vstd::prelude::*;

verus! {

/// The largest payload a peer may declare: 1 MiB.  A frame declaring more
/// is a protocol violation and the connection is dropped.
pub const MAX_FRAME_LEN: u32 = 1048576;

/// The four little-endian bytes of a frame length.
pub open spec fn spec_le_bytes(len: u32) -> Seq<u8> {
    seq![
        (len % 256) as u8,
        ((len / 256) % 256) as u8,
        ((len / 65536) % 256) as u8,
        ((len / 16777216) % 256) as u8,
    ]
}

/// The value of four little-endian bytes.
pub open spec fn spec_le_value(b: Seq<u8>) -> int {
    b[0] + 256 * b[1] + 65536 * b[2] + 16777216 * b[3]
}

/// A frame length survives the round trip through its four bytes.
pub proof fn lemma_frame_header_roundtrip(len: u32)
    ensures
        spec_le_value(spec_le_bytes(len)) == len,
{
    let x = len as int;
    vstd::arithmetic::div_mod::lemma_fundamental_div_mod(x, 256);
    vstd::arithmetic::div_mod::lemma_div_denominator(x, 256, 256);
    vstd::arithmetic::div_mod::lemma_fundamental_div_mod(x / 256, 256);
    vstd::arithmetic::div_mod::lemma_div_denominator(x, 65536, 256);
    vstd::arithmetic::div_mod::lemma_fundamental_div_mod(x / 65536, 256);
    assert(0 <= x / 16777216 < 256) by {
        vstd::arithmetic::div_mod::lemma_div_pos_is_pos(x, 16777216);
        vstd::arithmetic::div_mod::lemma_div_is_ordered_by_denominator(x, 1, 16777216);
    }
    vstd::arithmetic::div_mod::lemma_small_mod((x / 16777216) as nat, 256);
}

/// Encode a frame length as its 4-byte little-endian header.
pub fn encode_frame_header(len: u32) -> (r: Vec<u8>)
    ensures
        r@ == spec_le_bytes(len),
        r@.len() == 4,
{
    let mut v: Vec<u8> = Vec::new();
    v.push((len % 256) as u8);
    v.push(((len / 256) % 256) as u8);
    v.push(((len / 65536) % 256) as u8);
    v.push(((len / 16777216) % 256) as u8);
    proof {
        assert(v@ =~= spec_le_bytes(len));
    }
    v
}

/// Decode a 4-byte little-endian header into the declared frame length.
pub fn decode_frame_header(b: &Vec<u8>) -> (r: u32)
    requires
        b@.len() == 4,
    ensures
        r as int == spec_le_value(b@),
        spec_le_bytes(r) == b@,
{
    let r: u32 = b[0] as u32 + 256 * (b[1] as u32) + 65536 * (b[2] as u32) + 16777216 * (
    b[3] as u32);
    proof {
        lemma_le_bytes_of_value(b@);
    }
    r
}

/// Four bytes are the little-endian encoding of their own value.
proof fn lemma_le_bytes_of_value(b: Seq<u8>)
    requires
        b.len() == 4,
    ensures
        0 <= spec_le_value(b) < 4294967296,
        spec_le_bytes(spec_le_value(b) as u32) == b,
{
    let v = spec_le_value(b);
    let b0 = b[0] as int;
    let b1 = b[1] as int;
    let b2 = b[2] as int;
    let b3 = b[3] as int;
    assert(v % 256 == b0 && v / 256 == b1 + 256 * b2 + 65536 * b3) by {
        vstd::arithmetic::div_mod::lemma_fundamental_div_mod_converse(
            v,
            256,
            b1 + 256 * b2 + 65536 * b3,
            b0,
        );
    }
    assert((v / 256) % 256 == b1 && (v / 256) / 256 == b2 + 256 * b3) by {
        vstd::arithmetic::div_mod::lemma_fundamental_div_mod_converse(
            v / 256,
            256,
            b2 + 256 * b3,
            b1,
        );
    }
    assert(v / 65536 == b2 + 256 * b3) by {
        vstd::arithmetic::div_mod::lemma_div_denominator(v, 256, 256);
    }
    assert((v / 65536) % 256 == b2 && (v / 65536) / 256 == b3) by {
        vstd::arithmetic::div_mod::lemma_fundamental_div_mod_converse(v / 65536, 256, b3, b2);
    }
    assert(v / 16777216 == b3) by {
        vstd::arithmetic::div_mod::lemma_div_denominator(v, 65536, 256);
    }
    assert(b3 % 256 == b3) by {
        vstd::arithmetic::div_mod::lemma_small_mod(b[3] as nat, 256);
    }
    assert(spec_le_bytes(v as u32) =~= b);
}

/// Whether a declared frame length is within the accepted bound.
pub fn frame_len_allowed(len: u32) -> (r: bool)
    ensures
        r == (len <= MAX_FRAME_LEN),
{
    len <= MAX_FRAME_LEN
}

} // verus!
