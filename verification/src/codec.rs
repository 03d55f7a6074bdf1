//! Little-endian primitives for the exported trace blob.
//!
//! Every multi-byte integer is eight bytes little-endian; a timestamp is
//! its two's-complement image; a string is its UTF-8 bytes behind their
//! length; a byte blob is its bytes behind their length.

use vstd::bytes::{spec_u64_to_le_bytes, u64_to_le_bytes};
use vstd::prelude::*;
use vstd::slice::slice_to_vec;
use vstd::utf8::encode_utf8;

verus! {

/// Eight bytes, little-endian.
pub open spec fn enc_u64(x: u64) -> Seq<u8> {
    spec_u64_to_le_bytes(x)
}

/// The two's-complement image of a signed timestamp.
pub open spec fn ts_code(t: i64) -> u64 {
    if t >= 0 {
        t as u64
    } else {
        (t + 0x10000000000000000) as u64
    }
}

/// A timestamp on the wire.
pub open spec fn enc_ts(t: i64) -> Seq<u8> {
    enc_u64(ts_code(t))
}

/// A string on the wire: its UTF-8 length, then its UTF-8 bytes.
pub open spec fn enc_str(s: Seq<char>) -> Seq<u8> {
    enc_u64(encode_utf8(s).len() as u64) + encode_utf8(s)
}

/// A byte blob on the wire: its length, then its bytes.
pub open spec fn enc_bytes(b: Seq<u8>) -> Seq<u8> {
    enc_u64(b.len() as u64) + b
}

/// A flag on the wire.
pub open spec fn enc_bool(b: bool) -> Seq<u8> {
    seq![
        if b {
            1u8
        } else {
            0u8
        },
    ]
}

pub fn push_u64(out: &mut Vec<u8>, x: u64)
    ensures
        final(out)@ == old(out)@ + enc_u64(x),
{
    let mut b = u64_to_le_bytes(x);
    out.append(&mut b);
}

pub fn push_ts(out: &mut Vec<u8>, t: i64)
    ensures
        final(out)@ == old(out)@ + enc_ts(t),
{
    let code: u64 = if t >= 0 {
        t as u64
    } else {
        let wide: i128 = (t as i128) + 0x10000000000000000i128;
        wide as u64
    };
    push_u64(out, code);
}

pub fn push_bool(out: &mut Vec<u8>, b: bool)
    ensures
        final(out)@ == old(out)@ + enc_bool(b),
{
    let ghost pre = out@;
    if b {
        out.push(1u8);
    } else {
        out.push(0u8);
    }
    proof {
        assert(out@ =~= pre + enc_bool(b));
    }
}

pub fn push_str(out: &mut Vec<u8>, s: &String)
    ensures
        final(out)@ == old(out)@ + enc_str(s@),
{
    let ghost pre = out@;
    let bytes = s.as_str().as_bytes();
    push_u64(out, bytes.len() as u64);
    let mut v = slice_to_vec(bytes);
    out.append(&mut v);
    proof {
        assert(out@ =~= pre + enc_str(s@));
    }
}

pub fn push_bytes(out: &mut Vec<u8>, b: &Vec<u8>)
    ensures
        final(out)@ == old(out)@ + enc_bytes(b@),
{
    let ghost pre = out@;
    push_u64(out, b.len() as u64);
    let mut v = slice_to_vec(b.as_slice());
    out.append(&mut v);
    proof {
        assert(out@ =~= pre + enc_bytes(b@));
    }
}

} // verus!
