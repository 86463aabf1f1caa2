//! Canonical CBOR (RFC 8949) as CTAP2 uses it: minimal-length heads, definite
//! lengths only, no tags and no floats.

pub mod decoder;
pub mod laws;

pub use self::decoder::{decode_map_int_keys, Decoder};


use vstd::prelude::*;
use vstd::string::StringSliceAdditionalSpecFns;

verus! {

/// Byte `shift / 8` of `v`, counting from the least significant one.
pub open spec fn byte_of(v: u64, shift: u64) -> u8 {
    ((v >> shift) & 0xffu64) as u8
}

/// `v` as 2 big-endian bytes.
pub open spec fn be2(v: u64) -> Seq<u8> {
    seq![byte_of(v, 8), byte_of(v, 0)]
}

/// `v` as 4 big-endian bytes.
pub open spec fn be4(v: u64) -> Seq<u8> {
    seq![byte_of(v, 24), byte_of(v, 16), byte_of(v, 8), byte_of(v, 0)]
}

/// `v` as 8 big-endian bytes.
pub open spec fn be8(v: u64) -> Seq<u8> {
    seq![
        byte_of(v, 56), byte_of(v, 48), byte_of(v, 40), byte_of(v, 32),
        byte_of(v, 24), byte_of(v, 16), byte_of(v, 8), byte_of(v, 0),
    ]
}

/// The canonical (shortest) head of a data item of major type `major` whose
/// argument is `value`.
pub open spec fn spec_head(major: u8, value: u64) -> Seq<u8>
    recommends
        major < 8,
{
    let m = (major * 32) as int;
    if value < 24 {
        seq![(m + value) as u8]
    } else if value < 256 {
        seq![(m + 24) as u8, value as u8]
    } else if value < 65536 {
        seq![(m + 25) as u8] + be2(value)
    } else if value < 4294967296 {
        seq![(m + 26) as u8] + be4(value)
    } else {
        seq![(m + 27) as u8] + be8(value)
    }
}

/// The encoding of an integer: major type 0 for `n >= 0`, major type 1 with
/// argument `-1 - n` otherwise.
pub open spec fn spec_int(n: i64) -> Seq<u8> {
    if n >= 0 {
        spec_head(0, n as u64)
    } else {
        spec_head(1, (-1 - n) as u64)
    }
}

/// The encoding of a byte string.
pub open spec fn spec_bytes(b: Seq<u8>) -> Seq<u8> {
    spec_head(2, b.len() as u64) + b
}

/// The encoding of a text string, given its UTF-8 bytes.
pub open spec fn spec_text(utf8: Seq<u8>) -> Seq<u8> {
    spec_head(3, utf8.len() as u64) + utf8
}

/// The encoding of `false` and `true`.
pub open spec fn spec_bool(v: bool) -> Seq<u8> {
    if v { seq![0xf5u8] } else { seq![0xf4u8] }
}

fn push_slice(buf: &mut Vec<u8>, bytes: &[u8])
    ensures
        final(buf)@ == old(buf)@ + bytes@,
{
    let mut i: usize = 0;
    while i < bytes.len()
        invariant
            i <= bytes.len(),
            buf@ == old(buf)@ + bytes@.take(i as int),
        decreases bytes.len() - i,
    {
        buf.push(bytes[i]);
        i = i + 1;
        assert(buf@ =~= old(buf)@ + bytes@.take(i as int));
    }
    assert(bytes@.take(bytes.len() as int) =~= bytes@);
}

fn encode_head(buf: &mut Vec<u8>, major: u8, value: u64)
    requires
        major < 8,
    ensures
        final(buf)@ == old(buf)@ + spec_head(major, value),
{
    let m: u8 = major * 32;
    if value < 24 {
        buf.push(m + value as u8);
        assert(buf@ =~= old(buf)@ + spec_head(major, value));
    } else if value < 256 {
        buf.push(m + 24);
        buf.push(value as u8);
        assert(buf@ =~= old(buf)@ + spec_head(major, value));
    } else if value < 65536 {
        buf.push(m + 25);
        buf.push(((value >> 8) & 0xff) as u8);
        buf.push((value & 0xff) as u8);
        assert(value == value >> 0u64) by (bit_vector);
        assert(buf@ =~= old(buf)@ + spec_head(major, value));
    } else if value < 4294967296 {
        buf.push(m + 26);
        buf.push(((value >> 24) & 0xff) as u8);
        buf.push(((value >> 16) & 0xff) as u8);
        buf.push(((value >> 8) & 0xff) as u8);
        buf.push((value & 0xff) as u8);
        assert(value == value >> 0u64) by (bit_vector);
        assert(buf@ =~= old(buf)@ + spec_head(major, value));
    } else {
        buf.push(m + 27);
        buf.push(((value >> 56) & 0xff) as u8);
        buf.push(((value >> 48) & 0xff) as u8);
        buf.push(((value >> 40) & 0xff) as u8);
        buf.push(((value >> 32) & 0xff) as u8);
        buf.push(((value >> 24) & 0xff) as u8);
        buf.push(((value >> 16) & 0xff) as u8);
        buf.push(((value >> 8) & 0xff) as u8);
        buf.push((value & 0xff) as u8);
        assert(value == value >> 0u64) by (bit_vector);
        assert(buf@ =~= old(buf)@ + spec_head(major, value));
    }
}

pub fn encode_unsigned(buf: &mut Vec<u8>, n: u64)
    ensures
        final(buf)@ == old(buf)@ + spec_head(0, n),
{
    encode_head(buf, 0, n);
}

/// Encodes a negative integer `n` as major type 1 with argument `-1 - n`.
pub fn encode_negative(buf: &mut Vec<u8>, n: i64)
    requires
        n < 0,
    ensures
        final(buf)@ == old(buf)@ + spec_head(1, (-1 - n) as u64),
{
    let v = (-1 - n) as u64;
    encode_head(buf, 1, v);
}

pub fn encode_int(buf: &mut Vec<u8>, n: i64)
    ensures
        final(buf)@ == old(buf)@ + spec_int(n),
{
    if n >= 0 {
        encode_unsigned(buf, n as u64);
    } else {
        encode_negative(buf, n);
    }
}

pub fn encode_bytes(buf: &mut Vec<u8>, bytes: &[u8])
    ensures
        final(buf)@ == old(buf)@ + spec_bytes(bytes@),
{
    encode_head(buf, 2, bytes.len() as u64);
    push_slice(buf, bytes);
    assert(buf@ =~= old(buf)@ + spec_bytes(bytes@));
}

pub fn encode_text(buf: &mut Vec<u8>, s: &str)
    ensures
        final(buf)@ == old(buf)@ + spec_text(s.spec_bytes()),
{
    let bytes = s.as_bytes();
    encode_head(buf, 3, bytes.len() as u64);
    push_slice(buf, bytes);
    assert(buf@ =~= old(buf)@ + spec_text(s.spec_bytes()));
}

pub fn encode_array_header(buf: &mut Vec<u8>, len: u64)
    ensures
        final(buf)@ == old(buf)@ + spec_head(4, len),
{
    encode_head(buf, 4, len);
}

pub fn encode_map_header(buf: &mut Vec<u8>, len: u64)
    ensures
        final(buf)@ == old(buf)@ + spec_head(5, len),
{
    encode_head(buf, 5, len);
}

pub fn encode_bool(buf: &mut Vec<u8>, v: bool)
    ensures
        final(buf)@ == old(buf)@ + spec_bool(v),
{
    buf.push(if v { 0xf5 } else { 0xf4 });
    assert(buf@ =~= old(buf)@ + spec_bool(v));
}

pub fn encode_null(buf: &mut Vec<u8>)
    ensures
        final(buf)@ == old(buf)@ + seq![0xf6u8],
{
    buf.push(0xf6);
    assert(buf@ =~= old(buf)@ + seq![0xf6u8]);
}

} // verus!
