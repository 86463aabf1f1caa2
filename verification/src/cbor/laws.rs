//! What the decoder gives back of what the encoder wrote, and the
//! canonicity of every head that the decoder accepts.

use super::decoder::{
    parse_bool, parse_bytes, parse_head, parse_head_of, parse_int, parse_text,
    parse_unsigned, read_be8, skip_items,
};
use super::{be8, byte_of, spec_bool, spec_bytes, spec_head, spec_int, spec_text};
use crate::status::CtapStatusCode;
use vstd::prelude::*;
use vstd::utf8::valid_utf8;

verus! {

proof fn lemma_be2_roundtrip(v: u64)
    requires
        v < 65536,
    ensures
        ((byte_of(v, 8) as u64) << 8u64) | (byte_of(v, 0) as u64) == v,
{
    assert(v < 65536 ==> ((((v >> 8u64) & 0xffu64) as u8 as u64) << 8u64) | (((v >> 0u64)
        & 0xffu64) as u8 as u64) == v) by (bit_vector);
}

proof fn lemma_be4_roundtrip(v: u64)
    requires
        v < 4294967296,
    ensures
        ((byte_of(v, 24) as u64) << 24u64) | ((byte_of(v, 16) as u64) << 16u64) | ((byte_of(v, 8)
            as u64) << 8u64) | (byte_of(v, 0) as u64) == v,
{
    assert(v < 4294967296 ==> ((((v >> 24u64) & 0xffu64) as u8 as u64) << 24u64) | ((((v >> 16u64)
        & 0xffu64) as u8 as u64) << 16u64) | ((((v >> 8u64) & 0xffu64) as u8 as u64) << 8u64) | (((v
        >> 0u64) & 0xffu64) as u8 as u64) == v) by (bit_vector);
}

proof fn lemma_be8_roundtrip(v: u64)
    ensures
        ((byte_of(v, 56) as u64) << 56u64) | ((byte_of(v, 48) as u64) << 48u64) | ((byte_of(v, 40)
            as u64) << 40u64) | ((byte_of(v, 32) as u64) << 32u64) | ((byte_of(v, 24) as u64)
            << 24u64) | ((byte_of(v, 16) as u64) << 16u64) | ((byte_of(v, 8) as u64) << 8u64) | (
        byte_of(v, 0) as u64) == v,
{
    assert(((((v >> 56u64) & 0xffu64) as u8 as u64) << 56u64) | ((((v >> 48u64) & 0xffu64) as u8
        as u64) << 48u64) | ((((v >> 40u64) & 0xffu64) as u8 as u64) << 40u64) | ((((v >> 32u64)
        & 0xffu64) as u8 as u64) << 32u64) | ((((v >> 24u64) & 0xffu64) as u8 as u64) << 24u64) | ((((
    v >> 16u64) & 0xffu64) as u8 as u64) << 16u64) | ((((v >> 8u64) & 0xffu64) as u8 as u64)
        << 8u64) | (((v >> 0u64) & 0xffu64) as u8 as u64) == v) by (bit_vector);
}

proof fn lemma_read_be2_bytes(a: u8, b: u8)
    ensures
        ({
            let v = ((a as u64) << 8u64) | (b as u64);
            &&& v < 65536
            &&& byte_of(v, 8) == a
            &&& byte_of(v, 0) == b
        }),
{
    assert(((a as u64) << 8u64) | (b as u64) < 65536) by (bit_vector);
    assert((((((a as u64) << 8u64) | (b as u64)) >> 8u64) & 0xffu64) as u8 == a) by (bit_vector);
    assert((((((a as u64) << 8u64) | (b as u64)) >> 0u64) & 0xffu64) as u8 == b) by (bit_vector);
}

proof fn lemma_read_be4_bytes(a: u8, b: u8, c: u8, d: u8)
    ensures
        ({
            let v = ((a as u64) << 24u64) | ((b as u64) << 16u64) | ((c as u64) << 8u64) | (d as u64);
            &&& v < 4294967296
            &&& byte_of(v, 24) == a
            &&& byte_of(v, 16) == b
            &&& byte_of(v, 8) == c
            &&& byte_of(v, 0) == d
        }),
{
    let v = ((a as u64) << 24u64) | ((b as u64) << 16u64) | ((c as u64) << 8u64) | (d as u64);
    assert(v < 4294967296) by (bit_vector)
        requires v == ((a as u64) << 24u64) | ((b as u64) << 16u64) | ((c as u64) << 8u64) | (d as u64);
    assert(((v >> 24u64) & 0xffu64) as u8 == a && ((v >> 16u64) & 0xffu64) as u8 == b && ((v
        >> 8u64) & 0xffu64) as u8 == c && ((v >> 0u64) & 0xffu64) as u8 == d) by (bit_vector)
        requires v == ((a as u64) << 24u64) | ((b as u64) << 16u64) | ((c as u64) << 8u64) | (d as u64);
}

proof fn lemma_read_be8_bytes(s: Seq<u8>, p: int)
    requires
        0 <= p,
        p + 8 <= s.len(),
    ensures
        be8(read_be8(s, p)) == s.subrange(p, p + 8),
{
    let (a, b, c, d, e, f, g, h) = (s[p], s[p + 1], s[p + 2], s[p + 3], s[p + 4], s[p + 5], s[p
        + 6], s[p + 7]);
    let v = read_be8(s, p);
    assert(((v >> 56u64) & 0xffu64) as u8 == a && ((v >> 48u64) & 0xffu64) as u8 == b && ((v
        >> 40u64) & 0xffu64) as u8 == c && ((v >> 32u64) & 0xffu64) as u8 == d && ((v >> 24u64)
        & 0xffu64) as u8 == e && ((v >> 16u64) & 0xffu64) as u8 == f && ((v >> 8u64) & 0xffu64) as u8
        == g && ((v >> 0u64) & 0xffu64) as u8 == h) by (bit_vector)
        requires
            v == ((a as u64) << 56u64) | ((b as u64) << 48u64) | ((c as u64) << 40u64) | ((d as u64)
                << 32u64) | ((e as u64) << 24u64) | ((f as u64) << 16u64) | ((g as u64) << 8u64) | (h
                as u64),
    ;
    assert(be8(v) =~= s.subrange(p, p + 8));
}

/// A head written by the encoder is read back as the same major type and
/// argument, whatever follows it.
pub proof fn law_head_roundtrip(major: u8, value: u64, rest: Seq<u8>)
    requires
        major <= 5,
    ensures
        parse_head(spec_head(major, value) + rest, 0) == Ok::<(u8, u64, int), CtapStatusCode>(
            (major, value, spec_head(major, value).len() as int),
        ),
{
    let h = spec_head(major, value);
    let s = h + rest;
    if value < 24 {
    } else if value < 256 {
        assert(s[1] == value as u8);
    } else if value < 65536 {
        assert(s[1] == byte_of(value, 8) && s[2] == byte_of(value, 0));
        lemma_be2_roundtrip(value);
    } else if value < 4294967296 {
        assert(s[1] == byte_of(value, 24) && s[2] == byte_of(value, 16) && s[3] == byte_of(value, 8)
            && s[4] == byte_of(value, 0));
        lemma_be4_roundtrip(value);
    } else {
        assert(s[1] == byte_of(value, 56) && s[2] == byte_of(value, 48) && s[3] == byte_of(value, 40)
            && s[4] == byte_of(value, 32) && s[5] == byte_of(value, 24) && s[6] == byte_of(value, 16)
            && s[7] == byte_of(value, 8) && s[8] == byte_of(value, 0));
        lemma_be8_roundtrip(value);
    }
}

/// Every head that the decoder accepts is the canonical encoding of what it
/// decodes to: no two byte strings decode to the same head.
pub proof fn law_head_canonical(s: Seq<u8>, p: int)
    ensures
        parse_head(s, p) matches Ok((m, v, q)) ==> s.subrange(p, q) == spec_head(m, v),
{
    if let Ok((m, v, q)) = parse_head(s, p) {
        let b = s[p];
        let info = b % 32;
        assert(b == m * 32 + info);
        if info < 24 {
            assert(s.subrange(p, q) =~= spec_head(m, v));
        } else if info == 24 {
            assert(s.subrange(p, q) =~= spec_head(m, v));
        } else if info == 25 {
            lemma_read_be2_bytes(s[p + 1], s[p + 2]);
            assert(s.subrange(p, q) =~= spec_head(m, v));
        } else if info == 26 {
            lemma_read_be4_bytes(s[p + 1], s[p + 2], s[p + 3], s[p + 4]);
            assert(s.subrange(p, q) =~= spec_head(m, v));
        } else {
            lemma_read_be8_bytes(s, p + 1);
            assert(s.subrange(p, q) =~= seq![s[p]] + s.subrange(p + 1, p + 9));
            assert(s.subrange(p, q) =~= spec_head(m, v));
        }
    }
}

/// Every integer written by the encoder is read back unchanged.
pub proof fn law_int_roundtrip(n: i64, rest: Seq<u8>)
    ensures
        parse_int(spec_int(n) + rest, 0) == Ok::<(i64, int), CtapStatusCode>(
            (n, spec_int(n).len() as int),
        ),
{
    if n >= 0 {
        law_head_roundtrip(0, n as u64, rest);
    } else {
        law_head_roundtrip(1, (-1 - n) as u64, rest);
    }
}

/// Every byte string written by the encoder is read back unchanged.
pub proof fn law_bytes_roundtrip(b: Seq<u8>, rest: Seq<u8>)
    requires
        b.len() <= u64::MAX,
    ensures
        parse_bytes(spec_bytes(b) + rest, 0) == Ok::<(Seq<u8>, int), CtapStatusCode>(
            (b, spec_bytes(b).len() as int),
        ),
{
    let h = spec_head(2, b.len() as u64);
    law_head_roundtrip(2, b.len() as u64, b + rest);
    assert(spec_bytes(b) + rest =~= h + (b + rest));
    assert((h + (b + rest)).subrange(h.len() as int, (h.len() + b.len()) as int) =~= b);
}

/// Every text written by the encoder (valid UTF-8) is read back unchanged.
pub proof fn law_text_roundtrip(utf8: Seq<u8>, rest: Seq<u8>)
    requires
        utf8.len() <= u64::MAX,
        valid_utf8(utf8),
    ensures
        parse_text(spec_text(utf8) + rest, 0) == Ok::<(Seq<u8>, int), CtapStatusCode>(
            (utf8, spec_text(utf8).len() as int),
        ),
{
    let h = spec_head(3, utf8.len() as u64);
    law_head_roundtrip(3, utf8.len() as u64, utf8 + rest);
    assert(spec_text(utf8) + rest =~= h + (utf8 + rest));
    assert((h + (utf8 + rest)).subrange(h.len() as int, (h.len() + utf8.len()) as int) =~= utf8);
}

/// Booleans written by the encoder are read back unchanged.
pub proof fn law_bool_roundtrip(v: bool, rest: Seq<u8>)
    ensures
        parse_bool(spec_bool(v) + rest, 0) == Ok::<(bool, int), CtapStatusCode>((v, 1)),
{
}

/// Reading a head at `p` is reading it at the start of what follows `p`.
proof fn lemma_head_shift(s: Seq<u8>, p: int)
    requires
        0 <= p <= s.len(),
    ensures
        match parse_head(s.subrange(p, s.len() as int), 0) {
            Ok((m, v, q)) => parse_head(s, p) == Ok::<(u8, u64, int), CtapStatusCode>((m, v, q + p)),
            Err(e) => parse_head(s, p) == Err::<(u8, u64, int), CtapStatusCode>(e),
        },
{
    let t = s.subrange(p, s.len() as int);
    assert forall|k: int| 0 <= k < t.len() implies #[trigger] t[k] == s[p + k] by {}
    if t.len() > 0 {
        assert(t[0] == s[p]);
    }
    if t.len() > 8 {
        assert(t[1] == s[p + 1] && t[2] == s[p + 2] && t[3] == s[p + 3] && t[4] == s[p + 4] && t[5]
            == s[p + 5] && t[6] == s[p + 6] && t[7] == s[p + 7] && t[8] == s[p + 8]);
    } else if t.len() > 4 {
        assert(t[1] == s[p + 1] && t[2] == s[p + 2] && t[3] == s[p + 3] && t[4] == s[p + 4]);
    } else if t.len() > 2 {
        assert(t[1] == s[p + 1] && t[2] == s[p + 2]);
    } else if t.len() > 1 {
        assert(t[1] == s[p + 1]);
    }
}

/// A head that the encoder wrote at `p` is read back there.
pub proof fn lemma_head_at(s: Seq<u8>, p: int, major: u8, value: u64)
    requires
        major <= 5,
        0 <= p,
        p + spec_head(major, value).len() <= s.len(),
        s.subrange(p, p + spec_head(major, value).len()) == spec_head(major, value),
    ensures
        parse_head(s, p) == Ok::<(u8, u64, int), CtapStatusCode>(
            (major, value, p + spec_head(major, value).len()),
        ),
        parse_head_of(s, p, major) == Ok::<(u64, int), CtapStatusCode>(
            (value, p + spec_head(major, value).len()),
        ),
{
    let h = spec_head(major, value);
    let t = s.subrange(p, s.len() as int);
    let rest = t.subrange(h.len() as int, t.len() as int);
    assert(t =~= h + rest) by {
        assert forall|k: int| 0 <= k < h.len() implies t[k] == h[k] by {
            assert(s.subrange(p, p + h.len())[k] == s[p + k]);
        }
    }
    law_head_roundtrip(major, value, rest);
    lemma_head_shift(s, p);
}

/// An unsigned integer that the encoder wrote at `p` is read back there.
pub proof fn lemma_unsigned_at(s: Seq<u8>, p: int, value: u64)
    requires
        0 <= p,
        p + spec_head(0, value).len() <= s.len(),
        s.subrange(p, p + spec_head(0, value).len()) == spec_head(0, value),
    ensures
        parse_unsigned(s, p) == Ok::<(u64, int), CtapStatusCode>((value, p + spec_head(0, value).len())),
{
    lemma_head_at(s, p, 0, value);
}

/// An integer that the encoder wrote at `p` is read back there.
pub proof fn lemma_int_at(s: Seq<u8>, p: int, n: i64)
    requires
        0 <= p,
        p + spec_int(n).len() <= s.len(),
        s.subrange(p, p + spec_int(n).len()) == spec_int(n),
    ensures
        parse_int(s, p) == Ok::<(i64, int), CtapStatusCode>((n, p + spec_int(n).len())),
{
    if n >= 0 {
        lemma_head_at(s, p, 0, n as u64);
    } else {
        lemma_head_at(s, p, 1, (-1 - n) as u64);
    }
}

/// A byte string that the encoder wrote at `p` is read back there.
pub proof fn lemma_bytes_at(s: Seq<u8>, p: int, b: Seq<u8>)
    requires
        b.len() <= u64::MAX,
        0 <= p,
        p + spec_bytes(b).len() <= s.len(),
        s.subrange(p, p + spec_bytes(b).len()) == spec_bytes(b),
    ensures
        parse_bytes(s, p) == Ok::<(Seq<u8>, int), CtapStatusCode>((b, p + spec_bytes(b).len())),
{
    let h = spec_head(2, b.len() as u64);
    let w = s.subrange(p, p + spec_bytes(b).len());
    assert(s.subrange(p, p + h.len()) =~= w.subrange(0, h.len() as int));
    assert(w.subrange(0, h.len() as int) =~= h);
    lemma_head_at(s, p, 2, b.len() as u64);
    assert(s.subrange(p + h.len(), p + h.len() + b.len()) =~= w.subrange(h.len() as int, w.len() as int));
    assert(w.subrange(h.len() as int, w.len() as int) =~= b);
}

/// A text that the encoder wrote at `p` (valid UTF-8) is read back there.
pub proof fn lemma_text_at(s: Seq<u8>, p: int, utf8: Seq<u8>)
    requires
        utf8.len() <= u64::MAX,
        valid_utf8(utf8),
        0 <= p,
        p + spec_text(utf8).len() <= s.len(),
        s.subrange(p, p + spec_text(utf8).len()) == spec_text(utf8),
    ensures
        parse_text(s, p) == Ok::<(Seq<u8>, int), CtapStatusCode>((utf8, p + spec_text(utf8).len())),
{
    let h = spec_head(3, utf8.len() as u64);
    let w = s.subrange(p, p + spec_text(utf8).len());
    assert(s.subrange(p, p + h.len()) =~= w.subrange(0, h.len() as int));
    assert(w.subrange(0, h.len() as int) =~= h);
    lemma_head_at(s, p, 3, utf8.len() as u64);
    assert(s.subrange(p + h.len(), p + h.len() + utf8.len()) =~= w.subrange(h.len() as int, w.len() as int));
    assert(w.subrange(h.len() as int, w.len() as int) =~= utf8);
}

/// A head read from `s` is read the same whatever follows `s`.
pub proof fn lemma_head_extends(s: Seq<u8>, t: Seq<u8>, p: int)
    requires
        parse_head(s, p) is Ok,
    ensures
        parse_head(s + t, p) == parse_head(s, p),
{
    let u = s + t;
    assert forall|i: int| 0 <= i < s.len() implies #[trigger] u[i] == s[i] by {}
    if p + 8 < s.len() {
        assert(u[p] == s[p] && u[p + 1] == s[p + 1] && u[p + 2] == s[p + 2] && u[p + 3] == s[p + 3]
            && u[p + 4] == s[p + 4] && u[p + 5] == s[p + 5] && u[p + 6] == s[p + 6] && u[p + 7] == s[p + 7]
            && u[p + 8] == s[p + 8]);
    } else if p + 4 < s.len() {
        assert(u[p] == s[p] && u[p + 1] == s[p + 1] && u[p + 2] == s[p + 2] && u[p + 3] == s[p + 3]
            && u[p + 4] == s[p + 4]);
    } else if p + 2 < s.len() {
        assert(u[p] == s[p] && u[p + 1] == s[p + 1] && u[p + 2] == s[p + 2]);
    } else if p + 1 < s.len() {
        assert(u[p] == s[p] && u[p + 1] == s[p + 1]);
    } else {
        assert(u[p] == s[p]);
    }
}

/// A head of a given major type read from `s` is read the same whatever
/// follows `s`; so are unsigned and signed integers.
pub proof fn lemma_head_of_extends(s: Seq<u8>, t: Seq<u8>, p: int)
    ensures
        parse_head_of(s, p, 0) is Ok ==> parse_head_of(s + t, p, 0) == parse_head_of(s, p, 0),
        parse_head_of(s, p, 4) is Ok ==> parse_head_of(s + t, p, 4) == parse_head_of(s, p, 4),
        parse_head_of(s, p, 5) is Ok ==> parse_head_of(s + t, p, 5) == parse_head_of(s, p, 5),
        parse_unsigned(s, p) is Ok ==> parse_unsigned(s + t, p) == parse_unsigned(s, p),
        parse_int(s, p) is Ok ==> parse_int(s + t, p) == parse_int(s, p),
{
    if parse_head(s, p) is Ok {
        lemma_head_extends(s, t, p);
    }
}

/// Byte strings and texts read from `s` are read the same whatever follows
/// `s`; so are booleans.
pub proof fn lemma_string_extends(s: Seq<u8>, t: Seq<u8>, p: int)
    ensures
        parse_bytes(s, p) is Ok ==> parse_bytes(s + t, p) == parse_bytes(s, p),
        parse_text(s, p) is Ok ==> parse_text(s + t, p) == parse_text(s, p),
        parse_bool(s, p) is Ok ==> parse_bool(s + t, p) == parse_bool(s, p),
{
    let u = s + t;
    if parse_head(s, p) is Ok {
        lemma_head_extends(s, t, p);
        if let Ok((_m, len, q)) = parse_head(s, p) {
            if s.len() - q >= len {
                assert(u.subrange(q, q + len) =~= s.subrange(q, q + len));
            }
        }
    }
    if 0 <= p < s.len() {
        assert(u[p] == s[p]);
    }
}

/// Items skipped in `s` are skipped the same whatever follows `s`.
pub proof fn lemma_skip_extends(s: Seq<u8>, t: Seq<u8>, p: int, n: nat)
    requires
        skip_items(s, p, n) is Ok,
    ensures
        skip_items(s + t, p, n) == skip_items(s, p, n),
    decreases s.len() - p, n,
{
    if n > 0 {
        lemma_head_extends(s, t, p);
        let (m, v, q) = parse_head(s, p)->Ok_0;
        if m == 0 || m == 1 || m == 7 {
            lemma_skip_extends(s, t, q, (n - 1) as nat);
        } else if m == 2 || m == 3 {
            lemma_skip_extends(s, t, q + v, (n - 1) as nat);
        } else if m == 4 {
            lemma_skip_extends(s, t, q, (n - 1 + v) as nat);
        } else {
            lemma_skip_extends(s, t, q, (n - 1 + 2 * v) as nat);
        }
    }
}

} // verus!
