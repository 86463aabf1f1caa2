use crate::status::CtapStatusCode;
use std::collections::BTreeSet;
use vstd::prelude::*;
use vstd::utf8::{decode_utf8, valid_utf8};

verus! {

/// Two big-endian bytes of `s` at `p`.
pub open spec fn read_be2(s: Seq<u8>, p: int) -> u64 {
    ((s[p] as u64) << 8u64) | (s[p + 1] as u64)
}

/// Four big-endian bytes of `s` at `p`.
pub open spec fn read_be4(s: Seq<u8>, p: int) -> u64 {
    ((s[p] as u64) << 24u64) | ((s[p + 1] as u64) << 16u64) | ((s[p + 2] as u64) << 8u64) | (s[p
        + 3] as u64)
}

/// Eight big-endian bytes of `s` at `p`.
pub open spec fn read_be8(s: Seq<u8>, p: int) -> u64 {
    ((s[p] as u64) << 56u64) | ((s[p + 1] as u64) << 48u64) | ((s[p + 2] as u64) << 40u64) | ((s[p
        + 3] as u64) << 32u64) | ((s[p + 4] as u64) << 24u64) | ((s[p + 5] as u64) << 16u64) | ((s[p
        + 6] as u64) << 8u64) | (s[p + 7] as u64)
}

/// The head of the data item at `p` in `s`: its major type, its argument and
/// the position just after the head. Only canonical heads are accepted:
/// no indefinite lengths, no reserved additional information, no tags, no
/// simple values or floats beyond the one-byte ones, and every argument in
/// its shortest form. Every refusal is `InvalidCbor`.
pub open spec fn parse_head(s: Seq<u8>, p: int) -> Result<(u8, u64, int), CtapStatusCode> {
    if p < 0 || p >= s.len() {
        Err(CtapStatusCode::InvalidCbor)
    } else {
        let b = s[p];
        let major = b / 32;
        let info = b % 32;
        if info >= 28 || major == 6 || (major == 7 && info >= 24) {
            Err(CtapStatusCode::InvalidCbor)
        } else if info < 24 {
            Ok((major, info as u64, p + 1))
        } else if info == 24 {
            if s.len() - (p + 1) < 1 || s[p + 1] < 24 {
                Err(CtapStatusCode::InvalidCbor)
            } else {
                Ok((major, s[p + 1] as u64, p + 2))
            }
        } else if info == 25 {
            if s.len() - (p + 1) < 2 || read_be2(s, p + 1) < 256 {
                Err(CtapStatusCode::InvalidCbor)
            } else {
                Ok((major, read_be2(s, p + 1), p + 3))
            }
        } else if info == 26 {
            if s.len() - (p + 1) < 4 || read_be4(s, p + 1) < 65536 {
                Err(CtapStatusCode::InvalidCbor)
            } else {
                Ok((major, read_be4(s, p + 1), p + 5))
            }
        } else {
            if s.len() - (p + 1) < 8 || read_be8(s, p + 1) < 4294967296 {
                Err(CtapStatusCode::InvalidCbor)
            } else {
                Ok((major, read_be8(s, p + 1), p + 9))
            }
        }
    }
}

/// A head of the given major type; another major type is `CborUnexpectedType`.
pub open spec fn parse_head_of(s: Seq<u8>, p: int, major: u8) -> Result<(u64, int), CtapStatusCode> {
    match parse_head(s, p) {
        Ok((m, v, q)) => if m == major {
            Ok((v, q))
        } else {
            Err(CtapStatusCode::CborUnexpectedType)
        },
        Err(e) => Err(e),
    }
}

/// Where the cursor stands after reading the head at `p`, whether it is
/// accepted or refused: past the head when it is accepted; past an argument
/// that is read and then found not to be in its shortest form; just past the
/// initial byte when that byte is refused or its argument runs past the
/// end; and at `p` when there is no byte to read.
pub open spec fn head_stop(s: Seq<u8>, p: int) -> int {
    if p < 0 || p >= s.len() {
        p
    } else {
        let b = s[p];
        let major = b / 32;
        let info = b % 32;
        if info >= 28 || major == 6 || (major == 7 && info >= 24) || info < 24 {
            p + 1
        } else if info == 24 {
            if s.len() - (p + 1) < 1 {
                p + 1
            } else {
                p + 2
            }
        } else if info == 25 {
            if s.len() - (p + 1) < 2 {
                p + 1
            } else {
                p + 3
            }
        } else if info == 26 {
            if s.len() - (p + 1) < 4 {
                p + 1
            } else {
                p + 5
            }
        } else {
            if s.len() - (p + 1) < 8 {
                p + 1
            } else {
                p + 9
            }
        }
    }
}

/// Where the cursor stands after reading a string of major type `major` at
/// `p`, whether it is accepted or refused: past its payload once the payload
/// is there (also when a text then proves not to be UTF-8), past the head
/// when the head is read but the payload runs past the end or the major type
/// is another, and where `head_stop` says when the head is refused.
pub open spec fn string_stop(s: Seq<u8>, p: int, major: u8) -> int {
    match parse_head(s, p) {
        Ok((m, len, q)) => if m != major || s.len() - q < len {
            q
        } else {
            q + len
        },
        Err(_) => head_stop(s, p),
    }
}

/// Where the cursor stands after reading a one-byte item (a boolean, null)
/// at `p`: one byte on, or at `p` when there is no byte to read.
pub open spec fn byte_stop(s: Seq<u8>, p: int) -> int {
    if 0 <= p < s.len() {
        p + 1
    } else {
        p
    }
}

/// An unsigned integer.
pub open spec fn parse_unsigned(s: Seq<u8>, p: int) -> Result<(u64, int), CtapStatusCode> {
    parse_head_of(s, p, 0)
}

/// A signed integer: major type 0 up to `i64::MAX`, or major type 1 with
/// argument `v` up to `i64::MAX`, standing for `-1 - v`. Any other argument
/// lies outside `i64` and is `InvalidCbor`.
pub open spec fn parse_int(s: Seq<u8>, p: int) -> Result<(i64, int), CtapStatusCode> {
    match parse_head(s, p) {
        Ok((m, v, q)) => if m == 0 {
            if v > i64::MAX {
                Err(CtapStatusCode::InvalidCbor)
            } else {
                Ok((v as i64, q))
            }
        } else if m == 1 {
            if v > i64::MAX {
                Err(CtapStatusCode::InvalidCbor)
            } else {
                Ok(((-1 - v) as i64, q))
            }
        } else {
            Err(CtapStatusCode::CborUnexpectedType)
        },
        Err(e) => Err(e),
    }
}

/// A string of major type `major` (2 for bytes, 3 for text): its payload and
/// the position after it. A payload that runs past the end is `InvalidCbor`.
pub open spec fn parse_string(s: Seq<u8>, p: int, major: u8) -> Result<(Seq<u8>, int), CtapStatusCode> {
    match parse_head_of(s, p, major) {
        Ok((len, q)) => if s.len() - q < len {
            Err(CtapStatusCode::InvalidCbor)
        } else {
            Ok((s.subrange(q, q + len), q + len))
        },
        Err(e) => Err(e),
    }
}

/// A byte string.
pub open spec fn parse_bytes(s: Seq<u8>, p: int) -> Result<(Seq<u8>, int), CtapStatusCode> {
    parse_string(s, p, 2)
}

/// A text string, as its UTF-8 bytes; bytes that are not valid UTF-8 are `InvalidCbor`.
pub open spec fn parse_text(s: Seq<u8>, p: int) -> Result<(Seq<u8>, int), CtapStatusCode> {
    match parse_string(s, p, 3) {
        Ok((b, q)) => if valid_utf8(b) {
            Ok((b, q))
        } else {
            Err(CtapStatusCode::InvalidCbor)
        },
        Err(e) => Err(e),
    }
}

/// A single byte at `p`.
pub open spec fn parse_byte(s: Seq<u8>, p: int) -> Result<(u8, int), CtapStatusCode> {
    if 0 <= p < s.len() {
        Ok((s[p], p + 1))
    } else {
        Err(CtapStatusCode::InvalidCbor)
    }
}

/// `false` (0xf4) or `true` (0xf5); any other byte is `CborUnexpectedType`.
pub open spec fn parse_bool(s: Seq<u8>, p: int) -> Result<(bool, int), CtapStatusCode> {
    match parse_byte(s, p) {
        Ok((b, q)) => if b == 0xf4 {
            Ok((false, q))
        } else if b == 0xf5 {
            Ok((true, q))
        } else {
            Err(CtapStatusCode::CborUnexpectedType)
        },
        Err(e) => Err(e),
    }
}

/// `null` (0xf6); any other byte is `CborUnexpectedType`.
pub open spec fn parse_null(s: Seq<u8>, p: int) -> Result<int, CtapStatusCode> {
    match parse_byte(s, p) {
        Ok((b, q)) => if b == 0xf6 {
            Ok(q)
        } else {
            Err(CtapStatusCode::CborUnexpectedType)
        },
        Err(e) => Err(e),
    }
}

/// The position after `n` consecutive complete data items starting at `p`;
/// an array counts for its elements and a map for twice its entries.
pub open spec fn skip_items(s: Seq<u8>, p: int, n: nat) -> Result<int, CtapStatusCode>
    decreases s.len() - p, n,
{
    if n == 0 {
        Ok(p)
    } else {
        match parse_head(s, p) {
            Ok((m, v, q)) => {
                if !(p < q <= s.len()) {
                    Err(CtapStatusCode::InvalidCbor)
                } else if m == 0 || m == 1 || m == 7 {
                    skip_items(s, q, (n - 1) as nat)
                } else if m == 2 || m == 3 {
                    if s.len() - q < v {
                        Err(CtapStatusCode::InvalidCbor)
                    } else {
                        skip_items(s, q + v, (n - 1) as nat)
                    }
                } else if m == 4 {
                    skip_items(s, q, (n - 1 + v) as nat)
                } else if m == 5 {
                    skip_items(s, q, (n - 1 + 2 * v) as nat)
                } else {
                    Err(CtapStatusCode::InvalidCbor)
                }
            },
            Err(e) => Err(e),
        }
    }
}

/// `String::from_utf8`: std documents that the bytes become a `String`
/// exactly when they are valid UTF-8, and the `String` then holds the
/// characters that they encode.
#[verifier::external_body]
fn string_from_utf8(bytes: Vec<u8>) -> (r: Option<String>)
    ensures
        r is Some <==> valid_utf8(bytes@),
        r matches Some(s) ==> s@ == decode_utf8(bytes@),
{
    String::from_utf8(bytes).ok()
}

/// How a decoding step relates the cursor before and after it to the
/// expected outcome: the bytes stay, the position stays in bounds, and on
/// success the value and the new position are the expected ones; on failure
/// the error is the expected one.
pub open spec fn step_matches<'a, T>(
    before: Decoder<'a>,
    after: Decoder<'a>,
    r: Result<T, CtapStatusCode>,
    expected: Result<(T, int), CtapStatusCode>,
) -> bool {
    &&& after.bytes() == before.bytes()
    &&& 0 <= after.position() <= after.bytes().len()
    &&& match expected {
        Ok((v, q)) => r == Ok::<T, CtapStatusCode>(v) && after.position() == q,
        Err(e) => r == Err::<T, CtapStatusCode>(e),
    }
}

/// A cursor over a CBOR byte string.
#[derive(Debug)]
pub struct Decoder<'a> {
    data: &'a [u8],
    pos: usize,
}

impl<'a> Decoder<'a> {
    #[verifier::type_invariant]
    spec fn inv(self) -> bool {
        self.pos <= self.data@.len()
    }

    /// The bytes being decoded.
    pub closed spec fn bytes(&self) -> Seq<u8> {
        self.data@
    }

    /// The position of the next unread byte.
    pub closed spec fn position(&self) -> int {
        self.pos as int
    }

    pub fn new(data: &'a [u8]) -> (d: Self)
        ensures
            d.bytes() == data@,
            d.position() == 0,
    {
        Decoder { data, pos: 0 }
    }

    pub fn pos(&self) -> (p: usize)
        ensures
            p == self.position(),
            p <= self.bytes().len(),
    {
        proof { use_type_invariant(self); }
        self.pos
    }

    pub fn remaining(&self) -> (n: usize)
        ensures
            n == self.bytes().len() - self.position(),
    {
        proof { use_type_invariant(self); }
        self.data.len() - self.pos
    }

    pub fn is_empty(&self) -> (b: bool)
        ensures
            b == (self.position() >= self.bytes().len()),
    {
        self.pos >= self.data.len()
    }

    pub fn peek(&self) -> (b: Option<u8>)
        ensures
            b == (if self.position() < self.bytes().len() {
                Some(self.bytes()[self.position()])
            } else {
                None
            }),
    {
        if self.pos < self.data.len() {
            Some(self.data[self.pos])
        } else {
            None
        }
    }

    fn read_byte(&mut self) -> (r: Result<u8, CtapStatusCode>)
        ensures
            old(self).position() <= final(self).position(),
            final(self).bytes() == old(self).bytes(),
            match parse_byte(old(self).bytes(), old(self).position()) {
                Ok((b, q)) => r == Ok::<u8, CtapStatusCode>(b) && final(self).position() == q,
                Err(e) => r == Err::<u8, CtapStatusCode>(e) && final(self).position() == old(self).position(),
            },
            0 <= final(self).position() <= final(self).bytes().len(),
    {
        proof { use_type_invariant(&*self); }
        if self.pos >= self.data.len() {
            return Err(CtapStatusCode::InvalidCbor);
        }
        let b = self.data[self.pos];
        self.pos = self.pos + 1;
        proof { use_type_invariant(&*self); }
        Ok(b)
    }

    /// Decodes a head: its major type and argument (see `parse_head`).
    pub fn decode_head(&mut self) -> (r: Result<(u8, u64), CtapStatusCode>)
        ensures
            old(self).position() <= final(self).position(),
            final(self).bytes() == old(self).bytes(),
            match parse_head(old(self).bytes(), old(self).position()) {
                Ok((m, v, q)) => r == Ok::<(u8, u64), CtapStatusCode>((m, v)) && final(self).position() == q,
                Err(e) => r == Err::<(u8, u64), CtapStatusCode>(e),
            },
            final(self).position() == head_stop(old(self).bytes(), old(self).position()),
            0 <= final(self).position() <= final(self).bytes().len(),
    {
        proof { use_type_invariant(&*self); }
        let b = self.read_byte()?;
        proof { use_type_invariant(&*self); }
        let major = b >> 5;
        let info = b & 0x1f;
        assert(major == b / 32 && info == b % 32) by (bit_vector)
            requires major == b >> 5, info == b & 0x1f;
        if info >= 28 || major == 6 || (major == 7 && info >= 24) {
            return Err(CtapStatusCode::InvalidCbor);
        }
        if info < 24 {
            return Ok((major, info as u64));
        }
        proof { use_type_invariant(&*self); }
        let data = self.data;
        let pos = self.pos;
        if info == 24 {
            if data.len() - pos < 1 {
                return Err(CtapStatusCode::InvalidCbor);
            }
            self.pos = pos + 1;
            if data[pos] < 24 {
                return Err(CtapStatusCode::InvalidCbor);
            }
            Ok((major, data[pos] as u64))
        } else if info == 25 {
            if data.len() - pos < 2 {
                return Err(CtapStatusCode::InvalidCbor);
            }
            let v: u64 = ((data[pos] as u64) << 8u64) | (data[pos + 1] as u64);
            self.pos = pos + 2;
            if v < 256 {
                return Err(CtapStatusCode::InvalidCbor);
            }
            Ok((major, v))
        } else if info == 26 {
            if data.len() - pos < 4 {
                return Err(CtapStatusCode::InvalidCbor);
            }
            let v: u64 = ((data[pos] as u64) << 24u64) | ((data[pos + 1] as u64) << 16u64) | ((
            data[pos + 2] as u64) << 8u64) | (data[pos + 3] as u64);
            self.pos = pos + 4;
            if v < 65536 {
                return Err(CtapStatusCode::InvalidCbor);
            }
            Ok((major, v))
        } else {
            if data.len() - pos < 8 {
                return Err(CtapStatusCode::InvalidCbor);
            }
            let v: u64 = ((data[pos] as u64) << 56u64) | ((data[pos + 1] as u64) << 48u64) | ((
            data[pos + 2] as u64) << 40u64) | ((data[pos + 3] as u64) << 32u64) | ((data[pos
                + 4] as u64) << 24u64) | ((data[pos + 5] as u64) << 16u64) | ((data[pos + 6] as u64)
                << 8u64) | (data[pos + 7] as u64);
            self.pos = pos + 8;
            if v < 4294967296 {
                return Err(CtapStatusCode::InvalidCbor);
            }
            Ok((major, v))
        }
    }

    fn decode_head_of(&mut self, major: u8) -> (r: Result<u64, CtapStatusCode>)
        ensures
            old(self).position() <= final(self).position(),
            final(self).position() == head_stop(old(self).bytes(), old(self).position()),
            step_matches(*old(self), *final(self), r, parse_head_of(old(self).bytes(), old(self).position(), major)),
    {
        let (m, v) = self.decode_head()?;
        if m != major {
            return Err(CtapStatusCode::CborUnexpectedType);
        }
        Ok(v)
    }

    pub fn decode_unsigned(&mut self) -> (r: Result<u64, CtapStatusCode>)
        ensures
            old(self).position() <= final(self).position(),
            final(self).position() == head_stop(old(self).bytes(), old(self).position()),
            step_matches(*old(self), *final(self), r, parse_unsigned(old(self).bytes(), old(self).position())),
    {
        self.decode_head_of(0)
    }

    pub fn decode_int(&mut self) -> (r: Result<i64, CtapStatusCode>)
        ensures
            old(self).position() <= final(self).position(),
            final(self).position() == head_stop(old(self).bytes(), old(self).position()),
            step_matches(*old(self), *final(self), r, parse_int(old(self).bytes(), old(self).position())),
    {
        let (major, v) = self.decode_head()?;
        if major == 0 {
            if v > i64::MAX as u64 {
                return Err(CtapStatusCode::InvalidCbor);
            }
            Ok(v as i64)
        } else if major == 1 {
            if v > i64::MAX as u64 {
                return Err(CtapStatusCode::InvalidCbor);
            }
            Ok(-1 - (v as i64))
        } else {
            Err(CtapStatusCode::CborUnexpectedType)
        }
    }

    fn decode_string(&mut self, major: u8) -> (r: Result<Vec<u8>, CtapStatusCode>)
        ensures
            old(self).position() <= final(self).position(),
            final(self).position() == string_stop(old(self).bytes(), old(self).position(), major),
            final(self).bytes() == old(self).bytes(),
            0 <= final(self).position() <= final(self).bytes().len(),
            match parse_string(old(self).bytes(), old(self).position(), major) {
                Ok((b, q)) => r is Ok && r->Ok_0@ == b && final(self).position() == q,
                Err(e) => r == Err::<Vec<u8>, CtapStatusCode>(e),
            },
    {
        let len = self.decode_head_of(major)?;
        proof { use_type_invariant(&*self); }
        if ((self.data.len() - self.pos) as u64) < len {
            return Err(CtapStatusCode::InvalidCbor);
        }
        let start = self.pos;
        let end = self.pos + len as usize;
        let mut out: Vec<u8> = Vec::new();
        let mut i = start;
        while i < end
            invariant
                start <= i <= end <= self.data@.len(),
                out@ == self.data@.subrange(start as int, i as int),
            decreases end - i,
        {
            out.push(self.data[i]);
            i = i + 1;
            assert(out@ =~= self.data@.subrange(start as int, i as int));
        }
        self.pos = end;
        Ok(out)
    }

    pub fn decode_bytes(&mut self) -> (r: Result<Vec<u8>, CtapStatusCode>)
        ensures
            old(self).position() <= final(self).position(),
            final(self).position() == string_stop(old(self).bytes(), old(self).position(), 2),
            final(self).bytes() == old(self).bytes(),
            0 <= final(self).position() <= final(self).bytes().len(),
            match parse_bytes(old(self).bytes(), old(self).position()) {
                Ok((b, q)) => r is Ok && r->Ok_0@ == b && final(self).position() == q,
                Err(e) => r == Err::<Vec<u8>, CtapStatusCode>(e),
            },
    {
        self.decode_string(2)
    }

    /// A text string, kept as its (validated) UTF-8 bytes.
    pub(crate) fn decode_text_utf8(&mut self) -> (r: Result<Vec<u8>, CtapStatusCode>)
        ensures
            old(self).position() <= final(self).position(),
            final(self).position() == string_stop(old(self).bytes(), old(self).position(), 3),
            final(self).bytes() == old(self).bytes(),
            0 <= final(self).position() <= final(self).bytes().len(),
            match parse_text(old(self).bytes(), old(self).position()) {
                Ok((b, q)) => r is Ok && r->Ok_0@ == b && final(self).position() == q,
                Err(e) => r == Err::<Vec<u8>, CtapStatusCode>(e),
            },
    {
        let b = self.decode_string(3)?;
        let copy = b.clone();
        assert(copy@ == b@);
        match string_from_utf8(copy) {
            Some(_) => Ok(b),
            None => Err(CtapStatusCode::InvalidCbor),
        }
    }

    pub fn decode_text(&mut self) -> (r: Result<String, CtapStatusCode>)
        ensures
            old(self).position() <= final(self).position(),
            final(self).position() == string_stop(old(self).bytes(), old(self).position(), 3),
            final(self).bytes() == old(self).bytes(),
            0 <= final(self).position() <= final(self).bytes().len(),
            match parse_text(old(self).bytes(), old(self).position()) {
                Ok((b, q)) => r is Ok && r->Ok_0@ == decode_utf8(b) && final(self).position() == q,
                Err(e) => r == Err::<String, CtapStatusCode>(e),
            },
    {
        let b = self.decode_string(3)?;
        match string_from_utf8(b) {
            Some(s) => Ok(s),
            None => Err(CtapStatusCode::InvalidCbor),
        }
    }

    pub fn decode_bool(&mut self) -> (r: Result<bool, CtapStatusCode>)
        ensures
            old(self).position() <= final(self).position(),
            final(self).position() == byte_stop(old(self).bytes(), old(self).position()),
            step_matches(*old(self), *final(self), r, parse_bool(old(self).bytes(), old(self).position())),
    {
        let b = self.read_byte()?;
        proof { use_type_invariant(&*self); }
        if b == 0xf4 {
            Ok(false)
        } else if b == 0xf5 {
            Ok(true)
        } else {
            Err(CtapStatusCode::CborUnexpectedType)
        }
    }

    /// The same as `decode_bool`: the only simple values read here are booleans.
    pub fn decode_simple_bool(&mut self) -> (r: Result<bool, CtapStatusCode>)
        ensures
            old(self).position() <= final(self).position(),
            final(self).position() == byte_stop(old(self).bytes(), old(self).position()),
            step_matches(*old(self), *final(self), r, parse_bool(old(self).bytes(), old(self).position())),
    {
        self.decode_bool()
    }

    pub fn decode_array_header(&mut self) -> (r: Result<u64, CtapStatusCode>)
        ensures
            old(self).position() <= final(self).position(),
            final(self).position() == head_stop(old(self).bytes(), old(self).position()),
            step_matches(*old(self), *final(self), r, parse_head_of(old(self).bytes(), old(self).position(), 4)),
    {
        self.decode_head_of(4)
    }

    pub fn decode_map_header(&mut self) -> (r: Result<u64, CtapStatusCode>)
        ensures
            old(self).position() <= final(self).position(),
            final(self).position() == head_stop(old(self).bytes(), old(self).position()),
            step_matches(*old(self), *final(self), r, parse_head_of(old(self).bytes(), old(self).position(), 5)),
    {
        self.decode_head_of(5)
    }

    pub fn decode_null(&mut self) -> (r: Result<(), CtapStatusCode>)
        ensures
            old(self).position() <= final(self).position(),
            final(self).position() == byte_stop(old(self).bytes(), old(self).position()),
            final(self).bytes() == old(self).bytes(),
            0 <= final(self).position() <= final(self).bytes().len(),
            match parse_null(old(self).bytes(), old(self).position()) {
                Ok(q) => r is Ok && final(self).position() == q,
                Err(e) => r == Err::<(), CtapStatusCode>(e),
            },
    {
        let b = self.read_byte()?;
        proof { use_type_invariant(&*self); }
        if b != 0xf6 {
            return Err(CtapStatusCode::CborUnexpectedType);
        }
        Ok(())
    }

    /// Skips one complete data item, nested arrays and maps included.
    pub fn skip_value(&mut self) -> (r: Result<(), CtapStatusCode>)
        ensures
            old(self).position() <= final(self).position(),
            final(self).bytes() == old(self).bytes(),
            0 <= final(self).position() <= final(self).bytes().len(),
            match skip_items(old(self).bytes(), old(self).position(), 1) {
                Ok(q) => r is Ok && final(self).position() == q,
                Err(e) => r == Err::<(), CtapStatusCode>(e),
            },
    {
        let ghost s = self.bytes();
        let ghost p0 = self.position();
        let mut pending: u64 = 1;
        proof { use_type_invariant(&*self); }
        while pending > 0
            invariant
                self.bytes() == s,
                s == old(self).bytes(),
                p0 == old(self).position(),
                p0 <= self.position() <= s.len(),
                skip_items(s, p0, 1) == skip_items(s, self.position(), pending as nat),
            decreases s.len() - self.position(),
        {
            proof { use_type_invariant(&*self); }
            let rem = self.data.len() - self.pos;
            if pending > rem as u64 {
                proof { lemma_skip_fails_past_end(s, self.position(), pending as nat); }
                return Err(CtapStatusCode::InvalidCbor);
            }
            let (major, value) = self.decode_head()?;
            proof { use_type_invariant(&*self); }
            let rem2 = self.data.len() - self.pos;
            if major == 0 || major == 1 || major == 7 {
                pending = pending - 1;
            } else if major == 2 || major == 3 {
                if (rem2 as u64) < value {
                    return Err(CtapStatusCode::InvalidCbor);
                }
                self.pos = self.pos + value as usize;
                pending = pending - 1;
            } else if major == 4 {
                if pending - 1 > rem2 as u64 || value > rem2 as u64 - (pending - 1) {
                    proof {
                        lemma_skip_fails_past_end(s, self.position(), (pending - 1 + value) as nat);
                    }
                    return Err(CtapStatusCode::InvalidCbor);
                }
                pending = pending - 1 + value;
            } else if major == 5 {
                if pending - 1 > rem2 as u64 || value > (rem2 as u64 - (pending - 1)) / 2 {
                    proof {
                        lemma_skip_fails_past_end(s, self.position(), (pending - 1 + 2 * value) as nat);
                    }
                    return Err(CtapStatusCode::InvalidCbor);
                }
                pending = pending - 1 + 2 * value;
            } else {
                return Err(CtapStatusCode::InvalidCbor);
            }
        }
        Ok(())
    }

    pub fn expect_end(&self) -> (r: Result<(), CtapStatusCode>)
        ensures
            r == (if self.position() == self.bytes().len() {
                Ok::<(), CtapStatusCode>(())
            } else {
                Err::<(), CtapStatusCode>(CtapStatusCode::InvalidCbor)
            }),
    {
        if self.pos != self.data.len() {
            return Err(CtapStatusCode::InvalidCbor);
        }
        Ok(())
    }
}

/// Every head that parses ends after its first byte and within the bytes,
/// and every refusal of a head is `InvalidCbor`.
pub proof fn lemma_parse_head_bounds(s: Seq<u8>, p: int)
    ensures
        parse_head(s, p) matches Ok((m, v, q)) ==> p < q <= s.len() && m <= 7 && m != 6,
        parse_head(s, p) matches Err(e) ==> e == CtapStatusCode::InvalidCbor,
{
}

/// Skipping `n` items consumes at least one byte per item and stays within
/// the bytes, and every refusal while skipping is `InvalidCbor`.
pub proof fn lemma_skip_items_bounds(s: Seq<u8>, p: int, n: nat)
    requires
        0 <= p <= s.len(),
    ensures
        skip_items(s, p, n) matches Ok(q) ==> p + n <= q <= s.len(),
        skip_items(s, p, n) matches Err(e) ==> e == CtapStatusCode::InvalidCbor,
    decreases s.len() - p, n,
{
    if n > 0 {
        lemma_parse_head_bounds(s, p);
        match parse_head(s, p) {
            Ok((m, v, q)) => {
                if m == 0 || m == 1 || m == 7 {
                    lemma_skip_items_bounds(s, q, (n - 1) as nat);
                } else if m == 2 || m == 3 {
                    if s.len() - q >= v {
                        lemma_skip_items_bounds(s, q + v, (n - 1) as nat);
                    }
                } else if m == 4 {
                    lemma_skip_items_bounds(s, q, (n - 1 + v) as nat);
                } else if m == 5 {
                    lemma_skip_items_bounds(s, q, (n - 1 + 2 * v) as nat);
                }
            },
            Err(_) => {},
        }
    }
}

proof fn lemma_skip_fails_past_end(s: Seq<u8>, p: int, n: nat)
    requires
        0 <= p <= s.len(),
        n > s.len() - p,
    ensures
        skip_items(s, p, n) == Err::<int, CtapStatusCode>(CtapStatusCode::InvalidCbor),
{
    lemma_skip_items_bounds(s, p, n);
}

/// Reads a map header; the set of keys seen so far is left as it is.
pub fn decode_map_int_keys<'a>(dec: &mut Decoder<'a>, seen: &mut BTreeSet<u64>) -> (r: Result<
    u64,
    CtapStatusCode,
>)
    ensures
        step_matches(*old(dec), *final(dec), r, parse_head_of(old(dec).bytes(), old(dec).position(), 5)),
        final(dec).position() == head_stop(old(dec).bytes(), old(dec).position()),
        old(dec).position() <= final(dec).position(),
        final(seen)@ == old(seen)@,
{
    dec.decode_map_header()
}

/// The cursor never moves back: along any run of decoding steps that each
/// keep the bytes and leave the cursor where it was or further on (as every
/// step of `Decoder` does), every later cursor stands at or after every
/// earlier one, over the same bytes.
pub proof fn law_cursor_never_moves_back<'a>(ds: Seq<Decoder<'a>>)
    requires
        forall|i: int|
            0 <= i < ds.len() - 1 ==> ds[i + 1].bytes() == (#[trigger] ds[i]).bytes() && ds[i].position()
                <= ds[i + 1].position(),
    ensures
        forall|i: int, j: int|
            0 <= i <= j < ds.len() ==> (#[trigger] ds[j]).bytes() == (#[trigger] ds[i]).bytes()
                && ds[i].position() <= ds[j].position(),
    decreases ds.len(),
{
    if ds.len() > 1 {
        let front = ds.drop_last();
        assert forall|i: int| 0 <= i < front.len() - 1 implies front[i + 1].bytes() == (#[trigger] front[i]).bytes()
            && front[i].position() <= front[i + 1].position() by {
            assert(front[i + 1] == ds[i + 1] && front[i] == ds[i]);
        }
        law_cursor_never_moves_back(front);
        assert forall|i: int, j: int| 0 <= i <= j < ds.len() implies (#[trigger] ds[j]).bytes() == (
        #[trigger] ds[i]).bytes() && ds[i].position() <= ds[j].position() by {
            if j < ds.len() - 1 {
                assert(front[i] == ds[i] && front[j] == ds[j]);
            } else if i < j {
                assert(front[i] == ds[i] && front[j - 1] == ds[j - 1]);
                assert(ds[j - 1].bytes() == ds[i].bytes());
                assert(ds[j].bytes() == ds[j - 1].bytes());
            }
        }
    }
}

} // verus!
