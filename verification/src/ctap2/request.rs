//! Strict decoding of the CBOR request maps of `makeCredential`,
//! `getAssertion` and `clientPIN`: each request is a map with integer keys,
//! read in order, with duplicate keys, trailing bytes and wrong types refused.

use crate::cbor::decoder::{
    parse_bytes, parse_head_of, parse_int, parse_text, parse_unsigned, skip_items, Decoder,
};
use crate::status::CtapStatusCode;
use std::collections::BTreeSet;
use vstd::prelude::*;
use vstd::string::StringSliceAdditionalSpecFns;

verus! {

// ---------------------------------------------------------------------------
// Generic shapes
// ---------------------------------------------------------------------------

/// The entries of a map with text keys: `n` entries from `p`, keys in
/// `seen` already used, `acc` built so far; `field` reads the value of a key
/// at a position. A repeated key is `InvalidCbor`.
pub open spec fn text_entries<A>(
    s: Seq<u8>,
    p: int,
    n: nat,
    seen: Seq<Seq<u8>>,
    acc: A,
    field: spec_fn(Seq<u8>, int, A) -> Result<(A, int), CtapStatusCode>,
) -> Result<(A, int), CtapStatusCode>
    decreases n,
{
    if n == 0 {
        Ok((acc, p))
    } else {
        match parse_text(s, p) {
            Err(e) => Err(e),
            Ok((k, q)) => if seen.contains(k) {
                Err(CtapStatusCode::InvalidCbor)
            } else {
                match field(k, q, acc) {
                    Err(e) => Err(e),
                    Ok((a2, q2)) => text_entries(s, q2, (n - 1) as nat, seen.push(k), a2, field),
                }
            },
        }
    }
}

/// Skips one value and keeps the accumulator.
pub open spec fn skip_field<A>(s: Seq<u8>, p: int, acc: A) -> Result<(A, int), CtapStatusCode> {
    match skip_items(s, p, 1) {
        Ok(q) => Ok((acc, q)),
        Err(e) => Err(e),
    }
}

/// Reads one text value and discards it.
pub open spec fn discard_text<A>(s: Seq<u8>, p: int, acc: A) -> Result<(A, int), CtapStatusCode> {
    match parse_text(s, p) {
        Ok((_t, q)) => Ok((acc, q)),
        Err(e) => Err(e),
    }
}

/// A credential descriptor map `{ "id": bytes, "type": text }`: its id, if
/// it has one; other keys are skipped.
pub open spec fn descriptor_field(s: Seq<u8>) -> spec_fn(Seq<u8>, int, Option<Seq<u8>>) -> Result<
    (Option<Seq<u8>>, int),
    CtapStatusCode,
> {
    |k: Seq<u8>, p: int, id: Option<Seq<u8>>|
        if k == "id".spec_bytes() {
            match parse_bytes(s, p) {
                Ok((b, q)) => Ok((Some(b), q)),
                Err(e) => Err(e),
            }
        } else if k == "type".spec_bytes() {
            discard_text(s, p, id)
        } else {
            skip_field(s, p, id)
        }
}

/// `n` credential descriptors from `p`, the ids found appended to `out`.
pub open spec fn descriptor_ids(s: Seq<u8>, p: int, n: nat, out: Seq<Seq<u8>>) -> Result<
    (Seq<Seq<u8>>, int),
    CtapStatusCode,
>
    decreases n,
{
    if n == 0 {
        Ok((out, p))
    } else {
        match parse_head_of(s, p, 5) {
            Err(e) => Err(e),
            Ok((len, q)) => match text_entries(s, q, len as nat, Seq::empty(), None, descriptor_field(s)) {
                Err(e) => Err(e),
                Ok((id, q2)) => descriptor_ids(
                    s,
                    q2,
                    (n - 1) as nat,
                    match id {
                        Some(i) => out.push(i),
                        None => out,
                    },
                ),
            },
        }
    }
}

// ---------------------------------------------------------------------------
// makeCredential
// ---------------------------------------------------------------------------

/// The parameters of a `makeCredential` request as they are being read.
/// Texts are kept as their UTF-8 bytes.
pub ghost struct McParams {
    pub client_data_hash: Option<Seq<u8>>,
    pub rp_id: Option<Seq<u8>>,
    pub rp_name: Option<Seq<u8>>,
    pub user_id: Option<Seq<u8>>,
    pub user_name: Option<Seq<u8>>,
    pub pub_key_cred_params: Option<Seq<(Seq<u8>, i64)>>,
    pub exclude_list: Seq<Seq<u8>>,
    pub rk: bool,
    pub uv: bool,
    pub up: bool,
    pub pin_uv_auth_param: Option<Seq<u8>>,
    pub pin_uv_auth_protocol: Option<u32>,
}

/// Nothing read yet: no fields, user presence requested by default.
pub open spec fn mc_initial() -> McParams {
    McParams {
        client_data_hash: None,
        rp_id: None,
        rp_name: None,
        user_id: None,
        user_name: None,
        pub_key_cred_params: None,
        exclude_list: Seq::empty(),
        rk: false,
        uv: false,
        up: true,
        pin_uv_auth_param: None,
        pin_uv_auth_protocol: None,
    }
}

/// The `rp` map: `id` and `name` are texts, other keys are skipped.
pub open spec fn rp_field(s: Seq<u8>) -> spec_fn(Seq<u8>, int, McParams) -> Result<(McParams, int), CtapStatusCode> {
    |k: Seq<u8>, p: int, a: McParams|
        if k == "id".spec_bytes() {
            match parse_text(s, p) {
                Ok((t, q)) => Ok((McParams { rp_id: Some(t), ..a }, q)),
                Err(e) => Err(e),
            }
        } else if k == "name".spec_bytes() {
            match parse_text(s, p) {
                Ok((t, q)) => Ok((McParams { rp_name: Some(t), ..a }, q)),
                Err(e) => Err(e),
            }
        } else {
            skip_field(s, p, a)
        }
}

/// The `user` map: `id` is 1 to 64 bytes (else `InvalidParameter`), `name`
/// and `displayName` are texts, other keys are skipped.
pub open spec fn user_field(s: Seq<u8>) -> spec_fn(Seq<u8>, int, McParams) -> Result<(McParams, int), CtapStatusCode> {
    |k: Seq<u8>, p: int, a: McParams|
        if k == "id".spec_bytes() {
            match parse_bytes(s, p) {
                Ok((b, q)) => if b.len() == 0 || b.len() > 64 {
                    Err(CtapStatusCode::InvalidParameter)
                } else {
                    Ok((McParams { user_id: Some(b), ..a }, q))
                },
                Err(e) => Err(e),
            }
        } else if k == "name".spec_bytes() {
            match parse_text(s, p) {
                Ok((t, q)) => Ok((McParams { user_name: Some(t), ..a }, q)),
                Err(e) => Err(e),
            }
        } else if k == "displayName".spec_bytes() {
            discard_text(s, p, a)
        } else {
            skip_field(s, p, a)
        }
}

/// One `pubKeyCredParams` entry `{ "type": text, "alg": int }`.
pub open spec fn alg_field(s: Seq<u8>) -> spec_fn(Seq<u8>, int, (Option<Seq<u8>>, Option<i64>)) -> Result<
    ((Option<Seq<u8>>, Option<i64>), int),
    CtapStatusCode,
> {
    |k: Seq<u8>, p: int, a: (Option<Seq<u8>>, Option<i64>)|
        if k == "type".spec_bytes() {
            match parse_text(s, p) {
                Ok((t, q)) => Ok(((Some(t), a.1), q)),
                Err(e) => Err(e),
            }
        } else if k == "alg".spec_bytes() {
            match parse_int(s, p) {
                Ok((v, q)) => Ok(((a.0, Some(v)), q)),
                Err(e) => Err(e),
            }
        } else {
            skip_field(s, p, a)
        }
}

/// `n` `pubKeyCredParams` entries, appended to `out` as (type, algorithm);
/// an entry without type or algorithm is `MissingParameter`. The algorithm
/// is kept as the integer read, whole.
pub open spec fn alg_entries(s: Seq<u8>, p: int, n: nat, out: Seq<(Seq<u8>, i64)>) -> Result<
    (Seq<(Seq<u8>, i64)>, int),
    CtapStatusCode,
>
    decreases n,
{
    if n == 0 {
        Ok((out, p))
    } else {
        match parse_head_of(s, p, 5) {
            Err(e) => Err(e),
            Ok((len, q)) => match text_entries(s, q, len as nat, Seq::empty(), (None, None), alg_field(s)) {
                Err(e) => Err(e),
                Ok((e, q2)) => match (e.0, e.1) {
                    (Some(t), Some(alg)) => alg_entries(s, q2, (n - 1) as nat, out.push((t, alg))),
                    _ => Err(CtapStatusCode::MissingParameter),
                },
            },
        }
    }
}

/// The `options` map of `makeCredential`: `rk`, `uv`, `up` are booleans,
/// other keys are skipped.
pub open spec fn mc_option_field(s: Seq<u8>) -> spec_fn(Seq<u8>, int, McParams) -> Result<(McParams, int), CtapStatusCode> {
    |k: Seq<u8>, p: int, a: McParams|
        if k == "rk".spec_bytes() {
            match crate::cbor::decoder::parse_bool(s, p) {
                Ok((v, q)) => Ok((McParams { rk: v, ..a }, q)),
                Err(e) => Err(e),
            }
        } else if k == "uv".spec_bytes() {
            match crate::cbor::decoder::parse_bool(s, p) {
                Ok((v, q)) => Ok((McParams { uv: v, ..a }, q)),
                Err(e) => Err(e),
            }
        } else if k == "up".spec_bytes() {
            match crate::cbor::decoder::parse_bool(s, p) {
                Ok((v, q)) => Ok((McParams { up: v, ..a }, q)),
                Err(e) => Err(e),
            }
        } else {
            skip_field(s, p, a)
        }
}

/// The value of top-level key `key` of a `makeCredential` request.
pub open spec fn mc_field(s: Seq<u8>, key: u64, p: int, a: McParams) -> Result<(McParams, int), CtapStatusCode> {
    if key == 1 {
        match parse_bytes(s, p) {
            Ok((b, q)) => if b.len() != 32 {
                Err(CtapStatusCode::InvalidParameter)
            } else {
                Ok((McParams { client_data_hash: Some(b), ..a }, q))
            },
            Err(e) => Err(e),
        }
    } else if key == 2 {
        match parse_head_of(s, p, 5) {
            Err(e) => Err(e),
            Ok((len, q)) => if len == 0 || len > 3 {
                Err(CtapStatusCode::InvalidCbor)
            } else {
                match text_entries(s, q, len as nat, Seq::empty(), a, rp_field(s)) {
                    Err(e) => Err(e),
                    Ok((a2, q2)) => if a2.rp_id is None {
                        Err(CtapStatusCode::MissingParameter)
                    } else {
                        Ok((a2, q2))
                    },
                }
            },
        }
    } else if key == 3 {
        match parse_head_of(s, p, 5) {
            Err(e) => Err(e),
            Ok((len, q)) => if len == 0 || len > 4 {
                Err(CtapStatusCode::InvalidCbor)
            } else {
                match text_entries(s, q, len as nat, Seq::empty(), a, user_field(s)) {
                    Err(e) => Err(e),
                    Ok((a2, q2)) => if a2.user_id is None {
                        Err(CtapStatusCode::MissingParameter)
                    } else {
                        Ok((a2, q2))
                    },
                }
            },
        }
    } else if key == 4 {
        match parse_head_of(s, p, 4) {
            Err(e) => Err(e),
            Ok((len, q)) => if len == 0 {
                Err(CtapStatusCode::MissingParameter)
            } else if len > 8 {
                Err(CtapStatusCode::LimitExceeded)
            } else {
                match alg_entries(s, q, len as nat, Seq::empty()) {
                    Err(e) => Err(e),
                    Ok((ps, q2)) => Ok((McParams { pub_key_cred_params: Some(ps), ..a }, q2)),
                }
            },
        }
    } else if key == 5 {
        match parse_head_of(s, p, 4) {
            Err(e) => Err(e),
            Ok((len, q)) => if len > 16 {
                Err(CtapStatusCode::LimitExceeded)
            } else {
                match descriptor_ids(s, q, len as nat, a.exclude_list) {
                    Err(e) => Err(e),
                    Ok((ids, q2)) => Ok((McParams { exclude_list: ids, ..a }, q2)),
                }
            },
        }
    } else if key == 7 {
        match parse_head_of(s, p, 5) {
            Err(e) => Err(e),
            Ok((len, q)) => text_entries(s, q, len as nat, Seq::empty(), a, mc_option_field(s)),
        }
    } else if key == 8 {
        match parse_bytes(s, p) {
            Ok((b, q)) => Ok((McParams { pin_uv_auth_param: Some(b), ..a }, q)),
            Err(e) => Err(e),
        }
    } else if key == 9 {
        match parse_unsigned(s, p) {
            Ok((v, q)) => if v > u32::MAX {
                Err(CtapStatusCode::InvalidParameter)
            } else {
                Ok((McParams { pin_uv_auth_protocol: Some(v as u32), ..a }, q))
            },
            Err(e) => Err(e),
        }
    } else {
        skip_field(s, p, a)
    }
}

/// `n` top-level entries of a `makeCredential` request; a repeated key is
/// `InvalidCbor`.
pub open spec fn mc_entries(s: Seq<u8>, p: int, n: nat, seen: Set<u64>, a: McParams) -> Result<
    (McParams, int),
    CtapStatusCode,
>
    decreases n,
{
    if n == 0 {
        Ok((a, p))
    } else {
        match parse_unsigned(s, p) {
            Err(e) => Err(e),
            Ok((k, q)) => if seen.contains(k) {
                Err(CtapStatusCode::InvalidCbor)
            } else {
                match mc_field(s, k, q, a) {
                    Err(e) => Err(e),
                    Ok((a2, q2)) => mc_entries(s, q2, (n - 1) as nat, seen.insert(k), a2),
                }
            },
        }
    }
}

/// A whole `makeCredential` payload: a map of at most 9 entries, nothing
/// after it, and clientDataHash, rp, user and pubKeyCredParams present.
pub open spec fn parse_make_credential(s: Seq<u8>) -> Result<McParams, CtapStatusCode> {
    match parse_head_of(s, 0, 5) {
        Err(e) => Err(e),
        Ok((n, q)) => if n > 9 {
            Err(CtapStatusCode::InvalidCbor)
        } else {
            match mc_entries(s, q, n as nat, Set::empty(), mc_initial()) {
                Err(e) => Err(e),
                Ok((a, q2)) => if q2 != s.len() {
                    Err(CtapStatusCode::InvalidCbor)
                } else if a.client_data_hash is None || a.rp_id is None || a.user_id is None
                    || a.pub_key_cred_params is None {
                    Err(CtapStatusCode::MissingParameter)
                } else {
                    Ok(a)
                },
            }
        },
    }
}

// ---------------------------------------------------------------------------
// getAssertion
// ---------------------------------------------------------------------------

/// The parameters of a `getAssertion` request as they are being read.
pub ghost struct GaParams {
    pub rp_id: Option<Seq<u8>>,
    pub client_data_hash: Option<Seq<u8>>,
    pub allow_list: Seq<Seq<u8>>,
    pub up: bool,
    pub uv: bool,
    pub pin_uv_auth_param: Option<Seq<u8>>,
    pub pin_uv_auth_protocol: Option<u32>,
}

/// Nothing read yet: user presence requested by default.
pub open spec fn ga_initial() -> GaParams {
    GaParams {
        rp_id: None,
        client_data_hash: None,
        allow_list: Seq::empty(),
        up: true,
        uv: false,
        pin_uv_auth_param: None,
        pin_uv_auth_protocol: None,
    }
}

/// The `options` map of `getAssertion`: `up` and `uv` are booleans, other
/// keys are skipped.
pub open spec fn ga_option_field(s: Seq<u8>) -> spec_fn(Seq<u8>, int, GaParams) -> Result<(GaParams, int), CtapStatusCode> {
    |k: Seq<u8>, p: int, a: GaParams|
        if k == "up".spec_bytes() {
            match crate::cbor::decoder::parse_bool(s, p) {
                Ok((v, q)) => Ok((GaParams { up: v, ..a }, q)),
                Err(e) => Err(e),
            }
        } else if k == "uv".spec_bytes() {
            match crate::cbor::decoder::parse_bool(s, p) {
                Ok((v, q)) => Ok((GaParams { uv: v, ..a }, q)),
                Err(e) => Err(e),
            }
        } else {
            skip_field(s, p, a)
        }
}

/// The value of top-level key `key` of a `getAssertion` request. The PIN
/// protocol is kept as its low 32 bits.
pub open spec fn ga_field(s: Seq<u8>, key: u64, p: int, a: GaParams) -> Result<(GaParams, int), CtapStatusCode> {
    if key == 1 {
        match parse_text(s, p) {
            Ok((t, q)) => Ok((GaParams { rp_id: Some(t), ..a }, q)),
            Err(e) => Err(e),
        }
    } else if key == 2 {
        match parse_bytes(s, p) {
            Ok((b, q)) => if b.len() != 32 {
                Err(CtapStatusCode::InvalidParameter)
            } else {
                Ok((GaParams { client_data_hash: Some(b), ..a }, q))
            },
            Err(e) => Err(e),
        }
    } else if key == 3 {
        match parse_head_of(s, p, 4) {
            Err(e) => Err(e),
            Ok((len, q)) => if len > 16 {
                Err(CtapStatusCode::LimitExceeded)
            } else {
                match descriptor_ids(s, q, len as nat, a.allow_list) {
                    Err(e) => Err(e),
                    Ok((ids, q2)) => Ok((GaParams { allow_list: ids, ..a }, q2)),
                }
            },
        }
    } else if key == 5 {
        match parse_head_of(s, p, 5) {
            Err(e) => Err(e),
            Ok((len, q)) => text_entries(s, q, len as nat, Seq::empty(), a, ga_option_field(s)),
        }
    } else if key == 6 {
        match parse_bytes(s, p) {
            Ok((b, q)) => Ok((GaParams { pin_uv_auth_param: Some(b), ..a }, q)),
            Err(e) => Err(e),
        }
    } else if key == 7 {
        match parse_unsigned(s, p) {
            Ok((v, q)) => Ok((GaParams { pin_uv_auth_protocol: Some(v as u32), ..a }, q)),
            Err(e) => Err(e),
        }
    } else {
        skip_field(s, p, a)
    }
}

/// `n` top-level entries of a `getAssertion` request; a repeated key is
/// `InvalidCbor`.
pub open spec fn ga_entries(s: Seq<u8>, p: int, n: nat, seen: Set<u64>, a: GaParams) -> Result<
    (GaParams, int),
    CtapStatusCode,
>
    decreases n,
{
    if n == 0 {
        Ok((a, p))
    } else {
        match parse_unsigned(s, p) {
            Err(e) => Err(e),
            Ok((k, q)) => if seen.contains(k) {
                Err(CtapStatusCode::InvalidCbor)
            } else {
                match ga_field(s, k, q, a) {
                    Err(e) => Err(e),
                    Ok((a2, q2)) => ga_entries(s, q2, (n - 1) as nat, seen.insert(k), a2),
                }
            },
        }
    }
}

/// A whole `getAssertion` payload: a map of at most 8 entries, nothing after
/// it, and rpId and clientDataHash present.
pub open spec fn parse_get_assertion(s: Seq<u8>) -> Result<GaParams, CtapStatusCode> {
    match parse_head_of(s, 0, 5) {
        Err(e) => Err(e),
        Ok((n, q)) => if n > 8 {
            Err(CtapStatusCode::InvalidCbor)
        } else {
            match ga_entries(s, q, n as nat, Set::empty(), ga_initial()) {
                Err(e) => Err(e),
                Ok((a, q2)) => if q2 != s.len() {
                    Err(CtapStatusCode::InvalidCbor)
                } else if a.rp_id is None || a.client_data_hash is None {
                    Err(CtapStatusCode::MissingParameter)
                } else {
                    Ok(a)
                },
            }
        },
    }
}

// ---------------------------------------------------------------------------
// clientPIN
// ---------------------------------------------------------------------------

/// `n` entries of a `clientPIN` request: the subcommand (key 1) is read,
/// other keys are skipped; a repeated key is `InvalidCbor`.
pub open spec fn client_pin_entries(s: Seq<u8>, p: int, n: nat, seen: Set<u64>, sub: Option<u64>) -> Result<
    (Option<u64>, int),
    CtapStatusCode,
>
    decreases n,
{
    if n == 0 {
        Ok((sub, p))
    } else {
        match parse_unsigned(s, p) {
            Err(e) => Err(e),
            Ok((k, q)) => if seen.contains(k) {
                Err(CtapStatusCode::InvalidCbor)
            } else if k == 1 {
                match parse_unsigned(s, q) {
                    Err(e) => Err(e),
                    Ok((v, q2)) => client_pin_entries(s, q2, (n - 1) as nat, seen.insert(k), Some(v)),
                }
            } else {
                match skip_items(s, q, 1) {
                    Err(e) => Err(e),
                    Ok(q2) => client_pin_entries(s, q2, (n - 1) as nat, seen.insert(k), sub),
                }
            },
        }
    }
}

/// The answer to a `clientPIN` payload. No PIN is ever set, so every
/// request is refused: getPinRetries, getKeyAgreement and setPIN with
/// `PinNotSet`, changePIN with `PinRequired`, the token subcommands (6, 9)
/// with `PinAuthInvalid`, other subcommands with `InvalidSubcommand`, and a
/// missing subcommand or an empty request with `MissingParameter`.
pub open spec fn client_pin_status(s: Seq<u8>) -> CtapStatusCode {
    if s.len() == 0 {
        CtapStatusCode::MissingParameter
    } else {
        match parse_head_of(s, 0, 5) {
            Err(e) => e,
            Ok((n, q)) => if n == 0 {
                CtapStatusCode::MissingParameter
            } else {
                match client_pin_entries(s, q, n as nat, Set::empty(), None) {
                    Err(e) => e,
                    Ok((sub, q2)) => if q2 != s.len() {
                        CtapStatusCode::InvalidCbor
                    } else {
                        match sub {
                            Some(v) => if v == 1 || v == 2 || v == 3 {
                                CtapStatusCode::PinNotSet
                            } else if v == 4 {
                                CtapStatusCode::PinRequired
                            } else if v == 6 || v == 9 {
                                CtapStatusCode::PinAuthInvalid
                            } else {
                                CtapStatusCode::InvalidSubcommand
                            },
                            None => CtapStatusCode::MissingParameter,
                        }
                    },
                }
            },
        }
    }
}

// ---------------------------------------------------------------------------
// Executable decoding
// ---------------------------------------------------------------------------

pub open spec fn opt_view(o: Option<Vec<u8>>) -> Option<Seq<u8>> {
    match o {
        Some(v) => Some(v@),
        None => None,
    }
}

pub open spec fn seqs_view(v: Seq<Vec<u8>>) -> Seq<Seq<u8>> {
    v.map_values(|x: Vec<u8>| x@)
}

pub open spec fn algs_view(v: Seq<(Vec<u8>, i64)>) -> Seq<(Seq<u8>, i64)> {
    v.map_values(|x: (Vec<u8>, i64)| (x.0@, x.1))
}

/// Whether two byte strings are equal.
pub fn bytes_eq(a: &[u8], b: &[u8]) -> (r: bool)
    ensures
        r == (a@ == b@),
{
    if a.len() != b.len() {
        return false;
    }
    let mut i: usize = 0;
    while i < a.len()
        invariant
            i <= a.len(),
            a.len() == b.len(),
            forall|j: int| 0 <= j < i ==> a@[j] == b@[j],
        decreases a.len() - i,
    {
        if a[i] != b[i] {
            return false;
        }
        i = i + 1;
    }
    assert(a@ =~= b@);
    true
}

/// Whether `k` is one of `seen`.
pub(crate) fn contains_bytes(seen: &Vec<Vec<u8>>, k: &Vec<u8>) -> (r: bool)
    ensures
        r == seqs_view(seen@).contains(k@),
{
    let mut i: usize = 0;
    while i < seen.len()
        invariant
            i <= seen.len(),
            forall|j: int| 0 <= j < i ==> seen@[j]@ != k@,
        decreases seen.len() - i,
    {
        if bytes_eq(seen[i].as_slice(), k.as_slice()) {
            assert(seqs_view(seen@)[i as int] == k@);
            return true;
        }
        i = i + 1;
    }
    assert forall|j: int| 0 <= j < seqs_view(seen@).len() implies seqs_view(seen@)[j] != k@ by {
        assert(seen@[j]@ != k@);
    }
    false
}

/// The parameters of a `makeCredential` request.
pub(crate) struct MakeCredentialParams {
    pub(crate) client_data_hash: Option<Vec<u8>>,
    pub(crate) rp_id: Option<Vec<u8>>,
    pub(crate) rp_name: Option<Vec<u8>>,
    pub(crate) user_id: Option<Vec<u8>>,
    pub(crate) user_name: Option<Vec<u8>>,
    pub(crate) pub_key_cred_params: Option<Vec<(Vec<u8>, i64)>>,
    pub(crate) exclude_list: Vec<Vec<u8>>,
    pub(crate) rk: bool,
    pub(crate) uv: bool,
    pub(crate) up: bool,
    pub(crate) pin_uv_auth_param: Option<Vec<u8>>,
    pub(crate) pin_uv_auth_protocol: Option<u32>,
}

impl MakeCredentialParams {
    pub(crate) open spec fn view(&self) -> McParams {
        McParams {
            client_data_hash: opt_view(self.client_data_hash),
            rp_id: opt_view(self.rp_id),
            rp_name: opt_view(self.rp_name),
            user_id: opt_view(self.user_id),
            user_name: opt_view(self.user_name),
            pub_key_cred_params: match self.pub_key_cred_params {
                Some(v) => Some(algs_view(v@)),
                None => None,
            },
            exclude_list: seqs_view(self.exclude_list@),
            rk: self.rk,
            uv: self.uv,
            up: self.up,
            pin_uv_auth_param: opt_view(self.pin_uv_auth_param),
            pin_uv_auth_protocol: self.pin_uv_auth_protocol,
        }
    }
}

/// How a decoding function relates its decoder and accumulator to the
/// expected outcome.
pub open spec fn decoded<'a, A>(
    before: Decoder<'a>,
    after: Decoder<'a>,
    r: Result<(), CtapStatusCode>,
    acc: A,
    expected: Result<(A, int), CtapStatusCode>,
) -> bool {
    &&& after.bytes() == before.bytes()
    &&& 0 <= after.position() <= after.bytes().len()
    &&& match expected {
        Ok((a, q)) => r is Ok && acc == a && after.position() == q,
        Err(e) => r == Err::<(), CtapStatusCode>(e),
    }
}

fn decode_rp(dec: &mut Decoder, n: u64, acc: &mut MakeCredentialParams) -> (r: Result<(), CtapStatusCode>)
    ensures
        decoded(*old(dec), *final(dec), r, final(acc)@,
            text_entries(old(dec).bytes(), old(dec).position(), n as nat, Seq::empty(), old(acc)@, rp_field(old(dec).bytes()))),
{
    let ghost s = dec.bytes();
    let mut seen: Vec<Vec<u8>> = Vec::new();
    let mut i: u64 = 0;
    assert(seqs_view(seen@) =~= Seq::<Seq<u8>>::empty());
    let _start = dec.pos();
    while i < n
        invariant
            s == old(dec).bytes(),
            dec.bytes() == s,
            0 <= dec.position() <= s.len(),
            i <= n,
            text_entries(s, old(dec).position(), n as nat, Seq::empty(), old(acc)@, rp_field(s))
                == text_entries(s, dec.position(), (n - i) as nat, seqs_view(seen@), acc@, rp_field(s)),
        decreases n - i,
    {
        let k = dec.decode_text_utf8()?;
        if contains_bytes(&seen, &k) {
            return Err(CtapStatusCode::InvalidCbor);
        }
        if bytes_eq(k.as_slice(), "id".as_bytes()) {
            let t = dec.decode_text_utf8()?;
            acc.rp_id = Some(t);
        } else if bytes_eq(k.as_slice(), "name".as_bytes()) {
            let t = dec.decode_text_utf8()?;
            acc.rp_name = Some(t);
        } else {
            dec.skip_value()?;
        }
        let ghost prev = seen@;
        seen.push(k);
        assert(seqs_view(seen@) =~= seqs_view(prev).push(k@));
        i = i + 1;
    }
    Ok(())
}

fn decode_user(dec: &mut Decoder, n: u64, acc: &mut MakeCredentialParams) -> (r: Result<(), CtapStatusCode>)
    ensures
        decoded(*old(dec), *final(dec), r, final(acc)@,
            text_entries(old(dec).bytes(), old(dec).position(), n as nat, Seq::empty(), old(acc)@, user_field(old(dec).bytes()))),
{
    let ghost s = dec.bytes();
    let mut seen: Vec<Vec<u8>> = Vec::new();
    let mut i: u64 = 0;
    assert(seqs_view(seen@) =~= Seq::<Seq<u8>>::empty());
    let _start = dec.pos();
    while i < n
        invariant
            s == old(dec).bytes(),
            dec.bytes() == s,
            0 <= dec.position() <= s.len(),
            i <= n,
            text_entries(s, old(dec).position(), n as nat, Seq::empty(), old(acc)@, user_field(s))
                == text_entries(s, dec.position(), (n - i) as nat, seqs_view(seen@), acc@, user_field(s)),
        decreases n - i,
    {
        let k = dec.decode_text_utf8()?;
        if contains_bytes(&seen, &k) {
            return Err(CtapStatusCode::InvalidCbor);
        }
        if bytes_eq(k.as_slice(), "id".as_bytes()) {
            let b = dec.decode_bytes()?;
            if b.len() == 0 || b.len() > 64 {
                return Err(CtapStatusCode::InvalidParameter);
            }
            acc.user_id = Some(b);
        } else if bytes_eq(k.as_slice(), "name".as_bytes()) {
            let t = dec.decode_text_utf8()?;
            acc.user_name = Some(t);
        } else if bytes_eq(k.as_slice(), "displayName".as_bytes()) {
            let _t = dec.decode_text_utf8()?;
        } else {
            dec.skip_value()?;
        }
        let ghost prev = seen@;
        seen.push(k);
        assert(seqs_view(seen@) =~= seqs_view(prev).push(k@));
        i = i + 1;
    }
    Ok(())
}

fn decode_mc_options(dec: &mut Decoder, n: u64, acc: &mut MakeCredentialParams) -> (r: Result<(), CtapStatusCode>)
    ensures
        decoded(*old(dec), *final(dec), r, final(acc)@,
            text_entries(old(dec).bytes(), old(dec).position(), n as nat, Seq::empty(), old(acc)@, mc_option_field(old(dec).bytes()))),
{
    let ghost s = dec.bytes();
    let mut seen: Vec<Vec<u8>> = Vec::new();
    let mut i: u64 = 0;
    assert(seqs_view(seen@) =~= Seq::<Seq<u8>>::empty());
    let _start = dec.pos();
    while i < n
        invariant
            s == old(dec).bytes(),
            dec.bytes() == s,
            0 <= dec.position() <= s.len(),
            i <= n,
            text_entries(s, old(dec).position(), n as nat, Seq::empty(), old(acc)@, mc_option_field(s))
                == text_entries(s, dec.position(), (n - i) as nat, seqs_view(seen@), acc@, mc_option_field(s)),
        decreases n - i,
    {
        let k = dec.decode_text_utf8()?;
        if contains_bytes(&seen, &k) {
            return Err(CtapStatusCode::InvalidCbor);
        }
        if bytes_eq(k.as_slice(), "rk".as_bytes()) {
            acc.rk = dec.decode_bool()?;
        } else if bytes_eq(k.as_slice(), "uv".as_bytes()) {
            acc.uv = dec.decode_bool()?;
        } else if bytes_eq(k.as_slice(), "up".as_bytes()) {
            acc.up = dec.decode_bool()?;
        } else {
            dec.skip_value()?;
        }
        let ghost prev = seen@;
        seen.push(k);
        assert(seqs_view(seen@) =~= seqs_view(prev).push(k@));
        i = i + 1;
    }
    Ok(())
}

fn decode_alg_entry(dec: &mut Decoder, n: u64, acc: &mut (Option<Vec<u8>>, Option<i64>)) -> (r: Result<(), CtapStatusCode>)
    ensures
        decoded(*old(dec), *final(dec), r, (opt_view(final(acc).0), final(acc).1),
            text_entries(old(dec).bytes(), old(dec).position(), n as nat, Seq::empty(),
                (opt_view(old(acc).0), old(acc).1), alg_field(old(dec).bytes()))),
{
    let ghost s = dec.bytes();
    let mut seen: Vec<Vec<u8>> = Vec::new();
    let mut i: u64 = 0;
    assert(seqs_view(seen@) =~= Seq::<Seq<u8>>::empty());
    let _start = dec.pos();
    while i < n
        invariant
            s == old(dec).bytes(),
            dec.bytes() == s,
            0 <= dec.position() <= s.len(),
            i <= n,
            text_entries(s, old(dec).position(), n as nat, Seq::empty(), (opt_view(old(acc).0), old(acc).1), alg_field(s))
                == text_entries(s, dec.position(), (n - i) as nat, seqs_view(seen@), (opt_view(acc.0), acc.1), alg_field(s)),
        decreases n - i,
    {
        let k = dec.decode_text_utf8()?;
        if contains_bytes(&seen, &k) {
            return Err(CtapStatusCode::InvalidCbor);
        }
        if bytes_eq(k.as_slice(), "type".as_bytes()) {
            let t = dec.decode_text_utf8()?;
            acc.0 = Some(t);
        } else if bytes_eq(k.as_slice(), "alg".as_bytes()) {
            let v = dec.decode_int()?;
            acc.1 = Some(v);
        } else {
            dec.skip_value()?;
        }
        let ghost prev = seen@;
        seen.push(k);
        assert(seqs_view(seen@) =~= seqs_view(prev).push(k@));
        i = i + 1;
    }
    Ok(())
}

fn decode_alg_entries(dec: &mut Decoder, n: u64, out: &mut Vec<(Vec<u8>, i64)>) -> (r: Result<(), CtapStatusCode>)
    ensures
        decoded(*old(dec), *final(dec), r, algs_view(final(out)@),
            alg_entries(old(dec).bytes(), old(dec).position(), n as nat, algs_view(old(out)@))),
{
    let ghost s = dec.bytes();
    let mut i: u64 = 0;
    let _start = dec.pos();
    while i < n
        invariant
            s == old(dec).bytes(),
            dec.bytes() == s,
            0 <= dec.position() <= s.len(),
            i <= n,
            alg_entries(s, old(dec).position(), n as nat, algs_view(old(out)@))
                == alg_entries(s, dec.position(), (n - i) as nat, algs_view(out@)),
        decreases n - i,
    {
        let mlen = dec.decode_map_header()?;
        let mut entry: (Option<Vec<u8>>, Option<i64>) = (None, None);
        decode_alg_entry(dec, mlen, &mut entry)?;
        let (t, alg) = entry;
        match (t, alg) {
            (Some(t), Some(alg)) => {
                let ghost prev = out@;
                let ghost tv = t@;
                out.push((t, alg));
                assert(algs_view(out@) =~= algs_view(prev).push((tv, alg)));
            },
            _ => {
                return Err(CtapStatusCode::MissingParameter);
            },
        }
        i = i + 1;
    }
    Ok(())
}

fn decode_descriptor(dec: &mut Decoder, n: u64, acc: &mut Option<Vec<u8>>) -> (r: Result<(), CtapStatusCode>)
    ensures
        decoded(*old(dec), *final(dec), r, opt_view(*final(acc)),
            text_entries(old(dec).bytes(), old(dec).position(), n as nat, Seq::empty(), opt_view(*old(acc)), descriptor_field(old(dec).bytes()))),
{
    let ghost s = dec.bytes();
    let mut seen: Vec<Vec<u8>> = Vec::new();
    let mut i: u64 = 0;
    assert(seqs_view(seen@) =~= Seq::<Seq<u8>>::empty());
    let _start = dec.pos();
    while i < n
        invariant
            s == old(dec).bytes(),
            dec.bytes() == s,
            0 <= dec.position() <= s.len(),
            i <= n,
            text_entries(s, old(dec).position(), n as nat, Seq::empty(), opt_view(*old(acc)), descriptor_field(s))
                == text_entries(s, dec.position(), (n - i) as nat, seqs_view(seen@), opt_view(*acc), descriptor_field(s)),
        decreases n - i,
    {
        let k = dec.decode_text_utf8()?;
        if contains_bytes(&seen, &k) {
            return Err(CtapStatusCode::InvalidCbor);
        }
        if bytes_eq(k.as_slice(), "id".as_bytes()) {
            let b = dec.decode_bytes()?;
            *acc = Some(b);
        } else if bytes_eq(k.as_slice(), "type".as_bytes()) {
            let _t = dec.decode_text_utf8()?;
        } else {
            dec.skip_value()?;
        }
        let ghost prev = seen@;
        seen.push(k);
        assert(seqs_view(seen@) =~= seqs_view(prev).push(k@));
        i = i + 1;
    }
    Ok(())
}

fn decode_descriptor_ids(dec: &mut Decoder, n: u64, out: &mut Vec<Vec<u8>>) -> (r: Result<(), CtapStatusCode>)
    ensures
        decoded(*old(dec), *final(dec), r, seqs_view(final(out)@),
            descriptor_ids(old(dec).bytes(), old(dec).position(), n as nat, seqs_view(old(out)@))),
{
    let ghost s = dec.bytes();
    let mut i: u64 = 0;
    let _start = dec.pos();
    while i < n
        invariant
            s == old(dec).bytes(),
            dec.bytes() == s,
            0 <= dec.position() <= s.len(),
            i <= n,
            descriptor_ids(s, old(dec).position(), n as nat, seqs_view(old(out)@))
                == descriptor_ids(s, dec.position(), (n - i) as nat, seqs_view(out@)),
        decreases n - i,
    {
        let mlen = dec.decode_map_header()?;
        let mut id: Option<Vec<u8>> = None;
        decode_descriptor(dec, mlen, &mut id)?;
        match id {
            Some(b) => {
                let ghost prev = out@;
                let ghost bv = b@;
                out.push(b);
                assert(seqs_view(out@) =~= seqs_view(prev).push(bv));
            },
            None => {},
        }
        i = i + 1;
    }
    Ok(())
}

fn decode_mc_field(dec: &mut Decoder, key: u64, acc: &mut MakeCredentialParams) -> (r: Result<(), CtapStatusCode>)
    ensures
        decoded(*old(dec), *final(dec), r, final(acc)@,
            mc_field(old(dec).bytes(), key, old(dec).position(), old(acc)@)),
{
    let _start = dec.pos();
    if key == 1 {
        let b = dec.decode_bytes()?;
        if b.len() != 32 {
            return Err(CtapStatusCode::InvalidParameter);
        }
        acc.client_data_hash = Some(b);
    } else if key == 2 {
        let len = dec.decode_map_header()?;
        if len == 0 || len > 3 {
            return Err(CtapStatusCode::InvalidCbor);
        }
        decode_rp(dec, len, acc)?;
        if acc.rp_id.is_none() {
            return Err(CtapStatusCode::MissingParameter);
        }
    } else if key == 3 {
        let len = dec.decode_map_header()?;
        if len == 0 || len > 4 {
            return Err(CtapStatusCode::InvalidCbor);
        }
        decode_user(dec, len, acc)?;
        if acc.user_id.is_none() {
            return Err(CtapStatusCode::MissingParameter);
        }
    } else if key == 4 {
        let len = dec.decode_array_header()?;
        if len == 0 {
            return Err(CtapStatusCode::MissingParameter);
        }
        if len > 8 {
            return Err(CtapStatusCode::LimitExceeded);
        }
        let mut out: Vec<(Vec<u8>, i64)> = Vec::new();
        assert(algs_view(out@) =~= Seq::<(Seq<u8>, i64)>::empty());
        decode_alg_entries(dec, len, &mut out)?;
        acc.pub_key_cred_params = Some(out);
    } else if key == 5 {
        let len = dec.decode_array_header()?;
        if len > 16 {
            return Err(CtapStatusCode::LimitExceeded);
        }
        decode_descriptor_ids(dec, len, &mut acc.exclude_list)?;
    } else if key == 7 {
        let len = dec.decode_map_header()?;
        decode_mc_options(dec, len, acc)?;
    } else if key == 8 {
        let b = dec.decode_bytes()?;
        acc.pin_uv_auth_param = Some(b);
    } else if key == 9 {
        let v = dec.decode_unsigned()?;
        if v > u32::MAX as u64 {
            return Err(CtapStatusCode::InvalidParameter);
        }
        acc.pin_uv_auth_protocol = Some(v as u32);
    } else {
        dec.skip_value()?;
    }
    Ok(())
}

/// Adds `key` to the keys seen; whether it was new.
fn insert_key(seen: &mut BTreeSet<u64>, key: u64) -> (fresh: bool)
    ensures
        fresh == !old(seen)@.contains(key),
        final(seen)@ == old(seen)@.insert(key),
{
    broadcast use vstd::laws_cmp::group_laws_cmp;
    seen.insert(key)
}

fn decode_mc_entries(dec: &mut Decoder, n: u64, acc: &mut MakeCredentialParams) -> (r: Result<(), CtapStatusCode>)
    ensures
        decoded(*old(dec), *final(dec), r, final(acc)@,
            mc_entries(old(dec).bytes(), old(dec).position(), n as nat, Set::empty(), old(acc)@)),
{
    let ghost s = dec.bytes();
    let mut seen: BTreeSet<u64> = BTreeSet::new();
    let mut i: u64 = 0;
    let _start = dec.pos();
    while i < n
        invariant
            s == old(dec).bytes(),
            dec.bytes() == s,
            0 <= dec.position() <= s.len(),
            i <= n,
            mc_entries(s, old(dec).position(), n as nat, Set::empty(), old(acc)@)
                == mc_entries(s, dec.position(), (n - i) as nat, seen@, acc@),
        decreases n - i,
    {
        let key = dec.decode_unsigned()?;
        if !insert_key(&mut seen, key) {
            return Err(CtapStatusCode::InvalidCbor);
        }
        decode_mc_field(dec, key, acc)?;
        i = i + 1;
    }
    Ok(())
}

/// A decoded `makeCredential` request, its required fields present.
pub(crate) struct McRequest {
    pub(crate) client_data_hash: Vec<u8>,
    pub(crate) rp_id: Vec<u8>,
    pub(crate) rp_name: Option<Vec<u8>>,
    pub(crate) user_id: Vec<u8>,
    pub(crate) user_name: Option<Vec<u8>>,
    pub(crate) pub_key_cred_params: Vec<(Vec<u8>, i64)>,
    pub(crate) exclude_list: Vec<Vec<u8>>,
    pub(crate) rk: bool,
    pub(crate) uv: bool,
    pub(crate) up: bool,
    pub(crate) pin_uv_auth_param: Option<Vec<u8>>,
    pub(crate) pin_uv_auth_protocol: Option<u32>,
}

impl McRequest {
    pub(crate) open spec fn view(&self) -> McParams {
        McParams {
            client_data_hash: Some(self.client_data_hash@),
            rp_id: Some(self.rp_id@),
            rp_name: opt_view(self.rp_name),
            user_id: Some(self.user_id@),
            user_name: opt_view(self.user_name),
            pub_key_cred_params: Some(algs_view(self.pub_key_cred_params@)),
            exclude_list: seqs_view(self.exclude_list@),
            rk: self.rk,
            uv: self.uv,
            up: self.up,
            pin_uv_auth_param: opt_view(self.pin_uv_auth_param),
            pin_uv_auth_protocol: self.pin_uv_auth_protocol,
        }
    }
}

/// Decodes a `makeCredential` payload (see `parse_make_credential`).
pub(crate) fn decode_make_credential_payload(payload: &[u8]) -> (r: Result<McRequest, CtapStatusCode>)
    ensures
        match parse_make_credential(payload@) {
            Ok(a) => r is Ok && r->Ok_0@ == a,
            Err(e) => r == Err::<McRequest, CtapStatusCode>(e),
        },
{
    let mut dec = Decoder::new(payload);
    let n = dec.decode_map_header()?;
    if n > 9 {
        return Err(CtapStatusCode::InvalidCbor);
    }
    let mut acc = MakeCredentialParams {
        client_data_hash: None,
        rp_id: None,
        rp_name: None,
        user_id: None,
        user_name: None,
        pub_key_cred_params: None,
        exclude_list: Vec::new(),
        rk: false,
        uv: false,
        up: true,
        pin_uv_auth_param: None,
        pin_uv_auth_protocol: None,
    };
    assert(seqs_view(acc.exclude_list@) =~= Seq::<Seq<u8>>::empty());
    assert(acc@ =~= mc_initial());
    decode_mc_entries(&mut dec, n, &mut acc)?;
    dec.expect_end()?;
    let MakeCredentialParams {
        client_data_hash,
        rp_id,
        rp_name,
        user_id,
        user_name,
        pub_key_cred_params,
        exclude_list,
        rk,
        uv,
        up,
        pin_uv_auth_param,
        pin_uv_auth_protocol,
    } = acc;
    match (client_data_hash, rp_id, user_id, pub_key_cred_params) {
        (Some(client_data_hash), Some(rp_id), Some(user_id), Some(pub_key_cred_params)) => Ok(
            McRequest {
                client_data_hash,
                rp_id,
                rp_name,
                user_id,
                user_name,
                pub_key_cred_params,
                exclude_list,
                rk,
                uv,
                up,
                pin_uv_auth_param,
                pin_uv_auth_protocol,
            },
        ),
        _ => Err(CtapStatusCode::MissingParameter),
    }
}

/// The parameters of a `getAssertion` request.
pub(crate) struct GetAssertionParams {
    pub(crate) rp_id: Option<Vec<u8>>,
    pub(crate) client_data_hash: Option<Vec<u8>>,
    pub(crate) allow_list: Vec<Vec<u8>>,
    pub(crate) up: bool,
    pub(crate) uv: bool,
    pub(crate) pin_uv_auth_param: Option<Vec<u8>>,
    pub(crate) pin_uv_auth_protocol: Option<u32>,
}

impl GetAssertionParams {
    pub(crate) open spec fn view(&self) -> GaParams {
        GaParams {
            rp_id: opt_view(self.rp_id),
            client_data_hash: opt_view(self.client_data_hash),
            allow_list: seqs_view(self.allow_list@),
            up: self.up,
            uv: self.uv,
            pin_uv_auth_param: opt_view(self.pin_uv_auth_param),
            pin_uv_auth_protocol: self.pin_uv_auth_protocol,
        }
    }
}

fn decode_ga_options(dec: &mut Decoder, n: u64, acc: &mut GetAssertionParams) -> (r: Result<(), CtapStatusCode>)
    ensures
        decoded(*old(dec), *final(dec), r, final(acc)@,
            text_entries(old(dec).bytes(), old(dec).position(), n as nat, Seq::empty(), old(acc)@, ga_option_field(old(dec).bytes()))),
{
    let ghost s = dec.bytes();
    let mut seen: Vec<Vec<u8>> = Vec::new();
    let mut i: u64 = 0;
    assert(seqs_view(seen@) =~= Seq::<Seq<u8>>::empty());
    let _start = dec.pos();
    while i < n
        invariant
            s == old(dec).bytes(),
            dec.bytes() == s,
            0 <= dec.position() <= s.len(),
            i <= n,
            text_entries(s, old(dec).position(), n as nat, Seq::empty(), old(acc)@, ga_option_field(s))
                == text_entries(s, dec.position(), (n - i) as nat, seqs_view(seen@), acc@, ga_option_field(s)),
        decreases n - i,
    {
        let k = dec.decode_text_utf8()?;
        if contains_bytes(&seen, &k) {
            return Err(CtapStatusCode::InvalidCbor);
        }
        if bytes_eq(k.as_slice(), "up".as_bytes()) {
            acc.up = dec.decode_bool()?;
        } else if bytes_eq(k.as_slice(), "uv".as_bytes()) {
            acc.uv = dec.decode_bool()?;
        } else {
            dec.skip_value()?;
        }
        let ghost prev = seen@;
        seen.push(k);
        assert(seqs_view(seen@) =~= seqs_view(prev).push(k@));
        i = i + 1;
    }
    Ok(())
}

fn decode_ga_field(dec: &mut Decoder, key: u64, acc: &mut GetAssertionParams) -> (r: Result<(), CtapStatusCode>)
    ensures
        decoded(*old(dec), *final(dec), r, final(acc)@,
            ga_field(old(dec).bytes(), key, old(dec).position(), old(acc)@)),
{
    let _start = dec.pos();
    if key == 1 {
        let t = dec.decode_text_utf8()?;
        acc.rp_id = Some(t);
    } else if key == 2 {
        let b = dec.decode_bytes()?;
        if b.len() != 32 {
            return Err(CtapStatusCode::InvalidParameter);
        }
        acc.client_data_hash = Some(b);
    } else if key == 3 {
        let len = dec.decode_array_header()?;
        if len > 16 {
            return Err(CtapStatusCode::LimitExceeded);
        }
        decode_descriptor_ids(dec, len, &mut acc.allow_list)?;
    } else if key == 5 {
        let len = dec.decode_map_header()?;
        decode_ga_options(dec, len, acc)?;
    } else if key == 6 {
        let b = dec.decode_bytes()?;
        acc.pin_uv_auth_param = Some(b);
    } else if key == 7 {
        let v = dec.decode_unsigned()?;
        acc.pin_uv_auth_protocol = Some(v as u32);
    } else {
        dec.skip_value()?;
    }
    Ok(())
}

fn decode_ga_entries(dec: &mut Decoder, n: u64, acc: &mut GetAssertionParams) -> (r: Result<(), CtapStatusCode>)
    ensures
        decoded(*old(dec), *final(dec), r, final(acc)@,
            ga_entries(old(dec).bytes(), old(dec).position(), n as nat, Set::empty(), old(acc)@)),
{
    let ghost s = dec.bytes();
    let mut seen: BTreeSet<u64> = BTreeSet::new();
    let mut i: u64 = 0;
    let _start = dec.pos();
    while i < n
        invariant
            s == old(dec).bytes(),
            dec.bytes() == s,
            0 <= dec.position() <= s.len(),
            i <= n,
            ga_entries(s, old(dec).position(), n as nat, Set::empty(), old(acc)@)
                == ga_entries(s, dec.position(), (n - i) as nat, seen@, acc@),
        decreases n - i,
    {
        let key = dec.decode_unsigned()?;
        if !insert_key(&mut seen, key) {
            return Err(CtapStatusCode::InvalidCbor);
        }
        decode_ga_field(dec, key, acc)?;
        i = i + 1;
    }
    Ok(())
}

/// A decoded `getAssertion` request, its required fields present.
pub(crate) struct GaRequest {
    pub(crate) rp_id: Vec<u8>,
    pub(crate) client_data_hash: Vec<u8>,
    pub(crate) allow_list: Vec<Vec<u8>>,
    pub(crate) up: bool,
    pub(crate) uv: bool,
    pub(crate) pin_uv_auth_param: Option<Vec<u8>>,
    pub(crate) pin_uv_auth_protocol: Option<u32>,
}

impl GaRequest {
    pub(crate) open spec fn view(&self) -> GaParams {
        GaParams {
            rp_id: Some(self.rp_id@),
            client_data_hash: Some(self.client_data_hash@),
            allow_list: seqs_view(self.allow_list@),
            up: self.up,
            uv: self.uv,
            pin_uv_auth_param: opt_view(self.pin_uv_auth_param),
            pin_uv_auth_protocol: self.pin_uv_auth_protocol,
        }
    }
}

/// Decodes a `getAssertion` payload (see `parse_get_assertion`).
pub(crate) fn decode_get_assertion_payload(payload: &[u8]) -> (r: Result<GaRequest, CtapStatusCode>)
    ensures
        match parse_get_assertion(payload@) {
            Ok(a) => r is Ok && r->Ok_0@ == a,
            Err(e) => r == Err::<GaRequest, CtapStatusCode>(e),
        },
{
    let mut dec = Decoder::new(payload);
    let n = dec.decode_map_header()?;
    if n > 8 {
        return Err(CtapStatusCode::InvalidCbor);
    }
    let mut acc = GetAssertionParams {
        rp_id: None,
        client_data_hash: None,
        allow_list: Vec::new(),
        up: true,
        uv: false,
        pin_uv_auth_param: None,
        pin_uv_auth_protocol: None,
    };
    assert(seqs_view(acc.allow_list@) =~= Seq::<Seq<u8>>::empty());
    assert(acc@ =~= ga_initial());
    decode_ga_entries(&mut dec, n, &mut acc)?;
    dec.expect_end()?;
    let GetAssertionParams { rp_id, client_data_hash, allow_list, up, uv, pin_uv_auth_param, pin_uv_auth_protocol } = acc;
    match (rp_id, client_data_hash) {
        (Some(rp_id), Some(client_data_hash)) => Ok(
            GaRequest { rp_id, client_data_hash, allow_list, up, uv, pin_uv_auth_param, pin_uv_auth_protocol },
        ),
        _ => Err(CtapStatusCode::MissingParameter),
    }
}

/// The answer to a `clientPIN` payload (see `client_pin_status`).
pub(crate) fn client_pin_answer(payload: &[u8]) -> (c: CtapStatusCode)
    ensures
        c == client_pin_status(payload@),
{
    if payload.len() == 0 {
        return CtapStatusCode::MissingParameter;
    }
    let mut dec = Decoder::new(payload);
    let n = match dec.decode_map_header() {
        Ok(n) => n,
        Err(e) => return e,
    };
    if n == 0 {
        return CtapStatusCode::MissingParameter;
    }
    let ghost s = payload@;
    let ghost q0 = dec.position();
    let mut seen: BTreeSet<u64> = BTreeSet::new();
    let mut sub: Option<u64> = None;
    let mut i: u64 = 0;
    let _start = dec.pos();
    while i < n
        invariant
            s == payload@,
            s.len() > 0,
            parse_head_of(s, 0, 5) == Ok::<(u64, int), CtapStatusCode>((n, q0)),
            n > 0,
            dec.bytes() == s,
            0 <= dec.position() <= s.len(),
            i <= n,
            client_pin_entries(s, q0, n as nat, Set::empty(), None)
                == client_pin_entries(s, dec.position(), (n - i) as nat, seen@, sub),
        decreases n - i,
    {
        let key = match dec.decode_unsigned() {
            Ok(k) => k,
            Err(e) => return e,
        };
        if !insert_key(&mut seen, key) {
            return CtapStatusCode::InvalidCbor;
        }
        if key == 1 {
            match dec.decode_unsigned() {
                Ok(v) => {
                    sub = Some(v);
                },
                Err(e) => return e,
            }
        } else {
            match dec.skip_value() {
                Ok(()) => {},
                Err(e) => return e,
            }
        }
        i = i + 1;
    }
    if dec.expect_end().is_err() {
        return CtapStatusCode::InvalidCbor;
    }
    match sub {
        Some(v) => if v == 1 || v == 2 || v == 3 {
            CtapStatusCode::PinNotSet
        } else if v == 4 {
            CtapStatusCode::PinRequired
        } else if v == 6 || v == 9 {
            CtapStatusCode::PinAuthInvalid
        } else {
            CtapStatusCode::InvalidSubcommand
        },
        None => CtapStatusCode::MissingParameter,
    }
}

} // verus!
