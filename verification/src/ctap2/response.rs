//! The bytes of the responses: authenticator data and the CBOR maps of
//! `getInfo`, `makeCredential` and `getAssertion`.

use crate::algorithm::{spec_cose_id, Algorithm};
use crate::cbor::{
    be2, be4, encode_array_header, encode_bool, encode_bytes, encode_int, encode_map_header,
    encode_text, encode_unsigned, spec_bool, spec_bytes, spec_head, spec_int, spec_text,
};
use crate::info::{AuthenticatorInfo, Options};
use sha2::Digest;
use vstd::prelude::*;
use vstd::string::StringSliceAdditionalSpecFns;

verus! {

/// The SHA-256 digest of `data`.
pub uninterp spec fn sha256_digest(data: Seq<u8>) -> Seq<u8>;

/// `Sha256::digest` (sha2 crate): the SHA-256 digest of `data`, a pure
/// function of the bytes, named `sha256_digest` here.
#[verifier::external_body]
pub(crate) fn sha256(data: &[u8]) -> (d: [u8; 32])
    ensures
        d@ == sha256_digest(data@),
{
    let digest = sha2::Sha256::digest(data);
    let mut out = [0u8; 32];
    out.copy_from_slice(&digest);
    out
}

/// The COSE_Key of an EC2 P-256 public key for ES256 with coordinates `x`, `y`.
pub open spec fn spec_cose_key(x: Seq<u8>, y: Seq<u8>) -> Seq<u8> {
    spec_head(5, 5) + spec_int(1) + spec_int(2) + spec_int(3) + spec_int(-7i64) + spec_int(-1i64)
        + spec_int(1) + spec_int(-2i64) + spec_bytes(x) + spec_int(-3i64) + spec_bytes(y)
}

/// Authenticator data: the SHA-256 of the RP id, the flags, the signature
/// counter (big-endian) and, for a new credential, the attested credential
/// data (AAGUID, id length, id, public key).
pub open spec fn spec_auth_data(
    rp_id: Seq<u8>,
    flags: u8,
    counter: u32,
    attested: Option<(Seq<u8>, Seq<u8>, Seq<u8>, Seq<u8>)>,
) -> Seq<u8> {
    sha256_digest(rp_id) + seq![flags] + be4(counter as u64) + match attested {
        None => Seq::empty(),
        Some((aaguid, id, x, y)) => aaguid + be2(id.len() as u64) + id + spec_cose_key(x, y),
    }
}

/// The texts of `vs`, one after the other.
pub open spec fn spec_texts(vs: Seq<&str>) -> Seq<u8>
    decreases vs.len(),
{
    if vs.len() == 0 {
        Seq::empty()
    } else {
        spec_texts(vs.drop_last()) + spec_text(vs.last().spec_bytes())
    }
}

/// The unsigned integers of `ps`, one after the other.
pub open spec fn spec_uints(ps: Seq<u32>) -> Seq<u8>
    decreases ps.len(),
{
    if ps.len() == 0 {
        Seq::empty()
    } else {
        spec_uints(ps.drop_last()) + spec_head(0, ps.last() as u64)
    }
}

/// A public-key credential parameter `{ "type": "public-key", "alg": id }`.
pub open spec fn spec_alg_param(a: Algorithm) -> Seq<u8> {
    spec_head(5, 2) + spec_text("type".spec_bytes()) + spec_text("public-key".spec_bytes())
        + spec_text("alg".spec_bytes()) + spec_int(spec_cose_id(a) as i64)
}

/// The parameters of `algs`, one after the other.
pub open spec fn spec_alg_params(algs: Seq<Algorithm>) -> Seq<u8>
    decreases algs.len(),
{
    if algs.len() == 0 {
        Seq::empty()
    } else {
        spec_alg_params(algs.drop_last()) + spec_alg_param(algs.last())
    }
}

/// An optional boolean entry of the `options` map: its key and value, or nothing.
pub open spec fn spec_option_entry(name: Seq<u8>, value: Option<bool>) -> Seq<u8> {
    match value {
        Some(v) => spec_text(name) + spec_bool(v),
        None => Seq::empty(),
    }
}

/// The `options` map of `getInfo`: rk, up, uv, then plat, clientPin and
/// alwaysUv where they apply.
pub open spec fn spec_options(o: Options) -> Seq<u8> {
    let plat = if o.plat { Some(true) } else { None };
    let always_uv = if o.always_uv { Some(true) } else { None };
    let n = 3 + (if o.plat { 1int } else { 0int }) + (if o.client_pin is Some { 1int } else { 0int })
        + (if o.always_uv { 1int } else { 0int });
    spec_head(5, n as u64) + spec_option_entry("rk".spec_bytes(), Some(o.rk)) + spec_option_entry(
        "up".spec_bytes(),
        Some(o.up),
    ) + spec_option_entry("uv".spec_bytes(), Some(o.uv)) + spec_option_entry(
        "plat".spec_bytes(),
        plat,
    ) + spec_option_entry("clientPin".spec_bytes(), o.client_pin) + spec_option_entry(
        "alwaysUv".spec_bytes(),
        always_uv,
    )
}

/// The `getInfo` response: status 0 and a map of versions (1), AAGUID (3),
/// options (4), maximum message size (5), PIN/UV protocols (6), transports
/// (9) and algorithms (10).
pub open spec fn spec_info_response(i: AuthenticatorInfo) -> Seq<u8> {
    seq![0u8] + spec_head(5, 7) + spec_head(0, 1) + spec_head(4, i.versions@.len() as u64)
        + spec_texts(i.versions@) + spec_head(0, 3) + spec_bytes(i.aaguid@) + spec_head(0, 4)
        + spec_options(i.options) + spec_head(0, 5) + spec_head(0, i.max_msg_size as u64) + spec_head(0, 6)
        + spec_head(4, i.pin_uv_auth_protocols@.len() as u64) + spec_uints(
        i.pin_uv_auth_protocols@,
    ) + spec_head(0, 9) + spec_head(4, i.transports@.len() as u64) + spec_texts(i.transports@)
        + spec_head(0, 10) + spec_head(4, i.algorithms@.len() as u64) + spec_alg_params(
        i.algorithms@,
    )
}

/// The `makeCredential` response: status 0 and `{ 1: "none", 2: authData, 3: {} }`.
pub open spec fn spec_mc_response(auth_data: Seq<u8>) -> Seq<u8> {
    seq![0u8] + spec_head(5, 3) + spec_head(0, 1) + spec_text("none".spec_bytes()) + spec_head(0, 2)
        + spec_bytes(auth_data) + spec_head(0, 3) + spec_head(5, 0)
}

/// The `getAssertion` response: status 0 and
/// `{ 1: { "id": id, "type": "public-key" }, 2: authData, 3: signature }`.
pub open spec fn spec_ga_response(id: Seq<u8>, auth_data: Seq<u8>, signature: Seq<u8>) -> Seq<u8> {
    seq![0u8] + spec_head(5, 3) + spec_head(0, 1) + spec_head(5, 2) + spec_text("id".spec_bytes())
        + spec_bytes(id) + spec_text("type".spec_bytes()) + spec_text("public-key".spec_bytes())
        + spec_head(0, 2) + spec_bytes(auth_data) + spec_head(0, 3) + spec_bytes(signature)
}

fn push_be4(buf: &mut Vec<u8>, v: u32)
    ensures
        final(buf)@ == old(buf)@ + be4(v as u64),
{
    let w = v as u64;
    buf.push(((w >> 24) & 0xff) as u8);
    buf.push(((w >> 16) & 0xff) as u8);
    buf.push(((w >> 8) & 0xff) as u8);
    buf.push((w & 0xff) as u8);
    assert(w == w >> 0u64) by (bit_vector);
    assert(buf@ =~= old(buf)@ + be4(v as u64));
}

fn push_all(buf: &mut Vec<u8>, bytes: &[u8])
    ensures
        final(buf)@ == old(buf)@ + bytes@,
{
    let mut i: usize = 0;
    while i < bytes.len()
        invariant
            i <= bytes.len(),
            buf@ == old(buf)@ + bytes@.take(i as int),
        decreases bytes.len() - i,
    {
        buf.push(bytes[i]);
        i = i + 1;
        assert(buf@ =~= old(buf)@ + bytes@.take(i as int));
    }
    assert(bytes@.take(bytes.len() as int) =~= bytes@);
}

/// Builds authenticator data without attested credential data.
pub(crate) fn build_auth_data(rp_id: &[u8], flags: u8, counter: u32) -> (out: Vec<u8>)
    ensures
        out@ == spec_auth_data(rp_id@, flags, counter, None),
        sha256_digest(rp_id@).len() == 32,
{
    let rp_hash = sha256(rp_id);
    let mut out: Vec<u8> = Vec::new();
    push_all(&mut out, &rp_hash);
    out.push(flags);
    push_be4(&mut out, counter);
    assert(out@ =~= spec_auth_data(rp_id@, flags, counter, None));
    out
}

/// Builds authenticator data with the attested credential data of a new credential.
pub(crate) fn build_attested_auth_data(
    rp_id: &[u8],
    flags: u8,
    counter: u32,
    aaguid: &[u8; 16],
    cred_id: &[u8],
    x: &[u8; 32],
    y: &[u8; 32],
) -> (out: Vec<u8>)
    ensures
        out@ == spec_auth_data(rp_id@, flags, counter, Some((aaguid@, cred_id@, x@, y@))),
        sha256_digest(rp_id@).len() == 32,
{
    let mut out = build_auth_data(rp_id, flags, counter);
    push_all(&mut out, aaguid);
    let n = cred_id.len() as u64;
    out.push(((n >> 8) & 0xff) as u8);
    out.push((n & 0xff) as u8);
    assert(n == n >> 0u64) by (bit_vector);
    push_all(&mut out, cred_id);
    let mut cose: Vec<u8> = Vec::new();
    encode_map_header(&mut cose, 5);
    encode_int(&mut cose, 1);
    encode_int(&mut cose, 2);
    encode_int(&mut cose, 3);
    encode_int(&mut cose, -7);
    encode_int(&mut cose, -1);
    encode_int(&mut cose, 1);
    encode_int(&mut cose, -2);
    encode_bytes(&mut cose, x);
    encode_int(&mut cose, -3);
    encode_bytes(&mut cose, y);
    assert(cose@ =~= spec_cose_key(x@, y@));
    push_all(&mut out, cose.as_slice());
    assert(out@ =~= spec_auth_data(rp_id@, flags, counter, Some((aaguid@, cred_id@, x@, y@))));
    out
}

fn push_texts(buf: &mut Vec<u8>, vs: &Vec<&'static str>)
    ensures
        final(buf)@ == old(buf)@ + spec_texts(vs@),
{
    let mut i: usize = 0;
    while i < vs.len()
        invariant
            i <= vs.len(),
            buf@ == old(buf)@ + spec_texts(vs@.take(i as int)),
        decreases vs.len() - i,
    {
        encode_text(buf, vs[i]);
        assert(vs@.take(i + 1).drop_last() =~= vs@.take(i as int));
        i = i + 1;
        assert(buf@ =~= old(buf)@ + spec_texts(vs@.take(i as int)));
    }
    assert(vs@.take(vs.len() as int) =~= vs@);
}

fn push_uints(buf: &mut Vec<u8>, ps: &Vec<u32>)
    ensures
        final(buf)@ == old(buf)@ + spec_uints(ps@),
{
    let mut i: usize = 0;
    while i < ps.len()
        invariant
            i <= ps.len(),
            buf@ == old(buf)@ + spec_uints(ps@.take(i as int)),
        decreases ps.len() - i,
    {
        encode_unsigned(buf, ps[i] as u64);
        assert(ps@.take(i + 1).drop_last() =~= ps@.take(i as int));
        i = i + 1;
        assert(buf@ =~= old(buf)@ + spec_uints(ps@.take(i as int)));
    }
    assert(ps@.take(ps.len() as int) =~= ps@);
}

fn push_alg_params(buf: &mut Vec<u8>, algs: &Vec<Algorithm>)
    ensures
        final(buf)@ == old(buf)@ + spec_alg_params(algs@),
{
    let mut i: usize = 0;
    while i < algs.len()
        invariant
            i <= algs.len(),
            buf@ == old(buf)@ + spec_alg_params(algs@.take(i as int)),
        decreases algs.len() - i,
    {
        let ghost before = buf@;
        encode_map_header(buf, 2);
        encode_text(buf, "type");
        encode_text(buf, "public-key");
        encode_text(buf, "alg");
        encode_int(buf, algs[i].cose_id() as i64);
        assert(buf@ =~= before + spec_alg_param(algs@[i as int]));
        assert(algs@.take(i + 1).drop_last() =~= algs@.take(i as int));
        i = i + 1;
        assert(buf@ =~= old(buf)@ + spec_alg_params(algs@.take(i as int)));
    }
    assert(algs@.take(algs.len() as int) =~= algs@);
}

fn push_option_entry(buf: &mut Vec<u8>, name: &str, value: Option<bool>)
    ensures
        final(buf)@ == old(buf)@ + spec_option_entry(name.spec_bytes(), value),
{
    if let Some(v) = value {
        encode_text(buf, name);
        encode_bool(buf, v);
        assert(buf@ =~= old(buf)@ + spec_option_entry(name.spec_bytes(), value));
    } else {
        assert(buf@ =~= old(buf)@ + spec_option_entry(name.spec_bytes(), value));
    }
}

fn push_options(buf: &mut Vec<u8>, o: &Options)
    ensures
        final(buf)@ == old(buf)@ + spec_options(*o),
{
    let plat = if o.plat { Some(true) } else { None };
    let always_uv = if o.always_uv { Some(true) } else { None };
    let opt_len: u64 = 3 + (if o.plat { 1 } else { 0 }) + (if o.client_pin.is_some() { 1 } else { 0 })
        + (if o.always_uv { 1 } else { 0 });
    let ghost start = buf@;
    encode_map_header(buf, opt_len);
    let ghost acc = spec_head(5, opt_len);
    push_option_entry(buf, "rk", Some(o.rk));
    proof {
        let e = spec_option_entry("rk".spec_bytes(), Some(o.rk));
        vstd::seq_lib::lemma_concat_associative(start, acc, e);
        acc = acc + e;
    }
    push_option_entry(buf, "up", Some(o.up));
    proof {
        let e = spec_option_entry("up".spec_bytes(), Some(o.up));
        vstd::seq_lib::lemma_concat_associative(start, acc, e);
        acc = acc + e;
    }
    push_option_entry(buf, "uv", Some(o.uv));
    proof {
        let e = spec_option_entry("uv".spec_bytes(), Some(o.uv));
        vstd::seq_lib::lemma_concat_associative(start, acc, e);
        acc = acc + e;
    }
    push_option_entry(buf, "plat", plat);
    proof {
        let e = spec_option_entry("plat".spec_bytes(), plat);
        vstd::seq_lib::lemma_concat_associative(start, acc, e);
        acc = acc + e;
    }
    push_option_entry(buf, "clientPin", o.client_pin);
    proof {
        let e = spec_option_entry("clientPin".spec_bytes(), o.client_pin);
        vstd::seq_lib::lemma_concat_associative(start, acc, e);
        acc = acc + e;
    }
    push_option_entry(buf, "alwaysUv", always_uv);
    proof {
        let e = spec_option_entry("alwaysUv".spec_bytes(), always_uv);
        vstd::seq_lib::lemma_concat_associative(start, acc, e);
        acc = acc + e;
    }
    assert(acc == spec_options(*o));
}

/// The `getInfo` response for `info`.
pub(crate) fn encode_get_info(info: &AuthenticatorInfo) -> (out: Vec<u8>)
    ensures
        out@ == spec_info_response(*info),
{
    let mut out: Vec<u8> = Vec::new();
    out.push(0x00);
    encode_map_header(&mut out, 7);
    encode_unsigned(&mut out, 0x01);
    encode_array_header(&mut out, info.versions.len() as u64);
    push_texts(&mut out, &info.versions);
    encode_unsigned(&mut out, 0x03);
    encode_bytes(&mut out, &info.aaguid);
    encode_unsigned(&mut out, 0x04);
    push_options(&mut out, &info.options);
    encode_unsigned(&mut out, 0x05);
    encode_unsigned(&mut out, info.max_msg_size as u64);
    encode_unsigned(&mut out, 0x06);
    encode_array_header(&mut out, info.pin_uv_auth_protocols.len() as u64);
    push_uints(&mut out, &info.pin_uv_auth_protocols);
    encode_unsigned(&mut out, 0x09);
    encode_array_header(&mut out, info.transports.len() as u64);
    push_texts(&mut out, &info.transports);
    encode_unsigned(&mut out, 0x0A);
    encode_array_header(&mut out, info.algorithms.len() as u64);
    push_alg_params(&mut out, &info.algorithms);
    assert(out@ =~= spec_info_response(*info));
    out
}

/// The `makeCredential` response carrying `auth_data`.
pub(crate) fn encode_make_credential_response(auth_data: &[u8]) -> (out: Vec<u8>)
    ensures
        out@ == spec_mc_response(auth_data@),
{
    let mut out: Vec<u8> = Vec::new();
    out.push(0x00);
    encode_map_header(&mut out, 3);
    encode_unsigned(&mut out, 0x01);
    encode_text(&mut out, "none");
    encode_unsigned(&mut out, 0x02);
    encode_bytes(&mut out, auth_data);
    encode_unsigned(&mut out, 0x03);
    encode_map_header(&mut out, 0);
    assert(out@ =~= spec_mc_response(auth_data@));
    out
}

/// The `getAssertion` response for credential `id`.
pub(crate) fn encode_get_assertion_response(id: &[u8], auth_data: &[u8], signature: &[u8]) -> (out: Vec<u8>)
    ensures
        out@ == spec_ga_response(id@, auth_data@, signature@),
{
    let mut out: Vec<u8> = Vec::new();
    out.push(0x00);
    encode_map_header(&mut out, 3);
    encode_unsigned(&mut out, 0x01);
    encode_map_header(&mut out, 2);
    encode_text(&mut out, "id");
    encode_bytes(&mut out, id);
    encode_text(&mut out, "type");
    encode_text(&mut out, "public-key");
    encode_unsigned(&mut out, 0x02);
    encode_bytes(&mut out, auth_data);
    encode_unsigned(&mut out, 0x03);
    encode_bytes(&mut out, signature);
    assert(out@ =~= spec_ga_response(id@, auth_data@, signature@));
    out
}

} // verus!
