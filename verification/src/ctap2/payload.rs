//! Request payloads as a client (the simulator, a test) sends them.

use crate::cbor::{
    encode_array_header, encode_bytes, encode_int, encode_map_header, encode_text,
    encode_unsigned, spec_bytes, spec_head, spec_int, spec_text,
};
use crate::cbor::decoder::{parse_bytes, parse_head_of, parse_int, parse_text, parse_unsigned};
use crate::cbor::laws::{lemma_bytes_at, lemma_head_at, lemma_int_at, lemma_text_at, lemma_unsigned_at};
use crate::ctap2::request::{
    alg_entries, alg_field, ga_entries, ga_initial, mc_entries, mc_field, mc_initial,
    parse_get_assertion, parse_make_credential, text_entries, user_field, GaParams, McParams,
};
use crate::status::CtapStatusCode;
use vstd::prelude::*;
use vstd::string::StringSliceAdditionalSpecFns;
use vstd::utf8::{is_ascii_chars, is_ascii_chars_encode_utf8, valid_utf8};

verus! {

/// The `clientDataHash` entry of a `makeCredential` payload.
pub open spec fn mc_cdh_entry(client_data_hash: Seq<u8>) -> Seq<u8> {
    spec_head(0, 1) + spec_bytes(client_data_hash)
}

/// The `rp` entry of a `makeCredential` payload: `2: { "id": rpId }`.
pub open spec fn mc_rp_entry(rp_id: Seq<u8>) -> Seq<u8> {
    spec_head(0, 2) + spec_head(5, 1) + spec_text("id".spec_bytes()) + spec_text(rp_id)
}

/// The `user` entry of a `makeCredential` payload: `3: { "id": userId }`.
pub open spec fn mc_user_entry(user_id: Seq<u8>) -> Seq<u8> {
    spec_head(0, 3) + spec_head(5, 1) + spec_text("id".spec_bytes()) + spec_bytes(user_id)
}

/// The `user` entry of a `makeCredential` payload that also names the
/// user: `3: { "id": userId, "name": name, "displayName": displayName }`.
pub open spec fn mc_user_entry_named(user_id: Seq<u8>, name: Seq<u8>, display_name: Seq<u8>) -> Seq<u8> {
    spec_head(0, 3) + spec_head(5, 3) + spec_text("id".spec_bytes()) + spec_bytes(user_id) + spec_text(
        "name".spec_bytes(),
    ) + spec_text(name) + spec_text("displayName".spec_bytes()) + spec_text(display_name)
}

/// The `pubKeyCredParams` entry of a `makeCredential` payload:
/// `4: [ { "type": "public-key", "alg": -7 } ]`.
pub open spec fn mc_algs_entry() -> Seq<u8> {
    spec_head(0, 4) + spec_head(4, 1) + spec_head(5, 2) + spec_text("type".spec_bytes())
        + spec_text("public-key".spec_bytes()) + spec_text("alg".spec_bytes()) + spec_int(-7i64)
}

/// A `makeCredential` payload: `{ 1: clientDataHash, 2: { "id": rpId },
/// 3: { "id": userId }, 4: [ { "type": "public-key", "alg": -7 } ] }`.
pub open spec fn spec_make_credential_payload(client_data_hash: Seq<u8>, rp_id: Seq<u8>, user_id: Seq<u8>) -> Seq<u8> {
    spec_head(5, 4) + mc_cdh_entry(client_data_hash) + mc_rp_entry(rp_id) + mc_user_entry(user_id)
        + mc_algs_entry()
}

/// A `makeCredential` payload whose `user` entry also carries the user's
/// name and display name.
pub open spec fn spec_make_credential_payload_named(
    client_data_hash: Seq<u8>,
    rp_id: Seq<u8>,
    user_id: Seq<u8>,
    name: Seq<u8>,
    display_name: Seq<u8>,
) -> Seq<u8> {
    spec_head(5, 4) + mc_cdh_entry(client_data_hash) + mc_rp_entry(rp_id) + mc_user_entry_named(
        user_id,
        name,
        display_name,
    ) + mc_algs_entry()
}

/// A `getAssertion` payload: `{ 1: rpId, 2: clientDataHash }`.
pub open spec fn spec_get_assertion_payload(rp_id: Seq<u8>, client_data_hash: Seq<u8>) -> Seq<u8> {
    spec_head(5, 2) + spec_head(0, 1) + spec_text(rp_id) + spec_head(0, 2) + spec_bytes(client_data_hash)
}

/// The `makeCredential` payload a client sends to register `user_id` with
/// the relying party `rp_id`, asking for ES256.
pub fn build_make_credential_payload(client_data_hash: &[u8; 32], rp_id: &str, user_id: &[u8]) -> (out: Vec<u8>)
    ensures
        out@ == spec_make_credential_payload(client_data_hash@, rp_id.spec_bytes(), user_id@),
{
    let mut payload: Vec<u8> = Vec::new();
    encode_map_header(&mut payload, 4);
    let ghost p0 = payload@;
    encode_unsigned(&mut payload, 0x01);
    encode_bytes(&mut payload, client_data_hash);
    assert(payload@ =~= p0 + mc_cdh_entry(client_data_hash@));
    let ghost p1 = payload@;
    encode_unsigned(&mut payload, 0x02);
    encode_map_header(&mut payload, 1);
    encode_text(&mut payload, "id");
    encode_text(&mut payload, rp_id);
    assert(payload@ =~= p1 + mc_rp_entry(rp_id.spec_bytes()));
    let ghost p2 = payload@;
    encode_unsigned(&mut payload, 0x03);
    encode_map_header(&mut payload, 1);
    encode_text(&mut payload, "id");
    encode_bytes(&mut payload, user_id);
    assert(payload@ =~= p2 + mc_user_entry(user_id@));
    let ghost p3 = payload@;
    encode_unsigned(&mut payload, 0x04);
    encode_array_header(&mut payload, 1);
    encode_map_header(&mut payload, 2);
    encode_text(&mut payload, "type");
    encode_text(&mut payload, "public-key");
    encode_text(&mut payload, "alg");
    encode_int(&mut payload, -7);
    assert(payload@ =~= p3 + mc_algs_entry());
    payload
}

/// The `getAssertion` payload a client sends to sign `client_data_hash` for
/// the relying party `rp_id`.
pub fn build_get_assertion_payload(rp_id: &str, client_data_hash: &[u8; 32]) -> (out: Vec<u8>)
    ensures
        out@ == spec_get_assertion_payload(rp_id.spec_bytes(), client_data_hash@),
{
    let mut payload: Vec<u8> = Vec::new();
    encode_map_header(&mut payload, 2);
    encode_unsigned(&mut payload, 0x01);
    encode_text(&mut payload, rp_id);
    encode_unsigned(&mut payload, 0x02);
    encode_bytes(&mut payload, client_data_hash);
    assert(payload@ =~= spec_get_assertion_payload(rp_id.spec_bytes(), client_data_hash@));
    payload
}

/// A `getAssertion` payload built for a relying party and a 32-byte client
/// data hash is read back as exactly those two, with the default options.
pub proof fn law_get_assertion_payload_read_back(rp_id: Seq<u8>, client_data_hash: Seq<u8>)
    requires
        valid_utf8(rp_id),
        rp_id.len() <= u64::MAX,
        client_data_hash.len() == 32,
    ensures
        parse_get_assertion(spec_get_assertion_payload(rp_id, client_data_hash)) == Ok::<
            GaParams,
            CtapStatusCode,
        >(GaParams { rp_id: Some(rp_id), client_data_hash: Some(client_data_hash), ..ga_initial() }),
{
    let s = spec_get_assertion_payload(rp_id, client_data_hash);
    let h0 = spec_head(5, 2);
    let k1 = spec_head(0, 1);
    let t = spec_text(rp_id);
    let k2 = spec_head(0, 2);
    let b = spec_bytes(client_data_hash);
    let o1 = h0.len() as int;
    let o2 = o1 + k1.len();
    let o3 = o2 + t.len();
    let o4 = o3 + k2.len();
    assert(s.len() == o4 + b.len());
    assert(s.subrange(0, o1) =~= h0);
    lemma_head_at(s, 0, 5, 2);
    assert(s.subrange(o1, o2) =~= k1);
    lemma_unsigned_at(s, o1, 1);
    assert(s.subrange(o2, o3) =~= t);
    lemma_text_at(s, o2, rp_id);
    assert(s.subrange(o3, o4) =~= k2);
    lemma_unsigned_at(s, o3, 2);
    assert(s.subrange(o4, s.len() as int) =~= b);
    lemma_bytes_at(s, o4, client_data_hash);
    reveal_with_fuel(ga_entries, 3);
}

/// The bytes of the four texts a `makeCredential` payload names.
proof fn lemma_payload_literals()
    ensures
        "id".spec_bytes() == seq![105u8, 100u8],
        "type".spec_bytes() == seq![116u8, 121u8, 112u8, 101u8],
        "alg".spec_bytes() == seq![97u8, 108u8, 103u8],
        "public-key".spec_bytes().len() == 10,
        "name".spec_bytes() == seq![110u8, 97u8, 109u8, 101u8],
        "displayName".spec_bytes().len() == 11,
        "displayName".spec_bytes()[0] == 100u8,
        valid_utf8("name".spec_bytes()),
        valid_utf8("displayName".spec_bytes()),
        valid_utf8("id".spec_bytes()),
        valid_utf8("type".spec_bytes()),
        valid_utf8("alg".spec_bytes()),
        valid_utf8("public-key".spec_bytes()),
{
    reveal_strlit("id");
    reveal_strlit("type");
    reveal_strlit("alg");
    reveal_strlit("public-key");
    reveal_strlit("name");
    reveal_strlit("displayName");
    assert(is_ascii_chars("name"@));
    assert(is_ascii_chars("displayName"@));
    is_ascii_chars_encode_utf8("name"@);
    is_ascii_chars_encode_utf8("displayName"@);
    vstd::utf8::encode_utf8_valid_utf8("name"@);
    vstd::utf8::encode_utf8_valid_utf8("displayName"@);
    assert("name".spec_bytes() =~= seq![110u8, 97u8, 109u8, 101u8]);
    assert(is_ascii_chars("id"@));
    assert(is_ascii_chars("type"@));
    assert(is_ascii_chars("alg"@));
    assert(is_ascii_chars("public-key"@));
    is_ascii_chars_encode_utf8("id"@);
    is_ascii_chars_encode_utf8("type"@);
    is_ascii_chars_encode_utf8("alg"@);
    is_ascii_chars_encode_utf8("public-key"@);
    vstd::utf8::encode_utf8_valid_utf8("id"@);
    vstd::utf8::encode_utf8_valid_utf8("type"@);
    vstd::utf8::encode_utf8_valid_utf8("alg"@);
    vstd::utf8::encode_utf8_valid_utf8("public-key"@);
    assert("id".spec_bytes() =~= seq![105u8, 100u8]);
    assert("type".spec_bytes() =~= seq![116u8, 121u8, 112u8, 101u8]);
    assert("alg".spec_bytes() =~= seq![97u8, 108u8, 103u8]);
}

/// A window of `s` at `p` that is `a` followed by `b`: `a` stands at `p`
/// and `b` right after it.
proof fn lemma_split_at(s: Seq<u8>, p: int, a: Seq<u8>, b: Seq<u8>)
    requires
        0 <= p,
        p + a.len() + b.len() <= s.len(),
        s.subrange(p, p + a.len() + b.len()) == a + b,
    ensures
        s.subrange(p, p + a.len()) == a,
        s.subrange(p + a.len(), p + a.len() + b.len()) == b,
{
    let t = s.subrange(p, p + a.len() + b.len());
    assert(s.subrange(p, p + a.len()) =~= t.subrange(0, a.len() as int));
    assert(t.subrange(0, a.len() as int) =~= a);
    assert(s.subrange(p + a.len(), p + a.len() + b.len()) =~= t.subrange(a.len() as int, t.len() as int));
    assert(t.subrange(a.len() as int, t.len() as int) =~= b);
}

/// The `clientDataHash` entry, written at `p`, is read back.
proof fn lemma_mc_cdh_read(s: Seq<u8>, p: int, client_data_hash: Seq<u8>, a: McParams)
    requires
        client_data_hash.len() == 32,
        0 <= p,
        p + mc_cdh_entry(client_data_hash).len() <= s.len(),
        s.subrange(p, p + mc_cdh_entry(client_data_hash).len()) == mc_cdh_entry(client_data_hash),
    ensures
        parse_unsigned(s, p) == Ok::<(u64, int), CtapStatusCode>((1, p + 1)),
        mc_field(s, 1, p + 1, a) == Ok::<(McParams, int), CtapStatusCode>(
            (McParams { client_data_hash: Some(client_data_hash), ..a }, p + mc_cdh_entry(client_data_hash).len()),
        ),
{
    lemma_split_at(s, p, spec_head(0, 1), spec_bytes(client_data_hash));
    lemma_unsigned_at(s, p, 1);
    lemma_bytes_at(s, p + 1, client_data_hash);
}

/// The `rp` entry, written at `p`, is read back.
proof fn lemma_mc_rp_read(s: Seq<u8>, p: int, rp_id: Seq<u8>, a: McParams)
    requires
        valid_utf8(rp_id),
        rp_id.len() <= u64::MAX,
        0 <= p,
        p + mc_rp_entry(rp_id).len() <= s.len(),
        s.subrange(p, p + mc_rp_entry(rp_id).len()) == mc_rp_entry(rp_id),
    ensures
        parse_unsigned(s, p) == Ok::<(u64, int), CtapStatusCode>((2, p + 1)),
        mc_field(s, 2, p + 1, a) == Ok::<(McParams, int), CtapStatusCode>(
            (McParams { rp_id: Some(rp_id), ..a }, p + mc_rp_entry(rp_id).len()),
        ),
{
    lemma_payload_literals();
    let id = "id".spec_bytes();
    let y1 = spec_head(0, 2);
    let y2 = spec_head(5, 1);
    let y3 = spec_text(id);
    let y4 = spec_text(rp_id);
    lemma_split_at(s, p, y1 + y2 + y3, y4);
    lemma_split_at(s, p, y1 + y2, y3);
    lemma_split_at(s, p, y1, y2);
    lemma_unsigned_at(s, p, 2);
    lemma_head_at(s, p + 1, 5, 1);
    lemma_text_at(s, p + 2, id);
    lemma_text_at(s, p + 5, rp_id);
    reveal_with_fuel(text_entries, 2);
}

/// The `user` entry, written at `p`, is read back.
proof fn lemma_mc_user_read(s: Seq<u8>, p: int, user_id: Seq<u8>, a: McParams)
    requires
        1 <= user_id.len() <= 64,
        0 <= p,
        p + mc_user_entry(user_id).len() <= s.len(),
        s.subrange(p, p + mc_user_entry(user_id).len()) == mc_user_entry(user_id),
    ensures
        parse_unsigned(s, p) == Ok::<(u64, int), CtapStatusCode>((3, p + 1)),
        mc_field(s, 3, p + 1, a) == Ok::<(McParams, int), CtapStatusCode>(
            (McParams { user_id: Some(user_id), ..a }, p + mc_user_entry(user_id).len()),
        ),
{
    lemma_payload_literals();
    let id = "id".spec_bytes();
    let y1 = spec_head(0, 3);
    let y2 = spec_head(5, 1);
    let y3 = spec_text(id);
    let y4 = spec_bytes(user_id);
    lemma_split_at(s, p, y1 + y2 + y3, y4);
    lemma_split_at(s, p, y1 + y2, y3);
    lemma_split_at(s, p, y1, y2);
    lemma_unsigned_at(s, p, 3);
    lemma_head_at(s, p + 1, 5, 1);
    lemma_text_at(s, p + 2, id);
    lemma_bytes_at(s, p + 5, user_id);
    reveal_with_fuel(text_entries, 2);
}

/// Where the items of the `pubKeyCredParams` entry stand when it is written
/// at `p`, and what is read there.
proof fn lemma_mc_algs_items(s: Seq<u8>, p: int)
    requires
        0 <= p,
        p + mc_algs_entry().len() <= s.len(),
        s.subrange(p, p + mc_algs_entry().len()) == mc_algs_entry(),
    ensures
        mc_algs_entry().len() == 24,
        parse_unsigned(s, p) == Ok::<(u64, int), CtapStatusCode>((4, p + 1)),
        parse_head_of(s, p + 1, 4) == Ok::<(u64, int), CtapStatusCode>((1, p + 2)),
        parse_head_of(s, p + 2, 5) == Ok::<(u64, int), CtapStatusCode>((2, p + 3)),
        parse_text(s, p + 3) == Ok::<(Seq<u8>, int), CtapStatusCode>(("type".spec_bytes(), p + 8)),
        parse_text(s, p + 8) == Ok::<(Seq<u8>, int), CtapStatusCode>(("public-key".spec_bytes(), p + 19)),
        parse_text(s, p + 19) == Ok::<(Seq<u8>, int), CtapStatusCode>(("alg".spec_bytes(), p + 23)),
        parse_int(s, p + 23) == Ok::<(i64, int), CtapStatusCode>((-7i64, p + 24)),
{
    lemma_payload_literals();
    let y1 = spec_head(0, 4);
    let y2 = spec_head(4, 1);
    let y3 = spec_head(5, 2);
    let y4 = spec_text("type".spec_bytes());
    let y5 = spec_text("public-key".spec_bytes());
    let y6 = spec_text("alg".spec_bytes());
    let y7 = spec_int(-7i64);
    lemma_split_at(s, p, y1 + y2 + y3 + y4 + y5 + y6, y7);
    lemma_split_at(s, p, y1 + y2 + y3 + y4 + y5, y6);
    lemma_split_at(s, p, y1 + y2 + y3 + y4, y5);
    lemma_split_at(s, p, y1 + y2 + y3, y4);
    lemma_split_at(s, p, y1 + y2, y3);
    lemma_split_at(s, p, y1, y2);
    assert(y7 == spec_head(1, 6));
    assert(y1.len() == 1 && y2.len() == 1 && y3.len() == 1 && y7.len() == 1);
    assert(y4.len() == 5 && y5.len() == 11 && y6.len() == 4);
    lemma_unsigned_at(s, p, 4);
    lemma_head_at(s, p + 1, 4, 1);
    lemma_head_at(s, p + 2, 5, 2);
    lemma_text_at(s, p + 3, "type".spec_bytes());
    lemma_text_at(s, p + 8, "public-key".spec_bytes());
    lemma_text_at(s, p + 19, "alg".spec_bytes());
    lemma_int_at(s, p + 23, -7i64);
}

/// The `pubKeyCredParams` entry, written at `p`, is read back.
proof fn lemma_mc_algs_read(s: Seq<u8>, p: int, a: McParams)
    requires
        0 <= p,
        p + mc_algs_entry().len() <= s.len(),
        s.subrange(p, p + mc_algs_entry().len()) == mc_algs_entry(),
    ensures
        mc_algs_entry().len() == 24,
        parse_unsigned(s, p) == Ok::<(u64, int), CtapStatusCode>((4, p + 1)),
        mc_field(s, 4, p + 1, a) == Ok::<(McParams, int), CtapStatusCode>(
            (McParams { pub_key_cred_params: Some(seq![("public-key".spec_bytes(), -7i64)]), ..a }, p + 24),
        ),
{
    lemma_mc_algs_items(s, p);
    lemma_payload_literals();
    let ty = "type".spec_bytes();
    let pk = "public-key".spec_bytes();
    let al = "alg".spec_bytes();
    assert(text_entries(s, p + 3, 2, Seq::empty(), (None, None), alg_field(s)) == Ok::<
        ((Option<Seq<u8>>, Option<i64>), int),
        CtapStatusCode,
    >(((Some(pk), Some(-7i64)), p + 24))) by {
        assert(!seq![ty].contains(al)) by {
            if seq![ty].contains(al) {
                assert(seq![ty][0] == al);
            }
        }
        reveal_with_fuel(text_entries, 3);
    }
    assert(alg_entries(s, p + 2, 1, Seq::empty()) == Ok::<(Seq<(Seq<u8>, i64)>, int), CtapStatusCode>(
        (seq![(pk, -7i64)], p + 24),
    )) by {
        reveal_with_fuel(alg_entries, 2);
        assert(Seq::<(Seq<u8>, i64)>::empty().push((pk, -7i64)) =~= seq![(pk, -7i64)]);
    }
}

/// A payload whose header announces four entries, read as keys 1 to 4 with
/// the values given, and nothing after them, is parsed into what they give.
proof fn lemma_mc_entries_read(
    s: Seq<u8>,
    o1: int,
    o2: int,
    o3: int,
    o4: int,
    a1: McParams,
    a2: McParams,
    a3: McParams,
    a4: McParams,
)
    requires
        parse_head_of(s, 0, 5) == Ok::<(u64, int), CtapStatusCode>((4, 1)),
        parse_unsigned(s, 1) == Ok::<(u64, int), CtapStatusCode>((1, 2)),
        mc_field(s, 1, 2, mc_initial()) == Ok::<(McParams, int), CtapStatusCode>((a1, o1)),
        parse_unsigned(s, o1) == Ok::<(u64, int), CtapStatusCode>((2, o1 + 1)),
        mc_field(s, 2, o1 + 1, a1) == Ok::<(McParams, int), CtapStatusCode>((a2, o2)),
        parse_unsigned(s, o2) == Ok::<(u64, int), CtapStatusCode>((3, o2 + 1)),
        mc_field(s, 3, o2 + 1, a2) == Ok::<(McParams, int), CtapStatusCode>((a3, o3)),
        parse_unsigned(s, o3) == Ok::<(u64, int), CtapStatusCode>((4, o3 + 1)),
        mc_field(s, 4, o3 + 1, a3) == Ok::<(McParams, int), CtapStatusCode>((a4, o4)),
        o4 == s.len(),
        a4.client_data_hash is Some,
        a4.rp_id is Some,
        a4.user_id is Some,
        a4.pub_key_cred_params is Some,
    ensures
        parse_make_credential(s) == Ok::<McParams, CtapStatusCode>(a4),
{
    reveal_with_fuel(mc_entries, 5);
    assert(!Set::<u64>::empty().insert(1).insert(2).insert(3).contains(4));
    assert(!Set::<u64>::empty().insert(1).insert(2).contains(3));
    assert(!Set::<u64>::empty().insert(1).contains(2));
}

/// Where the items of the `user` entry that also names the user stand when
/// it is written at `p`, and what is read there.
proof fn lemma_mc_user_named_items(
    s: Seq<u8>,
    p: int,
    user_id: Seq<u8>,
    name: Seq<u8>,
    display_name: Seq<u8>,
) -> (q: (int, int, int, int))
    requires
        1 <= user_id.len() <= 64,
        valid_utf8(name),
        name.len() <= u64::MAX,
        valid_utf8(display_name),
        display_name.len() <= u64::MAX,
        0 <= p,
        p + mc_user_entry_named(user_id, name, display_name).len() <= s.len(),
        s.subrange(p, p + mc_user_entry_named(user_id, name, display_name).len()) == mc_user_entry_named(
            user_id,
            name,
            display_name,
        ),
    ensures
        parse_unsigned(s, p) == Ok::<(u64, int), CtapStatusCode>((3, p + 1)),
        parse_head_of(s, p + 1, 5) == Ok::<(u64, int), CtapStatusCode>((3, p + 2)),
        parse_text(s, p + 2) == Ok::<(Seq<u8>, int), CtapStatusCode>(("id".spec_bytes(), p + 5)),
        parse_bytes(s, p + 5) == Ok::<(Seq<u8>, int), CtapStatusCode>((user_id, q.0)),
        parse_text(s, q.0) == Ok::<(Seq<u8>, int), CtapStatusCode>(("name".spec_bytes(), q.1)),
        parse_text(s, q.1) == Ok::<(Seq<u8>, int), CtapStatusCode>((name, q.2)),
        parse_text(s, q.2) == Ok::<(Seq<u8>, int), CtapStatusCode>(("displayName".spec_bytes(), q.3)),
        parse_text(s, q.3) == Ok::<(Seq<u8>, int), CtapStatusCode>(
            (display_name, p + mc_user_entry_named(user_id, name, display_name).len()),
        ),
{
    lemma_payload_literals();
    let id = "id".spec_bytes();
    let nm = "name".spec_bytes();
    let dn = "displayName".spec_bytes();
    let y1 = spec_head(0, 3);
    let y2 = spec_head(5, 3);
    let y3 = spec_text(id);
    let y4 = spec_bytes(user_id);
    let y5 = spec_text(nm);
    let y6 = spec_text(name);
    let y7 = spec_text(dn);
    let y8 = spec_text(display_name);
    lemma_split_at(s, p, y1 + y2 + y3 + y4 + y5 + y6 + y7, y8);
    lemma_split_at(s, p, y1 + y2 + y3 + y4 + y5 + y6, y7);
    lemma_split_at(s, p, y1 + y2 + y3 + y4 + y5, y6);
    lemma_split_at(s, p, y1 + y2 + y3 + y4, y5);
    lemma_split_at(s, p, y1 + y2 + y3, y4);
    lemma_split_at(s, p, y1 + y2, y3);
    lemma_split_at(s, p, y1, y2);
    let q4 = p + 5;
    let q5 = q4 + y4.len();
    let q6 = q5 + y5.len();
    let q7 = q6 + y6.len();
    let q8 = q7 + y7.len();
    lemma_unsigned_at(s, p, 3);
    lemma_head_at(s, p + 1, 5, 3);
    lemma_text_at(s, p + 2, id);
    lemma_bytes_at(s, q4, user_id);
    lemma_text_at(s, q5, nm);
    lemma_text_at(s, q6, name);
    lemma_text_at(s, q7, dn);
    lemma_text_at(s, q8, display_name);
    (q5, q6, q7, q8)
}

/// The three fields of the user entry that also names the user, each read
/// by the `user` field reader.
proof fn lemma_user_named_fields(
    s: Seq<u8>,
    user_id: Seq<u8>,
    name: Seq<u8>,
    display_name: Seq<u8>,
    q0: int,
    q1: int,
    q2: int,
    q3: int,
    q4: int,
    q5: int,
    a: McParams,
)
    requires
        1 <= user_id.len() <= 64,
        "name".spec_bytes() != "id".spec_bytes(),
        "displayName".spec_bytes() != "id".spec_bytes(),
        "displayName".spec_bytes() != "name".spec_bytes(),
        parse_bytes(s, q0) == Ok::<(Seq<u8>, int), CtapStatusCode>((user_id, q1)),
        parse_text(s, q2) == Ok::<(Seq<u8>, int), CtapStatusCode>((name, q3)),
        parse_text(s, q4) == Ok::<(Seq<u8>, int), CtapStatusCode>((display_name, q5)),
    ensures
        user_field(s)("id".spec_bytes(), q0, a) == Ok::<(McParams, int), CtapStatusCode>(
            (McParams { user_id: Some(user_id), ..a }, q1),
        ),
        user_field(s)("name".spec_bytes(), q2, McParams { user_id: Some(user_id), ..a }) == Ok::<
            (McParams, int),
            CtapStatusCode,
        >((McParams { user_id: Some(user_id), user_name: Some(name), ..a }, q3)),
        user_field(s)("displayName".spec_bytes(), q4, McParams { user_id: Some(user_id), user_name: Some(name), ..a })
            == Ok::<(McParams, int), CtapStatusCode>(
            (McParams { user_id: Some(user_id), user_name: Some(name), ..a }, q5),
        ),
{
}

/// Three text-keyed entries, each read by a field reader, in a map whose
/// keys are distinct.
proof fn lemma_three_entries<A>(
    s: Seq<u8>,
    f: spec_fn(Seq<u8>, int, A) -> Result<(A, int), CtapStatusCode>,
    k0: Seq<u8>,
    k1: Seq<u8>,
    k2: Seq<u8>,
    p0: int,
    v0: int,
    p1: int,
    v1: int,
    p2: int,
    v2: int,
    end: int,
    a0: A,
    a1: A,
    a2: A,
    a3: A,
)
    requires
        k1 != k0,
        k2 != k0,
        k2 != k1,
        parse_text(s, p0) == Ok::<(Seq<u8>, int), CtapStatusCode>((k0, v0)),
        f(k0, v0, a0) == Ok::<(A, int), CtapStatusCode>((a1, p1)),
        parse_text(s, p1) == Ok::<(Seq<u8>, int), CtapStatusCode>((k1, v1)),
        f(k1, v1, a1) == Ok::<(A, int), CtapStatusCode>((a2, p2)),
        parse_text(s, p2) == Ok::<(Seq<u8>, int), CtapStatusCode>((k2, v2)),
        f(k2, v2, a2) == Ok::<(A, int), CtapStatusCode>((a3, end)),
    ensures
        text_entries(s, p0, 3, Seq::empty(), a0, f) == Ok::<(A, int), CtapStatusCode>((a3, end)),
{
    assert(!seq![k0].contains(k1)) by {
        if seq![k0].contains(k1) {
            assert(seq![k0][0] == k1);
        }
    }
    assert(!seq![k0, k1].contains(k2)) by {
        if seq![k0, k1].contains(k2) {
            let k = choose|k: int| 0 <= k < 2 && seq![k0, k1][k] == k2;
            assert(k == 0 || k == 1);
        }
    }
    assert(Seq::<Seq<u8>>::empty().push(k0) =~= seq![k0]);
    assert(seq![k0].push(k1) =~= seq![k0, k1]);
    assert(text_entries(s, p2, 1, seq![k0, k1], a2, f) == Ok::<(A, int), CtapStatusCode>((a3, end))) by {
        reveal_with_fuel(text_entries, 2);
    }
    assert(text_entries(s, p1, 2, seq![k0], a1, f) == Ok::<(A, int), CtapStatusCode>((a3, end)));
}

/// The `user` entry that also names the user, written at `p`, is read back.
#[verifier::rlimit(50)]
proof fn lemma_mc_user_named_read(
    s: Seq<u8>,
    p: int,
    user_id: Seq<u8>,
    name: Seq<u8>,
    display_name: Seq<u8>,
    a: McParams,
)
    requires
        1 <= user_id.len() <= 64,
        valid_utf8(name),
        name.len() <= u64::MAX,
        valid_utf8(display_name),
        display_name.len() <= u64::MAX,
        0 <= p,
        p + mc_user_entry_named(user_id, name, display_name).len() <= s.len(),
        s.subrange(p, p + mc_user_entry_named(user_id, name, display_name).len()) == mc_user_entry_named(
            user_id,
            name,
            display_name,
        ),
    ensures
        parse_unsigned(s, p) == Ok::<(u64, int), CtapStatusCode>((3, p + 1)),
        mc_field(s, 3, p + 1, a) == Ok::<(McParams, int), CtapStatusCode>(
            (
                McParams { user_id: Some(user_id), user_name: Some(name), ..a },
                p + mc_user_entry_named(user_id, name, display_name).len(),
            ),
        ),
{
    let q = lemma_mc_user_named_items(s, p, user_id, name, display_name);
    let end = p + mc_user_entry_named(user_id, name, display_name).len();
    assert("name".spec_bytes() != "id".spec_bytes() && "displayName".spec_bytes() != "id".spec_bytes()
        && "displayName".spec_bytes() != "name".spec_bytes()) by {
        lemma_payload_literals();
        assert("name".spec_bytes().len() != "id".spec_bytes().len());
        assert("displayName".spec_bytes().len() != "id".spec_bytes().len());
        assert("displayName".spec_bytes().len() != "name".spec_bytes().len());
    }
    lemma_user_named_fields(s, user_id, name, display_name, p + 5, q.0, q.1, q.2, q.3, end, a);
    let a1 = McParams { user_id: Some(user_id), ..a };
    let a2 = McParams { user_id: Some(user_id), user_name: Some(name), ..a };
    lemma_three_entries(
        s,
        user_field(s),
        "id".spec_bytes(),
        "name".spec_bytes(),
        "displayName".spec_bytes(),
        p + 2,
        p + 5,
        q.0,
        q.1,
        q.2,
        q.3,
        end,
        a,
        a1,
        a2,
        a2,
    );
}

/// The four entries of a `makeCredential` payload, with the user entry `u`,
/// stand one after the other after its header.
proof fn lemma_mc_payload_windows(client_data_hash: Seq<u8>, rp_id: Seq<u8>, u: Seq<u8>)
    ensures
        ({
            let s = spec_head(5, 4) + mc_cdh_entry(client_data_hash) + mc_rp_entry(rp_id) + u + mc_algs_entry();
            let c = mc_cdh_entry(client_data_hash);
            let r = mc_rp_entry(rp_id);
            let g = mc_algs_entry();
            let o2 = 1 + c.len() as int;
            let o3 = o2 + r.len() as int;
            let o4 = o3 + u.len() as int;
            &&& s.len() == o4 + g.len()
            &&& s.subrange(0, 1) == spec_head(5, 4)
            &&& s.subrange(1, o2) == c
            &&& s.subrange(o2, o3) == r
            &&& s.subrange(o3, o4) == u
            &&& s.subrange(o4, s.len() as int) == g
        }),
{
    let h = spec_head(5, 4);
    let c = mc_cdh_entry(client_data_hash);
    let r = mc_rp_entry(rp_id);
    let g = mc_algs_entry();
    let s = h + c + r + u + g;
    assert(s.subrange(0, s.len() as int) =~= s);
    lemma_split_at(s, 0, h + c + r + u, g);
    lemma_split_at(s, 0, h + c + r, u);
    lemma_split_at(s, 0, h + c, r);
    lemma_split_at(s, 0, h, c);
}

/// A payload holding, one after the other, a header announcing four
/// entries and the four entries that a client builds, the user entry `u`
/// being read as `a3`, is parsed into what they give.
proof fn lemma_mc_payload_parsed(
    s: Seq<u8>,
    client_data_hash: Seq<u8>,
    rp_id: Seq<u8>,
    u: Seq<u8>,
    a3: McParams,
)
    requires
        client_data_hash.len() == 32,
        valid_utf8(rp_id),
        rp_id.len() <= u64::MAX,
        a3.client_data_hash is Some,
        a3.rp_id is Some,
        a3.user_id is Some,
        ({
            let c = mc_cdh_entry(client_data_hash);
            let r = mc_rp_entry(rp_id);
            let g = mc_algs_entry();
            let o2 = 1 + c.len() as int;
            let o3 = o2 + r.len() as int;
            let o4 = o3 + u.len() as int;
            let a2 = (McParams {
                rp_id: Some(rp_id),
                ..(McParams { client_data_hash: Some(client_data_hash), ..mc_initial() })
            });
            &&& s.len() == o4 + g.len()
            &&& s.subrange(0, 1) == spec_head(5, 4)
            &&& s.subrange(1, o2) == c
            &&& s.subrange(o2, o3) == r
            &&& s.subrange(o4, s.len() as int) == g
            &&& parse_unsigned(s, o3) == Ok::<(u64, int), CtapStatusCode>((3, o3 + 1))
            &&& mc_field(s, 3, o3 + 1, a2) == Ok::<(McParams, int), CtapStatusCode>((a3, o4))
        }),
    ensures
        parse_make_credential(s) == Ok::<McParams, CtapStatusCode>(
            McParams { pub_key_cred_params: Some(seq![("public-key".spec_bytes(), -7i64)]), ..a3 },
        ),
{
    let c = mc_cdh_entry(client_data_hash);
    let r = mc_rp_entry(rp_id);
    lemma_head_at(s, 0, 5, 4);
    let a1 = McParams { client_data_hash: Some(client_data_hash), ..mc_initial() };
    let a2 = McParams { rp_id: Some(rp_id), ..a1 };
    let a4 = McParams { pub_key_cred_params: Some(seq![("public-key".spec_bytes(), -7i64)]), ..a3 };
    let o2 = (1 + c.len()) as int;
    let o3 = o2 + r.len();
    let o4 = o3 + u.len();
    lemma_mc_cdh_read(s, 1, client_data_hash, mc_initial());
    lemma_mc_rp_read(s, o2, rp_id, a1);
    lemma_mc_algs_read(s, o4, a3);
    lemma_mc_entries_read(s, o2, o3, o4, s.len() as int, a1, a2, a3, a4);
}

/// A `makeCredential` payload built for a client data hash of 32 bytes, a
/// relying party and a user id of 1 to 64 bytes is read back as exactly
/// those, with ES256 as the only algorithm, an empty exclude list and the
/// default options.
pub proof fn law_make_credential_payload_read_back(
    client_data_hash: Seq<u8>,
    rp_id: Seq<u8>,
    user_id: Seq<u8>,
)
    requires
        client_data_hash.len() == 32,
        valid_utf8(rp_id),
        rp_id.len() <= u64::MAX,
        1 <= user_id.len() <= 64,
    ensures
        parse_make_credential(spec_make_credential_payload(client_data_hash, rp_id, user_id)) == Ok::<
            McParams,
            CtapStatusCode,
        >(
            McParams {
                client_data_hash: Some(client_data_hash),
                rp_id: Some(rp_id),
                user_id: Some(user_id),
                pub_key_cred_params: Some(seq![("public-key".spec_bytes(), -7i64)]),
                ..mc_initial()
            },
        ),
{
    let s = spec_make_credential_payload(client_data_hash, rp_id, user_id);
    let u = mc_user_entry(user_id);
    lemma_mc_payload_windows(client_data_hash, rp_id, u);
    let o3 = (1 + mc_cdh_entry(client_data_hash).len() + mc_rp_entry(rp_id).len()) as int;
    let a2 = McParams { rp_id: Some(rp_id), ..McParams { client_data_hash: Some(client_data_hash), ..mc_initial() } };
    lemma_mc_user_read(s, o3, user_id, a2);
    lemma_mc_payload_parsed(s, client_data_hash, rp_id, u, McParams { user_id: Some(user_id), ..a2 });
}

/// A user entry that also names the user is read as one without the names,
/// and with the name kept: a `makeCredential` payload whose user map carries
/// a text `name` and a text `displayName` beside a valid id is parsed into
/// the parameters of the same payload without them, with `name` as the
/// user's name; the display name is read and set aside.
pub proof fn law_user_names_are_read(
    client_data_hash: Seq<u8>,
    rp_id: Seq<u8>,
    user_id: Seq<u8>,
    name: Seq<u8>,
    display_name: Seq<u8>,
)
    requires
        client_data_hash.len() == 32,
        valid_utf8(rp_id),
        rp_id.len() <= u64::MAX,
        1 <= user_id.len() <= 64,
        valid_utf8(name),
        name.len() <= u64::MAX,
        valid_utf8(display_name),
        display_name.len() <= u64::MAX,
    ensures
        parse_make_credential(spec_make_credential_payload(client_data_hash, rp_id, user_id)) is Ok,
        parse_make_credential(
            spec_make_credential_payload_named(client_data_hash, rp_id, user_id, name, display_name),
        ) == Ok::<McParams, CtapStatusCode>(
            McParams {
                user_name: Some(name),
                ..parse_make_credential(spec_make_credential_payload(client_data_hash, rp_id, user_id))->Ok_0
            },
        ),
{
    law_make_credential_payload_read_back(client_data_hash, rp_id, user_id);
    let s = spec_make_credential_payload_named(client_data_hash, rp_id, user_id, name, display_name);
    let u = mc_user_entry_named(user_id, name, display_name);
    lemma_mc_payload_windows(client_data_hash, rp_id, u);
    let o3 = (1 + mc_cdh_entry(client_data_hash).len() + mc_rp_entry(rp_id).len()) as int;
    let a2 = McParams { rp_id: Some(rp_id), ..McParams { client_data_hash: Some(client_data_hash), ..mc_initial() } };
    lemma_mc_user_named_read(s, o3, user_id, name, display_name, a2);
    lemma_mc_payload_parsed(
        s,
        client_data_hash,
        rp_id,
        u,
        McParams { user_id: Some(user_id), user_name: Some(name), ..a2 },
    );
}

} // verus!
