//! Bytes after a complete request: whatever is read from a request is read
//! the same when more bytes follow it, so a request followed by anything is
//! refused as `InvalidCbor`.

use super::model::{spec_dispatch, AuthenticatorState, EnvAnswers, Refusal};
use super::request::{
    alg_entries, alg_field, descriptor_field, descriptor_ids, discard_text, ga_entries, ga_field,
    ga_initial, ga_option_field, mc_entries, mc_field, mc_initial, mc_option_field,
    parse_get_assertion, parse_make_credential, rp_field, skip_field, text_entries, user_field,
    GaParams, McParams,
};
use crate::cbor::laws::{lemma_head_of_extends, lemma_skip_extends, lemma_string_extends};
use crate::info::AuthenticatorInfo;
use crate::status::CtapStatusCode;
use vstd::prelude::*;

verus! {

/// `f2` reads whatever `f1` reads, and the same.
pub open spec fn reads_alike<A>(
    f1: spec_fn(Seq<u8>, int, A) -> Result<(A, int), CtapStatusCode>,
    f2: spec_fn(Seq<u8>, int, A) -> Result<(A, int), CtapStatusCode>,
) -> bool {
    forall|k: Seq<u8>, p: int, a: A| #[trigger] f1(k, p, a) is Ok ==> f2(k, p, a) == f1(k, p, a)
}

proof fn lemma_skip_field_extends<A>(s: Seq<u8>, t: Seq<u8>, p: int, a: A)
    ensures
        skip_field(s, p, a) is Ok ==> skip_field(s + t, p, a) == skip_field(s, p, a),
        discard_text(s, p, a) is Ok ==> discard_text(s + t, p, a) == discard_text(s, p, a),
{
    if skip_field(s, p, a) is Ok {
        lemma_skip_extends(s, t, p, 1);
    }
    lemma_string_extends(s, t, p);
}

/// The entries of a text-keyed map read from `s` are read the same whatever
/// follows `s`, by a field reader that reads alike.
proof fn lemma_text_entries_extends<A>(
    s: Seq<u8>,
    t: Seq<u8>,
    p: int,
    n: nat,
    seen: Seq<Seq<u8>>,
    acc: A,
    f1: spec_fn(Seq<u8>, int, A) -> Result<(A, int), CtapStatusCode>,
    f2: spec_fn(Seq<u8>, int, A) -> Result<(A, int), CtapStatusCode>,
)
    requires
        reads_alike(f1, f2),
        text_entries(s, p, n, seen, acc, f1) is Ok,
    ensures
        text_entries(s + t, p, n, seen, acc, f2) == text_entries(s, p, n, seen, acc, f1),
    decreases n,
{
    if n > 0 {
        lemma_string_extends(s, t, p);
        let (k, q) = crate::cbor::decoder::parse_text(s, p)->Ok_0;
        assert(f1(k, q, acc) is Ok);
        let (a2, q2) = f1(k, q, acc)->Ok_0;
        lemma_text_entries_extends(s, t, q2, (n - 1) as nat, seen.push(k), a2, f1, f2);
    }
}

proof fn lemma_fields_alike(s: Seq<u8>, t: Seq<u8>)
    ensures
        reads_alike(rp_field(s), rp_field(s + t)),
        reads_alike(user_field(s), user_field(s + t)),
        reads_alike(alg_field(s), alg_field(s + t)),
        reads_alike(mc_option_field(s), mc_option_field(s + t)),
        reads_alike(descriptor_field(s), descriptor_field(s + t)),
        reads_alike(ga_option_field(s), ga_option_field(s + t)),
{
    assert forall|k: Seq<u8>, p: int, a: McParams| #[trigger] rp_field(s)(k, p, a) is Ok implies rp_field(s + t)(
        k,
        p,
        a,
    ) == rp_field(s)(k, p, a) by {
        lemma_string_extends(s, t, p);
        lemma_skip_field_extends(s, t, p, a);
    }
    assert forall|k: Seq<u8>, p: int, a: McParams| #[trigger] user_field(s)(k, p, a) is Ok implies user_field(
        s + t,
    )(k, p, a) == user_field(s)(k, p, a) by {
        lemma_string_extends(s, t, p);
        lemma_skip_field_extends(s, t, p, a);
    }
    assert forall|k: Seq<u8>, p: int, a: (Option<Seq<u8>>, Option<i64>)| #[trigger] alg_field(s)(k, p, a) is Ok implies alg_field(
        s + t,
    )(k, p, a) == alg_field(s)(k, p, a) by {
        lemma_string_extends(s, t, p);
        lemma_head_of_extends(s, t, p);
        lemma_skip_field_extends(s, t, p, a);
    }
    assert forall|k: Seq<u8>, p: int, a: McParams| #[trigger] mc_option_field(s)(k, p, a) is Ok implies mc_option_field(
        s + t,
    )(k, p, a) == mc_option_field(s)(k, p, a) by {
        lemma_string_extends(s, t, p);
        lemma_skip_field_extends(s, t, p, a);
    }
    assert forall|k: Seq<u8>, p: int, a: Option<Seq<u8>>| #[trigger] descriptor_field(s)(k, p, a) is Ok implies descriptor_field(
        s + t,
    )(k, p, a) == descriptor_field(s)(k, p, a) by {
        lemma_string_extends(s, t, p);
        lemma_skip_field_extends(s, t, p, a);
    }
    assert forall|k: Seq<u8>, p: int, a: GaParams| #[trigger] ga_option_field(s)(k, p, a) is Ok implies ga_option_field(
        s + t,
    )(k, p, a) == ga_option_field(s)(k, p, a) by {
        lemma_string_extends(s, t, p);
        lemma_skip_field_extends(s, t, p, a);
    }
}

proof fn lemma_descriptor_ids_extends(s: Seq<u8>, t: Seq<u8>, p: int, n: nat, out: Seq<Seq<u8>>)
    requires
        descriptor_ids(s, p, n, out) is Ok,
    ensures
        descriptor_ids(s + t, p, n, out) == descriptor_ids(s, p, n, out),
    decreases n,
{
    if n > 0 {
        lemma_head_of_extends(s, t, p);
        lemma_fields_alike(s, t);
        let (len, q) = crate::cbor::decoder::parse_head_of(s, p, 5)->Ok_0;
        lemma_text_entries_extends(s, t, q, len as nat, Seq::empty(), None, descriptor_field(s), descriptor_field(s + t));
        let (id, q2) = text_entries(s, q, len as nat, Seq::empty(), None, descriptor_field(s))->Ok_0;
        lemma_descriptor_ids_extends(
            s,
            t,
            q2,
            (n - 1) as nat,
            match id {
                Some(i) => out.push(i),
                None => out,
            },
        );
    }
}

proof fn lemma_alg_entries_extends(s: Seq<u8>, t: Seq<u8>, p: int, n: nat, out: Seq<(Seq<u8>, i64)>)
    requires
        alg_entries(s, p, n, out) is Ok,
    ensures
        alg_entries(s + t, p, n, out) == alg_entries(s, p, n, out),
    decreases n,
{
    if n > 0 {
        lemma_head_of_extends(s, t, p);
        lemma_fields_alike(s, t);
        let (len, q) = crate::cbor::decoder::parse_head_of(s, p, 5)->Ok_0;
        lemma_text_entries_extends(s, t, q, len as nat, Seq::empty(), (None, None), alg_field(s), alg_field(s + t));
        let (e, q2) = text_entries(s, q, len as nat, Seq::empty(), (None, None), alg_field(s))->Ok_0;
        lemma_alg_entries_extends(s, t, q2, (n - 1) as nat, out.push((e.0.unwrap(), e.1.unwrap())));
    }
}

proof fn lemma_mc_field_extends(s: Seq<u8>, t: Seq<u8>, key: u64, p: int, a: McParams)
    requires
        mc_field(s, key, p, a) is Ok,
    ensures
        mc_field(s + t, key, p, a) == mc_field(s, key, p, a),
{
    lemma_head_of_extends(s, t, p);
    lemma_string_extends(s, t, p);
    lemma_skip_field_extends(s, t, p, a);
    lemma_fields_alike(s, t);
    if key == 2 || key == 3 || key == 7 {
        let (len, q) = crate::cbor::decoder::parse_head_of(s, p, 5)->Ok_0;
        if key == 2 {
            lemma_text_entries_extends(s, t, q, len as nat, Seq::empty(), a, rp_field(s), rp_field(s + t));
        } else if key == 3 {
            lemma_text_entries_extends(s, t, q, len as nat, Seq::empty(), a, user_field(s), user_field(s + t));
        } else {
            lemma_text_entries_extends(s, t, q, len as nat, Seq::empty(), a, mc_option_field(s), mc_option_field(s + t));
        }
    } else if key == 4 || key == 5 {
        let (len, q) = crate::cbor::decoder::parse_head_of(s, p, 4)->Ok_0;
        if key == 4 {
            lemma_alg_entries_extends(s, t, q, len as nat, Seq::empty());
        } else {
            lemma_descriptor_ids_extends(s, t, q, len as nat, a.exclude_list);
        }
    }
}

proof fn lemma_mc_entries_extends(s: Seq<u8>, t: Seq<u8>, p: int, n: nat, seen: Set<u64>, a: McParams)
    requires
        mc_entries(s, p, n, seen, a) is Ok,
    ensures
        mc_entries(s + t, p, n, seen, a) == mc_entries(s, p, n, seen, a),
    decreases n,
{
    if n > 0 {
        lemma_head_of_extends(s, t, p);
        let (k, q) = crate::cbor::decoder::parse_unsigned(s, p)->Ok_0;
        lemma_mc_field_extends(s, t, k, q, a);
        let (a2, q2) = mc_field(s, k, q, a)->Ok_0;
        lemma_mc_entries_extends(s, t, q2, (n - 1) as nat, seen.insert(k), a2);
    }
}

proof fn lemma_ga_field_extends(s: Seq<u8>, t: Seq<u8>, key: u64, p: int, a: GaParams)
    requires
        ga_field(s, key, p, a) is Ok,
    ensures
        ga_field(s + t, key, p, a) == ga_field(s, key, p, a),
{
    lemma_head_of_extends(s, t, p);
    lemma_string_extends(s, t, p);
    lemma_skip_field_extends(s, t, p, a);
    lemma_fields_alike(s, t);
    if key == 3 {
        let (len, q) = crate::cbor::decoder::parse_head_of(s, p, 4)->Ok_0;
        lemma_descriptor_ids_extends(s, t, q, len as nat, a.allow_list);
    } else if key == 5 {
        let (len, q) = crate::cbor::decoder::parse_head_of(s, p, 5)->Ok_0;
        lemma_text_entries_extends(s, t, q, len as nat, Seq::empty(), a, ga_option_field(s), ga_option_field(s + t));
    }
}

proof fn lemma_ga_entries_extends(s: Seq<u8>, t: Seq<u8>, p: int, n: nat, seen: Set<u64>, a: GaParams)
    requires
        ga_entries(s, p, n, seen, a) is Ok,
    ensures
        ga_entries(s + t, p, n, seen, a) == ga_entries(s, p, n, seen, a),
    decreases n,
{
    if n > 0 {
        lemma_head_of_extends(s, t, p);
        let (k, q) = crate::cbor::decoder::parse_unsigned(s, p)->Ok_0;
        lemma_ga_field_extends(s, t, k, q, a);
        let (a2, q2) = ga_field(s, k, q, a)->Ok_0;
        lemma_ga_entries_extends(s, t, q2, (n - 1) as nat, seen.insert(k), a2);
    }
}

/// A `makeCredential` or `getAssertion` payload that is read in full is
/// refused as `InvalidCbor` as soon as any byte follows it, and the refused
/// request changes nothing.
pub proof fn law_trailing_bytes_refused(
    st: AuthenticatorState,
    info: AuthenticatorInfo,
    payload: Seq<u8>,
    trailing: Seq<u8>,
    ans: EnvAnswers,
)
    requires
        trailing.len() > 0,
    ensures
        parse_make_credential(payload) is Ok ==> {
            &&& parse_make_credential(payload + trailing) == Err::<McParams, CtapStatusCode>(
                CtapStatusCode::InvalidCbor,
            )
            &&& spec_dispatch(st, info, seq![0x01u8] + (payload + trailing), ans) == (st, Err::<
                Seq<u8>,
                Refusal,
            >(Refusal::Status(CtapStatusCode::InvalidCbor)))
        },
        parse_get_assertion(payload) is Ok ==> {
            &&& parse_get_assertion(payload + trailing) == Err::<GaParams, CtapStatusCode>(
                CtapStatusCode::InvalidCbor,
            )
            &&& spec_dispatch(st, info, seq![0x02u8] + (payload + trailing), ans) == (st, Err::<
                Seq<u8>,
                Refusal,
            >(Refusal::Status(CtapStatusCode::InvalidCbor)))
        },
{
    let u = payload + trailing;
    assert((seq![0x01u8] + u).drop_first() =~= u);
    assert((seq![0x02u8] + u).drop_first() =~= u);
    lemma_head_of_extends(payload, trailing, 0);
    if parse_make_credential(payload) is Ok {
        let (n, q) = crate::cbor::decoder::parse_head_of(payload, 0, 5)->Ok_0;
        lemma_mc_entries_extends(payload, trailing, q, n as nat, Set::empty(), mc_initial());
    }
    if parse_get_assertion(payload) is Ok {
        let (n, q) = crate::cbor::decoder::parse_head_of(payload, 0, 5)->Ok_0;
        lemma_ga_entries_extends(payload, trailing, q, n as nat, Set::empty(), ga_initial());
    }
}

} // verus!
