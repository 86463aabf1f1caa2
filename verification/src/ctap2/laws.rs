//! Properties of the authenticator that hold over every request and every
//! answer of the environment.

use super::model::{
    candidates, first_with_id, has_id, is_candidate, lemma_candidates_are_stored,
    lemma_first_with_id, spec_dispatch, spec_get_assertion,
    spec_get_next_assertion, spec_make_credential, AuthenticatorState, EnvAnswers, Refusal,
    StoredModel, unwrap_or_u32,
};
use super::payload::{
    law_get_assertion_payload_read_back, law_make_credential_payload_read_back,
    spec_get_assertion_payload, spec_make_credential_payload,
};
use super::request::{parse_get_assertion, parse_make_credential};
use super::response::{sha256_digest, spec_auth_data, spec_ga_response};
use crate::algorithm::spec_from_cose_id;
use crate::env::SecureEnvironment;
use crate::info::AuthenticatorInfo;
use super::Ctap2;
use crate::status::CtapStatusCode;
use vstd::prelude::*;
use vstd::utf8::valid_utf8;

verus! {

/// `getInfo` and `clientPIN` never change the state.
pub proof fn law_queries_change_nothing(
    st: AuthenticatorState,
    info: AuthenticatorInfo,
    request: Seq<u8>,
    ans: EnvAnswers,
)
    requires
        request.len() > 0,
        request[0] == 0x04 || request[0] == 0x06,
    ensures
        spec_dispatch(st, info, request, ans).0 == st,
{
}

/// The signature counter never goes back, except through `reset`; every
/// successful `makeCredential`, `getAssertion` and `getNextAssertion`
/// advances it by one.
pub proof fn law_counter_monotonic(
    st: AuthenticatorState,
    info: AuthenticatorInfo,
    request: Seq<u8>,
    ans: EnvAnswers,
)
    requires
        request.len() > 0,
        request[0] != 0x07,
    ensures
        spec_dispatch(st, info, request, ans).0.counter >= st.counter,
        spec_dispatch(st, info, request, ans).1 is Ok && (request[0] == 0x01 || request[0] == 0x02
            || request[0] == 0x08) ==> spec_dispatch(st, info, request, ans).0.counter == st.counter + 1,
{
}

/// Whether `after` keeps the id, relying party and user of every
/// credential of `before`, in order, adding at most one.
pub open spec fn keeps_credentials(before: Seq<StoredModel>, after: Seq<StoredModel>) -> bool {
    &&& before.len() <= after.len() <= before.len() + 1
    &&& forall|k: int|
        0 <= k < before.len() ==> (#[trigger] after[k]).id == before[k].id && after[k].rp_id
            == before[k].rp_id && after[k].user_id == before[k].user_id
}

proof fn lemma_make_credential_keeps(st: AuthenticatorState, info: AuthenticatorInfo, payload: Seq<u8>, ans: EnvAnswers)
    ensures
        keeps_credentials(st.credentials, spec_make_credential(st, info, payload, ans).0.credentials),
{
}

proof fn lemma_get_assertion_keeps(st: AuthenticatorState, info: AuthenticatorInfo, payload: Seq<u8>, ans: EnvAnswers)
    ensures
        keeps_credentials(st.credentials, spec_get_assertion(st, info, payload, ans).0.credentials),
{
    if payload.len() > 0 {
        match parse_get_assertion(payload) {
            Ok(p) => {
                let cands = candidates(st.credentials, p.rp_id.unwrap(), p.allow_list);
                if cands.len() > 0 {
                    lemma_candidates_are_stored(st.credentials, p.rp_id.unwrap(), p.allow_list, 0);
                    let c = choose|c: int| 0 <= c < st.credentials.len() && st.credentials[c] == cands[0];
                    assert(has_id(st.credentials, cands[0].id)) by {
                        assert(st.credentials[c].id == cands[0].id);
                    }
                    lemma_first_with_id(st.credentials, cands[0].id);
                    let k = first_with_id(st.credentials, cands[0].id);
                    let st2 = spec_get_assertion(st, info, payload, ans).0;
                    assert forall|j: int| 0 <= j < st.credentials.len() implies (#[trigger] st2.credentials[j]).id
                        == st.credentials[j].id && st2.credentials[j].rp_id == st.credentials[j].rp_id
                        && st2.credentials[j].user_id == st.credentials[j].user_id by {
                        if j == k {
                        }
                    }
                }
            },
            Err(_) => {},
        }
    }
}

/// Apart from `reset`, no request removes or alters a stored credential's
/// id, relying party or user: the old credentials stay, in order, and at
/// most one is added.
pub proof fn law_credentials_persist(
    st: AuthenticatorState,
    info: AuthenticatorInfo,
    request: Seq<u8>,
    ans: EnvAnswers,
)
    requires
        request.len() > 0,
        request[0] != 0x07,
    ensures
        keeps_credentials(st.credentials, spec_dispatch(st, info, request, ans).0.credentials),
{
    let payload = request.drop_first();
    lemma_make_credential_keeps(st, info, payload, ans);
    lemma_get_assertion_keeps(st, info, payload, ans);
}

/// A request refused with a status leaves the stored credentials as they
/// were; a refused `getAssertion`, `getInfo`, `clientPIN` or `reset` leaves
/// the whole state as it was.
pub proof fn law_refusal_keeps_credentials(
    st: AuthenticatorState,
    info: AuthenticatorInfo,
    request: Seq<u8>,
    ans: EnvAnswers,
)
    ensures
        spec_dispatch(st, info, request, ans).1 is Err ==> spec_dispatch(st, info, request, ans).0.credentials
            == st.credentials,
        spec_dispatch(st, info, request, ans).1 is Err && request.len() > 0 && (request[0] == 0x02
            || request[0] == 0x04 || request[0] == 0x06 || request[0] == 0x07) ==> spec_dispatch(
            st,
            info,
            request,
            ans,
        ).0 == st,
{
}

/// `reset` with user presence forgets every credential, the counter and the
/// queued assertions; afterwards no assertion can be made and none is queued.
pub proof fn law_reset_forgets(
    st: AuthenticatorState,
    info: AuthenticatorInfo,
    ans: EnvAnswers,
    ga_payload: Seq<u8>,
    ans2: EnvAnswers,
)
    requires
        ans.presence == Some(true),
        parse_get_assertion(ga_payload) is Ok,
        !(parse_get_assertion(ga_payload).unwrap().uv && !info.options.uv),
        parse_get_assertion(ga_payload).unwrap().up ==> ans2.presence == Some(true),
    ensures
        ({
            let (st2, r) = spec_dispatch(st, info, seq![0x07u8], ans);
            &&& r == Ok::<Seq<u8>, Refusal>(seq![0u8])
            &&& st2 == AuthenticatorState { counter: 0, credentials: Seq::empty(), pending: Seq::empty() }
            &&& spec_get_assertion(st2, info, ga_payload, ans2).1 == Err::<Seq<u8>, Refusal>(
                Refusal::Status(CtapStatusCode::NoCredentials),
            )
            &&& spec_get_next_assertion(st2, Seq::empty()).1 == Err::<Seq<u8>, Refusal>(
                Refusal::Status(CtapStatusCode::NotAllowed),
            )
        }),
{
    let st2 = spec_dispatch(st, info, seq![0x07u8], ans).0;
    assert(seq![0x07u8].drop_first() =~= Seq::<u8>::empty());
    let p = parse_get_assertion(ga_payload).unwrap();
    assert(ga_payload.len() > 0);
    reveal(Seq::filter);
    assert(candidates(st2.credentials, p.rp_id.unwrap(), p.allow_list) =~= Seq::<StoredModel>::empty());
}

/// A successful `makeCredential` stores exactly one new credential, for the
/// RP and user of the request, after the ones already stored, with the
/// advanced counter.
pub proof fn law_make_credential_stores(
    st: AuthenticatorState,
    info: AuthenticatorInfo,
    payload: Seq<u8>,
    ans: EnvAnswers,
)
    requires
        spec_make_credential(st, info, payload, ans).1 is Ok,
    ensures
        ({
            let st2 = spec_make_credential(st, info, payload, ans).0;
            let p = parse_make_credential(payload).unwrap();
            &&& parse_make_credential(payload) is Ok
            &&& st2.counter == st.counter + 1
            &&& st2.credentials.len() == st.credentials.len() + 1
            &&& st2.credentials.drop_last() == st.credentials
            &&& st2.credentials.last().rp_id == p.rp_id.unwrap()
            &&& st2.credentials.last().user_id == p.user_id.unwrap()
            &&& st2.credentials.last().counter == st2.counter
            &&& st2.pending == st.pending
        }),
{
    let st2 = spec_make_credential(st, info, payload, ans).0;
    assert(st2.credentials.drop_last() =~= st.credentials);
}

/// A credential made for an RP can then be asserted for that RP: a
/// `getAssertion` for the same RP without an allow list, with user presence
/// where it is asked for and before the counter is exhausted, succeeds.
pub proof fn law_make_then_assert(
    st: AuthenticatorState,
    info: AuthenticatorInfo,
    mc_payload: Seq<u8>,
    ans: EnvAnswers,
    ga_payload: Seq<u8>,
    ans2: EnvAnswers,
)
    requires
        spec_make_credential(st, info, mc_payload, ans).1 is Ok,
        parse_get_assertion(ga_payload) is Ok,
        parse_get_assertion(ga_payload).unwrap().rp_id == parse_make_credential(mc_payload).unwrap().rp_id,
        parse_get_assertion(ga_payload).unwrap().allow_list.len() == 0,
        !(parse_get_assertion(ga_payload).unwrap().uv && !info.options.uv),
        parse_get_assertion(ga_payload).unwrap().up ==> ans2.presence == Some(true),
        spec_make_credential(st, info, mc_payload, ans).0.counter < u32::MAX,
    ensures
        spec_get_assertion(spec_make_credential(st, info, mc_payload, ans).0, info, ga_payload, ans2).1 is Ok,
{
    law_make_credential_stores(st, info, mc_payload, ans);
    let st1 = spec_make_credential(st, info, mc_payload, ans).0;
    let g = parse_get_assertion(ga_payload).unwrap();
    let rp = g.rp_id.unwrap();
    let n = st1.credentials.len();
    let pred = |c: StoredModel| is_candidate(c, rp, g.allow_list);
    assert(ga_payload.len() > 0);
    assert(pred(st1.credentials[n - 1]));
    st1.credentials.lemma_filter_contains(pred, n - 1);
    assert(candidates(st1.credentials, rp, g.allow_list).len() > 0);
}

/// Once a credential of an RP is stored, a `makeCredential` for that RP
/// whose exclude list names it is refused with `CredentialExcluded` (unless
/// it is refused earlier for want of a supported algorithm), and nothing changes.
pub proof fn law_excluded_credential_refused(
    st: AuthenticatorState,
    info: AuthenticatorInfo,
    payload: Seq<u8>,
    ans: EnvAnswers,
    k: int,
    j: int,
)
    requires
        parse_make_credential(payload) is Ok,
        0 <= k < st.credentials.len(),
        0 <= j < parse_make_credential(payload).unwrap().exclude_list.len(),
        parse_make_credential(payload).unwrap().exclude_list[j] == st.credentials[k].id,
        parse_make_credential(payload).unwrap().rp_id == Some(st.credentials[k].rp_id),
        exists|a: int|
            0 <= a < parse_make_credential(payload).unwrap().pub_key_cred_params.unwrap().len()
                && #[trigger] spec_from_cose_id(
                parse_make_credential(payload).unwrap().pub_key_cred_params.unwrap()[a].1 as int,
            ) is Some,
    ensures
        spec_make_credential(st, info, payload, ans) == (st, Err::<Seq<u8>, Refusal>(
            Refusal::Status(CtapStatusCode::CredentialExcluded),
        )),
{
    let p = parse_make_credential(payload).unwrap();
    assert(payload.len() > 0);
    assert(st.credentials[k].id == p.exclude_list[j]);
}

/// The flow a client runs: a `makeCredential` request it builds for a
/// relying party, answered with the user present and fresh randomness,
/// succeeds and stores a credential for that relying party and user; a
/// `getAssertion` request it then builds for the same relying party succeeds
/// when the user is present.
pub proof fn law_client_register_then_sign(
    st: AuthenticatorState,
    info: AuthenticatorInfo,
    client_data_hash: Seq<u8>,
    rp_id: Seq<u8>,
    user_id: Seq<u8>,
    ans: EnvAnswers,
    client_data_hash2: Seq<u8>,
    ans2: EnvAnswers,
)
    requires
        client_data_hash.len() == 32,
        client_data_hash2.len() == 32,
        valid_utf8(rp_id),
        rp_id.len() <= u64::MAX,
        1 <= user_id.len() <= 64,
        ans.presence == Some(true),
        ans.id_random is Some,
        ans.x_random is Some,
        ans.y_random is Some,
        ans2.presence == Some(true),
        st.counter + 1 < u32::MAX,
        unwrap_or_u32(info.max_credential_id_length, 128) >= 16,
    ensures
        ({
            let mc = seq![0x01u8] + spec_make_credential_payload(client_data_hash, rp_id, user_id);
            let ga = seq![0x02u8] + spec_get_assertion_payload(rp_id, client_data_hash2);
            let (st1, r1) = spec_dispatch(st, info, mc, ans);
            &&& r1 is Ok
            &&& st1.credentials.len() == st.credentials.len() + 1
            &&& st1.credentials.last().rp_id == rp_id
            &&& st1.credentials.last().user_id == user_id
            &&& spec_dispatch(st1, info, ga, ans2).1 is Ok
        }),
{
    let mcp = spec_make_credential_payload(client_data_hash, rp_id, user_id);
    let gap = spec_get_assertion_payload(rp_id, client_data_hash2);
    assert((seq![0x01u8] + mcp).drop_first() =~= mcp);
    assert((seq![0x02u8] + gap).drop_first() =~= gap);
    law_make_credential_payload_read_back(client_data_hash, rp_id, user_id);
    law_get_assertion_payload_read_back(rp_id, client_data_hash2);
    let p = parse_make_credential(mcp).unwrap();
    assert(spec_from_cose_id(p.pub_key_cred_params.unwrap()[0].1 as int) is Some);
    assert(mcp.len() > 0);
    assert(spec_make_credential(st, info, mcp, ans).1 is Ok);
    law_make_credential_stores(st, info, mcp, ans);
    law_make_then_assert(st, info, mcp, ans, gap, ans2);
}

/// The reported information never changes: along any run of authenticators
/// in which each step keeps it (as `dispatch` and `reset_counter` do), every
/// authenticator reports what the first one did.
pub proof fn law_info_never_changes<E: SecureEnvironment>(cs: Seq<Ctap2<E>>)
    requires
        forall|i: int| 0 <= i < cs.len() - 1 ==> cs[i + 1].spec_info() == (#[trigger] cs[i]).spec_info(),
    ensures
        forall|j: int| 0 <= j < cs.len() ==> (#[trigger] cs[j]).spec_info() == cs[0].spec_info(),
    decreases cs.len(),
{
    if cs.len() > 1 {
        let front = cs.drop_last();
        assert forall|i: int| 0 <= i < front.len() - 1 implies front[i + 1].spec_info() == (
        #[trigger] front[i]).spec_info() by {
            assert(front[i + 1] == cs[i + 1] && front[i] == cs[i]);
        }
        law_info_never_changes(front);
        assert forall|j: int| 0 <= j < cs.len() implies (#[trigger] cs[j]).spec_info() == cs[0].spec_info() by {
            if j < cs.len() - 1 {
                assert(front[j] == cs[j] && front[0] == cs[0]);
            } else if j > 0 {
                assert(front[j - 1] == cs[j - 1] && front[0] == cs[0]);
                assert(cs[j - 1].spec_info() == cs[0].spec_info());
            }
        }
    }
}

/// Every candidate of a `getAssertion` is a credential of the requested RP
/// that the allow list, when it has entries, names.
proof fn lemma_candidate_matches(creds: Seq<StoredModel>, rp: Seq<u8>, allow: Seq<Seq<u8>>, i: int)
    requires
        0 <= i < candidates(creds, rp, allow).len(),
    ensures
        is_candidate(candidates(creds, rp, allow)[i], rp, allow),
    decreases creds.len(),
{
    reveal(Seq::filter);
    let pred = |c: StoredModel| is_candidate(c, rp, allow);
    if creds.len() > 0 {
        let rest = creds.drop_last().filter(pred);
        if i < rest.len() {
            lemma_candidate_matches(creds.drop_last(), rp, allow, i);
        }
    }
}

/// A stored credential of the requested RP whose id stands anywhere in the
/// allow list answers `getAssertion`: with user verification not asked of an
/// authenticator without it, presence given where asked, and room on the
/// counter, the request succeeds.
pub proof fn law_allowed_credential_answers(
    st: AuthenticatorState,
    info: AuthenticatorInfo,
    payload: Seq<u8>,
    ans: EnvAnswers,
    k: int,
    j: int,
)
    requires
        parse_get_assertion(payload) is Ok,
        0 <= k < st.credentials.len(),
        0 <= j < parse_get_assertion(payload)->Ok_0.allow_list.len(),
        parse_get_assertion(payload)->Ok_0.allow_list[j] == st.credentials[k].id,
        parse_get_assertion(payload)->Ok_0.rp_id == Some(st.credentials[k].rp_id),
        !(parse_get_assertion(payload)->Ok_0.uv && !info.options.uv),
        parse_get_assertion(payload)->Ok_0.up ==> ans.presence == Some(true),
        st.counter < u32::MAX,
    ensures
        spec_dispatch(st, info, seq![0x02u8] + payload, ans).1 is Ok,
{
    assert((seq![0x02u8] + payload).drop_first() =~= payload);
    assert(payload.len() > 0);
    let p = parse_get_assertion(payload)->Ok_0;
    let rp = p.rp_id.unwrap();
    let pred = |c: StoredModel| is_candidate(c, rp, p.allow_list);
    assert(p.allow_list.contains(st.credentials[k].id));
    assert(pred(st.credentials[k]));
    st.credentials.lemma_filter_contains(pred, k);
    assert(candidates(st.credentials, rp, p.allow_list).len() > 0);
}

/// The authenticator data of every assertion, from `getAssertion` or
/// `getNextAssertion`, begins with the SHA-256 of the relying-party id of a
/// stored credential that has the asserted id; for `getAssertion` that
/// relying party is the one requested.
pub proof fn law_assertion_names_rp(st: AuthenticatorState, info: AuthenticatorInfo, request: Seq<u8>, ans: EnvAnswers)
    requires
        request.len() > 0,
        request[0] == 0x02 || request[0] == 0x08,
        spec_dispatch(st, info, request, ans).1 is Ok,
    ensures
        exists|k: int, rest: Seq<u8>, sig: Seq<u8>|
            0 <= k < st.credentials.len() && spec_dispatch(st, info, request, ans).1 == Ok::<Seq<u8>, Refusal>(
                #[trigger] spec_ga_response(st.credentials[k].id, sha256_digest(st.credentials[k].rp_id) + rest, sig),
            ) && (request[0] == 0x02 ==> Some(st.credentials[k].rp_id) == parse_get_assertion(
                request.drop_first(),
            )->Ok_0.rp_id),
{
    let payload = request.drop_first();
    if request[0] == 0x02 {
        let p = parse_get_assertion(payload)->Ok_0;
        let rp = p.rp_id.unwrap();
        let cands = candidates(st.credentials, rp, p.allow_list);
        lemma_candidates_are_stored(st.credentials, rp, p.allow_list, 0);
        lemma_candidate_matches(st.credentials, rp, p.allow_list, 0);
        let k = choose|k: int| 0 <= k < st.credentials.len() && st.credentials[k] == cands[0];
        let ctr = (st.counter + 1) as u32;
        let ad = spec_auth_data(rp, super::model::ga_flags(p.uv), ctr, None);
        let rest = seq![super::model::ga_flags(p.uv)] + crate::cbor::be4(ctr as u64);
        assert(ad =~= sha256_digest(st.credentials[k].rp_id) + rest);
        let sig = super::model::spec_signature(ad, p.client_data_hash.unwrap());
        assert(spec_dispatch(st, info, request, ans).1 == Ok::<Seq<u8>, Refusal>(
            spec_ga_response(st.credentials[k].id, sha256_digest(st.credentials[k].rp_id) + rest, sig),
        ));
    } else {
        let (id, sig) = st.pending[0];
        lemma_first_with_id(st.credentials, id);
        let k = first_with_id(st.credentials, id);
        let ctr = (st.counter + 1) as u32;
        let rest = seq![0x01u8] + crate::cbor::be4(ctr as u64);
        let ad = spec_auth_data(st.credentials[k].rp_id, 0x01u8, ctr, None);
        assert(ad =~= sha256_digest(st.credentials[k].rp_id) + rest);
        assert(spec_dispatch(st, info, request, ans).1 == Ok::<Seq<u8>, Refusal>(
            spec_ga_response(st.credentials[k].id, sha256_digest(st.credentials[k].rp_id) + rest, sig),
        ));
    }
}

} // verus!
