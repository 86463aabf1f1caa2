//! The authenticator as a state machine: what each command answers and how
//! it changes the stored credentials, the signature counter and the queue of
//! further assertions, given what the environment answered.

use super::request::{client_pin_status, parse_get_assertion, parse_make_credential};
use super::response::{
    sha256_digest, spec_auth_data, spec_ga_response, spec_info_response, spec_mc_response,
};
use crate::algorithm::spec_from_cose_id;
use crate::info::AuthenticatorInfo;
use crate::status::CtapStatusCode;
use vstd::prelude::*;

verus! {

/// A stored credential: its id, relying party, user handle, signature
/// counter at its last use, and public-key coordinates.
pub ghost struct StoredModel {
    pub id: Seq<u8>,
    pub rp_id: Seq<u8>,
    pub user_id: Seq<u8>,
    pub counter: u32,
    pub cose_x: Seq<u8>,
    pub cose_y: Seq<u8>,
}

/// The state of the authenticator: the global signature counter, the stored
/// credentials in the order they were made, and the (credential id,
/// signature) pairs left for `getNextAssertion`.
pub ghost struct AuthenticatorState {
    pub counter: u32,
    pub credentials: Seq<StoredModel>,
    pub pending: Seq<(Seq<u8>, Seq<u8>)>,
}

/// What the environment answered during a command: user presence (`None`
/// when the check failed), and the random bytes for a credential id and for
/// the two key coordinates (`None` when the generator failed).
pub ghost struct EnvAnswers {
    pub presence: Option<bool>,
    pub id_random: Option<Seq<u8>>,
    pub x_random: Option<Seq<u8>>,
    pub y_random: Option<Seq<u8>>,
}

impl EnvAnswers {
    /// Random answers have the lengths asked for: 16 bytes for an id, 32 for a coordinate.
    pub open spec fn wf(self) -> bool {
        &&& (self.id_random matches Some(r) ==> r.len() == 16)
        &&& (self.x_random matches Some(r) ==> r.len() == 32)
        &&& (self.y_random matches Some(r) ==> r.len() == 32)
    }
}

/// Why a command was refused: the environment failed, a CTAP status, or the
/// request had no command byte.
pub ghost enum Refusal {
    Environment,
    Status(CtapStatusCode),
    Malformed,
}

/// The result of a command: the response bytes or the refusal.
pub type Outcome = (AuthenticatorState, Result<Seq<u8>, Refusal>);

pub open spec fn refuse(st: AuthenticatorState, c: CtapStatusCode) -> Outcome {
    (st, Err(Refusal::Status(c)))
}

pub open spec fn unwrap_or_u32(o: Option<u32>, d: u32) -> u32 {
    match o {
        Some(v) => v,
        None => d,
    }
}

/// Whether `id` names a stored credential.
pub open spec fn has_id(creds: Seq<StoredModel>, id: Seq<u8>) -> bool {
    exists|k: int| 0 <= k < creds.len() && #[trigger] creds[k].id == id
}

/// Whether `k` is the first stored credential with id `id`.
pub open spec fn is_first_with_id(creds: Seq<StoredModel>, id: Seq<u8>, k: int) -> bool {
    &&& 0 <= k < creds.len()
    &&& creds[k].id == id
    &&& forall|j: int| 0 <= j < k ==> #[trigger] creds[j].id != id
}

/// The index of the first stored credential with id `id`.
pub open spec fn first_with_id(creds: Seq<StoredModel>, id: Seq<u8>) -> int {
    choose|k: int| is_first_with_id(creds, id, k)
}

/// The flags of `makeCredential` authenticator data: user present and
/// attested credential data, plus user verified when it was asked for.
pub open spec fn mc_flags(uv: bool) -> u8 {
    if uv { 0x45u8 } else { 0x41u8 }
}

/// The flags of `getAssertion` authenticator data: user present, plus user
/// verified when it was asked for.
pub open spec fn ga_flags(uv: bool) -> u8 {
    if uv { 0x05u8 } else { 0x01u8 }
}

/// A credential id: the random bytes with the two low bytes of the counter
/// mixed into the first two.
pub open spec fn spec_credential_id(rnd: Seq<u8>, ctr: u32) -> Seq<u8> {
    rnd.update(0, rnd[0] ^ ((ctr & 0xff) as u8)).update(1, rnd[1] ^ (((ctr >> 8u32) & 0xff) as u8))
}

/// `getInfo`: the encoded information; nothing changes.
pub open spec fn spec_get_info(st: AuthenticatorState, info: AuthenticatorInfo, payload: Seq<u8>) -> Outcome {
    if payload.len() != 0 {
        refuse(st, CtapStatusCode::InvalidLength)
    } else {
        (st, Ok(spec_info_response(info)))
    }
}

/// `reset`: with user presence, every credential, the counter and the
/// pending assertions are cleared.
pub open spec fn spec_reset(st: AuthenticatorState, payload: Seq<u8>, ans: EnvAnswers) -> Outcome {
    if payload.len() != 0 {
        refuse(st, CtapStatusCode::InvalidLength)
    } else {
        match ans.presence {
            None => (st, Err(Refusal::Environment)),
            Some(false) => refuse(st, CtapStatusCode::OperationDenied),
            Some(true) => (
                AuthenticatorState { counter: 0, credentials: Seq::empty(), pending: Seq::empty() },
                Ok(seq![0u8]),
            ),
        }
    }
}

/// The checks of `makeCredential` that come before user presence, on
/// decoded parameters: a supported algorithm, no excluded credential of the
/// same RP, room for a resident key, and no user verification asked of an
/// authenticator without it.
pub open spec fn mc_precheck(
    st: AuthenticatorState,
    info: AuthenticatorInfo,
    p: super::request::McParams,
) -> Option<CtapStatusCode> {
    let algs = p.pub_key_cred_params.unwrap();
    let rp = p.rp_id.unwrap();
    if !(exists|j: int| 0 <= j < algs.len() && #[trigger] spec_from_cose_id(algs[j].1 as int) is Some) {
        Some(CtapStatusCode::UnsupportedAlgorithm)
    } else if exists|j: int, c: int|
        0 <= j < p.exclude_list.len() && 0 <= c < st.credentials.len()
            && #[trigger] st.credentials[c].id == #[trigger] p.exclude_list[j]
            && st.credentials[c].rp_id == rp {
        Some(CtapStatusCode::CredentialExcluded)
    } else if p.rk && (st.credentials.len() >= unwrap_or_u32(info.remaining_discoverable_credentials, 25)
        || st.credentials.len() >= unwrap_or_u32(info.max_credential_count_in_list, 8) * 3) {
        Some(CtapStatusCode::KeyStoreFull)
    } else if p.uv && !info.options.uv {
        Some(CtapStatusCode::UnsupportedOption)
    } else {
        None
    }
}

/// `makeCredential`: after the request is decoded and checked, user presence
/// is asked for if requested, the PIN parameters are checked, a fresh id is
/// drawn and the counter advanced, the key coordinates are drawn, and the
/// new credential is stored and returned in attested authenticator data.
pub open spec fn spec_make_credential(
    st: AuthenticatorState,
    info: AuthenticatorInfo,
    payload: Seq<u8>,
    ans: EnvAnswers,
) -> Outcome {
    if payload.len() == 0 {
        refuse(st, CtapStatusCode::MissingParameter)
    } else {
        match parse_make_credential(payload) {
            Err(e) => refuse(st, e),
            Ok(p) => match mc_precheck(st, info, p) {
                Some(e) => refuse(st, e),
                None => if p.up && ans.presence != Some(true) {
                    if ans.presence is None {
                        (st, Err(Refusal::Environment))
                    } else {
                        refuse(st, CtapStatusCode::OperationDenied)
                    }
                } else if p.pin_uv_auth_param is Some && p.pin_uv_auth_protocol != Some(1u32) {
                    refuse(st, CtapStatusCode::PinAuthInvalid)
                } else if p.pin_uv_auth_param is Some && info.options.client_pin == Some(false) {
                    refuse(st, CtapStatusCode::PinNotSet)
                } else {
                    match ans.id_random {
                        None => (st, Err(Refusal::Environment)),
                        Some(rnd) => if st.counter == u32::MAX {
                            refuse(st, CtapStatusCode::KeyStoreFull)
                        } else {
                            let ctr = (st.counter + 1) as u32;
                            let st1 = AuthenticatorState { counter: ctr, ..st };
                            let id = spec_credential_id(rnd, ctr);
                            if 16 > unwrap_or_u32(info.max_credential_id_length, 128) {
                                refuse(st1, CtapStatusCode::LimitExceeded)
                            } else {
                                match (ans.x_random, ans.y_random) {
                                    (Some(x), Some(y)) => {
                                        let rp = p.rp_id.unwrap();
                                        let ad = spec_auth_data(rp, mc_flags(p.uv), ctr, Some((info.aaguid@, id, x, y)));
                                        let cred = StoredModel {
                                            id,
                                            rp_id: rp,
                                            user_id: p.user_id.unwrap(),
                                            counter: ctr,
                                            cose_x: x,
                                            cose_y: y,
                                        };
                                        (
                                            AuthenticatorState { credentials: st.credentials.push(cred), ..st1 },
                                            Ok(spec_mc_response(ad)),
                                        )
                                    },
                                    _ => (st1, Err(Refusal::Environment)),
                                }
                            }
                        },
                    }
                },
            },
        }
    }
}

/// Whether a stored credential answers a `getAssertion` for `rp` with
/// allow list `allow` (an empty list allows every credential of the RP).
pub open spec fn is_candidate(c: StoredModel, rp: Seq<u8>, allow: Seq<Seq<u8>>) -> bool {
    c.rp_id == rp && (allow.len() == 0 || allow.contains(c.id))
}

/// The credentials that answer a `getAssertion`, in the order they were stored.
pub open spec fn candidates(creds: Seq<StoredModel>, rp: Seq<u8>, allow: Seq<Seq<u8>>) -> Seq<StoredModel> {
    creds.filter(|c: StoredModel| is_candidate(c, rp, allow))
}

/// The signature of an assertion: the SHA-256 of the authenticator data and
/// the client data hash, written twice.
pub open spec fn spec_signature(auth_data: Seq<u8>, client_data_hash: Seq<u8>) -> Seq<u8> {
    sha256_digest(auth_data + client_data_hash) + sha256_digest(auth_data + client_data_hash)
}

/// `getAssertion`: after the request is decoded, user verification and
/// presence are handled, the first matching credential answers with the
/// advanced counter, and the other matching credentials are queued for
/// `getNextAssertion` with the same signature.
pub open spec fn spec_get_assertion(
    st: AuthenticatorState,
    info: AuthenticatorInfo,
    payload: Seq<u8>,
    ans: EnvAnswers,
) -> Outcome {
    if payload.len() == 0 {
        refuse(st, CtapStatusCode::MissingParameter)
    } else {
        match parse_get_assertion(payload) {
            Err(e) => refuse(st, e),
            Ok(p) => if p.uv && !info.options.uv {
                refuse(st, CtapStatusCode::UnsupportedOption)
            } else if p.up && ans.presence != Some(true) {
                if ans.presence is None {
                    (st, Err(Refusal::Environment))
                } else {
                    refuse(st, CtapStatusCode::OperationDenied)
                }
            } else {
                let rp = p.rp_id.unwrap();
                let cands = candidates(st.credentials, rp, p.allow_list);
                if cands.len() == 0 {
                    refuse(st, CtapStatusCode::NoCredentials)
                } else if st.counter == u32::MAX {
                    refuse(st, CtapStatusCode::KeyStoreFull)
                } else {
                    let ctr = (st.counter + 1) as u32;
                    let cred = cands[0];
                    let ad = spec_auth_data(rp, ga_flags(p.uv), ctr, None);
                    let sig = spec_signature(ad, p.client_data_hash.unwrap());
                    let k = first_with_id(st.credentials, cred.id);
                    let creds = st.credentials.update(k, StoredModel { counter: ctr, ..st.credentials[k] });
                    let pending = cands.drop_first().map_values(|c: StoredModel| (c.id, sig));
                    (
                        AuthenticatorState { counter: ctr, credentials: creds, pending },
                        Ok(spec_ga_response(cred.id, ad, sig)),
                    )
                }
            },
        }
    }
}

/// The SHA-256 digests that the response to a successful `request` is built
/// from are 32 bytes long: the relying-party hash of the authenticator data,
/// and, for `getAssertion`, the digest that makes the signature.
pub open spec fn response_digests_sized(st: AuthenticatorState, request: Seq<u8>) -> bool {
    request.len() > 0 ==> {
        let payload = request.drop_first();
        if request[0] == 0x01 {
            parse_make_credential(payload) matches Ok(p) ==> sha256_digest(p.rp_id.unwrap()).len() == 32
        } else if request[0] == 0x02 {
            parse_get_assertion(payload) matches Ok(p) ==> {
                let rp = p.rp_id.unwrap();
                let ad = spec_auth_data(rp, ga_flags(p.uv), (st.counter + 1) as u32, None);
                &&& sha256_digest(rp).len() == 32
                &&& sha256_digest(ad + p.client_data_hash.unwrap()).len() == 32
            }
        } else if request[0] == 0x08 {
            st.pending.len() > 0 ==> sha256_digest(
                st.credentials[first_with_id(st.credentials, st.pending[0].0)].rp_id,
            ).len() == 32
        } else {
            true
        }
    }
}

/// A call the authenticator makes to its environment: a user-presence
/// query, or a fill of the 16-byte credential-id buffer or of one of the two
/// 32-byte coordinate buffers.
pub ghost enum CallKind {
    Presence,
    IdRandom,
    XRandom,
    YRandom,
}

/// A call made to the environment and what came back: the answer of a
/// user-presence query, or, for a fill of a zeroed buffer of `len` bytes,
/// the bytes it then held and the result.
pub ghost enum EnvCall<X> {
    Presence(Result<bool, X>),
    Random(nat, Seq<u8>, Result<(), X>),
}

/// A fill of a buffer of `len` bytes whose outcome is the answer `a`: the
/// bytes written when it succeeded, nothing when it failed.
pub open spec fn random_answers<X>(c: EnvCall<X>, len: nat, a: Option<Seq<u8>>) -> bool {
    match c {
        EnvCall::Random(n, b, r) => n == len && match r {
            Ok(_) => a == Some(b),
            Err(_) => a is None,
        },
        EnvCall::Presence(_) => false,
    }
}

/// The call `c` is of kind `k`, and what it gave back is what `ans` records.
pub open spec fn answers_call<X>(c: EnvCall<X>, k: CallKind, ans: EnvAnswers) -> bool {
    match k {
        CallKind::Presence => match c {
            EnvCall::Presence(r) => match r {
                Ok(b) => ans.presence == Some(b),
                Err(_) => ans.presence is None,
            },
            EnvCall::Random(_, _, _) => false,
        },
        CallKind::IdRandom => random_answers(c, 16, ans.id_random),
        CallKind::XRandom => random_answers(c, 32, ans.x_random),
        CallKind::YRandom => random_answers(c, 32, ans.y_random),
    }
}

/// The calls made are those of `kinds`, in order, and `ans` records what
/// they gave back.
pub open spec fn answered<X>(calls: Seq<EnvCall<X>>, kinds: Seq<CallKind>, ans: EnvAnswers) -> bool {
    &&& calls.len() == kinds.len()
    &&& forall|i: int| 0 <= i < calls.len() ==> answers_call(#[trigger] calls[i], kinds[i], ans)
}

/// The error a call gave back, if it failed.
pub open spec fn call_error<X>(c: EnvCall<X>) -> Option<X> {
    match c {
        EnvCall::Presence(Err(e)) => Some(e),
        EnvCall::Random(_, _, Err(e)) => Some(e),
        _ => None,
    }
}

/// The calls `reset` makes: one presence query, none for a non-empty payload.
pub open spec fn reset_calls(payload: Seq<u8>) -> Seq<CallKind> {
    if payload.len() != 0 {
        Seq::empty()
    } else {
        seq![CallKind::Presence]
    }
}

/// The calls `getAssertion` makes: one presence query when the request asks
/// for presence and has passed the checks that come first; none otherwise.
pub open spec fn ga_calls(info: AuthenticatorInfo, payload: Seq<u8>) -> Seq<CallKind> {
    if payload.len() == 0 {
        Seq::empty()
    } else {
        match parse_get_assertion(payload) {
            Err(_) => Seq::empty(),
            Ok(p) => if p.uv && !info.options.uv {
                Seq::empty()
            } else if p.up {
                seq![CallKind::Presence]
            } else {
                Seq::empty()
            },
        }
    }
}

/// The calls `makeCredential` makes, given what the earlier ones answered:
/// none before the request has passed its checks; then a presence query when
/// asked for; then, with presence and valid PIN parameters, the id buffer;
/// then, while the counter and the id length allow it, the two coordinate
/// buffers, the second only after the first succeeded.
pub open spec fn mc_calls(
    st: AuthenticatorState,
    info: AuthenticatorInfo,
    payload: Seq<u8>,
    ans: EnvAnswers,
) -> Seq<CallKind> {
    if payload.len() == 0 {
        Seq::empty()
    } else {
        match parse_make_credential(payload) {
            Err(_) => Seq::empty(),
            Ok(p) => if mc_precheck(st, info, p) is Some {
                Seq::empty()
            } else {
                let pres = if p.up {
                    seq![CallKind::Presence]
                } else {
                    Seq::empty()
                };
                if p.up && ans.presence != Some(true) {
                    pres
                } else if p.pin_uv_auth_param is Some && (p.pin_uv_auth_protocol != Some(1u32)
                    || info.options.client_pin == Some(false)) {
                    pres
                } else if ans.id_random is None || st.counter == u32::MAX || 16 > unwrap_or_u32(
                    info.max_credential_id_length,
                    128,
                ) {
                    pres.push(CallKind::IdRandom)
                } else if ans.x_random is None {
                    pres.push(CallKind::IdRandom).push(CallKind::XRandom)
                } else {
                    pres.push(CallKind::IdRandom).push(CallKind::XRandom).push(CallKind::YRandom)
                }
            },
        }
    }
}

/// The calls a request makes: those of its command; none for a request
/// without a command byte, for `getInfo`, `clientPIN`, `getNextAssertion`
/// and unknown commands.
pub open spec fn dispatch_calls(
    st: AuthenticatorState,
    info: AuthenticatorInfo,
    request: Seq<u8>,
    ans: EnvAnswers,
) -> Seq<CallKind> {
    if request.len() == 0 {
        Seq::empty()
    } else if request[0] == 0x01 {
        mc_calls(st, info, request.drop_first(), ans)
    } else if request[0] == 0x02 {
        ga_calls(info, request.drop_first())
    } else if request[0] == 0x07 {
        reset_calls(request.drop_first())
    } else {
        Seq::empty()
    }
}

/// `getNextAssertion`: the next queued credential answers with the advanced
/// counter and its queued signature; it leaves the queue even when the
/// command then fails.
pub open spec fn spec_get_next_assertion(st: AuthenticatorState, payload: Seq<u8>) -> Outcome {
    if payload.len() != 0 {
        refuse(st, CtapStatusCode::InvalidLength)
    } else if st.pending.len() == 0 {
        refuse(st, CtapStatusCode::NotAllowed)
    } else {
        let (id, sig) = st.pending[0];
        let st1 = AuthenticatorState { pending: st.pending.drop_first(), ..st };
        if !has_id(st.credentials, id) {
            refuse(st1, CtapStatusCode::NoCredentials)
        } else if st.counter == u32::MAX {
            refuse(st1, CtapStatusCode::KeyStoreFull)
        } else {
            let ctr = (st.counter + 1) as u32;
            let cred = st.credentials[first_with_id(st.credentials, id)];
            let ad = spec_auth_data(cred.rp_id, 0x01u8, ctr, None);
            (AuthenticatorState { counter: ctr, ..st1 }, Ok(spec_ga_response(id, ad, sig)))
        }
    }
}

/// `clientPIN`: always refused (see `client_pin_status`); nothing changes.
pub open spec fn spec_client_pin(st: AuthenticatorState, payload: Seq<u8>) -> Outcome {
    refuse(st, client_pin_status(payload))
}

/// A whole request: the command byte, then its payload.
pub open spec fn spec_dispatch(
    st: AuthenticatorState,
    info: AuthenticatorInfo,
    request: Seq<u8>,
    ans: EnvAnswers,
) -> Outcome {
    if request.len() == 0 {
        (st, Err(Refusal::Malformed))
    } else {
        let payload = request.drop_first();
        let cmd = request[0];
        if cmd == 0x04 {
            spec_get_info(st, info, payload)
        } else if cmd == 0x01 {
            spec_make_credential(st, info, payload, ans)
        } else if cmd == 0x02 {
            spec_get_assertion(st, info, payload, ans)
        } else if cmd == 0x07 {
            spec_reset(st, payload, ans)
        } else if cmd == 0x06 {
            spec_client_pin(st, payload)
        } else if cmd == 0x08 {
            spec_get_next_assertion(st, payload)
        } else {
            refuse(st, CtapStatusCode::InvalidCommand)
        }
    }
}

/// Every candidate of a `getAssertion` is a stored credential.
pub proof fn lemma_candidates_are_stored(creds: Seq<StoredModel>, rp: Seq<u8>, allow: Seq<Seq<u8>>, i: int)
    requires
        0 <= i < candidates(creds, rp, allow).len(),
    ensures
        creds.contains(candidates(creds, rp, allow)[i]),
    decreases creds.len(),
{
    reveal(Seq::filter);
    let pred = |c: StoredModel| is_candidate(c, rp, allow);
    if creds.len() > 0 {
        let rest = creds.drop_last().filter(pred);
        if i < rest.len() {
            lemma_candidates_are_stored(creds.drop_last(), rp, allow, i);
            let j = choose|j: int| 0 <= j < creds.drop_last().len() && creds.drop_last()[j] == rest[i];
            assert(creds[j] == rest[i]);
        } else {
            assert(creds[creds.len() - 1] == candidates(creds, rp, allow)[i]);
        }
    }
}

/// Whenever a credential with id `id` is stored, there is a first one.
pub proof fn lemma_first_with_id(creds: Seq<StoredModel>, id: Seq<u8>)
    requires
        has_id(creds, id),
    ensures
        is_first_with_id(creds, id, first_with_id(creds, id)),
    decreases creds.len(),
{
    if creds[0].id == id {
        assert(is_first_with_id(creds, id, 0));
    } else {
        let k = choose|k: int| 0 <= k < creds.len() && #[trigger] creds[k].id == id;
        assert(creds.drop_first()[k - 1].id == id);
        lemma_first_with_id(creds.drop_first(), id);
        let j = first_with_id(creds.drop_first(), id);
        assert forall|m: int| 0 <= m < j + 1 implies #[trigger] creds[m].id != id by {
            if m > 0 {
                assert(creds[m] == creds.drop_first()[m - 1]);
            }
        }
        assert(is_first_with_id(creds, id, j + 1));
    }
}

} // verus!
