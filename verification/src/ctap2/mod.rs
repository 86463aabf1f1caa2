//! The CTAP2 authenticator: a dispatcher from request bytes to response
//! bytes over an in-memory credential store, drawing randomness and user
//! presence from a `SecureEnvironment`.

pub mod model;
pub mod request;
pub mod response;

use self::model::{
    candidates, first_with_id, ga_flags, has_id, is_candidate, is_first_with_id, mc_flags,
    mc_precheck, spec_client_pin, spec_dispatch, spec_get_assertion, spec_signature,
    spec_credential_id, spec_get_info, spec_get_next_assertion, spec_make_credential, spec_reset,
    unwrap_or_u32, AuthenticatorState, EnvAnswers, Refusal, StoredModel, answered, call_error,
    dispatch_calls, ga_calls, mc_calls, reset_calls, response_digests_sized, CallKind, EnvCall,
};
use self::request::{
    client_pin_answer, contains_bytes, decode_get_assertion_payload, decode_make_credential_payload,
    seqs_view, GaRequest, McRequest,
};
use self::request::{parse_get_assertion, parse_make_credential};
use self::response::{
    build_attested_auth_data, build_auth_data, encode_get_assertion_response, encode_get_info,
    encode_make_credential_response, sha256, sha256_digest, spec_auth_data,
};
use crate::algorithm::Algorithm;
use crate::env::SecureEnvironment;
use crate::info::{AuthenticatorInfo, Options};
use crate::status::CtapStatusCode;
use crate::types::KeyHandle;
use vstd::prelude::*;

verus! {

pub const CMD_MAKE_CREDENTIAL: u8 = 0x01;

pub const CMD_GET_ASSERTION: u8 = 0x02;

pub const CMD_GET_INFO: u8 = 0x04;

pub const CMD_CLIENT_PIN: u8 = 0x06;

pub const CMD_RESET: u8 = 0x07;

pub const CMD_GET_NEXT_ASSERTION: u8 = 0x08;

/// Why a request failed: the environment failed, a CTAP status, or the
/// request had no command byte.
#[derive(Debug)]
pub enum CtapError<E> {
    Environment(E),
    Status(CtapStatusCode),
    MalformedRequest,
}

impl<E> From<CtapStatusCode> for CtapError<E> {
    fn from(c: CtapStatusCode) -> (r: Self)
        ensures
            r == CtapError::<E>::Status(c),
    {
        CtapError::Status(c)
    }
}

impl<E> vstd::std_specs::convert::FromSpecImpl<CtapStatusCode> for CtapError<E> {
    open spec fn obeys_from_spec() -> bool {
        true
    }

    open spec fn from_spec(c: CtapStatusCode) -> CtapError<E> {
        CtapError::Status(c)
    }
}

/// The bytes of a response, or the refusal a failed request stands for.
pub open spec fn outcome_of<X>(r: Result<Vec<u8>, CtapError<X>>) -> Result<Seq<u8>, Refusal> {
    match r {
        Ok(v) => Ok(v@),
        Err(CtapError::Environment(_)) => Err(Refusal::Environment),
        Err(CtapError::Status(c)) => Err(Refusal::Status(c)),
        Err(CtapError::MalformedRequest) => Err(Refusal::Malformed),
    }
}

/// No answer from the environment.
pub open spec fn no_answers() -> EnvAnswers {
    EnvAnswers { presence: None, id_random: None, x_random: None, y_random: None }
}

struct StoredCredential {
    id: Vec<u8>,
    rp_id: Vec<u8>,
    user_id: Vec<u8>,
    private_key: KeyHandle,
    counter: u32,
    cose_x: [u8; 32],
    cose_y: [u8; 32],
}

impl StoredCredential {
    spec fn view(&self) -> StoredModel {
        StoredModel {
            id: self.id@,
            rp_id: self.rp_id@,
            user_id: self.user_id@,
            counter: self.counter,
            cose_x: self.cose_x@,
            cose_y: self.cose_y@,
        }
    }
}

pub open spec fn pairs_view(v: Seq<(Vec<u8>, Vec<u8>)>) -> Seq<(Seq<u8>, Seq<u8>)> {
    v.map_values(|p: (Vec<u8>, Vec<u8>)| (p.0@, p.1@))
}

/// The information a new authenticator reports: FIDO_2_0 and FIDO_2_1,
/// resident keys and user presence but no user verification, a client PIN
/// that is not set, 1200-byte messages, PIN/UV protocol 1, USB and ES256,
/// and otherwise the defaults of `AuthenticatorInfo::new`.
pub open spec fn is_ctap2_info(i: AuthenticatorInfo, aaguid: [u8; 16]) -> bool {
    &&& i.versions@ == seq!["FIDO_2_0", "FIDO_2_1"]
    &&& i.extensions@ == Seq::<&'static str>::empty()
    &&& i.aaguid == aaguid
    &&& i.options == (Options { rk: true, up: true, uv: false, always_uv: false, plat: false, client_pin: Some(false) })
    &&& i.max_msg_size == 1200
    &&& i.pin_uv_auth_protocols@ == seq![1u32]
    &&& i.max_credential_count_in_list == Some(8u32)
    &&& i.max_credential_id_length == Some(128u32)
    &&& i.transports@ == seq!["usb"]
    &&& i.algorithms@ == seq![Algorithm::Es256]
    &&& i.max_serialized_large_blob_array is None
    &&& !i.force_pin_change
    &&& i.min_pin_length == Some(4u32)
    &&& i.firmware_version is None
    &&& i.max_cred_blob_length is None
    &&& i.remaining_discoverable_credentials == Some(25u32)
    &&& i.vendor_prototype_config_commands is None
}

/// What a call to the environment `before` may have left as `after`, by
/// what the backend says of its operations; a fill is of a zeroed buffer.
pub open spec fn call_outcome<E: SecureEnvironment>(before: E, after: E, c: EnvCall<E::Error>) -> bool {
    match c {
        EnvCall::Presence(r) => E::presence_outcome(before, after, r),
        EnvCall::Random(n, b, r) => E::random_outcome(before, after, Seq::new(n, |_i: int| 0u8), b, r),
    }
}

/// The environment went from `e0` to `e1` through the calls `calls`, one
/// after the other, passing through the environments `envs`.
pub open spec fn env_ran<E: SecureEnvironment>(e0: E, e1: E, calls: Seq<EnvCall<E::Error>>, envs: Seq<E>) -> bool {
    &&& envs.len() == calls.len() + 1
    &&& envs[0] == e0
    &&& envs.last() == e1
    &&& forall|i: int| 0 <= i < calls.len() ==> call_outcome(envs[i], envs[i + 1], #[trigger] calls[i])
}

/// A failure of the environment is reported with the error of the last call.
pub open spec fn env_error_in<X, T>(r: Result<T, CtapError<X>>, calls: Seq<EnvCall<X>>) -> bool {
    r matches Err(CtapError::Environment(e)) ==> calls.len() > 0 && call_error(calls.last()) == Some(e)
}

proof fn lemma_env_ran_push<E: SecureEnvironment>(
    e0: E,
    e1: E,
    calls: Seq<EnvCall<E::Error>>,
    envs: Seq<E>,
    e2: E,
    c: EnvCall<E::Error>,
)
    requires
        env_ran(e0, e1, calls, envs),
        call_outcome(e1, e2, c),
    ensures
        env_ran(e0, e2, calls.push(c), envs.push(e2)),
{
    let calls2 = calls.push(c);
    let envs2 = envs.push(e2);
    assert forall|i: int| 0 <= i < calls2.len() implies call_outcome(envs2[i], envs2[i + 1], #[trigger] calls2[i]) by {
        if i < calls.len() {
            assert(calls2[i] == calls[i]);
            assert(envs2[i] == envs[i] && envs2[i + 1] == envs[i + 1]);
        } else {
            assert(envs2[i] == envs.last());
        }
    }
}

/// A CTAP2 authenticator over the environment `E`.
pub struct Ctap2<E> {
    env: E,
    info: AuthenticatorInfo,
    counter: u32,
    credentials: Vec<StoredCredential>,
    last_assertion_results: Vec<(Vec<u8>, Vec<u8>)>,
    pin_retries: u8,
    uv_retries: u8,
}

impl<E> View for Ctap2<E> {
    type V = AuthenticatorState;

    closed spec fn view(&self) -> AuthenticatorState {
        AuthenticatorState {
            counter: self.counter,
            credentials: self.credentials@.map_values(|c: StoredCredential| c.view()),
            pending: pairs_view(self.last_assertion_results@),
        }
    }
}

impl<E: SecureEnvironment> Ctap2<E> {
    /// What the authenticator reports in `getInfo`.
    pub closed spec fn spec_info(&self) -> AuthenticatorInfo {
        self.info
    }

    /// The environment the authenticator draws on.
    pub closed spec fn env(&self) -> E {
        self.env
    }

    pub fn new(env: E, aaguid: [u8; 16]) -> (a: Self)
        ensures
            a@ == (AuthenticatorState { counter: 0, credentials: Seq::empty(), pending: Seq::empty() }),
            is_ctap2_info(a.spec_info(), aaguid),
            a.env() == env,
    {
        let mut info = AuthenticatorInfo::new(aaguid);
        info.versions = vec!["FIDO_2_0", "FIDO_2_1"];
        info.options = Options {
            rk: true,
            up: true,
            uv: false,
            always_uv: false,
            plat: false,
            client_pin: Some(false),
        };
        info.max_msg_size = 1200;
        info.pin_uv_auth_protocols = vec![1];
        info.transports = vec!["usb"];
        info.algorithms = vec![Algorithm::Es256];
        let a = Ctap2 {
            env,
            info,
            counter: 0,
            credentials: Vec::new(),
            last_assertion_results: Vec::new(),
            pin_retries: 8,
            uv_retries: 3,
        };
        assert(a.info.versions@ =~= seq!["FIDO_2_0", "FIDO_2_1"]);
        assert(a.info.pin_uv_auth_protocols@ =~= seq![1u32]);
        assert(a.info.transports@ =~= seq!["usb"]);
        assert(a.info.algorithms@ =~= seq![Algorithm::Es256]);
        assert(a@.credentials =~= Seq::<StoredModel>::empty());
        assert(a@.pending =~= Seq::<(Seq<u8>, Seq<u8>)>::empty());
        a
    }

    pub fn get_info(&self) -> (i: &AuthenticatorInfo)
        ensures
            *i == self.spec_info(),
    {
        &self.info
    }

    /// The number of stored credentials.
    pub fn credential_count(&self) -> (n: usize)
        ensures
            n == self@.credentials.len(),
    {
        self.credentials.len()
    }

    /// The id of the stored credential at `index`, if there is one.
    pub fn credential_id(&self, index: usize) -> (id: Option<&Vec<u8>>)
        ensures
            match id {
                Some(v) => index < self@.credentials.len() && v@ == self@.credentials[index as int].id,
                None => index >= self@.credentials.len(),
            },
    {
        if index < self.credentials.len() {
            Some(&self.credentials[index].id)
        } else {
            None
        }
    }

    /// The signature counter.
    pub fn signature_counter(&self) -> (c: u32)
        ensures
            c == self@.counter,
    {
        self.counter
    }

    /// Sets the signature counter back to 0, keeping everything else.
    pub fn reset_counter(&mut self)
        ensures
            final(self)@ == (AuthenticatorState { counter: 0, ..old(self)@ }),
            final(self).spec_info() == old(self).spec_info(),
    {
        self.counter = 0;
    }

    /// Advances the signature counter; refused once it has reached `u32::MAX`.
    fn next_counter(&mut self) -> (r: Result<u32, CtapStatusCode>)
        ensures
            final(self).info == old(self).info,
            final(self).env == old(self).env,
            final(self).credentials == old(self).credentials,
            final(self).last_assertion_results == old(self).last_assertion_results,
            old(self).counter == u32::MAX ==> r == Err::<u32, CtapStatusCode>(CtapStatusCode::KeyStoreFull)
                && final(self).counter == old(self).counter,
            old(self).counter < u32::MAX ==> r == Ok::<u32, CtapStatusCode>((old(self).counter + 1) as u32)
                && final(self).counter == old(self).counter + 1,
    {
        if self.counter == u32::MAX {
            return Err(CtapStatusCode::KeyStoreFull);
        }
        self.counter = self.counter + 1;
        Ok(self.counter)
    }

    /// The index of the first stored credential with id `id`, if any.
    fn find_credential(&self, id: &Vec<u8>) -> (r: Option<usize>)
        ensures
            match r {
                Some(k) => is_first_with_id(self@.credentials, id@, k as int),
                None => !has_id(self@.credentials, id@),
            },
    {
        let mut k: usize = 0;
        while k < self.credentials.len()
            invariant
                k <= self.credentials.len(),
                forall|j: int| 0 <= j < k ==> #[trigger] self@.credentials[j].id != id@,
            decreases self.credentials.len() - k,
        {
            if request::bytes_eq(self.credentials[k].id.as_slice(), id.as_slice()) {
                assert(self@.credentials[k as int].id == id@);
                return Some(k);
            }
            assert(self@.credentials[k as int].id != id@);
            k = k + 1;
        }
        assert forall|j: int| 0 <= j < self@.credentials.len() implies #[trigger] self@.credentials[j].id != id@ by {}
        None
    }

    fn handle_get_info(&self, payload: &[u8]) -> (r: Result<Vec<u8>, CtapError<E::Error>>)
        ensures
            spec_get_info(self@, self.info, payload@) == (self@, outcome_of(r)),
    {
        if payload.len() != 0 {
            return Err(CtapError::Status(CtapStatusCode::InvalidLength));
        }
        Ok(encode_get_info(&self.info))
    }

    fn handle_reset(&mut self, payload: &[u8]) -> (res: (
        Result<Vec<u8>, CtapError<E::Error>>,
        Ghost<(EnvAnswers, Seq<EnvCall<E::Error>>, Seq<E>)>,
    ))
        ensures
            res.1@.0.wf(),
            final(self).info == old(self).info,
            spec_reset(old(self)@, payload@, res.1@.0) == (final(self)@, outcome_of(res.0)),
            env_ran(old(self).env, final(self).env, res.1@.1, res.1@.2),
            answered(res.1@.1, reset_calls(payload@), res.1@.0),
            env_error_in(res.0, res.1@.1),
    {
        let ghost ans = no_answers();
        let ghost e0 = self.env;
        if payload.len() != 0 {
            return (Err(CtapError::Status(CtapStatusCode::InvalidLength)), Ghost((ans, Seq::empty(), seq![e0])));
        }
        let pr = self.env.user_presence();
        let ghost calls = seq![EnvCall::Presence(pr)];
        let ghost envs = seq![e0, self.env];
        assert(call_outcome(envs[0], envs[1], calls[0]));
        let present = match pr {
            Ok(p) => p,
            Err(e) => {
                return (Err(CtapError::Environment(e)), Ghost((ans, calls, envs)));
            },
        };
        let ghost ans = EnvAnswers { presence: Some(present), ..ans };
        if !present {
            return (Err(CtapError::Status(CtapStatusCode::OperationDenied)), Ghost((ans, calls, envs)));
        }
        let ghost e1 = self.env;
        while self.credentials.len() > 0
            invariant
                self.info == old(self).info,
                self.env == e1,
            decreases self.credentials.len(),
        {
            match self.credentials.pop() {
                Some(mut c) => c.private_key.zeroize(),
                None => {},
            }
        }
        self.counter = 0;
        self.last_assertion_results.clear();
        assert(self@.credentials =~= Seq::<StoredModel>::empty());
        assert(self@.pending =~= Seq::<(Seq<u8>, Seq<u8>)>::empty());
        let out: Vec<u8> = vec![0x00];
        assert(out@ =~= seq![0u8]);
        (Ok(out), Ghost((ans, calls, envs)))
    }

    fn handle_client_pin(&self, payload: &[u8]) -> (r: Result<Vec<u8>, CtapError<E::Error>>)
        ensures
            spec_client_pin(self@, payload@) == (self@, outcome_of(r)),
    {
        Err(CtapError::Status(client_pin_answer(payload)))
    }

    fn handle_get_next_assertion(&mut self, payload: &[u8]) -> (r: Result<Vec<u8>, CtapError<E::Error>>)
        ensures
            final(self).info == old(self).info,
            final(self).env == old(self).env,
            spec_get_next_assertion(old(self)@, payload@) == (final(self)@, outcome_of(r)),
            r is Ok ==> sha256_digest(
                old(self)@.credentials[first_with_id(old(self)@.credentials, old(self)@.pending[0].0)].rp_id,
            ).len() == 32,
    {
        if payload.len() != 0 {
            return Err(CtapError::Status(CtapStatusCode::InvalidLength));
        }
        if self.last_assertion_results.len() == 0 {
            return Err(CtapError::Status(CtapStatusCode::NotAllowed));
        }
        let (cred_id, sig) = self.last_assertion_results.remove(0);
        assert(self@.pending =~= old(self)@.pending.drop_first());
        let k = match self.find_credential(&cred_id) {
            Some(k) => k,
            None => {
                return Err(CtapError::Status(CtapStatusCode::NoCredentials));
            },
        };
        let ctr = match self.next_counter() {
            Ok(c) => c,
            Err(code) => {
                return Err(CtapError::Status(code));
            },
        };
        proof {
            assert(is_first_with_id(old(self)@.credentials, cred_id@, k as int));
            assert(first_with_id(old(self)@.credentials, cred_id@) == k as int);
        }
        let ad = build_auth_data(self.credentials[k].rp_id.as_slice(), 0x01, ctr);
        Ok(encode_get_assertion_response(cred_id.as_slice(), ad.as_slice(), sig.as_slice()))
    }

    /// The checks of `makeCredential` made before user presence.
    fn make_credential_precheck(&self, p: &McRequest) -> (r: Option<CtapStatusCode>)
        ensures
            r == mc_precheck(self@, self.info, p@),
    {
        let mut supported = false;
        let mut i: usize = 0;
        while i < p.pub_key_cred_params.len()
            invariant
                i <= p.pub_key_cred_params.len(),
                supported == exists|j: int| 0 <= j < i && #[trigger] crate::algorithm::spec_from_cose_id(
                    p.pub_key_cred_params@[j].1 as int,
                ) is Some,
            decreases p.pub_key_cred_params.len() - i,
        {
            let alg = p.pub_key_cred_params[i].1;
            if alg >= i32::MIN as i64 && alg <= i32::MAX as i64 && Algorithm::from_cose_id(alg as i32).is_some() {
                supported = true;
            }
            i = i + 1;
        }
        let ghost algs = p@.pub_key_cred_params.unwrap();
        assert forall|j: int| 0 <= j < algs.len() implies algs[j].1 == p.pub_key_cred_params@[j].1 by {}
        if !supported {
            assert(!(exists|j: int| 0 <= j < algs.len() && #[trigger] crate::algorithm::spec_from_cose_id(algs[j].1 as int) is Some));
            return Some(CtapStatusCode::UnsupportedAlgorithm);
        }
        proof {
            let j = choose|j: int| 0 <= j < i && #[trigger] crate::algorithm::spec_from_cose_id(
                p.pub_key_cred_params@[j].1 as int,
            ) is Some;
            assert(algs[j].1 == p.pub_key_cred_params@[j].1);
            assert(crate::algorithm::spec_from_cose_id(algs[j].1 as int) is Some);
        }
        let ghost creds = self@.credentials;
        let ghost excl = p@.exclude_list;
        let mut x: usize = 0;
        while x < p.exclude_list.len()
            invariant
                x <= p.exclude_list.len(),
                creds == self@.credentials,
                excl == p@.exclude_list,
                algs == p@.pub_key_cred_params.unwrap(),
                exists|j: int| 0 <= j < algs.len() && #[trigger] crate::algorithm::spec_from_cose_id(algs[j].1 as int) is Some,
                forall|j: int, c: int|
                    0 <= j < x && 0 <= c < creds.len() ==> !(#[trigger] creds[c].id == #[trigger] excl[j]
                        && creds[c].rp_id == p.rp_id@),
            decreases p.exclude_list.len() - x,
        {
            let mut c: usize = 0;
            while c < self.credentials.len()
                invariant
                    x < p.exclude_list.len(),
                    c <= self.credentials.len(),
                    creds == self@.credentials,
                    excl == p@.exclude_list,
                    algs == p@.pub_key_cred_params.unwrap(),
                    exists|j: int| 0 <= j < algs.len() && #[trigger] crate::algorithm::spec_from_cose_id(algs[j].1 as int) is Some,
                    forall|j: int, c2: int|
                        0 <= j < x && 0 <= c2 < creds.len() ==> !(#[trigger] creds[c2].id == #[trigger] excl[j]
                            && creds[c2].rp_id == p.rp_id@),
                    forall|c2: int|
                        0 <= c2 < c ==> !(#[trigger] creds[c2].id == excl[x as int] && creds[c2].rp_id == p.rp_id@),
                decreases self.credentials.len() - c,
            {
                proof {
                    assert(excl[x as int] == p.exclude_list@[x as int]@);
                    assert(creds[c as int] == self.credentials@[c as int].view());
                }
                if request::bytes_eq(self.credentials[c].id.as_slice(), p.exclude_list[x].as_slice())
                    && request::bytes_eq(self.credentials[c].rp_id.as_slice(), p.rp_id.as_slice()) {
                    assert(excl[x as int] == p.exclude_list@[x as int]@);
                    assert(creds[c as int].id == excl[x as int]);
                    assert(creds[c as int].rp_id == p@.rp_id.unwrap());
                    return Some(CtapStatusCode::CredentialExcluded);
                }
                c = c + 1;
            }
            x = x + 1;
        }
        if p.rk {
            let n = self.credentials.len() as u64;
            let remaining = match self.info.remaining_discoverable_credentials {
                Some(v) => v,
                None => 25,
            };
            let max_list = match self.info.max_credential_count_in_list {
                Some(v) => v,
                None => 8,
            };
            if n >= remaining as u64 || n >= (max_list as u64) * 3 {
                return Some(CtapStatusCode::KeyStoreFull);
            }
        }
        if p.uv && !self.info.options.uv {
            return Some(CtapStatusCode::UnsupportedOption);
        }
        None
    }

    #[verifier::spinoff_prover]
    #[verifier::rlimit(40)]
    fn handle_make_credential(&mut self, payload: &[u8]) -> (res: (
        Result<Vec<u8>, CtapError<E::Error>>,
        Ghost<(EnvAnswers, Seq<EnvCall<E::Error>>, Seq<E>)>,
    ))
        ensures
            res.1@.0.wf(),
            final(self).info == old(self).info,
            spec_make_credential(old(self)@, old(self).info, payload@, res.1@.0) == (final(self)@, outcome_of(res.0)),
            env_ran(old(self).env, final(self).env, res.1@.1, res.1@.2),
            answered(res.1@.1, mc_calls(old(self)@, old(self).info, payload@, res.1@.0), res.1@.0),
            env_error_in(res.0, res.1@.1),
            res.0 is Ok ==> sha256_digest(parse_make_credential(payload@)->Ok_0.rp_id.unwrap()).len() == 32,
    {
        let ghost ans = no_answers();
        let ghost e0 = self.env;
        let ghost st0 = self@;
        let ghost mut calls: Seq<EnvCall<E::Error>> = Seq::empty();
        let ghost mut envs: Seq<E> = seq![e0];
        if payload.len() == 0 {
            return (Err(CtapError::Status(CtapStatusCode::MissingParameter)), Ghost((ans, calls, envs)));
        }
        let params = match decode_make_credential_payload(payload) {
            Ok(p) => p,
            Err(e) => {
                return (Err(CtapError::Status(e)), Ghost((ans, calls, envs)));
            },
        };
        match self.make_credential_precheck(&params) {
            Some(e) => {
                return (Err(CtapError::Status(e)), Ghost((ans, calls, envs)));
            },
            None => {},
        }
        let ghost mut ans = ans;
        if params.up {
            let ghost eb = self.env;
            let pr = self.env.user_presence();
            proof {
                lemma_env_ran_push(e0, eb, calls, envs, self.env, EnvCall::Presence(pr));
                calls = calls.push(EnvCall::Presence(pr));
                envs = envs.push(self.env);
            }
            let present = match pr {
                Ok(p) => p,
                Err(e) => {
                    return (Err(CtapError::Environment(e)), Ghost((ans, calls, envs)));
                },
            };
            proof {
                ans = EnvAnswers { presence: Some(present), ..ans };
            }
            if !present {
                return (Err(CtapError::Status(CtapStatusCode::OperationDenied)), Ghost((ans, calls, envs)));
            }
        } else {
            proof {
                ans = EnvAnswers { presence: Some(true), ..ans };
            }
        }
        let ghost pres_calls = calls;
        if params.pin_uv_auth_param.is_some() && params.pin_uv_auth_protocol != Some(1u32) {
            return (Err(CtapError::Status(CtapStatusCode::PinAuthInvalid)), Ghost((ans, calls, envs)));
        }
        if params.pin_uv_auth_param.is_some() && self.info.options.client_pin == Some(false) {
            return (Err(CtapError::Status(CtapStatusCode::PinNotSet)), Ghost((ans, calls, envs)));
        }
        let mut cred_id = [0u8; 16];
        assert(cred_id@ =~= Seq::new(16, |_i: int| 0u8));
        let ghost eb = self.env;
        let rr = self.env.random(&mut cred_id);
        proof {
            lemma_env_ran_push(e0, eb, calls, envs, self.env, EnvCall::Random(16, cred_id@, rr));
            calls = calls.push(EnvCall::Random(16, cred_id@, rr));
            envs = envs.push(self.env);
        }
        match rr {
            Ok(()) => {},
            Err(e) => {
                return (Err(CtapError::Environment(e)), Ghost((ans, calls, envs)));
            },
        }
        proof {
            ans = EnvAnswers { id_random: Some(cred_id@), ..ans };
        }
        let ghost rnd = cred_id@;
        let ghost st1 = self@;
        let ctr = match self.next_counter() {
            Ok(c) => c,
            Err(code) => {
                assert(self@ == st1);
                return (Err(CtapError::Status(code)), Ghost((ans, calls, envs)));
            },
        };
        cred_id[0] = cred_id[0] ^ ((ctr & 0xff) as u8);
        cred_id[1] = cred_id[1] ^ (((ctr >> 8) & 0xff) as u8);
        assert(cred_id@ =~= spec_credential_id(rnd, ctr));
        let max_id = match self.info.max_credential_id_length {
            Some(v) => v,
            None => 128,
        };
        if 16 > max_id {
            return (Err(CtapError::Status(CtapStatusCode::LimitExceeded)), Ghost((ans, calls, envs)));
        }
        let mut x = [0u8; 32];
        let mut y = [0u8; 32];
        assert(x@ =~= Seq::new(32, |_i: int| 0u8));
        assert(y@ =~= Seq::new(32, |_i: int| 0u8));
        let ghost eb = self.env;
        let rx = self.env.random(&mut x);
        proof {
            lemma_env_ran_push(e0, eb, calls, envs, self.env, EnvCall::Random(32, x@, rx));
            calls = calls.push(EnvCall::Random(32, x@, rx));
            envs = envs.push(self.env);
        }
        match rx {
            Ok(()) => {},
            Err(e) => {
                return (Err(CtapError::Environment(e)), Ghost((ans, calls, envs)));
            },
        }
        proof {
            ans = EnvAnswers { x_random: Some(x@), ..ans };
        }
        let ghost eb = self.env;
        let ry = self.env.random(&mut y);
        proof {
            lemma_env_ran_push(e0, eb, calls, envs, self.env, EnvCall::Random(32, y@, ry));
            calls = calls.push(EnvCall::Random(32, y@, ry));
            envs = envs.push(self.env);
        }
        match ry {
            Ok(()) => {},
            Err(e) => {
                return (Err(CtapError::Environment(e)), Ghost((ans, calls, envs)));
            },
        }
        proof {
            ans = EnvAnswers { y_random: Some(y@), ..ans };
        }
        let flags: u8 = if params.uv { 0x45 } else { 0x41 };
        let ad = build_attested_auth_data(params.rp_id.as_slice(), flags, ctr, &self.info.aaguid, &cred_id, &x, &y);
        let stored = StoredCredential {
            id: vstd::slice::slice_to_vec(&cred_id),
            rp_id: params.rp_id,
            user_id: params.user_id,
            private_key: KeyHandle(vec![0u8; 32]),
            counter: ctr,
            cose_x: x,
            cose_y: y,
        };
        self.credentials.push(stored);
        assert(self@.credentials =~= old(self)@.credentials.push(stored.view()));
        (Ok(encode_make_credential_response(ad.as_slice())), Ghost((ans, calls, envs)))
    }

    /// The ids of the stored credentials that answer `p`, in store order, and
    /// the index of the first of them.
    fn assertion_candidates(&self, p: &GaRequest) -> (r: (Vec<Vec<u8>>, usize))
        ensures
            seqs_view(r.0@) == candidates(self@.credentials, p.rp_id@, p@.allow_list).map_values(
                |c: StoredModel| c.id,
            ),
            r.0.len() > 0 ==> r.1 < self@.credentials.len() && self@.credentials[r.1 as int].id
                == r.0@[0]@,
    {
        let ghost creds = self@.credentials;
        let ghost rp = p.rp_id@;
        let ghost allow = p@.allow_list;
        let ghost pred = |c: StoredModel| is_candidate(c, rp, allow);
        let mut ids: Vec<Vec<u8>> = Vec::new();
        let mut first: usize = 0;
        let mut i: usize = 0;
        proof {
            reveal(Seq::filter);
            assert(creds.take(0) =~= Seq::<StoredModel>::empty());
        }
        assert(seqs_view(ids@) =~= Seq::<Seq<u8>>::empty());
        while i < self.credentials.len()
            invariant
                i <= self.credentials.len(),
                creds == self@.credentials,
                rp == p.rp_id@,
                allow == p@.allow_list,
                pred == (|c: StoredModel| is_candidate(c, rp, allow)),
                seqs_view(ids@) == creds.take(i as int).filter(pred).map_values(|c: StoredModel| c.id),
                ids.len() > 0 ==> first < i && creds[first as int].id == ids@[0]@,
            decreases self.credentials.len() - i,
        {
            let ghost prev = ids@;
            proof {
                reveal(Seq::filter);
                assert(creds.take(i + 1).drop_last() =~= creds.take(i as int));
                assert(creds.take(i + 1).last() == creds[i as int]);
            }
            let c = &self.credentials[i];
            assert(creds[i as int] == c.view());
            let matches = request::bytes_eq(c.rp_id.as_slice(), p.rp_id.as_slice()) && (
            p.allow_list.len() == 0 || contains_bytes(&p.allow_list, &c.id));
            assert(matches == pred(creds[i as int]));
            if matches {
                if ids.len() == 0 {
                    first = i;
                }
                ids.push(c.id.clone());
                assert(seqs_view(ids@) =~= seqs_view(prev).push(creds[i as int].id));
            }
            i = i + 1;
        }
        assert(creds.take(i as int) =~= creds);
        (ids, first)
    }

    #[verifier::spinoff_prover]
    #[verifier::rlimit(40)]
    fn handle_get_assertion(&mut self, payload: &[u8]) -> (res: (
        Result<Vec<u8>, CtapError<E::Error>>,
        Ghost<(EnvAnswers, Seq<EnvCall<E::Error>>, Seq<E>)>,
    ))
        ensures
            res.1@.0.wf(),
            final(self).info == old(self).info,
            spec_get_assertion(old(self)@, old(self).info, payload@, res.1@.0) == (final(self)@, outcome_of(res.0)),
            env_ran(old(self).env, final(self).env, res.1@.1, res.1@.2),
            answered(res.1@.1, ga_calls(old(self).info, payload@), res.1@.0),
            env_error_in(res.0, res.1@.1),
            res.0 is Ok ==> ({
                let p = parse_get_assertion(payload@)->Ok_0;
                let rp = p.rp_id.unwrap();
                let ad = spec_auth_data(rp, ga_flags(p.uv), (old(self)@.counter + 1) as u32, None);
                &&& sha256_digest(rp).len() == 32
                &&& sha256_digest(ad + p.client_data_hash.unwrap()).len() == 32
            }),
    {
        let ghost ans = no_answers();
        let ghost e0 = self.env;
        let ghost mut calls: Seq<EnvCall<E::Error>> = Seq::empty();
        let ghost mut envs: Seq<E> = seq![e0];
        if payload.len() == 0 {
            return (Err(CtapError::Status(CtapStatusCode::MissingParameter)), Ghost((ans, calls, envs)));
        }
        let params = match decode_get_assertion_payload(payload) {
            Ok(p) => p,
            Err(e) => {
                return (Err(CtapError::Status(e)), Ghost((ans, calls, envs)));
            },
        };
        if params.uv && !self.info.options.uv {
            return (Err(CtapError::Status(CtapStatusCode::UnsupportedOption)), Ghost((ans, calls, envs)));
        }
        let ghost mut ans = ans;
        if params.up {
            let ghost eb = self.env;
            let pr = self.env.user_presence();
            proof {
                lemma_env_ran_push(e0, eb, calls, envs, self.env, EnvCall::Presence(pr));
                calls = calls.push(EnvCall::Presence(pr));
                envs = envs.push(self.env);
            }
            let present = match pr {
                Ok(p) => p,
                Err(e) => {
                    return (Err(CtapError::Environment(e)), Ghost((ans, calls, envs)));
                },
            };
            proof {
                ans = EnvAnswers { presence: Some(present), ..ans };
            }
            if !present {
                return (Err(CtapError::Status(CtapStatusCode::OperationDenied)), Ghost((ans, calls, envs)));
            }
        } else {
            proof {
                ans = EnvAnswers { presence: Some(true), ..ans };
            }
        }
        let ghost trace = (calls, envs);
        assert(self@ == old(self)@);
        let (mut ids, first) = self.assertion_candidates(&params);
        let ghost cands = candidates(old(self)@.credentials, params.rp_id@, params@.allow_list);
        assert(seqs_view(ids@).len() == ids@.len());
        assert(cands.map_values(|c: StoredModel| c.id).len() == cands.len());
        assert(cands.len() == ids@.len());
        if ids.len() == 0 {
            return (Err(CtapError::Status(CtapStatusCode::NoCredentials)), Ghost((ans, trace.0, trace.1)));
        }
        let ctr = match self.next_counter() {
            Ok(c) => c,
            Err(code) => {
                return (Err(CtapError::Status(code)), Ghost((ans, trace.0, trace.1)));
            },
        };
        let ghost ids0 = ids@;
        let ghost idv = cands.map_values(|c: StoredModel| c.id);
        assert(seqs_view(ids0) == idv);
        assert forall|q: int| 0 <= q < ids0.len() implies #[trigger] ids0[q]@ == cands[q].id by {
            assert(seqs_view(ids0)[q] == idv[q]);
        }
        let cred_id = ids.remove(0);
        assert(cred_id@ == cands[0].id);
        assert(ids@ == ids0.drop_first());
        let flags: u8 = if params.uv { 0x05 } else { 0x01 };
        let ad = build_auth_data(params.rp_id.as_slice(), flags, ctr);
        let mut to_sign: Vec<u8> = ad.clone();
        let mut i: usize = 0;
        while i < params.client_data_hash.len()
            invariant
                i <= params.client_data_hash.len(),
                to_sign@ == ad@ + params.client_data_hash@.take(i as int),
            decreases params.client_data_hash.len() - i,
        {
            to_sign.push(params.client_data_hash[i]);
            i = i + 1;
            assert(to_sign@ =~= ad@ + params.client_data_hash@.take(i as int));
        }
        assert(params.client_data_hash@.take(params.client_data_hash.len() as int) =~= params.client_data_hash@);
        let hash = sha256(to_sign.as_slice());
        let mut signature: Vec<u8> = Vec::new();
        let mut j: usize = 0;
        while j < 64
            invariant
                j <= 64,
                signature@ == (hash@ + hash@).take(j as int),
            decreases 64 - j,
        {
            signature.push(if j < 32 { hash[j] } else { hash[j - 32] });
            j = j + 1;
            assert(signature@ =~= (hash@ + hash@).take(j as int));
        }
        assert(signature@ =~= hash@ + hash@);
        assert(signature@ == spec_signature(ad@, params@.client_data_hash.unwrap()));
        let k = match self.find_credential(&cred_id) {
            Some(k) => k,
            None => {
                assert(self@.credentials[first as int].id == cred_id@);
                return (Err(CtapError::Status(CtapStatusCode::NoCredentials)), Ghost((ans, trace.0, trace.1)));
            },
        };
        proof {
            assert(first_with_id(old(self)@.credentials, cred_id@) == k as int);
        }
        let ghost creds_before = self@.credentials;
        let mut stored = self.credentials.remove(k);
        stored.counter = ctr;
        self.credentials.insert(k, stored);
        assert(self@.credentials =~= creds_before.update(k as int, StoredModel { counter: ctr, ..creds_before[k as int] }));
        let mut pending: Vec<(Vec<u8>, Vec<u8>)> = Vec::new();
        let mut m: usize = 0;
        let ghost target = cands.drop_first().map_values(|c: StoredModel| (c.id, signature@));
        assert forall|q: int| 0 <= q < ids.len() implies #[trigger] target[q] == (ids@[q]@, signature@) by {
            assert(ids@[q] == ids0[q + 1]);
            assert(cands.drop_first()[q] == cands[q + 1]);
        }
        while m < ids.len()
            invariant
                m <= ids.len(),
                ids.len() == target.len(),
                forall|q: int| 0 <= q < ids.len() ==> #[trigger] target[q] == (ids@[q]@, signature@),
                pairs_view(pending@) == target.take(m as int),
            decreases ids.len() - m,
        {
            let ghost prev = pending@;
            pending.push((ids[m].clone(), signature.clone()));
            assert(pairs_view(pending@) =~= pairs_view(prev).push((ids@[m as int]@, signature@)));
            m = m + 1;
            assert(pairs_view(pending@) =~= target.take(m as int));
        }
        assert(target.take(m as int) =~= target);
        self.last_assertion_results = pending;
        let resp = encode_get_assertion_response(cred_id.as_slice(), ad.as_slice(), signature.as_slice());
        (Ok(resp), Ghost((ans, trace.0, trace.1)))
    }

    /// Runs one CTAP2 request: the command byte, then its CBOR payload. The
    /// answer and the new state are those of `spec_dispatch` for what the
    /// environment answered during the request: the calls made to it are
    /// those of `dispatch_calls`, each on the environment the previous one
    /// left, with a possible outcome of that call, and a failure of the
    /// environment is reported with the error it gave. The reported
    /// information never changes.
    pub fn dispatch(&mut self, request: &[u8]) -> (r: Result<Vec<u8>, CtapError<E::Error>>)
        ensures
            final(self).spec_info() == old(self).spec_info(),
            r is Ok ==> response_digests_sized(old(self)@, request@),
            exists|ans: EnvAnswers, calls: Seq<EnvCall<E::Error>>, envs: Seq<E>|
                #![trigger spec_dispatch(old(self)@, old(self).spec_info(), request@, ans), env_ran(old(self).env(), final(self).env(), calls, envs)]
                {
                    &&& ans.wf()
                    &&& spec_dispatch(old(self)@, old(self).spec_info(), request@, ans) == (final(self)@, outcome_of(r))
                    &&& env_ran(old(self).env(), final(self).env(), calls, envs)
                    &&& answered(calls, dispatch_calls(old(self)@, old(self).spec_info(), request@, ans), ans)
                    &&& env_error_in(r, calls)
                },
    {
        let ghost e0 = self.env;
        if request.len() == 0 {
            let ghost t = (no_answers(), Seq::<EnvCall<E::Error>>::empty(), seq![e0]);
            assert(no_answers().wf());
            assert(spec_dispatch(old(self)@, old(self).spec_info(), request@, t.0) == (self@, outcome_of(
                Err::<Vec<u8>, CtapError<E::Error>>(CtapError::MalformedRequest),
            )));
            assert(env_ran(old(self).env(), self.env(), t.1, t.2));
            return Err(CtapError::MalformedRequest);
        }
        let command = request[0];
        let payload = vstd::slice::slice_subrange(request, 1, request.len());
        assert(payload@ =~= request@.drop_first());
        let (r, t) = if command == CMD_GET_INFO {
            (self.handle_get_info(payload), Ghost((no_answers(), Seq::empty(), seq![e0])))
        } else if command == CMD_MAKE_CREDENTIAL {
            self.handle_make_credential(payload)
        } else if command == CMD_GET_ASSERTION {
            self.handle_get_assertion(payload)
        } else if command == CMD_RESET {
            self.handle_reset(payload)
        } else if command == CMD_CLIENT_PIN {
            (self.handle_client_pin(payload), Ghost((no_answers(), Seq::empty(), seq![e0])))
        } else if command == CMD_GET_NEXT_ASSERTION {
            (self.handle_get_next_assertion(payload), Ghost((no_answers(), Seq::empty(), seq![e0])))
        } else {
            (Err(CtapError::Status(CtapStatusCode::InvalidCommand)), Ghost((no_answers(), Seq::empty(), seq![e0])))
        };
        let ghost ans = t@.0;
        let ghost calls = t@.1;
        let ghost envs = t@.2;
        assert(ans.wf());
        assert(spec_dispatch(old(self)@, old(self).spec_info(), request@, ans) == (self@, outcome_of(r)));
        assert(env_ran(old(self).env(), self.env(), calls, envs));
        assert(answered(calls, dispatch_calls(old(self)@, old(self).spec_info(), request@, ans), ans));
        assert(env_error_in(r, calls));
        r
    }
}

} // verus!
pub mod laws;
pub mod payload;
pub mod trailing;
