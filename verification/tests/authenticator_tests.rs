use open_authenticator::cbor::{self, Decoder};
use open_authenticator::{
    build_get_assertion_payload, build_make_credential_payload, Ctap2, CtapError, CtapStatusCode,
    SecureEnvironment, CMD_CLIENT_PIN, CMD_GET_ASSERTION, CMD_GET_INFO, CMD_GET_NEXT_ASSERTION,
    CMD_MAKE_CREDENTIAL, CMD_RESET,
};
use sha2::{Digest, Sha256};

#[derive(Debug, PartialEq)]
struct Fault;

/// The simulator's environment: a byte counter as entropy, presence on demand.
struct VirtualEnvironment {
    present: bool,
    entropy: u8,
    broken: bool,
}

impl SecureEnvironment for VirtualEnvironment {
    type Error = Fault;
    fn random(&mut self, out: &mut [u8]) -> Result<(), Fault> {
        if self.broken {
            return Err(Fault);
        }
        for byte in out.iter_mut() {
            *byte = self.entropy;
            self.entropy = self.entropy.wrapping_add(1);
        }
        Ok(())
    }
    fn user_presence(&mut self) -> Result<bool, Fault> {
        if self.broken {
            return Err(Fault);
        }
        Ok(self.present)
    }
}

fn authenticator(present: bool) -> Ctap2<VirtualEnvironment> {
    Ctap2::new(VirtualEnvironment { present, entropy: 0x42, broken: false }, [0xAA; 16])
}

fn request(cmd: u8, payload: &[u8]) -> Vec<u8> {
    let mut r = vec![cmd];
    r.extend_from_slice(payload);
    r
}

fn status(r: Result<Vec<u8>, CtapError<Fault>>) -> CtapStatusCode {
    match r {
        Err(CtapError::Status(c)) => c,
        other => panic!("expected a status, got {:?}", other),
    }
}

fn make(ctap: &mut Ctap2<VirtualEnvironment>, rp: &str, user: &[u8]) -> Result<Vec<u8>, CtapError<Fault>> {
    let p = build_make_credential_payload(&[0x11; 32], rp, user);
    ctap.dispatch(&request(CMD_MAKE_CREDENTIAL, &p))
}

#[test]
fn simulator_demo_response_sizes() {
    let mut ctap = authenticator(true);
    let info = ctap.dispatch(&[CMD_GET_INFO]).unwrap();
    assert_eq!(info.len(), 102);
    let mc = make(&mut ctap, "example.com", b"alice").unwrap();
    assert_eq!(mc.len(), 161);
    let ga = ctap
        .dispatch(&request(CMD_GET_ASSERTION, &build_get_assertion_payload("example.com", &[0x22; 32])))
        .unwrap();
    assert_eq!(ga.len(), 147);
    assert_eq!(ctap.dispatch(&[CMD_RESET]).unwrap(), vec![0x00]);
}

#[test]
fn builders_match_hand_encoding() {
    let mut manual = Vec::new();
    cbor::encode_map_header(&mut manual, 2);
    cbor::encode_unsigned(&mut manual, 1);
    cbor::encode_text(&mut manual, "rp.example");
    cbor::encode_unsigned(&mut manual, 2);
    cbor::encode_bytes(&mut manual, &[5; 32]);
    assert_eq!(build_get_assertion_payload("rp.example", &[5; 32]), manual);
}

#[test]
fn get_info_reports_the_configuration() {
    let ctap = authenticator(true);
    let info = ctap.get_info();
    assert!(info.options.rk && info.options.up && !info.options.uv);
    assert_eq!(info.options.client_pin, Some(false));
    assert_eq!(info.aaguid, [0xAA; 16]);
    let mut ctap = authenticator(true);
    let resp = ctap.dispatch(&[CMD_GET_INFO]).unwrap();
    let mut dec = Decoder::new(&resp[1..]);
    assert_eq!(dec.decode_map_header().unwrap(), 7);
    assert_eq!(dec.decode_unsigned().unwrap(), 1);
    assert_eq!(dec.decode_array_header().unwrap(), 2);
    assert_eq!(dec.decode_text().unwrap(), "FIDO_2_0");
    assert_eq!(dec.decode_text().unwrap(), "FIDO_2_1");
    assert_eq!(dec.decode_unsigned().unwrap(), 3);
    assert_eq!(dec.decode_bytes().unwrap(), vec![0xAA; 16]);
    assert_eq!(dec.decode_unsigned().unwrap(), 4);
    assert_eq!(dec.decode_map_header().unwrap(), 4);
    for _ in 0..8 {
        dec.skip_value().unwrap();
    }
    assert_eq!(dec.decode_unsigned().unwrap(), 5);
    assert_eq!(dec.decode_unsigned().unwrap(), 1200);
    for _ in 0..6 {
        dec.skip_value().unwrap();
    }
    assert!(dec.expect_end().is_ok());
}

#[test]
fn make_credential_auth_data_layout() {
    let mut ctap = authenticator(true);
    let resp = make(&mut ctap, "example.com", b"alice").unwrap();
    let mut dec = Decoder::new(&resp[1..]);
    dec.decode_map_header().unwrap();
    dec.decode_unsigned().unwrap();
    dec.decode_text().unwrap();
    assert_eq!(dec.decode_unsigned().unwrap(), 2);
    let ad = dec.decode_bytes().unwrap();
    assert_eq!(&ad[..32], Sha256::digest(b"example.com").as_slice());
    assert_eq!(ad[32], 0x41);
    assert_eq!(&ad[33..37], &[0, 0, 0, 1]);
    assert_eq!(&ad[37..53], &[0xAA; 16]);
    assert_eq!(&ad[53..55], &[0, 16]);
    // the id is the first 16 random bytes with the counter mixed in
    let mut expected_id: Vec<u8> = (0x42u8..0x52).collect();
    expected_id[0] ^= 1;
    assert_eq!(&ad[55..71], expected_id.as_slice());
    assert_eq!(ctap.credential_id(0).unwrap(), &expected_id);
    assert_eq!(dec.decode_unsigned().unwrap(), 3);
    assert_eq!(dec.decode_map_header().unwrap(), 0);
    assert!(dec.expect_end().is_ok());
    assert_eq!(ctap.signature_counter(), 1);
}

#[test]
fn assertion_signature_and_counter() {
    let mut ctap = authenticator(true);
    make(&mut ctap, "example.com", b"alice").unwrap();
    let cdh = [0x22; 32];
    let resp = ctap
        .dispatch(&request(CMD_GET_ASSERTION, &build_get_assertion_payload("example.com", &cdh)))
        .unwrap();
    assert_eq!(ctap.signature_counter(), 2);
    let mut dec = Decoder::new(&resp[1..]);
    assert_eq!(dec.decode_map_header().unwrap(), 3);
    assert_eq!(dec.decode_unsigned().unwrap(), 1);
    assert_eq!(dec.decode_map_header().unwrap(), 2);
    assert_eq!(dec.decode_text().unwrap(), "id");
    assert_eq!(&dec.decode_bytes().unwrap(), ctap.credential_id(0).unwrap());
    assert_eq!(dec.decode_text().unwrap(), "type");
    assert_eq!(dec.decode_text().unwrap(), "public-key");
    assert_eq!(dec.decode_unsigned().unwrap(), 2);
    let ad = dec.decode_bytes().unwrap();
    assert_eq!(ad.len(), 37);
    assert_eq!(&ad[..32], Sha256::digest(b"example.com").as_slice());
    assert_eq!(ad[32], 0x01);
    assert_eq!(&ad[33..37], &[0, 0, 0, 2]);
    assert_eq!(dec.decode_unsigned().unwrap(), 3);
    let sig = dec.decode_bytes().unwrap();
    let mut signed = ad.clone();
    signed.extend_from_slice(&cdh);
    let h = Sha256::digest(&signed);
    assert_eq!(&sig[..32], h.as_slice());
    assert_eq!(&sig[32..], h.as_slice());
}

#[test]
fn next_assertion_walks_the_other_credentials() {
    let mut ctap = authenticator(true);
    make(&mut ctap, "example.com", b"alice").unwrap();
    make(&mut ctap, "other.org", b"carol").unwrap();
    make(&mut ctap, "example.com", b"bob").unwrap();
    let first = ctap
        .dispatch(&request(CMD_GET_ASSERTION, &build_get_assertion_payload("example.com", &[1; 32])))
        .unwrap();
    assert!(first.windows(16).any(|w| w == ctap.credential_id(0).unwrap().as_slice()));
    let next = ctap.dispatch(&[CMD_GET_NEXT_ASSERTION]).unwrap();
    assert!(next.windows(16).any(|w| w == ctap.credential_id(2).unwrap().as_slice()));
    assert_eq!(ctap.signature_counter(), 5);
    assert_eq!(status(ctap.dispatch(&[CMD_GET_NEXT_ASSERTION])), CtapStatusCode::NotAllowed);
    assert_eq!(status(ctap.dispatch(&[CMD_GET_NEXT_ASSERTION, 0])), CtapStatusCode::InvalidLength);
}

#[test]
fn allow_list_filters_credentials() {
    let mut ctap = authenticator(true);
    make(&mut ctap, "example.com", b"alice").unwrap();
    let mut p = Vec::new();
    cbor::encode_map_header(&mut p, 3);
    cbor::encode_unsigned(&mut p, 1);
    cbor::encode_text(&mut p, "example.com");
    cbor::encode_unsigned(&mut p, 2);
    cbor::encode_bytes(&mut p, &[3; 32]);
    cbor::encode_unsigned(&mut p, 3);
    cbor::encode_array_header(&mut p, 1);
    cbor::encode_map_header(&mut p, 2);
    cbor::encode_text(&mut p, "id");
    cbor::encode_bytes(&mut p, &[0u8; 16]);
    cbor::encode_text(&mut p, "type");
    cbor::encode_text(&mut p, "public-key");
    assert_eq!(status(ctap.dispatch(&request(CMD_GET_ASSERTION, &p))), CtapStatusCode::NoCredentials);
    assert_eq!(ctap.signature_counter(), 1);
}

#[test]
fn presence_denied_changes_nothing() {
    let mut ctap = authenticator(false);
    assert_eq!(status(make(&mut ctap, "example.com", b"alice")), CtapStatusCode::OperationDenied);
    assert_eq!(ctap.credential_count(), 0);
    assert_eq!(ctap.signature_counter(), 0);
    assert_eq!(status(ctap.dispatch(&[CMD_RESET])), CtapStatusCode::OperationDenied);
    assert_eq!(status(ctap.dispatch(&[CMD_RESET, 1])), CtapStatusCode::InvalidLength);
}

#[test]
fn environment_failure_is_reported() {
    let mut ctap = Ctap2::new(VirtualEnvironment { present: true, entropy: 0, broken: true }, [0; 16]);
    match make(&mut ctap, "example.com", b"alice") {
        Err(CtapError::Environment(Fault)) => {}
        other => panic!("expected an environment failure, got {:?}", other),
    }
    match ctap.dispatch(&[CMD_RESET]) {
        Err(CtapError::Environment(Fault)) => {}
        other => panic!("expected an environment failure, got {:?}", other),
    }
    assert_eq!(ctap.credential_count(), 0);
}

fn mc_with(extra: &[(u64, Vec<u8>)], algs: &[i64], user: &[u8], cdh_len: usize) -> Vec<u8> {
    let mut p = Vec::new();
    cbor::encode_map_header(&mut p, 4 + extra.len() as u64);
    cbor::encode_unsigned(&mut p, 1);
    cbor::encode_bytes(&mut p, &vec![0x11; cdh_len]);
    cbor::encode_unsigned(&mut p, 2);
    cbor::encode_map_header(&mut p, 1);
    cbor::encode_text(&mut p, "id");
    cbor::encode_text(&mut p, "example.com");
    cbor::encode_unsigned(&mut p, 3);
    cbor::encode_map_header(&mut p, 1);
    cbor::encode_text(&mut p, "id");
    cbor::encode_bytes(&mut p, user);
    cbor::encode_unsigned(&mut p, 4);
    cbor::encode_array_header(&mut p, algs.len() as u64);
    for a in algs {
        cbor::encode_map_header(&mut p, 2);
        cbor::encode_text(&mut p, "type");
        cbor::encode_text(&mut p, "public-key");
        cbor::encode_text(&mut p, "alg");
        cbor::encode_int(&mut p, *a);
    }
    for (k, v) in extra {
        cbor::encode_unsigned(&mut p, *k);
        p.extend_from_slice(v);
    }
    p
}

fn options(entries: &[(&str, bool)]) -> Vec<u8> {
    let mut o = Vec::new();
    cbor::encode_map_header(&mut o, entries.len() as u64);
    for (k, v) in entries {
        cbor::encode_text(&mut o, k);
        cbor::encode_bool(&mut o, *v);
    }
    o
}

#[test]
fn make_credential_parameter_errors() {
    let mut ctap = authenticator(true);
    let mc = |p: Vec<u8>| request(CMD_MAKE_CREDENTIAL, &p);
    assert_eq!(status(ctap.dispatch(&mc(mc_with(&[], &[-7], b"u", 31)))), CtapStatusCode::InvalidParameter);
    assert_eq!(status(ctap.dispatch(&mc(mc_with(&[], &[-7], &[0; 65], 32)))), CtapStatusCode::InvalidParameter);
    assert_eq!(status(ctap.dispatch(&mc(mc_with(&[], &[-7], &[], 32)))), CtapStatusCode::InvalidParameter);
    assert_eq!(status(ctap.dispatch(&mc(mc_with(&[], &[-7; 9], b"u", 32)))), CtapStatusCode::LimitExceeded);
    assert_eq!(status(ctap.dispatch(&mc(mc_with(&[], &[], b"u", 32)))), CtapStatusCode::MissingParameter);
    assert_eq!(status(ctap.dispatch(&mc(mc_with(&[], &[-999, 3], b"u", 32)))), CtapStatusCode::UnsupportedAlgorithm);
    // an algorithm list with one supported entry is accepted
    assert!(ctap.dispatch(&mc(mc_with(&[], &[-999, -257], b"u", 32))).is_ok());
    let mut too_many = vec![0x90];
    too_many.extend(std::iter::repeat(0xa0).take(16));
    let mut seventeen = vec![0x91];
    seventeen.extend(std::iter::repeat(0xa0).take(17));
    assert!(ctap.dispatch(&mc(mc_with(&[(5, too_many)], &[-7], b"u", 32))).is_ok());
    assert_eq!(status(ctap.dispatch(&mc(mc_with(&[(5, seventeen)], &[-7], b"u", 32)))), CtapStatusCode::LimitExceeded);
    let ten: Vec<(u64, Vec<u8>)> = (10u64..16).map(|k| (k, vec![0x00])).collect();
    assert_eq!(status(ctap.dispatch(&mc(mc_with(&ten, &[-7], b"u", 32)))), CtapStatusCode::InvalidCbor);
    // unknown keys and extensions are skipped
    assert!(ctap.dispatch(&mc(mc_with(&[(6, vec![0xa1, 0x61, 0x78, 0xf5]), (0x20, vec![0x80])], &[-7], b"u", 32))).is_ok());
    // an empty rp map
    let mut p = Vec::new();
    cbor::encode_map_header(&mut p, 1);
    cbor::encode_unsigned(&mut p, 2);
    cbor::encode_map_header(&mut p, 0);
    assert_eq!(status(ctap.dispatch(&mc(p))), CtapStatusCode::InvalidCbor);
    // an rp map without id
    let mut p = Vec::new();
    cbor::encode_map_header(&mut p, 1);
    cbor::encode_unsigned(&mut p, 2);
    cbor::encode_map_header(&mut p, 1);
    cbor::encode_text(&mut p, "name");
    cbor::encode_text(&mut p, "Example");
    assert_eq!(status(ctap.dispatch(&mc(p))), CtapStatusCode::MissingParameter);
    // a pin protocol beyond 32 bits
    let mut big = Vec::new();
    cbor::encode_unsigned(&mut big, 1 << 40);
    assert_eq!(status(ctap.dispatch(&mc(mc_with(&[(9, big)], &[-7], b"u", 32)))), CtapStatusCode::InvalidParameter);
}

#[test]
fn make_credential_option_errors() {
    let mut ctap = authenticator(true);
    let mc = |p: Vec<u8>| request(CMD_MAKE_CREDENTIAL, &p);
    assert_eq!(status(ctap.dispatch(&mc(mc_with(&[(7, options(&[("uv", true)]))], &[-7], b"u", 32)))), CtapStatusCode::UnsupportedOption);
    assert_eq!(status(ctap.dispatch(&mc(mc_with(&[(7, options(&[("uv", true), ("uv", false)]))], &[-7], b"u", 32)))), CtapStatusCode::InvalidCbor);
    let mut pin = Vec::new();
    cbor::encode_bytes(&mut pin, &[1; 16]);
    let mut proto2 = Vec::new();
    cbor::encode_unsigned(&mut proto2, 2);
    let mut proto1 = Vec::new();
    cbor::encode_unsigned(&mut proto1, 1);
    assert_eq!(status(ctap.dispatch(&mc(mc_with(&[(8, pin.clone()), (9, proto2)], &[-7], b"u", 32)))), CtapStatusCode::PinAuthInvalid);
    assert_eq!(status(ctap.dispatch(&mc(mc_with(&[(8, pin)], &[-7], b"u", 32)))), CtapStatusCode::PinAuthInvalid);
    let mut pin = Vec::new();
    cbor::encode_bytes(&mut pin, &[1; 16]);
    assert_eq!(status(ctap.dispatch(&mc(mc_with(&[(8, pin), (9, proto1)], &[-7], b"u", 32)))), CtapStatusCode::PinNotSet);
    // without user presence requested, no presence is asked for
    let mut quiet = authenticator(false);
    assert!(quiet.dispatch(&mc(mc_with(&[(7, options(&[("up", false)]))], &[-7], b"u", 32))).is_ok());
    assert_eq!(quiet.credential_count(), 1);
    assert_eq!(ctap.credential_count(), 0);
}

#[test]
fn resident_keys_fill_up() {
    let mut ctap = authenticator(true);
    let rk = mc_with(&[(7, options(&[("rk", true)]))], &[-7], b"u", 32);
    for _ in 0..24 {
        ctap.dispatch(&request(CMD_MAKE_CREDENTIAL, &rk)).unwrap();
    }
    assert_eq!(status(ctap.dispatch(&request(CMD_MAKE_CREDENTIAL, &rk))), CtapStatusCode::KeyStoreFull);
    assert_eq!(ctap.credential_count(), 24);
    // without rk there is still room
    assert!(make(&mut ctap, "example.com", b"u").is_ok());
}

#[test]
fn get_assertion_errors() {
    let mut ctap = authenticator(true);
    make(&mut ctap, "example.com", b"alice").unwrap();
    let ga = |p: Vec<u8>| request(CMD_GET_ASSERTION, &p);
    assert_eq!(status(ctap.dispatch(&[CMD_GET_ASSERTION])), CtapStatusCode::MissingParameter);
    let mut p = Vec::new();
    cbor::encode_map_header(&mut p, 1);
    cbor::encode_unsigned(&mut p, 1);
    cbor::encode_text(&mut p, "example.com");
    assert_eq!(status(ctap.dispatch(&ga(p))), CtapStatusCode::MissingParameter);
    let mut p = Vec::new();
    cbor::encode_map_header(&mut p, 2);
    cbor::encode_unsigned(&mut p, 1);
    cbor::encode_text(&mut p, "example.com");
    cbor::encode_unsigned(&mut p, 2);
    cbor::encode_bytes(&mut p, &[0; 31]);
    assert_eq!(status(ctap.dispatch(&ga(p))), CtapStatusCode::InvalidParameter);
    let mut p = build_get_assertion_payload("example.com", &[0; 32]);
    p[0] = 0xa3;
    cbor::encode_unsigned(&mut p, 5);
    p.extend_from_slice(&options(&[("uv", true)]));
    assert_eq!(status(ctap.dispatch(&ga(p))), CtapStatusCode::UnsupportedOption);
    assert_eq!(ctap.signature_counter(), 1);
}

fn client_pin(entries: &[(u64, u64)]) -> Vec<u8> {
    let mut p = Vec::new();
    cbor::encode_map_header(&mut p, entries.len() as u64);
    for (k, v) in entries {
        cbor::encode_unsigned(&mut p, *k);
        cbor::encode_unsigned(&mut p, *v);
    }
    request(CMD_CLIENT_PIN, &p)
}

#[test]
fn client_pin_is_always_refused() {
    let mut ctap = authenticator(true);
    assert_eq!(status(ctap.dispatch(&client_pin(&[(1, 1)]))), CtapStatusCode::PinNotSet);
    assert_eq!(status(ctap.dispatch(&client_pin(&[(1, 3), (2, 1)]))), CtapStatusCode::PinNotSet);
    assert_eq!(status(ctap.dispatch(&client_pin(&[(1, 4)]))), CtapStatusCode::PinRequired);
    assert_eq!(status(ctap.dispatch(&client_pin(&[(1, 6)]))), CtapStatusCode::PinAuthInvalid);
    assert_eq!(status(ctap.dispatch(&client_pin(&[(1, 9)]))), CtapStatusCode::PinAuthInvalid);
    assert_eq!(status(ctap.dispatch(&client_pin(&[(1, 5)]))), CtapStatusCode::InvalidSubcommand);
    assert_eq!(status(ctap.dispatch(&client_pin(&[(2, 1)]))), CtapStatusCode::MissingParameter);
    assert_eq!(status(ctap.dispatch(&client_pin(&[]))), CtapStatusCode::MissingParameter);
    assert_eq!(status(ctap.dispatch(&client_pin(&[(1, 1), (1, 2)]))), CtapStatusCode::InvalidCbor);
    assert_eq!(status(ctap.dispatch(&[CMD_CLIENT_PIN])), CtapStatusCode::MissingParameter);
    let mut trailing = client_pin(&[(1, 1)]);
    trailing.push(0);
    assert_eq!(status(ctap.dispatch(&trailing)), CtapStatusCode::InvalidCbor);
}

#[test]
fn reset_then_nothing_to_assert() {
    let mut ctap = authenticator(true);
    make(&mut ctap, "example.com", b"alice").unwrap();
    make(&mut ctap, "example.com", b"bob").unwrap();
    ctap.dispatch(&request(CMD_GET_ASSERTION, &build_get_assertion_payload("example.com", &[1; 32]))).unwrap();
    ctap.dispatch(&[CMD_RESET]).unwrap();
    assert_eq!(status(ctap.dispatch(&[CMD_GET_NEXT_ASSERTION])), CtapStatusCode::NotAllowed);
    assert_eq!(
        status(ctap.dispatch(&request(CMD_GET_ASSERTION, &build_get_assertion_payload("example.com", &[1; 32])))),
        CtapStatusCode::NoCredentials
    );
    ctap.reset_counter();
    assert_eq!(ctap.signature_counter(), 0);
}

#[test]
fn status_conversion_into_error() {
    let e: CtapError<Fault> = CtapStatusCode::PinBlocked.into();
    assert!(matches!(e, CtapError::Status(CtapStatusCode::PinBlocked)));
}

#[test]
fn client_payloads_register_then_sign() {
    // a long relying party and a user id at the 64-byte limit
    let rp = "login.accounts.example-relying-party.org";
    let user = [0x5A; 64];
    let mut ctap = authenticator(true);
    assert!(make(&mut ctap, rp, &user).is_ok());
    assert_eq!(ctap.credential_count(), 1);
    let ga = build_get_assertion_payload(rp, &[0x33; 32]);
    let resp = ctap.dispatch(&request(CMD_GET_ASSERTION, &ga)).unwrap();
    assert_eq!(resp[0], 0x00);
    assert_eq!(ctap.signature_counter(), 2);
    // one byte past the limit the same payload is refused
    let mut ctap = authenticator(true);
    assert_eq!(status(make(&mut ctap, rp, &[0x5A; 65])), CtapStatusCode::InvalidParameter);
    assert_eq!(status(make(&mut ctap, rp, &[])), CtapStatusCode::InvalidParameter);
    assert_eq!(ctap.credential_count(), 0);
}

#[test]
fn built_make_credential_payload_layout() {
    let p = build_make_credential_payload(&[0x11; 32], "a.b", b"u");
    let mut manual = Vec::new();
    cbor::encode_map_header(&mut manual, 4);
    cbor::encode_unsigned(&mut manual, 1);
    cbor::encode_bytes(&mut manual, &[0x11; 32]);
    cbor::encode_unsigned(&mut manual, 2);
    cbor::encode_map_header(&mut manual, 1);
    cbor::encode_text(&mut manual, "id");
    cbor::encode_text(&mut manual, "a.b");
    cbor::encode_unsigned(&mut manual, 3);
    cbor::encode_map_header(&mut manual, 1);
    cbor::encode_text(&mut manual, "id");
    cbor::encode_bytes(&mut manual, b"u");
    cbor::encode_unsigned(&mut manual, 4);
    cbor::encode_array_header(&mut manual, 1);
    cbor::encode_map_header(&mut manual, 2);
    cbor::encode_text(&mut manual, "type");
    cbor::encode_text(&mut manual, "public-key");
    cbor::encode_text(&mut manual, "alg");
    cbor::encode_int(&mut manual, -7);
    assert_eq!(p, manual);
    // the pubKeyCredParams entry takes 24 bytes at the end
    assert_eq!(p.len(), 1 + 35 + (1 + 1 + 3 + 4) + (1 + 1 + 3 + 2) + 24);
}

#[test]
fn any_trailing_bytes_are_refused() {
    let mut ctap = authenticator(true);
    for extra in [vec![0x00], vec![0xF6], vec![0x01, 0x02, 0x03]] {
        let mut p = build_make_credential_payload(&[0x11; 32], "example.com", b"alice");
        p.extend_from_slice(&extra);
        assert_eq!(
            status(ctap.dispatch(&request(CMD_MAKE_CREDENTIAL, &p))),
            CtapStatusCode::InvalidCbor
        );
        assert_eq!(ctap.credential_count(), 0);
    }
    assert!(make(&mut ctap, "example.com", b"alice").is_ok());
    let counter = ctap.signature_counter();
    let mut g = build_get_assertion_payload("example.com", &[0x22; 32]);
    g.push(0xA0);
    assert_eq!(status(ctap.dispatch(&request(CMD_GET_ASSERTION, &g))), CtapStatusCode::InvalidCbor);
    assert_eq!(ctap.signature_counter(), counter);
}

#[test]
fn algorithms_outside_i32_are_unsupported() {
    let mut ctap = authenticator(true);
    let mc = |p: Vec<u8>| request(CMD_MAKE_CREDENTIAL, &p);
    // -7 plus or minus 2^32 is not ES256
    let wrapped = (1i64 << 32) - 7;
    assert_eq!(status(ctap.dispatch(&mc(mc_with(&[], &[wrapped], b"u", 32)))), CtapStatusCode::UnsupportedAlgorithm);
    assert_eq!(status(ctap.dispatch(&mc(mc_with(&[], &[-7 - (1i64 << 32)], b"u", 32)))), CtapStatusCode::UnsupportedAlgorithm);
    assert_eq!(status(ctap.dispatch(&mc(mc_with(&[], &[i64::MIN], b"u", 32)))), CtapStatusCode::UnsupportedAlgorithm);
    assert_eq!(ctap.credential_count(), 0);
    assert!(ctap.dispatch(&mc(mc_with(&[], &[wrapped, -8], b"u", 32))).is_ok());
}

#[test]
fn reported_info_never_changes() {
    let mut ctap = authenticator(true);
    let info0 = ctap.get_info().clone();
    let _ = make(&mut ctap, "example.com", b"alice");
    let _ = ctap.dispatch(&request(CMD_GET_ASSERTION, &build_get_assertion_payload("example.com", &[0x22; 32])));
    let _ = ctap.dispatch(&[0x55]);
    let _ = ctap.dispatch(&[]);
    ctap.reset_counter();
    let _ = ctap.dispatch(&[CMD_RESET]);
    assert_eq!(*ctap.get_info(), info0);
}

#[test]
fn counter_restarts_after_reset_counter() {
    let mut ctap = authenticator(true);
    make(&mut ctap, "example.com", b"alice").unwrap();
    make(&mut ctap, "example.com", b"bob").unwrap();
    ctap.reset_counter();
    let resp = make(&mut ctap, "example.com", b"carol").unwrap();
    // status 0, then { 1: "none", 2: authData (148 bytes), 3: {} }
    let ad_start = resp.windows(3).position(|w| w == [0x02, 0x58, 0x94]).unwrap() + 3;
    assert_eq!(&resp[ad_start + 33..ad_start + 37], &[0, 0, 0, 1]);
}
