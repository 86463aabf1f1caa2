use open_authenticator::cbor;
use open_authenticator::{
    Ctap2, CtapError, CtapStatusCode, SecureEnvironment, CMD_GET_ASSERTION, CMD_GET_INFO,
    CMD_MAKE_CREDENTIAL, CMD_RESET,
};
use std::fmt;

#[derive(Debug)]
struct EnvError;
impl fmt::Display for EnvError {
    fn fmt(&self, f: &mut fmt::Formatter<'_>) -> fmt::Result {
        f.write_str("env")
    }
}
impl std::error::Error for EnvError {}

struct Env {
    present: bool,
    counter_byte: u8,
}
impl SecureEnvironment for Env {
    type Error = EnvError;
    fn random(&mut self, out: &mut [u8]) -> Result<(), Self::Error> {
        for (i, b) in out.iter_mut().enumerate() {
            *b = self.counter_byte.wrapping_add(i as u8);
        }
        self.counter_byte = self.counter_byte.wrapping_add(out.len() as u8);
        Ok(())
    }
    fn user_presence(&mut self) -> Result<bool, Self::Error> {
        Ok(self.present)
    }
}

fn new_ctap() -> Ctap2<Env> {
    Ctap2::new(Env { present: true, counter_byte: 0x42 }, [0x11; 16])
}

fn make_credential_payload(client_data_hash: &[u8; 32], rp_id: &str, user_id: &[u8]) -> Vec<u8> {
    let mut payload = Vec::new();
    // map of 4 entries: 1 clientDataHash, 2 rp, 3 user, 4 pubKeyCredParams
    cbor::encode_map_header(&mut payload, 4);
    cbor::encode_unsigned(&mut payload, 0x01);
    cbor::encode_bytes(&mut payload, client_data_hash);
    cbor::encode_unsigned(&mut payload, 0x02);
    cbor::encode_map_header(&mut payload, 1);
    cbor::encode_text(&mut payload, "id");
    cbor::encode_text(&mut payload, rp_id);
    cbor::encode_unsigned(&mut payload, 0x03);
    cbor::encode_map_header(&mut payload, 1);
    cbor::encode_text(&mut payload, "id");
    cbor::encode_bytes(&mut payload, user_id);
    cbor::encode_unsigned(&mut payload, 0x04);
    cbor::encode_array_header(&mut payload, 1);
    cbor::encode_map_header(&mut payload, 2);
    cbor::encode_text(&mut payload, "type");
    cbor::encode_text(&mut payload, "public-key");
    cbor::encode_text(&mut payload, "alg");
    cbor::encode_int(&mut payload, -7);
    payload
}

#[test]
fn get_info_works() {
    let mut ctap = new_ctap();
    let response = ctap.dispatch(&[CMD_GET_INFO]).unwrap();
    assert_eq!(response[0], 0);
    assert!(response.windows(8).any(|w| w == b"FIDO_2_0"));
    assert!(response.windows(8).any(|w| w == b"FIDO_2_1"));
    assert!(response.contains(&0x11));
    // after the status byte comes a map
    let mut dec = cbor::Decoder::new(&response[1..]);
    let map_len = dec.decode_map_header().unwrap();
    assert!(map_len >= 7);
}

#[test]
fn get_info_rejects_payload() {
    let mut ctap = new_ctap();
    let err = ctap.dispatch(&[CMD_GET_INFO, 0x00]).unwrap_err();
    match err {
        CtapError::Status(CtapStatusCode::InvalidLength) => {}
        _ => panic!("expected InvalidLength got {err:?}"),
    }
}

#[test]
fn invalid_command() {
    let mut ctap = new_ctap();
    let err = ctap.dispatch(&[0xff]).unwrap_err();
    match err {
        CtapError::Status(CtapStatusCode::InvalidCommand) => {}
        _ => panic!("expected InvalidCommand"),
    }
}

#[test]
fn malformed_empty() {
    let mut ctap = new_ctap();
    let err = ctap.dispatch(&[]).unwrap_err();
    match err {
        CtapError::MalformedRequest => {}
        _ => panic!("expected MalformedRequest"),
    }
}

#[test]
fn make_credential_basic() {
    let mut ctap = new_ctap();
    let cdh = [0xAA; 32];
    let payload = make_credential_payload(&cdh, "example.com", b"user1");
    let mut request = vec![CMD_MAKE_CREDENTIAL];
    request.extend_from_slice(&payload);
    let resp = ctap.dispatch(&request).expect("makeCredential");
    assert_eq!(resp[0], 0x00);
    // the response map carries authData
    let mut dec = cbor::Decoder::new(&resp[1..]);
    let mlen = dec.decode_map_header().unwrap();
    assert_eq!(mlen, 3);
    // fmt == "none"
    let k = dec.decode_unsigned().unwrap();
    assert_eq!(k, 0x01);
    let fmt = dec.decode_text().unwrap();
    assert_eq!(fmt, "none");
}

#[test]
fn make_credential_missing_parameter() {
    let mut ctap = new_ctap();
    // an empty map => MissingParameter
    let err = ctap.dispatch(&[CMD_MAKE_CREDENTIAL, 0xa0]).unwrap_err();
    match err {
        CtapError::Status(CtapStatusCode::MissingParameter) => {}
        _ => panic!("expected MissingParameter got {err:?}"),
    }
}

#[test]
fn make_credential_duplicate_key_rejected() {
    let mut ctap = new_ctap();
    let mut payload = Vec::new();
    cbor::encode_map_header(&mut payload, 2);
    cbor::encode_unsigned(&mut payload, 0x01);
    cbor::encode_bytes(&mut payload, &[0xAA; 32]);
    cbor::encode_unsigned(&mut payload, 0x01); // duplicate 0x01
    cbor::encode_bytes(&mut payload, &[0xBB; 32]);
    let mut req = vec![CMD_MAKE_CREDENTIAL];
    req.extend_from_slice(&payload);
    let err = ctap.dispatch(&req).unwrap_err();
    match err {
        CtapError::Status(CtapStatusCode::InvalidCbor) => {}
        _ => panic!("expected InvalidCbor for duplicate, got {err:?}"),
    }
}

#[test]
fn make_credential_invalid_type() {
    let mut ctap = new_ctap();
    let mut payload = Vec::new();
    cbor::encode_map_header(&mut payload, 1);
    cbor::encode_unsigned(&mut payload, 0x01);
    cbor::encode_text(&mut payload, "not bytes"); // should be a 32-byte bstr
    let mut req = vec![CMD_MAKE_CREDENTIAL];
    req.extend_from_slice(&payload);
    let err = ctap.dispatch(&req).unwrap_err();
    match err {
        CtapError::Status(CtapStatusCode::CborUnexpectedType) => {}
        _ => panic!("expected CborUnexpectedType got {err:?}"),
    }
}

#[test]
fn get_assertion_no_credentials() {
    let mut ctap = new_ctap();
    let mut payload = Vec::new();
    cbor::encode_map_header(&mut payload, 2);
    cbor::encode_unsigned(&mut payload, 0x01);
    cbor::encode_text(&mut payload, "example.com");
    cbor::encode_unsigned(&mut payload, 0x02);
    cbor::encode_bytes(&mut payload, &[0xCC; 32]);
    let mut req = vec![CMD_GET_ASSERTION];
    req.extend_from_slice(&payload);
    let err = ctap.dispatch(&req).unwrap_err();
    match err {
        CtapError::Status(CtapStatusCode::NoCredentials) => {}
        _ => panic!("expected NoCredentials got {err:?}"),
    }
}

#[test]
fn credential_excluded() {
    let mut ctap = new_ctap();
    let cdh = [0x11; 32];
    let payload = make_credential_payload(&cdh, "example.com", b"u1");
    let mut req = vec![CMD_MAKE_CREDENTIAL];
    req.extend_from_slice(&payload);
    let resp = ctap.dispatch(&req).unwrap();
    assert_eq!(resp[0], 0);

    // the id of the credential just made, read from the credential store
    let existing_id = ctap.credential_id(0).unwrap().clone();

    // a second request that excludes it must fail
    let mut payload2 = Vec::new();
    cbor::encode_map_header(&mut payload2, 5);
    cbor::encode_unsigned(&mut payload2, 0x01);
    cbor::encode_bytes(&mut payload2, &[0x22; 32]);
    cbor::encode_unsigned(&mut payload2, 0x02);
    cbor::encode_map_header(&mut payload2, 1);
    cbor::encode_text(&mut payload2, "id");
    cbor::encode_text(&mut payload2, "example.com");
    cbor::encode_unsigned(&mut payload2, 0x03);
    cbor::encode_map_header(&mut payload2, 1);
    cbor::encode_text(&mut payload2, "id");
    cbor::encode_bytes(&mut payload2, b"u2");
    cbor::encode_unsigned(&mut payload2, 0x04);
    cbor::encode_array_header(&mut payload2, 1);
    cbor::encode_map_header(&mut payload2, 2);
    cbor::encode_text(&mut payload2, "type");
    cbor::encode_text(&mut payload2, "public-key");
    cbor::encode_text(&mut payload2, "alg");
    cbor::encode_int(&mut payload2, -7);
    cbor::encode_unsigned(&mut payload2, 0x05);
    cbor::encode_array_header(&mut payload2, 1);
    cbor::encode_map_header(&mut payload2, 2);
    cbor::encode_text(&mut payload2, "type");
    cbor::encode_text(&mut payload2, "public-key");
    cbor::encode_text(&mut payload2, "id");
    cbor::encode_bytes(&mut payload2, &existing_id);

    let mut req2 = vec![CMD_MAKE_CREDENTIAL];
    req2.extend_from_slice(&payload2);
    let err = ctap.dispatch(&req2).unwrap_err();
    match err {
        CtapError::Status(CtapStatusCode::CredentialExcluded) => {}
        _ => panic!("expected CredentialExcluded got {err:?}"),
    }
}

#[test]
fn invalid_cbor_trailing_bytes() {
    let mut ctap = new_ctap();
    let cdh = [0x55; 32];
    let mut payload = make_credential_payload(&cdh, "example.com", b"user");
    payload.push(0xff); // trailing byte
    let mut req = vec![CMD_MAKE_CREDENTIAL];
    req.extend_from_slice(&payload);
    let err = ctap.dispatch(&req).unwrap_err();
    match err {
        CtapError::Status(CtapStatusCode::InvalidCbor) => {}
        _ => panic!("expected InvalidCbor for trailing, got {err:?}"),
    }
}

#[test]
fn reset_clears() {
    let mut ctap = new_ctap();
    let cdh = [0x33; 32];
    let payload = make_credential_payload(&cdh, "example.com", b"u1");
    let mut req = vec![CMD_MAKE_CREDENTIAL];
    req.extend_from_slice(&payload);
    ctap.dispatch(&req).unwrap();
    assert_eq!(ctap.credential_count(), 1);
    let resp = ctap.dispatch(&[CMD_RESET]).unwrap();
    assert_eq!(resp[0], 0x00);
    assert_eq!(ctap.credential_count(), 0);
    assert_eq!(ctap.signature_counter(), 0);
}

#[test]
fn cbor_non_minimal_rejected() {
    let mut ctap = new_ctap();
    // 0x01 written as 0x18 0x01 (not minimal)
    let payload = vec![0xa1, 0x18, 0x01, 0x58, 0x20, 0xAA, 0xAA, 0xAA, 0xAA, 0xAA, 0xAA, 0xAA, 0xAA, 0xAA, 0xAA, 0xAA, 0xAA, 0xAA, 0xAA, 0xAA, 0xAA, 0xAA, 0xAA, 0xAA, 0xAA, 0xAA, 0xAA, 0xAA, 0xAA, 0xAA, 0xAA, 0xAA, 0xAA, 0xAA, 0xAA, 0xAA, 0xAA];
    let mut req = vec![CMD_MAKE_CREDENTIAL];
    req.extend_from_slice(&payload);
    let err = ctap.dispatch(&req).unwrap_err();
    match err {
        CtapError::Status(CtapStatusCode::InvalidCbor) => {}
        _ => panic!("expected InvalidCbor for non-minimal got {err:?}"),
    }
}

#[test]
fn get_assertion_after_make() {
    let mut ctap = new_ctap();
    let cdh = [0x77; 32];
    let payload = make_credential_payload(&cdh, "example.com", b"alice");
    let mut req = vec![CMD_MAKE_CREDENTIAL];
    req.extend_from_slice(&payload);
    ctap.dispatch(&req).unwrap();

    let mut payload2 = Vec::new();
    cbor::encode_map_header(&mut payload2, 2);
    cbor::encode_unsigned(&mut payload2, 0x01);
    cbor::encode_text(&mut payload2, "example.com");
    cbor::encode_unsigned(&mut payload2, 0x02);
    cbor::encode_bytes(&mut payload2, &[0x88; 32]);
    let mut req2 = vec![CMD_GET_ASSERTION];
    req2.extend_from_slice(&payload2);
    let resp = ctap.dispatch(&req2).unwrap();
    assert_eq!(resp[0], 0x00);
    let mut dec = cbor::Decoder::new(&resp[1..]);
    let mlen = dec.decode_map_header().unwrap();
    assert_eq!(mlen, 3);
}
