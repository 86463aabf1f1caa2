use open_authenticator::{
    Algorithm, AuthenticatorInfo, CtapStatusCode, InMemoryTransport, InMemoryTransportError,
    KeyHandle, Options, Signature, StorageKey, Transport,
};

#[test]
fn every_status_byte_roundtrips() {
    for b in 0u8..=255 {
        assert_eq!(CtapStatusCode::from_u8(b).as_u8(), b);
    }
    assert_eq!(CtapStatusCode::from_u8(0x12), CtapStatusCode::InvalidCbor);
    assert_eq!(CtapStatusCode::Success.as_u8(), 0x00);
    assert_eq!(CtapStatusCode::UnauthorizedPermission.as_u8(), 0x40);
    assert_eq!(CtapStatusCode::from_u8(0x07), CtapStatusCode::Other(0x07));
    // a code that is canonical survives the trip through its byte
    assert_eq!(CtapStatusCode::from_u8(CtapStatusCode::PinBlocked.as_u8()), CtapStatusCode::PinBlocked);
}

#[test]
fn cose_ids_roundtrip() {
    for a in [Algorithm::Es256, Algorithm::EdDsa, Algorithm::Rs256] {
        assert_eq!(Algorithm::from_cose_id(a.cose_id()), Some(a));
    }
    assert_eq!(Algorithm::EdDsa.cose_id(), -8);
    assert_eq!(Algorithm::Rs256.cose_id(), -257);
    assert_eq!(Algorithm::from_cose_id(-257), Some(Algorithm::Rs256));
}

#[test]
fn transport_is_fifo_for_many_frames() {
    let mut t = InMemoryTransport::new(0, 0);
    for i in 0u8..16 {
        t.send(&[i, i]).unwrap();
    }
    assert_eq!(t.len(), 16);
    assert!(matches!(t.send(&[99]), Err(InMemoryTransportError::Full)));
    let mut buf = [0u8; 4];
    for i in 0u8..16 {
        assert_eq!(t.receive(&mut buf).unwrap(), 2);
        assert_eq!(&buf[..2], &[i, i]);
    }
    assert!(t.is_empty());
}

#[test]
fn transport_default_frame_limit() {
    let mut t = InMemoryTransport::new(0, 0);
    assert!(t.send(&vec![0u8; 1200]).is_ok());
    assert!(matches!(t.send(&vec![0u8; 1201]), Err(InMemoryTransportError::Full)));
}

#[test]
fn transport_disconnected_keeps_queue() {
    let mut t = InMemoryTransport::new(4, 16);
    t.send(b"kept").unwrap();
    t.disconnect();
    let mut buf = [0u8; 8];
    assert!(matches!(t.receive(&mut buf), Err(InMemoryTransportError::Disconnected)));
    assert_eq!(buf, [0u8; 8]);
    assert_eq!(t.len(), 1);
    t.reconnect();
    let n = t.receive(&mut buf).unwrap();
    assert_eq!(&buf[..n], b"kept");
    assert_eq!(&buf[n..], &[0u8; 4]);
}

#[test]
fn transport_corrupt_twice_restores() {
    let mut t = InMemoryTransport::new(4, 16);
    t.send(&[0x5a, 0x01]).unwrap();
    t.corrupt_next();
    t.corrupt_next();
    let mut buf = [0u8; 4];
    t.receive(&mut buf).unwrap();
    assert_eq!(&buf[..2], &[0x5a, 0x01]);
    // corrupting an empty queue does nothing
    t.corrupt_next();
    assert!(t.is_empty());
}

#[test]
fn transport_clear_queue() {
    let mut t = InMemoryTransport::new(4, 16);
    t.send(b"a").unwrap();
    t.send(b"b").unwrap();
    t.clear_queue();
    assert!(t.is_empty());
    let mut buf = [0u8; 4];
    assert!(matches!(t.receive(&mut buf), Err(InMemoryTransportError::Empty)));
}

#[test]
fn vec_transport_is_lifo() {
    let mut v: Vec<Vec<u8>> = Vec::new();
    v.send(b"one").unwrap();
    v.send(b"two").unwrap();
    let mut small = [0u8; 2];
    assert!(matches!(v.receive(&mut small), Err(InMemoryTransportError::Full)));
    let mut buf = [0u8; 8];
    let n = v.receive(&mut buf).unwrap();
    assert_eq!(&buf[..n], b"two");
    let n = v.receive(&mut buf).unwrap();
    assert_eq!(&buf[..n], b"one");
    assert!(matches!(v.receive(&mut buf), Err(InMemoryTransportError::Empty)));
}

#[test]
fn info_and_options_defaults() {
    let info = AuthenticatorInfo::new([7; 16]);
    assert_eq!(info.aaguid, [7; 16]);
    assert_eq!(info.versions, vec!["FIDO_2_0", "FIDO_2_1"]);
    assert_eq!(info.max_msg_size, 1200);
    assert_eq!(info.pin_uv_auth_protocols, vec![1]);
    assert_eq!(info.transports, vec!["usb"]);
    assert_eq!(info.algorithms, vec![Algorithm::Es256]);
    assert_eq!(info.remaining_discoverable_credentials, Some(25));
    assert_eq!(info.min_pin_length, Some(4));
    assert_eq!(AuthenticatorInfo::default().aaguid, [0; 16]);
    let o = Options::new(true, false, true);
    assert!(o.rk && !o.up && o.uv && !o.always_uv && !o.plat && o.client_pin.is_none());
    assert_eq!(Options::default(), Options::new(false, false, false));
}

#[test]
fn keys_and_zeroization() {
    assert_eq!(StorageKey::from("abc").0, b"abc".to_vec());
    assert_eq!(StorageKey::new(vec![1, 2]).0, vec![1, 2]);
    let mut k = KeyHandle(vec![9; 32]);
    k.zeroize();
    assert!(k.0.is_empty());
    let mut s = Signature(vec![1; 64]);
    s.zeroize();
    assert!(s.0.is_empty());
}
