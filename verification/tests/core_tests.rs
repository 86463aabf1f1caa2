use open_authenticator::{
    sensitive_zeroize, Algorithm, CtapStatusCode, InMemoryTransport, InMemoryTransportError,
    Transport,
};

#[test]
fn inmemory_transport_send_receive_fifo() {
    let mut t = InMemoryTransport::new(10, 1200);
    t.send(b"frame1").unwrap();
    t.send(b"frame2").unwrap();
    let mut buf = vec![0u8; 16];
    let n = t.receive(&mut buf).unwrap();
    assert_eq!(&buf[..n], b"frame1");
    let n = t.receive(&mut buf).unwrap();
    assert_eq!(&buf[..n], b"frame2");
    assert!(matches!(
        t.receive(&mut buf),
        Err(InMemoryTransportError::Empty)
    ));
}

#[test]
fn inmemory_transport_disconnect() {
    let mut t = InMemoryTransport::new(10, 1200);
    t.disconnect();
    assert!(matches!(
        t.send(b"x"),
        Err(InMemoryTransportError::Disconnected)
    ));
    let mut buf = [0u8; 10];
    assert!(matches!(
        t.receive(&mut buf),
        Err(InMemoryTransportError::Disconnected)
    ));
    t.reconnect();
    t.send(b"ok").unwrap();
    let n = t.receive(&mut buf).unwrap();
    assert_eq!(&buf[..n], b"ok");
}

#[test]
fn inmemory_transport_full() {
    let mut t = InMemoryTransport::new(1, 10);
    t.send(b"a").unwrap();
    assert!(matches!(t.send(b"b"), Err(InMemoryTransportError::Full)));
    // a frame longer than the limit is refused too
    t.send(b"toolongpayload").unwrap_err();
    let mut t2 = InMemoryTransport::new(10, 1200);
    t2.send(b"hello world").unwrap();
    let mut tiny = [0u8; 2];
    assert!(matches!(
        t2.receive(&mut tiny),
        Err(InMemoryTransportError::Full)
    ));
    // the refused frame is still queued
    let mut big = [0u8; 20];
    let n = t2.receive(&mut big).unwrap();
    assert_eq!(&big[..n], b"hello world");
}

#[test]
fn inmemory_transport_corrupt() {
    let mut t = InMemoryTransport::new(10, 1200);
    t.send(b"\x04\x00").unwrap();
    t.corrupt_next();
    let mut buf = [0u8; 10];
    let n = t.receive(&mut buf).unwrap();
    assert_ne!(buf[0], 0x04);
    assert_eq!(n, 2);
}

#[test]
fn ctap_status_codes_roundtrip() {
    for code in 0u8..=0x40 {
        let s = CtapStatusCode::from_u8(code);
        assert_eq!(s.as_u8(), code, "code {code:#x} roundtrip falhou {:?}", s);
    }
    assert_eq!(CtapStatusCode::from_u8(0xFF), CtapStatusCode::Other(0xFF));
}

#[test]
fn zeroize_helper_noop_when_disabled() {
    let mut buf = [0xAAu8; 16];
    sensitive_zeroize(&mut buf);
    // the zeroize crate is always linked here: the buffer is wiped
    assert_eq!(buf, [0x00; 16]);
}

#[test]
fn algorithm_ids() {
    assert_eq!(Algorithm::Es256.cose_id(), -7);
    assert_eq!(Algorithm::from_cose_id(-7), Some(Algorithm::Es256));
    assert_eq!(Algorithm::from_cose_id(-999), None);
}

#[test]
fn status_message_shows_the_byte_in_hex() {
    assert_eq!(CtapStatusCode::Success.message(), "CTAP 0x00");
    assert_eq!(CtapStatusCode::NoCredentials.message(), "CTAP 0x2e");
    assert_eq!(CtapStatusCode::UnauthorizedPermission.message(), "CTAP 0x40");
    assert_eq!(CtapStatusCode::Other(0xAB).message(), "CTAP 0xab");
}

#[test]
fn transport_error_messages() {
    assert_eq!(InMemoryTransportError::Full.message(), "transport full");
    assert_eq!(InMemoryTransportError::Empty.message(), "transport empty");
    assert_eq!(
        InMemoryTransportError::Disconnected.message(),
        "transport disconnected"
    );
}
