use open_authenticator::cbor::{self, Decoder};
use open_authenticator::CtapStatusCode;

fn head(major: u8, v: u64) -> Vec<u8> {
    let mut b = Vec::new();
    match major {
        0 => cbor::encode_unsigned(&mut b, v),
        4 => cbor::encode_array_header(&mut b, v),
        5 => cbor::encode_map_header(&mut b, v),
        _ => unreachable!(),
    }
    b
}

#[test]
fn unsigned_heads_are_shortest() {
    assert_eq!(head(0, 0), vec![0x00]);
    assert_eq!(head(0, 23), vec![0x17]);
    assert_eq!(head(0, 24), vec![0x18, 0x18]);
    assert_eq!(head(0, 255), vec![0x18, 0xff]);
    assert_eq!(head(0, 256), vec![0x19, 0x01, 0x00]);
    assert_eq!(head(0, 65535), vec![0x19, 0xff, 0xff]);
    assert_eq!(head(0, 65536), vec![0x1a, 0x00, 0x01, 0x00, 0x00]);
    assert_eq!(head(0, 4294967295), vec![0x1a, 0xff, 0xff, 0xff, 0xff]);
    assert_eq!(head(0, 4294967296), vec![0x1b, 0, 0, 0, 1, 0, 0, 0, 0]);
    assert_eq!(head(0, u64::MAX), vec![0x1b, 0xff, 0xff, 0xff, 0xff, 0xff, 0xff, 0xff, 0xff]);
    assert_eq!(head(4, 3), vec![0x83]);
    assert_eq!(head(5, 7), vec![0xa7]);
}

#[test]
fn head_roundtrip_at_boundaries() {
    for &v in &[0u64, 1, 23, 24, 255, 256, 65535, 65536, 4294967295, 4294967296, u64::MAX] {
        for &major in &[0u8, 4, 5] {
            let mut bytes = head(major, v);
            bytes.push(0x42);
            let mut dec = Decoder::new(&bytes);
            assert_eq!(dec.decode_head().unwrap(), (major, v));
            assert_eq!(dec.remaining(), 1);
            assert_eq!(dec.peek(), Some(0x42));
        }
    }
}

#[test]
fn int_roundtrip() {
    for &n in &[0i64, 1, -1, 23, -24, -25, 100, -100, -257, i64::MAX, i64::MIN] {
        let mut b = Vec::new();
        cbor::encode_int(&mut b, n);
        let mut dec = Decoder::new(&b);
        assert_eq!(dec.decode_int().unwrap(), n);
        assert!(dec.expect_end().is_ok());
    }
    let mut b = Vec::new();
    cbor::encode_negative(&mut b, -7);
    assert_eq!(b, vec![0x26]);
    let mut b = Vec::new();
    cbor::encode_int(&mut b, -257);
    assert_eq!(b, vec![0x39, 0x01, 0x00]);
}

#[test]
fn negative_argument_past_i64_refused() {
    // major 1 with argument 2^64 - 1 stands for -2^64, outside i64
    let b = [0x3b, 0xff, 0xff, 0xff, 0xff, 0xff, 0xff, 0xff, 0xff];
    assert_eq!(Decoder::new(&b).decode_int().unwrap_err(), CtapStatusCode::InvalidCbor);
    // major 1 with argument 2^63 stands for -2^63 - 1, outside i64
    let b = [0x3b, 0x80, 0, 0, 0, 0, 0, 0, 0];
    assert_eq!(Decoder::new(&b).decode_int().unwrap_err(), CtapStatusCode::InvalidCbor);
    // major 1 with argument 2^63 - 1 is i64::MIN
    let b = [0x3b, 0x7f, 0xff, 0xff, 0xff, 0xff, 0xff, 0xff, 0xff];
    assert_eq!(Decoder::new(&b).decode_int().unwrap(), i64::MIN);
    // unsigned past i64::MAX is refused
    let b = [0x1b, 0x80, 0, 0, 0, 0, 0, 0, 0];
    assert_eq!(Decoder::new(&b).decode_int().unwrap_err(), CtapStatusCode::InvalidCbor);
}

#[test]
fn bytes_text_bool_null_roundtrip() {
    let mut b = Vec::new();
    cbor::encode_bytes(&mut b, &[1, 2, 3]);
    cbor::encode_text(&mut b, "héllo");
    cbor::encode_bool(&mut b, true);
    cbor::encode_bool(&mut b, false);
    cbor::encode_null(&mut b);
    assert_eq!(&b[..4], &[0x43, 1, 2, 3]);
    let mut dec = Decoder::new(&b);
    assert_eq!(dec.decode_bytes().unwrap(), vec![1, 2, 3]);
    assert_eq!(dec.decode_text().unwrap(), "héllo");
    assert!(dec.decode_bool().unwrap());
    assert!(!dec.decode_simple_bool().unwrap());
    dec.decode_null().unwrap();
    assert!(dec.is_empty());
    assert_eq!(dec.pos(), b.len());
    assert!(dec.expect_end().is_ok());
}

#[test]
fn non_canonical_heads_refused() {
    let cases: [&[u8]; 6] = [
        &[0x18, 0x05],
        &[0x19, 0x00, 0xff],
        &[0x1a, 0x00, 0x00, 0xff, 0xff],
        &[0x1b, 0, 0, 0, 0, 0xff, 0xff, 0xff, 0xff],
        &[0x18],
        &[0x19, 0x01],
    ];
    for c in cases.iter() {
        assert_eq!(Decoder::new(c).decode_head().unwrap_err(), CtapStatusCode::InvalidCbor);
    }
}

#[test]
fn unsupported_forms_refused() {
    // indefinite array, reserved additional information, tag, half float, simple(24)
    for c in [[0x9fu8], [0x1c], [0xc0], [0xf9], [0xf8]].iter() {
        assert_eq!(Decoder::new(c).decode_head().unwrap_err(), CtapStatusCode::InvalidCbor);
    }
    assert_eq!(Decoder::new(&[]).decode_head().unwrap_err(), CtapStatusCode::InvalidCbor);
}

#[test]
fn wrong_types_refused() {
    assert_eq!(Decoder::new(&[0x61, 0x61]).decode_bytes().unwrap_err(), CtapStatusCode::CborUnexpectedType);
    assert_eq!(Decoder::new(&[0x41, 0x61]).decode_text().unwrap_err(), CtapStatusCode::CborUnexpectedType);
    assert_eq!(Decoder::new(&[0x01]).decode_bool().unwrap_err(), CtapStatusCode::CborUnexpectedType);
    assert_eq!(Decoder::new(&[0xf5]).decode_null().unwrap_err(), CtapStatusCode::CborUnexpectedType);
    assert_eq!(Decoder::new(&[0x20]).decode_unsigned().unwrap_err(), CtapStatusCode::CborUnexpectedType);
    assert_eq!(Decoder::new(&[0xa0]).decode_array_header().unwrap_err(), CtapStatusCode::CborUnexpectedType);
    assert_eq!(Decoder::new(&[0x80]).decode_map_header().unwrap_err(), CtapStatusCode::CborUnexpectedType);
    assert_eq!(Decoder::new(&[0x42, 0x01]).decode_bytes().unwrap_err(), CtapStatusCode::InvalidCbor);
}

#[test]
fn invalid_utf8_text_refused() {
    assert_eq!(Decoder::new(&[0x62, 0xc3, 0x28]).decode_text().unwrap_err(), CtapStatusCode::InvalidCbor);
    assert_eq!(Decoder::new(&[0x62, 0xc3, 0xa9]).decode_text().unwrap(), "é");
}

#[test]
fn skip_value_nested() {
    // [1, {"a": [2, 3]}, h'0102', null] followed by 0x05
    let b = [0x84, 0x01, 0xa1, 0x61, 0x61, 0x82, 0x02, 0x03, 0x42, 0x01, 0x02, 0xf6, 0x05];
    let mut dec = Decoder::new(&b);
    dec.skip_value().unwrap();
    assert_eq!(dec.pos(), 12);
    assert_eq!(dec.decode_unsigned().unwrap(), 5);
}

#[test]
fn skip_value_truncated_refused() {
    assert_eq!(Decoder::new(&[0x83, 0x01, 0x02]).skip_value().unwrap_err(), CtapStatusCode::InvalidCbor);
    assert_eq!(Decoder::new(&[0xbb, 0xff, 0xff, 0xff, 0xff, 0xff, 0xff, 0xff, 0xff]).skip_value().unwrap_err(), CtapStatusCode::InvalidCbor);
    assert_eq!(Decoder::new(&[0x5a, 0x00, 0x01, 0x00, 0x00]).skip_value().unwrap_err(), CtapStatusCode::InvalidCbor);
}

#[test]
fn trailing_bytes_detected() {
    let b = [0x01, 0x02];
    let mut dec = Decoder::new(&b);
    dec.decode_unsigned().unwrap();
    assert_eq!(dec.expect_end().unwrap_err(), CtapStatusCode::InvalidCbor);
    assert_eq!(dec.remaining(), 1);
}

#[test]
fn map_int_keys_reads_header() {
    let mut seen = std::collections::BTreeSet::new();
    seen.insert(3u64);
    let mut dec = Decoder::new(&[0xa2]);
    assert_eq!(cbor::decode_map_int_keys(&mut dec, &mut seen).unwrap(), 2);
    assert_eq!(seen.len(), 1);
}

#[test]
fn cursor_after_refusals_never_moves_back() {
    // a boolean: nothing to read keeps the cursor, another byte moves past it
    let mut d = Decoder::new(&[]);
    assert_eq!(d.decode_bool().unwrap_err(), CtapStatusCode::InvalidCbor);
    assert_eq!(d.pos(), 0);
    let mut d = Decoder::new(&[0x00, 0xf5]);
    assert_eq!(d.decode_bool().unwrap_err(), CtapStatusCode::CborUnexpectedType);
    assert_eq!(d.pos(), 1);
    assert_eq!(d.decode_bool(), Ok(true));
    assert_eq!(d.pos(), 2);
    // a one-byte argument below 24 is read, then refused
    let mut d = Decoder::new(&[0x18, 0x05]);
    assert_eq!(d.decode_head().unwrap_err(), CtapStatusCode::InvalidCbor);
    assert_eq!(d.pos(), 2);
    // a two-byte argument below 256 is read, then refused
    let mut d = Decoder::new(&[0x19, 0x00, 0x10]);
    assert_eq!(d.decode_unsigned().unwrap_err(), CtapStatusCode::InvalidCbor);
    assert_eq!(d.pos(), 3);
    // an argument that runs past the end stops just past the initial byte
    let mut d = Decoder::new(&[0x1a, 0x00, 0x01]);
    assert_eq!(d.decode_unsigned().unwrap_err(), CtapStatusCode::InvalidCbor);
    assert_eq!(d.pos(), 1);
    // a tag stops just past its initial byte
    let mut d = Decoder::new(&[0xc1, 0x00]);
    assert_eq!(d.decode_head().unwrap_err(), CtapStatusCode::InvalidCbor);
    assert_eq!(d.pos(), 1);
    // a wrong major type stops past the head
    let mut d = Decoder::new(&[0x43, 1, 2, 3]);
    assert_eq!(d.decode_unsigned().unwrap_err(), CtapStatusCode::CborUnexpectedType);
    assert_eq!(d.pos(), 1);
    // a byte string that runs past the end stops past the head
    let mut d = Decoder::new(&[0x45, 1, 2]);
    assert_eq!(d.decode_bytes().unwrap_err(), CtapStatusCode::InvalidCbor);
    assert_eq!(d.pos(), 1);
    // a text that is not UTF-8 stops past its payload
    let mut d = Decoder::new(&[0x62, 0xff, 0xfe, 0xf6]);
    assert_eq!(d.decode_text().unwrap_err(), CtapStatusCode::InvalidCbor);
    assert_eq!(d.pos(), 3);
    assert_eq!(d.decode_null(), Ok(()));
}
