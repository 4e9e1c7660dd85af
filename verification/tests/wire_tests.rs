use browser_engine::wire::{decode, decode_canonical, decode_uleb128, encode, encode_uleb128, Field, WireError, LEN, VARINT};

#[test]
fn test_leb128_roundtrip() {
    for value in [0u64, 1, 127, 128, 16383, 16384, u64::MAX] {
        let encoded = encode_uleb128(value);
        let (decoded, _) = decode_uleb128(&encoded, 0).unwrap();
        assert_eq!(value, decoded);
    }
}

#[test]
fn test_wire_roundtrip() {
    let fields = vec![
        Field::Varint { field_no: 1, value: 42 },
        Field::Len { field_no: 2, value: b"hello".to_vec() },
        Field::Varint { field_no: 3, value: 0 },
    ];
    let encoded = encode(&fields);
    let decoded = decode(&encoded).unwrap();
    assert_eq!(fields, decoded);
}

#[test]
fn test_wire_canonical() {
    let fields = vec![
        Field::Varint { field_no: 1, value: 42 },
        Field::Len { field_no: 2, value: b"hello".to_vec() },
    ];
    let encoded = encode(&fields);
    let decoded = decode_canonical(&encoded).unwrap();
    assert_eq!(fields, decoded);
}

#[test]
fn test_wire_non_canonical_rejected() {
    let mut bad = Vec::new();
    bad.extend(encode_uleb128((2 << 3) | LEN as u64));
    bad.extend(encode_uleb128(3));
    bad.extend(b"abc");
    bad.extend(encode_uleb128((1 << 3) | VARINT as u64));
    bad.extend(encode_uleb128(42));

    assert!(decode_canonical(&bad).is_err());
}

#[test]
fn leb128_exact_bytes() {
    assert_eq!(encode_uleb128(0), vec![0x00]);
    assert_eq!(encode_uleb128(127), vec![0x7f]);
    assert_eq!(encode_uleb128(128), vec![0x80, 0x01]);
    assert_eq!(encode_uleb128(300), vec![0xac, 0x02]);
    assert_eq!(encode_uleb128(u64::MAX).len(), 10);
    assert_eq!(decode_uleb128(&[0x00, 0xac, 0x02], 1).unwrap(), (300, 3));
}

#[test]
fn leb128_errors() {
    assert_eq!(decode_uleb128(&[0x80], 0), Err(WireError::BadVarint("truncated".to_string())));
    assert_eq!(decode_uleb128(&[], 0), Err(WireError::BadVarint("truncated".to_string())));
    let long = [0xffu8; 11];
    assert_eq!(decode_uleb128(&long, 0), Err(WireError::BadVarint("too long".to_string())));
}

#[test]
fn encode_sorts_and_skips_field_zero() {
    let a = vec![
        Field::Len { field_no: 2, value: b"x".to_vec() },
        Field::Varint { field_no: 0, value: 9 },
        Field::Varint { field_no: 1, value: 5 },
    ];
    let b = vec![Field::Varint { field_no: 1, value: 5 }, Field::Len { field_no: 2, value: b"x".to_vec() }];
    assert_eq!(encode(&a), encode(&b));
    assert_eq!(encode(&b), vec![0x08, 0x05, 0x12, 0x01, b'x']);
}

#[test]
fn decode_errors() {
    assert_eq!(decode(&[0x00]), Err(WireError::InvalidFieldNumber(0)));
    assert_eq!(decode(&[0x09]), Err(WireError::UnknownWireType(1)));
    assert_eq!(
        decode(&[0x12, 0x05, b'a']),
        Err(WireError::Truncated { offset: 2, needed: 5, have: 1 })
    );
    assert_eq!(decode(&[0x08]), Err(WireError::BadVarint("value for field 1: bad varint: truncated".to_string())));
    assert_eq!(decode(&[0x80]), Err(WireError::BadVarint("tag at 0: bad varint: truncated".to_string())));
}

#[test]
fn non_minimal_varint_is_not_canonical() {
    assert_eq!(decode(&[0x08, 0x80, 0x00]).unwrap(), vec![Field::Varint { field_no: 1, value: 0 }]);
    assert_eq!(decode_canonical(&[0x08, 0x80, 0x00]), Err(WireError::NonCanonical));
}
