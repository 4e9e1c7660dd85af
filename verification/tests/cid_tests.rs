use browser_engine::cid::Cid;

#[test]
fn test_cid_deterministic() {
    let data = b"hello world";
    let cid1 = Cid::from_bytes(data);
    let cid2 = Cid::from_bytes(data);
    assert_eq!(cid1, cid2);
}

#[test]
fn test_cid_different_data() {
    let cid1 = Cid::from_bytes(b"hello");
    let cid2 = Cid::from_bytes(b"world");
    assert_ne!(cid1, cid2);
}

#[test]
fn test_cid_verify() {
    let data = b"test data";
    let cid = Cid::from_bytes(data);
    assert!(cid.verify(data));
    assert!(!cid.verify(b"wrong data"));
}

#[test]
fn test_cid_format() {
    let cid = Cid::from_bytes(b"test");
    assert!(cid.as_str().starts_with("b3:"));
}

#[test]
fn cid_of_empty_input_is_the_blake3_hex() {
    let cid = Cid::from_bytes(b"");
    assert_eq!(cid.as_str(), "b3:af1349b9f5f9a1a6a0404dea36dcc9499bcb25c9adc112b7cc9a93cae41f3262");
    assert_eq!(cid.as_str().len(), 3 + 64);
    assert_eq!(cid.to_text(), cid.as_str());
}

#[test]
fn cid_from_text_hashes_the_utf8_bytes() {
    assert_eq!(Cid::from_text("héllo"), Cid::from_bytes("héllo".as_bytes()));
}
