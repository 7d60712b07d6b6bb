use wsvc::digest::{fingerprint, has_fingerprint};
use wsvc::hex::{encode_hex, HexError};
use wsvc::model::ObjectId;

#[test]
fn hex_of_known_bytes_is_lowercase() {
    assert_eq!(encode_hex(&[0x00, 0x0f, 0xa5, 0xff]), "000fa5ff");
    assert_eq!(encode_hex(&[]), "");
}

#[test]
fn to_hex_has_64_digits_and_agrees_with_blake3() {
    let hash = blake3::hash(b"hi\n");
    let id = ObjectId(*hash.as_bytes());
    let text = id.to_hex();
    assert_eq!(text.len(), 64);
    assert_eq!(text, hash.to_hex().to_string());
}

#[test]
fn zero_fingerprint_is_64_zeros() {
    assert_eq!(ObjectId::default().to_hex(), "0".repeat(64));
}

#[test]
fn from_hex_accepts_both_cases() {
    let lower = "00112233445566778899aabbccddeeff00112233445566778899aabbccddeeff";
    let upper = lower.to_uppercase();
    let a = ObjectId::from_hex(lower).unwrap();
    let b = ObjectId::from_hex(&upper).unwrap();
    assert_eq!(a, b);
    assert_eq!(a.0[0], 0x00);
    assert_eq!(a.0[1], 0x11);
    assert_eq!(a.0[10], 0xaa);
    assert_eq!(a.0[15], 0xff);
    assert_eq!(a.to_hex(), lower);
}

#[test]
fn from_hex_reports_the_length() {
    assert_eq!(ObjectId::from_hex("abc"), Err(HexError::InvalidLen(3)));
    assert_eq!(ObjectId::from_hex(""), Err(HexError::InvalidLen(0)));
    let long = "0".repeat(65);
    assert_eq!(ObjectId::from_hex(&long), Err(HexError::InvalidLen(65)));
}

#[test]
fn from_hex_reports_the_first_invalid_byte() {
    let mut text = "0".repeat(64).into_bytes();
    text[5] = b'g';
    text[9] = b'z';
    assert_eq!(ObjectId::from_hex_bytes(&text), Err(HexError::InvalidByte(b'g')));
    let text = String::from_utf8(text).unwrap();
    assert_eq!(ObjectId::from_hex(&text), Err(HexError::InvalidByte(b'g')));
}

#[test]
fn from_hex_agrees_with_blake3() {
    let text = blake3::hash(b"some content").to_hex().to_string();
    let ours = ObjectId::from_hex(&text).unwrap();
    let theirs = blake3::Hash::from_hex(&text).unwrap();
    assert_eq!(&ours.0, theirs.as_bytes());
}

#[test]
fn hex_round_trip() {
    let id = fingerprint(b"round trip");
    assert_eq!(ObjectId::from_hex(&id.to_hex()), Ok(id));
}

#[test]
fn fingerprint_is_blake3() {
    let id = fingerprint(b"hi\n");
    assert_eq!(&id.0, blake3::hash(b"hi\n").as_bytes());
    assert_ne!(id, fingerprint(b"hi"));
    assert_eq!(&fingerprint(b"").0, blake3::hash(b"").as_bytes());
}

#[test]
fn has_fingerprint_compares_the_digest() {
    let id = fingerprint(b"abc");
    assert!(has_fingerprint(b"abc", &id));
    assert!(!has_fingerprint(b"abd", &id));
}

#[test]
fn object_id_equality_is_by_bytes() {
    let a = ObjectId::from_bytes([7u8; 32]);
    let mut bytes = [7u8; 32];
    assert_eq!(a, ObjectId(bytes));
    bytes[31] = 8;
    assert_ne!(a, ObjectId(bytes));
    assert_eq!(a.as_bytes(), &[7u8; 32]);
}
