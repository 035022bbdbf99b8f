use iroh_http::encoding::{admit_node_id, base32_decode, base32_encode, parse_node_id};
use iroh_http::error::ErrorCode;

#[test]
fn base32_round_trip() {
    let original: Vec<u8> = (0..32).collect();
    let encoded = base32_encode(&original);
    let decoded = base32_decode(&encoded).unwrap();
    assert_eq!(decoded, original);
}

#[test]
fn base32_empty() {
    let encoded = base32_encode(&[]);
    assert_eq!(encoded, "");
    let decoded = base32_decode("").unwrap();
    assert!(decoded.is_empty());
}

#[test]
fn base32_decode_invalid_char() {
    let result = base32_decode("!!!invalid!!!");
    assert!(result.is_err());
}

#[test]
fn base32_is_lowercase_and_unpadded() {
    assert_eq!(base32_encode(b"foobar"), "mzxw6ytboi");
    assert_eq!(base32_encode(&[0xff]), "74");
}

#[test]
fn base32_reads_either_case() {
    assert_eq!(base32_decode("MZXW6YTBOI").unwrap(), b"foobar");
    assert_eq!(base32_decode("mzxw6ytboi").unwrap(), b"foobar");
}

#[test]
fn parse_node_id_invalid_base32() {
    let result = parse_node_id("!!!not-base32!!!");
    assert!(result.is_err());
}

#[test]
fn parse_node_id_wrong_length() {
    let result = parse_node_id("aa");
    assert!(result.is_err());
    assert_eq!(result.unwrap_err().message, "node-id must be 32 bytes");
}

#[test]
fn parse_node_id_reads_what_base32_wrote() {
    let key = iroh::SecretKey::from_bytes(&[7; 32]).public();
    let id = parse_node_id(&base32_encode(key.as_bytes())).unwrap();
    assert_eq!(&id.bytes, key.as_bytes());
}

#[test]
fn bytes_that_are_no_key_are_no_node_id() {
    // y = 2 has no point on the curve.
    let mut bytes = [0u8; 32];
    bytes[0] = 2;
    assert!(iroh::PublicKey::from_bytes(&bytes).is_err());
    let e = parse_node_id(&base32_encode(&bytes)).unwrap_err();
    assert_eq!(e.code, ErrorCode::InvalidInput);
    let e = admit_node_id([0; 32], Some("no point".to_string())).unwrap_err();
    assert_eq!(e.code, ErrorCode::InvalidInput);
    assert_eq!(e.message, "no point");
    assert_eq!(admit_node_id([9; 32], None).unwrap().bytes, [9; 32]);
}
