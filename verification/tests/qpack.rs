use iroh_http::qpack_bridge::{
    decode_request_stateless, decode_response_stateless, encode_request_stateless,
    encode_response_stateless, frame_block, request_from_fields, response_from_fields, take_block,
    DecodeError, QpackCodec,
};

#[test]
fn stateless_request_roundtrip() {
    let headers = [("content-type", "application/json"), ("x-custom", "hello")];
    let wire = encode_request_stateless("POST", "/api/data", &headers).unwrap();

    let (method, path, decoded_headers, consumed) = decode_request_stateless(&wire).unwrap();
    assert_eq!(method, "POST");
    assert_eq!(path, "/api/data");
    assert_eq!(consumed, wire.len());
    assert_eq!(decoded_headers.len(), 2);
    assert_eq!(
        decoded_headers[0],
        ("content-type".to_string(), "application/json".to_string())
    );
    assert_eq!(
        decoded_headers[1],
        ("x-custom".to_string(), "hello".to_string())
    );
}

#[test]
fn stateless_response_roundtrip() {
    let headers = [("content-type", "text/plain"), ("x-req-id", "42")];
    let wire = encode_response_stateless(200, &headers).unwrap();

    let (status, decoded_headers, consumed) = decode_response_stateless(&wire).unwrap();
    assert_eq!(status, 200);
    assert_eq!(consumed, wire.len());
    assert_eq!(decoded_headers.len(), 2);
    assert_eq!(
        decoded_headers[0],
        ("content-type".to_string(), "text/plain".to_string())
    );
}

#[test]
fn stateless_incomplete_returns_error() {
    assert!(matches!(
        decode_request_stateless(&[]),
        Err(DecodeError::Incomplete)
    ));
    assert!(matches!(
        decode_request_stateless(&[0, 10]),
        Err(DecodeError::Incomplete)
    ));
}

#[test]
fn stateless_missing_pseudo_header() {
    let wire = encode_response_stateless(200, &[]).unwrap();
    assert!(matches!(
        decode_request_stateless(&wire),
        Err(DecodeError::MissingPseudo(":method"))
    ));
}

#[test]
fn stateful_request_roundtrip() {
    let mut codec = QpackCodec::new();
    let headers = [("accept", "text/html")];
    let wire = codec
        .encode_request("GET", "/index.html", &headers)
        .unwrap();

    let mut decoder_codec = QpackCodec::new();
    let (method, path, decoded_headers, consumed) = decoder_codec.decode_request(&wire).unwrap();
    assert_eq!(method, "GET");
    assert_eq!(path, "/index.html");
    assert_eq!(consumed, wire.len());
    assert_eq!(
        decoded_headers,
        vec![("accept".to_string(), "text/html".to_string())]
    );
}

#[test]
fn stateful_response_roundtrip() {
    let mut codec = QpackCodec::new();
    let headers = [("server", "iroh")];
    let wire = codec.encode_response(404, &headers).unwrap();

    let mut decoder_codec = QpackCodec::new();
    let (status, decoded_headers, consumed) = decoder_codec.decode_response(&wire).unwrap();
    assert_eq!(status, 404);
    assert_eq!(consumed, wire.len());
    assert_eq!(
        decoded_headers,
        vec![("server".to_string(), "iroh".to_string())]
    );
}

#[test]
fn wire_format_length_prefix() {
    let wire = encode_request_stateless("GET", "/", &[]).unwrap();
    let block_len = u16::from_be_bytes([wire[0], wire[1]]) as usize;
    assert_eq!(wire.len(), 2 + block_len);
}

#[test]
fn a_framed_block_is_taken_back_with_what_follows_left_alone() {
    let wire = frame_block(Ok(vec![9, 8, 7])).unwrap();
    assert_eq!(wire, vec![0, 3, 9, 8, 7]);
    let mut longer = wire.clone();
    longer.push(1);
    assert_eq!(take_block(&longer), Some((vec![9, 8, 7], 5)));
    assert_eq!(take_block(&wire[..4]), None);
    assert!(frame_block(Err("no".to_string())).is_err());
    assert!(frame_block(Ok(vec![0; 65536])).is_err());
    assert_eq!(frame_block(Ok(vec![0; 65535])).unwrap().len(), 65537);
}

fn field(name: &str, value: &str) -> (Vec<u8>, Vec<u8>) {
    (name.as_bytes().to_vec(), value.as_bytes().to_vec())
}

#[test]
fn pseudo_headers_are_required_and_taken_out() {
    let fields = vec![field(":method", "GET"), field("a", "b"), field(":path", "/p")];
    let (method, path, headers) = request_from_fields(&fields).unwrap();
    assert_eq!((method.as_str(), path.as_str()), ("GET", "/p"));
    assert_eq!(headers, vec![("a".to_string(), "b".to_string())]);
    assert!(matches!(
        request_from_fields(&vec![field(":method", "GET")]),
        Err(DecodeError::MissingPseudo(":path"))
    ));
    assert!(matches!(
        response_from_fields(&vec![field("a", "b")]),
        Err(DecodeError::MissingPseudo(":status"))
    ));
    match response_from_fields(&vec![field(":status", "two")]) {
        Err(DecodeError::InvalidStatus(s)) => assert_eq!(s, "two"),
        _ => panic!("a status must be a number"),
    }
}

#[test]
fn a_block_that_is_no_field_section_is_a_qpack_error() {
    // Required insert count 1 without a dynamic table.
    let wire = [0u8, 3, 2, 0, 0x80];
    assert!(matches!(decode_request_stateless(&wire), Err(DecodeError::Qpack(_))));
    assert!(matches!(decode_response_stateless(&wire), Err(DecodeError::Qpack(_))));
}

#[test]
fn a_block_that_is_too_large_is_told_with_its_size() {
    let value = "0".repeat(200_000);
    assert_eq!(
        encode_request_stateless("GET", "/", &[("x", &value)]).unwrap_err(),
        "QPACK block too large: 125010 bytes"
    );
}
