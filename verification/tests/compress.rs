use iroh_http::compress::{
    compress_body, compressed_parts, cut_body, decompress_body, decompress_step, is_zstd,
    next_capacity, CompressionOptions, DecompressStep, LARGEST_BUFFER, PIECE_SIZE,
};

#[test]
fn is_zstd_case_insensitive() {
    assert!(is_zstd("zstd"));
    assert!(is_zstd("ZSTD"));
    assert!(is_zstd("Zstd"));
    assert!(!is_zstd("gzip"));
}

fn joined(pieces: Vec<Vec<u8>>) -> Vec<u8> {
    let mut out = Vec::new();
    for p in pieces {
        out.extend_from_slice(&p);
    }
    out
}

#[test]
fn round_trip_small() {
    let data = b"Hello, world!";
    let compressed = joined(compress_body(data, 3).unwrap());
    assert_ne!(compressed.as_slice(), data);
    assert_eq!(joined(decompress_body(&compressed).unwrap()), data);
}

#[test]
fn round_trip_large() {
    let data: Vec<u8> = (0u8..=255).cycle().take(256 * 1024).collect();
    let compressed = joined(compress_body(&data, 3).unwrap());
    assert!(compressed.len() < data.len());
    assert_eq!(joined(decompress_body(&compressed).unwrap()), data);
}

#[test]
fn round_trip_empty() {
    let compressed = joined(compress_body(&[], 3).unwrap());
    assert_eq!(joined(decompress_body(&compressed).unwrap()), Vec::<u8>::new());
}

#[test]
fn bodies_are_cut_into_full_pieces() {
    let body = vec![5u8; PIECE_SIZE + 1];
    let pieces = cut_body(&body);
    assert_eq!(pieces.len(), 2);
    assert_eq!(pieces[0].len(), PIECE_SIZE);
    assert_eq!(pieces[1], vec![5]);
}

#[test]
fn the_buffer_grows_up_to_its_bound() {
    assert_eq!(next_capacity(LARGEST_BUFFER), None);
    let mut c: usize = 1024;
    while let Some(n) = next_capacity(c) {
        assert!(n > c && n <= LARGEST_BUFFER);
        c = n;
    }
    assert_eq!(c, LARGEST_BUFFER);
}

#[test]
fn bytes_that_are_no_frame_are_refused() {
    assert!(decompress_body(b"this is not a compressed body").is_err());
}

#[test]
fn compression_defaults() {
    let o = CompressionOptions::default();
    assert_eq!((o.level, o.min_body_bytes), (3, 512));
}

#[test]
fn the_level_reaches_the_compressor() {
    let mut data: Vec<u8> = Vec::new();
    for i in 0u32..20_000 {
        data.extend_from_slice(&(i.wrapping_mul(2_654_435_761) >> 20).to_le_bytes());
    }
    let fast = joined(compress_body(&data, 1).unwrap());
    let slow = joined(compress_body(&data, 19).unwrap());
    assert_ne!(fast, slow);
    assert_eq!(joined(compress_body(&data, 19).unwrap()), slow);
    assert_eq!(joined(decompress_body(&slow).unwrap()), data);
}

#[test]
fn a_failed_attempt_is_repeated_or_told() {
    assert!(matches!(
        decompress_step(8, Err("small".to_string())),
        DecompressStep::Retry(16)
    ));
    match decompress_step(LARGEST_BUFFER, Err("bad".to_string())) {
        DecompressStep::Fail(m) => assert_eq!(m, "zstd decompress: bad"),
        other => panic!("{other:?}"),
    }
    match decompress_step(8, Ok(vec![1, 2])) {
        DecompressStep::Done(parts) => assert_eq!(parts, vec![vec![1, 2]]),
        other => panic!("{other:?}"),
    }
    assert_eq!(compressed_parts(Err("full".to_string())).unwrap_err(), "zstd compress: full");
    assert_eq!(compressed_parts(Ok(vec![9])).unwrap(), vec![vec![9]]);
}
