use iroh_http::stack::{
    allows_transform, build_client_stack, build_stack, compressible_type, guarded_readiness,
    is_exempt_type, layer_error_response, should_compress, CompressionOptions, LayerFailure,
    LayerSpec, Readiness, StackConfig,
};

#[test]
fn poll_ready_error_is_not_silently_swallowed() {
    assert_eq!(guarded_readiness(Readiness::Failed), (Readiness::Pending, true));
    assert_eq!(guarded_readiness(Readiness::Pending), (Readiness::Pending, false));
    assert_eq!(guarded_readiness(Readiness::Ready), (Readiness::Ready, false));
}

#[test]
fn layers_stand_in_order() {
    let mut cfg = StackConfig::default();
    assert!(build_client_stack(&cfg.with_decompression(false)).is_empty());
    assert_eq!(build_client_stack(&cfg.with_decompression(true)).len(), 1);
    cfg.timeout_ms = Some(9);
    cfg.max_request_body_wire_bytes = Some(10);
    cfg.max_request_body_decoded_bytes = Some(20);
    cfg.load_shed = true;
    cfg.decompression = true;
    cfg.compression = Some(CompressionOptions::default());
    let layers = build_stack(&cfg);
    assert!(matches!(
        &layers[..],
        [
            LayerSpec::BodyLimit(20),
            LayerSpec::Decompression,
            LayerSpec::Compression(_),
            LayerSpec::Timeout(9),
            LayerSpec::LoadShed,
            LayerSpec::BodyLimit(10)
        ]
    ));
}

#[test]
fn layer_failures_have_their_answers() {
    assert_eq!(layer_error_response(LayerFailure::Elapsed), (408, "request timed out"));
    assert_eq!(layer_error_response(LayerFailure::Overloaded), (503, "server at capacity"));
    assert_eq!(layer_error_response(LayerFailure::Other), (500, "internal server error"));
}

#[test]
fn what_is_compressed() {
    assert!(allows_transform(false, None));
    assert!(!allows_transform(true, None));
    assert!(!allows_transform(false, Some("public, No-Transform")));
    assert!(allows_transform(false, Some("public")));
    assert!(compressible_type(None));
    assert!(compressible_type(Some("text/html; charset=utf-8")));
    assert!(!compressible_type(Some("image/png")));
    assert!(!compressible_type(Some("Video/MP4")));
    assert!(!compressible_type(Some("application/octet-stream; x=y")));
    assert_eq!(CompressionOptions::default().min_body_bytes, 1024);
}

#[test]
fn exempt_types_go_by_their_beginning() {
    assert!(is_exempt_type("image/png"));
    assert!(!is_exempt_type("image/svg+xml; charset=utf-8"));
    assert!(is_exempt_type("text/event-stream"));
    assert!(is_exempt_type("application/octet-stream"));
    assert!(!is_exempt_type("IMAGE/png"));
    assert!(!is_exempt_type("text/html"));
}

#[test]
fn small_exempt_and_fixed_bodies_are_not_compressed() {
    let comp = CompressionOptions { min_body_bytes: 100, level: None };
    assert!(should_compress(&comp, Some(100), Some("text/html"), false, None));
    assert!(should_compress(&comp, None, None, false, Some("max-age=1")));
    assert!(!should_compress(&comp, Some(99), Some("text/html"), false, None));
    assert!(!should_compress(&comp, Some(100), Some("video/mp4"), false, None));
    assert!(!should_compress(&comp, Some(100), Some("text/html"), true, None));
    assert!(!should_compress(&comp, Some(100), None, false, Some("public, No-Transform")));
}
