use iroh_http::encoding::NodeId;
use iroh_http::serve::{
    dispatch_header_limit, drain_deadline, effective_header_limit, AcceptConfig, ConnectionStep,
    DrainStep, Incoming, IncomingAction, ServeLoop, ServeOptions, StreamAction, StreamEvent,
};
use iroh_http::{ALPN, ALPN_DUPLEX, ALPN_DUPLEX_STR, ALPN_STR, KNOWN_ALPNS};

fn peer(seed: u8) -> NodeId {
    NodeId { bytes: *iroh::SecretKey::from_bytes(&[seed; 32]).public().as_bytes() }
}

fn connected(seed: u8) -> Incoming {
    Incoming::Connected { alpn: ALPN.to_vec(), peer: peer(seed) }
}

#[test]
fn drain_deadline_saturates_on_huge_timeout() {
    let now: u64 = 1_700_000_000_000;
    let deadline = drain_deadline(now, u64::MAX);
    assert!(deadline > now);
    assert_eq!(deadline, now + 86_400_000);
    assert_eq!(drain_deadline(now, 30_000), now + 30_000);
}

#[test]
fn serve_options_have_defaults() {
    let config = AcceptConfig::resolve(&ServeOptions::default(), 0, None);
    assert_eq!(config.max, 1024);
    assert_eq!(config.max_errors, None);
    assert_eq!(config.request_timeout_ms, 60_000);
    assert_eq!(config.max_conns_per_peer, 8);
    assert_eq!(config.max_request_body_wire_bytes, Some(16 * 1024 * 1024));
    assert_eq!(config.max_request_body_decoded_bytes, Some(16 * 1024 * 1024));
    assert_eq!(config.drain_timeout_ms, 30_000);
    assert!(config.load_shed_enabled && config.decompression);
    assert_eq!(config.with_error_budget(&ServeOptions::default()).max_errors, Some(5));

    let http1 = config.http1_settings();
    assert_eq!((http1.max_buf_size, http1.max_headers), (65536, 128));
    assert!(!http1.keep_alive);
    assert_eq!(http1.header_read_timeout_ms, Some(60_000));
    let mut options = ServeOptions::default();
    options.request_timeout_ms = Some(0);
    assert_eq!(AcceptConfig::resolve(&options, 0, None).stack_config().timeout_ms, None);
}

#[test]
fn header_limits() {
    assert_eq!(effective_header_limit(0), 65536);
    assert_eq!(effective_header_limit(1), 8192);
    assert_eq!(effective_header_limit(9000), 9000);
    assert_eq!(dispatch_header_limit(0), None);
    assert_eq!(dispatch_header_limit(5), Some(5));
}

#[test]
fn protocol_names_are_the_bytes_of_their_text() {
    assert_eq!(ALPN.as_slice(), ALPN_STR.as_bytes());
    assert_eq!(ALPN_DUPLEX.as_slice(), ALPN_DUPLEX_STR.as_bytes());
    assert_eq!(KNOWN_ALPNS, [ALPN_STR, ALPN_DUPLEX_STR]);
}

#[test]
fn connections_are_refused_by_protocol_total_and_peer() {
    let mut options = ServeOptions::default();
    options.max_connections_per_peer = Some(1);
    options.max_total_connections = Some(2);
    let mut serve = ServeLoop::new(AcceptConfig::resolve(&options, 0, None), 0, 0);

    let stranger = Incoming::Connected { alpn: ALPN_DUPLEX.to_vec(), peer: peer(1) };
    assert!(matches!(serve.on_incoming(stranger), IncomingAction::Reject("unexpected ALPN")));

    let tracker = match serve.on_incoming(connected(1)) {
        IncomingAction::Serve { tracker, event } => {
            assert!(event.unwrap().connected);
            tracker
        }
        _ => panic!("the first connection is served"),
    };
    assert!(matches!(
        serve.on_incoming(connected(1)),
        IncomingAction::Reject("too many connections")
    ));
    assert!(matches!(serve.on_incoming(connected(2)), IncomingAction::Serve { .. }));
    assert!(matches!(
        serve.on_incoming(connected(3)),
        IncomingAction::Reject("server at capacity")
    ));
    assert_eq!(serve.total, 2);
    assert!(!serve.connection_ended(tracker).unwrap().connected);
    assert_eq!(serve.total, 1);
    assert!(matches!(serve.on_incoming(connected(3)), IncomingAction::Serve { .. }));
}

#[test]
fn handshake_failures_stop_the_loop_only_under_a_budget() {
    let options = ServeOptions::default();
    let config = AcceptConfig::resolve(&options, 0, None);
    let mut serve = ServeLoop::new(config, 0, 0);
    for _ in 0..20 {
        assert!(matches!(serve.on_incoming(Incoming::HandshakeFailed), IncomingAction::Next));
    }

    let mut serve = ServeLoop::new(config.with_error_budget(&options), 0, 0);
    for _ in 0..4 {
        assert!(matches!(serve.on_incoming(Incoming::HandshakeFailed), IncomingAction::Next));
    }
    assert!(matches!(serve.on_incoming(connected(1)), IncomingAction::Serve { .. }));
    for _ in 0..4 {
        assert!(matches!(serve.on_incoming(Incoming::HandshakeFailed), IncomingAction::Next));
    }
    assert!(matches!(
        serve.on_incoming(Incoming::HandshakeFailed),
        IncomingAction::Stop { endpoint_closed: false }
    ));
    assert!(matches!(
        serve.on_incoming(Incoming::EndpointClosed),
        IncomingAction::Stop { endpoint_closed: true }
    ));
    assert!(matches!(
        serve.on_incoming(Incoming::Shutdown),
        IncomingAction::Stop { endpoint_closed: false }
    ));
}

#[test]
fn a_graceful_stop_waits_for_deliveries_and_starts_nothing() {
    let config = AcceptConfig::resolve(&ServeOptions::default(), 0, None);
    let mut serve = ServeLoop::new(config, 0, 0);
    assert_eq!(serve.connection_step(), ConnectionStep::AcceptStream);
    let (request, delivery) = match serve.on_stream(StreamEvent::Stream) {
        StreamAction::Serve { request, delivery } => (request, delivery),
        _ => panic!("a stream is served"),
    };
    let deadline = serve.begin_drain(1_000);
    assert_eq!(deadline, 31_000);
    assert_eq!(serve.connection_step(), ConnectionStep::Park);
    assert!(matches!(serve.on_stream(StreamEvent::Stream), StreamAction::Recheck));
    assert_eq!(serve.drain_step(1_000, deadline), DrainStep::Wait(30_000));
    serve.request_done(request);
    assert_eq!(serve.drain_step(31_000, deadline), DrainStep::TimedOut);
    assert!(serve.delivery_done(delivery));
    assert_eq!(serve.drain_step(31_000, deadline), DrainStep::Drained);
    assert!(matches!(serve.on_stream(StreamEvent::CloseSignal), StreamAction::Recheck));
    assert!(matches!(serve.on_stream(StreamEvent::Failed), StreamAction::End));
    serve.close_connections();
    assert_eq!(serve.connection_step(), ConnectionStep::Close);
}
