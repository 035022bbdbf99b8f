use iroh_http::client::{
    attempt_error, check_duplex_answer, classify_hyper_error, client_buffer_size, duplex_request,
    extract_path, is_null_body_status, open_duplex, plan_request, AfterAttempt, AttemptEnd,
    AttemptFailure, FetchError, FetchProgress,
};
use iroh_http::error::ErrorCode;
use iroh_http::handles::{HandleStore, StoreConfig};

#[test]
fn extract_path_basic() {
    assert_eq!(extract_path("httpi://node/foo/bar"), "/foo/bar");
    assert_eq!(extract_path("httpi://node/"), "/");
    assert_eq!(extract_path("httpi://node"), "/");
}

#[test]
fn extract_path_query_string() {
    assert_eq!(extract_path("httpi://node/path?x=1"), "/path?x=1");
    assert_eq!(extract_path("httpi://node?x=1"), "/?x=1");
}

#[test]
fn extract_path_fragment() {
    assert_eq!(extract_path("httpi://node/path#frag"), "/path");
    assert_eq!(extract_path("httpi://node/path?q=1#frag"), "/path?q=1");
    assert_eq!(extract_path("/local#frag"), "/local");
}

#[test]
fn extract_path_bare_path() {
    assert_eq!(extract_path("/already"), "/already");
    assert_eq!(extract_path("no-slash"), "/no-slash");
}

#[test]
fn a_fragment_never_reaches_the_peer() {
    assert_eq!(extract_path("httpi://node#a/b"), "/");
    assert_eq!(extract_path("httpi://node?x=1#y?z"), "/?x=1");
    assert_eq!(extract_path("#only"), "/");
}

#[test]
fn failures_say_where_they_happened() {
    let e = attempt_error(AttemptFailure::Connect("gone".to_string()));
    assert_eq!(e.to_string(), "connection failed: gone");
    let e = attempt_error(AttemptFailure::OpenStream("x".to_string()));
    assert_eq!(e.to_string(), "connection failed: open_bi: x");
    let e = attempt_error(AttemptFailure::Handshake("x".to_string()));
    assert_eq!(e.to_string(), "connection failed: hyper handshake: x");
    let e = attempt_error(AttemptFailure::Send { cause: "x".to_string(), body: None });
    assert_eq!(e.to_string(), "connection failed: send_request: x");
    let body = Some("mine".to_string());
    let e = attempt_error(AttemptFailure::Send { cause: "x".to_string(), body });
    assert_eq!(e.to_string(), "request body failed: mine");
    assert_eq!(FetchError::Timeout.to_string(), "request timed out");
    assert_eq!(FetchError::Cancelled.to_string(), "request cancelled");
    assert_eq!(FetchError::BodyTooLarge.to_string(), "response body too large");
    let e = FetchError::HeaderTooLarge { detail: "d".to_string() };
    assert_eq!(e.to_string(), "response header too large: d");
    assert_eq!(FetchError::Internal("d".to_string()).to_string(), "internal error: d");
}

#[test]
fn http_failures_are_told_apart_by_their_words() {
    let e = classify_hyper_error("invalid Header section", "send");
    assert_eq!(e.code, ErrorCode::HeaderTooLarge);
    let e = classify_hyper_error("connection reset", "send");
    assert_eq!(e.code, ErrorCode::ConnectionFailed);
}

#[test]
fn only_safe_requests_are_repeated() {
    assert!(plan_request("GET", true, Some(0)).retry_safe);
    assert!(plan_request("DELETE", true, Some(0)).retry_safe);
    assert!(!plan_request("POST", true, Some(0)).retry_safe);
    assert!(!plan_request("GET", false, Some(0)).retry_safe);
    assert!(!plan_request("GET", true, None).retry_safe);
    assert!(plan_request("GET", false, Some(0)).mask_size);
    assert!(!plan_request("GET", false, Some(3)).mask_size);

    let mut fetch = FetchProgress::new(plan_request("GET", true, Some(0)));
    fetch.record_connection(Some(7));
    let (evict, next) = fetch.on_attempt(true, AttemptEnd::ConnectionFailed);
    let evict = evict.unwrap();
    assert_eq!((evict.reason, evict.dial_seq), ("iroh-http fetch failed", Some(7)));
    assert_eq!(next, AfterAttempt::Retry);
    fetch.record_connection(Some(8));
    let (evict, next) = fetch.on_attempt(true, AttemptEnd::ConnectionFailed);
    assert_eq!(evict.unwrap().reason, "iroh-http fetch retry failed");
    assert_eq!(next, AfterAttempt::Fail);

    let mut fetch = FetchProgress::new(plan_request("GET", true, Some(0)));
    let (_, next) = fetch.on_attempt(false, AttemptEnd::ConnectionFailed);
    assert_eq!(next, AfterAttempt::Fail);
    let mut fetch = FetchProgress::new(plan_request("POST", true, Some(0)));
    let (_, next) = fetch.on_attempt(true, AttemptEnd::ConnectionFailed);
    assert_eq!(next, AfterAttempt::Fail);
    let (evict, next) = fetch.on_attempt(true, AttemptEnd::OtherFailure);
    assert!(evict.is_none() && next == AfterAttempt::Fail);
    let (evict, next) = fetch.on_attempt(true, AttemptEnd::Answered);
    assert!(evict.is_none() && next == AfterAttempt::Succeed);
    fetch.record_connection(Some(9));
    let (seq, e) = fetch.on_timeout();
    assert_eq!(seq, Some(9));
    assert!(matches!(e, FetchError::Timeout));
}

#[test]
fn some_statuses_have_no_body() {
    for status in [204, 205, 304] {
        assert!(is_null_body_status(status));
    }
    assert!(!is_null_body_status(200));
    assert_eq!((client_buffer_size(1), client_buffer_size(9000)), (8192, 9000));
}

#[test]
fn a_duplex_request_carries_the_upgrade() {
    let mine = vec![("a".to_string(), "b".to_string())];
    let headers = duplex_request(&mine).unwrap();
    assert_eq!(headers[0], ("connection".to_string(), "upgrade".to_string()));
    assert_eq!(headers[1], ("upgrade".to_string(), "iroh-duplex".to_string()));
    assert_eq!(headers[2], mine[0]);
    let bad = vec![("a b".to_string(), "b".to_string())];
    let e = duplex_request(&bad).unwrap_err();
    assert_eq!(e.message, "invalid header name \"a b\"");
    assert!(check_duplex_answer(101).is_ok());
    let e = check_duplex_answer(403).unwrap_err();
    assert_eq!(e.code, ErrorCode::PeerRejected);
    assert_eq!(e.message, "server rejected duplex: expected 101, got 403 Forbidden");

    let mut store = HandleStore::new(StoreConfig::default());
    let d = open_duplex(&mut store, 0).unwrap();
    assert_eq!(store.count_handles().0, 1);
    assert!(store.finish_body(d.write_handle).is_ok());
    assert!(store.cancel_reader(d.read_handle));
}

#[test]
fn a_duplex_stream_has_both_handles_or_none() {
    let mut config = StoreConfig::default();
    config.max_handles = 1;
    let mut store = HandleStore::new(config);
    let w = store.insert_writer(0).unwrap();
    let e = open_duplex(&mut store, 0).unwrap_err();
    assert_eq!(e.message, "handle registry at capacity");
    assert_eq!(store.count_handles(), (0, 1, 0, 1));
    assert!(store.finish_body(w).is_ok());
    assert!(open_duplex(&mut store, 0).is_ok());
}
