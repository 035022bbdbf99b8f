use iroh_http::client::FetchError;
use iroh_http::encoding::{base32_encode, NodeId};
use iroh_http::error::{CoreError, ErrorCode};
use iroh_http::fetch::{
    begin_fetch, check_request, conclude_fetch, extract_path, fetch_config, fetch_error_to_core,
    measure_response, package_response, prepare_fetch, request_build_error, response_body_limit,
    FetchEnd, FetchRoute,
};
use iroh_http::handles::{HandleStore, StoreConfig};

#[test]
fn extracts_path_and_query() {
    assert_eq!(extract_path("httpi://node/a/b?c=1"), "/a/b?c=1");
    assert_eq!(extract_path("httpi://node/"), "/");
    assert_eq!(extract_path("httpi://node"), "/");
    assert_eq!(extract_path("httpi://node?x=1"), "/?x=1");
}

#[test]
fn strips_fragment_from_request_target() {
    assert_eq!(extract_path("httpi://node/a?b=1#secret"), "/a?b=1");
    assert_eq!(extract_path("httpi://node/a#frag"), "/a");
    assert_eq!(extract_path("httpi://node/#frag"), "/");
    assert_eq!(extract_path("httpi://node#frag"), "/");
    assert_eq!(extract_path("/path?q=1#frag"), "/path?q=1");
}

fn node() -> NodeId {
    NodeId { bytes: *iroh::SecretKey::from_bytes(&[5; 32]).public().as_bytes() }
}

fn pair(name: &str, value: &str) -> (String, String) {
    (name.to_string(), value.to_string())
}

#[test]
fn web_schemes_are_refused_in_any_case() {
    for (url, scheme) in [("https://x/", "https://"), ("HTTP://x", "HTTP://")] {
        let e = check_request(url, "GET", &[]).unwrap_err();
        assert_eq!(e.code, ErrorCode::InvalidInput);
        assert!(e.message.contains(scheme));
    }
    assert!(check_request("httpi://x/", "GET", &[]).is_ok());
    assert_eq!(
        check_request("httpi://x/", "G T", &[]).unwrap_err().message,
        "invalid HTTP method \"G T\""
    );
    assert!(check_request("httpi://x/", "GET", &[pair("a", "b\n")]).is_err());
}

#[test]
fn requests_to_oneself_stay_local() {
    let own = base32_encode(&node().bytes);
    let q = prepare_fetch(&own, Ok(node()), "httpi://x/p?q#f", "GET", &[pair("a", "b")]).unwrap();
    assert_eq!(q.route, FetchRoute::Local);
    assert_eq!(q.path, "/p?q");
    assert!(q.headers.contains(&pair("host", &own)));
    assert!(q.headers.contains(&pair("a", "b")));
    let q = prepare_fetch("other", Ok(node()), "httpi://x/", "GET", &[]).unwrap();
    assert_eq!(q.route, FetchRoute::Remote);
    let e = prepare_fetch("other", Err(CoreError::invalid_input("bad id")), "httpi://x/", "GET", &[]);
    assert_eq!(e.unwrap_err().message, "bad id");
}

#[test]
fn every_fetch_error_has_its_code() {
    let all = vec![
        (FetchError::ConnectionFailed { detail: "d".to_string() }, ErrorCode::ConnectionFailed),
        (FetchError::RequestBodyFailed { detail: "d".to_string() }, ErrorCode::Internal),
        (FetchError::HeaderTooLarge { detail: "d".to_string() }, ErrorCode::HeaderTooLarge),
        (FetchError::BodyTooLarge, ErrorCode::BodyTooLarge),
        (FetchError::Timeout, ErrorCode::Timeout),
        (FetchError::Cancelled, ErrorCode::Cancelled),
        (FetchError::Internal("d".to_string()), ErrorCode::Internal),
    ];
    for (e, code) in all {
        assert_eq!(fetch_error_to_core(e).code, code);
    }
}

#[test]
fn a_concluded_fetch_gives_its_token_up() {
    let mut store = HandleStore::new(StoreConfig::default());
    let t = store.alloc_fetch_token(0).unwrap();
    let e = conclude_fetch(&mut store, Some(t), FetchEnd::Cancelled).unwrap_err();
    assert_eq!((e.code, e.message.as_str()), (ErrorCode::Cancelled, "aborted"));
    assert!(!store.cancel_in_flight(t));
    assert!(conclude_fetch(&mut store, None, FetchEnd::Answered).is_ok());
    assert!(conclude_fetch(&mut store, None, FetchEnd::Failed(FetchError::Timeout)).is_err());
}

#[test]
fn a_refused_fetch_gives_its_token_up() {
    let mut store = HandleStore::new(StoreConfig::default());
    let t = store.alloc_fetch_token(0).unwrap();
    let kept = store.alloc_fetch_token(0).unwrap();
    let node = || Ok(NodeId { bytes: [1; 32] });
    let e = begin_fetch(&mut store, Some(t), "me", node(), "http://x/", "GET", &[]).unwrap_err();
    assert_eq!(e.code, ErrorCode::InvalidInput);
    assert!(!store.cancel_in_flight(t));
    assert!(store.cancel_in_flight(kept));
    assert!(begin_fetch(&mut store, Some(kept), "me", node(), "/p", "GET", &[]).is_ok());
    assert!(store.cancel_in_flight(kept));
    let refused = FetchEnd::Refused(CoreError::invalid_input("no"));
    assert_eq!(conclude_fetch(&mut store, Some(kept), refused).unwrap_err().message, "no");
    assert!(!store.cancel_in_flight(kept));
}

#[test]
fn a_response_head_is_measured_and_read() {
    let mut store = HandleStore::new(StoreConfig::default());
    let headers = vec![("a".to_string(), b"bc".to_vec())];
    assert_eq!(measure_response(&headers), 16 + 3 + 4);
    let p = package_response(&mut store, 200, &headers, "node", "/p", 23, 0).unwrap();
    assert_eq!(p.url, "httpi://node/p");
    assert_eq!(p.headers, vec![pair("a", "bc")]);
    assert!(store.cancel_reader(p.body_handle));
    let e = package_response(&mut store, 200, &headers, "node", "/p", 22, 0).unwrap_err();
    assert_eq!(e.code, ErrorCode::HeaderTooLarge);
    assert_eq!(e.message, "response header size 23 exceeds limit 22");
    let p = package_response(&mut store, 204, &headers, "node", "/p", 100, 0).unwrap();
    assert_eq!(p.body_handle, 0);
    let bad = vec![("a".to_string(), vec![0xff])];
    let e = package_response(&mut store, 200, &bad, "node", "/p", 100, 0).unwrap_err();
    assert_eq!(e.message, "non-UTF8 response header value for 'a'");
    assert_eq!(store.count_handles(), (0, 0, 0, 0));
}

#[test]
fn what_a_fetch_is_made_with() {
    let c = fetch_config(Some(5), true);
    assert_eq!((c.timeout_ms, c.decompression, c.load_shed), (Some(5), true, false));
    assert_eq!((response_body_limit(None, 9), response_body_limit(Some(3), 9)), (9, 3));
    assert_eq!(request_build_error("x").message, "build request: x");
}
