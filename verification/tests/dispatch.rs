use iroh_http::dispatch::{
    admit_headers, answer_unclaimed, build_failed, conclude, duplex_upgrade, measure_head,
    open_request, request_url, respond, switch_head, DispatchEvent, DispatchReply, IncomingHead,
};
use iroh_http::error::ErrorCode;
use iroh_http::handles::{HandleStore, ResponseHeadEntry, StoreConfig};

fn test_store() -> HandleStore {
    HandleStore::new(StoreConfig::default())
}

fn pair(name: &str, value: &str) -> (String, String) {
    (name.to_string(), value.to_string())
}

fn head(method: &str, headers: Vec<(String, Vec<u8>)>) -> IncomingHead {
    IncomingHead {
        method: method.to_string(),
        uri: "/".to_string(),
        path_and_query: Some("/".to_string()),
        headers,
    }
}

#[test]
fn respond_rejects_invalid_status() {
    let mut store = test_store();
    let err = respond(&mut store, 0, 9999, vec![]).unwrap_err();
    assert_eq!(err.code, ErrorCode::InvalidInput);
}

#[test]
fn respond_rejects_invalid_header_name() {
    let mut store = test_store();
    let err = respond(&mut store, 0, 200, vec![pair("bad name", "v")]).unwrap_err();
    assert_eq!(err.code, ErrorCode::InvalidInput);
}

#[test]
fn respond_rejects_invalid_header_value() {
    let mut store = test_store();
    let err = respond(&mut store, 0, 200, vec![pair("x", "bad\nvalue")]).unwrap_err();
    assert_eq!(err.code, ErrorCode::InvalidInput);
}

#[test]
fn respond_unknown_handle_errors() {
    let mut store = test_store();
    let err = respond(&mut store, 4242, 200, vec![pair("x", "y")]).unwrap_err();
    assert_eq!(err.code, ErrorCode::InvalidInput);
    assert!(err.message.contains("4242"));
}

#[test]
fn respond_delivers_head_to_receiver() {
    let mut store = test_store();
    let handle = store.allocate_req_handle(0).unwrap();
    let head = respond(&mut store, handle, 201, vec![pair("x-test", "yes")]).unwrap();
    assert_eq!(head.status, 201);
    assert_eq!(head.headers, vec![pair("x-test", "yes")]);
    let err = respond(&mut store, handle, 200, vec![]).unwrap_err();
    assert_eq!(err.code, ErrorCode::InvalidInput);
}

#[test]
fn dispatch_rejects_non_utf8_header_value() {
    let mut store = test_store();
    let bad = head("GET", vec![("x-bad".to_string(), vec![0xff, 0xfe])]);
    let refusal = open_request(&mut store, &bad, "", "me", None, true, 0).unwrap_err();
    assert_eq!(refusal.status, 400);
    assert_eq!(store.count_handles(), (0, 0, 0, 0));
}

#[test]
fn dispatch_rejects_oversized_headers() {
    let mut store = test_store();
    let big = head("GET", vec![("x-big".to_string(), vec![b'a'; 200])]);
    let refusal = open_request(&mut store, &big, "", "me", Some(50), true, 0).unwrap_err();
    assert_eq!(refusal.status, 431);
    assert_eq!(store.count_handles(), (0, 0, 0, 0));
    assert!(open_request(&mut store, &big, "", "me", Some(1000), true, 0).is_ok());
}

#[test]
fn a_head_is_admitted_up_to_its_exact_size() {
    let h = head("GET", vec![("a".to_string(), b"bc".to_vec())]);
    let size = measure_head(&h, "peer");
    let headers = admit_headers(&h, "peer", Some(size)).unwrap();
    assert_eq!(headers, vec![pair("a", "bc"), pair("peer-id", "peer")]);
    assert_eq!(admit_headers(&h, "peer", Some(size - 1)).unwrap_err().status, 431);
}

#[test]
fn a_peer_cannot_name_itself() {
    let h = head("GET", vec![("peer-id".to_string(), b"someone-else".to_vec())]);
    let headers = admit_headers(&h, "peer", None).unwrap();
    let ids: Vec<&(String, String)> = headers.iter().filter(|h| h.0 == "peer-id").collect();
    assert_eq!(ids, vec![&pair("peer-id", "peer")]);
}

#[test]
fn a_payload_names_the_request() {
    let mut store = test_store();
    let h = head("GET", vec![]);
    let p = open_request(&mut store, &h, "peer", "me", None, true, 7).unwrap();
    assert_eq!(p.method, "GET");
    assert_eq!(p.url, "httpi://me/");
    assert_eq!(p.remote_node_id, "peer");
    assert!(!p.is_bidi);
    assert_eq!(store.count_handles().0, 1);
    assert_eq!(store.count_handles().1, 1);
    assert_eq!(request_url("me", &Some("/a?b=1".to_string())), "httpi://me/a?b=1");
    assert_eq!(request_url("me", &None), "httpi://me/");
}

#[test]
fn an_upgrade_needs_its_method_and_headers() {
    let headers = vec![pair("connection", "upgrade"), pair("upgrade", "iroh-duplex")];
    assert_eq!(duplex_upgrade("CONNECT", &headers).unwrap(), true);
    assert_eq!(duplex_upgrade("GET", &[]).unwrap(), false);
}

#[test]
fn an_answer_decides_what_is_sent() {
    let entry = |status: u16| ResponseHeadEntry { status, headers: vec![] };
    assert!(matches!(
        conclude(false, DispatchEvent::BodyOverflow),
        DispatchReply::Text(f) if f.status == 413
    ));
    assert!(matches!(
        conclude(false, DispatchEvent::HandlerDropped),
        DispatchReply::Text(f) if f.status == 500
    ));
    assert!(matches!(
        conclude(true, DispatchEvent::Head(entry(101))),
        DispatchReply::SwitchProtocols
    ));
    assert!(matches!(
        conclude(true, DispatchEvent::Head(entry(403))),
        DispatchReply::HeadOnly(_)
    ));
    assert!(matches!(
        conclude(false, DispatchEvent::Head(entry(200))),
        DispatchReply::HeadAndBody(_)
    ));
    let head = switch_head();
    assert_eq!(head.status, 101);
    assert_eq!(head.headers[0], ("connection".to_string(), "Upgrade".to_string()));
    assert_eq!(head.headers[1], ("upgrade".to_string(), "iroh-duplex".to_string()));
    assert_eq!(head.headers.len(), 2);
    assert_eq!(build_failed().status, 500);
    assert_eq!(answer_unclaimed().code, ErrorCode::Internal);
}
