use iroh_http::crypto::{
    drawn_key, generate_secret_key, panicked, public_key_bytes, public_key_verify,
    secret_key_sign, verdict,
};
use iroh_http::error::{CoreError, ErrorCode};
use iroh_http::events::{now_ms, since_epoch_ms, TransportEvent};
use iroh_http::registry::EndpointRegistry;
use iroh_http::rules::{check_headers, check_method, check_status, shown_error, visible_text, HeadKind};
use iroh_http::text::{decimal_text, list_has_token, parse_unsigned, trim};

#[test]
fn close_all_endpoints_is_idempotent_on_empty_registry() {
    let mut registry = EndpointRegistry::new();
    assert!(registry.close_all_endpoints().is_empty());
    assert!(registry.close_all_endpoints().is_empty());
}

#[test]
fn endpoints_are_found_by_handle_until_removed() {
    let mut registry = EndpointRegistry::new();
    let a = registry.insert_endpoint(100);
    let b = registry.insert_endpoint(200);
    assert_ne!(a, b);
    assert_eq!(registry.get_endpoint(a), Some(100));
    assert_eq!(registry.remove_endpoint(a), Some(100));
    assert_eq!(registry.get_endpoint(a), None);
    assert_eq!(registry.remove_endpoint(a), None);
    assert_eq!(registry.close_all_endpoints(), vec![200]);
    assert_eq!(registry.get_endpoint(b), None);
}

#[test]
fn signatures_verify_under_their_key_only() {
    let secret = generate_secret_key().unwrap();
    let public = *iroh::SecretKey::from_bytes(&secret).public().as_bytes();
    assert_eq!(public_key_bytes(&secret), public);
    let sig = secret_key_sign(&secret, b"data").unwrap();
    assert_eq!(sig, secret_key_sign(&secret, b"data").unwrap());
    assert!(public_key_verify(&public, b"data", &sig));
    assert!(!public_key_verify(&public, b"other", &sig));
    let mut no_key = [0u8; 32];
    no_key[0] = 2;
    assert!(!public_key_verify(&no_key, b"data", &sig));
    assert_ne!(secret, generate_secret_key().unwrap());
    assert!(verdict(None, true) && !verdict(None, false));
    assert!(!verdict(Some("bad key".to_string()), true));
    assert_eq!(panicked("sign").message, "sign panicked");
}

#[test]
fn headers_methods_and_statuses_follow_http() {
    let h = |n: &str, v: &str| vec![(n.to_string(), v.to_string())];
    assert!(check_headers(HeadKind::Request, &h("X-a", "v\tw é")).is_ok());
    assert_eq!(
        check_headers(HeadKind::Request, &h("", "v")).unwrap_err().message,
        "invalid header name \"\""
    );
    assert_eq!(
        check_headers(HeadKind::Response, &h("a", "\u{7f}")).unwrap_err().message,
        "invalid response header value for \"a\""
    );
    assert_eq!(
        check_headers(HeadKind::Response, &h("a:", "v")).unwrap_err().message,
        "invalid response header name \"a:\""
    );
    assert!(check_headers(HeadKind::Request, &h(&"a".repeat(65535), "v")).is_ok());
    assert!(check_headers(HeadKind::Request, &h(&"a".repeat(65536), "v")).is_err());
    assert!(check_method("M-SEARCH").is_ok() && check_method("").is_err());
    assert!(check_status(100).is_ok() && check_status(999).is_ok());
    assert_eq!(check_status(99).unwrap_err().message, "invalid HTTP status code: 99");
    assert!(check_status(1000).is_err());
    assert_eq!(shown_error("a ", "\"b\"").message, "a \"b\"");
    assert_eq!(visible_text(b"a\tb"), Some("a\tb".to_string()));
    assert_eq!(visible_text(&[0xe9]), None);
}

#[test]
fn events_carry_a_time() {
    match TransportEvent::pool_hit("p") {
        TransportEvent::PoolHit { peer_id, timestamp } => {
            assert_eq!(peer_id, "p");
            assert!(timestamp > 1_600_000_000_000);
        }
        _ => panic!("a hit is a hit"),
    }
    assert!(matches!(TransportEvent::pool_miss("p"), TransportEvent::PoolMiss { .. }));
    assert!(matches!(TransportEvent::pool_evict("p"), TransportEvent::PoolEvict { .. }));
    assert!(matches!(
        TransportEvent::handle_sweep(3),
        TransportEvent::HandleSweep { evicted: 3, .. }
    ));
}

#[test]
fn events_are_made_at_a_time() {
    assert!(matches!(
        TransportEvent::path_change_at("p", "10.0.0.1:9", true, 42),
        TransportEvent::PathChange { relay: true, timestamp: 42, .. }
    ));
    assert!(matches!(
        TransportEvent::pool_hit_at("p", 1),
        TransportEvent::PoolHit { timestamp: 1, .. }
    ));
    assert!(matches!(
        TransportEvent::handle_sweep_at(3, 2),
        TransportEvent::HandleSweep { evicted: 3, timestamp: 2 }
    ));
    assert_eq!(since_epoch_ms(Some((2, 3_999_999))), 2003);
    assert_eq!(since_epoch_ms(Some((18_446_744_073_709_552, 0))), 384);
    assert_eq!(since_epoch_ms(None), 0);
    let before = now_ms();
    match TransportEvent::path_change("p", "a", false) {
        TransportEvent::PathChange { timestamp, .. } => {
            assert!(before <= timestamp && timestamp <= before + 60_000);
        }
        _ => panic!("a change is a change"),
    }
}

#[test]
fn text_helpers() {
    assert_eq!(decimal_text(0), "0");
    assert_eq!(decimal_text(u64::MAX), "18446744073709551615");
    assert_eq!(parse_unsigned("65535", 65535), Some(65535));
    assert_eq!(parse_unsigned("65536", 65535), None);
    assert_eq!(parse_unsigned("", 9), None);
    assert_eq!(trim("  a b\t"), "a b");
    assert!(list_has_token("keep-alive, Upgrade", "upgrade"));
    assert!(!list_has_token("upgrades", "upgrade"));
}

#[test]
fn an_invalid_handle_is_named() {
    let e = CoreError::invalid_handle(77);
    assert_eq!(e.code, ErrorCode::InvalidInput);
    assert!(e.message.contains("77"));
    assert_eq!(e.duplicate().message, e.message);
}

#[test]
fn a_drawn_key_is_given_back_unchanged() {
    assert_eq!(drawn_key(Some([7; 32])).unwrap(), [7; 32]);
    let e = drawn_key(None).unwrap_err();
    assert_eq!(e.code, ErrorCode::Internal);
    assert_eq!(e.message, "generate_secret_key panicked");
}
