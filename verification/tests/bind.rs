use iroh_http::bind::{
    check_bind_addrs, check_idle_timeout, choose_relays, classify_bind_error, custom_relays,
    discovery_server, endpoint_limits, offered_alpns, plan_bind, plan_discovery, plan_proxy,
    plan_transport, proxy_server, BindOutcome, BindText, DiscoveryPlan, ProxyPlan, RelayChoice,
};
use iroh_http::config::NodeOptions;
use iroh_http::error::ErrorCode;
use iroh_http::stack::CompressionOptions;

#[test]
fn relay_modes() {
    let mode = |m: &str| Some(m.to_string());
    assert!(matches!(choose_relays(false, &None, &vec![]).unwrap(), RelayChoice::Default));
    assert!(matches!(
        choose_relays(false, &mode("staging"), &vec![]).unwrap(),
        RelayChoice::Staging
    ));
    assert!(matches!(choose_relays(true, &None, &vec![]).unwrap(), RelayChoice::Disabled));
    for overridden in ["default", "custom", "disabled", "fast"] {
        assert!(matches!(
            choose_relays(true, &mode(overridden), &vec![]).unwrap(),
            RelayChoice::Disabled
        ));
    }
    assert!(choose_relays(false, &mode("custom"), &vec![]).is_err());
    let e = choose_relays(false, &mode("fast"), &vec![]).unwrap_err();
    assert_eq!(e.message, "unknown relay_mode: fast");
    let urls = vec!["https://relay.example.org".to_string()];
    match choose_relays(false, &mode("custom"), &urls).unwrap() {
        RelayChoice::Custom(u) => assert_eq!(u, vec!["https://relay.example.org/".to_string()]),
        _ => panic!("custom relays are used"),
    }
    assert!(choose_relays(false, &mode("custom"), &vec!["no url".to_string()]).is_err());
}

#[test]
fn the_first_bad_relay_is_told() {
    let reads = vec![
        Ok("https://a/".to_string()),
        Err("first".to_string()),
        Err("second".to_string()),
    ];
    assert_eq!(custom_relays(&reads).unwrap_err().message, "first");
    assert!(custom_relays(&reads[..1]).is_ok());
}

#[test]
fn protocols_on_offer() {
    assert_eq!(offered_alpns(&vec![]), vec!["iroh-http/2-duplex", "iroh-http/2"]);
    assert_eq!(offered_alpns(&vec!["iroh-http/2".to_string()]), vec!["iroh-http/2"]);
    assert_eq!(
        offered_alpns(&vec!["iroh-http/2-duplex".to_string()]),
        vec!["iroh-http/2-duplex", "iroh-http/2"]
    );
    let mut opts = NodeOptions::default();
    opts.capabilities = vec!["h3".to_string()];
    let e = plan_transport(&opts).unwrap_err();
    assert!(e.message.contains("unknown ALPN capability: \"h3\""));
}

#[test]
fn compression_levels_are_bounded() {
    let mut opts = NodeOptions::default();
    opts.compression = Some(CompressionOptions { level: Some(23), ..CompressionOptions::default() });
    assert_eq!(plan_transport(&opts).unwrap_err().code, ErrorCode::InvalidInput);
    opts.compression = Some(CompressionOptions { level: Some(22), ..CompressionOptions::default() });
    assert!(plan_transport(&opts).is_ok());
}

#[test]
fn discovery_and_proxy_urls() {
    let mut opts = NodeOptions::default();
    opts.discovery.enabled = true;
    assert!(matches!(plan_discovery(&opts).unwrap(), DiscoveryPlan::Defaults));
    opts.discovery.dns_server = Some("https://dns.example.org/x".to_string());
    match plan_discovery(&opts).unwrap() {
        DiscoveryPlan::Server { url, host } => {
            assert_eq!((url.as_str(), host.as_str()), ("https://dns.example.org/x", "dns.example.org"))
        }
        _ => panic!("the server is used"),
    }
    opts.discovery.dns_server = Some("::".to_string());
    assert!(plan_discovery(&opts).unwrap_err().message.starts_with("invalid dns_discovery URL: "));
    opts.networking.disabled = true;
    assert!(matches!(plan_discovery(&opts).unwrap(), DiscoveryPlan::Off));
    assert!(discovery_server(Err("x".to_string())).is_err());

    let mut opts = NodeOptions::default();
    assert!(matches!(plan_proxy(&opts).unwrap(), ProxyPlan::Off));
    opts.networking.proxy_from_env = true;
    assert!(matches!(plan_proxy(&opts).unwrap(), ProxyPlan::FromEnv));
    opts.networking.proxy_url = Some("http://proxy:8080".to_string());
    match plan_proxy(&opts).unwrap() {
        ProxyPlan::Url(u) => assert_eq!(u, "http://proxy:8080/"),
        _ => panic!("the URL is used"),
    }
    assert_eq!(proxy_server(Err("x".to_string())).unwrap_err().message, "invalid proxy URL: x");
}

#[test]
fn idle_timeouts_must_fit_the_wire() {
    assert!(check_idle_timeout(None).is_ok());
    assert!(check_idle_timeout(Some((1 << 62) - 1)).is_ok());
    let e = check_idle_timeout(Some(1 << 62)).unwrap_err();
    assert_eq!(e.message, "idle_timeout_ms out of range: value too large for varint encoding");
}

#[test]
fn the_first_bad_bind_address_is_told() {
    let taken = || BindText { text: "127.0.0.1:0".to_string(), outcome: BindOutcome::Taken };
    assert!(check_bind_addrs(&[taken()]).is_ok());
    let bad = BindText {
        text: "x".to_string(),
        outcome: BindOutcome::Unreadable("invalid socket address syntax".to_string()),
    };
    let e = check_bind_addrs(&[taken(), bad]).unwrap_err();
    assert_eq!(e.message, "invalid bind address \"x\": invalid socket address syntax");
    let bad = BindText {
        text: "1.2.3.4:5".to_string(),
        outcome: BindOutcome::Refused("in use".to_string()),
    };
    assert_eq!(check_bind_addrs(&[bad]).unwrap_err().message, "bind address \"1.2.3.4:5\": in use");
    assert_eq!(classify_bind_error("x").code, ErrorCode::ConnectionFailed);
}

#[test]
fn a_default_endpoint_can_be_bound() {
    let plan = plan_bind(&NodeOptions::default(), &[], &[]).unwrap();
    assert_eq!(plan.max_concurrent_streams, 128);
    assert!(plan.nameservers.is_empty());
    assert!(matches!(plan.proxy, ProxyPlan::Off));
    let mut opts = NodeOptions::default();
    opts.networking.idle_timeout_ms = Some(u64::MAX);
    assert!(plan_bind(&opts, &[], &[]).is_err());
}

#[test]
fn endpoint_limits_have_defaults() {
    let l = endpoint_limits(&NodeOptions::default()).unwrap();
    assert_eq!((l.max_header_size, l.max_response_body_bytes), (65536, 256 * 1024 * 1024));
    assert_eq!((l.store.channel_capacity, l.store.max_chunk_size), (32, 65536));
    assert!(l.sweeps && l.sweep_interval_ms == 60_000);
    let mut opts = NodeOptions::default();
    opts.streaming.channel_capacity = Some(0);
    opts.streaming.handle_ttl_ms = Some(0);
    let l = endpoint_limits(&opts).unwrap();
    assert_eq!(l.store.channel_capacity, 1);
    assert!(!l.sweeps);
    opts.max_header_size = Some(0);
    assert!(endpoint_limits(&opts).is_err());
}
