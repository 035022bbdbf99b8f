use iroh_http::addr::{IpAddr, SocketAddr};
use iroh_http::bind::plan_bind;
use iroh_http::config::NodeOptions;
use iroh_http::dns::{
    check_reply, check_upstream, configure_nameservers, nameserver_host, parse_dns_nameserver,
    proxy_error, HostReading, NameserverText, ProxyLoad, MAX_SCOPED_DNS_IN_FLIGHT,
    MAX_SCOPED_DNS_UDP_PAYLOAD,
};
use iroh_http::error::ErrorCode;

const FE80_1: u128 = 0xfe80_0000_0000_0000_0000_0000_0000_0001;

fn host_v6(bits: u128) -> HostReading {
    HostReading { v6: Ok(bits), any: Ok(IpAddr::V6(bits)) }
}

fn host_v4(a: u8, b: u8, c: u8, d: u8) -> HostReading {
    HostReading {
        v6: Err("invalid IPv6 address syntax".to_string()),
        any: Ok(IpAddr::v4(a, b, c, d)),
    }
}

fn no_host() -> HostReading {
    HostReading {
        v6: Err("invalid IPv6 address syntax".to_string()),
        any: Err("invalid IP address syntax".to_string()),
    }
}

#[test]
fn numeric_ipv6_dns_scope_is_preserved_in_resolver_address() {
    assert_eq!(nameserver_host("fe80::1%17"), "fe80::1");
    let addr = parse_dns_nameserver("fe80::1%17", &host_v6(FE80_1)).unwrap();
    assert_eq!(addr, SocketAddr { ip: IpAddr::V6(FE80_1), port: 53, scope_id: 17 });
}

#[test]
fn unscoped_link_local_ipv6_dns_is_rejected() {
    let error = parse_dns_nameserver("fe80::1", &host_v6(FE80_1)).unwrap_err();
    assert!(error.contains("interface scope"));
}

#[test]
fn a_named_scope_is_rejected_and_named() {
    let list = vec![NameserverText {
        text: "fe80::1%wlan0".to_string(),
        host: host_v6(FE80_1),
    }];
    let error = configure_nameservers(&list).unwrap_err();
    assert_eq!(error.code, ErrorCode::InvalidInput);
    assert!(error.message.contains("wlan0"));
}

#[test]
fn all_invalid_nameservers_fail_and_are_named() {
    let list = vec![
        NameserverText { text: "not-an-ip".to_string(), host: no_host() },
        NameserverText { text: "999.1.1.1".to_string(), host: no_host() },
    ];
    let error = configure_nameservers(&list).unwrap_err();
    assert!(error.message.contains("dns_nameservers") && error.message.contains("not-an-ip"));
}

#[test]
fn one_valid_nameserver_is_enough() {
    let list = vec![
        NameserverText { text: "bogus".to_string(), host: no_host() },
        NameserverText { text: "8.8.8.8".to_string(), host: host_v4(8, 8, 8, 8) },
    ];
    let (plans, rejected) = configure_nameservers(&list).unwrap();
    assert_eq!(plans.len(), 1);
    assert_eq!(plans[0].addr, SocketAddr::new(IpAddr::v4(8, 8, 8, 8), 53));
    assert!(!plans[0].proxied);
    assert_eq!(rejected.len(), 1);
    assert!(rejected[0].contains("bogus"));
}

#[test]
fn no_nameservers_need_no_proxy() {
    let (plans, rejected) = configure_nameservers(&[]).unwrap();
    assert!(plans.is_empty() && rejected.is_empty());
}

#[test]
fn scoped_nameservers_are_proxied() {
    let list = vec![NameserverText { text: "fe80::1%3".to_string(), host: host_v6(FE80_1) }];
    let (plans, _) = configure_nameservers(&list).unwrap();
    assert!(plans[0].proxied);
    let plan = plan_bind(&NodeOptions::default(), &list, &[]).unwrap();
    assert!(plan.nameservers.len() == 1 && plan.nameservers[0].proxied);
    assert_eq!(check_upstream(&plans[0].addr), Ok(()));
    assert!(check_upstream(&SocketAddr::new(IpAddr::V6(FE80_1), 53)).is_err());
    assert!(check_upstream(&SocketAddr::new(IpAddr::v4(8, 8, 8, 8), 53)).is_err());
}

#[test]
fn the_proxy_sheds_what_it_cannot_carry() {
    let mut load = ProxyLoad::new();
    for _ in 0..MAX_SCOPED_DNS_IN_FLIGHT {
        assert!(load.on_query(100));
    }
    assert!(!load.on_query(100));
    load.on_done();
    assert!(load.on_query(100));
    load.on_done();
    assert!(!load.on_query(MAX_SCOPED_DNS_UDP_PAYLOAD + 1));
    assert!(load.on_query(MAX_SCOPED_DNS_UDP_PAYLOAD));
    assert!(check_reply(MAX_SCOPED_DNS_UDP_PAYLOAD).is_ok());
    assert!(check_reply(MAX_SCOPED_DNS_UDP_PAYLOAD + 1).is_err());
    let e = proxy_error("fe80::1%3", "no socket");
    assert!(e.message.contains("fe80::1%3") && e.message.contains("no socket"));
}
