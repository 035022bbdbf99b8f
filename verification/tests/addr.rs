use iroh_http::addr::{
    admit_direct, admit_relay, bad_direct_message, is_routable_ip, node_addr, node_ticket,
    parse_direct_addrs, parse_node_addr, reconcile_direct_addr_ports, select_dialable_direct,
    select_dialable_directs, transport_alive, AddrText, IpAddr, SocketAddr, Ticket,
};
use iroh_http::encoding::base32_encode;
use iroh_http::error::ErrorCode;

fn v4(a: u8, b: u8, c: u8, d: u8, port: u16) -> SocketAddr {
    SocketAddr::new(IpAddr::v4(a, b, c, d), port)
}

fn v6(bits: u128, port: u16) -> SocketAddr {
    SocketAddr::new(IpAddr::V6(bits), port)
}

const FE80_1: u128 = 0xfe80_0000_0000_0000_0000_0000_0000_0001;
const DB8_1: u128 = 0x2001_0db8_0000_0000_0000_0000_0000_0001;

fn read(text: &str, addr: SocketAddr) -> AddrText {
    AddrText { text: text.to_string(), read: Ok(addr) }
}

fn unreadable(text: &str) -> AddrText {
    AddrText { text: text.to_string(), read: Err("invalid socket address syntax".to_string()) }
}

#[test]
fn reconcile_substitutes_bound_port_for_port_zero() {
    let candidates = vec![v4(192, 168, 50, 227, 0)];
    let bound = vec![v4(192, 168, 50, 227, 59234)];
    let out = reconcile_direct_addr_ports(&candidates, &bound);
    assert_eq!(out, vec![v4(192, 168, 50, 227, 59234)]);
    assert!(out.iter().all(|a| a.port != 0));
}

#[test]
fn reconcile_prefers_bound_socket_of_same_ip_family() {
    let candidates = vec![v4(192, 168, 50, 227, 0), v6(FE80_1, 0)];
    let bound = vec![v6(0, 60000), v4(0, 0, 0, 0, 59234)];
    let out = reconcile_direct_addr_ports(&candidates, &bound);
    assert_eq!(out[0], v4(192, 168, 50, 227, 59234));
    assert_eq!(out[1], v6(FE80_1, 60000));
}

#[test]
fn reconcile_drops_placeholder_without_same_family_bound_socket() {
    let candidates = vec![v6(DB8_1 + 6, 1)];
    let bound = vec![v4(0, 0, 0, 0, 62546)];
    assert_eq!(reconcile_direct_addr_ports(&candidates, &bound), vec![]);
}

#[test]
fn reconcile_keeps_nonzero_ports_untouched() {
    let candidates = vec![v4(10, 0, 0, 5, 4433)];
    let bound = vec![v4(0, 0, 0, 0, 59234)];
    let out = reconcile_direct_addr_ports(&candidates, &bound);
    assert_eq!(out, vec![v4(10, 0, 0, 5, 4433)]);
}

#[test]
fn reconcile_substitutes_bound_port_for_port_one() {
    let candidates = vec![v4(192, 168, 50, 227, 1)];
    let bound = vec![v4(0, 0, 0, 0, 62546)];
    let out = reconcile_direct_addr_ports(&candidates, &bound);
    assert_eq!(out, vec![v4(192, 168, 50, 227, 62546)]);
}

#[test]
fn reconcile_drops_port_one_when_no_bound_port_available() {
    let candidates = vec![v4(192, 168, 50, 227, 1)];
    let out = reconcile_direct_addr_ports(&candidates, &[]);
    assert!(out.is_empty());
}

#[test]
fn reconcile_preserves_reflexive_qad_port() {
    let candidates = vec![v4(192, 168, 50, 227, 1), v4(192, 26, 168, 188, 40349)];
    let bound = vec![v4(0, 0, 0, 0, 62546)];
    let out = reconcile_direct_addr_ports(&candidates, &bound);
    assert_eq!(out[0], v4(192, 168, 50, 227, 62546));
    assert_eq!(out[1], v4(192, 26, 168, 188, 40349));
}

#[test]
fn reconcile_drops_port_zero_when_no_bound_port_available() {
    let candidates = vec![v4(192, 168, 50, 227, 0)];
    let out = reconcile_direct_addr_ports(&candidates, &[]);
    assert!(out.is_empty());
}

#[test]
fn parse_direct_addrs_rejects_port_zero() {
    let err = parse_direct_addrs(&Some(vec![read(
        "192.168.50.227:0",
        v4(192, 168, 50, 227, 0),
    )]))
    .expect_err("port-0 direct address must be rejected");
    assert!(err.contains("192.168.50.227:0") && err.contains("port 0"));
}

#[test]
fn parse_direct_addrs_still_rejects_portless_bare_ip() {
    let err = parse_direct_addrs(&Some(vec![unreadable("192.168.50.227")]))
        .expect_err("bare IP without a port must be rejected");
    assert!(err.contains("192.168.50.227"));
}

#[test]
fn parse_direct_addrs_accepts_well_formed() {
    let out = parse_direct_addrs(&Some(vec![read(
        "192.168.50.227:59234",
        v4(192, 168, 50, 227, 59234),
    )]))
    .expect("well-formed address parses");
    assert_eq!(out, Some(vec![v4(192, 168, 50, 227, 59234)]));
}

#[test]
fn parse_direct_addrs_matches_ts_dialable_corpus() {
    let dialable = vec![
        read("1.2.3.4:443", v4(1, 2, 3, 4, 443)),
        read("192.168.50.227:59234", v4(192, 168, 50, 227, 59234)),
        read("[2001:db8::1]:443", v6(DB8_1, 443)),
        read("[::1]:8080", v6(1, 8080)),
        read("[::ffff:192.168.1.1]:443", v6(0xffff_c0a8_0101, 443)),
        read("0.0.0.0:1", v4(0, 0, 0, 0, 1)),
        read("255.255.255.255:65535", v4(255, 255, 255, 255, 65535)),
    ];
    for a in dialable {
        let addr = *a.read.as_ref().unwrap();
        assert_eq!(parse_direct_addrs(&Some(vec![a])), Ok(Some(vec![addr])));
    }

    let undialable = vec![
        unreadable("example.com:443"),
        unreadable("999.999.999.999:443"),
        unreadable("[not-ip]:443"),
        unreadable("1.2.3:443"),
        unreadable("1.2.3.4.5:443"),
        unreadable("01.2.3.4:443"),
        unreadable("1.2.3.4"),
        read("1.2.3.4:0", v4(1, 2, 3, 4, 0)),
        unreadable("2001:db8::1:443"),
        read("[2001:db8::1]:0", v6(DB8_1, 0)),
        unreadable("[fe80::1"),
        unreadable("1.2.3.4:70000"),
    ];
    for a in undialable {
        let text = a.text.clone();
        let err = parse_direct_addrs(&Some(vec![a])).unwrap_err();
        assert!(err.contains(&text));
    }
}

#[test]
fn one_bad_direct_address_spoils_the_list() {
    let err = parse_direct_addrs(&Some(vec![
        read("1.2.3.4:443", v4(1, 2, 3, 4, 443)),
        unreadable("x"),
        read("1.2.3.4:0", v4(1, 2, 3, 4, 0)),
    ]))
    .unwrap_err();
    assert_eq!(err, bad_direct_message("\"x\"", "invalid socket address syntax"));
    assert_eq!(parse_direct_addrs(&None), Ok(None));
}

#[test]
fn selects_first_routable_ip_with_reconciled_port() {
    let addrs = vec![v4(127, 0, 0, 1, 59234), v4(192, 168, 1, 42, 59234)];
    assert_eq!(select_dialable_direct(&addrs), Some(v4(192, 168, 1, 42, 59234)));
}

#[test]
fn skips_loopback_and_unspecified() {
    let addrs = vec![v4(127, 0, 0, 1, 59234), v4(0, 0, 0, 0, 59234)];
    assert_eq!(select_dialable_direct(&addrs), None);
}

#[test]
fn skips_link_local() {
    let addrs = vec![v4(169, 254, 10, 1, 59234), v4(10, 0, 0, 5, 59234)];
    assert_eq!(select_dialable_direct(&addrs), Some(v4(10, 0, 0, 5, 59234)));
}

#[test]
fn none_when_only_non_routable() {
    assert_eq!(select_dialable_direct(&[v4(169, 254, 10, 1, 59234)]), None);
}

#[test]
fn skips_placeholder_port_selects_real() {
    let addrs = vec![v4(192, 168, 1, 42, 1), v4(10, 0, 0, 5, 59234)];
    assert_eq!(select_dialable_direct(&addrs), Some(v4(10, 0, 0, 5, 59234)));
}

#[test]
fn none_when_only_placeholder_port() {
    assert_eq!(select_dialable_direct(&[v4(192, 168, 1, 42, 1)]), None);
}

#[test]
fn routable_ip_predicate() {
    assert!(is_routable_ip(&IpAddr::v4(192, 168, 1, 1)));
    assert!(is_routable_ip(&IpAddr::V6(DB8_1)));
    assert!(!is_routable_ip(&IpAddr::v4(127, 0, 0, 1)));
    assert!(!is_routable_ip(&IpAddr::v4(0, 0, 0, 0)));
    assert!(!is_routable_ip(&IpAddr::v4(169, 254, 1, 1)));
    assert!(!is_routable_ip(&IpAddr::V6(FE80_1)));
    assert!(!is_routable_ip(&IpAddr::V6(1)));
    assert!(!is_routable_ip(&IpAddr::V6(0)));
    assert!(is_routable_ip(&IpAddr::V6(0xfec0 << 112)));
    assert!(!is_routable_ip(&IpAddr::V6(0xfebf << 112)));
}

#[test]
fn plural_keeps_all_routable_candidates() {
    let addrs = vec![
        v4(127, 0, 0, 1, 59234),
        v4(10, 12, 222, 17, 56604),
        v4(192, 168, 50, 227, 56604),
        v4(169, 254, 10, 1, 56604),
        v4(192, 168, 50, 227, 1),
        v4(10, 12, 222, 17, 56604),
    ];
    assert_eq!(
        select_dialable_directs(&addrs),
        vec![v4(10, 12, 222, 17, 56604), v4(192, 168, 50, 227, 56604)]
    );
}

#[test]
fn plural_empty_when_none_routable() {
    let addrs = vec![v4(127, 0, 0, 1, 59234), v4(169, 254, 10, 1, 56604)];
    assert!(select_dialable_directs(&addrs).is_empty());
}

#[test]
fn what_is_advertised_can_be_dialled() {
    let bound = vec![v4(0, 0, 0, 0, 4433), v6(0, 4434)];
    let candidates = vec![v4(192, 168, 1, 2, 0), v6(DB8_1, 1), v4(127, 0, 0, 1, 0)];
    let out = select_dialable_directs(&reconcile_direct_addr_ports(&candidates, &bound));
    assert_eq!(out, vec![v4(192, 168, 1, 2, 4433), v6(DB8_1, 4434)]);
}

#[test]
fn the_transport_lives_while_it_has_sockets() {
    assert!(transport_alive(false, 1));
    assert!(!transport_alive(false, 0));
    assert!(!transport_alive(true, 1));
}

fn some_id() -> String {
    base32_encode(iroh::SecretKey::from_bytes(&[3; 32]).public().as_bytes())
}

#[test]
fn a_node_address_is_a_bare_id_or_a_ticket() {
    let bare = parse_node_addr(&some_id(), &None).unwrap();
    assert!(bare.relay_urls.is_empty() && bare.direct_addrs.is_empty());

    let ticket = Ticket {
        id: some_id(),
        addrs: vec![
            unreadable("https://relay.example.org/"),
            read("1.2.3.4:443", v4(1, 2, 3, 4, 443)),
        ],
    };
    let parsed = parse_node_addr("ignored", &Some(ticket)).unwrap();
    assert_eq!(parsed.node_id.bytes, bare.node_id.bytes);
    assert_eq!(parsed.relay_urls, vec!["https://relay.example.org/".to_string()]);
    assert_eq!(parsed.direct_addrs, vec![v4(1, 2, 3, 4, 443)]);

    let bad = Ticket { id: some_id(), addrs: vec![read("1.2.3.4:0", v4(1, 2, 3, 4, 0))] };
    assert_eq!(parse_node_addr("", &Some(bad)).unwrap_err().code, ErrorCode::InvalidInput);
    assert_eq!(parse_node_addr("???", &None).unwrap_err().code, ErrorCode::InvalidInput);
}

#[test]
fn relays_and_directs_are_admitted_by_what_was_read() {
    assert_eq!(admit_relay("r", Ok("https://r/".to_string())).unwrap(), "https://r/");
    assert_eq!(
        admit_relay("r", Err("no".to_string())).unwrap_err().code,
        ErrorCode::InvalidInput
    );
    assert_eq!(admit_direct(&read("x", v4(1, 2, 3, 4, 5))).unwrap(), v4(1, 2, 3, 4, 5));
    assert!(admit_direct(&read("x", v4(1, 2, 3, 4, 0))).is_err());
    assert!(admit_direct(&unreadable("x")).is_err());
}

#[test]
fn a_ticket_is_json_that_can_be_read_back() {
    let info = node_addr(
        some_id(),
        vec!["https://relay.example.org/".to_string()],
        vec!["1.2.3.4:443".to_string()],
    );
    let v: serde_json::Value = serde_json::from_str(&node_ticket(&info)).unwrap();
    assert_eq!(v["id"].as_str().unwrap(), some_id());
    assert_eq!(v["addrs"][0].as_str().unwrap(), "https://relay.example.org/");
    assert_eq!(v["addrs"][1].as_str().unwrap(), "1.2.3.4:443");
    assert_eq!(v["addrs"].as_array().unwrap().len(), 2);
}

#[test]
fn the_single_choice_is_the_first_of_all() {
    let a = v4(10, 0, 0, 5, 4433);
    let b = v4(192, 168, 1, 42, 4433);
    let addrs = vec![v4(127, 0, 0, 1, 4433), b, v4(10, 0, 0, 5, 1), a, b];
    let all = select_dialable_directs(&addrs);
    assert_eq!(all, vec![b, a]);
    assert_eq!(select_dialable_direct(&addrs), Some(all[0]));
}
