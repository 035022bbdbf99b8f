use iroh_http::addr::{AddrText, IpAddr, SocketAddr};
use iroh_http::encoding::{base32_encode, NodeId};
use iroh_http::lookup::{
    endpoint_data, AddressLookupSource, AddressLookupUpsert, AddressLookupUpsertError, LookupAddr,
    SourceScopedAddressLookup,
};

fn endpoint_id(seed: u8) -> iroh::EndpointId {
    iroh::SecretKey::from_bytes(&[seed; 32]).public()
}

fn node(id: iroh::EndpointId) -> NodeId {
    NodeId { bytes: *id.as_bytes() }
}

fn v4(a: u8, b: u8, c: u8, d: u8, port: u16) -> SocketAddr {
    SocketAddr::new(IpAddr::v4(a, b, c, d), port)
}

fn text(addr: SocketAddr) -> AddrText {
    AddrText { text: "an address".to_string(), read: Ok(addr) }
}

fn unreadable(s: &str) -> AddrText {
    AddrText { text: s.to_string(), read: Err("invalid socket address syntax".to_string()) }
}

fn ips(addrs: &[LookupAddr]) -> Vec<SocketAddr> {
    let mut out = Vec::new();
    for a in addrs {
        if let LookupAddr::Ip(s) = a {
            out.push(*s);
        }
    }
    out.sort_by_key(|s| match s.ip {
        IpAddr::V4(n) => (u128::from(n), s.port),
        IpAddr::V6(n) => (n, s.port),
    });
    out
}

fn direct_addrs(lookup: &SourceScopedAddressLookup, id: iroh::EndpointId) -> Vec<SocketAddr> {
    match lookup.resolve(&node(id)) {
        Some(addrs) => ips(&addrs),
        None => Vec::new(),
    }
}

fn upsert(
    lookup: &mut SourceScopedAddressLookup,
    source: &AddressLookupSource,
    instance: &str,
    id: iroh::EndpointId,
    addrs: Vec<AddrText>,
) -> Result<AddressLookupUpsert, AddressLookupUpsertError> {
    lookup.upsert(source, instance, &id.to_string(), &addrs)
}

#[test]
fn replacing_an_instance_retracts_its_old_node_atomically() {
    let mut lookup = SourceScopedAddressLookup::new("test-discovery");
    let source = lookup.new_source();
    let old_id = endpoint_id(1);
    let new_id = endpoint_id(2);

    upsert(&mut lookup, &source, "stable-instance", old_id, vec![text(v4(192, 168, 1, 2, 4433))])
        .expect("valid first record");
    let update = upsert(
        &mut lookup,
        &source,
        "stable-instance",
        new_id,
        vec![text(v4(192, 168, 1, 3, 4434))],
    )
    .expect("valid replacement record");

    assert_eq!(update.node_id, base32_encode(new_id.as_bytes()));
    assert_eq!(ips(&update.effective_addrs), [v4(192, 168, 1, 3, 4434)]);
    let replaced = update.replaced.expect("old-node transition");
    assert_eq!(replaced.node_id, base32_encode(old_id.as_bytes()));
    assert!(!replaced.has_remaining_contributions);
    assert!(replaced.remaining_addrs.is_empty());

    assert!(lookup.resolve(&node(old_id)).is_none());
    assert_eq!(direct_addrs(&lookup, new_id), [v4(192, 168, 1, 3, 4434)]);
}

#[test]
fn changing_instance_identity_keeps_other_sources_out_of_its_event_snapshot() {
    let mut lookup = SourceScopedAddressLookup::new("test-discovery");
    let replacing_source = lookup.new_source();
    let overlapping_source = lookup.new_source();
    let old_id = endpoint_id(10);
    let new_id = endpoint_id(11);

    upsert(
        &mut lookup,
        &replacing_source,
        "stable-instance",
        old_id,
        vec![text(v4(192, 168, 10, 1, 4433))],
    )
    .unwrap();
    upsert(
        &mut lookup,
        &overlapping_source,
        "other-instance",
        old_id,
        vec![text(v4(192, 168, 10, 2, 4433))],
    )
    .unwrap();

    let update = upsert(
        &mut lookup,
        &replacing_source,
        "stable-instance",
        new_id,
        vec![text(v4(192, 168, 11, 1, 4433))],
    )
    .unwrap();
    let replaced = update.replaced.expect("old-node transition");

    assert!(!replaced.has_remaining_contributions);
    assert!(replaced.remaining_addrs.is_empty());
    assert_eq!(direct_addrs(&lookup, old_id), [v4(192, 168, 10, 2, 4433)]);
    assert_eq!(ips(&update.effective_addrs), [v4(192, 168, 11, 1, 4433)]);
    assert_eq!(direct_addrs(&lookup, new_id), [v4(192, 168, 11, 1, 4433)]);
}

#[test]
fn replacing_an_instance_on_the_same_node_drops_stale_addresses() {
    let mut lookup = SourceScopedAddressLookup::new("test-discovery");
    let source = lookup.new_source();
    let id = endpoint_id(7);

    upsert(&mut lookup, &source, "stable-instance", id, vec![text(v4(192, 168, 1, 7, 4433))])
        .unwrap();
    upsert(&mut lookup, &source, "stable-instance", id, vec![text(v4(192, 168, 1, 8, 4434))])
        .unwrap();

    assert_eq!(direct_addrs(&lookup, id), [v4(192, 168, 1, 8, 4434)]);
}

#[test]
fn invalid_instance_replacement_retracts_the_previous_valid_record() {
    let mut lookup = SourceScopedAddressLookup::new("test-discovery");
    let source = lookup.new_source();
    let id = endpoint_id(8);

    upsert(&mut lookup, &source, "stable-instance", id, vec![text(v4(192, 168, 1, 8, 4433))])
        .unwrap();
    let error = lookup
        .upsert(
            &source,
            "stable-instance",
            "not-a-valid-node-id",
            &[text(v4(192, 168, 1, 9, 4434))],
        )
        .expect_err("malformed authoritative update must be rejected");

    assert!(error.to_string().contains("invalid node id"));
    assert!(error.removal().is_some());
    let removal = error
        .into_removal()
        .expect("the rejected update removed its old contribution");
    assert_eq!(removal.node_id, base32_encode(id.as_bytes()));
    assert!(!removal.has_remaining_contributions);
    assert!(removal.remaining_addrs.is_empty());
    assert!(lookup.resolve(&node(id)).is_none());
}

#[test]
fn removing_one_source_keeps_the_other_source_in_the_global_lookup_only() {
    let mut lookup = SourceScopedAddressLookup::new("test-discovery");
    let source_a = lookup.new_source();
    let source_b = lookup.new_source();
    let id = endpoint_id(3);

    upsert(
        &mut lookup,
        &source_a,
        "peer-instance",
        id,
        vec![text(v4(10, 0, 0, 1, 4433)), text(v4(10, 0, 0, 2, 4433))],
    )
    .unwrap();
    upsert(
        &mut lookup,
        &source_b,
        "peer-instance",
        id,
        vec![text(v4(10, 0, 0, 2, 4433)), text(v4(10, 0, 0, 3, 4433))],
    )
    .unwrap();

    assert_eq!(
        direct_addrs(&lookup, id),
        [v4(10, 0, 0, 1, 4433), v4(10, 0, 0, 2, 4433), v4(10, 0, 0, 3, 4433)]
    );
    let removal = lookup
        .remove_with_snapshot(&source_a, "peer-instance")
        .expect("source A contribution");
    assert_eq!(removal.node_id, base32_encode(id.as_bytes()));
    assert!(!removal.has_remaining_contributions);
    assert!(removal.remaining_addrs.is_empty());
    assert_eq!(
        direct_addrs(&lookup, id),
        [v4(10, 0, 0, 2, 4433), v4(10, 0, 0, 3, 4433)]
    );
}

#[test]
fn removal_preserves_presence_when_the_remaining_instance_is_not_dialable() {
    let mut lookup = SourceScopedAddressLookup::new("test-discovery");
    let source = lookup.new_source();
    let id = endpoint_id(9);

    upsert(&mut lookup, &source, "dialable-instance", id, vec![text(v4(10, 0, 0, 9, 4433))])
        .unwrap();
    upsert(&mut lookup, &source, "present-without-path", id, vec![text(v4(10, 0, 0, 10, 1))])
        .unwrap();

    let removal = lookup
        .remove_with_snapshot(&source, "dialable-instance")
        .expect("dialable contribution");
    assert!(removal.has_remaining_contributions);
    assert!(removal.remaining_addrs.is_empty());
    assert!(lookup.resolve(&node(id)).is_none());
}

#[test]
fn undialable_or_empty_updates_never_resolve() {
    let mut lookup = SourceScopedAddressLookup::new("test-discovery");
    let source = lookup.new_source();
    let id = endpoint_id(4);

    upsert(
        &mut lookup,
        &source,
        "peer-instance",
        id,
        vec![
            text(v4(192, 168, 1, 9, 0)),
            text(v4(192, 168, 1, 9, 1)),
            unreadable("not-an-address"),
        ],
    )
    .unwrap();
    assert!(lookup.resolve(&node(id)).is_none());

    upsert(&mut lookup, &source, "peer-instance", id, vec![text(v4(192, 168, 1, 9, 4433))])
        .unwrap();
    assert_eq!(direct_addrs(&lookup, id), [v4(192, 168, 1, 9, 4433)]);

    upsert(&mut lookup, &source, "peer-instance", id, vec![]).unwrap();
    assert!(lookup.resolve(&node(id)).is_none());
}

#[test]
fn explicit_retirement_is_idempotent_and_prevents_resurrection() {
    let mut lookup = SourceScopedAddressLookup::new("test-discovery");
    let source = lookup.new_source();
    let source_clone = source;
    let id = endpoint_id(6);

    upsert(&mut lookup, &source, "peer-instance", id, vec![text(v4(172, 16, 0, 5, 4433))])
        .unwrap();
    lookup.retire(&source);
    lookup.retire(&source);

    assert!(lookup.resolve(&node(id)).is_none());
    assert!(upsert(
        &mut lookup,
        &source_clone,
        "late-instance",
        id,
        vec![text(v4(172, 16, 0, 6, 4433))],
    )
    .is_err());
    assert_eq!(lookup.remove(&source_clone, "peer-instance"), None);
    assert!(lookup.resolve(&node(id)).is_none());
}

#[test]
fn relays_are_told_from_addresses() {
    let data = endpoint_data(&[
        unreadable("https://relay.example.org"),
        text(v4(10, 0, 0, 1, 4433)),
        unreadable("http//"),
    ]);
    assert_eq!(data.len(), 2);
    let mut relays = Vec::new();
    for a in &data {
        if let LookupAddr::Relay(r) = a {
            relays.push(r.clone());
        }
    }
    assert_eq!(relays, vec!["https://relay.example.org/".to_string()]);
}

#[test]
fn an_instance_of_one_source_is_not_that_of_another() {
    let mut lookup = SourceScopedAddressLookup::new("test-discovery");
    assert_eq!(lookup.provenance(), "test-discovery");
    let a = lookup.new_source();
    let b = lookup.new_source();
    assert_ne!(a, b);
    let id = endpoint_id(12);
    upsert(&mut lookup, &a, "i", id, vec![text(v4(10, 0, 0, 1, 4433))]).unwrap();
    assert_eq!(lookup.remove(&b, "i"), None);
    assert_eq!(direct_addrs(&lookup, id), [v4(10, 0, 0, 1, 4433)]);
    assert_eq!(lookup.remove(&a, "i"), Some(base32_encode(id.as_bytes())));
    assert!(lookup.resolve(&node(id)).is_none());
}

#[test]
fn a_new_lookup_has_sources_to_give() {
    let mut lookup = SourceScopedAddressLookup::new("test");
    assert!(lookup.has_free_source());
    let _source = lookup.new_source();
    assert!(lookup.has_free_source());
}
