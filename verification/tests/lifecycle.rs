use iroh_http::encoding::NodeId;
use iroh_http::lifecycle::{same_key, ConnectionTracker, DeliveryTracker, PeerCounts, RequestTracker};

fn dummy_peer() -> NodeId {
    NodeId { bytes: *iroh::SecretKey::generate().public().as_bytes() }
}

#[test]
fn connection_tracker_increments_and_decrements_total() {
    let mut total: usize = 0;
    let mut counts = PeerCounts::new();
    let peer = dummy_peer();
    let (tracker, _) =
        ConnectionTracker::acquire(&mut counts, peer, "p".to_string(), 4, &mut total)
            .expect("acquire should succeed under cap");
    assert_eq!(total, 1);
    tracker.release(&mut counts, &mut total);
    assert_eq!(total, 0);
    assert!(counts.is_empty());
}

#[test]
fn connection_tracker_enforces_per_peer_cap() {
    let mut total: usize = 0;
    let mut counts = PeerCounts::new();
    let peer = dummy_peer();
    let _a = ConnectionTracker::acquire(&mut counts, peer, "p".into(), 1, &mut total).unwrap();
    let b = ConnectionTracker::acquire(&mut counts, peer, "p".into(), 1, &mut total);
    assert!(b.is_none(), "second acquire over cap must fail");
    assert_eq!(total, 1);
}

#[test]
fn a_peer_is_reported_when_its_first_connection_opens_and_its_last_one_closes() {
    let mut total: usize = 0;
    let mut counts = PeerCounts::new();
    let peer = dummy_peer();
    let other = dummy_peer();
    assert!(!same_key(&peer, &other));
    let (a, first) =
        ConnectionTracker::acquire(&mut counts, peer, "p".into(), 3, &mut total).unwrap();
    let event = first.unwrap();
    assert!(event.connected && event.peer_id == "p");
    let (b, second) =
        ConnectionTracker::acquire(&mut counts, peer, "p".into(), 3, &mut total).unwrap();
    assert!(second.is_none());
    let (c, elsewhere) =
        ConnectionTracker::acquire(&mut counts, other, "o".into(), 3, &mut total).unwrap();
    assert!(elsewhere.unwrap().connected);
    assert_eq!((counts.get(&peer), counts.get(&other), total), (2, 1, 3));
    assert!(a.release(&mut counts, &mut total).is_none());
    let gone = b.release(&mut counts, &mut total).unwrap();
    assert!(!gone.connected && gone.peer_id == "p");
    assert!(!c.release(&mut counts, &mut total).unwrap().connected);
    assert!(counts.is_empty());
    assert_eq!(total, 0);
}

#[test]
fn delivery_tracker_notifies_when_in_flight_reaches_zero() {
    let mut active: usize = 0;
    let mut in_flight: usize = 0;
    let request = RequestTracker::new(&mut active);
    let first = DeliveryTracker::new(&mut in_flight);
    let second = DeliveryTracker::new(&mut in_flight);
    request.finish(&mut active);
    assert_eq!((active, in_flight), (0, 2));
    assert!(!first.finish(&mut in_flight));
    assert!(second.finish(&mut in_flight));
    assert_eq!(in_flight, 0);
}
