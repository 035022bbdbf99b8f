use iroh_http::encoding::NodeId;
use iroh_http::events::TransportEvent;
use iroh_http::pool::{
    cache_capacity, evict_if_needed, is_failed_one, on_cached, on_dialled, same_pool_key,
    wait_for_connection, Cached, ConnectionPool, PoolAction, PoolEntry, PoolKey, Pooled, Protocol,
    Slot,
};

fn key(n: u8) -> PoolKey {
    PoolKey { node_id: NodeId { bytes: [n; 32] }, protocol: Protocol::Http }
}

fn ready(n: u8, conn: u64, closed: bool) -> PoolEntry {
    PoolEntry { key: key(n), slot: Slot::Ready(Pooled { conn, dial_seq: conn, closed }) }
}

#[test]
fn pool_pool_starts_empty() {
    let pool = ConnectionPool::new(None);
    assert_eq!(pool.len(), 0);
}

#[test]
fn evict_respects_max() {
    let mut entries: Vec<PoolEntry> = Vec::new();
    evict_if_needed(&mut entries, 5);
    assert!(entries.is_empty());
}

#[test]
fn eviction_drops_the_closed_then_makes_room_for_one() {
    let mut entries = vec![
        ready(1, 1, true),
        ready(2, 2, false),
        PoolEntry { key: key(3), slot: Slot::Connecting },
        ready(4, 4, false),
    ];
    evict_if_needed(&mut entries, 2);
    let kept = entries.iter().filter(|e| matches!(e.slot, Slot::Ready(_))).count();
    assert_eq!(kept, 1);
    assert!(entries.iter().any(|e| matches!(e.slot, Slot::Connecting)));

    let mut roomy = vec![ready(2, 2, false)];
    evict_if_needed(&mut roomy, 2);
    assert_eq!(roomy.len(), 1);
}

#[test]
fn one_caller_dials_and_the_others_wait() {
    let mut pool = ConnectionPool::new(None);
    assert_eq!(pool.begin_connect(key(1)), PoolAction::Connect);
    assert_eq!(pool.begin_connect(key(1)), PoolAction::Wait);
    assert_eq!(pool.begin_connect(key(2)), PoolAction::Connect);
    assert_eq!(pool.len(), 0);
    let p = pool.finish_connect(key(1), Ok(70)).unwrap();
    assert_eq!((p.conn, p.dial_seq, p.closed), (70, 0, false));
    assert_eq!(pool.begin_connect(key(1)), PoolAction::Hit(p));
    assert_eq!(pool.get_existing(&key(1)), Some(p));
    assert_eq!(pool.finish_connect(key(2), Err("no".to_string())), Err("no".to_string()));
    assert_eq!(pool.begin_connect(key(2)), PoolAction::Connect);
    pool.mark_closed(&key(1));
    assert_eq!(pool.get_existing(&key(1)), None);
    assert!(pool.peek(&key(1)).unwrap().closed);
    assert_eq!(pool.begin_connect(key(1)), PoolAction::Connect);
}

#[test]
fn a_pool_keeps_no_more_than_its_limit() {
    let mut pool = ConnectionPool::new(Some(2));
    for n in 0..5 {
        pool.begin_connect(key(n));
        pool.finish_connect(key(n), Ok(u64::from(n))).unwrap();
        assert!(pool.len() <= 2);
    }
    assert_eq!(pool.len(), 2);
}

#[test]
fn only_the_failed_connection_is_evicted() {
    let mut pool = ConnectionPool::new(None);
    pool.begin_connect(key(1));
    let first = pool.finish_connect(key(1), Ok(10)).unwrap();
    pool.remove(&key(1));
    pool.begin_connect(key(1));
    let second = pool.finish_connect(key(1), Ok(11)).unwrap();
    assert_ne!(first.dial_seq, second.dial_seq);
    assert_eq!(pool.evict(&key(1), Some(first.dial_seq)), None);
    assert_eq!(pool.evict(&key(1), None), None);
    assert_eq!(pool.evict(&key(1), Some(second.dial_seq)), Some(second));
    assert_eq!(pool.len(), 0);
    assert!(is_failed_one(Some(3), Some(3)));
    assert!(!is_failed_one(Some(3), Some(4)) && !is_failed_one(None, None));
}

#[test]
fn protocols_do_not_share_connections() {
    let duplex = PoolKey { protocol: Protocol::Duplex, ..key(1) };
    assert!(!same_pool_key(&key(1), &duplex));
    assert!(same_pool_key(&key(1), &key(1)));
}

#[test]
fn what_a_cache_has_decides_the_events() {
    let id = key(1).node_id;
    let step = on_cached(&Cached::Connection { peer_id: "p".to_string(), closed: false }, &id, 5);
    assert!(!step.dial && !step.invalidate);
    assert!(matches!(&step.events[..], [TransportEvent::PoolHit { peer_id, .. }] if peer_id == "p"));
    let step = on_cached(&Cached::Connection { peer_id: "p".to_string(), closed: true }, &id, 5);
    assert!(step.dial && step.invalidate);
    assert!(matches!(
        &step.events[..],
        [TransportEvent::PoolEvict { .. }, TransportEvent::PoolMiss { .. }]
    ));
    let step = on_cached(&Cached::Nothing, &id, 5);
    assert!(step.dial && !step.invalidate);
    assert!(matches!(&step.events[..], [TransportEvent::PoolMiss { .. }]));
    assert!(on_dialled(false).is_ok() && on_dialled(true).is_err());
    assert_eq!((cache_capacity(None), cache_capacity(Some(7))), (512, 7));
    assert_eq!(wait_for_connection(Some(Ok(3))), Ok(3));
    assert_eq!(wait_for_connection(None), Err("connection attempt dropped".to_string()));
}

#[test]
fn the_numbers_of_connections_start_over_after_the_last() {
    let mut pool = ConnectionPool::new(None);
    pool.dialled = u64::MAX;
    pool.begin_connect(key(1));
    assert_eq!(pool.finish_connect(key(1), Ok(5)).unwrap().dial_seq, u64::MAX);
    assert_eq!(pool.begin_connect(key(2)), PoolAction::Connect);
    assert_eq!(pool.begin_connect(key(2)), PoolAction::Wait);
    assert_eq!(pool.finish_connect(key(2), Ok(6)).unwrap().dial_seq, 0);
    assert_eq!(pool.len(), 2);
}
