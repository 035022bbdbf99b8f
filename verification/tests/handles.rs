use iroh_http::error::ErrorCode;
use iroh_http::guard::{InsertGuard, TrackedHandle};
use iroh_http::handles::{
    send_result, split_chunk, HandleStore, Registry, SendOutcome, StoreConfig, Timed, TryReceive,
    COMPACT_ABOVE,
};

fn test_store() -> HandleStore {
    HandleStore::new(StoreConfig::default())
}

#[test]
fn insert_reader_and_next_chunk() {
    let mut store = test_store();
    let handle = store.insert_reader(0).unwrap();
    store.begin_read(handle, 1).unwrap();
    assert_eq!(store.next_chunk(handle, Some(b"slab-data".to_vec())), Some(b"slab-data".to_vec()));
    store.begin_read(handle, 2).unwrap();
    assert_eq!(store.next_chunk(handle, None), None);
    let err = store.begin_read(handle, 3).unwrap_err();
    assert_eq!(err.code, ErrorCode::InvalidInput);
}

#[test]
fn next_chunk_invalid_handle() {
    let mut store = test_store();
    let result = store.begin_read(999999, 0);
    assert_eq!(result.unwrap_err().code, ErrorCode::InvalidInput);
}

#[test]
fn send_chunk_via_handle() {
    let mut store = test_store();
    let handle = store.insert_writer(0).unwrap();
    let parts = store.send_chunk(handle, b"via-slab", 1).unwrap();
    assert_eq!(parts, vec![b"via-slab".to_vec()]);
    store.finish_body(handle).unwrap();
    assert!(store.finish_body(handle).is_err());
    assert!(store.send_chunk(handle, b"late", 2).is_err());
}

#[test]
fn capacity_cap_rejects_overflow() {
    let mut config = StoreConfig::default();
    config.max_handles = 2;
    let mut store = HandleStore::new(config);
    store.insert_reader(0).unwrap();
    store.insert_reader(0).unwrap();
    let err = store.insert_reader(0).unwrap_err();
    assert!(err.message.contains("capacity"));
    assert!(store.insert_writer(0).is_ok());
}

#[test]
fn a_freed_handle_is_never_given_out_again() {
    let mut registry = Registry::new();
    let first = registry.insert_checked(10, 0).unwrap();
    assert!(registry.contains(first));
    assert!(registry.remove(first));
    assert!(!registry.remove(first));
    let second = registry.insert_checked(10, 0).unwrap();
    assert_ne!(first, second);
    assert!(!registry.contains(first));
    assert!(registry.contains(second));
    assert!(!registry.touch(first, 5));
    assert!(registry.touch(second, 5));
    assert_eq!(registry.len(), 1);
}

#[test]
fn a_sweep_takes_the_expired_and_only_those() {
    let mut registry = Registry::new();
    let old = registry.insert_checked(10, 0).unwrap();
    let young = registry.insert_checked(10, 90).unwrap();
    assert_eq!(registry.sweep(101, 100), vec![old]);
    assert!(!registry.contains(old));
    assert!(registry.contains(young));
    assert!(Timed::new(0).is_expired(101, 100));
    assert!(!Timed::new(0).is_expired(100, 100));
}

#[test]
fn a_large_table_that_falls_empty_is_compacted() {
    let mut registry = Registry::new();
    for _ in 0..(COMPACT_ABOVE + 1) {
        registry.insert_checked(1000, 0).unwrap();
    }
    assert_eq!(registry.sweep(1_000, 10).len(), COMPACT_ABOVE + 1);
    assert_eq!(registry.len(), 0);
    assert!(registry.insert_checked(1000, 0).is_ok());
}

#[test]
fn the_store_sweeps_every_kind_of_handle() {
    let mut store = test_store();
    let r = store.insert_reader(0).unwrap();
    let w = store.insert_writer(0).unwrap();
    let s = store.insert_session(0).unwrap();
    let h = store.allocate_req_handle(0).unwrap();
    let t = store.alloc_fetch_token(0).unwrap();
    store.store_pending_reader(w, 0);
    let report = store.sweep(300_001, 300_000);
    assert_eq!(report.readers, vec![r]);
    assert_eq!(report.writers, vec![w]);
    assert_eq!(report.sessions, vec![s]);
    assert_eq!(report.request_heads, vec![h]);
    assert_eq!(report.fetch_cancels, vec![t]);
    assert_eq!(report.pending_readers, vec![w]);
    assert_eq!(store.count_handles(), (0, 0, 0, 0));

    let mut config = StoreConfig::default();
    config.ttl_ms = 0;
    let mut never = HandleStore::new(config);
    let kept = never.insert_reader(0).unwrap();
    assert!(never.sweep_now(u64::MAX).is_none());
    assert!(never.begin_read(kept, 1).is_ok());
}

#[test]
fn pending_readers_are_claimed_once() {
    let mut store = test_store();
    let w = store.insert_writer(0).unwrap();
    store.store_pending_reader(w, 0);
    assert!(store.claim_pending_reader(w));
    assert!(!store.claim_pending_reader(w));
}

#[test]
fn tokens_cancel_while_their_fetch_runs() {
    let mut store = test_store();
    let t = store.alloc_fetch_token(0).unwrap();
    assert!(store.cancel_in_flight(t));
    assert!(store.remove_fetch_token(t));
    assert!(!store.cancel_in_flight(t));
}

#[test]
fn trying_to_read_tells_empty_from_finished() {
    let mut store = test_store();
    let h = store.insert_reader(0).unwrap();
    assert!(store.try_next_chunk(h, TryReceive::Empty).is_err());
    assert!(store.try_next_chunk(h, TryReceive::Contended).is_err());
    assert_eq!(store.try_next_chunk(h, TryReceive::Chunk(vec![1])).unwrap(), Some(vec![1]));
    assert_eq!(store.try_next_chunk(h, TryReceive::Disconnected).unwrap(), None);
    assert!(store.try_next_chunk(h, TryReceive::Empty).is_err());
    assert!(!store.cancel_reader(h));
}

#[test]
fn chunks_are_split_without_loss() {
    assert_eq!(split_chunk(&[1, 2, 3, 4, 5], 2), vec![vec![1, 2], vec![3, 4], vec![5]]);
    assert_eq!(split_chunk(&[1, 2], 2), vec![vec![1, 2]]);
    assert_eq!(send_result(SendOutcome::Sent).is_ok(), true);
    assert_eq!(send_result(SendOutcome::TimedOut).unwrap_err().code, ErrorCode::Timeout);
    assert!(send_result(SendOutcome::ReaderGone).is_err());
}

#[test]
fn a_guard_gives_back_what_it_took() {
    let mut store = test_store();
    let mut guard = InsertGuard::new();
    let r = guard.insert_reader(&mut store, 0).unwrap();
    let w = guard.insert_writer(&mut store, 0).unwrap();
    let h = guard.allocate_req_handle(&mut store, 0).unwrap();
    assert_eq!(store.count_handles().0, 1);
    guard.rollback(&mut store);
    assert!(store.begin_read(r, 1).is_err());
    assert!(store.finish_body(w).is_err());
    assert!(!store.take_req_sender(h));

    let mut guard = InsertGuard::new();
    let r = guard.insert_reader(&mut store, 0).unwrap();
    let kept = guard.commit();
    assert!(matches!(&kept[..], [TrackedHandle::Reader(x)] if *x == r));
    assert!(store.begin_read(r, 1).is_ok());
}

#[test]
fn defaults_of_the_store() {
    let c = StoreConfig::default();
    assert_eq!(c.channel_capacity, 32);
    assert_eq!(c.max_chunk_size, 64 * 1024);
    assert_eq!(c.drain_timeout_ms, 30_000);
    assert_eq!(c.max_handles, 65_536);
    assert_eq!(c.ttl_ms, 300_000);
    let store = HandleStore::new(c);
    assert_eq!((store.drain_timeout(), store.max_chunk_size()), (30_000, 65_536));
}
