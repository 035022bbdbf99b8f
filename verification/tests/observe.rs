use iroh_http::events::TransportEvent;
use iroh_http::handles::{HandleStore, StoreConfig};
use iroh_http::observe::{
    endpoint_stats, fold_paths, on_paths, PathKey, PathKind, PathWatch, RemotePath, WatchStep,
};
use iroh_http::stats::PathInfo;

fn path(relay: bool, addr: &str, active: bool) -> PathInfo {
    PathInfo { relay, addr: addr.to_string(), active }
}

#[test]
fn only_changes_of_the_active_path_are_told() {
    let mut last: Option<PathKey> = None;
    let idle = vec![path(false, "a", false)];
    assert!(on_paths("p", &mut last, &idle, 77).is_none());
    let direct = vec![path(true, "r", false), path(false, "a", true)];
    let (info, event) = on_paths("p", &mut last, &direct, 77).unwrap();
    assert!(!info.relay && info.addr == "a" && info.active);
    assert!(matches!(
        event,
        TransportEvent::PathChange { peer_id, addr, relay: false, .. }
            if peer_id == "p" && addr == "a"
    ));
    assert!(on_paths("p", &mut last, &direct, 77).is_none());
    assert!(on_paths("p", &mut last, &idle, 77).is_none());
    assert!(on_paths("p", &mut last, &direct, 77).is_none());
    let relayed = vec![path(true, "a", true)];
    assert!(on_paths("p", &mut last, &relayed, 77).unwrap().0.relay);
}

#[test]
fn the_active_relay_is_told() {
    let paths = vec![
        RemotePath { kind: PathKind::Relay, addr: "r1".to_string(), active: false },
        RemotePath { kind: PathKind::Ip, addr: "1.2.3.4:5".to_string(), active: true },
        RemotePath { kind: PathKind::Relay, addr: "r2".to_string(), active: true },
        RemotePath { kind: PathKind::Other, addr: "o".to_string(), active: false },
    ];
    let p = fold_paths(&paths);
    assert!(p.relay);
    assert_eq!(p.relay_url, Some("r2".to_string()));
    let relays: Vec<bool> = p.paths.iter().map(|x| x.relay).collect();
    assert_eq!(relays, vec![true, false, true, false]);
    assert!(!fold_paths(&paths[..2]).relay);
}

#[test]
fn each_peer_has_one_watcher() {
    let mut watch = PathWatch::new();
    assert!(watch.subscribe_path_changes("a", 1));
    assert!(!watch.subscribe_path_changes("a", 2));
    assert!(watch.subscribe_path_changes("b", 3));
    assert_eq!((watch.watchers(), watch.subscriptions()), (2, 2));
    assert_eq!(watch.watch_step("a", false, &[]), WatchStep::Look(2));
    watch.unsubscribe_path_changes("a");
    assert_eq!((watch.watchers(), watch.subscriptions()), (2, 1));
    assert_eq!(watch.watch_step("a", false, &[]), WatchStep::End);
    assert_eq!(watch.watchers(), 1);
    assert_eq!(watch.watch_step("b", false, &[3]), WatchStep::End);
    assert_eq!(watch.watchers(), 0);
    assert!(watch.subscribe_path_changes("b", 4));
    assert_eq!(watch.watch_step("b", true, &[]), WatchStep::End);
}

#[test]
fn stats_count_what_is_live() {
    let mut store = HandleStore::new(StoreConfig::default());
    store.insert_reader(0).unwrap();
    store.insert_writer(0).unwrap();
    store.insert_writer(0).unwrap();
    store.insert_session(0).unwrap();
    let mut watch = PathWatch::new();
    watch.subscribe_path_changes("a", 1);
    let s = endpoint_stats(&store, 3, 4, 5, &watch);
    assert_eq!((s.active_readers, s.active_writers, s.active_sessions), (1, 2, 1));
    assert_eq!((s.pool_size, s.active_connections, s.active_requests), (3, 4, 5));
    assert_eq!((s.active_path_subscriptions, s.active_path_watchers), (1, 1));
    assert_eq!(s.total_handles, 4);
}
