//! What an endpoint reports about itself and its peers.
use vstd::prelude::*;

verus! {

/// Serialisable node address: node id, relay URLs and direct addresses.
#[derive(Debug, Clone)]
pub struct NodeAddrInfo {
    /// Base32-encoded public key.
    pub id: String,
    /// Relay URLs and/or `ip:port` direct addresses.
    pub addrs: Vec<String>,
}

/// Endpoint-level snapshot. All counts are point-in-time reads.
#[derive(Debug, Clone, Copy, PartialEq, Eq, Structural)]
pub struct EndpointStats {
    /// Number of currently open body reader handles.
    pub active_readers: usize,
    /// Number of currently open body writer handles.
    pub active_writers: usize,
    /// Number of live sessions.
    pub active_sessions: usize,
    /// Total number of allocated handles.
    pub total_handles: usize,
    /// Number of connections currently cached in the connection pool.
    pub pool_size: usize,
    /// Number of live connections accepted by the serve loop.
    pub active_connections: usize,
    /// Number of HTTP requests currently being processed.
    pub active_requests: usize,
    /// Number of live path-change subscriptions.
    pub active_path_subscriptions: usize,
    /// Number of live path-change watchers.
    pub active_path_watchers: usize,
}

/// A peer's first connection opened, or its last one closed.
#[derive(Debug, Clone)]
pub struct ConnectionEvent {
    /// Base32-encoded public key of the peer.
    pub peer_id: String,
    /// `true` for the first connection from the peer, `false` when the last one closes.
    pub connected: bool,
}

/// One path to a peer.
#[derive(Debug, Clone)]
pub struct PathInfo {
    /// Whether this path goes through a relay server.
    pub relay: bool,
    /// The relay URL (if relay) or `ip:port` (if direct).
    pub addr: String,
    /// Whether this is the currently selected path.
    pub active: bool,
}

} // verus!
