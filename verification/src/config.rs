//! Configuration of an endpoint.
use vstd::prelude::*;

use crate::stack::CompressionOptions;

verus! {

/// Networking / QUIC transport configuration.
#[derive(Debug, Clone)]
pub struct NetworkingOptions {
    /// Relay server mode. `"default"`, `"staging"`, `"disabled"`, or `"custom"`. Default: `"default"`.
    pub relay_mode: Option<String>,
    /// Custom relay server URLs. Only used when `relay_mode` is `"custom"`.
    pub relays: Vec<String>,
    /// UDP socket addresses to bind. Empty means OS-assigned.
    pub bind_addrs: Vec<String>,
    /// Milliseconds before an idle QUIC connection is cleaned up.
    pub idle_timeout_ms: Option<u64>,
    /// HTTP proxy URL for relay traffic.
    pub proxy_url: Option<String>,
    /// Read `HTTP_PROXY` / `HTTPS_PROXY` env vars for proxy config.
    pub proxy_from_env: bool,
    /// Disable relay servers and DNS discovery entirely. Overrides `relay_mode`.
    pub disabled: bool,
}

impl Default for NetworkingOptions {
    fn default() -> (r: Self)
        ensures
            r.relay_mode is None,
            r.relays@ == Seq::<String>::empty(),
            r.bind_addrs@ == Seq::<String>::empty(),
            r.idle_timeout_ms is None,
            r.proxy_url is None,
            !r.proxy_from_env,
            !r.disabled,
    {
        NetworkingOptions {
            relay_mode: None,
            relays: Vec::new(),
            bind_addrs: Vec::new(),
            idle_timeout_ms: None,
            proxy_url: None,
            proxy_from_env: false,
            disabled: false,
        }
    }
}

/// DNS-based peer discovery configuration.
#[derive(Debug, Clone)]
pub struct DiscoveryOptions {
    /// DNS discovery server URL. Uses the default servers when `None`.
    pub dns_server: Option<String>,
    /// Whether to enable DNS discovery. Default: `true`.
    pub enabled: bool,
    /// DNS servers for the resolver, as IP addresses. Empty means the system's.
    pub dns_nameservers: Vec<String>,
}

impl DiscoveryOptions {
    /// Discovery through the given server, without servers for the resolver.
    pub fn new(dns_server: Option<String>, enabled: bool) -> (r: Self)
        ensures
            r.dns_server == dns_server,
            r.enabled == enabled,
            r.dns_nameservers@ == Seq::<String>::empty(),
    {
        DiscoveryOptions { dns_server, enabled, dns_nameservers: Vec::new() }
    }
}

impl Default for DiscoveryOptions {
    fn default() -> (r: Self)
        ensures
            r.dns_server is None,
            r.enabled,
            r.dns_nameservers@ == Seq::<String>::empty(),
    {
        DiscoveryOptions::new(None, true)
    }
}

/// Connection-pool tuning.
#[derive(Debug, Clone, Copy)]
pub struct PoolOptions {
    /// Maximum number of idle connections to keep in the pool.
    pub max_connections: Option<usize>,
    /// Milliseconds a pooled connection may remain idle before being evicted.
    pub idle_timeout_ms: Option<u64>,
}

impl Default for PoolOptions {
    fn default() -> (r: Self)
        ensures
            r.max_connections is None,
            r.idle_timeout_ms is None,
    {
        PoolOptions { max_connections: None, idle_timeout_ms: None }
    }
}

/// Body-streaming and handle-store configuration.
#[derive(Debug, Clone, Copy)]
pub struct StreamingOptions {
    /// Capacity (in chunks) of each body channel. Default: 32.
    pub channel_capacity: Option<usize>,
    /// Maximum byte length of a single chunk in `send_chunk`. Default: 65536.
    pub max_chunk_size_bytes: Option<usize>,
    /// Milliseconds to wait for a slow body reader. Default: 30000.
    pub drain_timeout_ms: Option<u64>,
    /// Time to live in ms of handle entries. `0` disables sweeping. Default: 300000.
    pub handle_ttl_ms: Option<u64>,
    /// How often (in ms) the sweep runs. Default: 60000 (60 s).
    pub sweep_interval_ms: Option<u64>,
}

impl Default for StreamingOptions {
    fn default() -> (r: Self)
        ensures
            r.channel_capacity is None,
            r.max_chunk_size_bytes is None,
            r.drain_timeout_ms is None,
            r.handle_ttl_ms is None,
            r.sweep_interval_ms is None,
    {
        StreamingOptions {
            channel_capacity: None,
            max_chunk_size_bytes: None,
            drain_timeout_ms: None,
            handle_ttl_ms: None,
            sweep_interval_ms: None,
        }
    }
}

/// Configuration that an endpoint is bound with.
#[derive(Debug, Clone)]
pub struct NodeOptions {
    /// 32-byte Ed25519 secret key. A fresh one is generated when `None`.
    pub key: Option<[u8; 32]>,
    /// Networking / QUIC transport configuration.
    pub networking: NetworkingOptions,
    /// DNS-based peer discovery configuration.
    pub discovery: DiscoveryOptions,
    /// Connection-pool tuning.
    pub pool: PoolOptions,
    /// Body-streaming and handle-store configuration.
    pub streaming: StreamingOptions,
    /// ALPN capabilities to advertise.
    ///
    /// When empty (the default), both protocols are advertised. When non-empty,
    /// the base protocol is added if it is not there. Unknown values are an error.
    pub capabilities: Vec<String>,
    /// Write TLS session keys to $SSLKEYLOGFILE. Dev/debug only.
    pub keylog: bool,
    /// Maximum byte size of the HTTP/1.1 request or response head.
    /// `None` = 65536.  `Some(0)` is rejected.
    pub max_header_size: Option<usize>,
    /// Maximum decompressed response body bytes that a fetch accepts.
    /// Default: 256 MiB.
    pub max_response_body_bytes: Option<usize>,
    pub compression: Option<CompressionOptions>,
}

impl Default for NodeOptions {
    fn default() -> (r: Self)
        ensures
            r.key is None,
            r.networking.relay_mode is None && !r.networking.disabled,
            r.networking.relays@.len() == 0 && r.networking.bind_addrs@.len() == 0,
            r.networking.idle_timeout_ms is None && r.networking.proxy_url is None
                && !r.networking.proxy_from_env,
            r.discovery.enabled && r.discovery.dns_server is None
                && r.discovery.dns_nameservers@.len() == 0,
            r.pool.max_connections is None && r.pool.idle_timeout_ms is None,
            r.streaming.channel_capacity is None && r.streaming.max_chunk_size_bytes is None
                && r.streaming.drain_timeout_ms is None && r.streaming.handle_ttl_ms is None
                && r.streaming.sweep_interval_ms is None,
            r.capabilities@.len() == 0,
            !r.keylog,
            r.max_header_size is None,
            r.max_response_body_bytes is None,
            r.compression is None,
    {
        NodeOptions {
            key: None,
            networking: NetworkingOptions::default(),
            discovery: DiscoveryOptions::default(),
            pool: PoolOptions::default(),
            streaming: StreamingOptions::default(),
            capabilities: Vec::new(),
            keylog: false,
            max_header_size: None,
            max_response_body_bytes: None,
            compression: None,
        }
    }
}

} // verus!
