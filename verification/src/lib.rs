//! HTTP over QUIC streams between nodes that are named by public keys.
use vstd::prelude::*;

pub mod adapter;
pub mod addr;
pub mod bind;
pub mod client;
pub mod compress;
pub mod config;
pub mod crypto;
pub mod dispatch;
pub mod dns;
pub mod encoding;
pub mod error;
pub mod events;
pub mod fetch;
pub mod guard;
pub mod handles;
pub mod lifecycle;
pub mod lookup;
pub mod observe;
pub mod pool;
pub mod pumps;
pub mod qpack_bridge;
pub mod registry;
pub mod rules;
pub mod serve;
pub mod serve_slot;
pub mod session;
pub mod slots;
pub mod stack;
pub mod stats;
pub mod text;
pub mod types;
pub mod urls;

verus! {

/// Protocol name of HTTP/1.1 over QUIC streams (version 2 wire format).
pub const ALPN_STR: &'static str = "iroh-http/2";

/// Protocol name of the base protocol with bidirectional streaming sessions.
pub const ALPN_DUPLEX_STR: &'static str = "iroh-http/2-duplex";

/// [`ALPN_STR`] as bytes.
pub const ALPN: [u8; 11] = [105, 114, 111, 104, 45, 104, 116, 116, 112, 47, 50];

/// [`ALPN_DUPLEX_STR`] as bytes.
pub const ALPN_DUPLEX: [u8; 18] = [
    105, 114, 111, 104, 45, 104, 116, 116, 112, 47, 50, 45, 100, 117, 112, 108, 101, 120,
];

/// All recognised protocol names.
pub const KNOWN_ALPNS: [&'static str; 2] = ["iroh-http/2", "iroh-http/2-duplex"];

} // verus!
