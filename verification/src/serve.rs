//! The serve loop: its options, whom it admits, which streams it serves, and how
//! it stops.
//!
//! The loop waits for the transport outside; what it does with what came is
//! decided here.
use vstd::prelude::*;

use crate::ALPN;
use crate::encoding::{base32_encode, NodeId};
use crate::lifecycle::{ConnectionTracker, DeliveryTracker, PeerCounts, RequestTracker};
use crate::stack::{CompressionOptions, StackConfig};
use crate::stats::ConnectionEvent;
use crate::text::same_bytes;

verus! {

// ── Options ──────────────────────────────────────────────────────────────────

/// Options for the serve loop: per-request layers, connection caps and lifecycle.
#[derive(Debug, Clone, Copy)]
pub struct ServeOptions {
    /// Maximum simultaneous in-flight requests. Default: 1024.
    pub max_concurrency: Option<usize>,
    /// Consecutive handshake errors before a loop with an error budget stops.
    /// Default: 5.
    pub max_serve_errors: Option<usize>,
    /// Per-request timeout in milliseconds. Default: 60 000. Zero means none.
    pub request_timeout_ms: Option<u64>,
    /// Maximum connections from a single peer. Default: 8.
    pub max_connections_per_peer: Option<usize>,
    /// Reject request bodies larger than this many **wire** bytes. Default: 16 MiB.
    pub max_request_body_wire_bytes: Option<usize>,
    /// Reject request bodies larger than this many **decoded** bytes. Default: 16 MiB.
    pub max_request_body_decoded_bytes: Option<usize>,
    /// Graceful shutdown drain window in milliseconds. Default: 30 000.
    pub drain_timeout_ms: Option<u64>,
    /// Maximum total connections that are accepted. Default: unlimited.
    pub max_total_connections: Option<usize>,
    /// When `true` (the default), answer 503 at once when `max_concurrency` is
    /// reached, rather than queuing.
    pub load_shed: Option<bool>,
    /// When `true` (the default), decompress request bodies before the handler
    /// sees them.
    pub decompression: Option<bool>,
}

impl Default for ServeOptions {
    fn default() -> (r: Self)
        ensures
            r.max_concurrency is None,
            r.max_serve_errors is None,
            r.request_timeout_ms is None,
            r.max_connections_per_peer is None,
            r.max_request_body_wire_bytes is None,
            r.max_request_body_decoded_bytes is None,
            r.drain_timeout_ms is None,
            r.max_total_connections is None,
            r.load_shed is None,
            r.decompression is None,
    {
        ServeOptions {
            max_concurrency: None,
            max_serve_errors: None,
            request_timeout_ms: None,
            max_connections_per_peer: None,
            max_request_body_wire_bytes: None,
            max_request_body_decoded_bytes: None,
            drain_timeout_ms: None,
            max_total_connections: None,
            load_shed: None,
            decompression: None,
        }
    }
}

pub const DEFAULT_CONCURRENCY: usize = 1024;

pub const DEFAULT_MAX_SERVE_ERRORS: usize = 5;

pub const DEFAULT_REQUEST_TIMEOUT_MS: u64 = 60_000;

pub const DEFAULT_MAX_CONNECTIONS_PER_PEER: usize = 8;

pub const DEFAULT_DRAIN_TIMEOUT_MS: u64 = 30_000;

/// 16 MiB: the limit on request bodies where none is set.
pub const DEFAULT_MAX_REQUEST_BODY_BYTES: usize = 16_777_216;

/// 256 MiB: the limit on response bodies where none is set, against responses
/// that expand without bound.
pub const DEFAULT_MAX_RESPONSE_BODY_BYTES: usize = 268_435_456;

/// The option, or its default.
pub open spec fn or_default<T>(v: Option<T>, default: T) -> T {
    match v {
        Some(x) => x,
        None => default,
    }
}

/// What the loop runs with.
#[derive(Debug, Clone, Copy)]
pub struct AcceptConfig {
    pub max: usize,
    /// How many handshakes in a row may fail before the loop stops. `None` means
    /// that no number of them stops it.
    pub max_errors: Option<usize>,
    pub request_timeout_ms: u64,
    pub max_conns_per_peer: usize,
    pub max_request_body_wire_bytes: Option<usize>,
    pub max_request_body_decoded_bytes: Option<usize>,
    pub max_total_connections: Option<usize>,
    pub drain_timeout_ms: u64,
    pub load_shed_enabled: bool,
    pub max_header_size: usize,
    pub compression: Option<CompressionOptions>,
    pub decompression: bool,
}

impl AcceptConfig {
    /// Fills the options in with their defaults. A failed handshake concerns one
    /// connection only, so no number of them stops the loop.
    pub fn resolve(
        options: &ServeOptions,
        max_header_size: usize,
        compression: Option<CompressionOptions>,
    ) -> (r: Self)
        ensures
            r == (AcceptConfig {
                max: or_default(options.max_concurrency, 1024),
                max_errors: None,
                request_timeout_ms: or_default(options.request_timeout_ms, 60_000),
                max_conns_per_peer: or_default(options.max_connections_per_peer, 8),
                max_request_body_wire_bytes: Some(
                    or_default(options.max_request_body_wire_bytes, 16_777_216),
                ),
                max_request_body_decoded_bytes: Some(
                    or_default(options.max_request_body_decoded_bytes, 16_777_216),
                ),
                max_total_connections: options.max_total_connections,
                drain_timeout_ms: or_default(options.drain_timeout_ms, 30_000),
                load_shed_enabled: or_default(options.load_shed, true),
                max_header_size,
                compression,
                decompression: or_default(options.decompression, true),
            }),
    {
        AcceptConfig {
            max: options.max_concurrency.unwrap_or(DEFAULT_CONCURRENCY),
            max_errors: None,
            request_timeout_ms: options.request_timeout_ms.unwrap_or(DEFAULT_REQUEST_TIMEOUT_MS),
            max_conns_per_peer: options.max_connections_per_peer.unwrap_or(
                DEFAULT_MAX_CONNECTIONS_PER_PEER,
            ),
            max_request_body_wire_bytes: Some(
                options.max_request_body_wire_bytes.unwrap_or(DEFAULT_MAX_REQUEST_BODY_BYTES),
            ),
            max_request_body_decoded_bytes: Some(
                options.max_request_body_decoded_bytes.unwrap_or(DEFAULT_MAX_REQUEST_BODY_BYTES),
            ),
            max_total_connections: options.max_total_connections,
            drain_timeout_ms: options.drain_timeout_ms.unwrap_or(DEFAULT_DRAIN_TIMEOUT_MS),
            load_shed_enabled: options.load_shed.unwrap_or(true),
            max_header_size,
            compression,
            decompression: options.decompression.unwrap_or(true),
        }
    }

    /// The same loop with an error budget: so many failed handshakes in a row
    /// stop it.
    pub fn with_error_budget(self, options: &ServeOptions) -> (r: Self)
        ensures
            r == (AcceptConfig {
                max_errors: Some(or_default(options.max_serve_errors, 5)),
                ..self
            }),
    {
        AcceptConfig {
            max_errors: Some(options.max_serve_errors.unwrap_or(DEFAULT_MAX_SERVE_ERRORS)),
            ..self
        }
    }

    /// The layers' configuration. A timeout of zero means that there is none.
    pub fn stack_config(&self) -> (r: StackConfig)
        ensures
            r == (StackConfig {
                timeout_ms: if self.request_timeout_ms == 0 {
                    None
                } else {
                    Some(self.request_timeout_ms)
                },
                max_request_body_wire_bytes: self.max_request_body_wire_bytes,
                max_request_body_decoded_bytes: self.max_request_body_decoded_bytes,
                load_shed: self.load_shed_enabled,
                compression: self.compression,
                decompression: self.decompression,
            }),
    {
        StackConfig {
            timeout_ms: if self.request_timeout_ms == 0 {
                None
            } else {
                Some(self.request_timeout_ms)
            },
            max_request_body_wire_bytes: self.max_request_body_wire_bytes,
            max_request_body_decoded_bytes: self.max_request_body_decoded_bytes,
            load_shed: self.load_shed_enabled,
            compression: self.compression,
            decompression: self.decompression,
        }
    }

    /// How each stream is read.
    pub fn http1_settings(&self) -> (r: Http1Settings)
        ensures
            r.max_buf_size == header_limit(self.max_header_size),
            r.max_headers == 128,
            !r.keep_alive,
            r.header_read_timeout_ms == (if self.request_timeout_ms == 0 {
                None
            } else {
                Some(self.request_timeout_ms)
            }),
    {
        Http1Settings {
            max_buf_size: effective_header_limit(self.max_header_size),
            max_headers: 128,
            keep_alive: false,
            header_read_timeout_ms: self.stack_config().timeout_ms,
        }
    }
}

/// How the HTTP/1.1 reader of one stream is set up.
#[derive(Debug, Clone, Copy)]
pub struct Http1Settings {
    /// Size of the buffer that a head must fit in.
    pub max_buf_size: usize,
    /// Number of headers that a head may have.
    pub max_headers: usize,
    /// Whether a second request may follow on the stream.
    pub keep_alive: bool,
    /// How long a head may take to arrive. `None` means unbounded.
    pub header_read_timeout_ms: Option<u64>,
}

/// The head buffer's size: 64 KiB where none is set, and never less than 8 KiB,
/// the least that the reader works with.
pub open spec fn header_limit(max_header_size: usize) -> usize {
    if max_header_size == 0 {
        65536
    } else if max_header_size < 8192 {
        8192
    } else {
        max_header_size
    }
}

/// The head buffer's size for a configured limit.
pub fn effective_header_limit(max_header_size: usize) -> (r: usize)
    ensures
        r == header_limit(max_header_size),
{
    if max_header_size == 0 {
        65536
    } else if max_header_size < 8192 {
        8192
    } else {
        max_header_size
    }
}

/// The limit that the size of each request's head is held to: none where none is
/// set.
pub fn dispatch_header_limit(max_header_size: usize) -> (r: Option<usize>)
    ensures
        r == (if max_header_size == 0 {
            None
        } else {
            Some(max_header_size)
        }),
{
    if max_header_size == 0 {
        None
    } else {
        Some(max_header_size)
    }
}

// ── The loop ─────────────────────────────────────────────────────────────────

/// The state of a serve loop.
pub struct ServeLoop {
    pub config: AcceptConfig,
    pub peers: PeerCounts,
    /// Live connections of the endpoint.
    pub total: usize,
    /// Requests that are being processed.
    pub active_requests: usize,
    /// Requests whose response is not yet known to have arrived.
    pub in_flight: usize,
    /// Handshakes that have failed in a row.
    pub consecutive_errors: usize,
    /// Set when a graceful stop begins: no connection takes a new stream.
    pub no_new_streams: bool,
    /// Set when connections are to be closed.
    pub close_flag: bool,
}

/// What the loop was waiting for.
#[derive(Debug)]
pub enum Incoming {
    /// The loop was told to stop.
    Shutdown,
    /// The endpoint accepts nothing more.
    EndpointClosed,
    /// A handshake failed.
    HandshakeFailed,
    /// A connection stands.
    Connected { alpn: Vec<u8>, peer: NodeId },
}

/// What the loop does next.
#[derive(Debug)]
pub enum IncomingAction {
    /// Stop accepting; `endpoint_closed` is reported to whoever waits for it.
    Stop { endpoint_closed: bool },
    /// Wait for the next connection.
    Next,
    /// Close the connection with code 0 and this reason, and wait for the next.
    Reject(&'static str),
    /// Serve the connection under the peer's name.
    Serve { tracker: ConnectionTracker, event: Option<ConnectionEvent> },
}

/// What a connection does before it waits.
#[derive(Debug, Clone, Copy, PartialEq, Eq, Structural)]
pub enum ConnectionStep {
    /// Close the connection with code 0 and the reason "serve loop replaced", and
    /// end.
    Close,
    /// Wait for the signal to close.
    Park,
    /// Wait for a stream or for the signal to close.
    AcceptStream,
}

/// What a connection was waiting for.
#[derive(Debug, Clone, Copy, PartialEq, Eq, Structural)]
pub enum StreamEvent {
    /// The signal to close.
    CloseSignal,
    /// A stream.
    Stream,
    /// The connection has failed.
    Failed,
}

/// What a connection does with it.
#[derive(Debug)]
pub enum StreamAction {
    /// Look at the flags again; a stream, if there is one, is dropped unserved.
    Recheck,
    /// Serve the stream.
    Serve { request: RequestTracker, delivery: DeliveryTracker },
    /// End the connection.
    End,
}

/// What a stopping loop does next.
#[derive(Debug, Clone, Copy, PartialEq, Eq, Structural)]
pub enum DrainStep {
    /// Every request is done.
    Drained,
    /// The time is up.
    TimedOut,
    /// Wait so many milliseconds, or until the last request is done.
    Wait(u64),
}

/// What decides which streams are served.
pub struct FlowState {
    pub no_new_streams: bool,
    pub close_flag: bool,
    pub active_requests: int,
    pub in_flight: int,
}

/// What changes it.
pub enum FlowOp {
    /// A graceful stop begins.
    BeginDrain,
    /// Connections are told to close.
    CloseConnections,
    /// A connection got a stream.
    Stream,
    /// A request was processed.
    RequestDone,
    /// A response arrived, or never will.
    DeliveryDone,
}

/// What each change does.
pub open spec fn flow_step(s: FlowState, op: FlowOp) -> FlowState {
    match op {
        FlowOp::BeginDrain => FlowState { no_new_streams: true, ..s },
        FlowOp::CloseConnections => FlowState { close_flag: true, ..s },
        FlowOp::Stream => if s.no_new_streams {
            s
        } else {
            FlowState {
                active_requests: s.active_requests + 1,
                in_flight: s.in_flight + 1,
                ..s
            }
        },
        FlowOp::RequestDone => FlowState { active_requests: s.active_requests - 1, ..s },
        FlowOp::DeliveryDone => FlowState { in_flight: s.in_flight - 1, ..s },
    }
}

/// The state after changes in this order.
pub open spec fn flow_run(s: FlowState, ops: Seq<FlowOp>) -> FlowState
    decreases ops.len(),
{
    if ops.len() == 0 {
        s
    } else {
        flow_step(flow_run(s, ops.drop_last()), ops.last())
    }
}

/// What a connection does in a state.
pub open spec fn connection_choice(s: FlowState) -> ConnectionStep {
    if s.close_flag {
        ConnectionStep::Close
    } else if s.no_new_streams {
        ConnectionStep::Park
    } else {
        ConnectionStep::AcceptStream
    }
}

impl ServeLoop {
    /// The counts are consistent.
    pub open spec fn wf(&self) -> bool {
        self.peers.wf()
    }

    /// What decides which streams are served.
    pub open spec fn flow(&self) -> FlowState {
        FlowState {
            no_new_streams: self.no_new_streams,
            close_flag: self.close_flag,
            active_requests: self.active_requests as int,
            in_flight: self.in_flight as int,
        }
    }

    /// A loop that has served nothing, on an endpoint with so many live
    /// connections and requests.
    pub fn new(config: AcceptConfig, total: usize, active_requests: usize) -> (r: Self)
        ensures
            r.wf(),
            r.config == config,
            r.peers.total() == 0,
            forall|p: Seq<u8>| #[trigger] r.peers.count(p) == 0,
            r.total == total,
            r.active_requests == active_requests,
            r.in_flight == 0,
            r.consecutive_errors == 0,
            !r.no_new_streams,
            !r.close_flag,
    {
        ServeLoop {
            config,
            peers: PeerCounts::new(),
            total,
            active_requests,
            in_flight: 0,
            consecutive_errors: 0,
            no_new_streams: false,
            close_flag: false,
        }
    }

    /// Decides what becomes of what the loop was waiting for. A connection is
    /// served only if it speaks the HTTP protocol, if the endpoint has room, and
    /// if its peer has room, in this order.
    pub fn on_incoming(&mut self, incoming: Incoming) -> (r: IncomingAction)
        requires
            old(self).wf(),
            old(self).total < usize::MAX,
        ensures
            final(self).wf(),
            final(self).config == old(self).config,
            final(self).flow() == old(self).flow(),
            match incoming {
                Incoming::Shutdown => {
                    &&& r matches IncomingAction::Stop { endpoint_closed }
                    &&& !endpoint_closed
                    &&& *final(self) == *old(self)
                },
                Incoming::EndpointClosed => {
                    &&& r matches IncomingAction::Stop { endpoint_closed }
                    &&& endpoint_closed
                    &&& *final(self) == *old(self)
                },
                Incoming::HandshakeFailed => {
                    let n = if old(self).consecutive_errors == usize::MAX {
                        usize::MAX as int
                    } else {
                        old(self).consecutive_errors + 1
                    };
                    &&& final(self).consecutive_errors == n
                    &&& final(self).peers == old(self).peers
                    &&& final(self).total == old(self).total
                    &&& match old(self).config.max_errors {
                        Some(max) => if n >= max {
                            r matches IncomingAction::Stop { endpoint_closed } && !endpoint_closed
                        } else {
                            r is Next
                        },
                        None => r is Next,
                    }
                },
                Incoming::Connected { alpn, peer } => {
                    let before = old(self).peers.count(peer.bytes@);
                    let full = old(self).config.max_total_connections is Some && old(self).total
                        >= old(self).config.max_total_connections->Some_0;
                    &&& final(self).consecutive_errors == 0
                    &&& if alpn@ != ALPN@ {
                        &&& r matches IncomingAction::Reject(reason)
                        &&& reason@ == "unexpected ALPN"@
                        &&& final(self).peers == old(self).peers
                        &&& final(self).total == old(self).total
                    } else if full {
                        &&& r matches IncomingAction::Reject(reason)
                        &&& reason@ == "server at capacity"@
                        &&& final(self).peers == old(self).peers
                        &&& final(self).total == old(self).total
                    } else if before >= old(self).config.max_conns_per_peer {
                        &&& r matches IncomingAction::Reject(reason)
                        &&& reason@ == "too many connections"@
                        &&& final(self).peers == old(self).peers
                        &&& final(self).total == old(self).total
                    } else {
                        &&& r matches IncomingAction::Serve { tracker, event }
                        &&& tracker.peer.bytes@ == peer.bytes@
                        &&& tracker.peer_id@ == crate::encoding::base32_text(peer.bytes@)
                        &&& event is Some <==> before == 0
                        &&& event is Some ==> event->Some_0.connected
                            && event->Some_0.peer_id@ == tracker.peer_id@
                        &&& final(self).peers.count(peer.bytes@) == before + 1
                        &&& forall|p: Seq<u8>|
                            p != peer.bytes@ ==> #[trigger] final(self).peers.count(p) == old(
                                self).peers.count(p)
                        &&& final(self).peers.total() == old(self).peers.total() + 1
                        &&& final(self).total == old(self).total + 1
                    }
                },
            },
    {
        match incoming {
            Incoming::Shutdown => IncomingAction::Stop { endpoint_closed: false },
            Incoming::EndpointClosed => IncomingAction::Stop { endpoint_closed: true },
            Incoming::HandshakeFailed => {
                self.consecutive_errors = self.consecutive_errors.saturating_add(1);
                match self.config.max_errors {
                    Some(max) => if self.consecutive_errors >= max {
                        IncomingAction::Stop { endpoint_closed: false }
                    } else {
                        IncomingAction::Next
                    },
                    None => IncomingAction::Next,
                }
            },
            Incoming::Connected { alpn, peer } => {
                self.consecutive_errors = 0;
                if !same_bytes(alpn.as_slice(), ALPN.as_slice()) {
                    return IncomingAction::Reject("unexpected ALPN");
                }
                if let Some(max_total) = self.config.max_total_connections {
                    if self.total >= max_total {
                        return IncomingAction::Reject("server at capacity");
                    }
                }
                let remote_id = base32_encode(peer.bytes.as_slice());
                match ConnectionTracker::acquire(
                    &mut self.peers,
                    peer,
                    remote_id,
                    self.config.max_conns_per_peer,
                    &mut self.total,
                ) {
                    Some((tracker, event)) => IncomingAction::Serve { tracker, event },
                    None => IncomingAction::Reject("too many connections"),
                }
            },
        }
    }

    /// Ends a connection that was served.
    pub fn connection_ended(&mut self, tracker: ConnectionTracker) -> (r: Option<ConnectionEvent>)
        requires
            old(self).wf(),
            old(self).total > 0,
        ensures
            final(self).wf(),
            final(self).config == old(self).config,
            final(self).flow() == old(self).flow(),
            final(self).consecutive_errors == old(self).consecutive_errors,
            final(self).total == old(self).total - 1,
            final(self).peers.total() == (if old(self).peers.count(tracker.peer.bytes@) > 0 {
                old(self).peers.total() - 1
            } else {
                old(self).peers.total() as int
            }),
            final(self).peers.count(tracker.peer.bytes@) == (if old(self).peers.count(
                tracker.peer.bytes@,
            ) > 0 {
                old(self).peers.count(tracker.peer.bytes@) - 1
            } else {
                0
            }),
            forall|p: Seq<u8>|
                p != tracker.peer.bytes@ ==> #[trigger] final(self).peers.count(p) == old(
                    self).peers.count(p),
            r is Some <==> old(self).peers.count(tracker.peer.bytes@) == 1,
            r is Some ==> !r->Some_0.connected && r->Some_0.peer_id@ == tracker.peer_id@,
    {
        tracker.release(&mut self.peers, &mut self.total)
    }

    /// What a connection does before it waits.
    pub fn connection_step(&self) -> (r: ConnectionStep)
        ensures
            r == connection_choice(self.flow()),
    {
        if self.close_flag {
            ConnectionStep::Close
        } else if self.no_new_streams {
            ConnectionStep::Park
        } else {
            ConnectionStep::AcceptStream
        }
    }

    /// What a connection does with what it was waiting for. A stream that comes
    /// after a graceful stop has begun is refused: it would be cut off by the
    /// close that follows.
    pub fn on_stream(&mut self, event: StreamEvent) -> (r: StreamAction)
        requires
            old(self).active_requests < usize::MAX,
            old(self).in_flight < usize::MAX,
        ensures
            final(self).config == old(self).config,
            final(self).peers == old(self).peers,
            final(self).total == old(self).total,
            final(self).consecutive_errors == old(self).consecutive_errors,
            match event {
                StreamEvent::CloseSignal => r is Recheck && *final(self) == *old(self),
                StreamEvent::Failed => r is End && *final(self) == *old(self),
                StreamEvent::Stream => {
                    &&& final(self).flow() == flow_step(old(self).flow(), FlowOp::Stream)
                    &&& if old(self).no_new_streams {
                        r is Recheck
                    } else {
                        r is Serve
                    }
                },
            },
    {
        match event {
            StreamEvent::CloseSignal => StreamAction::Recheck,
            StreamEvent::Failed => StreamAction::End,
            StreamEvent::Stream => {
                if self.no_new_streams {
                    return StreamAction::Recheck;
                }
                let request = RequestTracker::new(&mut self.active_requests);
                let delivery = DeliveryTracker::new(&mut self.in_flight);
                StreamAction::Serve { request, delivery }
            },
        }
    }

    /// A request was processed.
    pub fn request_done(&mut self, request: RequestTracker)
        requires
            old(self).active_requests > 0,
        ensures
            final(self).flow() == flow_step(old(self).flow(), FlowOp::RequestDone),
            final(self).config == old(self).config,
            final(self).peers == old(self).peers,
            final(self).total == old(self).total,
            final(self).consecutive_errors == old(self).consecutive_errors,
    {
        request.finish(&mut self.active_requests);
    }

    /// A response arrived, or never will. Says whether it was the last one that a
    /// stopping loop waits for.
    pub fn delivery_done(&mut self, delivery: DeliveryTracker) -> (r: bool)
        requires
            old(self).in_flight > 0,
        ensures
            final(self).flow() == flow_step(old(self).flow(), FlowOp::DeliveryDone),
            final(self).config == old(self).config,
            final(self).peers == old(self).peers,
            final(self).total == old(self).total,
            final(self).consecutive_errors == old(self).consecutive_errors,
            r == (final(self).in_flight == 0),
    {
        delivery.finish(&mut self.in_flight)
    }

    /// Begins a graceful stop: connections take no new stream. Gives the time by
    /// which the requests have to be done; where the clock cannot hold that time,
    /// it is a day from now.
    pub fn begin_drain(&mut self, now_ms: u64) -> (deadline_ms: u64)
        requires
            now_ms <= u64::MAX - 86_400_000,
        ensures
            final(self).flow() == flow_step(old(self).flow(), FlowOp::BeginDrain),
            final(self).config == old(self).config,
            final(self).peers == old(self).peers,
            final(self).total == old(self).total,
            final(self).consecutive_errors == old(self).consecutive_errors,
            deadline_ms == drain_end(now_ms, old(self).config.drain_timeout_ms),
    {
        self.no_new_streams = true;
        drain_deadline(now_ms, self.config.drain_timeout_ms)
    }

    /// What a stopping loop does next.
    pub fn drain_step(&self, now_ms: u64, deadline_ms: u64) -> (r: DrainStep)
        ensures
            r == (if self.in_flight == 0 {
                DrainStep::Drained
            } else if now_ms >= deadline_ms {
                DrainStep::TimedOut
            } else {
                DrainStep::Wait((deadline_ms - now_ms) as u64)
            }),
    {
        if self.in_flight == 0 {
            return DrainStep::Drained;
        }
        let remaining: u64 = deadline_ms.saturating_sub(now_ms);
        if remaining == 0 {
            return DrainStep::TimedOut;
        }
        DrainStep::Wait(remaining)
    }

    /// Tells every connection to close: after a drain, or at once when another
    /// loop takes the place of this one.
    pub fn close_connections(&mut self)
        ensures
            final(self).flow() == flow_step(old(self).flow(), FlowOp::CloseConnections),
            final(self).config == old(self).config,
            final(self).peers == old(self).peers,
            final(self).total == old(self).total,
            final(self).consecutive_errors == old(self).consecutive_errors,
    {
        self.close_flag = true;
    }
}

/// The end of a drain that begins now.
pub open spec fn drain_end(now_ms: u64, timeout_ms: u64) -> int {
    if now_ms + timeout_ms <= u64::MAX {
        now_ms + timeout_ms
    } else {
        now_ms + 86_400_000
    }
}

/// The end of a drain that begins now: a day from now where the clock cannot hold
/// it.
pub fn drain_deadline(now_ms: u64, timeout_ms: u64) -> (r: u64)
    requires
        now_ms <= u64::MAX - 86_400_000,
    ensures
        r == drain_end(now_ms, timeout_ms),
{
    match now_ms.checked_add(timeout_ms) {
        Some(t) => t,
        None => now_ms + 86_400_000,
    }
}

/// Once a graceful stop has begun, nothing that happens starts another request, and
/// no connection waits for a stream again.
pub proof fn nothing_starts_after_stop(s: FlowState, ops: Seq<FlowOp>)
    requires
        s.no_new_streams,
    ensures
        flow_run(s, ops).no_new_streams,
        flow_run(s, ops).in_flight <= s.in_flight,
        flow_run(s, ops).active_requests <= s.active_requests,
        connection_choice(flow_run(s, ops)) != ConnectionStep::AcceptStream,
    decreases ops.len(),
{
    if ops.len() > 0 {
        nothing_starts_after_stop(s, ops.drop_last());
    }
}

/// Once connections were told to close, every connection closes whenever it looks
/// again, whatever happens in between.
pub proof fn closing_is_final(s: FlowState, ops: Seq<FlowOp>)
    requires
        s.close_flag,
    ensures
        flow_run(s, ops).close_flag,
        connection_choice(flow_run(s, ops)) == ConnectionStep::Close,
    decreases ops.len(),
{
    if ops.len() > 0 {
        closing_is_final(s, ops.drop_last());
    }
}

/// Requests that had begun when a graceful stop began are waited for: the drain is
/// over exactly when each of their deliveries is done.
pub proof fn drain_waits_for_deliveries(s: FlowState, ops: Seq<FlowOp>)
    requires
        s.no_new_streams,
    ensures
        flow_run(s, ops).in_flight == s.in_flight - ops.filter(
            |op: FlowOp| op is DeliveryDone,
        ).len(),
    decreases ops.len(),
{
    reveal(Seq::filter);
    if ops.len() > 0 {
        drain_waits_for_deliveries(s, ops.drop_last());
        nothing_starts_after_stop(s, ops.drop_last());
    }
}

// ── Laws of the options ──────────────────────────────────────────────────────

/// What is configured is used, and the default where nothing is.
pub proof fn configured_values_are_used<T>(x: T, default: T)
    ensures
        or_default(Some(x), default) == x,
        or_default(None, default) == default,
{
}

/// The head buffer has the size that is configured, but for 64 KiB where none is, and never
/// less than 8 KiB.
pub proof fn head_buffers(n: usize)
    ensures
        header_limit(0) == 65_536,
        n > 0 ==> header_limit(n) >= n && header_limit(n) >= 8_192,
        n >= 8_192 ==> header_limit(n) == n,
        0 < n < 8_192 ==> header_limit(n) == 8_192,
{
}

/// The defaults under which requests are served.
pub proof fn defaults_of_serving()
    ensures
        DEFAULT_CONCURRENCY == 1024,
        DEFAULT_MAX_SERVE_ERRORS == 5,
        DEFAULT_REQUEST_TIMEOUT_MS == 60_000,
        DEFAULT_MAX_CONNECTIONS_PER_PEER == 8,
        DEFAULT_DRAIN_TIMEOUT_MS == 30_000,
        DEFAULT_MAX_REQUEST_BODY_BYTES == 16 * 1024 * 1024,
        DEFAULT_MAX_RESPONSE_BODY_BYTES == 256 * 1024 * 1024,
{
}

/// What a stream, a request and a delivery change: a stream that is taken counts as a
/// request and as a delivery until each is done; one that comes after a graceful stop has
/// begun changes nothing. Flags that are set stay set.
pub proof fn streams_are_counted(s: FlowState)
    ensures
        s.no_new_streams ==> flow_step(s, FlowOp::Stream) == s,
        !s.no_new_streams ==> {
            let t = flow_step(s, FlowOp::Stream);
            &&& t.active_requests == s.active_requests + 1
            &&& t.in_flight == s.in_flight + 1
            &&& t.close_flag == s.close_flag
            &&& !t.no_new_streams
            &&& flow_step(flow_step(t, FlowOp::RequestDone), FlowOp::DeliveryDone) == s
        },
        flow_step(s, FlowOp::BeginDrain).no_new_streams,
        flow_step(s, FlowOp::BeginDrain).in_flight == s.in_flight,
        flow_step(s, FlowOp::BeginDrain).active_requests == s.active_requests,
        flow_step(s, FlowOp::BeginDrain).close_flag == s.close_flag,
        flow_step(s, FlowOp::CloseConnections).close_flag,
        flow_step(s, FlowOp::CloseConnections).no_new_streams == s.no_new_streams,
        flow_step(s, FlowOp::CloseConnections).in_flight == s.in_flight,
        flow_step(s, FlowOp::CloseConnections).active_requests == s.active_requests,
{
}

/// A connection closes where it is told to, waits where a graceful stop has begun, and
/// takes streams otherwise.
pub proof fn connections_follow_the_flags(s: FlowState)
    ensures
        connection_choice(s) == ConnectionStep::Close <==> s.close_flag,
        connection_choice(s) == ConnectionStep::Park <==> s.no_new_streams && !s.close_flag,
        connection_choice(s) == ConnectionStep::AcceptStream <==> !s.no_new_streams
            && !s.close_flag,
{
}

/// A drain ends after its timeout; where that lies beyond what the clock can count, a day
/// later.
pub proof fn drains_end(now_ms: u64, timeout_ms: u64)
    ensures
        now_ms + timeout_ms <= u64::MAX ==> drain_end(now_ms, timeout_ms) == now_ms + timeout_ms,
        now_ms + timeout_ms > u64::MAX ==> drain_end(now_ms, timeout_ms) == now_ms + 24 * 60 * 60
            * 1000,
{
}

/// What happens while serving is taken one by one, in its order.
pub proof fn happenings_go_one_by_one(s: FlowState, ops: Seq<FlowOp>, next: FlowOp)
    ensures
        flow_run(s, Seq::empty()) == s,
        flow_run(s, ops.push(next)) == flow_step(flow_run(s, ops), next),
{
    assert(ops.push(next).drop_last() =~= ops);
}

} // verus!
