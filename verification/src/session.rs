//! Sessions: dedicated connections to one peer, with streams and datagrams.
//!
//! Sessions are not pooled; closing one has no effect on others to the same peer.
use vstd::prelude::*;

use crate::ALPN_DUPLEX;
use crate::error::{unknown_handle, CoreError, ErrorCode, ErrorView};
use crate::guard::{without_handles, InsertGuard, TrackedHandle};
use crate::handles::{at_capacity, HandleStore};
use crate::rules::{debug_text, quoted};
use crate::slots::{canonical, well_formed_handle, MAX_LIVE};
use crate::text::{
    append_decimal, bytes_of, decimal, lossy_text, same_bytes, text_from_bytes,
};
use crate::types::FfiDuplexStream;

verus! {

// ── The end of a connection ──────────────────────────────────────────────────

/// Why a connection ended.
#[derive(Debug)]
pub enum EndKind {
    /// The peer's application closed it.
    ApplicationClosed { code: u64, reason: Vec<u8> },
    /// The peer's transport closed it.
    ConnectionClosed,
    /// The peer has forgotten it.
    Reset,
    /// Nothing came for too long.
    TimedOut,
    /// This side closed it.
    LocallyClosed,
    /// It failed in another way.
    Other,
}

/// The end of a connection, with the transport's words for it.
#[derive(Debug)]
pub struct ConnectionEnd {
    pub kind: EndKind,
    pub text: String,
}

/// What the transport is told when a session's connection is closed.
#[derive(Debug)]
pub struct CloseOrder {
    pub code: u64,
    pub reason: Vec<u8>,
}

/// What is told of the end of a session.
#[derive(Debug, Clone)]
pub struct CloseInfo {
    pub close_code: u64,
    pub reason: String,
}

/// Whether a connection came to its end, rather than failed.
pub fn is_connection_closed(end: &ConnectionEnd) -> (r: bool)
    ensures
        r == !(end.kind is Other),
{
    match end.kind {
        EndKind::Other => false,
        _ => true,
    }
}

/// The code and the reason with which a connection ended: the peer application's
/// own, else 0 and the transport's words.
pub open spec fn close_view(end: ConnectionEnd) -> (u64, Seq<char>) {
    match end.kind {
        EndKind::ApplicationClosed { code, reason } => (code, lossy_text(reason@)),
        _ => (0, end.text@),
    }
}

/// Reads the code and the reason with which a connection ended.
pub fn parse_connection_error(end: &ConnectionEnd) -> (r: (u64, String))
    ensures
        (r.0, r.1@) == close_view(*end),
{
    match &end.kind {
        EndKind::ApplicationClosed { code, reason } => (*code, text_from_bytes(reason)),
        _ => (0, end.text.clone()),
    }
}

// ── Errors ───────────────────────────────────────────────────────────────────

/// What was asked of the transport.
#[derive(Debug, Clone, Copy, PartialEq, Eq, Structural)]
pub enum SessionOp {
    Connect,
    Accept,
    OpenBi,
    AcceptBi,
    OpenUni,
    AcceptUni,
    RecvDatagram,
}

/// What precedes the transport's words in an error.
pub open spec fn op_prefix(op: SessionOp) -> Seq<char> {
    match op {
        SessionOp::Connect => "connect session: "@,
        SessionOp::Accept => "accept session: "@,
        SessionOp::OpenBi => "open_bi: "@,
        SessionOp::AcceptBi => "accept_bi: "@,
        SessionOp::OpenUni => "open_uni: "@,
        SessionOp::AcceptUni => "accept_uni: "@,
        SessionOp::RecvDatagram => "recv_datagram: "@,
    }
}

/// The error of something that was asked of the transport and failed.
pub fn op_failed(op: SessionOp, cause: &str) -> (r: CoreError)
    ensures
        r@ == (ErrorCode::ConnectionFailed, op_prefix(op) + cause@),
{
    let mut s: String = String::from_str(
        match op {
            SessionOp::Connect => "connect session: ",
            SessionOp::Accept => "accept session: ",
            SessionOp::OpenBi => "open_bi: ",
            SessionOp::AcceptBi => "accept_bi: ",
            SessionOp::OpenUni => "open_uni: ",
            SessionOp::AcceptUni => "accept_uni: ",
            SessionOp::RecvDatagram => "recv_datagram: ",
        },
    );
    s.append(cause);
    CoreError { code: ErrorCode::ConnectionFailed, message: s }
}

/// What a wait for the peer gives when the connection ended instead: nothing where
/// it came to its end, an error where it failed.
pub fn wait_ended(op: SessionOp, end: &ConnectionEnd) -> (r: Result<(), CoreError>)
    ensures
        match r {
            Ok(_) => !(end.kind is Other),
            Err(e) => end.kind is Other && e@ == (
                ErrorCode::ConnectionFailed,
                op_prefix(op) + end.text@,
            ),
        },
{
    if is_connection_closed(end) {
        Ok(())
    } else {
        Err(op_failed(op, &end.text))
    }
}

/// Why a datagram was not sent.
#[derive(Debug)]
pub enum DatagramFault {
    /// It is larger than the path takes.
    TooLarge,
    /// It failed in another way, in the transport's words.
    Other(String),
}

/// The error of a datagram that was not sent.
pub fn datagram_error(fault: &DatagramFault) -> (r: CoreError)
    ensures
        match *fault {
            DatagramFault::TooLarge => r@ == (
                ErrorCode::BodyTooLarge,
                "datagram exceeds path MTU; check Session::max_datagram_size()"@,
            ),
            DatagramFault::Other(m) => r@ == (ErrorCode::Internal, "send_datagram: "@ + m@),
        },
{
    match fault {
        DatagramFault::TooLarge => CoreError::body_too_large(
            "datagram exceeds path MTU; check Session::max_datagram_size()",
        ),
        DatagramFault::Other(m) => {
            let mut s: String = String::from_str("send_datagram: ");
            s.append(m);
            CoreError { code: ErrorCode::Internal, message: s }
        },
    }
}

// ── Close codes ──────────────────────────────────────────────────────────────

/// `iroh::endpoint::VarInt::from_u64`: whether it takes a number.
#[verifier::external_body]
pub(crate) fn fits_varint(n: u64) -> (r: bool)
    ensures
        r == (n < 0x4000_0000_0000_0000),
{
    iroh::endpoint::VarInt::from_u64(n).is_ok()
}

/// What is said of a close code that the transport cannot carry.
pub open spec fn bad_close_code(code: u64) -> ErrorView {
    (
        ErrorCode::InvalidInput,
        "close_code "@ + decimal(code as nat) + " exceeds QUIC VarInt max (2^62 - 1)"@,
    )
}

// ── Sessions ─────────────────────────────────────────────────────────────────

/// What came of waiting for a peer's session.
#[derive(Debug)]
pub enum SessionArrival {
    /// The endpoint is shutting down.
    ShuttingDown,
    /// The handshake failed, in the transport's words.
    HandshakeFailed(String),
    /// A connection stands, under this protocol.
    Connected { alpn: Vec<u8> },
}

/// What becomes of a session that came.
#[derive(Debug)]
pub enum ArrivalAction {
    /// There is none.
    Nothing,
    /// It has a handle.
    Opened(Session),
    /// It has failed.
    Failed(CoreError),
    /// Its connection is to be closed with code 0 and the reason "unexpected ALPN",
    /// and the error given back.
    Refuse(CoreError),
}

/// What is said of a session under another protocol.
pub open spec fn unexpected_alpn(shown: Seq<char>) -> ErrorView {
    (ErrorCode::ConnectionFailed, "accept session: unexpected ALPN "@ + shown)
}

/// The error of a session under another protocol, whose quoted name is given.
pub fn unexpected_alpn_error(shown: &str) -> (r: CoreError)
    ensures
        r@ == unexpected_alpn(shown@),
{
    let mut s: String = String::from_str("accept session: unexpected ALPN ");
    s.append(shown);
    CoreError { code: ErrorCode::ConnectionFailed, message: s }
}

/// A session, by its handle.
#[derive(Debug, Clone, Copy, PartialEq, Eq, Structural)]
pub struct Session {
    pub handle: u64,
}

impl Session {
    /// The session of a handle that was given out before.
    pub fn from_handle(handle: u64) -> (r: Self)
        ensures
            r.handle == handle,
    {
        Session { handle }
    }

    /// The handle of the session.
    pub fn handle(&self) -> (r: u64)
        ensures
            r == self.handle,
    {
        self.handle
    }

    /// Gives a handle to a session whose connection stands.
    pub fn connect(store: &mut HandleStore, now_ms: u64) -> (r: Result<Session, CoreError>)
        requires
            old(store).wf(),
            old(store).sessions.live().len() < MAX_LIVE,
        ensures
            final(store).wf(),
            final(store).same_but_sessions(old(store)),
            match r {
                Ok(s) => {
                    &&& old(store).sessions.live().len() < old(store).config.max_handles
                    &&& well_formed_handle(s.handle)
                    &&& !old(store).sessions.live().contains_key(s.handle)
                    &&& final(store).sessions.live() == old(store).sessions.live().insert(
                        s.handle,
                        now_ms,
                    )
                },
                Err(e) => {
                    &&& old(store).sessions.live().len() >= old(store).config.max_handles
                    &&& e@ == at_capacity()
                    &&& final(store).sessions == old(store).sessions
                },
            },
    {
        match store.insert_session(now_ms) {
            Ok(handle) => Ok(Session { handle }),
            Err(e) => Err(e),
        }
    }

    /// Decides what becomes of a session that a peer began. Only the session
    /// protocol is taken: a connection for plain HTTP must not be used as a session.
    pub fn accept(store: &mut HandleStore, arrival: SessionArrival, now_ms: u64) -> (r:
        ArrivalAction)
        requires
            old(store).wf(),
            old(store).sessions.live().len() < MAX_LIVE,
        ensures
            final(store).wf(),
            final(store).same_but_sessions(old(store)),
            match arrival {
                SessionArrival::ShuttingDown => r is Nothing && *final(store) == *old(store),
                SessionArrival::HandshakeFailed(m) => {
                    &&& r matches ArrivalAction::Failed(e)
                    &&& e@ == (ErrorCode::ConnectionFailed, "accept session: "@ + m@)
                    &&& *final(store) == *old(store)
                },
                SessionArrival::Connected { alpn } => if alpn@ != ALPN_DUPLEX@ {
                    &&& r matches ArrivalAction::Refuse(e)
                    &&& e@ == unexpected_alpn(debug_text(lossy_text(alpn@)))
                    &&& *final(store) == *old(store)
                } else if old(store).sessions.live().len() >= old(store).config.max_handles {
                    &&& r matches ArrivalAction::Failed(e)
                    &&& e@ == at_capacity()
                    &&& final(store).sessions == old(store).sessions
                } else {
                    &&& r matches ArrivalAction::Opened(s)
                    &&& well_formed_handle(s.handle)
                    &&& !old(store).sessions.live().contains_key(s.handle)
                    &&& final(store).sessions.live() == old(store).sessions.live().insert(
                        s.handle,
                        now_ms,
                    )
                },
            },
    {
        match arrival {
            SessionArrival::ShuttingDown => ArrivalAction::Nothing,
            SessionArrival::HandshakeFailed(m) => ArrivalAction::Failed(
                op_failed(SessionOp::Accept, &m),
            ),
            SessionArrival::Connected { alpn } => {
                if !same_bytes(alpn.as_slice(), ALPN_DUPLEX.as_slice()) {
                    let text = text_from_bytes(&alpn);
                    let shown = quoted(&text);
                    return ArrivalAction::Refuse(unexpected_alpn_error(&shown));
                }
                match Session::connect(store, now_ms) {
                    Ok(s) => ArrivalAction::Opened(s),
                    Err(e) => ArrivalAction::Failed(e),
                }
            },
        }
    }

    /// Checks that the session is there: before a stream is opened or waited for,
    /// a datagram is sent or waited for, or the connection is asked anything.
    pub fn ready(&self, store: &HandleStore) -> (r: Result<(), CoreError>)
        ensures
            match r {
                Ok(_) => store.sessions.live().contains_key(canonical(self.handle)),
                Err(e) => !store.sessions.live().contains_key(canonical(self.handle)) && e@
                    == unknown_handle(self.handle),
            },
    {
        if store.lookup_session(self.handle) {
            Ok(())
        } else {
            Err(CoreError::invalid_handle(self.handle))
        }
    }

    /// Says what the session's connection is closed with. The session keeps its
    /// handle until its end was seen, so whoever waits for that still finds it.
    pub fn close(&self, store: &HandleStore, close_code: u64, reason: &str) -> (r: Result<
        CloseOrder,
        CoreError,
    >)
        ensures
            match r {
                Ok(o) => {
                    &&& store.sessions.live().contains_key(canonical(self.handle))
                    &&& close_code < 0x4000_0000_0000_0000
                    &&& o.code == close_code
                    &&& o.reason@ == vstd::utf8::encode_utf8(reason@)
                },
                Err(e) => if !store.sessions.live().contains_key(canonical(self.handle)) {
                    e@ == unknown_handle(self.handle)
                } else {
                    close_code >= 0x4000_0000_0000_0000 && e@ == bad_close_code(close_code)
                },
            },
    {
        match self.ready(store) {
            Err(e) => {
                return Err(e);
            },
            Ok(_) => {},
        }
        if fits_varint(close_code) {
            Ok(CloseOrder { code: close_code, reason: bytes_of(reason) })
        } else {
            let mut s: String = String::from_str("close_code ");
            append_decimal(&mut s, close_code);
            s.append(" exceeds QUIC VarInt max (2^62 - 1)");
            Err(CoreError { code: ErrorCode::InvalidInput, message: s })
        }
    }

    /// What is told at once of a session that is gone already; nothing where its end
    /// has to be waited for.
    pub fn already_closed(&self, store: &HandleStore) -> (r: Option<CloseInfo>)
        ensures
            match r {
                Some(i) => {
                    &&& !store.sessions.live().contains_key(canonical(self.handle))
                    &&& i.close_code == 0
                    &&& i.reason@.len() == 0
                },
                None => store.sessions.live().contains_key(canonical(self.handle)),
            },
    {
        if store.lookup_session(self.handle) {
            None
        } else {
            Some(CloseInfo { close_code: 0, reason: String::new() })
        }
    }

    /// Tells of the end of the session, and takes it out. No other session is
    /// touched.
    pub fn closed(&self, store: &mut HandleStore, end: &ConnectionEnd) -> (r: CloseInfo)
        requires
            old(store).wf(),
        ensures
            final(store).wf(),
            final(store).same_but_sessions(old(store)),
            final(store).sessions.live() == old(store).sessions.live().remove(
                canonical(self.handle),
            ),
            (r.close_code, r.reason@) == close_view(*end),
    {
        store.remove_session(self.handle);
        let (close_code, reason) = parse_connection_error(end);
        CloseInfo { close_code, reason }
    }
}

// ── Streams ──────────────────────────────────────────────────────────────────

/// What `r` and the store are after the two handles of a bidirectional stream were
/// asked for: both were given out, or, where one of the registries is full, neither.
pub open spec fn bidi_given(
    before: &HandleStore,
    after: &HandleStore,
    r: Result<FfiDuplexStream, CoreError>,
    now_ms: u64,
) -> bool {
    &&& after.sessions == before.sessions
    &&& after.fetch_cancels == before.fetch_cancels
    &&& after.pending_readers == before.pending_readers
    &&& after.config == before.config
    &&& after.request_heads.live() == before.request_heads.live()
    &&& match r {
        Ok(d) => {
            &&& before.readers.live().len() < before.config.max_handles
            &&& before.writers.live().len() < before.config.max_handles
            &&& well_formed_handle(d.read_handle)
            &&& well_formed_handle(d.write_handle)
            &&& !before.readers.live().contains_key(d.read_handle)
            &&& !before.writers.live().contains_key(d.write_handle)
            &&& after.readers.live() == before.readers.live().insert(d.read_handle, now_ms)
            &&& after.writers.live() == before.writers.live().insert(d.write_handle, now_ms)
        },
        Err(e) => {
            &&& before.readers.live().len() >= before.config.max_handles
                || before.writers.live().len() >= before.config.max_handles
            &&& e@ == at_capacity()
            &&& after.guarded() == before.guarded()
        },
    }
}

/// What `r` and the store are after a reader handle was asked for.
pub open spec fn reader_given(
    before: &HandleStore,
    after: &HandleStore,
    r: Result<u64, CoreError>,
    now_ms: u64,
) -> bool {
    &&& after.same_but_readers(before)
    &&& match r {
        Ok(h) => {
            &&& before.readers.live().len() < before.config.max_handles
            &&& well_formed_handle(h)
            &&& !before.readers.live().contains_key(h)
            &&& after.readers.live() == before.readers.live().insert(h, now_ms)
        },
        Err(e) => {
            &&& before.readers.live().len() >= before.config.max_handles
            &&& e@ == at_capacity()
            &&& after.readers == before.readers
        },
    }
}

/// What `r` and the store are after a writer handle was asked for.
pub open spec fn writer_given(
    before: &HandleStore,
    after: &HandleStore,
    r: Result<u64, CoreError>,
    now_ms: u64,
) -> bool {
    &&& after.same_but_writers(before)
    &&& match r {
        Ok(h) => {
            &&& before.writers.live().len() < before.config.max_handles
            &&& well_formed_handle(h)
            &&& !before.writers.live().contains_key(h)
            &&& after.writers.live() == before.writers.live().insert(h, now_ms)
        },
        Err(e) => {
            &&& before.writers.live().len() >= before.config.max_handles
            &&& e@ == at_capacity()
            &&& after.writers == before.writers
        },
    }
}

/// Gives out the two handles of a bidirectional stream. Where one of the
/// registries is full, neither stays.
pub fn wrap_bidi_stream(store: &mut HandleStore, now_ms: u64) -> (r: Result<
    FfiDuplexStream,
    CoreError,
>)
    requires
        old(store).wf(),
        old(store).readers.live().len() < MAX_LIVE,
        old(store).writers.live().len() < MAX_LIVE,
    ensures
        final(store).wf(),
        bidi_given(old(store), final(store), r, now_ms),
{
    let mut guard = InsertGuard::new();
    let ghost start = store.guarded();
    let read_handle: u64 = match guard.insert_reader(store, now_ms) {
        Ok(h) => h,
        Err(e) => {
            return Err(e);
        },
    };
    proof {
        assert(guard.held@ =~= seq![TrackedHandle::Reader(read_handle)]);
    }
    let ghost held = guard.held@;
    let write_handle: u64 = match guard.insert_writer(store, now_ms) {
        Ok(h) => h,
        Err(e) => {
            proof {
                assert(store.guarded() =~= crate::guard::with_handle(start, held[0], now_ms));
                assert(held.drop_last() =~= Seq::empty());
                assert(without_handles(store.guarded(), held.drop_last()) == store.guarded());
                assert(without_handles(store.guarded(), held) =~= start);
            }
            guard.rollback(store);
            return Err(e);
        },
    };
    let _ = guard.commit();
    Ok(FfiDuplexStream { read_handle, write_handle })
}

impl Session {
    /// Ends the opening of a bidirectional stream, given what came of asking the
    /// transport for it.
    pub fn create_bidi_stream(
        &self,
        store: &mut HandleStore,
        opened: Result<(), String>,
        now_ms: u64,
    ) -> (r: Result<FfiDuplexStream, CoreError>)
        requires
            old(store).wf(),
            old(store).readers.live().len() < MAX_LIVE,
            old(store).writers.live().len() < MAX_LIVE,
        ensures
            final(store).wf(),
            if !old(store).sessions.live().contains_key(canonical(self.handle)) {
                &&& r matches Err(e)
                &&& e@ == unknown_handle(self.handle)
                &&& *final(store) == *old(store)
            } else {
                match opened {
                    Ok(_) => bidi_given(old(store), final(store), r, now_ms),
                    Err(m) => {
                        &&& r matches Err(e)
                        &&& e@ == (ErrorCode::ConnectionFailed, "open_bi: "@ + m@)
                        &&& *final(store) == *old(store)
                    },
                }
            },
    {
        match self.ready(store) {
            Err(e) => {
                return Err(e);
            },
            Ok(_) => {},
        }
        match opened {
            Ok(_) => wrap_bidi_stream(store, now_ms),
            Err(m) => Err(op_failed(SessionOp::OpenBi, &m)),
        }
    }

    /// Ends the wait for the peer's next bidirectional stream, given what came of it.
    /// There is none where the connection came to its end.
    pub fn next_bidi_stream(
        &self,
        store: &mut HandleStore,
        arrived: Result<(), ConnectionEnd>,
        now_ms: u64,
    ) -> (r: Result<Option<FfiDuplexStream>, CoreError>)
        requires
            old(store).wf(),
            old(store).readers.live().len() < MAX_LIVE,
            old(store).writers.live().len() < MAX_LIVE,
        ensures
            final(store).wf(),
            if !old(store).sessions.live().contains_key(canonical(self.handle)) {
                &&& r matches Err(e)
                &&& e@ == unknown_handle(self.handle)
                &&& *final(store) == *old(store)
            } else {
                match arrived {
                    Ok(_) => match r {
                        Ok(Some(d)) => bidi_given(old(store), final(store), Ok(d), now_ms),
                        Ok(None) => false,
                        Err(e) => bidi_given(old(store), final(store), Err(e), now_ms),
                    },
                    Err(end) => {
                        &&& *final(store) == *old(store)
                        &&& if end.kind is Other {
                            r matches Err(e) && e@ == (
                                ErrorCode::ConnectionFailed,
                                "accept_bi: "@ + end.text@,
                            )
                        } else {
                            r matches Ok(None)
                        }
                    },
                }
            },
    {
        match self.ready(store) {
            Err(e) => {
                return Err(e);
            },
            Ok(_) => {},
        }
        match arrived {
            Ok(_) => match wrap_bidi_stream(store, now_ms) {
                Ok(d) => Ok(Some(d)),
                Err(e) => Err(e),
            },
            Err(end) => match wait_ended(SessionOp::AcceptBi, &end) {
                Ok(_) => Ok(None),
                Err(e) => Err(e),
            },
        }
    }

    /// Ends the opening of a stream that is only written to, given what came of asking
    /// the transport for it.
    pub fn create_uni_stream(
        &self,
        store: &mut HandleStore,
        opened: Result<(), String>,
        now_ms: u64,
    ) -> (r: Result<u64, CoreError>)
        requires
            old(store).wf(),
            old(store).writers.live().len() < MAX_LIVE,
        ensures
            final(store).wf(),
            if !old(store).sessions.live().contains_key(canonical(self.handle)) {
                &&& r matches Err(e)
                &&& e@ == unknown_handle(self.handle)
                &&& *final(store) == *old(store)
            } else {
                match opened {
                    Ok(_) => writer_given(old(store), final(store), r, now_ms),
                    Err(m) => {
                        &&& r matches Err(e)
                        &&& e@ == (ErrorCode::ConnectionFailed, "open_uni: "@ + m@)
                        &&& *final(store) == *old(store)
                    },
                }
            },
    {
        match self.ready(store) {
            Err(e) => {
                return Err(e);
            },
            Ok(_) => {},
        }
        match opened {
            Ok(_) => store.insert_writer(now_ms),
            Err(m) => Err(op_failed(SessionOp::OpenUni, &m)),
        }
    }

    /// Ends the wait for the peer's next stream that is only read from, given what came
    /// of it. There is none where the connection came to its end.
    pub fn next_uni_stream(
        &self,
        store: &mut HandleStore,
        arrived: Result<(), ConnectionEnd>,
        now_ms: u64,
    ) -> (r: Result<Option<u64>, CoreError>)
        requires
            old(store).wf(),
            old(store).readers.live().len() < MAX_LIVE,
        ensures
            final(store).wf(),
            if !old(store).sessions.live().contains_key(canonical(self.handle)) {
                &&& r matches Err(e)
                &&& e@ == unknown_handle(self.handle)
                &&& *final(store) == *old(store)
            } else {
                match arrived {
                    Ok(_) => match r {
                        Ok(Some(h)) => reader_given(old(store), final(store), Ok(h), now_ms),
                        Ok(None) => false,
                        Err(e) => reader_given(old(store), final(store), Err(e), now_ms),
                    },
                    Err(end) => {
                        &&& *final(store) == *old(store)
                        &&& if end.kind is Other {
                            r matches Err(e) && e@ == (
                                ErrorCode::ConnectionFailed,
                                "accept_uni: "@ + end.text@,
                            )
                        } else {
                            r matches Ok(None)
                        }
                    },
                }
            },
    {
        match self.ready(store) {
            Err(e) => {
                return Err(e);
            },
            Ok(_) => {},
        }
        match arrived {
            Ok(_) => match store.insert_reader(now_ms) {
                Ok(h) => Ok(Some(h)),
                Err(e) => Err(e),
            },
            Err(end) => match wait_ended(SessionOp::AcceptUni, &end) {
                Ok(_) => Ok(None),
                Err(e) => Err(e),
            },
        }
    }

    /// Ends the sending of a datagram, given what came of it.
    pub fn send_datagram(&self, store: &HandleStore, sent: Result<(), DatagramFault>) -> (r: Result<
        (),
        CoreError,
    >)
        ensures
            if !store.sessions.live().contains_key(canonical(self.handle)) {
                r matches Err(e) && e@ == unknown_handle(self.handle)
            } else {
                match sent {
                    Ok(_) => r is Ok,
                    Err(DatagramFault::TooLarge) => r matches Err(e) && e@ == (
                        ErrorCode::BodyTooLarge,
                        "datagram exceeds path MTU; check Session::max_datagram_size()"@,
                    ),
                    Err(DatagramFault::Other(m)) => r matches Err(e) && e@ == (
                        ErrorCode::Internal,
                        "send_datagram: "@ + m@,
                    ),
                }
            },
    {
        match self.ready(store) {
            Err(e) => {
                return Err(e);
            },
            Ok(_) => {},
        }
        match sent {
            Ok(_) => Ok(()),
            Err(fault) => Err(datagram_error(&fault)),
        }
    }

    /// Ends the wait for a datagram, given what came of it. There is none where the
    /// connection came to its end.
    pub fn recv_datagram(&self, store: &HandleStore, arrived: Result<Vec<u8>, ConnectionEnd>) -> (r:
        Result<Option<Vec<u8>>, CoreError>)
        ensures
            if !store.sessions.live().contains_key(canonical(self.handle)) {
                r matches Err(e) && e@ == unknown_handle(self.handle)
            } else {
                match arrived {
                    Ok(data) => r == Ok::<Option<Vec<u8>>, CoreError>(Some(data)),
                    Err(end) => if end.kind is Other {
                        r matches Err(e) && e@ == (
                            ErrorCode::ConnectionFailed,
                            "recv_datagram: "@ + end.text@,
                        )
                    } else {
                        r matches Ok(None)
                    },
                }
            },
    {
        match self.ready(store) {
            Err(e) => {
                return Err(e);
            },
            Ok(_) => {},
        }
        match arrived {
            Ok(data) => Ok(Some(data)),
            Err(end) => match wait_ended(SessionOp::RecvDatagram, &end) {
                Ok(_) => Ok(None),
                Err(e) => Err(e),
            },
        }
    }
}

// ── By handle ────────────────────────────────────────────────────────────────

/// What a close of a session does: the connection is closed with a code and the bytes of
/// a reason, or nothing is closed and an error given back.
pub open spec fn close_outcome(
    live: Map<u64, u64>,
    session_handle: u64,
    code: u32,
    reason: Seq<char>,
) -> Result<(u64, Seq<u8>), ErrorView> {
    if live.contains_key(canonical(session_handle)) {
        Ok((code as u64, vstd::utf8::encode_utf8(reason)))
    } else {
        Err(unknown_handle(session_handle))
    }
}

/// The live sessions after a close.
pub open spec fn after_close(live: Map<u64, u64>, session_handle: u64) -> Map<u64, u64> {
    live.remove(canonical(session_handle))
}

/// Takes a session out at once, for a close that does not wait for its end, and gives
/// what its connection is closed with.
pub fn session_close(
    store: &mut HandleStore,
    session_handle: u64,
    close_code: u32,
    reason: &str,
) -> (r: Result<CloseOrder, CoreError>)
    requires
        old(store).wf(),
    ensures
        final(store).wf(),
        final(store).same_but_sessions(old(store)),
        final(store).sessions.live() == after_close(old(store).sessions.live(), session_handle),
        ({
            let told = close_outcome(
                old(store).sessions.live(),
                session_handle,
                close_code,
                reason@,
            );
            match r {
                Ok(o) => told == Ok::<(u64, Seq<u8>), ErrorView>((o.code, o.reason@)),
                Err(e) => told == Err::<(u64, Seq<u8>), ErrorView>(e@),
            }
        }),
{
    if store.remove_session(session_handle) {
        Ok(CloseOrder { code: close_code as u64, reason: bytes_of(reason) })
    } else {
        Err(CoreError::invalid_handle(session_handle))
    }
}

/// A session is closed once, with the code and the reason of that close: another close of
/// it finds no session and closes nothing. Every other session, to the same peer or not,
/// stays as it was.
pub proof fn a_session_is_closed_once(
    live: Map<u64, u64>,
    handle: u64,
    code: u32,
    reason: Seq<char>,
    code2: u32,
    reason2: Seq<char>,
    other: u64,
)
    requires
        live.contains_key(canonical(handle)),
    ensures
        close_outcome(live, handle, code, reason) == Ok::<(u64, Seq<u8>), ErrorView>(
            (code as u64, vstd::utf8::encode_utf8(reason)),
        ),
        close_outcome(after_close(live, handle), handle, code2, reason2) == Err::<
            (u64, Seq<u8>),
            ErrorView,
        >(unknown_handle(handle)),
        unknown_handle(handle).0 == ErrorCode::InvalidInput,
        canonical(other) != canonical(handle) ==> (after_close(live, handle).contains_key(
            canonical(other),
        ) == live.contains_key(canonical(other)) && close_outcome(
            after_close(live, handle),
            other,
            code2,
            reason2,
        ) == close_outcome(live, other, code2, reason2)),
{
}

/// The largest datagram that a session's path takes, given what the transport says of
/// it: nothing where it takes none.
pub fn session_max_datagram_size(
    store: &HandleStore,
    session_handle: u64,
    path_limit: Option<usize>,
) -> (r: Result<Option<usize>, CoreError>)
    ensures
        match r {
            Ok(n) => store.sessions.live().contains_key(canonical(session_handle)) && n
                == path_limit,
            Err(e) => !store.sessions.live().contains_key(canonical(session_handle)) && e@
                == unknown_handle(session_handle),
        },
{
    match Session::from_handle(session_handle).ready(store) {
        Ok(_) => Ok(path_limit),
        Err(e) => Err(e),
    }
}

// ── Laws ─────────────────────────────────────────────────────────────────────

/// What is told of the end of a connection: the code and the reason that the peer gave, or
/// no code and the transport's words.
pub proof fn ends_are_told(end: ConnectionEnd)
    ensures
        end.kind matches EndKind::ApplicationClosed { code, reason } ==> close_view(end) == (
            code,
            lossy_text(reason@),
        ),
        !(end.kind is ApplicationClosed) ==> close_view(end) == (0u64, end.text@),
{
}

/// What failed is named before the cause.
pub proof fn failed_operations_are_named(code: u64, shown: Seq<char>)
    ensures
        op_prefix(SessionOp::Connect) == "connect session: "@,
        op_prefix(SessionOp::Accept) == "accept session: "@,
        op_prefix(SessionOp::OpenBi) == "open_bi: "@,
        op_prefix(SessionOp::AcceptBi) == "accept_bi: "@,
        op_prefix(SessionOp::OpenUni) == "open_uni: "@,
        op_prefix(SessionOp::AcceptUni) == "accept_uni: "@,
        op_prefix(SessionOp::RecvDatagram) == "recv_datagram: "@,
        bad_close_code(code) == (
            ErrorCode::InvalidInput,
            "close_code "@ + decimal(code as nat) + " exceeds QUIC VarInt max (2^62 - 1)"@,
        ),
        unexpected_alpn(shown) == (
            ErrorCode::ConnectionFailed,
            "accept session: unexpected ALPN "@ + shown,
        ),
{
}

/// A stream that goes both ways is given two handles that were not live before and are
/// then, where both registries have room; else neither registry changes. Nothing else does
/// in any case.
pub proof fn both_handles_or_none(
    before: &HandleStore,
    after: &HandleStore,
    r: Result<FfiDuplexStream, CoreError>,
    now_ms: u64,
)
    requires
        bidi_given(before, after, r, now_ms),
    ensures
        r is Ok <==> before.readers.live().len() < before.config.max_handles
            && before.writers.live().len() < before.config.max_handles,
        r matches Ok(d) ==> {
            &&& d.read_handle != 0 && d.write_handle != 0
            &&& !before.readers.live().contains_key(d.read_handle)
            &&& !before.writers.live().contains_key(d.write_handle)
            &&& after.readers.live() == before.readers.live().insert(d.read_handle, now_ms)
            &&& after.writers.live() == before.writers.live().insert(d.write_handle, now_ms)
        },
        r matches Err(e) ==> {
            &&& e@ == (ErrorCode::Internal, "handle registry at capacity"@)
            &&& after.readers.live() == before.readers.live()
            &&& after.writers.live() == before.writers.live()
        },
        after.sessions == before.sessions,
        after.fetch_cancels == before.fetch_cancels,
        after.pending_readers == before.pending_readers,
        after.request_heads.live() == before.request_heads.live(),
        after.config == before.config,
{
}

/// A stream that goes one way is given one handle that was not live before and is then,
/// where its registry has room; else nothing changes.
pub proof fn one_handle_or_none(
    before: &HandleStore,
    after: &HandleStore,
    r: Result<u64, CoreError>,
    now_ms: u64,
)
    ensures
        reader_given(before, after, r, now_ms) ==> {
            &&& r is Ok <==> before.readers.live().len() < before.config.max_handles
            &&& r matches Ok(h) ==> h != 0 && !before.readers.live().contains_key(h)
                && after.readers.live() == before.readers.live().insert(h, now_ms)
            &&& r matches Err(e) ==> e@ == (ErrorCode::Internal, "handle registry at capacity"@)
                && after.readers == before.readers
            &&& after.writers == before.writers && after.sessions == before.sessions
        },
        writer_given(before, after, r, now_ms) ==> {
            &&& r is Ok <==> before.writers.live().len() < before.config.max_handles
            &&& r matches Ok(h) ==> h != 0 && !before.writers.live().contains_key(h)
                && after.writers.live() == before.writers.live().insert(h, now_ms)
            &&& r matches Err(e) ==> e@ == (ErrorCode::Internal, "handle registry at capacity"@)
                && after.writers == before.writers
            &&& after.readers == before.readers && after.sessions == before.sessions
        },
{
}

} // verus!
