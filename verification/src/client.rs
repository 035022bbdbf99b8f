//! Sending requests: when one may be sent twice, which connection is given up, and
//! how failures are told apart.
use vstd::prelude::*;

use crate::adapter::pairs_view;
use crate::error::{CoreError, ErrorCode, ErrorView};
use crate::handles::HandleStore;
use crate::rules::{check_headers, headers_fault, valid_status, HeadKind};
use crate::session::{bidi_given, wrap_bidi_stream};
use crate::slots::MAX_LIVE;
use crate::text::{
    ascii_lower, chars_of, contains_text, find_text, first_index, first_index_points, first_text,
    holds_text, index_of, piece, to_ascii_lower,
};
use crate::types::FfiDuplexStream;

verus! {

// ── Errors ───────────────────────────────────────────────────────────────────

/// Why a request failed.
#[derive(Debug)]
#[non_exhaustive]
pub enum FetchError {
    /// The connection could not be made, or failed.
    ConnectionFailed { detail: String },
    /// The caller's own request body failed while it was being sent. This says
    /// nothing about the connection.
    RequestBodyFailed { detail: String },
    /// The response head is larger than allowed.
    HeaderTooLarge { detail: String },
    /// The response body is larger than allowed.
    BodyTooLarge,
    /// The response head did not arrive in time.
    Timeout,
    /// The caller called the request off.
    Cancelled,
    /// An unexpected failure.
    Internal(String),
}

/// What a fetch error says.
pub open spec fn fetch_error_text(e: FetchError) -> Seq<char> {
    match e {
        FetchError::ConnectionFailed { detail } => "connection failed: "@ + detail@,
        FetchError::RequestBodyFailed { detail } => "request body failed: "@ + detail@,
        FetchError::HeaderTooLarge { detail } => "response header too large: "@ + detail@,
        FetchError::BodyTooLarge => "response body too large"@,
        FetchError::Timeout => "request timed out"@,
        FetchError::Cancelled => "request cancelled"@,
        FetchError::Internal(m) => "internal error: "@ + m@,
    }
}

fn lead(prefix: &str, rest: &str) -> (r: String)
    ensures
        r@ == prefix@ + rest@,
{
    let mut s: String = String::from_str(prefix);
    s.append(rest);
    s
}

impl FetchError {
    /// What the error says.
    pub fn to_string(&self) -> (r: String)
        ensures
            r@ == fetch_error_text(*self),
    {
        match self {
            FetchError::ConnectionFailed { detail } => lead("connection failed: ", detail),
            FetchError::RequestBodyFailed { detail } => lead("request body failed: ", detail),
            FetchError::HeaderTooLarge { detail } => lead("response header too large: ", detail),
            FetchError::BodyTooLarge => String::from_str("response body too large"),
            FetchError::Timeout => String::from_str("request timed out"),
            FetchError::Cancelled => String::from_str("request cancelled"),
            FetchError::Internal(m) => lead("internal error: ", m),
        }
    }
}

/// Where an attempt to send a request failed.
#[derive(Debug)]
pub enum AttemptFailure {
    /// No connection was had.
    Connect(String),
    /// The connection gave no stream.
    OpenStream(String),
    /// The HTTP handshake failed.
    Handshake(String),
    /// Sending failed. `body` is what the caller's request body said, where that is
    /// what failed.
    Send { cause: String, body: Option<String> },
}

/// The error of a failed attempt, by its kind and detail.
pub open spec fn failure_view(f: AttemptFailure) -> (bool, Seq<char>) {
    match f {
        AttemptFailure::Connect(c) => (false, c@),
        AttemptFailure::OpenStream(c) => (false, "open_bi: "@ + c@),
        AttemptFailure::Handshake(c) => (false, "hyper handshake: "@ + c@),
        AttemptFailure::Send { cause, body } => match body {
            Some(b) => (true, b@),
            None => (false, "send_request: "@ + cause@),
        },
    }
}

/// The error of a failed attempt. What the caller's body did wrong is not held
/// against the connection.
pub fn attempt_error(f: AttemptFailure) -> (r: FetchError)
    ensures
        match r {
            FetchError::ConnectionFailed { detail } => failure_view(f) == (false, detail@),
            FetchError::RequestBodyFailed { detail } => failure_view(f) == (true, detail@),
            _ => false,
        },
{
    match f {
        AttemptFailure::Connect(c) => FetchError::ConnectionFailed { detail: c },
        AttemptFailure::OpenStream(c) => FetchError::ConnectionFailed {
            detail: lead("open_bi: ", &c),
        },
        AttemptFailure::Handshake(c) => FetchError::ConnectionFailed {
            detail: lead("hyper handshake: ", &c),
        },
        AttemptFailure::Send { cause, body } => match body {
            Some(b) => FetchError::RequestBodyFailed { detail: b },
            None => FetchError::ConnectionFailed { detail: lead("send_request: ", &cause) },
        },
    }
}

/// What an HTTP failure means: one that speaks of headers, in any case, is a head
/// that is too large; any other is a failed connection.
pub open spec fn hyper_failure(cause: Seq<char>, context: Seq<char>) -> ErrorView {
    (
        if contains_text(ascii_lower(cause), "header"@) {
            ErrorCode::HeaderTooLarge
        } else {
            ErrorCode::ConnectionFailed
        },
        context + ": "@ + cause,
    )
}

/// Tells a head that is too large from a failed connection.
pub fn classify_hyper_error(cause: &str, context: &str) -> (r: CoreError)
    ensures
        r@ == hyper_failure(cause@, context@),
{
    let mut message: String = String::from_str(context);
    message.append(": ");
    message.append(cause);
    if holds_text(&to_ascii_lower(cause), "header") {
        CoreError { code: ErrorCode::HeaderTooLarge, message }
    } else {
        CoreError { code: ErrorCode::ConnectionFailed, message }
    }
}

// ── Sending twice ────────────────────────────────────────────────────────────

/// Whether a method may be carried out twice with the same result as once.
pub open spec fn idempotent(method: Seq<char>) -> bool {
    method == "GET"@ || method == "HEAD"@ || method == "PUT"@ || method == "DELETE"@ || method
        == "OPTIONS"@ || method == "TRACE"@ || method == "QUERY"@
}

/// `http::Method::is_idempotent`, of the method that `http::Method::from_bytes`
/// reads: true of these seven names, and of no other.
#[verifier::external_body]
pub(crate) fn method_idempotent(method: &str) -> (r: bool)
    ensures
        r == idempotent(method@),
{
    match http::Method::from_bytes(method.as_bytes()) {
        Ok(m) => m.is_idempotent(),
        Err(_) => false,
    }
}

/// What is known of a request before it is sent.
#[derive(Debug, Clone, Copy, PartialEq, Eq, Structural)]
pub struct RequestPlan {
    /// Whether it may be sent a second time: its method is idempotent, and its body
    /// is empty and at its end.
    pub retry_safe: bool,
    /// Whether failures of its body have to be told apart from the connection's.
    pub mark_body: bool,
    /// Whether its body's size is kept secret: a body without data may still yield
    /// trailers or an error, and would otherwise never be asked.
    pub mask_size: bool,
}

/// What is known of a request, from its method and its body.
pub open spec fn request_plan(
    method: Seq<char>,
    body_at_end: bool,
    body_size: Option<u64>,
) -> RequestPlan {
    RequestPlan {
        retry_safe: body_at_end && body_size == Some(0u64) && idempotent(method),
        mark_body: !body_at_end,
        mask_size: !body_at_end && body_size == Some(0u64),
    }
}

/// Says what is known of a request from its method, from whether its body is at
/// its end, and from the body's exact size, where that is known.
pub fn plan_request(method: &str, body_at_end: bool, body_size: Option<u64>) -> (r: RequestPlan)
    ensures
        r == request_plan(method@, body_at_end, body_size),
{
    let empty: bool = match body_size {
        Some(n) => n == 0,
        None => false,
    };
    let safe: bool = method_idempotent(method);
    RequestPlan {
        retry_safe: body_at_end && empty && safe,
        mark_body: !body_at_end,
        mask_size: !body_at_end && empty,
    }
}

/// How an attempt ended.
#[derive(Debug, Clone, Copy, PartialEq, Eq, Structural)]
pub enum AttemptEnd {
    /// A response head came.
    Answered,
    /// The connection failed.
    ConnectionFailed,
    /// Something else failed.
    OtherFailure,
}

/// What is done to a pooled connection: it is taken out of the pool and closed, if
/// it is the one that was dialled under this number.
#[derive(Debug, Clone, Copy)]
pub struct Eviction {
    pub reason: &'static str,
    pub dial_seq: Option<u64>,
}

/// What follows an attempt.
#[derive(Debug, Clone, Copy, PartialEq, Eq, Structural)]
pub enum AfterAttempt {
    /// The response is given back.
    Succeed,
    /// The error is given back.
    Fail,
    /// The request is sent once more, on another connection.
    Retry,
}

/// How far a fetch has come.
#[derive(Debug, Clone, Copy, PartialEq, Eq, Structural)]
pub struct FetchProgress {
    pub retry_safe: bool,
    /// Whether the attempt under way is the second.
    pub retrying: bool,
    /// The number of the connection that the last attempt used, if it had one.
    pub last_dial_seq: Option<u64>,
}

/// What follows an attempt that ended so.
pub open spec fn after_attempt(p: FetchProgress, reused: bool, end: AttemptEnd) -> AfterAttempt {
    match end {
        AttemptEnd::Answered => AfterAttempt::Succeed,
        AttemptEnd::OtherFailure => AfterAttempt::Fail,
        AttemptEnd::ConnectionFailed => if !p.retrying && reused && p.retry_safe {
            AfterAttempt::Retry
        } else {
            AfterAttempt::Fail
        },
    }
}

impl FetchProgress {
    /// A fetch that has sent nothing.
    pub fn new(plan: RequestPlan) -> (r: Self)
        ensures
            r.retry_safe == plan.retry_safe,
            !r.retrying,
            r.last_dial_seq is None,
    {
        FetchProgress { retry_safe: plan.retry_safe, retrying: false, last_dial_seq: None }
    }

    /// Notes the connection that the attempt uses, or that it has none. What is
    /// evicted later is this connection only, never one that another request has
    /// dialled since.
    pub fn record_connection(&mut self, dial_seq: Option<u64>)
        ensures
            *final(self) == (FetchProgress { last_dial_seq: dial_seq, ..*old(self) }),
    {
        self.last_dial_seq = dial_seq;
    }

    /// Decides what follows an attempt on a connection that was taken from the pool
    /// (`reused`) or dialled for it. A failed connection is evicted. The request is
    /// sent once more only if the connection was an old one, the request is safe to
    /// repeat, and this was the first attempt: a connection that was just dialled
    /// would only fail again, and any other request might be carried out twice.
    pub fn on_attempt(&mut self, reused: bool, end: AttemptEnd) -> (r: (
        Option<Eviction>,
        AfterAttempt,
    ))
        ensures
            r.1 == after_attempt(*old(self), reused, end),
            r.0 is Some <==> end == AttemptEnd::ConnectionFailed,
            r.0 matches Some(e) ==> e.dial_seq == old(self).last_dial_seq && e.reason@ == (
            if old(self).retrying {
                "iroh-http fetch retry failed"@
            } else {
                "iroh-http fetch failed"@
            }),
            *final(self) == (FetchProgress {
                retrying: old(self).retrying || r.1 == AfterAttempt::Retry,
                ..*old(self)
            }),
    {
        match end {
            AttemptEnd::Answered => (None, AfterAttempt::Succeed),
            AttemptEnd::OtherFailure => (None, AfterAttempt::Fail),
            AttemptEnd::ConnectionFailed => {
                let reason: &'static str = if self.retrying {
                    "iroh-http fetch retry failed"
                } else {
                    "iroh-http fetch failed"
                };
                let eviction = Eviction { reason, dial_seq: self.last_dial_seq };
                if !self.retrying && reused && self.retry_safe {
                    self.retrying = true;
                    (Some(eviction), AfterAttempt::Retry)
                } else {
                    (Some(eviction), AfterAttempt::Fail)
                }
            },
        }
    }

    /// Decides what a fetch that took too long does: the connection of this number
    /// leaves the pool, but is not closed, for other requests may still be using it.
    pub fn on_timeout(&self) -> (r: (Option<u64>, FetchError))
        ensures
            r.0 == self.last_dial_seq,
            r.1 is Timeout,
    {
        (self.last_dial_seq, FetchError::Timeout)
    }
}

/// How often a request is sent when its attempts end so: each entry says whether
/// the connection was reused, and how the attempt ended.
pub open spec fn sends(retry_safe: bool, retrying: bool, ends: Seq<(bool, AttemptEnd)>) -> nat
    decreases ends.len(),
{
    if ends.len() == 0 {
        0
    } else {
        let p = FetchProgress { retry_safe, retrying, last_dial_seq: None };
        if after_attempt(p, ends[0].0, ends[0].1) == AfterAttempt::Retry {
            1 + sends(retry_safe, true, ends.drop_first())
        } else {
            1
        }
    }
}

/// However its attempts end, a request is sent at most twice, and at most once
/// unless its method is idempotent and its body empty. A second sending follows
/// only on a failed connection that was taken from the pool.
pub proof fn unsafe_requests_are_sent_once(
    method: Seq<char>,
    body_at_end: bool,
    body_size: Option<u64>,
    ends: Seq<(bool, AttemptEnd)>,
)
    ensures
        ({
            let safe = request_plan(method, body_at_end, body_size).retry_safe;
            &&& sends(safe, false, ends) <= 2
            &&& !idempotent(method) || !body_at_end || body_size != Some(0u64) ==> sends(
                safe,
                false,
                ends,
            ) <= 1
            &&& sends(safe, false, ends) > 1 ==> ends[0] == (true, AttemptEnd::ConnectionFailed)
        }),
{
    reveal_with_fuel(sends, 3);
}

// ── Request targets ──────────────────────────────────────────────────────────

/// A URL without its fragment.
pub open spec fn without_fragment(url: Seq<char>) -> Seq<char> {
    url.take(first_index(url, '#'))
}

/// The request target that follows the authority of a URL: from its first slash on;
/// else from its first question mark on, behind a slash; else a slash.
pub open spec fn after_authority(rest: Seq<char>) -> Seq<char> {
    if first_index(rest, '/') < rest.len() {
        rest.skip(first_index(rest, '/'))
    } else if first_index(rest, '?') < rest.len() {
        "/"@ + rest.skip(first_index(rest, '?'))
    } else {
        "/"@
    }
}

/// The request target of a URL with or without a scheme.
pub open spec fn request_target(url: Seq<char>) -> Seq<char> {
    let bare = without_fragment(url);
    match first_text(bare, "://"@) {
        Some(i) => after_authority(bare.skip(i + 3)),
        None => if bare.len() > 0 && bare[0] == '/' {
            bare
        } else {
            "/"@ + bare
        },
    }
}

/// The request target that follows the authority of a URL.
pub(crate) fn target_after_authority(rest: &str) -> (r: String)
    ensures
        r@ == after_authority(rest@),
{
    let w: Vec<char> = chars_of(rest);
    let slash: usize = index_of(&w, '/');
    if slash < w.len() {
        let r: String = piece(&w, slash, w.len());
        proof {
            assert(r@ =~= rest@.skip(slash as int));
        }
        return r;
    }
    let q: usize = index_of(&w, '?');
    if q < w.len() {
        let tail: String = piece(&w, q, w.len());
        proof {
            assert(tail@ =~= rest@.skip(q as int));
        }
        return lead("/", &tail);
    }
    String::from_str("/")
}

/// The request target of a URL. The fragment is for the client only and never
/// becomes part of it.
pub fn extract_path(url: &str) -> (r: String)
    ensures
        r@ == request_target(url@),
{
    let all: Vec<char> = chars_of(url);
    let end: usize = index_of(&all, '#');
    let bare: String = piece(&all, 0, end);
    proof {
        assert(bare@ =~= without_fragment(url@));
    }
    let v: Vec<char> = chars_of(&bare);
    let mark: Vec<char> = chars_of("://");
    match find_text(&v, &mark) {
        Some(i) => {
            proof {
                reveal_strlit("://");
            }
            let start: usize = i + 3;
            let rest: String = piece(&v, start, v.len());
            proof {
                assert(rest@ =~= bare@.skip(i + 3));
            }
            target_after_authority(&rest)
        },
        None => if v.len() > 0 && v[0] == '/' {
            bare
        } else {
            lead("/", &bare)
        },
    }
}

/// Whether a text begins with a slash and holds no number sign.
pub open spec fn clean_target(s: Seq<char>) -> bool {
    s.len() > 0 && s[0] == '/' && forall|i: int| 0 <= i < s.len() ==> #[trigger] s[i] != '#'
}

pub(crate) proof fn clean_after_authority(rest: Seq<char>)
    requires
        forall|i: int| 0 <= i < rest.len() ==> #[trigger] rest[i] != '#',
    ensures
        clean_target(after_authority(rest)),
{
    reveal_strlit("/");
    first_index_points(rest, '/');
    first_index_points(rest, '?');
    let slash = first_index(rest, '/');
    let q = first_index(rest, '?');
    let target = after_authority(rest);
    assert forall|i: int| 0 <= i < target.len() implies #[trigger] target[i] != '#' by {
        if slash < rest.len() {
            assert(target[i] == rest[i + slash]);
        } else if q < rest.len() && i > 0 {
            assert(target[i] == rest[i - 1 + q]);
        }
    }
}

/// A request target begins with a slash and holds no fragment.
pub proof fn target_has_no_fragment(url: Seq<char>)
    ensures
        clean_target(request_target(url)),
{
    let bare = without_fragment(url);
    first_index_points(url, '#');
    assert forall|i: int| 0 <= i < bare.len() implies #[trigger] bare[i] != '#' by {
        assert(url[i] == bare[i]);
    }
    match first_text(bare, "://"@) {
        Some(k) => {
            crate::text::first_text_stands(bare, "://"@);
            reveal_strlit("://");
            let rest = bare.skip(k + 3);
            assert forall|i: int| 0 <= i < rest.len() implies #[trigger] rest[i] != '#' by {
                assert(bare[i + k + 3] == rest[i]);
            }
            clean_after_authority(rest);
        },
        None => {
            if !(bare.len() > 0 && bare[0] == '/') {
                reveal_strlit("/");
                let target = "/"@ + bare;
                assert forall|i: int| 0 <= i < target.len() implies #[trigger] target[i] != '#' by {
                    if i > 0 {
                        assert(target[i] == bare[i - 1]);
                    }
                }
            }
        },
    }
}

// ── Responses ────────────────────────────────────────────────────────────────

/// Whether responses with this status have no body.
pub open spec fn null_body(status: u16) -> bool {
    status == 204 || status == 205 || status == 304
}

/// Whether responses with this status have no body.
pub fn is_null_body_status(status: u16) -> (r: bool)
    ensures
        r == null_body(status),
        r == (status == 204 || status == 205 || status == 304),
{
    status == 204 || status == 205 || status == 304
}

/// The number of headers that a response head may have.
pub const MAX_RESPONSE_HEADERS: usize = 128;

/// The buffer that a response head must fit in: at least 8 KiB, the least that the
/// reader works with.
pub fn client_buffer_size(max_header_size: usize) -> (r: usize)
    ensures
        r == (if max_header_size < 8192 {
            8192
        } else {
            max_header_size
        }),
{
    if max_header_size < 8192 {
        8192
    } else {
        max_header_size
    }
}

// ── Duplex streams ───────────────────────────────────────────────────────────

/// The headers of a request for a duplex stream.
pub open spec fn duplex_headers(headers: Seq<(Seq<char>, Seq<char>)>) -> Seq<
    (Seq<char>, Seq<char>),
> {
    seq![("connection"@, "upgrade"@), ("upgrade"@, "iroh-duplex"@)] + headers
}

/// Checks the caller's headers and makes those of a request for a duplex stream,
/// which goes out with the method `CONNECT`.
pub fn duplex_request(headers: &[(String, String)]) -> (r: Result<
    Vec<(String, String)>,
    CoreError,
>)
    ensures
        match r {
            Ok(h) => headers_fault(HeadKind::Request, pairs_view(headers@)) is None && pairs_view(
                h@,
            ) == duplex_headers(pairs_view(headers@)),
            Err(e) => headers_fault(HeadKind::Request, pairs_view(headers@)) == Some(e@),
        },
{
    match check_headers(HeadKind::Request, headers) {
        Err(e) => {
            return Err(e);
        },
        Ok(_) => {},
    }
    let mut out: Vec<(String, String)> = Vec::new();
    out.push((String::from_str("connection"), String::from_str("upgrade")));
    out.push((String::from_str("upgrade"), String::from_str("iroh-duplex")));
    let ghost all = pairs_view(headers@);
    proof {
        assert(pairs_view(out@) =~= duplex_headers(all.take(0)));
    }
    let mut i: usize = 0;
    while i < headers.len()
        invariant
            i <= headers@.len(),
            all == pairs_view(headers@),
            pairs_view(out@) == duplex_headers(all.take(i as int)),
        decreases headers@.len() - i,
    {
        let ghost before = out@;
        out.push((headers[i].0.clone(), headers[i].1.clone()));
        proof {
            assert(pairs_view(out@) =~= pairs_view(before).push(all[i as int]));
            assert(pairs_view(out@) =~= duplex_headers(all.take(i + 1)));
        }
        i = i + 1;
    }
    proof {
        assert(all.take(i as int) =~= all);
    }
    Ok(out)
}

/// A status code with its reason phrase.
pub uninterp spec fn status_line(status: u16) -> Seq<char>;

/// `http::StatusCode`'s `Display`, of the code that `http::StatusCode::from_u16`
/// reads.
#[verifier::external_body]
pub(crate) fn status_text(status: u16) -> (r: String)
    requires
        valid_status(status),
    ensures
        r@ == status_line(status),
{
    match http::StatusCode::from_u16(status) {
        Ok(s) => s.to_string(),
        Err(e) => e.to_string(),
    }
}

/// What a peer's answer to a request for a duplex stream means, given the text of
/// its status: any but 101 is a refusal.
pub fn duplex_answer(status: u16, text: &str) -> (r: Result<(), CoreError>)
    ensures
        match r {
            Ok(_) => status == 101,
            Err(e) => status != 101 && e@ == (
                ErrorCode::PeerRejected,
                "server rejected duplex: expected 101, got "@ + text@,
            ),
        },
{
    if status == 101 {
        Ok(())
    } else {
        Err(
            CoreError {
                code: ErrorCode::PeerRejected,
                message: lead("server rejected duplex: expected 101, got ", text),
            },
        )
    }
}

/// What a peer's answer to a request for a duplex stream means.
pub fn check_duplex_answer(status: u16) -> (r: Result<(), CoreError>)
    requires
        valid_status(status),
    ensures
        match r {
            Ok(_) => status == 101,
            Err(e) => status != 101 && e@ == (
                ErrorCode::PeerRejected,
                "server rejected duplex: expected 101, got "@ + status_line(status),
            ),
        },
{
    let text = status_text(status);
    duplex_answer(status, &text)
}

/// Gives out the two handles of a duplex stream: one to read what the peer sends,
/// and one to write to it. Where one of the registries is full, neither stays.
pub fn open_duplex(store: &mut HandleStore, now_ms: u64) -> (r: Result<
    FfiDuplexStream,
    CoreError,
>)
    requires
        old(store).wf(),
        old(store).readers.live().len() < MAX_LIVE,
        old(store).writers.live().len() < MAX_LIVE,
    ensures
        final(store).wf(),
        r is Ok <==> old(store).readers.live().len() < old(store).config.max_handles && old(
            store).writers.live().len() < old(store).config.max_handles,
        bidi_given(old(store), final(store), r, now_ms),
        r is Err ==> final(store).guarded() == old(store).guarded(),
{
    wrap_bidi_stream(store, now_ms)
}

// ── Laws ─────────────────────────────────────────────────────────────────────

/// Answers with status 204, 205 and 304 have no body, and no others: errors have theirs.
pub proof fn three_statuses_have_no_body(status: u16)
    ensures
        null_body(status) <==> status == 204 || status == 205 || status == 304,
        status >= 400 ==> !null_body(status),
        status < 204 ==> !null_body(status),
{
}

/// The methods that may be repeated, and no others.
pub proof fn repeatable_methods(method: Seq<char>)
    ensures
        idempotent(method) <==> {
            ||| method == "GET"@ || method == "HEAD"@ || method == "OPTIONS"@ || method == "TRACE"@
            ||| method == "PUT"@ || method == "DELETE"@ || method == "QUERY"@
        },
        !idempotent("POST"@),
        !idempotent("PATCH"@),
        !idempotent("CONNECT"@),
{
    reveal_strlit("GET");
    reveal_strlit("HEAD");
    reveal_strlit("OPTIONS");
    reveal_strlit("TRACE");
    reveal_strlit("PUT");
    reveal_strlit("DELETE");
    reveal_strlit("QUERY");
    reveal_strlit("POST");
    reveal_strlit("PATCH");
    reveal_strlit("CONNECT");
    assert("POST"@[0] == 'P' && "POST"@.len() == 4 && "PUT"@.len() == 3 && "HEAD"@[0] == 'H');
    assert("PATCH"@[0] == 'P' && "PATCH"@.len() == 5 && "TRACE"@[0] == 'T' && "QUERY"@[0] == 'Q');
    assert("CONNECT"@[0] == 'C' && "CONNECT"@.len() == 7 && "OPTIONS"@[0] == 'O');
}

/// A request is safe to send again exactly where its method may be repeated and its body
/// is empty and at its end. A body that is not at its end is watched, and one that says it
/// is empty all the same does not tell its size.
pub proof fn what_is_known_of_a_request(method: Seq<char>, at_end: bool, size: Option<u64>)
    ensures
        ({
            let p = request_plan(method, at_end, size);
            &&& p.retry_safe <==> idempotent(method) && at_end && size == Some(0u64)
            &&& p.mark_body <==> !at_end
            &&& p.mask_size <==> !at_end && size == Some(0u64)
        }),
{
}

/// A request that is safe to send again is, where the first attempt failed on a connection
/// that was taken from the pool. Every request is sent once.
pub proof fn safe_requests_are_sent_again(retry_safe: bool, ends: Seq<(bool, AttemptEnd)>)
    requires
        ends.len() > 0,
    ensures
        sends(retry_safe, false, ends) >= 1,
        retry_safe && ends.len() > 1 && ends[0] == (true, AttemptEnd::ConnectionFailed) ==> sends(
            retry_safe,
            false,
            ends,
        ) == 2,
{
    reveal_with_fuel(sends, 3);
}

/// An answer ends a fetch well, whichever attempt it came on, and nothing else does; what
/// is no failure of the connection ends it badly at once.
pub proof fn answers_succeed(p: FetchProgress, reused: bool, end: AttemptEnd)
    ensures
        after_attempt(p, reused, end) == AfterAttempt::Succeed <==> end == AttemptEnd::Answered,
        end == AttemptEnd::OtherFailure ==> after_attempt(p, reused, end) == AfterAttempt::Fail,
        end == AttemptEnd::ConnectionFailed ==> (after_attempt(p, reused, end)
            == AfterAttempt::Retry <==> p.retry_safe && reused && !p.retrying),
{
}

/// A URL without its fragment ends before the first number sign.
pub proof fn fragments_are_cut(url: Seq<char>, fragment: Seq<char>)
    requires
        forall|i: int| 0 <= i < url.len() ==> #[trigger] url[i] != '#',
    ensures
        without_fragment(url) == url,
        without_fragment(url + seq!['#'] + fragment) == url,
{
    first_index_points(url, '#');
    assert(url.take(url.len() as int) =~= url);
    let all = url + seq!['#'] + fragment;
    first_index_points(all, '#');
    let k = first_index(all, '#');
    assert(all[url.len() as int] == '#');
    if k < url.len() {
        assert(all[k] == url[k]);
    }
    assert(all.take(k) =~= url);
}

/// What follows the host of a URL is its target: the path, with a slash before a query that
/// stands alone, and a slash where nothing follows.
pub proof fn targets_follow_the_host(host: Seq<char>, tail: Seq<char>)
    requires
        forall|i: int| 0 <= i < host.len() ==> #[trigger] host[i] != '/' && host[i] != '?',
        tail.len() > 0 ==> tail[0] == '/' || tail[0] == '?',
    ensures
        tail.len() == 0 ==> after_authority(host + tail) == seq!['/'],
        tail.len() > 0 && tail[0] == '/' ==> after_authority(host + tail) == tail,
        tail.len() > 0 && (forall|i: int| 0 <= i < tail.len() ==> #[trigger] tail[i] != '/')
            ==> after_authority(host + tail) == seq!['/'] + tail,
{
    reveal_strlit("/");
    let all = host + tail;
    let n = host.len() as int;
    first_index_points(all, '/');
    first_index_points(all, '?');
    assert("/"@ =~= seq!['/']);
    assert forall|i: int| 0 <= i < n implies #[trigger] all[i] != '/' && all[i] != '?' by {
        assert(all[i] == host[i]);
    }
    if tail.len() > 0 {
        assert(all[n] == tail[0]);
        assert(all.skip(n) =~= tail);
        if tail[0] == '/' {
            assert(first_index(all, '/') == n);
        }
        if forall|i: int| 0 <= i < tail.len() ==> #[trigger] tail[i] != '/' {
            if first_index(all, '/') < all.len() {
                let k = first_index(all, '/');
                assert(all[k] == tail[k - n]);
            }
            assert(first_index(all, '?') == n);
        }
    }
}

/// The target of a URL with a scheme is what follows its host, up to its fragment.
pub proof fn schemes_are_left_out(scheme: Seq<char>, rest: Seq<char>)
    requires
        forall|i: int| 0 <= i < scheme.len() ==> #[trigger] scheme[i] != ':' && scheme[i] != '#',
        forall|i: int| 0 <= i < rest.len() ==> #[trigger] rest[i] != '#',
    ensures
        request_target(scheme + "://"@ + rest) == after_authority(rest),
{
    reveal_strlit("://");
    let all = scheme + "://"@ + rest;
    let n = scheme.len() as int;
    assert forall|i: int| 0 <= i < all.len() implies #[trigger] all[i] != '#' by {
        if i < n {
            assert(all[i] == scheme[i]);
        } else if i >= n + 3 {
            assert(all[i] == rest[i - n - 3]);
        }
    }
    fragments_are_cut(all, Seq::empty());
    crate::text::texts_are_found(scheme, "://"@, rest);
    let f = first_text(all, "://"@)->Some_0;
    if f < n {
        assert(all.subrange(f, f + 3)[0] == all[f]);
        assert(all[f] == scheme[f]);
    }
    assert(all.skip(n + 3) =~= rest);
}

/// A text without a scheme is a target itself, with a slash before it where it has none.
pub proof fn bare_paths_are_targets(path: Seq<char>)
    requires
        forall|i: int| 0 <= i < path.len() ==> #[trigger] path[i] != '#',
        forall|i: int| 0 <= i && i + 3 <= path.len() ==> #[trigger] path.subrange(i, i + 3) != "://"@,
    ensures
        path.len() > 0 && path[0] == '/' ==> request_target(path) == path,
        path.len() == 0 || path[0] != '/' ==> request_target(path) == seq!['/'] + path,
{
    reveal_strlit("://");
    reveal_strlit("/");
    fragments_are_cut(path, Seq::empty());
    crate::text::nothing_else_is_found(path, "://"@);
    assert("/"@ =~= seq!['/']);
}

/// A request for a duplex stream carries the two headers that ask for it, and then every
/// header of the caller in order.
pub proof fn duplex_requests_keep_the_headers(headers: Seq<(Seq<char>, Seq<char>)>)
    ensures
        duplex_headers(headers).len() == headers.len() + 2,
        duplex_headers(headers)[0] == ("connection"@, "upgrade"@),
        duplex_headers(headers)[1] == ("upgrade"@, "iroh-duplex"@),
        forall|i: int| 0 <= i < headers.len() ==> duplex_headers(headers)[i + 2] == #[trigger] headers[i],
{
}

/// What is said of a failed attempt: the failure of the caller's own body is told apart
/// from those of the connection, and each is told in its own words.
pub proof fn failures_keep_their_cause(cause: String, body: String)
    ensures
        failure_view(AttemptFailure::Connect(cause)) == (false, cause@),
        failure_view(AttemptFailure::OpenStream(cause)) == (false, "open_bi: "@ + cause@),
        failure_view(AttemptFailure::Handshake(cause)) == (false, "hyper handshake: "@ + cause@),
        failure_view(AttemptFailure::Send { cause, body: Some(body) }) == (true, body@),
        failure_view(AttemptFailure::Send { cause, body: None }) == (
            false,
            "send_request: "@ + cause@,
        ),
        fetch_error_text(FetchError::ConnectionFailed { detail: cause }) == "connection failed: "@
            + cause@,
        fetch_error_text(FetchError::RequestBodyFailed { detail: cause }) == "request body failed: "@
            + cause@,
        fetch_error_text(FetchError::HeaderTooLarge { detail: cause })
            == "response header too large: "@ + cause@,
        fetch_error_text(FetchError::BodyTooLarge) == "response body too large"@,
        fetch_error_text(FetchError::Timeout) == "request timed out"@,
        fetch_error_text(FetchError::Cancelled) == "request cancelled"@,
        fetch_error_text(FetchError::Internal(cause)) == "internal error: "@ + cause@,
{
}

/// A failure that speaks of a header is one of a head that is too large, in whatever case
/// it speaks; every other one is the connection's.
pub proof fn header_failures_are_told_apart(cause: Seq<char>, context: Seq<char>)
    ensures
        hyper_failure(cause, context).1 == context + ": "@ + cause,
        hyper_failure(cause, context).0 == (if exists|i: int|
            0 <= i && i + 6 <= cause.len() && crate::text::same_ignoring_case(
                #[trigger] cause.subrange(i, i + 6),
                "header"@,
            ) {
            ErrorCode::HeaderTooLarge
        } else {
            ErrorCode::ConnectionFailed
        }),
{
    reveal_strlit("header");
    let l = ascii_lower(cause);
    let w = "header"@;
    assert(ascii_lower(w) =~= w);
    if contains_text(l, w) {
        let i = choose|i: int| #[trigger] crate::text::stands_at(l, w, i);
        assert(ascii_lower(cause.subrange(i, i + 6)) =~= l.subrange(i, i + 6));
    }
    if exists|i: int|
        0 <= i && i + 6 <= cause.len() && crate::text::same_ignoring_case(
            #[trigger] cause.subrange(i, i + 6),
            w,
        ) {
        let i = choose|i: int|
            0 <= i && i + 6 <= cause.len() && crate::text::same_ignoring_case(
                #[trigger] cause.subrange(i, i + 6),
                w,
            );
        assert(ascii_lower(cause.subrange(i, i + 6)) =~= l.subrange(i, i + 6));
        assert(crate::text::stands_at(l, w, i));
    }
}

} // verus!
