//! Fetching for foreign-language callers: flat strings in, a flat response head
//! and a body handle out.
use vstd::prelude::*;

use crate::adapter::pairs_view;
use crate::client::{
    after_authority, clean_after_authority, is_null_body_status, null_body, target_after_authority,
    without_fragment, FetchError,
};
use crate::dispatch::{capped, raw_view, RawHeader};
use crate::encoding::{base32_encode, base32_text, NodeId};
use crate::error::{CoreError, ErrorCode, ErrorView};
use crate::handles::HandleStore;
use crate::rules::{
    ascii_text, bad_method, check_headers, check_method, headers_fault, valid_method, visible,
    visible_text, HeadKind,
};
use crate::serve_slot::{ServeSlot, ServeToken};
use crate::slots::{canonical, well_formed_handle, MAX_LIVE};
use crate::stack::StackConfig;
use crate::text::{
    append_decimal, ascii_lower, begins_with, byte_count, byte_len, chars_of, decimal,
    eq_ignore_case, first_index_points, has_prefix, index_of, piece, same, same_ignoring_case,
    to_ascii_lower,
};
use crate::types::FfiResponse;

verus! {

// ── What is refused before anything is sent ──────────────────────────────────

/// The length of the web scheme that a URL has, in any case, if it has one.
pub open spec fn web_scheme(url: Seq<char>) -> Option<int> {
    if begins_with(ascii_lower(url), "https://"@) {
        Some(8)
    } else if begins_with(ascii_lower(url), "http://"@) {
        Some(7)
    } else {
        None
    }
}

/// What is said of a URL with a web scheme.
pub open spec fn wrong_scheme(url: Seq<char>, len: int) -> ErrorView {
    (
        ErrorCode::InvalidInput,
        "iroh-http URLs must use the \"httpi://\" scheme, not \""@ + url.take(len)
            + "\". Example: httpi://nodeId/path"@,
    )
}

/// Refuses URLs with a web scheme.
pub fn check_scheme(url: &str) -> (r: Result<(), CoreError>)
    ensures
        match r {
            Ok(_) => web_scheme(url@) is None,
            Err(e) => web_scheme(url@) is Some && e@ == wrong_scheme(
                url@,
                web_scheme(url@)->Some_0,
            ),
        },
{
    let lower: String = to_ascii_lower(url);
    let len: usize = if has_prefix(&lower, "https://") {
        proof {
            reveal_strlit("https://");
        }
        8
    } else if has_prefix(&lower, "http://") {
        proof {
            reveal_strlit("http://");
        }
        7
    } else {
        return Ok(());
    };
    let v: Vec<char> = chars_of(url);
    proof {
        assert(ascii_lower(url@).len() == url@.len());
        assert(url@.len() >= len);
    }
    let scheme: String = piece(&v, 0, len);
    proof {
        assert(scheme@ =~= url@.take(len as int));
    }
    let mut s: String = String::from_str("iroh-http URLs must use the \"httpi://\" scheme, not \"");
    s.append(&scheme);
    s.append("\". Example: httpi://nodeId/path");
    Err(CoreError { code: ErrorCode::InvalidInput, message: s })
}

/// What is wrong with a request, if anything is: its URL first, then its method,
/// then its headers.
pub open spec fn request_fault(
    url: Seq<char>,
    method: Seq<char>,
    headers: Seq<(Seq<char>, Seq<char>)>,
) -> Option<ErrorView> {
    if web_scheme(url) is Some {
        Some(wrong_scheme(url, web_scheme(url)->Some_0))
    } else if !valid_method(vstd::utf8::encode_utf8(method)) {
        Some(bad_method(method))
    } else {
        headers_fault(HeadKind::Request, headers)
    }
}

/// Checks a request before its address is looked at.
pub fn check_request(url: &str, method: &str, headers: &[(String, String)]) -> (r: Result<
    (),
    CoreError,
>)
    ensures
        match r {
            Ok(_) => request_fault(url@, method@, pairs_view(headers@)) is None,
            Err(e) => request_fault(url@, method@, pairs_view(headers@)) == Some(e@),
        },
{
    match check_scheme(url) {
        Err(e) => {
            return Err(e);
        },
        Ok(_) => {},
    }
    match check_method(method) {
        Err(e) => {
            return Err(e);
        },
        Ok(_) => {},
    }
    check_headers(HeadKind::Request, headers)
}

// ── The request ──────────────────────────────────────────────────────────────

/// The request target of an `httpi://` URL, or of a path.
pub open spec fn httpi_target(url: Seq<char>) -> Seq<char> {
    let bare = without_fragment(url);
    if begins_with(bare, "httpi://"@) {
        after_authority(bare.skip(8))
    } else if bare.len() > 0 && bare[0] == '/' {
        bare
    } else {
        "/"@ + bare
    }
}

/// The request target of an `httpi://` URL, or of a path. The fragment is for the
/// client only and never becomes part of it.
pub fn extract_path(url: &str) -> (r: String)
    ensures
        r@ == httpi_target(url@),
{
    let all: Vec<char> = chars_of(url);
    let end: usize = index_of(&all, '#');
    let bare: String = piece(&all, 0, end);
    proof {
        assert(bare@ =~= without_fragment(url@));
    }
    let v: Vec<char> = chars_of(&bare);
    if has_prefix(&bare, "httpi://") {
        proof {
            reveal_strlit("httpi://");
        }
        let rest: String = piece(&v, 8, v.len());
        proof {
            assert(rest@ =~= bare@.skip(8));
        }
        return target_after_authority(&rest);
    }
    if v.len() > 0 && v[0] == '/' {
        return bare;
    }
    let mut s: String = String::from_str("/");
    s.append(&bare);
    s
}

/// The request target that a peer is sent begins with a slash and holds no
/// fragment.
pub proof fn fragment_stays_local(url: Seq<char>)
    ensures
        crate::client::clean_target(httpi_target(url)),
{
    let bare = without_fragment(url);
    first_index_points(url, '#');
    assert forall|i: int| 0 <= i < bare.len() implies #[trigger] bare[i] != '#' by {
        assert(url[i] == bare[i]);
    }
    reveal_strlit("/");
    if begins_with(bare, "httpi://"@) {
        reveal_strlit("httpi://");
        let rest = bare.skip(8);
        assert forall|i: int| 0 <= i < rest.len() implies #[trigger] rest[i] != '#' by {
            assert(rest[i] == bare[i + 8]);
        }
        clean_after_authority(rest);
    } else if !(bare.len() > 0 && bare[0] == '/') {
        let target = "/"@ + bare;
        assert forall|i: int| 0 <= i < target.len() implies #[trigger] target[i] != '#' by {
            if i > 0 {
                assert(target[i] == bare[i - 1]);
            }
        }
    }
}

/// Whether a header of this name is there.
pub open spec fn has_header(headers: Seq<(Seq<char>, Seq<char>)>, name: Seq<char>) -> bool {
    exists|i: int|
        0 <= i < headers.len() && same_ignoring_case((#[trigger] headers[i]).0, name)
}

/// The headers that go out: the host, an offer to take zstd unless the caller has
/// said what it takes, and the caller's own.
pub open spec fn outgoing_headers(
    remote: Seq<char>,
    headers: Seq<(Seq<char>, Seq<char>)>,
) -> Seq<(Seq<char>, Seq<char>)> {
    seq![("host"@, remote)] + (if has_header(headers, "accept-encoding"@) {
        Seq::<(Seq<char>, Seq<char>)>::empty()
    } else {
        seq![("accept-encoding"@, "zstd"@)]
    }) + headers
}

/// Makes the headers that go out.
pub fn build_headers(remote: &str, headers: &[(String, String)]) -> (r: Vec<(String, String)>)
    ensures
        pairs_view(r@) == outgoing_headers(remote@, pairs_view(headers@)),
{
    let ghost all = pairs_view(headers@);
    let mut named: bool = false;
    let mut i: usize = 0;
    while i < headers.len()
        invariant
            i <= headers@.len(),
            all == pairs_view(headers@),
            named == (exists|j: int|
                0 <= j < i && same_ignoring_case((#[trigger] all[j]).0, "accept-encoding"@)),
        decreases headers@.len() - i,
    {
        proof {
            assert(all[i as int].0 == headers@[i as int].0@);
        }
        if eq_ignore_case(&headers[i].0, "accept-encoding") {
            named = true;
        }
        i = i + 1;
    }
    let mut out: Vec<(String, String)> = Vec::new();
    out.push((String::from_str("host"), remote.to_owned()));
    if !named {
        out.push((String::from_str("accept-encoding"), String::from_str("zstd")));
    }
    let ghost first = pairs_view(out@);
    proof {
        assert(named == has_header(all, "accept-encoding"@));
        assert(first + all.take(0) =~= first);
        assert(first + all =~= outgoing_headers(remote@, all));
    }
    let mut k: usize = 0;
    while k < headers.len()
        invariant
            k <= headers@.len(),
            all == pairs_view(headers@),
            pairs_view(out@) == first + all.take(k as int),
        decreases headers@.len() - k,
    {
        let ghost before = out@;
        out.push((headers[k].0.clone(), headers[k].1.clone()));
        proof {
            assert(pairs_view(out@) =~= pairs_view(before).push(all[k as int]));
            assert(pairs_view(out@) =~= first + all.take(k + 1));
        }
        k = k + 1;
    }
    proof {
        assert(all.take(k as int) =~= all);
    }
    out
}

/// Where a request goes.
#[derive(Debug, Clone, Copy, PartialEq, Eq, Structural)]
pub enum FetchRoute {
    /// To the node itself: the transport does not dial its own node, so the request
    /// is handed to the node's own service.
    Local,
    /// To a peer.
    Remote,
}

/// A request that is ready to be sent.
#[derive(Debug)]
pub struct OutgoingRequest {
    pub route: FetchRoute,
    pub remote: String,
    pub path: String,
    pub headers: Vec<(String, String)>,
}

/// What a request is made ready as, or why it is refused. `parsed` is what the caller's
/// address was read as.
pub open spec fn prepared(
    own_node_id: Seq<char>,
    parsed: Result<NodeId, CoreError>,
    url: Seq<char>,
    method: Seq<char>,
    headers: Seq<(Seq<char>, Seq<char>)>,
    r: Result<OutgoingRequest, CoreError>,
) -> bool {
    match r {
        Err(e) => match request_fault(url, method, headers) {
            Some(f) => e@ == f,
            None => parsed matches Err(p) && e@ == p@,
        },
        Ok(q) => {
            &&& request_fault(url, method, headers) is None
            &&& parsed is Ok
            &&& q.remote@ == base32_text(parsed->Ok_0.bytes@)
            &&& q.path@ == httpi_target(url)
            &&& pairs_view(q.headers@) == outgoing_headers(q.remote@, headers)
            &&& q.route == (if q.remote@ == own_node_id {
                FetchRoute::Local
            } else {
                FetchRoute::Remote
            })
        },
    }
}

/// Checks a request and makes it ready. `parsed` is what the caller's address was
/// read as; it is looked at only when the rest of the request is in order.
pub fn prepare_fetch(
    own_node_id: &str,
    parsed: Result<NodeId, CoreError>,
    url: &str,
    method: &str,
    headers: &[(String, String)],
) -> (r: Result<OutgoingRequest, CoreError>)
    ensures
        prepared(own_node_id@, parsed, url@, method@, pairs_view(headers@), r),
{
    match check_request(url, method, headers) {
        Err(e) => {
            return Err(e);
        },
        Ok(_) => {},
    }
    let node: NodeId = match parsed {
        Ok(n) => n,
        Err(e) => {
            return Err(e);
        },
    };
    let remote: String = base32_encode(node.bytes.as_slice());
    let path: String = extract_path(url);
    let out: Vec<(String, String)> = build_headers(&remote, headers);
    let route: FetchRoute = if same(&remote, own_node_id) {
        FetchRoute::Local
    } else {
        FetchRoute::Remote
    };
    Ok(OutgoingRequest { route, remote, path, headers: out })
}

/// The error of a request that could not be put together.
pub fn request_build_error(cause: &str) -> (r: CoreError)
    ensures
        r@ == (ErrorCode::Internal, "build request: "@ + cause@),
{
    let mut s: String = String::from_str("build request: ");
    s.append(cause);
    CoreError { code: ErrorCode::Internal, message: s }
}

/// The layers' configuration for a fetch.
pub fn fetch_config(timeout_ms: Option<u64>, decompress: bool) -> (r: StackConfig)
    ensures
        r == (StackConfig {
            timeout_ms,
            max_request_body_wire_bytes: None,
            max_request_body_decoded_bytes: None,
            load_shed: false,
            compression: None,
            decompression: decompress,
        }),
{
    StackConfig::default().with_timeout(timeout_ms).with_decompression(decompress)
}

/// The limit on a response body: the call's own, else the endpoint's.
pub fn response_body_limit(call: Option<usize>, endpoint: usize) -> (r: usize)
    ensures
        r == (match call {
            Some(n) => n,
            None => endpoint,
        }),
{
    match call {
        Some(n) => n,
        None => endpoint,
    }
}

// ── Requests of a node to itself ─────────────────────────────────────────────

/// What is said of a node that asks itself but does not serve.
pub open spec fn no_local_service() -> ErrorView {
    (
        ErrorCode::ConnectionFailed,
        "self-request: this node has no active server to handle a request to its own node id. Call serve() before fetching httpi://<your-own-node-id>/…"@,
    )
}

/// The serve cycle that a request of the node to itself goes to.
pub fn self_route(slot: &ServeSlot) -> (r: Result<ServeToken, CoreError>)
    ensures
        match r {
            Ok(t) => slot.local_service == Some(t),
            Err(e) => slot.local_service is None && e@ == no_local_service(),
        },
{
    match slot.local_service() {
        Some(t) => Ok(t),
        None => Err(
            CoreError::connection_failed(
                "self-request: this node has no active server to handle a request to its own node id. Call serve() before fetching httpi://<your-own-node-id>/…",
            ),
        ),
    }
}

// ── The end of a fetch ───────────────────────────────────────────────────────

/// What ended the wait for a response head.
#[derive(Debug)]
pub enum FetchEnd {
    /// A response head came.
    Answered,
    /// The request was refused before it was sent.
    Refused(CoreError),
    /// The request failed.
    Failed(FetchError),
    /// The caller called it off.
    Cancelled,
}

/// What a fetch error is to the caller.
pub open spec fn core_error(e: FetchError) -> ErrorView {
    match e {
        FetchError::ConnectionFailed { detail } => (ErrorCode::ConnectionFailed, detail@),
        FetchError::RequestBodyFailed { detail } => (ErrorCode::Internal, detail@),
        FetchError::HeaderTooLarge { detail } => (ErrorCode::HeaderTooLarge, detail@),
        FetchError::BodyTooLarge => (ErrorCode::BodyTooLarge, "response body too large"@),
        FetchError::Timeout => (ErrorCode::Timeout, "request timed out"@),
        FetchError::Cancelled => (ErrorCode::Cancelled, "aborted"@),
        FetchError::Internal(m) => (ErrorCode::Internal, m@),
    }
}

/// Tells the caller of a fetch error.
pub fn fetch_error_to_core(e: FetchError) -> (r: CoreError)
    ensures
        r@ == core_error(e),
{
    match e {
        FetchError::ConnectionFailed { detail } => CoreError {
            code: ErrorCode::ConnectionFailed,
            message: detail,
        },
        FetchError::RequestBodyFailed { detail } => CoreError {
            code: ErrorCode::Internal,
            message: detail,
        },
        FetchError::HeaderTooLarge { detail } => CoreError {
            code: ErrorCode::HeaderTooLarge,
            message: detail,
        },
        FetchError::BodyTooLarge => CoreError::body_too_large("response body too large"),
        FetchError::Timeout => CoreError::timeout("request timed out"),
        FetchError::Cancelled => CoreError::cancelled(),
        FetchError::Internal(m) => CoreError { code: ErrorCode::Internal, message: m },
    }
}

/// The live tokens without that of a fetch.
pub open spec fn without_token(live: Map<u64, u64>, token: Option<u64>) -> Map<u64, u64> {
    match token {
        Some(t) => live.remove(canonical(t)),
        None => live,
    }
}

/// Gives up the token of a fetch.
fn give_up_token(store: &mut HandleStore, token: Option<u64>)
    requires
        old(store).wf(),
    ensures
        final(store).wf(),
        final(store).same_but_tokens(old(store)),
        final(store).fetch_cancels.live() == without_token(old(store).fetch_cancels.live(), token),
        token is None ==> *final(store) == *old(store),
{
    if let Some(t) = token {
        store.remove_fetch_token(t);
    }
}

/// Ends a fetch. The token by which the caller could call the fetch off is given up,
/// however it ended.
pub fn conclude_fetch(store: &mut HandleStore, token: Option<u64>, end: FetchEnd) -> (r: Result<
    (),
    CoreError,
>)
    requires
        old(store).wf(),
    ensures
        final(store).wf(),
        final(store).same_but_tokens(old(store)),
        final(store).fetch_cancels.live() == without_token(old(store).fetch_cancels.live(), token),
        token is None ==> *final(store) == *old(store),
        match r {
            Ok(_) => end is Answered,
            Err(e) => match end {
                FetchEnd::Answered => false,
                FetchEnd::Refused(c) => e@ == c@,
                FetchEnd::Cancelled => e@ == (ErrorCode::Cancelled, "aborted"@),
                FetchEnd::Failed(f) => e@ == core_error(f),
            },
        },
{
    give_up_token(store, token);
    match end {
        FetchEnd::Answered => Ok(()),
        FetchEnd::Refused(e) => Err(e),
        FetchEnd::Cancelled => Err(CoreError::cancelled()),
        FetchEnd::Failed(f) => Err(fetch_error_to_core(f)),
    }
}

/// The live tokens once a fetch was begun, or refused.
pub open spec fn tokens_after_begin(
    live: Map<u64, u64>,
    token: Option<u64>,
    refused: bool,
) -> Map<u64, u64> {
    if refused {
        without_token(live, token)
    } else {
        live
    }
}

/// Begins a fetch: checks the request and makes it ready. Where it is refused, that is
/// the end of the fetch, and its token is given up; else it is kept until
/// [`conclude_fetch`].
pub fn begin_fetch(
    store: &mut HandleStore,
    token: Option<u64>,
    own_node_id: &str,
    parsed: Result<NodeId, CoreError>,
    url: &str,
    method: &str,
    headers: &[(String, String)],
) -> (r: Result<OutgoingRequest, CoreError>)
    requires
        old(store).wf(),
    ensures
        final(store).wf(),
        final(store).same_but_tokens(old(store)),
        r is Ok ==> *final(store) == *old(store),
        final(store).fetch_cancels.live() == tokens_after_begin(
            old(store).fetch_cancels.live(),
            token,
            r is Err,
        ),
        prepared(own_node_id@, parsed, url@, method@, pairs_view(headers@), r),
{
    match prepare_fetch(own_node_id, parsed, url, method, headers) {
        Ok(q) => Ok(q),
        Err(e) => {
            give_up_token(store, token);
            Err(e)
        },
    }
}

/// The live tokens after a fetch with a token that was refused at once, or that ended
/// later.
pub open spec fn tokens_after_fetch(
    live: Map<u64, u64>,
    token: Option<u64>,
    refused: bool,
) -> Map<u64, u64> {
    let begun = tokens_after_begin(live, token, refused);
    if refused {
        begun
    } else {
        without_token(begun, token)
    }
}

/// Whether a fetch was refused at once, was answered, failed or was called off, its token
/// is given up afterwards, and every other token is as it was.
pub proof fn token_is_given_up(live: Map<u64, u64>, token: u64, refused: bool, other: u64)
    ensures
        !tokens_after_fetch(live, Some(token), refused).contains_key(canonical(token)),
        canonical(other) != canonical(token) ==> (tokens_after_fetch(
            live,
            Some(token),
            refused,
        ).contains_key(canonical(other)) == live.contains_key(canonical(other))),
{
}

// ── Responses ────────────────────────────────────────────────────────────────

/// The bytes that headers take up, each with a separator and a line end.
pub open spec fn header_bytes(headers: Seq<RawHeader>) -> nat
    decreases headers.len(),
{
    if headers.len() == 0 {
        0
    } else {
        header_bytes(headers.drop_last()) + byte_len(headers.last().0) + headers.last().1.len() + 4
    }
}

/// The size of a response head, with sixteen bytes for the status line.
pub open spec fn response_size(headers: Seq<RawHeader>) -> nat {
    16 + header_bytes(headers)
}

/// The size of a response head, saturated.
pub fn measure_response(headers: &[(String, Vec<u8>)]) -> (r: usize)
    ensures
        r == capped(response_size(raw_view(headers@))),
{
    let ghost all = raw_view(headers@);
    let mut sum: usize = 16;
    let mut i: usize = 0;
    while i < headers.len()
        invariant
            i <= headers@.len(),
            all == raw_view(headers@),
            sum == capped(response_size(all.take(i as int))),
        decreases headers@.len() - i,
    {
        proof {
            assert(all.take(i + 1).drop_last() =~= all.take(i as int));
            assert(all.take(i + 1).last() == (headers@[i as int].0@, headers@[i as int].1@));
        }
        let one: usize = byte_count(&headers[i].0).saturating_add(headers[i].1.len()).saturating_add(
            4,
        );
        sum = sum.saturating_add(one);
        i = i + 1;
    }
    proof {
        assert(all.take(i as int) =~= all);
    }
    sum
}

/// What is said of a header value that is not text.
pub open spec fn bad_response_value(name: Seq<char>) -> ErrorView {
    (ErrorCode::InvalidInput, "non-UTF8 response header value for '"@ + name + "'"@)
}

/// The headers of a response as text, or what is said of the first value that is
/// not visible ASCII.
pub open spec fn response_headers(headers: Seq<RawHeader>) -> Result<
    Seq<(Seq<char>, Seq<char>)>,
    ErrorView,
>
    decreases headers.len(),
{
    if headers.len() == 0 {
        Ok(Seq::empty())
    } else {
        match response_headers(headers.drop_last()) {
            Err(e) => Err(e),
            Ok(init) => if visible(headers.last().1) {
                Ok(init.push((headers.last().0, ascii_text(headers.last().1))))
            } else {
                Err(bad_response_value(headers.last().0))
            },
        }
    }
}

proof fn bad_value_in_prefix(headers: Seq<RawHeader>, k: int)
    requires
        0 <= k <= headers.len(),
        response_headers(headers.take(k)) is Err,
    ensures
        response_headers(headers) == response_headers(headers.take(k)),
    decreases headers.len(),
{
    if k == headers.len() {
        assert(headers.take(k) =~= headers);
    } else {
        assert(headers.drop_last().take(k) =~= headers.take(k));
        bad_value_in_prefix(headers.drop_last(), k);
    }
}

/// The headers of a response as text.
pub fn plain_response_headers(headers: &[(String, Vec<u8>)]) -> (r: Result<
    Vec<(String, String)>,
    CoreError,
>)
    ensures
        match r {
            Ok(h) => response_headers(raw_view(headers@)) == Ok::<
                Seq<(Seq<char>, Seq<char>)>,
                ErrorView,
            >(pairs_view(h@)),
            Err(e) => response_headers(raw_view(headers@)) == Err::<
                Seq<(Seq<char>, Seq<char>)>,
                ErrorView,
            >(e@),
        },
{
    let ghost all = raw_view(headers@);
    let mut out: Vec<(String, String)> = Vec::new();
    let mut i: usize = 0;
    proof {
        assert(pairs_view(out@) =~= Seq::empty());
    }
    while i < headers.len()
        invariant
            i <= headers@.len(),
            all == raw_view(headers@),
            response_headers(all.take(i as int)) == Ok::<
                Seq<(Seq<char>, Seq<char>)>,
                ErrorView,
            >(pairs_view(out@)),
        decreases headers@.len() - i,
    {
        let name: &String = &headers[i].0;
        proof {
            let upto = all.take(i + 1);
            assert(upto.drop_last() =~= all.take(i as int));
            assert(upto.last() == (name@, headers@[i as int].1@));
            if response_headers(upto) is Err {
                bad_value_in_prefix(all, i + 1);
            }
        }
        match visible_text(&headers[i].1) {
            Some(text) => {
                let ghost before = out@;
                let ghost pair = (name@, text@);
                out.push((name.clone(), text));
                proof {
                    assert(pairs_view(out@) =~= pairs_view(before).push(pair));
                }
            },
            None => {
                let mut s: String = String::from_str("non-UTF8 response header value for '");
                s.append(name);
                s.append("'");
                return Err(CoreError { code: ErrorCode::InvalidInput, message: s });
            },
        }
        i = i + 1;
    }
    proof {
        assert(all.take(i as int) =~= all);
    }
    Ok(out)
}

/// What is said of a response head that is too large.
pub open spec fn head_too_large(size: nat, limit: usize) -> ErrorView {
    (
        ErrorCode::HeaderTooLarge,
        "response header size "@ + decimal(size) + " exceeds limit "@ + decimal(limit as nat),
    )
}

/// What is wrong with a response head, if anything is.
pub open spec fn response_fault(headers: Seq<RawHeader>, limit: usize) -> Option<ErrorView> {
    if capped(response_size(headers)) > limit {
        Some(head_too_large(capped(response_size(headers)), limit))
    } else {
        match response_headers(headers) {
            Ok(_) => None,
            Err(e) => Some(e),
        }
    }
}

/// Checks a response head and makes the caller's view of it, with a reader handle
/// for the body. Responses that have no body get the handle 0.
pub fn package_response(
    store: &mut HandleStore,
    status: u16,
    headers: &[(String, Vec<u8>)],
    remote: &str,
    path: &str,
    max_header_size: usize,
    now_ms: u64,
) -> (r: Result<FfiResponse, CoreError>)
    requires
        old(store).wf(),
        old(store).readers.live().len() < MAX_LIVE,
    ensures
        final(store).wf(),
        final(store).same_but_readers(old(store)),
        match r {
            Err(e) => {
                &&& *final(store) == *old(store)
                &&& match response_fault(raw_view(headers@), max_header_size) {
                    Some(f) => e@ == f,
                    None => !null_body(status) && old(store).readers.live().len() >= old(
                        store).config.max_handles && e@ == crate::handles::at_capacity(),
                }
            },
            Ok(p) => {
                &&& response_fault(raw_view(headers@), max_header_size) is None
                &&& p.status == status
                &&& response_headers(raw_view(headers@)) == Ok::<
                    Seq<(Seq<char>, Seq<char>)>,
                    ErrorView,
                >(pairs_view(p.headers@))
                &&& p.url@ == "httpi://"@ + remote@ + path@
                &&& p.body_handle == 0 <==> status == 204 || status == 205 || status == 304
                &&& p.body_handle != 0 ==> final(store).readers.live().contains_key(p.body_handle)
                &&& if null_body(status) {
                    p.body_handle == 0 && *final(store) == *old(store)
                } else {
                    &&& well_formed_handle(p.body_handle)
                    &&& !old(store).readers.live().contains_key(p.body_handle)
                    &&& final(store).readers.live() == old(store).readers.live().insert(
                        p.body_handle,
                        now_ms,
                    )
                }
            },
        },
{
    let size: usize = measure_response(headers);
    if size > max_header_size {
        let mut s: String = String::from_str("response header size ");
        append_decimal(&mut s, size as u64);
        s.append(" exceeds limit ");
        append_decimal(&mut s, max_header_size as u64);
        return Err(CoreError { code: ErrorCode::HeaderTooLarge, message: s });
    }
    let out: Vec<(String, String)> = match plain_response_headers(headers) {
        Ok(h) => h,
        Err(e) => {
            return Err(e);
        },
    };
    let mut url: String = String::from_str("httpi://");
    url.append(remote);
    url.append(path);
    if is_null_body_status(status) {
        return Ok(FfiResponse { status, headers: out, body_handle: 0, url });
    }
    let body_handle: u64 = match store.insert_reader(now_ms) {
        Ok(h) => h,
        Err(e) => {
            return Err(e);
        },
    };
    Ok(FfiResponse { status, headers: out, body_handle, url })
}

// ── Laws ─────────────────────────────────────────────────────────────────────

/// URLs of the web are refused, in whatever case their scheme is written, and no others.
pub proof fn web_urls_are_refused(url: Seq<char>)
    ensures
        web_scheme(url) is Some <==> {
            ||| url.len() >= 7 && same_ignoring_case(url.take(7), "http://"@)
            ||| url.len() >= 8 && same_ignoring_case(url.take(8), "https://"@)
        },
        web_scheme(url) matches Some(n) ==> (n == 8 <==> url.len() >= 8
            && same_ignoring_case(url.take(8), "https://"@)) && (n == 7 || n == 8),
        wrong_scheme(url, 7).0 == ErrorCode::InvalidInput,
        wrong_scheme(url, 8).0 == ErrorCode::InvalidInput,
{
    reveal_strlit("http://");
    reveal_strlit("https://");
    let l = ascii_lower(url);
    assert(ascii_lower("http://"@) =~= "http://"@);
    assert(ascii_lower("https://"@) =~= "https://"@);
    if url.len() >= 7 {
        assert(ascii_lower(url.take(7)) =~= l.subrange(0, 7));
    }
    if url.len() >= 8 {
        assert(ascii_lower(url.take(8)) =~= l.subrange(0, 8));
    }
}

/// A request goes out exactly where its URL is not one of the web, its method is a token,
/// and its headers are taken.
pub proof fn what_goes_out(url: Seq<char>, method: Seq<char>, headers: Seq<(Seq<char>, Seq<char>)>)
    ensures
        request_fault(url, method, headers) is None <==> {
            &&& web_scheme(url) is None
            &&& valid_method(vstd::utf8::encode_utf8(method))
            &&& headers_fault(HeadKind::Request, headers) is None
        },
        web_scheme(url) is None && valid_method(vstd::utf8::encode_utf8(method)) ==> request_fault(
            url,
            method,
            headers,
        ) == headers_fault(HeadKind::Request, headers),
{
}

/// What follows the node of a URL, up to the fragment, is what the peer is asked for.
pub proof fn peers_are_asked_for_the_target(node: Seq<char>, tail: Seq<char>, fragment: Seq<char>)
    requires
        forall|i: int|
            0 <= i < node.len() ==> #[trigger] node[i] != '/' && node[i] != '?' && node[i] != '#',
        forall|i: int| 0 <= i < tail.len() ==> #[trigger] tail[i] != '#',
        tail.len() > 0 ==> tail[0] == '/' || tail[0] == '?',
    ensures
        ({
            let url = "httpi://"@ + node + tail;
            let target = httpi_target(url);
            &&& httpi_target(url + seq!['#'] + fragment) == target
            &&& tail.len() == 0 ==> target == seq!['/']
            &&& tail.len() > 0 && tail[0] == '/' ==> target == tail
            &&& tail.len() > 0 && (forall|i: int|
                0 <= i < tail.len() ==> #[trigger] tail[i] != '/') ==> target == seq!['/'] + tail
        }),
{
    reveal_strlit("httpi://");
    let url = "httpi://"@ + node + tail;
    assert forall|i: int| 0 <= i < url.len() implies #[trigger] url[i] != '#' by {
        if i >= 8 && i < 8 + node.len() {
            assert(url[i] == node[i - 8]);
        } else if i >= 8 {
            assert(url[i] == tail[i - 8 - node.len()]);
        }
    }
    crate::client::fragments_are_cut(url, fragment);
    assert(url.subrange(0, 8) =~= "httpi://"@);
    assert(url.skip(8) =~= node + tail);
    crate::client::targets_follow_the_host(node, tail);
}

/// A text without the scheme is asked for as it stands, with a slash before it where it
/// has none.
pub proof fn bare_texts_are_asked_for(path: Seq<char>)
    requires
        forall|i: int| 0 <= i < path.len() ==> #[trigger] path[i] != '#',
        path.len() < 8 || path.take(8) != "httpi://"@,
    ensures
        path.len() > 0 && path[0] == '/' ==> httpi_target(path) == path,
        path.len() == 0 || path[0] != '/' ==> httpi_target(path) == seq!['/'] + path,
{
    reveal_strlit("httpi://");
    reveal_strlit("/");
    crate::client::fragments_are_cut(path, Seq::empty());
    assert("/"@ =~= seq!['/']);
    if path.len() >= 8 {
        assert(path.subrange(0, 8) =~= path.take(8));
    }
}

/// A request carries the host first, and every header of the caller at its end, in order.
/// Between them stands at most one: the offer to take zstd, where the caller has not said
/// what it takes.
pub proof fn requests_keep_the_headers(remote: Seq<char>, headers: Seq<(Seq<char>, Seq<char>)>)
    ensures
        ({
            let out = outgoing_headers(remote, headers);
            let said = exists|i: int|
                0 <= i < headers.len() && same_ignoring_case(
                    (#[trigger] headers[i]).0,
                    "accept-encoding"@,
                );
            let own: int = if said {
                1
            } else {
                2
            };
            &&& out.len() == own + headers.len()
            &&& out[0] == ("host"@, remote)
            &&& !said ==> out[1] == ("accept-encoding"@, "zstd"@)
            &&& forall|i: int| 0 <= i < headers.len() ==> out[own + i] == #[trigger] headers[i]
        }),
{
}

/// Every failure has its code, and its own words where it has any.
pub proof fn failures_have_their_codes(detail: String)
    ensures
        core_error(FetchError::ConnectionFailed { detail }) == (
            ErrorCode::ConnectionFailed,
            detail@,
        ),
        core_error(FetchError::RequestBodyFailed { detail }) == (ErrorCode::Internal, detail@),
        core_error(FetchError::HeaderTooLarge { detail }) == (ErrorCode::HeaderTooLarge, detail@),
        core_error(FetchError::BodyTooLarge).0 == ErrorCode::BodyTooLarge,
        core_error(FetchError::Timeout).0 == ErrorCode::Timeout,
        core_error(FetchError::Cancelled).0 == ErrorCode::Cancelled,
        core_error(FetchError::Internal(detail)) == (ErrorCode::Internal, detail@),
        no_local_service().0 == ErrorCode::ConnectionFailed,
{
}

/// The headers of a response take up what they take up one by one: the bytes of name and
/// value and four more.
pub proof fn headers_take_up_their_bytes(a: Seq<RawHeader>, b: Seq<RawHeader>, h: RawHeader)
    ensures
        header_bytes(a + b) == header_bytes(a) + header_bytes(b),
        header_bytes(seq![h]) == vstd::utf8::encode_utf8(h.0).len() + h.1.len() + 4,
        response_size(a) == 16 + header_bytes(a),
    decreases b.len(),
{
    if b.len() == 0 {
        assert(a + b =~= a);
    } else {
        headers_take_up_their_bytes(a, b.drop_last(), h);
        assert((a + b).drop_last() =~= a + b.drop_last());
    }
    assert(seq![h].drop_last() =~= Seq::empty());
    assert(header_bytes(seq![h].drop_last()) == 0);
}

/// The caller is told every header of a response, in order, each with its name and its
/// value, where every value is visible; else the error names the first header whose value
/// is not.
pub proof fn responses_keep_the_headers(headers: Seq<RawHeader>)
    ensures
        match response_headers(headers) {
            Ok(told) => {
                &&& told.len() == headers.len()
                &&& forall|i: int|
                    0 <= i < headers.len() ==> {
                        &&& (#[trigger] told[i]).0 == headers[i].0
                        &&& told[i].1 == ascii_text(headers[i].1)
                        &&& visible(headers[i].1)
                    }
            },
            Err(e) => exists|k: int|
                0 <= k < headers.len() && !visible((#[trigger] headers[k]).1) && (forall|i: int|
                    0 <= i < k ==> visible((#[trigger] headers[i]).1)) && e
                    == bad_response_value(headers[k].0) && e.0 == ErrorCode::InvalidInput,
        },
    decreases headers.len(),
{
    if headers.len() > 0 {
        let init = headers.drop_last();
        let n = headers.len() - 1;
        responses_keep_the_headers(init);
        match response_headers(init) {
            Err(e) => {
                let k = choose|k: int|
                    0 <= k < init.len() && !visible((#[trigger] init[k]).1) && (forall|i: int|
                        0 <= i < k ==> visible((#[trigger] init[i]).1)) && e
                        == bad_response_value(init[k].0) && e.0 == ErrorCode::InvalidInput;
                assert(headers[k] == init[k]);
                assert forall|i: int| 0 <= i < k implies visible((#[trigger] headers[i]).1) by {
                    assert(headers[i] == init[i]);
                }
            },
            Ok(told) => {
                if visible(headers.last().1) {
                    let all = response_headers(headers)->Ok_0;
                    assert forall|i: int| 0 <= i < headers.len() implies {
                        &&& (#[trigger] all[i]).0 == headers[i].0
                        &&& all[i].1 == ascii_text(headers[i].1)
                        &&& visible(headers[i].1)
                    } by {
                        if i < n {
                            assert(all[i] == told[i]);
                            assert(headers[i] == init[i]);
                        }
                    }
                } else {
                    assert(headers[n] == headers.last());
                    assert forall|i: int| 0 <= i < n implies visible((#[trigger] headers[i]).1) by {
                        assert(headers[i] == init[i]);
                        assert(told[i].0 == init[i].0);
                    }
                }
            },
        }
    }
}

/// A response is handed on exactly where its head is within the limit and every value is
/// visible. One that is too large is told with its size and the limit.
pub proof fn responses_are_checked(headers: Seq<RawHeader>, limit: usize)
    requires
        response_size(headers) <= usize::MAX,
    ensures
        response_fault(headers, limit) is None <==> response_size(headers) <= limit && forall|
            i: int,
        |
            0 <= i < headers.len() ==> visible((#[trigger] headers[i]).1),
        response_size(headers) > limit ==> response_fault(headers, limit) == Some(
            (
                ErrorCode::HeaderTooLarge,
                "response header size "@ + decimal(response_size(headers)) + " exceeds limit "@
                    + decimal(limit as nat),
            ),
        ),
{
    responses_keep_the_headers(headers);
    if response_headers(headers) is Ok {
        let told = response_headers(headers)->Ok_0;
        assert forall|i: int| 0 <= i < headers.len() implies visible((#[trigger] headers[i]).1) by {
            assert(told[i].0 == headers[i].0);
        }
    }
}

/// A request that goes out is for the node that was asked for, with the target of the URL
/// and the headers of the caller, and goes to this node itself exactly where that is the
/// node's own name. One that does not go out was refused for itself, or for the node.
pub proof fn requests_go_where_they_are_sent(
    own_node_id: Seq<char>,
    parsed: Result<NodeId, CoreError>,
    url: Seq<char>,
    method: Seq<char>,
    headers: Seq<(Seq<char>, Seq<char>)>,
    r: Result<OutgoingRequest, CoreError>,
)
    requires
        prepared(own_node_id, parsed, url, method, headers, r),
    ensures
        r is Ok <==> request_fault(url, method, headers) is None && parsed is Ok,
        r matches Ok(q) ==> {
            &&& q.remote@ == base32_text(parsed->Ok_0.bytes@)
            &&& q.path@ == httpi_target(url)
            &&& pairs_view(q.headers@) == outgoing_headers(q.remote@, headers)
            &&& q.route == FetchRoute::Local <==> base32_text(parsed->Ok_0.bytes@) == own_node_id
        },
        r matches Err(e) ==> (request_fault(url, method, headers) == Some(e@) || (request_fault(
            url,
            method,
            headers,
        ) is None && parsed is Err && e@ == parsed->Err_0@)),
{
}

/// Only the token of a fetch is given up, and a fetch without one gives up none. One that
/// has begun keeps its token until it has ended.
pub proof fn tokens_are_kept_till_the_end(live: Map<u64, u64>, token: Option<u64>, t: u64)
    ensures
        without_token(live, None) == live,
        without_token(live, Some(t)) == live.remove(canonical(t)),
        tokens_after_begin(live, token, false) == live,
        tokens_after_begin(live, token, true) == without_token(live, token),
{
}

/// What is said of a URL of the web, of a value that is not visible, of a head that is too
/// large, and of a node that asks itself but does not serve.
pub proof fn refusals_are_explained(url: Seq<char>, n: int, name: Seq<char>, size: nat, limit: usize)
    ensures
        wrong_scheme(url, n) == (
            ErrorCode::InvalidInput,
            "iroh-http URLs must use the \"httpi://\" scheme, not \""@ + url.take(n)
                + "\". Example: httpi://nodeId/path"@,
        ),
        bad_response_value(name) == (
            ErrorCode::InvalidInput,
            "non-UTF8 response header value for '"@ + name + "'"@,
        ),
        head_too_large(size, limit) == (
            ErrorCode::HeaderTooLarge,
            "response header size "@ + decimal(size) + " exceeds limit "@ + decimal(limit as nat),
        ),
        core_error(FetchError::BodyTooLarge).1 == "response body too large"@,
        core_error(FetchError::Timeout).1 == "request timed out"@,
        core_error(FetchError::Cancelled).1 == "aborted"@,
{
}

} // verus!
