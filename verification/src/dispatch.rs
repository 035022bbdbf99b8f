//! Handing incoming requests to a handler: what is refused, what the handler is
//! told, and what is answered.
use vstd::prelude::*;

use crate::adapter::pairs_view;
use crate::error::{unknown_handle, CoreError, ErrorCode, ErrorView};
use crate::guard::{without_handles, InsertGuard};
use crate::handles::{HandleStore, ResponseHeadEntry};
use crate::rules::{
    ascii_text, bad_status, check_headers, check_status, headers_fault, valid_status, visible,
    visible_text, HeadKind,
};
use crate::slots::{canonical, well_formed_handle, MAX_LIVE};
use crate::text::{
    byte_count, byte_len, eq_ignore_case, has_token, list_has_token, same, same_ignoring_case,
};
use crate::types::RequestPayload;

verus! {

/// The head of an incoming request.
#[derive(Debug)]
pub struct IncomingHead {
    pub method: String,
    /// The whole request target.
    pub uri: String,
    /// Path and query of the target, where it has them.
    pub path_and_query: Option<String>,
    /// Names and raw values, in order.
    pub headers: Vec<(String, Vec<u8>)>,
}

/// A name and a raw value.
pub type RawHeader = (Seq<char>, Seq<u8>);

/// The characters and bytes of a list of raw headers.
pub open spec fn raw_view(headers: Seq<(String, Vec<u8>)>) -> Seq<RawHeader> {
    headers.map_values(|h: (String, Vec<u8>)| (h.0@, h.1@))
}

/// An answer that is given without asking the handler.
#[derive(Debug, Clone, Copy)]
pub struct Refusal {
    pub status: u16,
    pub body: &'static str,
}

// ── Header size ──────────────────────────────────────────────────────────────

/// Whether a header would claim the identity of the peer.
pub open spec fn claims_peer_id(name: Seq<char>) -> bool {
    same_ignoring_case(name, "peer-id"@)
}

/// The bytes that headers take up, each with a separator and a line end; those
/// that claim the peer's identity do not count.
pub open spec fn counted_bytes(headers: Seq<RawHeader>) -> nat
    decreases headers.len(),
{
    if headers.len() == 0 {
        0
    } else {
        let init = counted_bytes(headers.drop_last());
        if claims_peer_id(headers.last().0) {
            init
        } else {
            init + byte_len(headers.last().0) + headers.last().1.len() + 4
        }
    }
}

/// The size of a request head as it is handed on: its headers, the peer's
/// identity, the target, the method and the request line's overhead.
pub open spec fn head_size(
    headers: Seq<RawHeader>,
    remote: Seq<char>,
    uri: Seq<char>,
    method: Seq<char>,
) -> nat {
    counted_bytes(headers) + 7 + byte_len(remote) + 4 + byte_len(uri) + byte_len(method) + 12
}

/// A number, or the largest that fits.
pub open spec fn capped(n: nat) -> nat {
    if n > usize::MAX {
        usize::MAX as nat
    } else {
        n
    }
}

/// The size of a request head, saturated.
pub fn measure_head(head: &IncomingHead, remote: &str) -> (r: usize)
    ensures
        r == capped(head_size(raw_view(head.headers@), remote@, head.uri@, head.method@)),
{
    let ghost all = raw_view(head.headers@);
    let mut sum: usize = 0;
    let mut i: usize = 0;
    while i < head.headers.len()
        invariant
            i <= head.headers@.len(),
            all == raw_view(head.headers@),
            sum == capped(counted_bytes(all.take(i as int))),
        decreases head.headers@.len() - i,
    {
        let name: &String = &head.headers[i].0;
        let value: &Vec<u8> = &head.headers[i].1;
        proof {
            assert(all.take(i + 1).drop_last() =~= all.take(i as int));
            assert(all.take(i + 1).last() == (name@, value@));
        }
        if !eq_ignore_case(name, "peer-id") {
            let one: usize = byte_count(name).saturating_add(value.len()).saturating_add(4);
            sum = sum.saturating_add(one);
        }
        i = i + 1;
    }
    proof {
        assert(all.take(i as int) =~= all);
    }
    sum.saturating_add(7).saturating_add(byte_count(remote)).saturating_add(4).saturating_add(
        byte_count(&head.uri),
    ).saturating_add(byte_count(&head.method)).saturating_add(12)
}

// ── Headers ──────────────────────────────────────────────────────────────────

/// The headers of a request without those that claim the peer's identity, as
/// text; none where a value is not visible ASCII.
pub open spec fn plain_headers(headers: Seq<RawHeader>) -> Option<Seq<(Seq<char>, Seq<char>)>>
    decreases headers.len(),
{
    if headers.len() == 0 {
        Some(Seq::empty())
    } else {
        match plain_headers(headers.drop_last()) {
            None => None,
            Some(init) => if claims_peer_id(headers.last().0) {
                Some(init)
            } else if visible(headers.last().1) {
                Some(init.push((headers.last().0, ascii_text(headers.last().1))))
            } else {
                None
            },
        }
    }
}

/// A value that is not visible ASCII in a prefix spoils the whole.
proof fn spoiled_in_prefix(headers: Seq<RawHeader>, k: int)
    requires
        0 <= k <= headers.len(),
        plain_headers(headers.take(k)) is None,
    ensures
        plain_headers(headers) is None,
    decreases headers.len(),
{
    if k == headers.len() {
        assert(headers.take(k) =~= headers);
    } else {
        assert(headers.drop_last().take(k) =~= headers.take(k));
        spoiled_in_prefix(headers.drop_last(), k);
    }
}

/// What the handler is told of a request's headers, or the refusal.
pub open spec fn admitted_headers(
    headers: Seq<RawHeader>,
    remote: Seq<char>,
    uri: Seq<char>,
    method: Seq<char>,
    limit: Option<usize>,
) -> Result<Seq<(Seq<char>, Seq<char>)>, (u16, Seq<char>)> {
    if limit is Some && capped(head_size(headers, remote, uri, method)) > limit->Some_0 {
        Err((431, ""@))
    } else {
        match plain_headers(headers) {
            None => Err((400, "non-UTF8 header value"@)),
            Some(h) => Ok(h.push(("peer-id"@, remote))),
        }
    }
}

/// Checks a request head and makes the header list for the handler: what the
/// client says of the peer's identity is dropped, and the identity that the
/// transport has proved stands at the end.
pub fn admit_headers(head: &IncomingHead, remote: &str, limit: Option<usize>) -> (r: Result<
    Vec<(String, String)>,
    Refusal,
>)
    ensures
        match r {
            Ok(h) => admitted_headers(
                raw_view(head.headers@),
                remote@,
                head.uri@,
                head.method@,
                limit,
            ) == Ok::<Seq<(Seq<char>, Seq<char>)>, (u16, Seq<char>)>(pairs_view(h@)),
            Err(f) => admitted_headers(
                raw_view(head.headers@),
                remote@,
                head.uri@,
                head.method@,
                limit,
            ) == Err::<Seq<(Seq<char>, Seq<char>)>, (u16, Seq<char>)>((f.status, f.body@)),
        },
{
    if let Some(max) = limit {
        if measure_head(head, remote) > max {
            return Err(Refusal { status: 431, body: "" });
        }
    }
    let ghost all = raw_view(head.headers@);
    let mut out: Vec<(String, String)> = Vec::new();
    let mut i: usize = 0;
    proof {
        assert(pairs_view(out@) =~= Seq::empty());
    }
    while i < head.headers.len()
        invariant
            i <= head.headers@.len(),
            all == raw_view(head.headers@),
            limit is Some ==> capped(head_size(all, remote@, head.uri@, head.method@))
                <= limit->Some_0,
            plain_headers(all.take(i as int)) == Some(pairs_view(out@)),
        decreases head.headers@.len() - i,
    {
        let name: &String = &head.headers[i].0;
        let value: &Vec<u8> = &head.headers[i].1;
        proof {
            let upto = all.take(i + 1);
            assert(upto.drop_last() =~= all.take(i as int));
            assert(upto.last() == (name@, value@));
            if plain_headers(upto) is None {
                spoiled_in_prefix(all, i + 1);
            }
        }
        if !eq_ignore_case(name, "peer-id") {
            match visible_text(value) {
                Some(text) => {
                    let ghost before = out@;
                    let ghost pair = (name@, text@);
                    out.push((name.clone(), text));
                    proof {
                        assert(pairs_view(out@) =~= pairs_view(before).push(pair));
                    }
                },
                None => {
                    return Err(Refusal { status: 400, body: "non-UTF8 header value" });
                },
            }
        }
        i = i + 1;
    }
    proof {
        assert(all.take(i as int) =~= all);
    }
    let ghost before = out@;
    out.push((String::from_str("peer-id"), remote.to_owned()));
    proof {
        assert(pairs_view(out@) =~= pairs_view(before).push(("peer-id"@, remote@)));
    }
    Ok(out)
}

/// The handler cannot be told a false identity: in the headers it is given, the
/// last one names the peer that the transport has proved, and no other header
/// claims the peer's identity, whatever the client sent.
pub proof fn peer_id_is_authentic(
    headers: Seq<RawHeader>,
    remote: Seq<char>,
    uri: Seq<char>,
    method: Seq<char>,
    limit: Option<usize>,
)
    requires
        admitted_headers(headers, remote, uri, method, limit) is Ok,
    ensures
        ({
            let told = admitted_headers(headers, remote, uri, method, limit)->Ok_0;
            &&& told.len() > 0
            &&& told.last() == ("peer-id"@, remote)
            &&& forall|i: int| 0 <= i < told.len() - 1 ==> !claims_peer_id((#[trigger] told[i]).0)
        }),
{
    no_claims_kept(headers);
}

proof fn no_claims_kept(headers: Seq<RawHeader>)
    requires
        plain_headers(headers) is Some,
    ensures
        forall|i: int|
            0 <= i < plain_headers(headers)->Some_0.len() ==> !claims_peer_id(
                (#[trigger] plain_headers(headers)->Some_0[i]).0,
            ),
    decreases headers.len(),
{
    if headers.len() > 0 {
        no_claims_kept(headers.drop_last());
        let init = plain_headers(headers.drop_last())->Some_0;
        let told = plain_headers(headers)->Some_0;
        assert forall|i: int| 0 <= i < told.len() implies !claims_peer_id(
            (#[trigger] told[i]).0,
        ) by {
            if i < init.len() {
                assert(told[i] == init[i]);
            }
        }
    }
}

/// The URL that the handler is told.
pub fn request_url(own_node_id: &str, path_and_query: &Option<String>) -> (r: String)
    ensures
        r@ == "httpi://"@ + own_node_id@ + (match path_and_query {
            Some(p) => p@,
            None => "/"@,
        }),
{
    let mut s: String = String::from_str("httpi://");
    s.append(own_node_id);
    match path_and_query {
        Some(p) => {
            s.append(p);
        },
        None => {
            s.append("/");
        },
    }
    s
}

// ── Duplex ───────────────────────────────────────────────────────────────────

/// Whether headers ask for a duplex stream.
pub open spec fn asks_duplex(headers: Seq<(Seq<char>, Seq<char>)>) -> bool {
    exists|i: int|
        0 <= i < headers.len() && same_ignoring_case((#[trigger] headers[i]).0, "upgrade"@)
            && same_ignoring_case(headers[i].1, "iroh-duplex"@)
}

/// Whether a `Connection` header holds the token `upgrade`.
pub open spec fn connection_upgrades(headers: Seq<(Seq<char>, Seq<char>)>) -> bool {
    exists|i: int|
        0 <= i < headers.len() && same_ignoring_case((#[trigger] headers[i]).0, "connection"@)
            && has_token(headers[i].1, "upgrade"@)
}

/// Whether a request opens a duplex stream. A request that asks for one must be a
/// `CONNECT` with `Connection: upgrade`.
pub fn duplex_upgrade(method: &str, headers: &[(String, String)]) -> (r: Result<bool, Refusal>)
    ensures
        match r {
            Ok(b) => b == asks_duplex(pairs_view(headers@)) && (b ==> connection_upgrades(
                pairs_view(headers@),
            ) && method@ == "CONNECT"@),
            Err(f) => asks_duplex(pairs_view(headers@)) && !(connection_upgrades(
                pairs_view(headers@),
            ) && method@ == "CONNECT"@) && f.status == 400 && f.body@
                == "duplex upgrade requires CONNECT method with Connection: upgrade header"@,
        },
{
    let ghost all = pairs_view(headers@);
    let mut asks: bool = false;
    let mut upgrades: bool = false;
    let mut i: usize = 0;
    while i < headers.len()
        invariant
            i <= headers@.len(),
            all == pairs_view(headers@),
            asks == (exists|j: int|
                0 <= j < i && same_ignoring_case((#[trigger] all[j]).0, "upgrade"@)
                    && same_ignoring_case(all[j].1, "iroh-duplex"@)),
            upgrades == (exists|j: int|
                0 <= j < i && same_ignoring_case((#[trigger] all[j]).0, "connection"@)
                    && has_token(all[j].1, "upgrade"@)),
        decreases headers@.len() - i,
    {
        let name: &String = &headers[i].0;
        let value: &String = &headers[i].1;
        proof {
            assert(all[i as int] == (name@, value@));
        }
        if eq_ignore_case(name, "upgrade") && eq_ignore_case(value, "iroh-duplex") {
            asks = true;
        }
        if eq_ignore_case(name, "connection") && list_has_token(value, "upgrade") {
            upgrades = true;
        }
        i = i + 1;
    }
    if !asks {
        return Ok(false);
    }
    if !upgrades || !same(method, "CONNECT") {
        return Err(
            Refusal {
                status: 400,
                body: "duplex upgrade requires CONNECT method with Connection: upgrade header",
            },
        );
    }
    Ok(true)
}

// ── Handles ──────────────────────────────────────────────────────────────────

/// The handles of one request.
#[derive(Debug, Clone, Copy)]
pub struct RequestHandles {
    pub req_handle: u64,
    pub req_body_handle: u64,
    pub res_body_handle: u64,
}

/// Gives out the handles of a request: a reader for its body, a writer for the
/// response's body and a response slot. Where one of the registries is full, the
/// request is refused and none of the three stays.
pub fn allocate_request(store: &mut HandleStore, now_ms: u64) -> (r: Result<
    RequestHandles,
    Refusal,
>)
    requires
        old(store).wf(),
        old(store).readers.live().len() < MAX_LIVE,
        old(store).writers.live().len() < MAX_LIVE,
        old(store).request_heads.live().len() < MAX_LIVE,
    ensures
        final(store).wf(),
        final(store).sessions == old(store).sessions,
        final(store).fetch_cancels == old(store).fetch_cancels,
        final(store).pending_readers == old(store).pending_readers,
        final(store).config == old(store).config,
        match r {
            Ok(h) => {
                let max = old(store).config.max_handles;
                &&& old(store).readers.live().len() < max
                &&& old(store).writers.live().len() < max
                &&& old(store).request_heads.live().len() < max
                &&& well_formed_handle(h.req_body_handle)
                &&& well_formed_handle(h.res_body_handle)
                &&& well_formed_handle(h.req_handle)
                &&& !old(store).readers.live().contains_key(h.req_body_handle)
                &&& !old(store).writers.live().contains_key(h.res_body_handle)
                &&& !old(store).request_heads.live().contains_key(h.req_handle)
                &&& final(store).readers.live() == old(store).readers.live().insert(
                    h.req_body_handle,
                    now_ms,
                )
                &&& final(store).writers.live() == old(store).writers.live().insert(
                    h.res_body_handle,
                    now_ms,
                )
                &&& final(store).request_heads.live() == old(store).request_heads.live().insert(
                    h.req_handle,
                    now_ms,
                )
            },
            Err(f) => {
                let max = old(store).config.max_handles;
                &&& old(store).readers.live().len() >= max || old(store).writers.live().len()
                    >= max || old(store).request_heads.live().len() >= max
                &&& f.status == 503 && f.body@ == "server handle table full"@
                &&& final(store).guarded() == old(store).guarded()
            },
        },
{
    let mut guard = InsertGuard::new();
    let ghost start = store.guarded();
    let req_body_handle: u64 = match guard.insert_reader(store, now_ms) {
        Ok(h) => h,
        Err(_) => {
            return Err(Refusal { status: 503, body: "server handle table full" });
        },
    };
    proof {
        assert(guard.held@ =~= seq![crate::guard::TrackedHandle::Reader(req_body_handle)]);
    }
    let ghost held1 = guard.held@;
    let res_body_handle: u64 = match guard.insert_writer(store, now_ms) {
        Ok(h) => h,
        Err(_) => {
            proof {
                assert(store.guarded() =~= crate::guard::with_handle(start, held1[0], now_ms));
                assert(held1.drop_last() =~= Seq::empty());
                assert(without_handles(store.guarded(), held1.drop_last()) == store.guarded());
                assert(without_handles(store.guarded(), held1) =~= start);
            }
            guard.rollback(store);
            return Err(Refusal { status: 503, body: "server handle table full" });
        },
    };
    proof {
        assert(guard.held@ =~= held1.push(crate::guard::TrackedHandle::Writer(res_body_handle)));
    }
    let ghost held2 = guard.held@;
    let req_handle: u64 = match guard.allocate_req_handle(store, now_ms) {
        Ok(h) => h,
        Err(_) => {
            proof {
                assert(held2.drop_last() =~= held1);
                assert(held1.drop_last() =~= Seq::empty());
                let now = store.guarded();
                assert(without_handles(now, held1.drop_last()) == now);
                assert(without_handles(now, held1) == crate::guard::without_handle(now, held1[0]));
                assert(without_handles(now, held2) =~= start);
            }
            guard.rollback(store);
            return Err(Refusal { status: 503, body: "server handle table full" });
        },
    };
    let _ = guard.commit();
    Ok(RequestHandles { req_handle, req_body_handle, res_body_handle })
}

/// What the handler is told of a request.
pub fn on_request_fire(
    handles: RequestHandles,
    method: String,
    url: String,
    headers: Vec<(String, String)>,
    remote_node_id: String,
    is_bidi: bool,
) -> (r: RequestPayload)
    ensures
        r.req_handle == handles.req_handle,
        r.req_body_handle == handles.req_body_handle,
        r.res_body_handle == handles.res_body_handle,
        r.method == method,
        r.url == url,
        r.headers == headers,
        r.remote_node_id == remote_node_id,
        r.is_bidi == is_bidi,
{
    RequestPayload {
        req_handle: handles.req_handle,
        req_body_handle: handles.req_body_handle,
        res_body_handle: handles.res_body_handle,
        method,
        url,
        headers,
        remote_node_id,
        is_bidi,
    }
}

/// Whether a request that asks for a duplex stream has what that takes.
pub open spec fn duplex_allowed(
    method: Seq<char>,
    headers: Seq<(Seq<char>, Seq<char>)>,
) -> bool {
    connection_upgrades(headers) && method == "CONNECT"@
}

/// Opens an incoming request: checks its head, decides whether it is a duplex
/// request (where those are taken at all), gives out its handles and says what
/// the handler is told. Every refusal leaves the live handles as they were.
pub fn open_request(
    store: &mut HandleStore,
    head: &IncomingHead,
    remote: &str,
    own_node_id: &str,
    limit: Option<usize>,
    takes_duplex: bool,
    now_ms: u64,
) -> (r: Result<RequestPayload, Refusal>)
    requires
        old(store).wf(),
        old(store).readers.live().len() < MAX_LIVE,
        old(store).writers.live().len() < MAX_LIVE,
        old(store).request_heads.live().len() < MAX_LIVE,
    ensures
        final(store).wf(),
        final(store).config == old(store).config,
        final(store).sessions == old(store).sessions,
        final(store).fetch_cancels == old(store).fetch_cancels,
        final(store).pending_readers == old(store).pending_readers,
        ({
            let told = admitted_headers(
                raw_view(head.headers@),
                remote@,
                head.uri@,
                head.method@,
                limit,
            );
            let max = old(store).config.max_handles;
            let full = old(store).readers.live().len() >= max || old(store).writers.live().len()
                >= max || old(store).request_heads.live().len() >= max;
            match r {
                Ok(p) => {
                    &&& told == Ok::<Seq<(Seq<char>, Seq<char>)>, (u16, Seq<char>)>(
                        pairs_view(p.headers@),
                    )
                    &&& p.is_bidi == (takes_duplex && asks_duplex(told->Ok_0))
                    &&& p.is_bidi ==> duplex_allowed(head.method@, told->Ok_0)
                    &&& !full
                    &&& p.method@ == head.method@
                    &&& p.remote_node_id@ == remote@
                    &&& p.url@ == "httpi://"@ + own_node_id@ + (match head.path_and_query {
                        Some(q) => q@,
                        None => "/"@,
                    })
                    &&& well_formed_handle(p.req_body_handle)
                    &&& well_formed_handle(p.res_body_handle)
                    &&& well_formed_handle(p.req_handle)
                    &&& !old(store).readers.live().contains_key(p.req_body_handle)
                    &&& !old(store).writers.live().contains_key(p.res_body_handle)
                    &&& !old(store).request_heads.live().contains_key(p.req_handle)
                    &&& final(store).readers.live() == old(store).readers.live().insert(
                        p.req_body_handle,
                        now_ms,
                    )
                    &&& final(store).writers.live() == old(store).writers.live().insert(
                        p.res_body_handle,
                        now_ms,
                    )
                    &&& final(store).request_heads.live() == old(store).request_heads.live().insert(
                        p.req_handle,
                        now_ms,
                    )
                },
                Err(f) => {
                    &&& final(store).guarded() == old(store).guarded()
                    &&& match told {
                        Err(e) => (f.status, f.body@) == e,
                        Ok(h) => if takes_duplex && asks_duplex(h) && !duplex_allowed(
                            head.method@,
                            h,
                        ) {
                            f.status == 400 && f.body@
                                == "duplex upgrade requires CONNECT method with Connection: upgrade header"@
                        } else {
                            full && f.status == 503 && f.body@ == "server handle table full"@
                        },
                    }
                },
            }
        }),
{
    let headers = match admit_headers(head, remote, limit) {
        Ok(h) => h,
        Err(f) => {
            return Err(f);
        },
    };
    let is_bidi: bool = if takes_duplex {
        match duplex_upgrade(&head.method, &headers) {
            Ok(b) => b,
            Err(f) => {
                return Err(f);
            },
        }
    } else {
        false
    };
    let url = request_url(own_node_id, &head.path_and_query);
    match allocate_request(store, now_ms) {
        Err(f) => Err(f),
        Ok(handles) => Ok(
            on_request_fire(
                handles,
                head.method.clone(),
                url,
                headers,
                remote.to_owned(),
                is_bidi,
            ),
        ),
    }
}

// ── Answers ──────────────────────────────────────────────────────────────────

/// What ends the wait for a handler's answer.
#[derive(Debug)]
pub enum DispatchEvent {
    /// The request body went over its limit first.
    BodyOverflow,
    /// The handler answered.
    Head(ResponseHeadEntry),
    /// The handler's slot was dropped without an answer.
    HandlerDropped,
}

/// What is sent back.
#[derive(Debug)]
pub enum DispatchReply {
    /// A status with a fixed text.
    Text(Refusal),
    /// The handler's head without a body.
    HeadOnly(ResponseHeadEntry),
    /// The handler's head with the response body behind it.
    HeadAndBody(ResponseHeadEntry),
    /// Status 101 with `Connection: Upgrade` and `Upgrade: iroh-duplex`; the two
    /// body channels become the stream.
    SwitchProtocols,
}

/// What is sent back once the wait has ended. A duplex stream is opened only by a
/// handler that answers 101; any other answer to a duplex request is sent as it
/// is, without a body.
pub fn conclude(is_bidi: bool, event: DispatchEvent) -> (r: DispatchReply)
    ensures
        match event {
            DispatchEvent::BodyOverflow => r matches DispatchReply::Text(f) && f.status == 413
                && f.body@ == "request body too large"@,
            DispatchEvent::HandlerDropped => r matches DispatchReply::Text(f) && f.status == 500
                && f.body@ == "JS handler dropped without responding"@,
            DispatchEvent::Head(h) => if is_bidi {
                if h.status == 101 {
                    r is SwitchProtocols
                } else {
                    r == DispatchReply::HeadOnly(h)
                }
            } else {
                r == DispatchReply::HeadAndBody(h)
            },
        },
{
    match event {
        DispatchEvent::BodyOverflow => DispatchReply::Text(
            Refusal { status: 413, body: "request body too large" },
        ),
        DispatchEvent::HandlerDropped => DispatchReply::Text(
            Refusal { status: 500, body: "JS handler dropped without responding" },
        ),
        DispatchEvent::Head(h) => {
            if is_bidi {
                if h.status == 101 {
                    DispatchReply::SwitchProtocols
                } else {
                    DispatchReply::HeadOnly(h)
                }
            } else {
                DispatchReply::HeadAndBody(h)
            }
        },
    }
}

/// The head with which a stream switches to a duplex stream.
pub fn switch_head() -> (r: ResponseHeadEntry)
    ensures
        r.status == 101,
        pairs_view(r.headers@) == seq![
            ("connection"@, "Upgrade"@),
            ("upgrade"@, "iroh-duplex"@),
        ],
{
    let mut headers: Vec<(String, String)> = Vec::new();
    headers.push((String::from_str("connection"), String::from_str("Upgrade")));
    headers.push((String::from_str("upgrade"), String::from_str("iroh-duplex")));
    proof {
        assert(pairs_view(headers@) =~= seq![
            ("connection"@, "Upgrade"@),
            ("upgrade"@, "iroh-duplex"@),
        ]);
    }
    ResponseHeadEntry { status: 101, headers }
}

/// What is sent where the handler's head could not be built.
pub fn build_failed() -> (r: Refusal)
    ensures
        r.status == 500,
        r.body@ == "failed to build response head from JS"@,
{
    Refusal { status: 500, body: "failed to build response head from JS" }
}

/// What is wrong with a response head, if anything is.
pub open spec fn head_fault(status: u16, headers: Seq<(Seq<char>, Seq<char>)>) -> Option<
    ErrorView,
> {
    if !valid_status(status) {
        Some(bad_status(status))
    } else {
        headers_fault(HeadKind::Response, headers)
    }
}

/// Takes the response slot of a request for a handler's answer, once the answer
/// is one that HTTP allows. A slot can be taken once.
pub fn respond(
    store: &mut HandleStore,
    req_handle: u64,
    status: u16,
    headers: Vec<(String, String)>,
) -> (r: Result<ResponseHeadEntry, CoreError>)
    requires
        old(store).wf(),
    ensures
        final(store).wf(),
        final(store).same_but_heads(old(store)),
        match r {
            Ok(entry) => {
                &&& head_fault(status, pairs_view(headers@)) is None
                &&& old(store).request_heads.live().contains_key(canonical(req_handle))
                &&& entry.status == status
                &&& entry.headers == headers
                &&& final(store).request_heads.live() == old(store).request_heads.live().remove(
                    canonical(req_handle),
                )
            },
            Err(e) => match head_fault(status, pairs_view(headers@)) {
                Some(f) => e@ == f && final(store).request_heads == old(store).request_heads,
                None => {
                    &&& !old(store).request_heads.live().contains_key(canonical(req_handle))
                    &&& e@ == unknown_handle(req_handle)
                    &&& final(store).request_heads.live() == old(store).request_heads.live()
                },
            },
        },
{
    if let Err(e) = check_status(status) {
        return Err(e);
    }
    if let Err(e) = check_headers(HeadKind::Response, &headers) {
        return Err(e);
    }
    if store.take_req_sender(req_handle) {
        Ok(ResponseHeadEntry { status, headers })
    } else {
        proof {
            assert(store.request_heads.live() =~= old(store).request_heads.live());
        }
        Err(CoreError::invalid_handle(req_handle))
    }
}

/// What the handler is told where its answer came too late for anyone to send.
pub fn answer_unclaimed() -> (r: CoreError)
    ensures
        r@ == (ErrorCode::Internal, "serve task dropped before respond"@),
{
    CoreError::internal("serve task dropped before respond")
}

// ── Laws ─────────────────────────────────────────────────────────────────────

/// A header claims the peer's identity where its name is `peer-id`, in any case.
pub proof fn names_that_claim_identity(name: Seq<char>)
    ensures
        claims_peer_id(name) <==> same_ignoring_case(name, "peer-id"@),
{
}

/// Raw headers are seen as they are.
pub proof fn raw_headers_are_seen_whole(headers: Seq<(String, Vec<u8>)>)
    ensures
        raw_view(headers).len() == headers.len(),
        forall|i: int|
            0 <= i < headers.len() ==> #[trigger] raw_view(headers)[i] == (
                headers[i].0@,
                headers[i].1@,
            ),
{
}

/// The headers as text are those of the request that do not claim the peer's identity:
/// every one of them, in order, with its name and its value. There are none exactly where
/// one of these values is not visible.
pub proof fn every_other_header_is_kept(headers: Seq<RawHeader>)
    ensures
        ({
            let kept = headers.filter(
                |h: RawHeader| !same_ignoring_case(h.0, "peer-id"@),
            );
            match plain_headers(headers) {
                Some(told) => {
                    &&& told.len() == kept.len()
                    &&& forall|i: int|
                        0 <= i < kept.len() ==> {
                            &&& (#[trigger] told[i]).0 == kept[i].0
                            &&& told[i].1 == ascii_text(kept[i].1)
                            &&& visible(kept[i].1)
                        }
                },
                None => exists|i: int| 0 <= i < kept.len() && !visible((#[trigger] kept[i]).1),
            }
        }),
    decreases headers.len(),
{
    reveal(Seq::filter);
    let p = |h: RawHeader| !same_ignoring_case(h.0, "peer-id"@);
    let kept = headers.filter(p);
    if headers.len() > 0 {
        let init = headers.drop_last();
        every_other_header_is_kept(init);
        let before = init.filter(p);
        let last = headers.last();
        assert(kept == (if p(last) {
            before.push(last)
        } else {
            before
        }));
        match plain_headers(init) {
            None => {
                let i = choose|i: int| 0 <= i < before.len() && !visible((#[trigger] before[i]).1);
                assert(kept[i] == before[i]);
            },
            Some(said) => {
                if p(last) {
                    assert(kept[before.len() as int] == last);
                    if visible(last.1) {
                        let told = plain_headers(headers)->Some_0;
                        assert forall|i: int| 0 <= i < kept.len() implies {
                            &&& (#[trigger] told[i]).0 == kept[i].0
                            &&& told[i].1 == ascii_text(kept[i].1)
                            &&& visible(kept[i].1)
                        } by {
                            if i < before.len() {
                                assert(told[i] == said[i]);
                                assert(kept[i] == before[i]);
                            }
                        }
                    }
                }
            },
        }
    }
}

/// A handler is told every header of the request that does not claim the peer's identity,
/// in order, each with its value, and then the peer that the transport has proved; there
/// is nothing else in the list.
pub proof fn handlers_are_told_every_header(
    headers: Seq<RawHeader>,
    remote: Seq<char>,
    uri: Seq<char>,
    method: Seq<char>,
    limit: Option<usize>,
)
    requires
        admitted_headers(headers, remote, uri, method, limit) is Ok,
    ensures
        ({
            let told = admitted_headers(headers, remote, uri, method, limit)->Ok_0;
            let kept = headers.filter(
                |h: RawHeader| !same_ignoring_case(h.0, "peer-id"@),
            );
            &&& told.len() == kept.len() + 1
            &&& told.last() == ("peer-id"@, remote)
            &&& forall|i: int|
                0 <= i < kept.len() ==> (#[trigger] told[i]).0 == kept[i].0 && told[i].1
                    == ascii_text(kept[i].1)
        }),
{
    every_other_header_is_kept(headers);
    let kept = headers.filter(|h: RawHeader| !same_ignoring_case(h.0, "peer-id"@));
    let plain = plain_headers(headers)->Some_0;
    let told = admitted_headers(headers, remote, uri, method, limit)->Ok_0;
    assert forall|i: int| 0 <= i < kept.len() implies (#[trigger] told[i]).0 == kept[i].0
        && told[i].1 == ascii_text(kept[i].1) by {
        assert(told[i] == plain[i]);
    }
}

/// A request is refused for its headers exactly where its head is larger than the limit,
/// with 431, or else where one of the values that the handler would be told is not
/// visible, with 400.
pub proof fn heads_are_refused_for_a_reason(
    headers: Seq<RawHeader>,
    remote: Seq<char>,
    uri: Seq<char>,
    method: Seq<char>,
    limit: Option<usize>,
)
    requires
        head_size(headers, remote, uri, method) <= usize::MAX,
    ensures
        ({
            let large = limit is Some && head_size(headers, remote, uri, method) > limit->Some_0;
            let kept = headers.filter(
                |h: RawHeader| !same_ignoring_case(h.0, "peer-id"@),
            );
            let hidden = exists|i: int| 0 <= i < kept.len() && !visible((#[trigger] kept[i]).1);
            let r = admitted_headers(headers, remote, uri, method, limit);
            &&& r is Err <==> large || hidden
            &&& large ==> r == Err::<Seq<(Seq<char>, Seq<char>)>, (u16, Seq<char>)>((431, ""@))
            &&& !large && hidden ==> r == Err::<Seq<(Seq<char>, Seq<char>)>, (u16, Seq<char>)>(
                (400, "non-UTF8 header value"@),
            )
        }),
{
    every_other_header_is_kept(headers);
    let kept = headers.filter(|h: RawHeader| !same_ignoring_case(h.0, "peer-id"@));
    if let Some(told) = plain_headers(headers) {
        assert forall|i: int| 0 <= i < kept.len() implies visible((#[trigger] kept[i]).1) by {
            assert(told[i].0 == kept[i].0);
        }
    }
}

/// The size of a head counts every header that is handed on, with four bytes more for
/// each, the identity that is added, the target, the method and twelve bytes more.
pub proof fn heads_count_what_is_handed_on(
    a: Seq<RawHeader>,
    b: Seq<RawHeader>,
    h: RawHeader,
    remote: Seq<char>,
    uri: Seq<char>,
    method: Seq<char>,
)
    ensures
        counted_bytes(a + b) == counted_bytes(a) + counted_bytes(b),
        counted_bytes(seq![h]) == (if same_ignoring_case(h.0, "peer-id"@) {
            0
        } else {
            vstd::utf8::encode_utf8(h.0).len() + h.1.len() + 4
        }),
        head_size(a, remote, uri, method) == counted_bytes(a) + 7 + vstd::utf8::encode_utf8(
            remote,
        ).len() + 4 + vstd::utf8::encode_utf8(uri).len() + vstd::utf8::encode_utf8(method).len()
            + 12,
    decreases b.len(),
{
    if b.len() == 0 {
        assert(a + b =~= a);
    } else {
        heads_count_what_is_handed_on(a, b.drop_last(), h, remote, uri, method);
        assert((a + b).drop_last() =~= a + b.drop_last());
    }
    assert(seq![h].drop_last() =~= Seq::empty());
    assert(counted_bytes(seq![h].drop_last()) == 0);
}

/// A number that fits is not capped, and no other comes out larger than fits.
pub proof fn capping(n: nat)
    ensures
        n <= usize::MAX ==> capped(n) == n,
        n > usize::MAX ==> capped(n) == usize::MAX,
{
}

/// A request asks for a duplex stream by an `Upgrade` header that says `iroh-duplex`. It
/// may have one where it is a `CONNECT` and a `Connection` header holds the token
/// `upgrade`.
pub proof fn who_asks_for_a_duplex_stream(method: Seq<char>, headers: Seq<(Seq<char>, Seq<char>)>)
    ensures
        asks_duplex(headers) <==> exists|i: int|
            0 <= i < headers.len() && same_ignoring_case((#[trigger] headers[i]).0, "upgrade"@)
                && same_ignoring_case(headers[i].1, "iroh-duplex"@),
        duplex_allowed(method, headers) <==> method == "CONNECT"@ && exists|i: int|
            0 <= i < headers.len() && same_ignoring_case((#[trigger] headers[i]).0, "connection"@)
                && has_token(headers[i].1, "upgrade"@),
        connection_upgrades(headers) <==> exists|i: int|
            0 <= i < headers.len() && same_ignoring_case((#[trigger] headers[i]).0, "connection"@)
                && has_token(headers[i].1, "upgrade"@),
{
}

/// An answer is sent exactly where its status has three digits and its headers are taken;
/// the status is looked at first.
pub proof fn answers_are_checked(status: u16, headers: Seq<(Seq<char>, Seq<char>)>)
    ensures
        head_fault(status, headers) is None <==> 100 <= status <= 999 && headers_fault(
            HeadKind::Response,
            headers,
        ) is None,
        !(100 <= status <= 999) ==> head_fault(status, headers) == Some(bad_status(status)),
        100 <= status <= 999 ==> head_fault(status, headers) == headers_fault(
            HeadKind::Response,
            headers,
        ),
{
}

} // verus!
