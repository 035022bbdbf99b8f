//! Plain values that cross the boundary to foreign-language callers.
use vstd::prelude::*;

verus! {

/// A flat response head.
///
/// `body_handle` is `0` for responses that have no body (status 204, 205, 304).
#[derive(Debug, Clone)]
pub struct FfiResponse {
    pub status: u16,
    pub headers: Vec<(String, String)>,
    /// Handle of the reader of the response body.
    pub body_handle: u64,
    /// Full `httpi://` URL of the responding peer.
    pub url: String,
}

/// What a request handler is told of an incoming request.
#[derive(Debug)]
pub struct RequestPayload {
    /// Handle of the response slot that the handler must answer through.
    pub req_handle: u64,
    /// Handle of the reader of the request body.
    pub req_body_handle: u64,
    /// Handle of the writer of the response body.
    pub res_body_handle: u64,
    pub method: String,
    pub url: String,
    pub headers: Vec<(String, String)>,
    pub remote_node_id: String,
    pub is_bidi: bool,
}

/// The node id of the peer that a request came from, as the transport has proved it.
#[derive(Debug, Clone)]
pub struct RemoteNodeId(pub std::sync::Arc<String>);

/// Handles for the two sides of a full-duplex stream.
#[derive(Debug, Clone, Copy, PartialEq, Eq, Structural)]
pub struct FfiDuplexStream {
    pub read_handle: u64,
    pub write_handle: u64,
}

} // verus!
