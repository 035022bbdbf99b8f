//! The layers around the service that answers requests, and around the one that
//! sends them.
use vstd::prelude::*;

use crate::text::{
    begins_with, eq_ignore_case, has_prefix, has_token, list_has_token, same_ignoring_case,
};

verus! {

/// Compression options for response bodies.
#[derive(Debug, Clone, Copy)]
pub struct CompressionOptions {
    /// Minimum body size in bytes before compression is applied.
    /// Default: 1 KiB.
    pub min_body_bytes: usize,
    /// Zstd compression level (1–22). `None` uses the zstd default (3).
    pub level: Option<u32>,
}

impl CompressionOptions {
    /// Default minimum body size before compression is applied.
    pub const DEFAULT_MIN_BODY_BYTES: usize = 1024;
}

impl Default for CompressionOptions {
    fn default() -> (r: Self)
        ensures
            r.min_body_bytes == 1024,
            r.level is None,
    {
        CompressionOptions { min_body_bytes: CompressionOptions::DEFAULT_MIN_BODY_BYTES, level: None }
    }
}

/// Configuration of the layers, shared by the serving and the fetching side.
#[derive(Clone, Copy, Debug)]
#[non_exhaustive]
pub struct StackConfig {
    /// Per-request timeout in milliseconds. `None` means no timeout.
    pub timeout_ms: Option<u64>,
    /// Maximum **wire** request body size before the server rejects with 413,
    /// counted before decompression.
    pub max_request_body_wire_bytes: Option<usize>,
    /// Maximum **decoded** request body size before the server rejects with 413,
    /// counted after decompression: the guard against compression bombs.
    pub max_request_body_decoded_bytes: Option<usize>,
    /// Whether saturated capacity answers 503 at once rather than blocking.
    pub load_shed: bool,
    /// Response compression. `None` disables it.
    pub compression: Option<CompressionOptions>,
    /// Whether compressed bodies are decompressed.
    pub decompression: bool,
}

impl Default for StackConfig {
    fn default() -> (r: Self)
        ensures
            r.timeout_ms is None,
            r.max_request_body_wire_bytes is None,
            r.max_request_body_decoded_bytes is None,
            !r.load_shed,
            r.compression is None,
            r.decompression,
    {
        StackConfig {
            timeout_ms: None,
            max_request_body_wire_bytes: None,
            max_request_body_decoded_bytes: None,
            load_shed: false,
            compression: None,
            decompression: true,
        }
    }
}

impl StackConfig {
    /// Sets the timeout.
    #[must_use]
    pub fn with_timeout(self, timeout_ms: Option<u64>) -> (r: Self)
        ensures
            r == (StackConfig { timeout_ms, ..self }),
    {
        StackConfig { timeout_ms, ..self }
    }

    /// Sets whether bodies are decompressed.
    #[must_use]
    pub fn with_decompression(self, decompression: bool) -> (r: Self)
        ensures
            r == (StackConfig { decompression, ..self }),
    {
        StackConfig { decompression, ..self }
    }
}

// ── Layers ───────────────────────────────────────────────────────────────────

/// A layer around a service.
#[derive(Debug, Clone, Copy)]
pub enum LayerSpec {
    /// Rejects bodies of more than so many bytes with 413.
    BodyLimit(usize),
    /// Decompresses bodies.
    Decompression,
    /// Compresses response bodies.
    Compression(CompressionOptions),
    /// Answers 408 after so many milliseconds.
    Timeout(u64),
    /// Answers 503 at once when the service is saturated.
    LoadShed,
}

/// The layer list with nothing in it, or with one layer.
pub open spec fn limit_layer(limit: Option<usize>) -> Seq<LayerSpec> {
    match limit {
        Some(n) => seq![LayerSpec::BodyLimit(n)],
        None => Seq::empty(),
    }
}

/// The layers around a serving service, innermost first: the limit on decoded
/// bytes stands inside decompression, the limit on wire bytes outside of all.
pub open spec fn serving_layers(cfg: StackConfig) -> Seq<LayerSpec> {
    limit_layer(cfg.max_request_body_decoded_bytes) + (if cfg.decompression {
        seq![LayerSpec::Decompression]
    } else {
        Seq::empty()
    }) + (match cfg.compression {
        Some(c) => seq![LayerSpec::Compression(c)],
        None => Seq::empty(),
    }) + (match cfg.timeout_ms {
        Some(t) => seq![LayerSpec::Timeout(t)],
        None => Seq::empty(),
    }) + (if cfg.load_shed {
        seq![LayerSpec::LoadShed]
    } else {
        Seq::empty()
    }) + limit_layer(cfg.max_request_body_wire_bytes)
}

/// The layers around a serving service, innermost first. What the configuration
/// leaves off adds no layer.
pub fn build_stack(cfg: &StackConfig) -> (r: Vec<LayerSpec>)
    ensures
        r@ == serving_layers(*cfg),
{
    let mut layers: Vec<LayerSpec> = Vec::new();
    if let Some(n) = cfg.max_request_body_decoded_bytes {
        layers.push(LayerSpec::BodyLimit(n));
    }
    if cfg.decompression {
        layers.push(LayerSpec::Decompression);
    }
    if let Some(c) = cfg.compression {
        layers.push(LayerSpec::Compression(c));
    }
    if let Some(t) = cfg.timeout_ms {
        layers.push(LayerSpec::Timeout(t));
    }
    if cfg.load_shed {
        layers.push(LayerSpec::LoadShed);
    }
    if let Some(n) = cfg.max_request_body_wire_bytes {
        layers.push(LayerSpec::BodyLimit(n));
    }
    proof {
        assert(layers@ =~= serving_layers(*cfg));
    }
    layers
}

/// The layers around a fetching service. The timeout is kept outside of them.
pub fn build_client_stack(cfg: &StackConfig) -> (r: Vec<LayerSpec>)
    ensures
        r@ == (if cfg.decompression {
            seq![LayerSpec::Decompression]
        } else {
            Seq::empty()
        }),
{
    let mut layers: Vec<LayerSpec> = Vec::new();
    if cfg.decompression {
        layers.push(LayerSpec::Decompression);
    }
    proof {
        assert(layers@ =~= (if cfg.decompression {
            seq![LayerSpec::Decompression]
        } else {
            Seq::<LayerSpec>::empty()
        }));
    }
    layers
}

/// A compressed body is counted where it arrives and again once it is expanded:
/// with both limits and decompression on, the decoded limit is the innermost
/// layer, the wire limit the outermost, and decompression stands between them.
pub proof fn both_limits_guard_decompression(cfg: StackConfig, wire: usize, decoded: usize)
    requires
        cfg.max_request_body_wire_bytes == Some(wire),
        cfg.max_request_body_decoded_bytes == Some(decoded),
        cfg.decompression,
    ensures
        serving_layers(cfg)[0] == LayerSpec::BodyLimit(decoded),
        serving_layers(cfg)[1] == LayerSpec::Decompression,
        serving_layers(cfg).last() == LayerSpec::BodyLimit(wire),
        serving_layers(cfg).len() >= 3,
{
}

// ── Failed layers ────────────────────────────────────────────────────────────

/// What a layer fails with.
#[derive(Debug, Clone, Copy, PartialEq, Eq, Structural)]
pub enum LayerFailure {
    /// The timeout passed.
    Elapsed,
    /// The service was saturated.
    Overloaded,
    /// Anything else.
    Other,
}

/// The answer to a request that a layer failed.
pub open spec fn failure_answer(f: LayerFailure) -> (u16, Seq<char>) {
    match f {
        LayerFailure::Elapsed => (408, "request timed out"@),
        LayerFailure::Overloaded => (503, "server at capacity"@),
        LayerFailure::Other => (500, "internal server error"@),
    }
}

/// The status and the body that a failed layer is answered with.
pub fn layer_error_response(f: LayerFailure) -> (r: (u16, &'static str))
    ensures
        (r.0, r.1@) == failure_answer(f),
{
    match f {
        LayerFailure::Elapsed => (408, "request timed out"),
        LayerFailure::Overloaded => (503, "server at capacity"),
        LayerFailure::Other => (500, "internal server error"),
    }
}

/// Whether a service can take a request.
#[derive(Debug, Clone, Copy, PartialEq, Eq, Structural)]
pub enum Readiness {
    Pending,
    Ready,
    Failed,
}

/// What is said of the readiness of a service behind the error layer, and
/// whether it is asked again at once. A service that failed is not ready: it must
/// not be called.
pub fn guarded_readiness(inner: Readiness) -> (r: (Readiness, bool))
    ensures
        r.0 is Ready <==> inner is Ready,
        r.0 is Pending <==> !(inner is Ready),
        r.1 == (inner is Failed),
{
    match inner {
        Readiness::Pending => (Readiness::Pending, false),
        Readiness::Ready => (Readiness::Ready, false),
        Readiness::Failed => (Readiness::Pending, true),
    }
}

// ── What is compressed ───────────────────────────────────────────────────────

/// Whether a response allows its body to be transformed: it must not carry a
/// `Content-Encoding`, nor `no-transform` in its `Cache-Control`.
pub open spec fn may_transform(has_content_encoding: bool, cache_control: Option<Seq<char>>) -> bool {
    !has_content_encoding && match cache_control {
        Some(v) => !has_token(v, "no-transform"@),
        None => true,
    }
}

/// Whether a response allows its body to be transformed.
pub fn allows_transform(has_content_encoding: bool, cache_control: Option<&str>) -> (r: bool)
    ensures
        r == may_transform(
            has_content_encoding,
            match cache_control {
                Some(v) => Some(v@),
                None => None,
            },
        ),
{
    if has_content_encoding {
        return false;
    }
    match cache_control {
        Some(v) => !list_has_token(v, "no-transform"),
        None => true,
    }
}

/// The media type of a `Content-Type`: what stands before the first semicolon.
pub open spec fn media_type(content_type: Seq<char>) -> Seq<char> {
    crate::text::trimmed(content_type.take(crate::text::first_index(content_type, ';')))
}

/// The first part of a media type.
pub open spec fn top_level_type(media: Seq<char>) -> Seq<char> {
    crate::text::trimmed(media.take(crate::text::first_index(media, '/')))
}

/// Whether a body of this type is compressed already.
pub open spec fn opaque_type(content_type: Seq<char>) -> bool {
    let media = media_type(content_type);
    let top = top_level_type(media);
    same_ignoring_case(media, "application/zstd"@) || same_ignoring_case(
        media,
        "application/octet-stream"@,
    ) || same_ignoring_case(top, "image"@) || same_ignoring_case(top, "audio"@)
        || same_ignoring_case(top, "video"@)
}

/// Whether a body of this type is worth compressing.
pub fn compressible_type(content_type: Option<&str>) -> (r: bool)
    ensures
        r == (match content_type {
            Some(t) => !opaque_type(t@),
            None => true,
        }),
{
    match content_type {
        None => true,
        Some(t) => {
            let v = crate::text::chars_of(t);
            let end = crate::text::index_of(&v, ';');
            let media = crate::text::trim_piece(&v, 0, end);
            proof {
                assert(v@.subrange(0, end as int) =~= t@.take(end as int));
            }
            let m = crate::text::chars_of(&media);
            let slash = crate::text::index_of(&m, '/');
            let top = crate::text::trim_piece(&m, 0, slash);
            proof {
                assert(m@.subrange(0, slash as int) =~= media@.take(slash as int));
            }
            !(eq_ignore_case(&media, "application/zstd") || eq_ignore_case(
                &media,
                "application/octet-stream",
            ) || eq_ignore_case(&top, "image") || eq_ignore_case(&top, "audio") || eq_ignore_case(
                &top,
                "video",
            ))
        },
    }
}

/// Whether a content type is one that the compression layer passes over, by its
/// beginning: pictures but for SVG, event streams, sound, film, what is compressed
/// and what is opaque.
pub open spec fn exempt_type(content_type: Seq<char>) -> bool {
    (begins_with(content_type, "image/"@) && !begins_with(content_type, "image/svg+xml"@))
        || begins_with(content_type, "text/event-stream"@) || begins_with(
        content_type,
        "audio/"@,
    ) || begins_with(content_type, "video/"@) || begins_with(content_type, "application/zstd"@)
        || begins_with(content_type, "application/octet-stream"@)
}

/// Whether the compression layer passes over a content type.
pub fn is_exempt_type(content_type: &str) -> (r: bool)
    ensures
        r == exempt_type(content_type@),
{
    (has_prefix(content_type, "image/") && !has_prefix(content_type, "image/svg+xml"))
        || has_prefix(content_type, "text/event-stream") || has_prefix(content_type, "audio/")
        || has_prefix(content_type, "video/") || has_prefix(content_type, "application/zstd")
        || has_prefix(content_type, "application/octet-stream")
}

/// Whether the compression layer compresses a response: its body is not known to be
/// small, its type is not exempt, and it may be transformed. `size` is the body's
/// exact size, where that is known.
pub fn should_compress(
    comp: &CompressionOptions,
    size: Option<u64>,
    content_type: Option<&str>,
    has_content_encoding: bool,
    cache_control: Option<&str>,
) -> (r: bool)
    ensures
        r == ((size matches Some(n) ==> n >= comp.min_body_bytes) && (content_type matches Some(t)
            ==> !exempt_type(t@)) && may_transform(
            has_content_encoding,
            match cache_control {
                Some(v) => Some(v@),
                None => None,
            },
        )),
{
    if let Some(n) = size {
        if n < comp.min_body_bytes as u64 {
            return false;
        }
    }
    if let Some(t) = content_type {
        if is_exempt_type(t) {
            return false;
        }
    }
    allows_transform(has_content_encoding, cache_control)
}

// ── Laws ─────────────────────────────────────────────────────────────────────

/// A layer stands in the stack exactly where it is configured, with what is configured for
/// it, and none stands there that is not.
pub proof fn layers_follow_the_configuration(cfg: StackConfig)
    ensures
        ({
            let layers = serving_layers(cfg);
            &&& layers.contains(LayerSpec::Decompression) <==> cfg.decompression
            &&& layers.contains(LayerSpec::LoadShed) <==> cfg.load_shed
            &&& forall|t: u64| #[trigger]
                layers.contains(LayerSpec::Timeout(t)) <==> cfg.timeout_ms == Some(t)
            &&& forall|c: CompressionOptions| #[trigger]
                layers.contains(LayerSpec::Compression(c)) <==> cfg.compression == Some(c)
            &&& forall|n: usize| #[trigger]
                layers.contains(LayerSpec::BodyLimit(n)) <==> cfg.max_request_body_decoded_bytes
                    == Some(n) || cfg.max_request_body_wire_bytes == Some(n)
        }),
{
    layers_contain(cfg, LayerSpec::Decompression);
    layers_contain(cfg, LayerSpec::LoadShed);
    let layers = serving_layers(cfg);
    assert forall|t: u64| #[trigger] layers.contains(LayerSpec::Timeout(t)) <==> cfg.timeout_ms
        == Some(t) by {
        layers_contain(cfg, LayerSpec::Timeout(t));
    }
    assert forall|c: CompressionOptions| #[trigger]
        layers.contains(LayerSpec::Compression(c)) <==> cfg.compression == Some(c) by {
        layers_contain(cfg, LayerSpec::Compression(c));
    }
    assert forall|n: usize| #[trigger]
        layers.contains(LayerSpec::BodyLimit(n)) <==> cfg.max_request_body_decoded_bytes == Some(n)
        || cfg.max_request_body_wire_bytes == Some(n) by {
        layers_contain(cfg, LayerSpec::BodyLimit(n));
    }
}

proof fn layers_contain(cfg: StackConfig, x: LayerSpec)
    ensures
        serving_layers(cfg).contains(x) <==> (match x {
            LayerSpec::Decompression => cfg.decompression,
            LayerSpec::LoadShed => cfg.load_shed,
            LayerSpec::Timeout(t) => cfg.timeout_ms == Some(t),
            LayerSpec::Compression(c) => cfg.compression == Some(c),
            LayerSpec::BodyLimit(n) => cfg.max_request_body_decoded_bytes == Some(n)
                || cfg.max_request_body_wire_bytes == Some(n),
        }),
{
    let e = Seq::<LayerSpec>::empty();
    let s1 = limit_layer(cfg.max_request_body_decoded_bytes);
    let s2 = if cfg.decompression {
        seq![LayerSpec::Decompression]
    } else {
        e
    };
    let s3 = match cfg.compression {
        Some(c) => seq![LayerSpec::Compression(c)],
        None => e,
    };
    let s4 = match cfg.timeout_ms {
        Some(t) => seq![LayerSpec::Timeout(t)],
        None => e,
    };
    let s5 = if cfg.load_shed {
        seq![LayerSpec::LoadShed]
    } else {
        e
    };
    let s6 = limit_layer(cfg.max_request_body_wire_bytes);
    assert(serving_layers(cfg) == s1 + s2 + s3 + s4 + s5 + s6);
    either_holds(s1, s2, x);
    either_holds(s1 + s2, s3, x);
    either_holds(s1 + s2 + s3, s4, x);
    either_holds(s1 + s2 + s3 + s4, s5, x);
    either_holds(s1 + s2 + s3 + s4 + s5, s6, x);
    one_holds(s1, x);
    one_holds(s2, x);
    one_holds(s3, x);
    one_holds(s4, x);
    one_holds(s5, x);
    one_holds(s6, x);
}

proof fn one_holds(a: Seq<LayerSpec>, x: LayerSpec)
    requires
        a.len() <= 1,
    ensures
        a.contains(x) <==> a.len() == 1 && a[0] == x,
{
    if a.len() == 1 && a[0] == x {
        assert(a.contains(a[0]));
    }
}

proof fn either_holds(a: Seq<LayerSpec>, b: Seq<LayerSpec>, x: LayerSpec)
    ensures
        (a + b).contains(x) <==> a.contains(x) || b.contains(x),
{
    if a.contains(x) {
        let i = choose|i: int| 0 <= i < a.len() && a[i] == x;
        assert((a + b)[i] == x);
    }
    if b.contains(x) {
        let i = choose|i: int| 0 <= i < b.len() && b[i] == x;
        assert((a + b)[i + a.len()] == x);
    }
    if (a + b).contains(x) {
        let i = choose|i: int| 0 <= i < (a + b).len() && (a + b)[i] == x;
        if i < a.len() {
            assert(a[i] == x);
        } else {
            assert(b[i - a.len()] == x);
        }
    }
}

/// Layers stand from the innermost to the outermost: the limit on decoded bytes,
/// decompression, compression, timeout, load shedding and the limit on the wire.
pub proof fn layers_stand_in_order(
    t: u64,
    c: CompressionOptions,
    decoded: usize,
    wire: usize,
)
    ensures
        serving_layers(
            (StackConfig {
                timeout_ms: Some(t),
                max_request_body_wire_bytes: Some(wire),
                max_request_body_decoded_bytes: Some(decoded),
                load_shed: true,
                compression: Some(c),
                decompression: true,
            }),
        ) == seq![
            LayerSpec::BodyLimit(decoded),
            LayerSpec::Decompression,
            LayerSpec::Compression(c),
            LayerSpec::Timeout(t),
            LayerSpec::LoadShed,
            LayerSpec::BodyLimit(wire),
        ],
{
    let cfg = StackConfig {
        timeout_ms: Some(t),
        max_request_body_wire_bytes: Some(wire),
        max_request_body_decoded_bytes: Some(decoded),
        load_shed: true,
        compression: Some(c),
        decompression: true,
    };
    assert(serving_layers(cfg) =~= seq![
        LayerSpec::BodyLimit(decoded),
        LayerSpec::Decompression,
        LayerSpec::Compression(c),
        LayerSpec::Timeout(t),
        LayerSpec::LoadShed,
        LayerSpec::BodyLimit(wire),
    ]);
}

/// A timeout is answered with 408, an overload with 503, and anything else with 500.
pub proof fn failures_are_answered()
    ensures
        failure_answer(LayerFailure::Elapsed) == (408u16, "request timed out"@),
        failure_answer(LayerFailure::Overloaded) == (503u16, "server at capacity"@),
        failure_answer(LayerFailure::Other) == (500u16, "internal server error"@),
{
}

/// A body may be transformed exactly where it is not encoded already and `Cache-Control`
/// does not forbid it.
pub proof fn transforms_can_be_forbidden(encoded: bool, value: Seq<char>)
    ensures
        may_transform(encoded, None) <==> !encoded,
        may_transform(encoded, Some(value)) <==> !encoded && !has_token(value, "no-transform"@),
{
}

/// The media type of a content type ends before the first semicolon, and its top level
/// before the first slash; the white space around is taken off.
pub proof fn media_types_are_read(a: Seq<char>, b: Seq<char>)
    requires
        forall|i: int| 0 <= i < a.len() ==> #[trigger] a[i] != ';' && a[i] != '/',
    ensures
        media_type(a) == crate::text::trimmed(a),
        media_type(a + seq![';'] + b) == crate::text::trimmed(a),
        top_level_type(a) == crate::text::trimmed(a),
        top_level_type(a + seq!['/'] + b) == crate::text::trimmed(a),
{
    crate::text::first_index_points(a, ';');
    crate::text::first_index_points(a, '/');
    assert(a.take(a.len() as int) =~= a);
    let s = a + seq![';'] + b;
    let t = a + seq!['/'] + b;
    crate::text::first_index_points(s, ';');
    crate::text::first_index_points(t, '/');
    assert(s[a.len() as int] == ';');
    assert(t[a.len() as int] == '/');
    let k = crate::text::first_index(s, ';');
    let l = crate::text::first_index(t, '/');
    if k < a.len() {
        assert(s[k] == a[k]);
    }
    if l < a.len() {
        assert(t[l] == a[l]);
    }
    assert(s.take(k) =~= a);
    assert(t.take(l) =~= a);
}

/// Which types are taken for compressed already, and over which the layer passes.
pub proof fn types_that_stay_as_they_are(content_type: Seq<char>)
    ensures
        opaque_type(content_type) <==> {
            let media = media_type(content_type);
            let top = top_level_type(media);
            ||| same_ignoring_case(media, "application/zstd"@)
            ||| same_ignoring_case(media, "application/octet-stream"@)
            ||| same_ignoring_case(top, "image"@)
            ||| same_ignoring_case(top, "audio"@)
            ||| same_ignoring_case(top, "video"@)
        },
        exempt_type(content_type) <==> {
            ||| begins_with(content_type, "image/"@) && !begins_with(
                content_type,
                "image/svg+xml"@,
            )
            ||| begins_with(content_type, "text/event-stream"@)
            ||| begins_with(content_type, "audio/"@)
            ||| begins_with(content_type, "video/"@)
            ||| begins_with(content_type, "application/zstd"@)
            ||| begins_with(content_type, "application/octet-stream"@)
        },
{
}

} // verus!
