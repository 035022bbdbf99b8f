//! Zstd compression of whole bodies.
use vstd::prelude::*;

use crate::handles::{joined, parts_view, pieces, pieces_hold_the_chunk, split_chunk};
use crate::text::{eq_ignore_case, same_ignoring_case};

verus! {

/// Options for the compression of whole bodies.
#[derive(Debug, Clone, Copy, PartialEq, Eq, Structural)]
pub struct CompressionOptions {
    /// zstd compression level (1–22). Default: 3.
    pub level: i32,
    /// Bodies smaller than this many bytes are not compressed, where their size is
    /// known. Default: 512.
    pub min_body_bytes: usize,
}

impl Default for CompressionOptions {
    fn default() -> (r: Self)
        ensures
            r.level == 3,
            r.min_body_bytes == 512,
    {
        CompressionOptions { level: 3, min_body_bytes: 512 }
    }
}

/// The `Accept-Encoding` that is sent where compression is enabled.
pub const ACCEPT_ENCODING: &'static str = "zstd";

/// Whether a content encoding is zstd, in any case.
pub fn is_zstd(value: &str) -> (r: bool)
    ensures
        r == same_ignoring_case(value@, "zstd"@),
{
    eq_ignore_case(value, "zstd")
}

/// The size of the pieces in which a body travels.
pub const PIECE_SIZE: usize = 65536;

/// No larger buffer than twice this is tried for a body.
pub const LARGEST_BUFFER: usize = 268_435_456;

/// The content of zstd data, where it is such.
pub uninterp spec fn zstd_content(data: Seq<u8>) -> Option<Seq<u8>>;

/// What data is compressed to at a level.
pub uninterp spec fn zstd_compressed(data: Seq<u8>, level: i32) -> Seq<u8>;

/// Whether the mark of a frame of an early format, one before 0.8, stands somewhere in
/// data.
pub open spec fn has_early_mark(data: Seq<u8>) -> bool {
    exists|i: int|
        0 <= i && i + 4 <= data.len() && {
            ||| 0x22 <= #[trigger] data[i] <= 0x27 && data[i + 1] == 0xb5 && data[i + 2] == 0x2f
                && data[i + 3] == 0xfd
            ||| data[i] == 0xfd && data[i + 1] == 0x2f && data[i + 2] == 0xb5 && data[i + 3]
                == 0x1e
        }
}

/// `zstd::bulk::decompress`: what it gives is the content of the data, and it gives it
/// where it fits in a buffer of `capacity` bytes. Whether it does for a larger content is
/// not stated, for the buffer may come out larger; nor for frames of an early format, for
/// which it needs memory of its own, and fails where there is none. It panics on a
/// capacity that no buffer can have.
#[verifier::external_body]
fn decompress_once(data: &[u8], capacity: usize) -> (r: Result<Vec<u8>, String>)
    requires
        0 < capacity <= isize::MAX,
    ensures
        r matches Ok(out) ==> zstd_content(data@) == Some(out@),
        zstd_content(data@) is Some && zstd_content(data@)->Some_0.len() <= capacity
            && !has_early_mark(data@) ==> r is Ok,
{
    zstd::bulk::decompress(data, capacity).map_err(|e| e.to_string())
}

/// The size of the buffer into which data is compressed, but for a margin of at most 64
/// bytes that only small data has.
pub open spec fn worst_size(len: nat) -> nat {
    len + len / 256
}

/// `zstd::bulk::compress`: what it gives depends on the data and the level alone, and has
/// the data as its content. When it fails is not stated: it needs memory of its own, and
/// fails where there is none. It panics on data for which no buffer can be large enough.
#[verifier::external_body]
fn compress_once(data: &[u8], level: i32) -> (r: Result<Vec<u8>, String>)
    requires
        worst_size(data@.len()) <= isize::MAX,
    ensures
        r matches Ok(out) ==> out@ == zstd_compressed(data@, level) && zstd_content(out@) == Some(
            data@,
        ),
{
    zstd::bulk::compress(data, level).map_err(|e| e.to_string())
}

/// The buffer that is tried after one of `capacity` bytes was too small: twice as
/// large, or none.
pub fn next_capacity(capacity: usize) -> (r: Option<usize>)
    ensures
        r == (if capacity < LARGEST_BUFFER {
            Some((capacity * 2) as usize)
        } else {
            None
        }),
{
    if capacity < LARGEST_BUFFER {
        Some(capacity * 2)
    } else {
        None
    }
}

fn caused(lead: &str, cause: &str) -> (r: String)
    ensures
        r@ == lead@ + cause@,
{
    let mut s: String = String::from_str(lead);
    s.append(cause);
    s
}

/// The pieces of a body: none where it is empty.
pub open spec fn body_pieces(body: Seq<u8>) -> Seq<Seq<u8>> {
    if body.len() == 0 {
        Seq::empty()
    } else {
        pieces(body, PIECE_SIZE as nat)
    }
}

/// Cuts a body into pieces.
pub fn cut_body(body: &[u8]) -> (r: Vec<Vec<u8>>)
    ensures
        parts_view(r@) == body_pieces(body@),
        joined(parts_view(r@)) == body@,
{
    if body.len() == 0 {
        let r: Vec<Vec<u8>> = Vec::new();
        proof {
            assert(parts_view(r@) =~= Seq::empty());
            assert(joined(parts_view(r@)) =~= body@);
        }
        return r;
    }
    proof {
        pieces_hold_the_chunk(body@, PIECE_SIZE as nat);
    }
    split_chunk(body, PIECE_SIZE)
}

/// What follows an attempt to decompress a body.
#[derive(Debug)]
pub enum DecompressStep {
    /// The content is given back in these pieces.
    Done(Vec<Vec<u8>>),
    /// A buffer of this size is tried.
    Retry(usize),
    /// It is given up, with this error.
    Fail(String),
}

/// Decides what follows an attempt to decompress a body into a buffer of `capacity`
/// bytes: where it failed, a larger buffer is tried as long as there is one.
pub fn decompress_step(capacity: usize, outcome: Result<Vec<u8>, String>) -> (r: DecompressStep)
    ensures
        match outcome {
            Ok(content) => {
                &&& r matches DecompressStep::Done(parts)
                &&& parts_view(parts@) == body_pieces(content@)
                &&& joined(parts_view(parts@)) == content@
            },
            Err(cause) => if capacity < LARGEST_BUFFER {
                r matches DecompressStep::Retry(n) && n == capacity * 2
            } else {
                r matches DecompressStep::Fail(m) && m@ == "zstd decompress: "@ + cause@
            },
        },
{
    match outcome {
        Ok(content) => DecompressStep::Done(cut_body(&content)),
        Err(cause) => match next_capacity(capacity) {
            Some(n) => DecompressStep::Retry(n),
            None => DecompressStep::Fail(caused("zstd decompress: ", &cause)),
        },
    }
}

/// The largest buffer that is tried, where the first is one of `capacity` bytes.
pub open spec fn last_capacity(capacity: nat) -> nat
    decreases
            (if capacity < LARGEST_BUFFER {
                LARGEST_BUFFER - capacity
            } else {
                0
            }),
{
    if 0 < capacity < LARGEST_BUFFER {
        last_capacity(capacity * 2)
    } else {
        capacity
    }
}

/// Every content of up to [`LARGEST_BUFFER`] bytes fits in the largest buffer that is
/// tried.
pub proof fn last_capacity_is_large(capacity: nat)
    requires
        capacity > 0,
    ensures
        last_capacity(capacity) >= LARGEST_BUFFER,
        last_capacity(capacity) >= capacity,
    decreases
            (if capacity < LARGEST_BUFFER {
                LARGEST_BUFFER - capacity
            } else {
                0
            }),
{
    if capacity < LARGEST_BUFFER {
        last_capacity_is_large(capacity * 2);
    }
}

/// Decompresses a body, with larger and larger buffers, and gives the content in
/// pieces. An empty body is not looked into. The first buffer is four times as large as
/// the body, and every content that fits in the last one is given back; for one with
/// frames of an early format that is not stated.
pub fn decompress_body(compressed: &[u8]) -> (r: Result<Vec<Vec<u8>>, String>)
    requires
        compressed@.len() * 4 <= isize::MAX,
    ensures
        match r {
            Ok(parts) => if compressed@.len() == 0 {
                parts@.len() == 0
            } else {
                zstd_content(compressed@) is Some && parts_view(parts@) == body_pieces(
                    zstd_content(compressed@)->Some_0,
                ) && joined(parts_view(parts@)) == zstd_content(compressed@)->Some_0
            },
            Err(m) => compressed@.len() > 0 && exists|cause: Seq<char>|
                m@ == "zstd decompress: "@ + cause,
        },
        compressed@.len() == 0 ==> r is Ok,
        compressed@.len() > 0 && zstd_content(compressed@) is Some && !has_early_mark(compressed@)
            && zstd_content(compressed@)->Some_0.len() <= last_capacity(compressed@.len() * 4)
            ==> r is Ok,
        compressed@.len() > 0 && zstd_content(compressed@) is Some && !has_early_mark(compressed@)
            && zstd_content(compressed@)->Some_0.len() <= LARGEST_BUFFER ==> r is Ok,
{
    if compressed.len() == 0 {
        return Ok(Vec::new());
    }
    let mut capacity: usize = compressed.len() * 4;
    proof {
        last_capacity_is_large(capacity as nat);
    }
    loop
        invariant
            compressed@.len() > 0,
            0 < capacity <= isize::MAX,
            last_capacity(capacity as nat) == last_capacity(compressed@.len() * 4),
            last_capacity(compressed@.len() * 4) >= LARGEST_BUFFER,
        decreases (if capacity < LARGEST_BUFFER {
            LARGEST_BUFFER - capacity + 1
        } else {
            0
        }),
    {
        match decompress_step(capacity, decompress_once(compressed, capacity)) {
            DecompressStep::Done(parts) => {
                return Ok(parts);
            },
            DecompressStep::Retry(n) => {
                capacity = n;
            },
            DecompressStep::Fail(m) => {
                return Err(m);
            },
        }
    }
}

/// What is given back for what became of a body that was to be compressed.
pub fn compressed_parts(outcome: Result<Vec<u8>, String>) -> (r: Result<Vec<Vec<u8>>, String>)
    ensures
        match (outcome, r) {
            (Ok(block), Ok(parts)) => parts_view(parts@) == body_pieces(block@) && joined(
                parts_view(parts@),
            ) == block@,
            (Err(cause), Err(m)) => m@ == "zstd compress: "@ + cause@,
            _ => false,
        },
{
    match outcome {
        Ok(block) => Ok(cut_body(&block)),
        Err(cause) => Err(caused("zstd compress: ", &cause)),
    }
}

/// Compresses a body at a level and gives the result in pieces. An empty body stays
/// empty. When another cannot be compressed is not stated: memory may run out.
pub fn compress_body(plain: &[u8], level: i32) -> (r: Result<Vec<Vec<u8>>, String>)
    requires
        worst_size(plain@.len()) <= isize::MAX,
    ensures
        match r {
            Ok(parts) => if plain@.len() == 0 {
                parts@.len() == 0
            } else {
                &&& parts_view(parts@) == body_pieces(zstd_compressed(plain@, level))
                &&& joined(parts_view(parts@)) == zstd_compressed(plain@, level)
                &&& zstd_content(joined(parts_view(parts@))) == Some(plain@)
            },
            Err(m) => plain@.len() > 0 && exists|cause: Seq<char>|
                m@ == "zstd compress: "@ + cause,
        },
{
    if plain.len() == 0 {
        return Ok(Vec::new());
    }
    compressed_parts(compress_once(plain, level))
}

// ── Laws ─────────────────────────────────────────────────────────────────────

/// The pieces of a body hold its bytes in order: none for an empty body, and pieces of
/// 64 KiB otherwise, of which only the last may be shorter.
pub proof fn bodies_travel_in_pieces(body: Seq<u8>, i: int)
    requires
        0 <= i < body_pieces(body).len(),
    ensures
        joined(body_pieces(body)) == body,
        body.len() > 0,
        0 < body_pieces(body)[i].len() <= 65_536,
        i < body_pieces(body).len() - 1 ==> body_pieces(body)[i].len() == 65_536,
{
    pieces_hold_the_chunk(body, PIECE_SIZE as nat);
    crate::handles::pieces_are_full(body, PIECE_SIZE as nat, i);
}

/// An empty body has no pieces, and only an empty one has none.
pub proof fn empty_bodies_have_no_pieces(body: Seq<u8>)
    ensures
        body_pieces(body).len() == 0 <==> body.len() == 0,
        PIECE_SIZE == 65_536,
        LARGEST_BUFFER == 256 * 1024 * 1024,
{
}

/// Buffers are doubled until they are large enough not to be, and only then given up.
pub proof fn buffers_are_doubled(capacity: nat)
    requires
        capacity > 0,
    ensures
        capacity < 268_435_456 ==> last_capacity(capacity) == last_capacity(2 * capacity),
        capacity >= 268_435_456 ==> last_capacity(capacity) == capacity,
        last_capacity(capacity) < 2 * 268_435_456 || last_capacity(capacity) == capacity,
    decreases
            (if capacity < LARGEST_BUFFER {
                LARGEST_BUFFER - capacity
            } else {
                0
            }),
{
    if capacity < LARGEST_BUFFER {
        buffers_are_doubled(capacity * 2);
    }
}

/// The mark of an early format is four bytes long, and it is found wherever it stands.
pub proof fn early_marks_are_found(before: Seq<u8>, m: u8, after: Seq<u8>)
    ensures
        0x22 <= m <= 0x27 ==> has_early_mark(before + seq![m, 0xb5u8, 0x2f, 0xfd] + after),
        has_early_mark(before + seq![0xfdu8, 0x2f, 0xb5, 0x1e] + after),
{
    let s = before + seq![m, 0xb5u8, 0x2f, 0xfd] + after;
    let n = before.len() as int;
    assert(s[n] == m && s[n + 1] == 0xb5 && s[n + 2] == 0x2f && s[n + 3] == 0xfd);
    let r = before + seq![0xfdu8, 0x2f, 0xb5, 0x1e] + after;
    assert(r[n] == 0xfd && r[n + 1] == 0x2f && r[n + 2] == 0xb5 && r[n + 3] == 0x1e);
}

/// Data without one of the bytes that every such mark has has no mark.
pub proof fn nothing_else_is_a_mark(data: Seq<u8>)
    ensures
        data.len() < 4 ==> !has_early_mark(data),
        !data.contains(0xb5u8) ==> !has_early_mark(data),
        !data.contains(0x2fu8) ==> !has_early_mark(data),
        !data.contains(0xfdu8) ==> !has_early_mark(data),
{
}

/// The buffer for data has one byte in two hundred and fifty-six more than the data.
pub proof fn buffers_have_room(len: nat)
    ensures
        worst_size(len) >= len,
        256 * (worst_size(len) - len) <= len < 256 * (worst_size(len) - len) + 256,
{
}

} // verus!
