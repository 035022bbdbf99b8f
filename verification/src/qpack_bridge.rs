//! Request and response heads in QPACK.
//!
//! ## Wire format
//!
//! ```text
//! [ 2-byte big-endian length ] [ QPACK-encoded header block ]
//! ```
//!
//! Pseudo-headers follow HTTP/3 conventions:
//!   - Request:  `:method`, `:path`
//!   - Response: `:status`
use vstd::prelude::*;

use crate::adapter::pairs_view;
use crate::handles::copy_range;
use crate::text::{
    append_decimal, bytes_of, decimal, decimal_text, lossy_text, parse_unsigned, same, text_from_bytes,
    unsigned_value,
};

verus! {

/// Maximum decoded header size accepted from a block (256 KB).
pub const MAX_HEADER_SIZE: u64 = 262_144;

/// The name and the value of a header field, as bytes.
pub type Field = (Seq<u8>, Seq<u8>);

/// The name and the value of a header, as characters.
pub type Header = (Seq<char>, Seq<char>);

// ── The codec ────────────────────────────────────────────────────────────────

/// The block that `qpack::encode_stateless` makes of header fields, or the text
/// of its error.
pub uninterp spec fn qpack_encoded(fields: Seq<(Seq<u8>, Seq<u8>)>) -> Result<Seq<u8>, Seq<char>>;

/// The header fields that `qpack::decode_stateless` reads from a block under a
/// limit on their size, or the text of its error.
pub uninterp spec fn qpack_decoded(block: Seq<u8>, max: u64) -> Result<
    Seq<(Seq<u8>, Seq<u8>)>,
    Seq<char>,
>;

/// The size of a header section: the bytes of its names and values, and 32 more
/// for each field.
pub open spec fn section_size(fields: Seq<(Seq<u8>, Seq<u8>)>) -> nat
    decreases fields.len(),
{
    if fields.len() == 0 {
        0
    } else {
        section_size(fields.drop_last()) + fields.last().0.len() + fields.last().1.len() + 32
    }
}

/// The bytes of a list of fields.
pub open spec fn fields_view(fields: Seq<(Vec<u8>, Vec<u8>)>) -> Seq<(Seq<u8>, Seq<u8>)> {
    fields.map_values(|f: (Vec<u8>, Vec<u8>)| (f.0@, f.1@))
}

/// The largest name or value of which it is certain that it can be encoded. The encoder
/// takes up to 30 bits for a byte, and counts in 32 bits up to seven times the bytes that
/// come out.
pub const MAX_FIELD_PART: usize = 163_617_801;

/// Whether no name or value is too large to be encoded.
pub open spec fn encodable(fields: Seq<(Seq<u8>, Seq<u8>)>) -> bool {
    forall|i: int|
        0 <= i < fields.len() ==> (#[trigger] fields[i]).0.len() <= MAX_FIELD_PART
            && fields[i].1.len() <= MAX_FIELD_PART
}

/// `qpack::encode_stateless`. A block of at most 65535 bytes reads back through
/// `qpack::decode_stateless` as the same fields, in order, under every limit that
/// the size of the section does not exceed. On a name or value whose Huffman form takes
/// more than a seventh of 2^32 bytes it may panic, for it counts seven times those bytes
/// in 32 bits.
#[verifier::external_body]
fn encode_block(fields: &Vec<(Vec<u8>, Vec<u8>)>) -> (r: Result<Vec<u8>, String>)
    requires
        encodable(fields_view(fields@)),
    ensures
        match r {
            Ok(b) => qpack_encoded(fields_view(fields@)) == Ok::<Seq<u8>, Seq<char>>(b@),
            Err(m) => qpack_encoded(fields_view(fields@)) == Err::<Seq<u8>, Seq<char>>(m@),
        },
        (match r {
            Ok(b) => b@.len() <= 65535 ==> forall|max: u64|
                section_size(fields_view(fields@)) <= max ==> #[trigger] qpack_decoded(b@, max)
                    == Ok::<Seq<(Seq<u8>, Seq<u8>)>, Seq<char>>(fields_view(fields@)),
            Err(m) => true,
        }),
{
    let mut block: Vec<u8> = Vec::new();
    let fields: Vec<qpack::HeaderField> =
        fields.iter().map(|f| qpack::HeaderField::new(f.0.clone(), f.1.clone())).collect();
    match qpack::encode_stateless(&mut block, &fields) {
        Ok(_) => Ok(block),
        Err(e) => Err(e.to_string()),
    }
}

/// `qpack::decode_stateless`. On blocks of half a gigabyte it may panic, for it counts
/// their bits in 32 bits.
#[verifier::external_body]
fn decode_block(block: &[u8], max: u64) -> (r: Result<Vec<(Vec<u8>, Vec<u8>)>, String>)
    requires
        block@.len() <= 65535,
    ensures
        match r {
            Ok(f) => qpack_decoded(block@, max) == Ok::<Seq<(Seq<u8>, Seq<u8>)>, Seq<char>>(
                fields_view(f@),
            ),
            Err(m) => qpack_decoded(block@, max) == Err::<Seq<(Seq<u8>, Seq<u8>)>, Seq<char>>(m@),
        },
{
    let mut rest = block;
    match qpack::decode_stateless(&mut rest, max) {
        Ok(d) => Ok(d.fields.into_iter().map(|f| (f.name.into_owned(), f.value.into_owned())).collect()),
        Err(e) => Err(e.to_string()),
    }
}

// ── Fields ───────────────────────────────────────────────────────────────────

/// A header as the bytes of its UTF-8 form.
pub open spec fn field_of(h: Header) -> Field {
    (vstd::utf8::encode_utf8(h.0), vstd::utf8::encode_utf8(h.1))
}

/// The characters of a list of borrowed string pairs.
pub open spec fn headers_view(headers: Seq<(&str, &str)>) -> Seq<Header> {
    headers.map_values(|h: (&str, &str)| (h.0@, h.1@))
}

/// The fields of a request head.
pub open spec fn request_fields(
    method: Seq<char>,
    path: Seq<char>,
    headers: Seq<Header>,
) -> Seq<Field> {
    seq![field_of((":method"@, method)), field_of((":path"@, path))] + headers.map_values(
        |h: Header| field_of(h),
    )
}

/// The fields of a response head.
pub open spec fn response_fields(status: u16, headers: Seq<Header>) -> Seq<Field> {
    seq![field_of((":status"@, decimal(status as nat)))] + headers.map_values(
        |h: Header| field_of(h),
    )
}

/// Appends headers to a list of fields.
fn append_headers(fields: &mut Vec<(Vec<u8>, Vec<u8>)>, headers: &[(&str, &str)])
    ensures
        fields_view(final(fields)@) == fields_view(old(fields)@) + headers_view(
            headers@,
        ).map_values(|h: Header| field_of(h)),
{
    let ghost start = fields@;
    let mut i: usize = 0;
    proof {
        assert(fields_view(fields@) =~= fields_view(start) + headers_view(
            headers@.take(0),
        ).map_values(|h: Header| field_of(h)));
    }
    while i < headers.len()
        invariant
            i <= headers@.len(),
            fields_view(fields@) == fields_view(start) + headers_view(
                headers@.take(i as int),
            ).map_values(|h: Header| field_of(h)),
        decreases headers@.len() - i,
    {
        let ghost before = fields@;
        fields.push((bytes_of(headers[i].0), bytes_of(headers[i].1)));
        i = i + 1;
        proof {
            assert(fields_view(fields@) =~= fields_view(before).push(
                field_of((headers@[i - 1].0@, headers@[i - 1].1@)),
            ));
            assert(fields_view(fields@) =~= fields_view(start) + headers_view(
                headers@.take(i as int),
            ).map_values(|h: Header| field_of(h)));
        }
    }
    proof {
        assert(headers@.take(i as int) =~= headers@);
    }
}

/// The fields of a request head: the pseudo-headers, then the headers in order.
fn build_request_fields(method: &str, path: &str, headers: &[(&str, &str)]) -> (r: Vec<
    (Vec<u8>, Vec<u8>),
>)
    ensures
        fields_view(r@) == request_fields(method@, path@, headers_view(headers@)),
{
    let mut fields: Vec<(Vec<u8>, Vec<u8>)> = Vec::new();
    fields.push((bytes_of(":method"), bytes_of(method)));
    fields.push((bytes_of(":path"), bytes_of(path)));
    proof {
        assert(fields_view(fields@) =~= seq![
            field_of((":method"@, method@)),
            field_of((":path"@, path@)),
        ]);
    }
    append_headers(&mut fields, headers);
    fields
}

/// The fields of a response head: the pseudo-header, then the headers in order.
fn build_response_fields(status: u16, headers: &[(&str, &str)]) -> (r: Vec<(Vec<u8>, Vec<u8>)>)
    ensures
        fields_view(r@) == response_fields(status, headers_view(headers@)),
{
    let text = decimal_text(status as u64);
    let mut fields: Vec<(Vec<u8>, Vec<u8>)> = Vec::new();
    fields.push((bytes_of(":status"), bytes_of(&text)));
    proof {
        assert(fields_view(fields@) =~= seq![field_of((":status"@, decimal(status as nat)))]);
    }
    append_headers(&mut fields, headers);
    fields
}

// ── Frames ───────────────────────────────────────────────────────────────────

/// A block behind its length.
pub open spec fn framed(block: Seq<u8>) -> Seq<u8> {
    seq![(block.len() / 256) as u8, (block.len() % 256) as u8] + block
}

/// The length that the first two bytes announce.
pub open spec fn announced(buf: Seq<u8>) -> int {
    buf[0] as int * 256 + buf[1] as int
}

/// The block at the start of a buffer, once all of it is there.
pub open spec fn first_block(buf: Seq<u8>) -> Option<Seq<u8>> {
    if buf.len() < 2 || buf.len() < 2 + announced(buf) {
        None
    } else {
        Some(buf.subrange(2, 2 + announced(buf)))
    }
}

/// The wire form of an encoded block, or why there is none.
pub open spec fn wire_form(encoded: Result<Seq<u8>, Seq<char>>) -> Result<Seq<u8>, Seq<char>> {
    match encoded {
        Err(m) => Err("qpack encode: "@ + m),
        Ok(b) => if b.len() > 65535 {
            Err("QPACK block too large: "@ + decimal(b.len()) + " bytes"@)
        } else {
            Ok(framed(b))
        },
    }
}

/// Puts an encoded block behind its length.
pub fn frame_block(encoded: Result<Vec<u8>, String>) -> (r: Result<Vec<u8>, String>)
    ensures
        match (encoded, r) {
            (Err(m), Err(e)) => e@ == "qpack encode: "@ + m@,
            (Ok(b), Err(e)) => b@.len() > 65535 && e@ == "QPACK block too large: "@ + decimal(
                b@.len(),
            ) + " bytes"@,
            (Ok(b), Ok(w)) => b@.len() <= 65535 && w@ == framed(b@),
            (Err(m), Ok(w)) => false,
        },
{
    match encoded {
        Err(m) => {
            let mut s: String = String::from_str("qpack encode: ");
            s.append(&m);
            Err(s)
        },
        Ok(block) => {
            let len: usize = block.len();
            if len > 65535 {
                let mut s: String = String::from_str("QPACK block too large: ");
                append_decimal(&mut s, len as u64);
                s.append(" bytes");
                return Err(s);
            }
            let mut wire: Vec<u8> = Vec::new();
            wire.push((len / 256) as u8);
            wire.push((len % 256) as u8);
            let mut rest: Vec<u8> = block;
            let ghost body = rest@;
            wire.append(&mut rest);
            proof {
                assert(wire@ =~= framed(body));
            }
            Ok(wire)
        },
    }
}

/// The block at the start of a buffer and the bytes it takes up with its length,
/// once all of it is there.
pub fn take_block(buf: &[u8]) -> (r: Option<(Vec<u8>, usize)>)
    ensures
        match r {
            None => first_block(buf@) is None,
            Some((block, total)) => first_block(buf@) == Some(block@) && total == 2 + announced(
                buf@,
            ) && block@.len() <= 65535,
        },
{
    if buf.len() < 2 {
        return None;
    }
    let block_len: usize = buf[0] as usize * 256 + buf[1] as usize;
    let total: usize = 2 + block_len;
    if buf.len() < total {
        return None;
    }
    Some((copy_range(buf, 2, total), total))
}

/// A frame announces its block's length, and the block reads back from it
/// whatever follows.
pub proof fn frames_read_back(block: Seq<u8>, rest: Seq<u8>)
    requires
        block.len() <= 65535,
    ensures
        announced(framed(block)) == block.len(),
        framed(block).len() == 2 + block.len(),
        first_block(framed(block) + rest) == Some(block),
{
    let buf = framed(block) + rest;
    assert(buf[0] == framed(block)[0] && buf[1] == framed(block)[1]);
    assert((block.len() / 256) as u8 as int * 256 + (block.len() % 256) as u8 as int
        == block.len());
    assert(buf.subrange(2, 2 + announced(buf)) =~= block);
}

// ── Decode errors ────────────────────────────────────────────────────────────

/// Why a head could not be decoded.
#[derive(Debug)]
pub enum DecodeError {
    /// Not enough bytes yet: the caller should read more.
    Incomplete,
    /// The QPACK block could not be decoded.
    Qpack(String),
    /// A required pseudo-header is missing.
    MissingPseudo(&'static str),
    /// The `:status` value is not a valid `u16`.
    InvalidStatus(String),
}

/// What a [`DecodeError`] says.
pub enum DecodeFault {
    Incomplete,
    Qpack(Seq<char>),
    MissingPseudo(Seq<char>),
    InvalidStatus(Seq<char>),
}

impl View for DecodeError {
    type V = DecodeFault;

    open spec fn view(&self) -> DecodeFault {
        match *self {
            DecodeError::Incomplete => DecodeFault::Incomplete,
            DecodeError::Qpack(m) => DecodeFault::Qpack(m@),
            DecodeError::MissingPseudo(n) => DecodeFault::MissingPseudo(n@),
            DecodeError::InvalidStatus(v) => DecodeFault::InvalidStatus(v@),
        }
    }
}

impl DecodeError {
    /// The error in words.
    pub fn to_string(&self) -> (r: String)
        ensures
            r@ == (match self@ {
                DecodeFault::Incomplete => "incomplete QPACK block"@,
                DecodeFault::Qpack(m) => "QPACK decode error: "@ + m,
                DecodeFault::MissingPseudo(n) => "missing pseudo-header "@ + n,
                DecodeFault::InvalidStatus(v) => "invalid :status value: "@ + v,
            }),
    {
        match self {
            DecodeError::Incomplete => String::from_str("incomplete QPACK block"),
            DecodeError::Qpack(m) => {
                let mut s: String = String::from_str("QPACK decode error: ");
                s.append(m);
                s
            },
            DecodeError::MissingPseudo(n) => {
                let mut s: String = String::from_str("missing pseudo-header ");
                s.append(n);
                s
            },
            DecodeError::InvalidStatus(v) => {
                let mut s: String = String::from_str("invalid :status value: ");
                s.append(v);
                s
            },
        }
    }
}

// ── Heads from fields ────────────────────────────────────────────────────────

/// Fields as text.
pub open spec fn field_texts(fields: Seq<Field>) -> Seq<Header> {
    fields.map_values(|f: Field| (lossy_text(f.0), lossy_text(f.1)))
}

/// The last value of `name` among the headers.
pub open spec fn last_value(headers: Seq<Header>, name: Seq<char>) -> Option<Seq<char>>
    decreases headers.len(),
{
    if headers.len() == 0 {
        None
    } else if headers.last().0 == name {
        Some(headers.last().1)
    } else {
        last_value(headers.drop_last(), name)
    }
}

/// The headers that are not pseudo-headers of a request, in order.
pub open spec fn request_headers(headers: Seq<Header>) -> Seq<Header>
    decreases headers.len(),
{
    if headers.len() == 0 {
        Seq::empty()
    } else {
        let init = request_headers(headers.drop_last());
        if headers.last().0 == ":method"@ || headers.last().0 == ":path"@ {
            init
        } else {
            init.push(headers.last())
        }
    }
}

/// The request head that headers hold.
pub open spec fn request_head(headers: Seq<Header>) -> Result<
    (Seq<char>, Seq<char>, Seq<Header>),
    DecodeFault,
> {
    match (last_value(headers, ":method"@), last_value(headers, ":path"@)) {
        (None, _) => Err(DecodeFault::MissingPseudo(":method"@)),
        (Some(m), None) => Err(DecodeFault::MissingPseudo(":path"@)),
        (Some(m), Some(p)) => Ok((m, p, request_headers(headers))),
    }
}

/// The status so far and the headers of a response head, or the first `:status`
/// that is no number.
pub open spec fn response_parts(headers: Seq<Header>) -> Result<
    (Option<nat>, Seq<Header>),
    Seq<char>,
>
    decreases headers.len(),
{
    if headers.len() == 0 {
        Ok((None, Seq::empty()))
    } else {
        match response_parts(headers.drop_last()) {
            Err(v) => Err(v),
            Ok((status, rest)) => if headers.last().0 == ":status"@ {
                match unsigned_value(headers.last().1, 65535) {
                    Some(n) => Ok((Some(n), rest)),
                    None => Err(headers.last().1),
                }
            } else {
                Ok((status, rest.push(headers.last())))
            },
        }
    }
}

/// The response head that headers hold.
pub open spec fn response_head(headers: Seq<Header>) -> Result<(nat, Seq<Header>), DecodeFault> {
    match response_parts(headers) {
        Err(v) => Err(DecodeFault::InvalidStatus(v)),
        Ok((None, _)) => Err(DecodeFault::MissingPseudo(":status"@)),
        Ok((Some(n), rest)) => Ok((n, rest)),
    }
}

/// Reads a request head from decoded fields.
pub fn request_from_fields(fields: &Vec<(Vec<u8>, Vec<u8>)>) -> (r: Result<
    (String, String, Vec<(String, String)>),
    DecodeError,
>)
    ensures
        match r {
            Ok((m, p, h)) => request_head(field_texts(fields_view(fields@))) == Ok::<
                (Seq<char>, Seq<char>, Seq<Header>),
                DecodeFault,
            >((m@, p@, pairs_view(h@))),
            Err(e) => request_head(field_texts(fields_view(fields@))) == Err::<
                (Seq<char>, Seq<char>, Seq<Header>),
                DecodeFault,
            >(e@),
        },
{
    let mut method: Option<String> = None;
    let mut path: Option<String> = None;
    let mut headers: Vec<(String, String)> = Vec::new();
    let ghost texts = field_texts(fields_view(fields@));
    let mut i: usize = 0;
    proof {
        assert(pairs_view(headers@) =~= request_headers(texts.take(0)));
    }
    while i < fields.len()
        invariant
            i <= fields@.len(),
            texts == field_texts(fields_view(fields@)),
            texts.len() == fields@.len(),
            match method {
                Some(m) => last_value(texts.take(i as int), ":method"@) == Some(m@),
                None => last_value(texts.take(i as int), ":method"@) is None,
            },
            match path {
                Some(p) => last_value(texts.take(i as int), ":path"@) == Some(p@),
                None => last_value(texts.take(i as int), ":path"@) is None,
            },
            pairs_view(headers@) == request_headers(texts.take(i as int)),
        decreases fields@.len() - i,
    {
        let name = text_from_bytes(&fields[i].0);
        let value = text_from_bytes(&fields[i].1);
        proof {
            let upto = texts.take(i + 1);
            assert(upto.drop_last() =~= texts.take(i as int));
            assert(upto.last() == (name@, value@));
            reveal_strlit(":method");
            reveal_strlit(":path");
            assert(":method"@.len() != ":path"@.len());
        }
        if same(&name, ":method") {
            method = Some(value);
        } else if same(&name, ":path") {
            path = Some(value);
        } else {
            let ghost before = headers@;
            let ghost pair = (name@, value@);
            headers.push((name, value));
            proof {
                assert(pairs_view(headers@) =~= pairs_view(before).push(pair));
            }
        }
        i = i + 1;
    }
    proof {
        assert(texts.take(i as int) =~= texts);
    }
    match method {
        None => Err(DecodeError::MissingPseudo(":method")),
        Some(m) => match path {
            None => Err(DecodeError::MissingPseudo(":path")),
            Some(p) => Ok((m, p, headers)),
        },
    }
}

/// A bad `:status` in a prefix is the fault of the whole.
proof fn status_fault_in_prefix(headers: Seq<Header>, k: int)
    requires
        0 <= k <= headers.len(),
        response_parts(headers.take(k)) is Err,
    ensures
        response_parts(headers) == response_parts(headers.take(k)),
    decreases headers.len(),
{
    if k == headers.len() {
        assert(headers.take(k) =~= headers);
    } else {
        assert(headers.drop_last().take(k) =~= headers.take(k));
        status_fault_in_prefix(headers.drop_last(), k);
    }
}

/// Reads a response head from decoded fields.
pub fn response_from_fields(fields: &Vec<(Vec<u8>, Vec<u8>)>) -> (r: Result<
    (u16, Vec<(String, String)>),
    DecodeError,
>)
    ensures
        match r {
            Ok((s, h)) => response_head(field_texts(fields_view(fields@))) == Ok::<
                (nat, Seq<Header>),
                DecodeFault,
            >((s as nat, pairs_view(h@))),
            Err(e) => response_head(field_texts(fields_view(fields@))) == Err::<
                (nat, Seq<Header>),
                DecodeFault,
            >(e@),
        },
{
    let mut status: Option<u16> = None;
    let mut headers: Vec<(String, String)> = Vec::new();
    let ghost texts = field_texts(fields_view(fields@));
    let mut i: usize = 0;
    proof {
        assert(pairs_view(headers@) =~= Seq::empty());
    }
    while i < fields.len()
        invariant
            i <= fields@.len(),
            texts == field_texts(fields_view(fields@)),
            texts.len() == fields@.len(),
            response_parts(texts.take(i as int)) == Ok::<(Option<nat>, Seq<Header>), Seq<char>>(
                (
                    match status {
                        Some(n) => Some(n as nat),
                        None => None,
                    },
                    pairs_view(headers@),
                ),
            ),
        decreases fields@.len() - i,
    {
        let name = text_from_bytes(&fields[i].0);
        let value = text_from_bytes(&fields[i].1);
        proof {
            let upto = texts.take(i + 1);
            assert(upto.drop_last() =~= texts.take(i as int));
            assert(upto.last() == (name@, value@));
            if response_parts(upto) is Err {
                status_fault_in_prefix(texts, i + 1);
            }
        }
        if same(&name, ":status") {
            match parse_unsigned(&value, 65535) {
                Some(n) => {
                    status = Some(n as u16);
                },
                None => {
                    return Err(DecodeError::InvalidStatus(value));
                },
            }
        } else {
            let ghost before = headers@;
            let ghost pair = (name@, value@);
            headers.push((name, value));
            proof {
                assert(pairs_view(headers@) =~= pairs_view(before).push(pair));
            }
        }
        i = i + 1;
    }
    proof {
        assert(texts.take(i as int) =~= texts);
    }
    match status {
        None => Err(DecodeError::MissingPseudo(":status")),
        Some(n) => Ok((n, headers)),
    }
}

// ── Heads on the wire ────────────────────────────────────────────────────────

/// A decoded request head: method, path, headers and the bytes it took up.
pub type RequestHead = (Seq<char>, Seq<char>, Seq<Header>, int);

/// A decoded response head: status, headers and the bytes it took up.
pub type ResponseHead = (nat, Seq<Header>, int);

/// The fields at the start of a buffer and the bytes they take up.
pub open spec fn wire_fields(buf: Seq<u8>) -> Result<(Seq<Field>, int), DecodeFault> {
    match first_block(buf) {
        None => Err(DecodeFault::Incomplete),
        Some(b) => match qpack_decoded(b, MAX_HEADER_SIZE) {
            Err(m) => Err(DecodeFault::Qpack(m)),
            Ok(f) => Ok((f, 2 + announced(buf))),
        },
    }
}

/// The request head at the start of a buffer.
pub open spec fn decoded_request(buf: Seq<u8>) -> Result<RequestHead, DecodeFault> {
    match wire_fields(buf) {
        Err(e) => Err(e),
        Ok((f, n)) => match request_head(field_texts(f)) {
            Err(e) => Err(e),
            Ok((m, p, h)) => Ok((m, p, h, n)),
        },
    }
}

/// The response head at the start of a buffer.
pub open spec fn decoded_response(buf: Seq<u8>) -> Result<ResponseHead, DecodeFault> {
    match wire_fields(buf) {
        Err(e) => Err(e),
        Ok((f, n)) => match response_head(field_texts(f)) {
            Err(e) => Err(e),
            Ok((s, h)) => Ok((s, h, n)),
        },
    }
}

/// Whether no header is named like a pseudo-header of a request.
pub open spec fn no_request_pseudo(headers: Seq<Header>) -> bool {
    forall|i: int|
        0 <= i < headers.len() ==> (#[trigger] headers[i]).0 != ":method"@ && headers[i].0
            != ":path"@
}

/// Whether no header is named like the pseudo-header of a response.
pub open spec fn no_response_pseudo(headers: Seq<Header>) -> bool {
    forall|i: int| 0 <= i < headers.len() ==> (#[trigger] headers[i]).0 != ":status"@
}

/// Text that is written as UTF-8 reads back.
proof fn texts_read_back(headers: Seq<Header>)
    ensures
        field_texts(headers.map_values(|h: Header| field_of(h))) == headers,
{
    let f = headers.map_values(|h: Header| field_of(h));
    assert forall|i: int| 0 <= i < headers.len() implies #[trigger] field_texts(f)[i]
        == headers[i] by {
        vstd::utf8::encode_utf8_valid_utf8(headers[i].0);
        vstd::utf8::encode_utf8_valid_utf8(headers[i].1);
        vstd::utf8::encode_utf8_decode_utf8(headers[i].0);
        vstd::utf8::encode_utf8_decode_utf8(headers[i].1);
    }
    assert(field_texts(f) =~= headers);
}

/// Headers behind the request pseudo-headers are kept as they are.
proof fn request_headers_kept(method: Seq<char>, path: Seq<char>, headers: Seq<Header>)
    requires
        no_request_pseudo(headers),
    ensures
        request_head(seq![(":method"@, method), (":path"@, path)] + headers) == Ok::<
            (Seq<char>, Seq<char>, Seq<Header>),
            DecodeFault,
        >((method, path, headers)),
    decreases headers.len(),
{
    let lead = seq![(":method"@, method), (":path"@, path)];
    let all = lead + headers;
    reveal_strlit(":method");
    reveal_strlit(":path");
    assert(":method"@.len() != ":path"@.len());
    if headers.len() == 0 {
        assert(all =~= lead);
        let one = lead.drop_last();
        assert(one.drop_last() =~= Seq::empty());
        assert(one.last() == (":method"@, method));
        assert(lead.last() == (":path"@, path));
        assert(request_headers(one.drop_last()) =~= Seq::<Header>::empty());
        assert(request_headers(one) =~= Seq::<Header>::empty());
        assert(request_headers(all) =~= headers);
        assert(last_value(one, ":method"@) == Some(method));
    } else {
        let init = headers.drop_last();
        assert forall|i: int| 0 <= i < init.len() implies (#[trigger] init[i]).0 != ":method"@
            && init[i].0 != ":path"@ by {
            assert(headers[i] == init[i]);
        }
        request_headers_kept(method, path, init);
        assert(all.drop_last() =~= lead + init);
        assert(all.last() == headers[headers.len() - 1]);
        assert(request_headers(all) =~= headers);
    }
}

/// Headers behind the response pseudo-header are kept as they are.
proof fn response_headers_kept(status: u16, headers: Seq<Header>)
    requires
        no_response_pseudo(headers),
    ensures
        response_parts(seq![(":status"@, decimal(status as nat))] + headers) == Ok::<
            (Option<nat>, Seq<Header>),
            Seq<char>,
        >((Some(status as nat), headers)),
    decreases headers.len(),
{
    let lead = seq![(":status"@, decimal(status as nat))];
    let all = lead + headers;
    if headers.len() == 0 {
        assert(all =~= lead);
        assert(lead.drop_last() =~= Seq::empty());
        assert(response_parts(lead.drop_last()) == Ok::<(Option<nat>, Seq<Header>), Seq<char>>(
            (None, Seq::empty()),
        ));
        crate::text::decimal_reads_back(status as nat, 65535);
        assert(lead.last() == (":status"@, decimal(status as nat)));
        assert(headers =~= Seq::<Header>::empty());
    } else {
        let init = headers.drop_last();
        assert forall|i: int| 0 <= i < init.len() implies (#[trigger] init[i]).0 != ":status"@ by {
            assert(headers[i] == init[i]);
        }
        response_headers_kept(status, init);
        assert(all.drop_last() =~= lead + init);
        assert(all.last() == headers[headers.len() - 1]);
        assert(init.push(headers.last()) =~= headers);
    }
}

/// A request whose block reads back decodes to itself from its frame, whatever
/// follows the frame.
pub proof fn framed_request_reads_back(
    method: Seq<char>,
    path: Seq<char>,
    headers: Seq<Header>,
    block: Seq<u8>,
    rest: Seq<u8>,
)
    requires
        no_request_pseudo(headers),
        block.len() <= 65535,
        qpack_decoded(block, MAX_HEADER_SIZE) == Ok::<Seq<Field>, Seq<char>>(
            request_fields(method, path, headers),
        ),
    ensures
        decoded_request(framed(block) + rest) == Ok::<RequestHead, DecodeFault>(
            (method, path, headers, framed(block).len() as int),
        ),
{
    frames_read_back(block, rest);
    let lead = seq![(":method"@, method), (":path"@, path)];
    let all = lead + headers;
    assert(request_fields(method, path, headers) =~= all.map_values(|h: Header| field_of(h)));
    texts_read_back(all);
    request_headers_kept(method, path, headers);
    assert(announced(framed(block) + rest) == announced(framed(block)));
}

/// A response whose block reads back decodes to itself from its frame, whatever
/// follows the frame.
pub proof fn framed_response_reads_back(
    status: u16,
    headers: Seq<Header>,
    block: Seq<u8>,
    rest: Seq<u8>,
)
    requires
        no_response_pseudo(headers),
        block.len() <= 65535,
        qpack_decoded(block, MAX_HEADER_SIZE) == Ok::<Seq<Field>, Seq<char>>(
            response_fields(status, headers),
        ),
    ensures
        decoded_response(framed(block) + rest) == Ok::<ResponseHead, DecodeFault>(
            (status as nat, headers, framed(block).len() as int),
        ),
{
    frames_read_back(block, rest);
    let all = seq![(":status"@, decimal(status as nat))] + headers;
    assert(response_fields(status, headers) =~= all.map_values(|h: Header| field_of(h)));
    texts_read_back(all);
    response_headers_kept(status, headers);
    assert(announced(framed(block) + rest) == announced(framed(block)));
}

/// The wire form of the fields of a head, or why there is none.
pub open spec fn head_wire(fields: Seq<Field>) -> Result<Seq<u8>, Seq<char>> {
    wire_form(qpack_encoded(fields))
}

/// The wire form of the fields of a head. What comes out reads back as the fields.
fn encode_fields_to_wire(fields: &Vec<(Vec<u8>, Vec<u8>)>) -> (r: Result<Vec<u8>, String>)
    requires
        encodable(fields_view(fields@)),
    ensures
        match r {
            Ok(w) => {
                let b = qpack_encoded(fields_view(fields@))->Ok_0;
                &&& head_wire(fields_view(fields@)) == Ok::<Seq<u8>, Seq<char>>(w@)
                &&& b.len() <= 65535
                &&& w@ == framed(b)
                &&& section_size(fields_view(fields@)) <= MAX_HEADER_SIZE ==> qpack_decoded(
                    b,
                    MAX_HEADER_SIZE,
                ) == Ok::<Seq<Field>, Seq<char>>(fields_view(fields@))
            },
            Err(m) => head_wire(fields_view(fields@)) == Err::<Seq<u8>, Seq<char>>(m@),
        },
{
    frame_block(encode_block(fields))
}

/// Encode a request head (method, path, headers) into the wire format. Where no
/// header is named like a pseudo-header and the head is within the size that a
/// decoder accepts, it decodes to what was encoded.
pub fn encode_request_stateless(method: &str, path: &str, headers: &[(&str, &str)]) -> (r: Result<
    Vec<u8>,
    String,
>)
    requires
        encodable(request_fields(method@, path@, headers_view(headers@))),
    ensures
        match r {
            Ok(w) => head_wire(request_fields(method@, path@, headers_view(headers@)))
                == Ok::<Seq<u8>, Seq<char>>(w@),
            Err(m) => head_wire(request_fields(method@, path@, headers_view(headers@)))
                == Err::<Seq<u8>, Seq<char>>(m@),
        },
        r is Ok && no_request_pseudo(headers_view(headers@)) && section_size(
            request_fields(method@, path@, headers_view(headers@)),
        ) <= MAX_HEADER_SIZE ==> decoded_request(r->Ok_0@) == Ok::<RequestHead, DecodeFault>(
            (method@, path@, headers_view(headers@), r->Ok_0@.len() as int),
        ),
{
    let fields = build_request_fields(method, path, headers);
    let r = encode_fields_to_wire(&fields);
    proof {
        if r is Ok && no_request_pseudo(headers_view(headers@)) && section_size(
            fields_view(fields@),
        ) <= MAX_HEADER_SIZE {
            let b = qpack_encoded(fields_view(fields@))->Ok_0;
            framed_request_reads_back(
                method@,
                path@,
                headers_view(headers@),
                b,
                Seq::empty(),
            );
            assert(framed(b) + Seq::<u8>::empty() =~= framed(b));
        }
    }
    r
}

/// Encode a response head (status, headers) into the wire format. Where no header
/// is named like the pseudo-header and the head is within the size that a decoder
/// accepts, it decodes to what was encoded.
pub fn encode_response_stateless(status: u16, headers: &[(&str, &str)]) -> (r: Result<
    Vec<u8>,
    String,
>)
    requires
        encodable(response_fields(status, headers_view(headers@))),
    ensures
        match r {
            Ok(w) => head_wire(response_fields(status, headers_view(headers@)))
                == Ok::<Seq<u8>, Seq<char>>(w@),
            Err(m) => head_wire(response_fields(status, headers_view(headers@)))
                == Err::<Seq<u8>, Seq<char>>(m@),
        },
        r is Ok && no_response_pseudo(headers_view(headers@)) && section_size(
            response_fields(status, headers_view(headers@)),
        ) <= MAX_HEADER_SIZE ==> decoded_response(r->Ok_0@) == Ok::<ResponseHead, DecodeFault>(
            (status as nat, headers_view(headers@), r->Ok_0@.len() as int),
        ),
{
    let fields = build_response_fields(status, headers);
    let r = encode_fields_to_wire(&fields);
    proof {
        if r is Ok && no_response_pseudo(headers_view(headers@)) && section_size(
            fields_view(fields@),
        ) <= MAX_HEADER_SIZE {
            let b = qpack_encoded(fields_view(fields@))->Ok_0;
            framed_response_reads_back(status, headers_view(headers@), b, Seq::empty());
            assert(framed(b) + Seq::<u8>::empty() =~= framed(b));
        }
    }
    r
}

/// The fields at the start of a buffer and the bytes they take up.
fn decode_wire_block(buf: &[u8]) -> (r: Result<(Vec<(Vec<u8>, Vec<u8>)>, usize), DecodeError>)
    ensures
        match r {
            Ok((f, n)) => wire_fields(buf@) == Ok::<(Seq<Field>, int), DecodeFault>(
                (fields_view(f@), n as int),
            ),
            Err(e) => wire_fields(buf@) == Err::<(Seq<Field>, int), DecodeFault>(e@),
        },
{
    match take_block(buf) {
        None => Err(DecodeError::Incomplete),
        Some((block, total)) => match decode_block(&block, MAX_HEADER_SIZE) {
            Ok(fields) => Ok((fields, total)),
            Err(m) => Err(DecodeError::Qpack(m)),
        },
    }
}

/// Decode a request head from the wire format.
///
/// Returns `(method, path, headers, bytes_consumed)`.
pub fn decode_request_stateless(buf: &[u8]) -> (r: Result<
    (String, String, Vec<(String, String)>, usize),
    DecodeError,
>)
    ensures
        match r {
            Ok((m, p, h, n)) => decoded_request(buf@) == Ok::<RequestHead, DecodeFault>(
                (m@, p@, pairs_view(h@), n as int),
            ),
            Err(e) => decoded_request(buf@) == Err::<RequestHead, DecodeFault>(e@),
        },
{
    match decode_wire_block(buf) {
        Err(e) => Err(e),
        Ok((fields, consumed)) => match request_from_fields(&fields) {
            Err(e) => Err(e),
            Ok((method, path, headers)) => Ok((method, path, headers, consumed)),
        },
    }
}

/// Decode a response head from the wire format.
///
/// Returns `(status, headers, bytes_consumed)`.
pub fn decode_response_stateless(buf: &[u8]) -> (r: Result<
    (u16, Vec<(String, String)>, usize),
    DecodeError,
>)
    ensures
        match r {
            Ok((s, h, n)) => decoded_response(buf@) == Ok::<ResponseHead, DecodeFault>(
                (s as nat, pairs_view(h@), n as int),
            ),
            Err(e) => decoded_response(buf@) == Err::<ResponseHead, DecodeFault>(e@),
        },
{
    match decode_wire_block(buf) {
        Err(e) => Err(e),
        Ok((fields, consumed)) => match response_from_fields(&fields) {
            Err(e) => Err(e),
            Ok((status, headers)) => Ok((status, headers, consumed)),
        },
    }
}

// ── Per-connection codec ─────────────────────────────────────────────────────

/// Per-connection QPACK codec state. The encoding is stateless, so two codecs
/// always agree.
pub struct QpackCodec {
    _private: (),
}

impl QpackCodec {
    /// A codec for a new connection.
    pub fn new() -> (r: Self) {
        QpackCodec { _private: () }
    }

    /// Encode a request head.
    pub fn encode_request(&mut self, method: &str, path: &str, headers: &[(&str, &str)]) -> (r:
        Result<Vec<u8>, String>)
        requires
            encodable(request_fields(method@, path@, headers_view(headers@))),
        ensures
            match r {
                Ok(w) => head_wire(request_fields(method@, path@, headers_view(headers@)))
                    == Ok::<Seq<u8>, Seq<char>>(w@),
                Err(m) => head_wire(request_fields(method@, path@, headers_view(headers@)))
                    == Err::<Seq<u8>, Seq<char>>(m@),
            },
            r is Ok && no_request_pseudo(headers_view(headers@)) && section_size(
                request_fields(method@, path@, headers_view(headers@)),
            ) <= MAX_HEADER_SIZE ==> decoded_request(r->Ok_0@) == Ok::<RequestHead, DecodeFault>(
                (method@, path@, headers_view(headers@), r->Ok_0@.len() as int),
            ),
    {
        encode_request_stateless(method, path, headers)
    }

    /// Encode a response head.
    pub fn encode_response(&mut self, status: u16, headers: &[(&str, &str)]) -> (r: Result<
        Vec<u8>,
        String,
    >)
        requires
            encodable(response_fields(status, headers_view(headers@))),
        ensures
            match r {
                Ok(w) => head_wire(response_fields(status, headers_view(headers@)))
                    == Ok::<Seq<u8>, Seq<char>>(w@),
                Err(m) => head_wire(response_fields(status, headers_view(headers@)))
                    == Err::<Seq<u8>, Seq<char>>(m@),
            },
            r is Ok && no_response_pseudo(headers_view(headers@)) && section_size(
                response_fields(status, headers_view(headers@)),
            ) <= MAX_HEADER_SIZE ==> decoded_response(r->Ok_0@) == Ok::<ResponseHead, DecodeFault>(
                (status as nat, headers_view(headers@), r->Ok_0@.len() as int),
            ),
    {
        encode_response_stateless(status, headers)
    }

    /// Decode a request head.
    pub fn decode_request(&mut self, buf: &[u8]) -> (r: Result<
        (String, String, Vec<(String, String)>, usize),
        DecodeError,
    >)
        ensures
            match r {
                Ok((m, p, h, n)) => decoded_request(buf@) == Ok::<RequestHead, DecodeFault>(
                    (m@, p@, pairs_view(h@), n as int),
                ),
                Err(e) => decoded_request(buf@) == Err::<RequestHead, DecodeFault>(e@),
            },
    {
        decode_request_stateless(buf)
    }

    /// Decode a response head.
    pub fn decode_response(&mut self, buf: &[u8]) -> (r: Result<
        (u16, Vec<(String, String)>, usize),
        DecodeError,
    >)
        ensures
            match r {
                Ok((s, h, n)) => decoded_response(buf@) == Ok::<ResponseHead, DecodeFault>(
                    (s as nat, pairs_view(h@), n as int),
                ),
                Err(e) => decoded_response(buf@) == Err::<ResponseHead, DecodeFault>(e@),
            },
    {
        decode_response_stateless(buf)
    }
}

impl Default for QpackCodec {
    fn default() -> (r: Self) {
        QpackCodec::new()
    }
}

// ── Laws ─────────────────────────────────────────────────────────────────────

/// Fields, headers and faults are seen as they are.
pub proof fn fields_are_seen_whole(
    f: Seq<(Vec<u8>, Vec<u8>)>,
    h: Seq<(&str, &str)>,
    g: Seq<Field>,
    e: DecodeError,
)
    ensures
        fields_view(f).len() == f.len(),
        forall|i: int| 0 <= i < f.len() ==> #[trigger] fields_view(f)[i] == (f[i].0@, f[i].1@),
        headers_view(h).len() == h.len(),
        forall|i: int| 0 <= i < h.len() ==> #[trigger] headers_view(h)[i] == (h[i].0@, h[i].1@),
        field_texts(g).len() == g.len(),
        forall|i: int|
            0 <= i < g.len() ==> #[trigger] field_texts(g)[i] == (
                lossy_text(g[i].0),
                lossy_text(g[i].1),
            ),
        e is Incomplete ==> e@ == DecodeFault::Incomplete,
        e matches DecodeError::Qpack(m) ==> e@ == DecodeFault::Qpack(m@),
        e matches DecodeError::MissingPseudo(n) ==> e@ == DecodeFault::MissingPseudo(n@),
        e matches DecodeError::InvalidStatus(v) ==> e@ == DecodeFault::InvalidStatus(v@),
{
}

/// The fields of a head are its pseudo-headers and then every header in order, each as the
/// bytes of its name and value.
pub proof fn heads_become_fields(
    method: Seq<char>,
    path: Seq<char>,
    status: u16,
    headers: Seq<Header>,
)
    ensures
        ({
            let r = request_fields(method, path, headers);
            &&& r.len() == headers.len() + 2
            &&& r[0] == (vstd::utf8::encode_utf8(":method"@), vstd::utf8::encode_utf8(method))
            &&& r[1] == (vstd::utf8::encode_utf8(":path"@), vstd::utf8::encode_utf8(path))
            &&& forall|i: int|
                0 <= i < headers.len() ==> r[i + 2] == (
                    vstd::utf8::encode_utf8((#[trigger] headers[i]).0),
                    vstd::utf8::encode_utf8(headers[i].1),
                )
        }),
        ({
            let r = response_fields(status, headers);
            &&& r.len() == headers.len() + 1
            &&& r[0] == (
                vstd::utf8::encode_utf8(":status"@),
                vstd::utf8::encode_utf8(decimal(status as nat)),
            )
            &&& forall|i: int|
                0 <= i < headers.len() ==> r[i + 1] == (
                    vstd::utf8::encode_utf8((#[trigger] headers[i]).0),
                    vstd::utf8::encode_utf8(headers[i].1),
                )
        }),
{
}

/// A block that is not too large travels behind its length in two bytes, the high one
/// first; a larger one is refused with its size, and a failure to encode is told.
pub proof fn blocks_travel_behind_their_length(block: Seq<u8>, cause: Seq<char>)
    ensures
        block.len() <= 65535 ==> (wire_form(Ok(block)) matches Ok(w) && w.len() == block.len() + 2
            && w[0] * 256 + w[1] == block.len() && w.skip(2) == block),
        block.len() > 65535 ==> wire_form(Ok(block)) == Err::<Seq<u8>, Seq<char>>(
            "QPACK block too large: "@ + decimal(block.len()) + " bytes"@,
        ),
        wire_form(Err(cause)) == Err::<Seq<u8>, Seq<char>>("qpack encode: "@ + cause),
{
    if block.len() <= 65535 {
        let w = framed(block);
        assert(w.skip(2) =~= block);
        assert(block.len() / 256 < 256);
    }
}

/// A buffer holds a block exactly where it is as long as the two first bytes say, and then
/// the block is what follows them, of that length.
pub proof fn blocks_are_cut_out(buf: Seq<u8>)
    ensures
        buf.len() < 2 ==> first_block(buf) is None,
        buf.len() >= 2 ==> ({
            let n = buf[0] * 256 + buf[1];
            &&& first_block(buf) is Some <==> buf.len() >= 2 + n
            &&& first_block(buf) matches Some(b) ==> b == buf.subrange(2, 2 + n) && announced(buf)
                == n
        }),
{
}

/// What a buffer is decoded to: the fields of its first block and the bytes that this
/// takes up; where there is none yet, that more is needed.
pub proof fn buffers_are_decoded(buf: Seq<u8>)
    ensures
        first_block(buf) is None <==> wire_fields(buf) == Err::<(Seq<Field>, int), DecodeFault>(
            DecodeFault::Incomplete,
        ),
        first_block(buf) matches Some(b) ==> (match qpack_decoded(b, 262_144) {
            Ok(f) => wire_fields(buf) == Ok::<(Seq<Field>, int), DecodeFault>(
                (f, b.len() as int + 2),
            ),
            Err(m) => wire_fields(buf) == Err::<(Seq<Field>, int), DecodeFault>(
                DecodeFault::Qpack(m),
            ),
        }),
{
}

/// The size of a section is that of its fields: name, value and 32 more for each.
pub proof fn sections_have_their_size(a: Seq<(Seq<u8>, Seq<u8>)>, f: (Seq<u8>, Seq<u8>))
    ensures
        section_size(Seq::empty()) == 0,
        section_size(a.push(f)) == section_size(a) + f.0.len() + f.1.len() + 32,
        MAX_HEADER_SIZE == 262_144,
{
    assert(a.push(f).drop_last() =~= a);
}

/// The last header of a name gives its value.
pub proof fn the_last_value_counts(headers: Seq<Header>, name: Seq<char>)
    ensures
        match last_value(headers, name) {
            Some(v) => exists|k: int|
                0 <= k < headers.len() && #[trigger] headers[k] == (name, v) && forall|j: int|
                    k < j < headers.len() ==> (#[trigger] headers[j]).0 != name,
            None => forall|j: int| 0 <= j < headers.len() ==> (#[trigger] headers[j]).0 != name,
        },
    decreases headers.len(),
{
    if headers.len() > 0 {
        let init = headers.drop_last();
        let n = headers.len() - 1;
        the_last_value_counts(init, name);
        assert(headers[n] == headers.last());
        if headers.last().0 != name {
            match last_value(init, name) {
                Some(v) => {
                    let k = choose|k: int|
                        0 <= k < init.len() && #[trigger] init[k] == (name, v) && forall|j: int|
                            k < j < init.len() ==> (#[trigger] init[j]).0 != name;
                    assert(headers[k] == init[k]);
                    assert forall|j: int| k < j < headers.len() implies (
                    #[trigger] headers[j]).0 != name by {
                        if j < n {
                            assert(headers[j] == init[j]);
                        }
                    }
                },
                None => {
                    assert forall|j: int| 0 <= j < headers.len() implies (
                    #[trigger] headers[j]).0 != name by {
                        if j < n {
                            assert(headers[j] == init[j]);
                        }
                    }
                },
            }
        }
    }
}

/// The head of a request has the method and the path of its pseudo-headers, the last of
/// each, and every other header in order. Without a method or a path there is none, and
/// what is missing is told.
pub proof fn requests_have_every_header(headers: Seq<Header>)
    ensures
        match request_head(headers) {
            Ok((m, p, rest)) => {
                &&& last_value(headers, ":method"@) == Some(m)
                &&& last_value(headers, ":path"@) == Some(p)
                &&& rest == headers.filter(
                    |h: Header| h.0 != ":method"@ && h.0 != ":path"@,
                )
            },
            Err(e) => {
                ||| last_value(headers, ":method"@) is None && e == DecodeFault::MissingPseudo(
                    ":method"@,
                )
                ||| last_value(headers, ":method"@) is Some && last_value(headers, ":path"@) is None
                    && e == DecodeFault::MissingPseudo(":path"@)
            },
        },
{
    other_headers_are_kept(headers);
}

proof fn other_headers_are_kept(headers: Seq<Header>)
    ensures
        request_headers(headers) == headers.filter(
            |h: Header| h.0 != ":method"@ && h.0 != ":path"@,
        ),
    decreases headers.len(),
{
    reveal(Seq::filter);
    if headers.len() > 0 {
        other_headers_are_kept(headers.drop_last());
    } else {
        assert(request_headers(headers) =~= headers.filter(
            |h: Header| h.0 != ":method"@ && h.0 != ":path"@,
        ));
    }
}

/// The head of a response has the number of its last status pseudo-header and every other
/// header in order. One whose status is no number that 16 bits hold is refused, and so is
/// one without a status.
pub proof fn responses_have_every_header(headers: Seq<Header>)
    ensures
        match response_head(headers) {
            Ok((n, rest)) => {
                &&& last_value(headers, ":status"@) matches Some(v) && unsigned_value(v, 65535)
                    == Some(n)
                &&& rest == headers.filter(|h: Header| h.0 != ":status"@)
            },
            Err(DecodeFault::MissingPseudo(n)) => n == ":status"@ && last_value(
                headers,
                ":status"@,
            ) is None,
            Err(DecodeFault::InvalidStatus(v)) => exists|k: int|
                0 <= k < headers.len() && #[trigger] headers[k] == (":status"@, v)
                    && unsigned_value(v, 65535) is None,
            Err(_) => false,
        },
{
    parts_of_responses(headers);
}

proof fn parts_of_responses(headers: Seq<Header>)
    ensures
        match response_parts(headers) {
            Ok((status, rest)) => {
                &&& rest == headers.filter(|h: Header| h.0 != ":status"@)
                &&& match last_value(headers, ":status"@) {
                    Some(v) => status is Some && unsigned_value(v, 65535) == status,
                    None => status is None,
                }
            },
            Err(v) => exists|k: int|
                0 <= k < headers.len() && #[trigger] headers[k] == (":status"@, v)
                    && unsigned_value(v, 65535) is None,
        },
    decreases headers.len(),
{
    reveal(Seq::filter);
    if headers.len() > 0 {
        let init = headers.drop_last();
        parts_of_responses(init);
        let n = headers.len() - 1;
        assert(headers[n] == headers.last());
        if response_parts(init) is Err {
            let v = response_parts(init)->Err_0;
            let k = choose|k: int|
                0 <= k < init.len() && #[trigger] init[k] == (":status"@, v) && unsigned_value(
                    v,
                    65535,
                ) is None;
            assert(headers[k] == init[k]);
        } else if response_parts(headers) is Err {
            assert(headers[n] == (":status"@, headers.last().1));
        }
    } else {
        assert(headers =~= headers.filter(|h: Header| h.0 != ":status"@));
    }
}

/// A head is decoded to what its fields say, with the bytes that it takes up.
pub proof fn heads_are_decoded(buf: Seq<u8>)
    ensures
        match wire_fields(buf) {
            Err(e) => decoded_request(buf) == Err::<RequestHead, DecodeFault>(e)
                && decoded_response(buf) == Err::<ResponseHead, DecodeFault>(e),
            Ok((f, n)) => {
                &&& match request_head(field_texts(f)) {
                    Ok((m, p, h)) => decoded_request(buf) == Ok::<RequestHead, DecodeFault>(
                        (m, p, h, n),
                    ),
                    Err(e) => decoded_request(buf) == Err::<RequestHead, DecodeFault>(e),
                }
                &&& match response_head(field_texts(f)) {
                    Ok((s, h)) => decoded_response(buf) == Ok::<ResponseHead, DecodeFault>(
                        (s, h, n),
                    ),
                    Err(e) => decoded_response(buf) == Err::<ResponseHead, DecodeFault>(e),
                }
            },
        },
{
}

/// What goes out is the wire form of what the fields are encoded to.
pub proof fn fields_go_out_encoded(fields: Seq<Field>)
    ensures
        head_wire(fields) == wire_form(qpack_encoded(fields)),
{
}

} // verus!
