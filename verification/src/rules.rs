//! What HTTP allows in methods, header names, header values and status codes.
use vstd::prelude::*;

use crate::adapter::pairs_view;
use crate::error::{CoreError, ErrorCode, ErrorView};
use crate::text::{append_decimal, decimal};

verus! {

/// Whether a byte may stand in a token: a letter, a digit or one of fifteen marks.
pub open spec fn is_token_byte(b: u8) -> bool {
    48 <= b <= 57 || 65 <= b <= 90 || 97 <= b <= 122 || b == 33 || 35 <= b <= 39 || b == 42 || b
        == 43 || b == 45 || b == 46 || 94 <= b <= 96 || b == 124 || b == 126
}

/// Whether bytes are a header name: one to 65535 token bytes.
pub open spec fn valid_header_name(b: Seq<u8>) -> bool {
    0 < b.len() <= 65535 && forall|i: int| 0 <= i < b.len() ==> is_token_byte(#[trigger] b[i])
}

/// Whether bytes are a header value: no control character but the tab.
pub open spec fn valid_header_value(b: Seq<u8>) -> bool {
    forall|i: int| 0 <= i < b.len() ==> (32 <= #[trigger] b[i] && b[i] != 127) || b[i] == 9
}

/// Whether bytes are a method: one or more token bytes.
pub open spec fn valid_method(b: Seq<u8>) -> bool {
    0 < b.len() && forall|i: int| 0 <= i < b.len() ==> is_token_byte(#[trigger] b[i])
}

/// Whether a number is a status code.
pub open spec fn valid_status(status: u16) -> bool {
    100 <= status <= 999
}

/// `http::HeaderName::from_bytes`: whether it takes the bytes of a string.
#[verifier::external_body]
pub(crate) fn header_name_ok(name: &str) -> (r: bool)
    ensures
        r == valid_header_name(vstd::utf8::encode_utf8(name@)),
{
    http::HeaderName::from_bytes(name.as_bytes()).is_ok()
}

/// `http::HeaderValue::from_str`: whether it takes a string.
#[verifier::external_body]
pub(crate) fn header_value_ok(value: &str) -> (r: bool)
    ensures
        r == valid_header_value(vstd::utf8::encode_utf8(value@)),
{
    http::HeaderValue::from_str(value).is_ok()
}

/// `http::Method::from_bytes`: whether it takes the bytes of a string.
#[verifier::external_body]
pub(crate) fn method_ok(method: &str) -> (r: bool)
    ensures
        r == valid_method(vstd::utf8::encode_utf8(method@)),
{
    http::Method::from_bytes(method.as_bytes()).is_ok()
}

/// `http::StatusCode::from_u16`: whether it takes a number.
#[verifier::external_body]
pub(crate) fn status_ok(status: u16) -> (r: bool)
    ensures
        r == valid_status(status),
{
    http::StatusCode::from_u16(status).is_ok()
}

/// A string as `Debug` writes it: quoted, with what is not printable escaped.
pub uninterp spec fn debug_text(s: Seq<char>) -> Seq<char>;

/// `str`'s `Debug`, through `format!`.
#[verifier::external_body]
pub(crate) fn quoted(s: &str) -> (r: String)
    ensures
        r@ == debug_text(s@),
{
    format!("{:?}", s)
}

/// Which header errors are told apart: those of a request, or of a response.
#[derive(Debug, Clone, Copy, PartialEq, Eq, Structural)]
pub enum HeadKind {
    Request,
    Response,
}

/// What is said of a header name that HTTP does not allow.
pub open spec fn bad_name(kind: HeadKind, name: Seq<char>) -> ErrorView {
    match kind {
        HeadKind::Request => (ErrorCode::InvalidInput, "invalid header name "@ + debug_text(name)),
        HeadKind::Response => (
            ErrorCode::InvalidInput,
            "invalid response header name "@ + debug_text(name),
        ),
    }
}

/// What is said of a header value that HTTP does not allow.
pub open spec fn bad_value(kind: HeadKind, name: Seq<char>) -> ErrorView {
    match kind {
        HeadKind::Request => (
            ErrorCode::InvalidInput,
            "invalid header value for "@ + debug_text(name),
        ),
        HeadKind::Response => (
            ErrorCode::InvalidInput,
            "invalid response header value for "@ + debug_text(name),
        ),
    }
}

/// What is wrong with one header, if anything is.
pub open spec fn header_fault(kind: HeadKind, h: (Seq<char>, Seq<char>)) -> Option<ErrorView> {
    if !valid_header_name(vstd::utf8::encode_utf8(h.0)) {
        Some(bad_name(kind, h.0))
    } else if !valid_header_value(vstd::utf8::encode_utf8(h.1)) {
        Some(bad_value(kind, h.0))
    } else {
        None
    }
}

/// What is wrong with the first faulty header, if one is faulty.
pub open spec fn headers_fault(kind: HeadKind, headers: Seq<(Seq<char>, Seq<char>)>) -> Option<
    ErrorView,
>
    decreases headers.len(),
{
    if headers.len() == 0 {
        None
    } else {
        match headers_fault(kind, headers.drop_last()) {
            Some(e) => Some(e),
            None => header_fault(kind, headers.last()),
        }
    }
}

/// A fault in a prefix is the fault of the whole.
proof fn fault_in_prefix(kind: HeadKind, headers: Seq<(Seq<char>, Seq<char>)>, k: int)
    requires
        0 <= k <= headers.len(),
        headers_fault(kind, headers.take(k)) is Some,
    ensures
        headers_fault(kind, headers) == headers_fault(kind, headers.take(k)),
    decreases headers.len(),
{
    if k == headers.len() {
        assert(headers.take(k) =~= headers);
    } else {
        assert(headers.drop_last().take(k) =~= headers.take(k));
        fault_in_prefix(kind, headers.drop_last(), k);
    }
}

/// The error of an input, with how the input is shown at its end.
pub fn shown_error(lead: &str, shown: &str) -> (r: CoreError)
    ensures
        r@ == (ErrorCode::InvalidInput, lead@ + shown@),
{
    let mut s: String = String::from_str(lead);
    s.append(shown);
    CoreError { code: ErrorCode::InvalidInput, message: s }
}

/// An error with a quoted name at its end.
fn named_error(lead: &str, name: &str) -> (r: CoreError)
    ensures
        r@ == (ErrorCode::InvalidInput, lead@ + debug_text(name@)),
{
    let q = quoted(name);
    shown_error(lead, &q)
}

/// Checks headers in order, each one's name before its value.
pub fn check_headers(kind: HeadKind, headers: &[(String, String)]) -> (r: Result<(), CoreError>)
    ensures
        match r {
            Ok(_) => headers_fault(kind, pairs_view(headers@)) is None,
            Err(e) => headers_fault(kind, pairs_view(headers@)) == Some(e@),
        },
{
    let ghost all = pairs_view(headers@);
    let mut i: usize = 0;
    while i < headers.len()
        invariant
            i <= headers@.len(),
            all == pairs_view(headers@),
            headers_fault(kind, all.take(i as int)) is None,
        decreases headers@.len() - i,
    {
        let name: &String = &headers[i].0;
        let value: &String = &headers[i].1;
        proof {
            let upto = all.take(i + 1);
            assert(upto.drop_last() =~= all.take(i as int));
            assert(upto.last() == (name@, value@));
            if headers_fault(kind, upto) is Some {
                fault_in_prefix(kind, all, i + 1);
            }
        }
        if !header_name_ok(name) {
            return Err(
                match kind {
                    HeadKind::Request => named_error("invalid header name ", name),
                    HeadKind::Response => named_error("invalid response header name ", name),
                },
            );
        }
        if !header_value_ok(value) {
            return Err(
                match kind {
                    HeadKind::Request => named_error("invalid header value for ", name),
                    HeadKind::Response => named_error("invalid response header value for ", name),
                },
            );
        }
        i = i + 1;
    }
    proof {
        assert(all.take(i as int) =~= all);
    }
    Ok(())
}

/// What is said of a method that HTTP does not allow.
pub open spec fn bad_method(method: Seq<char>) -> ErrorView {
    (ErrorCode::InvalidInput, "invalid HTTP method "@ + debug_text(method))
}

/// Checks a method.
pub fn check_method(method: &str) -> (r: Result<(), CoreError>)
    ensures
        match r {
            Ok(_) => valid_method(vstd::utf8::encode_utf8(method@)),
            Err(e) => !valid_method(vstd::utf8::encode_utf8(method@)) && e@ == bad_method(method@),
        },
{
    if method_ok(method) {
        Ok(())
    } else {
        Err(named_error("invalid HTTP method ", method))
    }
}

/// What is said of a number that is no status code.
pub open spec fn bad_status(status: u16) -> ErrorView {
    (ErrorCode::InvalidInput, "invalid HTTP status code: "@ + decimal(status as nat))
}

/// Checks a status code.
pub fn check_status(status: u16) -> (r: Result<(), CoreError>)
    ensures
        match r {
            Ok(_) => valid_status(status),
            Err(e) => !valid_status(status) && e@ == bad_status(status),
        },
{
    if status_ok(status) {
        Ok(())
    } else {
        let mut s: String = String::from_str("invalid HTTP status code: ");
        append_decimal(&mut s, status as u64);
        Err(CoreError { code: ErrorCode::InvalidInput, message: s })
    }
}

/// Whether bytes are visible ASCII, spaces and tabs only.
pub open spec fn visible(b: Seq<u8>) -> bool {
    forall|i: int| 0 <= i < b.len() ==> 32 <= #[trigger] b[i] < 127 || b[i] == 9
}

/// Visible ASCII as text: each byte is a character.
pub open spec fn ascii_text(b: Seq<u8>) -> Seq<char> {
    b.map_values(|x: u8| x as char)
}

/// The text of a header value, where it is visible ASCII.
pub fn visible_text(b: &[u8]) -> (r: Option<String>)
    ensures
        match r {
            Some(s) => visible(b@) && s@ == ascii_text(b@),
            None => !visible(b@),
        },
{
    let mut s: String = String::new();
    let mut i: usize = 0;
    while i < b.len()
        invariant
            i <= b@.len(),
            forall|j: int| 0 <= j < i ==> 32 <= #[trigger] b@[j] < 127 || b@[j] == 9,
            s@ == ascii_text(b@.take(i as int)),
        decreases b@.len() - i,
    {
        let c: u8 = b[i];
        if !((c >= 32 && c < 127) || c == 9) {
            return None;
        }
        s.push(c as char);
        i = i + 1;
        proof {
            assert(s@ =~= ascii_text(b@.take(i as int)));
        }
    }
    proof {
        assert(b@.take(i as int) =~= b@);
    }
    Some(s)
}

// ── Laws ─────────────────────────────────────────────────────────────────────

/// The bytes of a token: letters, digits and fifteen marks.
pub proof fn token_bytes(b: u8)
    ensures
        is_token_byte(b) <==> {
            ||| '0' as int <= b <= '9' as int
            ||| 'A' as int <= b <= 'Z' as int
            ||| 'a' as int <= b <= 'z' as int
            ||| b == '!' as int || b == '#' as int || b == '$' as int || b == '%' as int
            ||| b == '&' as int || b == '\'' as int || b == '*' as int || b == '+' as int
            ||| b == '-' as int || b == '.' as int || b == '^' as int || b == '_' as int
            ||| b == '`' as int || b == '|' as int || b == '~' as int
        },
{
}

/// What is taken: names and methods that are tokens, values without control characters
/// but tabs, and status codes of three digits.
pub proof fn what_heads_may_hold(b: Seq<u8>, status: u16)
    ensures
        valid_method(b) <==> b.len() > 0 && forall|i: int|
            0 <= i < b.len() ==> is_token_byte(#[trigger] b[i]),
        valid_header_name(b) <==> 0 < b.len() <= 65535 && forall|i: int|
            0 <= i < b.len() ==> is_token_byte(#[trigger] b[i]),
        valid_header_value(b) <==> forall|i: int|
            0 <= i < b.len() ==> #[trigger] b[i] == 9 || (b[i] >= 32 && b[i] != 127),
        valid_status(status) <==> 100 <= status <= 999,
        visible(b) <==> forall|i: int|
            0 <= i < b.len() ==> #[trigger] b[i] == 9 || 32 <= b[i] <= 126,
{
}

/// Headers are taken exactly where every name and every value is; else the error is that
/// of the first header with a bad name or value, and the name is looked at first.
pub proof fn headers_are_taken_one_by_one(kind: HeadKind, headers: Seq<(Seq<char>, Seq<char>)>)
    ensures
        match headers_fault(kind, headers) {
            None => forall|i: int|
                0 <= i < headers.len() ==> valid_header_name(
                    vstd::utf8::encode_utf8((#[trigger] headers[i]).0),
                ) && valid_header_value(vstd::utf8::encode_utf8(headers[i].1)),
            Some(e) => exists|k: int|
                0 <= k < headers.len() && (forall|i: int|
                    0 <= i < k ==> valid_header_name(
                        vstd::utf8::encode_utf8((#[trigger] headers[i]).0),
                    ) && valid_header_value(vstd::utf8::encode_utf8(headers[i].1))) && ({
                    let name = (#[trigger] headers[k]).0;
                    if !valid_header_name(vstd::utf8::encode_utf8(name)) {
                        e == bad_name(kind, name)
                    } else {
                        !valid_header_value(vstd::utf8::encode_utf8(headers[k].1)) && e
                            == bad_value(kind, name)
                    }
                }),
        },
    decreases headers.len(),
{
    if headers.len() > 0 {
        let init = headers.drop_last();
        headers_are_taken_one_by_one(kind, init);
        assert forall|i: int| 0 <= i < init.len() implies #[trigger] headers[i] == init[i] by {}
        let n = headers.len() - 1;
        match headers_fault(kind, init) {
            Some(e) => {
                let k = choose|k: int|
                    0 <= k < init.len() && (forall|i: int|
                        0 <= i < k ==> valid_header_name(
                            vstd::utf8::encode_utf8((#[trigger] init[i]).0),
                        ) && valid_header_value(vstd::utf8::encode_utf8(init[i].1))) && ({
                        let name = (#[trigger] init[k]).0;
                        if !valid_header_name(vstd::utf8::encode_utf8(name)) {
                            e == bad_name(kind, name)
                        } else {
                            !valid_header_value(vstd::utf8::encode_utf8(init[k].1)) && e
                                == bad_value(kind, name)
                        }
                    });
                assert(headers[k] == init[k]);
            },
            None => {
                assert forall|i: int| 0 <= i < n implies valid_header_name(
                    vstd::utf8::encode_utf8((#[trigger] headers[i]).0),
                ) && valid_header_value(vstd::utf8::encode_utf8(headers[i].1)) by {
                    assert(headers[i] == init[i]);
                }
                assert(headers[n] == headers.last());
            },
        }
    }
}

/// What is refused is named: the error quotes the name, the method or the status, and is
/// one of the input.
pub proof fn refusals_name_the_input(name: Seq<char>, status: u16)
    ensures
        bad_name(HeadKind::Request, name) == (
            ErrorCode::InvalidInput,
            "invalid header name "@ + debug_text(name),
        ),
        bad_name(HeadKind::Response, name) == (
            ErrorCode::InvalidInput,
            "invalid response header name "@ + debug_text(name),
        ),
        bad_value(HeadKind::Request, name) == (
            ErrorCode::InvalidInput,
            "invalid header value for "@ + debug_text(name),
        ),
        bad_value(HeadKind::Response, name) == (
            ErrorCode::InvalidInput,
            "invalid response header value for "@ + debug_text(name),
        ),
        bad_method(name) == (ErrorCode::InvalidInput, "invalid HTTP method "@ + debug_text(name)),
        bad_status(status) == (
            ErrorCode::InvalidInput,
            "invalid HTTP status code: "@ + decimal(status as nat),
        ),
{
}

/// Visible bytes are read as the characters with the same numbers, and those read back as
/// the bytes.
pub proof fn visible_bytes_are_kept(b: Seq<u8>)
    ensures
        ascii_text(b).len() == b.len(),
        forall|i: int| 0 <= i < b.len() ==> #[trigger] ascii_text(b)[i] as int == b[i] as int,
{
}

} // verus!
