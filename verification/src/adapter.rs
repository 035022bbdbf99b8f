//! The boundary to foreign-language callers: limits on what they may hand in,
//! and the JSON envelope `{"code":"...","message":"..."}` that errors travel in.
use vstd::prelude::*;

use crate::error::{CoreError, ErrorCode};
use crate::text::{append_decimal, byte_count, byte_len, decimal};

verus! {

/// Maximum number of header rows accepted at an adapter boundary.
pub const MAX_HEADER_COUNT: usize = 100;

/// Maximum header name length in bytes accepted at an adapter boundary.
pub const MAX_HEADER_NAME_LEN: usize = 256;

/// Maximum header value length in bytes accepted at an adapter boundary.
pub const MAX_HEADER_VALUE_LEN: usize = 8_192;

/// Maximum adapter-level timeout in milliseconds.
pub const MAX_TIMEOUT_MS: u64 = 300_000;

/// Maximum adapter-level body cap in bytes.
pub const MAX_BODY_BYTES: usize = 16 * 1024 * 1024;

/// Adapter-boundary input validation error.
#[derive(Debug, Clone, Eq)]
pub enum AdapterInputError {
    /// Caller-provided input exceeds a hard boundary limit.
    InputTooLarge { field: &'static str, max: usize, got: usize },
    /// Caller-provided bytes contain invalid encoding for the field.
    InvalidEncoding { field: &'static str },
    /// Generic argument validation failure for a named field.
    InvalidArgument { field: &'static str, reason: String },
}

/// What an [`AdapterInputError`] says.
pub enum InputErrorView {
    InputTooLarge { field: Seq<char>, max: usize, got: usize },
    InvalidEncoding { field: Seq<char> },
    InvalidArgument { field: Seq<char>, reason: Seq<char> },
}

impl View for AdapterInputError {
    type V = InputErrorView;

    open spec fn view(&self) -> InputErrorView {
        match *self {
            AdapterInputError::InputTooLarge { field, max, got } => InputErrorView::InputTooLarge {
                field: field@,
                max,
                got,
            },
            AdapterInputError::InvalidEncoding { field } => InputErrorView::InvalidEncoding {
                field: field@,
            },
            AdapterInputError::InvalidArgument { field, reason } => InputErrorView::InvalidArgument {
                field: field@,
                reason: reason@,
            },
        }
    }
}

impl PartialEq for AdapterInputError {
    fn eq(&self, other: &Self) -> (r: bool) {
        match (self, other) {
            (
                AdapterInputError::InputTooLarge { field, max, got },
                AdapterInputError::InputTooLarge { field: field2, max: max2, got: got2 },
            ) => crate::text::same(field, field2) && *max == *max2 && *got == *got2,
            (
                AdapterInputError::InvalidEncoding { field },
                AdapterInputError::InvalidEncoding { field: field2 },
            ) => crate::text::same(field, field2),
            (
                AdapterInputError::InvalidArgument { field, reason },
                AdapterInputError::InvalidArgument { field: field2, reason: reason2 },
            ) => crate::text::same(field, field2) && *reason == *reason2,
            _ => false,
        }
    }
}

impl vstd::std_specs::cmp::PartialEqSpecImpl for AdapterInputError {
    open spec fn obeys_eq_spec() -> bool {
        true
    }

    open spec fn eq_spec(&self, other: &Self) -> bool {
        self@ == other@
    }
}

/// The stable JSON error code of an input error.
pub open spec fn input_error_code(e: InputErrorView) -> Seq<char> {
    match e {
        InputErrorView::InputTooLarge { .. } => "INPUT_TOO_LARGE"@,
        InputErrorView::InvalidEncoding { .. } => "INVALID_ENCODING"@,
        InputErrorView::InvalidArgument { .. } => "INVALID_ARGUMENT"@,
    }
}

/// The human-readable message of an input error.
pub open spec fn input_error_message(e: InputErrorView) -> Seq<char> {
    match e {
        InputErrorView::InputTooLarge { field, max, got } => field + " exceeds max size "@
            + decimal(max as nat) + " (got "@ + decimal(got as nat) + ")"@,
        InputErrorView::InvalidEncoding { field } => field + " contains invalid encoding"@,
        InputErrorView::InvalidArgument { field, reason } => field + ": "@ + reason,
    }
}

impl AdapterInputError {
    /// Stable JSON error code used by adapters.
    pub fn code(&self) -> (r: &'static str)
        ensures
            r@ == input_error_code(self@),
    {
        match self {
            AdapterInputError::InputTooLarge { .. } => "INPUT_TOO_LARGE",
            AdapterInputError::InvalidEncoding { .. } => "INVALID_ENCODING",
            AdapterInputError::InvalidArgument { .. } => "INVALID_ARGUMENT",
        }
    }

    /// Human-readable validation message.
    pub fn message(&self) -> (r: String)
        ensures
            r@ == input_error_message(self@),
    {
        match self {
            AdapterInputError::InputTooLarge { field, max, got } => {
                let mut s: String = String::from_str(field);
                s.append(" exceeds max size ");
                append_decimal(&mut s, *max as u64);
                s.append(" (got ");
                append_decimal(&mut s, *got as u64);
                s.append(")");
                s
            },
            AdapterInputError::InvalidEncoding { field } => {
                let mut s: String = String::from_str(field);
                s.append(" contains invalid encoding");
                s
            },
            AdapterInputError::InvalidArgument { field, reason } => {
                let mut s: String = String::from_str(field);
                s.append(": ");
                s.append(reason.as_str());
                s
            },
        }
    }

    /// Serialize this error to the adapter JSON error envelope.
    pub fn to_json(&self) -> (r: String)
        ensures
            r@ == error_envelope(input_error_code(self@), input_error_message(self@)),
    {
        format_error_json(self.code(), &self.message())
    }
}

// ── Header rows ──────────────────────────────────────────────────────────────

/// What is wrong with a string that must be non-empty, at most `max` bytes and
/// free of NUL, if anything is.
pub open spec fn bounded_string_fault(
    field: Seq<char>,
    value: Seq<char>,
    max: usize,
) -> Option<InputErrorView> {
    if value.len() == 0 {
        Some(InputErrorView::InvalidArgument { field, reason: "must not be empty"@ })
    } else if byte_len(value) > max {
        Some(InputErrorView::InputTooLarge { field, max, got: byte_len(value) as usize })
    } else if value.contains('\0') {
        Some(InputErrorView::InvalidEncoding { field })
    } else {
        None
    }
}

/// What is wrong with one header row, if anything is.
pub open spec fn row_fault(row: Seq<String>) -> Option<InputErrorView> {
    if row.len() != 2 {
        Some(
            InputErrorView::InvalidArgument {
                field: "headers"@,
                reason: "each header must be [name, value]"@,
            },
        )
    } else {
        match bounded_string_fault("headerName"@, row[0]@, MAX_HEADER_NAME_LEN) {
            Some(e) => Some(e),
            None => bounded_string_fault("headerValue"@, row[1]@, MAX_HEADER_VALUE_LEN),
        }
    }
}

/// The pairs that header rows hold, or what is wrong with the first faulty row.
pub open spec fn header_pairs(rows: Seq<Vec<String>>) -> Result<
    Seq<(Seq<char>, Seq<char>)>,
    InputErrorView,
>
    decreases rows.len(),
{
    if rows.len() == 0 {
        Ok(Seq::empty())
    } else {
        match header_pairs(rows.drop_last()) {
            Err(e) => Err(e),
            Ok(pairs) => match row_fault(rows.last()@) {
                Some(e) => Err(e),
                None => Ok(pairs.push((rows.last()@[0]@, rows.last()@[1]@))),
            },
        }
    }
}

/// What validation makes of header rows.
pub open spec fn validated_rows(rows: Seq<Vec<String>>) -> Result<
    Seq<(Seq<char>, Seq<char>)>,
    InputErrorView,
> {
    if rows.len() > MAX_HEADER_COUNT {
        Err(
            InputErrorView::InputTooLarge {
                field: "headers"@,
                max: MAX_HEADER_COUNT,
                got: rows.len() as usize,
            },
        )
    } else {
        header_pairs(rows)
    }
}

/// The characters of a list of string pairs.
pub open spec fn pairs_view(pairs: Seq<(String, String)>) -> Seq<(Seq<char>, Seq<char>)> {
    pairs.map_values(|p: (String, String)| (p.0@, p.1@))
}

/// Whether a string holds a NUL character.
fn holds_nul(value: &str) -> (r: bool)
    ensures
        r == value@.contains('\0'),
{
    let v: Vec<char> = crate::text::chars_of(value);
    let mut i: usize = 0;
    while i < v.len()
        invariant
            i <= v.len(),
            v@ == value@,
            forall|j: int| 0 <= j < i ==> #[trigger] v@[j] != '\0',
        decreases v.len() - i,
    {
        if v[i] == '\0' {
            return true;
        }
        i = i + 1;
    }
    false
}

/// Checks that a string is non-empty, within its limit and free of NUL.
pub fn validate_bounded_string(field: &'static str, value: &str, max_len: usize) -> (r: Result<
    (),
    AdapterInputError,
>)
    ensures
        match r {
            Ok(_) => bounded_string_fault(field@, value@, max_len) is None,
            Err(e) => bounded_string_fault(field@, value@, max_len) == Some(e@),
        },
{
    if value.is_empty() {
        return Err(
            AdapterInputError::InvalidArgument {
                field,
                reason: String::from_str("must not be empty"),
            },
        );
    }
    let len: usize = byte_count(value);
    if len > max_len {
        return Err(AdapterInputError::InputTooLarge { field, max: max_len, got: len });
    }
    if holds_nul(value) {
        return Err(AdapterInputError::InvalidEncoding { field });
    }
    Ok(())
}

/// An error in a prefix of the rows is the error of all the rows.
proof fn fault_in_prefix(rows: Seq<Vec<String>>, k: int)
    requires
        0 <= k <= rows.len(),
        header_pairs(rows.take(k)) is Err,
    ensures
        header_pairs(rows) == header_pairs(rows.take(k)),
    decreases rows.len(),
{
    if k == rows.len() {
        assert(rows.take(k) =~= rows);
    } else {
        assert(rows.drop_last().take(k) =~= rows.take(k));
        fault_in_prefix(rows.drop_last(), k);
    }
}

/// Validate and convert header rows into header pairs.
pub fn validate_header_rows(headers: Vec<Vec<String>>) -> (r: Result<
    Vec<(String, String)>,
    AdapterInputError,
>)
    ensures
        match r {
            Ok(pairs) => validated_rows(headers@) == Ok::<
                Seq<(Seq<char>, Seq<char>)>,
                InputErrorView,
            >(pairs_view(pairs@)),
            Err(e) => validated_rows(headers@) == Err::<
                Seq<(Seq<char>, Seq<char>)>,
                InputErrorView,
            >(e@),
        },
{
    if headers.len() > MAX_HEADER_COUNT {
        return Err(
            AdapterInputError::InputTooLarge {
                field: "headers",
                max: MAX_HEADER_COUNT,
                got: headers.len(),
            },
        );
    }
    let mut pairs: Vec<(String, String)> = Vec::new();
    let mut i: usize = 0;
    proof {
        assert(pairs_view(pairs@) =~= Seq::empty());
    }
    while i < headers.len()
        invariant
            i <= headers.len(),
            headers.len() <= MAX_HEADER_COUNT,
            header_pairs(headers@.take(i as int)) == Ok::<
                Seq<(Seq<char>, Seq<char>)>,
                InputErrorView,
            >(pairs_view(pairs@)),
        decreases headers.len() - i,
    {
        let row: &Vec<String> = &headers[i];
        proof {
            let upto = headers@.take(i + 1);
            assert(upto.drop_last() =~= headers@.take(i as int));
            assert(upto.last() == row);
            if header_pairs(upto) is Err {
                fault_in_prefix(headers@, i + 1);
            }
        }
        if row.len() != 2 {
            return Err(
                AdapterInputError::InvalidArgument {
                    field: "headers",
                    reason: String::from_str("each header must be [name, value]"),
                },
            );
        }
        if let Err(e) = validate_bounded_string("headerName", &row[0], MAX_HEADER_NAME_LEN) {
            return Err(e);
        }
        if let Err(e) = validate_bounded_string("headerValue", &row[1], MAX_HEADER_VALUE_LEN) {
            return Err(e);
        }
        let ghost before = pairs@;
        pairs.push((row[0].clone(), row[1].clone()));
        i = i + 1;
        proof {
            assert(pairs_view(pairs@) =~= pairs_view(before).push((row@[0]@, row@[1]@)));
        }
    }
    proof {
        assert(headers@.take(headers@.len() as int) =~= headers@);
    }
    Ok(pairs)
}

/// Rows that pass validation give exactly one pair each, in order, and every
/// pair is non-empty, within the limits and free of NUL.
pub proof fn accepted_rows_are_bounded(rows: Seq<Vec<String>>)
    requires
        validated_rows(rows) is Ok,
    ensures
        validated_rows(rows)->Ok_0.len() == rows.len() <= MAX_HEADER_COUNT,
        forall|i: int|
            0 <= i < rows.len() ==> {
                let pair = #[trigger] validated_rows(rows)->Ok_0[i];
                &&& pair == (rows[i]@[0]@, rows[i]@[1]@)
                &&& 0 < byte_len(pair.0) <= MAX_HEADER_NAME_LEN
                &&& 0 < byte_len(pair.1) <= MAX_HEADER_VALUE_LEN
                &&& !pair.0.contains('\0') && !pair.1.contains('\0')
            },
{
    accepted_pairs_are_bounded(rows);
}

proof fn accepted_pairs_are_bounded(rows: Seq<Vec<String>>)
    requires
        header_pairs(rows) is Ok,
    ensures
        header_pairs(rows)->Ok_0.len() == rows.len(),
        forall|i: int|
            0 <= i < rows.len() ==> {
                let pair = #[trigger] header_pairs(rows)->Ok_0[i];
                &&& pair == (rows[i]@[0]@, rows[i]@[1]@)
                &&& 0 < byte_len(pair.0) <= MAX_HEADER_NAME_LEN
                &&& 0 < byte_len(pair.1) <= MAX_HEADER_VALUE_LEN
                &&& !pair.0.contains('\0') && !pair.1.contains('\0')
            },
    decreases rows.len(),
{
    if rows.len() > 0 {
        accepted_pairs_are_bounded(rows.drop_last());
        nonempty_has_bytes(rows.last()@[0]@);
        nonempty_has_bytes(rows.last()@[1]@);
        assert forall|i: int| 0 <= i < rows.len() implies {
            let pair = #[trigger] header_pairs(rows)->Ok_0[i];
            &&& pair == (rows[i]@[0]@, rows[i]@[1]@)
            &&& 0 < byte_len(pair.0) <= MAX_HEADER_NAME_LEN
            &&& 0 < byte_len(pair.1) <= MAX_HEADER_VALUE_LEN
            &&& !pair.0.contains('\0') && !pair.1.contains('\0')
        } by {
            if i < rows.len() - 1 {
                assert(header_pairs(rows)->Ok_0[i] == header_pairs(rows.drop_last())->Ok_0[i]);
                assert(rows.drop_last()[i] == rows[i]);
            }
        }
    }
}

proof fn nonempty_has_bytes(s: Seq<char>)
    ensures
        s.len() > 0 ==> byte_len(s) > 0,
{
    if s.len() > 0 {
        vstd::utf8::encode_utf8_first_scalar(s);
    }
}

// ── JSON envelope ────────────────────────────────────────────────────────────

/// A lower-case hexadecimal digit.
pub open spec fn hex_digit(d: int) -> char {
    if d < 10 {
        (d + 48) as char
    } else {
        (d + 87) as char
    }
}

/// A character as it stands inside a JSON string.
pub open spec fn json_escape(c: char) -> Seq<char> {
    let u = c as u32;
    if c == '"' || c == '\\' {
        seq!['\\', c]
    } else if u == 8 {
        seq!['\\', 'b']
    } else if u == 9 {
        seq!['\\', 't']
    } else if u == 10 {
        seq!['\\', 'n']
    } else if u == 12 {
        seq!['\\', 'f']
    } else if u == 13 {
        seq!['\\', 'r']
    } else if u < 32 {
        seq!['\\', 'u', '0', '0', hex_digit(u as int / 16), hex_digit(u as int % 16)]
    } else {
        seq![c]
    }
}

/// The characters of a JSON string between its quotes.
pub open spec fn json_escaped(s: Seq<char>) -> Seq<char>
    decreases s.len(),
{
    if s.len() == 0 {
        Seq::empty()
    } else {
        json_escaped(s.drop_last()) + json_escape(s.last())
    }
}

/// A JSON string literal.
pub open spec fn json_string(s: Seq<char>) -> Seq<char> {
    "\""@ + json_escaped(s) + "\""@
}

/// The JSON error envelope.
pub open spec fn error_envelope(code: Seq<char>, message: Seq<char>) -> Seq<char> {
    "{\"code\":\""@ + code + "\",\"message\":"@ + json_string(message) + "}"@
}

/// `serde_json::Value::String` through its `Display`: the string as a JSON
/// literal. Quotation marks, backslashes and control characters are escaped, the
/// five with a short form by it and the others as `\u00` and two lower-case
/// hexadecimal digits; every other character stands for itself.
#[verifier::external_body]
pub(crate) fn json_literal(s: &str) -> (r: String)
    ensures
        r@ == json_string(s@),
{
    serde_json::Value::String(s.to_owned()).to_string()
}

/// The code that an error carries across the adapter boundary.
pub open spec fn envelope_code(code: ErrorCode) -> Seq<char> {
    match code {
        ErrorCode::InvalidInput => "INVALID_INPUT"@,
        ErrorCode::ConnectionFailed => "REFUSED"@,
        ErrorCode::Timeout => "TIMEOUT"@,
        ErrorCode::BodyTooLarge => "BODY_TOO_LARGE"@,
        ErrorCode::HeaderTooLarge => "HEADER_TOO_LARGE"@,
        ErrorCode::PeerRejected => "PEER_REJECTED"@,
        ErrorCode::Cancelled => "CANCELLED"@,
        ErrorCode::Internal => "INTERNAL"@,
    }
}

/// Serialize a [`CoreError`] to the error envelope.
pub fn core_error_to_json(e: &CoreError) -> (r: String)
    ensures
        r@ == error_envelope(envelope_code(e.code), e.message@),
{
    let code: &'static str = match e.code {
        ErrorCode::InvalidInput => "INVALID_INPUT",
        ErrorCode::ConnectionFailed => "REFUSED",
        ErrorCode::Timeout => "TIMEOUT",
        ErrorCode::BodyTooLarge => "BODY_TOO_LARGE",
        ErrorCode::HeaderTooLarge => "HEADER_TOO_LARGE",
        ErrorCode::PeerRejected => "PEER_REJECTED",
        ErrorCode::Cancelled => "CANCELLED",
        ErrorCode::Internal => "INTERNAL",
    };
    format_error_json(code, &e.message)
}

/// Serialize an error message to the error envelope with an explicit code.
pub fn format_error_json(code: &str, msg: &str) -> (r: String)
    ensures
        r@ == error_envelope(code@, msg@),
{
    let literal = json_literal(msg);
    let mut s: String = String::from_str("{\"code\":\"");
    s.append(code);
    s.append("\",\"message\":");
    s.append(&literal);
    s.append("}");
    s
}

// ── Reading an envelope ──────────────────────────────────────────────────────

/// What a hexadecimal digit stands for.
pub open spec fn hex_value(c: char) -> Option<int> {
    if '0' <= c <= '9' {
        Some(c as int - 48)
    } else if 'a' <= c <= 'f' {
        Some(c as int - 87)
    } else if 'A' <= c <= 'F' {
        Some(c as int - 55)
    } else {
        None
    }
}

/// The code unit that four hexadecimal digits at the start of a text name.
pub open spec fn code_unit(s: Seq<char>) -> Option<int> {
    if s.len() >= 4 && hex_value(s[0]) is Some && hex_value(s[1]) is Some && hex_value(s[2]) is Some
        && hex_value(s[3]) is Some {
        Some(
            hex_value(s[0])->Some_0 * 4096 + hex_value(s[1])->Some_0 * 256 + hex_value(
                s[2],
            )->Some_0 * 16 + hex_value(s[3])->Some_0,
        )
    } else {
        None
    }
}

/// What the character behind a backslash stands for, where it is one alone.
pub open spec fn short_escape(c: char) -> Option<char> {
    if c == '"' || c == '\\' || c == '/' {
        Some(c)
    } else if c == 'b' {
        Some(8u8 as char)
    } else if c == 'f' {
        Some(12u8 as char)
    } else if c == 'n' {
        Some(10u8 as char)
    } else if c == 'r' {
        Some(13u8 as char)
    } else if c == 't' {
        Some(9u8 as char)
    } else {
        None
    }
}

/// Reads a JSON string from behind its opening quotation mark: its characters, and what
/// follows its closing mark. Escapes of surrogates are not read.
pub open spec fn read_chars(s: Seq<char>) -> Option<(Seq<char>, Seq<char>)>
    decreases s.len(),
{
    if s.len() == 0 {
        None
    } else if s[0] == '"' {
        Some((Seq::empty(), s.skip(1)))
    } else if s[0] == '\\' {
        if s.len() < 2 {
            None
        } else if s[1] == 'u' {
            match code_unit(s.skip(2)) {
                Some(n) => if 0xd800 <= n < 0xe000 || s.len() < 6 {
                    None
                } else {
                    match read_chars(s.skip(6)) {
                        Some((t, rest)) => Some((seq![n as char] + t, rest)),
                        None => None,
                    }
                },
                None => None,
            }
        } else {
            match (short_escape(s[1]), read_chars(s.skip(2))) {
                (Some(c), Some((t, rest))) => Some((seq![c] + t, rest)),
                _ => None,
            }
        }
    } else if (s[0] as u32) < 32 {
        None
    } else {
        match read_chars(s.skip(1)) {
            Some((t, rest)) => Some((seq![s[0]] + t, rest)),
            None => None,
        }
    }
}

/// Reads a JSON string, and gives what follows it.
pub open spec fn read_string(s: Seq<char>) -> Option<(Seq<char>, Seq<char>)> {
    if s.len() > 0 && s[0] == '"' {
        read_chars(s.skip(1))
    } else {
        None
    }
}

/// Reads a name, a colon and a string, and gives what follows.
pub open spec fn read_member(s: Seq<char>) -> Option<((Seq<char>, Seq<char>), Seq<char>)> {
    match read_string(s) {
        Some((name, r)) => if r.len() > 0 && r[0] == ':' {
            match read_string(r.skip(1)) {
                Some((value, rest)) => Some(((name, value), rest)),
                None => None,
            }
        } else {
            None
        },
        None => None,
    }
}

/// Reads members with commas between them up to the brace that closes their object; at
/// most `most` of them.
pub open spec fn read_members(s: Seq<char>, most: nat) -> Option<
    (Seq<(Seq<char>, Seq<char>)>, Seq<char>),
>
    decreases most,
{
    if most == 0 {
        None
    } else {
        match read_member(s) {
            Some((m, r)) => if r.len() > 0 && r[0] == '}' {
                Some((seq![m], r.skip(1)))
            } else if r.len() > 0 && r[0] == ',' {
                match read_members(r.skip(1), (most - 1) as nat) {
                    Some((ms, rest)) => Some((seq![m] + ms, rest)),
                    None => None,
                }
            } else {
                None
            },
            None => None,
        }
    }
}

/// Reads a text that is a JSON object of strings, without white space between its parts,
/// and nothing else: its members in order.
pub open spec fn read_object(s: Seq<char>) -> Option<Seq<(Seq<char>, Seq<char>)>> {
    if s.len() > 0 && s[0] == '{' {
        match read_members(s.skip(1), s.len()) {
            Some((members, rest)) => if rest.len() == 0 {
                Some(members)
            } else {
                None
            },
            None => None,
        }
    } else {
        None
    }
}

/// Whether every character of a text stands for itself in a JSON string.
pub open spec fn needs_no_escape(s: Seq<char>) -> bool {
    forall|i: int| 0 <= i < s.len() ==> json_escape(#[trigger] s[i]) == seq![s[i]]
}

proof fn escaped_from_front(s: Seq<char>)
    requires
        s.len() > 0,
    ensures
        json_escaped(s) == json_escape(s[0]) + json_escaped(s.drop_first()),
    decreases s.len(),
{
    let init = s.drop_last();
    if s.len() > 1 {
        escaped_from_front(init);
        assert(init.drop_first() =~= s.drop_first().drop_last());
        assert(s.drop_first().last() == s.last());
        assert(json_escaped(s) =~= json_escape(s[0]) + json_escaped(s.drop_first()));
    } else {
        assert(init =~= Seq::empty());
        assert(s.drop_first() =~= Seq::empty());
        assert(json_escaped(s) =~= json_escape(s[0]) + json_escaped(s.drop_first()));
    }
}

proof fn unescaped_is_itself(s: Seq<char>)
    requires
        needs_no_escape(s),
    ensures
        json_escaped(s) == s,
    decreases s.len(),
{
    if s.len() > 0 {
        let init = s.drop_last();
        assert forall|i: int| 0 <= i < init.len() implies json_escape(#[trigger] init[i])
            == seq![init[i]] by {
            assert(init[i] == s[i]);
        }
        unescaped_is_itself(init);
        assert(json_escape(s[s.len() - 1]) == seq![s[s.len() - 1]]);
        assert(json_escaped(s) =~= s);
    }
}

proof fn escape_reads_back(c: char, rest: Seq<char>)
    requires
        read_chars(rest) is Some,
    ensures
        read_chars(json_escape(c) + rest) == Some(
            (seq![c] + read_chars(rest)->Some_0.0, read_chars(rest)->Some_0.1),
        ),
{
    let e = json_escape(c);
    let all = e + rest;
    let u = c as u32;
    if c == '"' || c == '\\' || u == 8 || u == 9 || u == 10 || u == 12 || u == 13 {
        assert(all[0] == '\\');
        assert(all[1] == e[1]);
        assert(all.skip(2) =~= rest);
        assert(short_escape(all[1]) == Some(c));
    } else if u < 32 {
        assert(all[0] == '\\' && all[1] == 'u');
        let digits = all.skip(2);
        assert(digits[0] == '0' && digits[1] == '0');
        assert(digits[2] == hex_digit(u as int / 16) && digits[3] == hex_digit(u as int % 16));
        assert(code_unit(digits) == Some(u as int));
        assert(all.skip(6) =~= rest);
        assert(u as int as char == c);
    } else {
        assert(all[0] == c);
        assert(all.skip(1) =~= rest);
    }
}

proof fn escaped_reads_back(s: Seq<char>, tail: Seq<char>)
    ensures
        read_chars(json_escaped(s) + seq!['"'] + tail) == Some((s, tail)),
    decreases s.len(),
{
    let closing = seq!['"'] + tail;
    assert(json_escaped(s) + seq!['"'] + tail =~= json_escaped(s) + closing);
    if s.len() == 0 {
        assert(json_escaped(s) + closing =~= closing);
        assert(closing.skip(1) =~= tail);
        assert(s =~= Seq::empty());
    } else {
        let rest = s.drop_first();
        escaped_reads_back(rest, tail);
        assert(json_escaped(rest) + seq!['"'] + tail =~= json_escaped(rest) + closing);
        escaped_from_front(s);
        escape_reads_back(s[0], json_escaped(rest) + closing);
        assert(json_escaped(s) + closing =~= json_escape(s[0]) + (json_escaped(rest) + closing));
        assert(seq![s[0]] + rest =~= s);
    }
}

/// A JSON string literal reads back as the string, whatever follows it.
pub proof fn literal_reads_back(s: Seq<char>, tail: Seq<char>)
    ensures
        read_string(json_string(s) + tail) == Some((s, tail)),
{
    reveal_strlit("\"");
    let text = json_string(s) + tail;
    escaped_reads_back(s, tail);
    assert(text[0] == '"');
    assert(text.skip(1) =~= json_escaped(s) + seq!['"'] + tail);
}

/// An error envelope is a JSON object with two members, the code and the message, and
/// reads back as them, whatever the message holds; the code has to be one that stands for
/// itself.
pub proof fn envelope_reads_back(code: Seq<char>, message: Seq<char>)
    requires
        needs_no_escape(code),
    ensures
        read_object(error_envelope(code, message)) == Some(
            seq![("code"@, code), ("message"@, message)],
        ),
{
    reveal_strlit("{\"code\":\"");
    reveal_strlit("\",\"message\":");
    reveal_strlit("}");
    reveal_strlit("\"");
    reveal_strlit("code");
    reveal_strlit("message");
    let text = error_envelope(code, message);
    unescaped_is_itself(code);
    assert(needs_no_escape("code"@));
    unescaped_is_itself("code"@);
    assert(needs_no_escape("message"@));
    unescaped_is_itself("message"@);
    let end = seq!['}'];
    let second = json_string("message"@) + (seq![':'] + (json_string(message) + end));
    let first = json_string("code"@) + (seq![':'] + (json_string(code) + (seq![','] + second)));
    assert(text.skip(1) =~= first);
    literal_reads_back("code"@, seq![':'] + (json_string(code) + (seq![','] + second)));
    assert((seq![':'] + (json_string(code) + (seq![','] + second))).skip(1) =~= json_string(code) + (
    seq![','] + second));
    literal_reads_back(code, seq![','] + second);
    assert((seq![','] + second).skip(1) =~= second);
    literal_reads_back("message"@, seq![':'] + (json_string(message) + end));
    assert((seq![':'] + (json_string(message) + end)).skip(1) =~= json_string(message) + end);
    literal_reads_back(message, end);
    assert(end.skip(1) =~= Seq::<char>::empty());
    assert(read_member(first) == Some((("code"@, code), seq![','] + second)));
    assert(read_member(second) == Some((("message"@, message), end)));
    let n = text.len();
    assert(n >= 2);
    assert(read_members(second, (n - 1) as nat) == Some(
        (seq![("message"@, message)], end.skip(1)),
    ));
    assert(read_members(first, n) == Some(
        (seq![("code"@, code)] + seq![("message"@, message)], end.skip(1)),
    ));
    assert(seq![("code"@, code)] + seq![("message"@, message)] =~= seq![
        ("code"@, code),
        ("message"@, message),
    ]);
    assert(text[0] == '{');
}

/// An input error that was written as JSON reads back as its code and its message.
pub proof fn input_error_reads_back(e: InputErrorView)
    ensures
        read_object(error_envelope(input_error_code(e), input_error_message(e))) == Some(
            seq![("code"@, input_error_code(e)), ("message"@, input_error_message(e))],
        ),
{
    reveal_strlit("INPUT_TOO_LARGE");
    reveal_strlit("INVALID_ENCODING");
    reveal_strlit("INVALID_ARGUMENT");
    assert(needs_no_escape(input_error_code(e)));
    envelope_reads_back(input_error_code(e), input_error_message(e));
}

/// An error that was written as JSON for an adapter reads back as its code and its
/// message.
pub proof fn core_error_reads_back(code: ErrorCode, message: Seq<char>)
    ensures
        read_object(error_envelope(envelope_code(code), message)) == Some(
            seq![("code"@, envelope_code(code)), ("message"@, message)],
        ),
{
    reveal_strlit("INVALID_INPUT");
    reveal_strlit("REFUSED");
    reveal_strlit("TIMEOUT");
    reveal_strlit("BODY_TOO_LARGE");
    reveal_strlit("HEADER_TOO_LARGE");
    reveal_strlit("PEER_REJECTED");
    reveal_strlit("CANCELLED");
    reveal_strlit("INTERNAL");
    assert(needs_no_escape(envelope_code(code)));
    envelope_reads_back(envelope_code(code), message);
}

// ── What is checked ──────────────────────────────────────────────────────────

/// Pairs are seen as they are.
pub proof fn pairs_are_seen_whole(pairs: Seq<(String, String)>)
    ensures
        pairs_view(pairs).len() == pairs.len(),
        forall|i: int|
            0 <= i < pairs.len() ==> #[trigger] pairs_view(pairs)[i] == (pairs[i].0@, pairs[i].1@),
{
}

/// The limits of what an adapter hands over.
pub proof fn limits_of_adapters()
    ensures
        MAX_HEADER_COUNT == 100,
        MAX_HEADER_NAME_LEN == 256,
        MAX_HEADER_VALUE_LEN == 8192,
        MAX_TIMEOUT_MS == 300_000,
        MAX_BODY_BYTES == 16_777_216,
{
}

/// A text is taken exactly where it is not empty, within its limit in bytes and free of
/// NUL; these are looked at in this order.
pub proof fn texts_are_taken(field: Seq<char>, value: Seq<char>, max: usize)
    ensures
        bounded_string_fault(field, value, max) is None <==> 0 < value.len()
            && vstd::utf8::encode_utf8(value).len() <= max && forall|i: int|
            0 <= i < value.len() ==> #[trigger] value[i] != '\0',
        value.len() == 0 ==> bounded_string_fault(field, value, max) == Some(
            InputErrorView::InvalidArgument { field, reason: "must not be empty"@ },
        ),
        value.len() > 0 && vstd::utf8::encode_utf8(value).len() > max ==> bounded_string_fault(
            field,
            value,
            max,
        ) == Some(
            InputErrorView::InputTooLarge {
                field,
                max,
                got: vstd::utf8::encode_utf8(value).len() as usize,
            },
        ),
{
    if value.contains('\0') {
        let i = choose|i: int| 0 <= i < value.len() && value[i] == '\0';
        assert(value[i] == '\0');
    }
}

/// Rows that are taken become pairs one by one, in order: the name and the value of each.
/// They are taken exactly where there are at most a hundred, each has two texts, and each
/// of these is taken.
pub proof fn rows_become_pairs(rows: Seq<Vec<String>>)
    ensures
        match validated_rows(rows) {
            Ok(pairs) => {
                &&& rows.len() <= 100
                &&& pairs.len() == rows.len()
                &&& forall|i: int|
                    0 <= i < rows.len() ==> {
                        &&& (#[trigger] rows[i])@.len() == 2
                        &&& pairs[i] == (rows[i]@[0]@, rows[i]@[1]@)
                        &&& bounded_string_fault("headerName"@, rows[i]@[0]@, 256) is None
                        &&& bounded_string_fault("headerValue"@, rows[i]@[1]@, 8192) is None
                    }
            },
            Err(e) => {
                ||| rows.len() > 100 && e == (InputErrorView::InputTooLarge {
                    field: "headers"@,
                    max: 100,
                    got: rows.len() as usize,
                })
                ||| rows.len() <= 100 && exists|k: int|
                    0 <= k < rows.len() && ({
                        ||| (#[trigger] rows[k])@.len() != 2 && e == (InputErrorView::InvalidArgument {
                            field: "headers"@,
                            reason: "each header must be [name, value]"@,
                        })
                        ||| bounded_string_fault("headerName"@, rows[k]@[0]@, 256) == Some(e)
                        ||| bounded_string_fault("headerValue"@, rows[k]@[1]@, 8192) == Some(e)
                    })
            },
        },
{
    pairs_of_rows(rows);
}

proof fn pairs_of_rows(rows: Seq<Vec<String>>)
    ensures
        match header_pairs(rows) {
            Ok(pairs) => {
                &&& pairs.len() == rows.len()
                &&& forall|i: int|
                    0 <= i < rows.len() ==> {
                        &&& (#[trigger] rows[i])@.len() == 2
                        &&& pairs[i] == (rows[i]@[0]@, rows[i]@[1]@)
                        &&& bounded_string_fault("headerName"@, rows[i]@[0]@, 256) is None
                        &&& bounded_string_fault("headerValue"@, rows[i]@[1]@, 8192) is None
                    }
            },
            Err(e) => exists|k: int|
                0 <= k < rows.len() && ({
                    ||| (#[trigger] rows[k])@.len() != 2 && e == (InputErrorView::InvalidArgument {
                        field: "headers"@,
                        reason: "each header must be [name, value]"@,
                    })
                    ||| bounded_string_fault("headerName"@, rows[k]@[0]@, 256) == Some(e)
                    ||| bounded_string_fault("headerValue"@, rows[k]@[1]@, 8192) == Some(e)
                }),
        },
    decreases rows.len(),
{
    if rows.len() > 0 {
        let init = rows.drop_last();
        pairs_of_rows(init);
        let n = rows.len() - 1;
        match header_pairs(init) {
            Err(e) => {
                let k = choose|k: int|
                    0 <= k < init.len() && ({
                        ||| (#[trigger] init[k])@.len() != 2 && e == (InputErrorView::InvalidArgument {
                            field: "headers"@,
                            reason: "each header must be [name, value]"@,
                        })
                        ||| bounded_string_fault("headerName"@, init[k]@[0]@, 256) == Some(e)
                        ||| bounded_string_fault("headerValue"@, init[k]@[1]@, 8192) == Some(e)
                    });
                assert(rows[k] == init[k]);
            },
            Ok(before) => {
                assert(rows[n] == rows.last());
                if let Ok(pairs) = header_pairs(rows) {
                    assert forall|i: int| 0 <= i < rows.len() implies {
                        &&& (#[trigger] rows[i])@.len() == 2
                        &&& pairs[i] == (rows[i]@[0]@, rows[i]@[1]@)
                        &&& bounded_string_fault("headerName"@, rows[i]@[0]@, 256) is None
                        &&& bounded_string_fault("headerValue"@, rows[i]@[1]@, 8192) is None
                    } by {
                        if i < n {
                            assert(rows[i] == init[i]);
                            assert(pairs[i] == before[i]);
                        }
                    }
                }
            },
        }
    }
}

/// An input error is seen as it is, and says what it is about.
pub proof fn input_errors_say_what_is_wrong(e: AdapterInputError)
    ensures
        e matches AdapterInputError::InputTooLarge { field, max, got } ==> e@
            == (InputErrorView::InputTooLarge { field: field@, max, got }) && input_error_code(e@)
            == "INPUT_TOO_LARGE"@ && input_error_message(e@) == field@ + " exceeds max size "@
            + decimal(max as nat) + " (got "@ + decimal(got as nat) + ")"@,
        e matches AdapterInputError::InvalidEncoding { field } ==> e@
            == (InputErrorView::InvalidEncoding { field: field@ }) && input_error_code(e@)
            == "INVALID_ENCODING"@ && input_error_message(e@) == field@
            + " contains invalid encoding"@,
        e matches AdapterInputError::InvalidArgument { field, reason } ==> e@
            == (InputErrorView::InvalidArgument { field: field@, reason: reason@ })
            && input_error_code(e@) == "INVALID_ARGUMENT"@ && input_error_message(e@) == field@
            + ": "@ + reason@,
{
}

/// Every error has the code under which adapters know it.
pub proof fn codes_of_adapters()
    ensures
        envelope_code(ErrorCode::InvalidInput) == "INVALID_INPUT"@,
        envelope_code(ErrorCode::ConnectionFailed) == "REFUSED"@,
        envelope_code(ErrorCode::Timeout) == "TIMEOUT"@,
        envelope_code(ErrorCode::BodyTooLarge) == "BODY_TOO_LARGE"@,
        envelope_code(ErrorCode::HeaderTooLarge) == "HEADER_TOO_LARGE"@,
        envelope_code(ErrorCode::PeerRejected) == "PEER_REJECTED"@,
        envelope_code(ErrorCode::Cancelled) == "CANCELLED"@,
        envelope_code(ErrorCode::Internal) == "INTERNAL"@,
{
}

/// The digits of a hexadecimal number are the decimal ones and the first six letters, in
/// either case.
pub proof fn hexadecimal_digits(c: char)
    ensures
        hex_value(c) is Some <==> ('0' <= c <= '9' || 'a' <= c <= 'f' || 'A' <= c <= 'F'),
        '0' <= c <= '9' ==> hex_value(c) == Some(c as int - '0' as int),
        'a' <= c <= 'f' ==> hex_value(c) == Some(10 + c as int - 'a' as int),
        'A' <= c <= 'F' ==> hex_value(c) == Some(10 + c as int - 'A' as int),
{
}

/// A character that is written as its number is read as that character; half of a pair of
/// code units is not read.
pub proof fn numbered_characters_are_read(
    a: char,
    b: char,
    c: char,
    d: char,
    rest: Seq<char>,
    t: Seq<char>,
    after: Seq<char>,
)
    requires
        hex_value(a) is Some,
        hex_value(b) is Some,
        hex_value(c) is Some,
        hex_value(d) is Some,
        read_chars(rest) == Some((t, after)),
    ensures
        ({
            let n = ((hex_value(a)->Some_0 * 16 + hex_value(b)->Some_0) * 16 + hex_value(c)->Some_0)
                * 16 + hex_value(d)->Some_0;
            let read = read_chars(seq!['\\', 'u', a, b, c, d] + rest);
            &&& 0xd800 <= n <= 0xdfff ==> read is None
            &&& !(0xd800 <= n <= 0xdfff) ==> read == Some((seq![n as char] + t, after))
        }),
{
    let s = seq!['\\', 'u', a, b, c, d] + rest;
    assert(s[0] == '\\' && s[1] == 'u');
    let u = s.skip(2);
    assert(u[0] == a && u[1] == b && u[2] == c && u[3] == d);
    assert(s.skip(6) =~= rest);
}

/// The characters that have a short form are read from it, and no other letter behind a
/// backslash is read.
pub proof fn short_forms_are_read(e: char, rest: Seq<char>, t: Seq<char>, after: Seq<char>)
    requires
        read_chars(rest) == Some((t, after)),
        e != 'u',
    ensures
        ({
            let read = read_chars(seq!['\\', e] + rest);
            &&& e == '"' || e == '\\' || e == '/' ==> read == Some((seq![e] + t, after))
            &&& e == 'b' ==> read == Some((seq!['\u{8}'] + t, after))
            &&& e == 'f' ==> read == Some((seq!['\u{c}'] + t, after))
            &&& e == 'n' ==> read == Some((seq!['\n'] + t, after))
            &&& e == 'r' ==> read == Some((seq!['\r'] + t, after))
            &&& e == 't' ==> read == Some((seq!['\t'] + t, after))
            &&& read is Some ==> e == '"' || e == '\\' || e == '/' || e == 'b' || e == 'f' || e
                == 'n' || e == 'r' || e == 't'
        }),
{
    let s = seq!['\\', e] + rest;
    assert(s[0] == '\\' && s[1] == e);
    assert(s.skip(2) =~= rest);
}

/// Every other character but a control character is read as itself, and a quotation mark
/// ends a string.
pub proof fn other_characters_are_read(c: char, rest: Seq<char>, t: Seq<char>, after: Seq<char>)
    requires
        c != '"',
        c != '\\',
        read_chars(rest) == Some((t, after)),
    ensures
        c >= ' ' ==> read_chars(seq![c] + rest) == Some((seq![c] + t, after)),
        c < ' ' ==> read_chars(seq![c] + rest) is None,
        read_chars(seq!['"'] + rest) == Some((Seq::<char>::empty(), rest)),
{
    let s = seq![c] + rest;
    assert(s[0] == c);
    assert(s.skip(1) =~= rest);
    let q = seq!['"'] + rest;
    assert(q[0] == '"');
    assert(q.skip(1) =~= rest);
}

/// A member of an object is a name and a value with a colon between them.
pub proof fn members_have_a_colon(
    s: Seq<char>,
    name: Seq<char>,
    r: Seq<char>,
    value: Seq<char>,
    after: Seq<char>,
)
    requires
        read_string(s) == Some((name, r)),
    ensures
        r.len() == 0 || r[0] != ':' ==> read_member(s) is None,
        r.len() > 0 && r[0] == ':' && read_string(r.skip(1)) == Some((value, after))
            ==> read_member(s) == Some(((name, value), after)),
        r.len() > 0 && r[0] == ':' && read_string(r.skip(1)) is None ==> read_member(s) is None,
{
}

} // verus!
