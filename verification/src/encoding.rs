//! Base32 and node ids.
//!
//! All base32 is lower-case RFC 4648 without padding, the form in which node
//! ids are written everywhere.
use vstd::prelude::*;

use crate::error::{CoreError, ErrorCode, ErrorView};
use crate::text::{ascii_lower, to_ascii_lower};

verus! {

// ── Bits ─────────────────────────────────────────────────────────────────────

/// Bit `k` of `v`, counted from the least significant one.
pub open spec fn bit_of(v: int, k: int) -> int {
    if k == 0 {
        v % 2
    } else if k == 1 {
        (v / 2) % 2
    } else if k == 2 {
        (v / 4) % 2
    } else if k == 3 {
        (v / 8) % 2
    } else if k == 4 {
        (v / 16) % 2
    } else if k == 5 {
        (v / 32) % 2
    } else if k == 6 {
        (v / 64) % 2
    } else {
        (v / 128) % 2
    }
}

/// Bit `j` of a string of bytes, the most significant bit of the first byte
/// first; zero past the end.
pub open spec fn byte_bit(b: Seq<u8>, j: int) -> int {
    if 0 <= j < 8 * b.len() {
        bit_of(b[j / 8] as int, 7 - j % 8)
    } else {
        0
    }
}

/// The number that five bits from `f(at)` on denote.
pub open spec fn five_bits(f: spec_fn(int) -> int, at: int) -> int {
    16 * f(at) + 8 * f(at + 1) + 4 * f(at + 2) + 2 * f(at + 3) + f(at + 4)
}

/// The number that eight bits from `f(at)` on denote.
pub open spec fn eight_bits(f: spec_fn(int) -> int, at: int) -> int {
    128 * f(at) + 64 * f(at + 1) + 32 * f(at + 2) + 16 * f(at + 3) + 8 * f(at + 4) + 4 * f(at + 5)
        + 2 * f(at + 6) + f(at + 7)
}

/// The base32 symbol of a value below 32: `a` to `z`, then `2` to `7`.
pub open spec fn symbol(v: int) -> char {
    if v < 26 {
        (v + 97) as char
    } else {
        (v + 24) as char
    }
}

/// Whether `c` is a base32 symbol.
pub open spec fn is_symbol(c: char) -> bool {
    'a' <= c <= 'z' || '2' <= c <= '7'
}

/// The value of a base32 symbol.
pub open spec fn symbol_value(c: char) -> int {
    if 'a' <= c <= 'z' {
        c as int - 97
    } else {
        c as int - 24
    }
}

/// Bit `j` of the values of a string of symbols, five bits to each.
pub open spec fn symbol_bit(s: Seq<char>, j: int) -> int {
    bit_of(symbol_value(s[j / 5]), 4 - j % 5)
}

/// The base32 form of bytes: one symbol for every five bits, the last group
/// filled up with zeros.
pub open spec fn base32_text(b: Seq<u8>) -> Seq<char> {
    Seq::new(
        ((8 * b.len() + 4) / 5) as nat,
        |i: int| symbol(five_bits(|j: int| byte_bit(b, j), 5 * i)),
    )
}

/// The bytes that a string of symbols holds: every whole eight bits of it.
pub open spec fn base32_bytes(s: Seq<char>) -> Option<Seq<u8>> {
    if forall|i: int| 0 <= i < s.len() ==> is_symbol(#[trigger] s[i]) {
        Some(
            Seq::new(
                (5 * s.len() / 8) as nat,
                |i: int| eight_bits(|j: int| symbol_bit(s, j), 8 * i) as u8,
            ),
        )
    } else {
        None
    }
}

/// `base32::encode` with the lower-case RFC 4648 alphabet and no padding: one
/// symbol for every five bits of the input, most significant bit first.
#[verifier::external_body]
fn encode_lower(bytes: &[u8]) -> (r: String)
    ensures
        r@ == base32_text(bytes@),
{
    base32::encode(base32::Alphabet::Rfc4648Lower { padding: false }, bytes)
}

/// `base32::decode` with the lower-case RFC 4648 alphabet and no padding: `None`
/// where a character is not one of its symbols, else every whole byte of the bits
/// that the symbols stand for.
#[verifier::external_body]
fn decode_lower(s: &str) -> (r: Option<Vec<u8>>)
    ensures
        match r {
            Some(v) => base32_bytes(s@) == Some(v@),
            None => base32_bytes(s@) is None,
        },
{
    base32::decode(base32::Alphabet::Rfc4648Lower { padding: false }, s)
}

/// Encode bytes as lower-case RFC 4648 base32 without padding.
pub fn base32_encode(bytes: &[u8]) -> (r: String)
    ensures
        r@ == base32_text(bytes@),
{
    encode_lower(bytes)
}

/// What base32 without padding holds, read without regard to ASCII case.
pub open spec fn base32_decoded(s: Seq<char>) -> Result<Seq<u8>, Seq<char>> {
    match base32_bytes(ascii_lower(s)) {
        Some(b) => Ok(b),
        None => Err("invalid base32 string: "@ + s),
    }
}

/// Decode an RFC 4648 base32 string (no padding, case-insensitive) to bytes.
pub fn base32_decode(s: &str) -> (r: Result<Vec<u8>, String>)
    ensures
        match r {
            Ok(v) => base32_decoded(s@) == Ok::<Seq<u8>, Seq<char>>(v@),
            Err(m) => base32_decoded(s@) == Err::<Seq<u8>, Seq<char>>(m@),
        },
{
    let lowered: String = to_ascii_lower(s);
    match decode_lower(&lowered) {
        Some(v) => Ok(v),
        None => {
            let mut m: String = String::from_str("invalid base32 string: ");
            m.append(s);
            Err(m)
        },
    }
}

// ── Reading back what was written ────────────────────────────────────────────

proof fn bit_is_binary(v: int, k: int)
    ensures
        0 <= bit_of(v, k) <= 1,
{
}

proof fn five_bits_split(a: int, b: int, c: int, d: int, e: int)
    requires
        0 <= a <= 1,
        0 <= b <= 1,
        0 <= c <= 1,
        0 <= d <= 1,
        0 <= e <= 1,
    ensures
        ({
            let v = 16 * a + 8 * b + 4 * c + 2 * d + e;
            &&& 0 <= v < 32
            &&& bit_of(v, 4) == a
            &&& bit_of(v, 3) == b
            &&& bit_of(v, 2) == c
            &&& bit_of(v, 1) == d
            &&& bit_of(v, 0) == e
        }),
{
}

proof fn byte_is_its_bits(v: int)
    requires
        0 <= v < 256,
    ensures
        128 * bit_of(v, 7) + 64 * bit_of(v, 6) + 32 * bit_of(v, 5) + 16 * bit_of(v, 4) + 8 * bit_of(
            v,
            3,
        ) + 4 * bit_of(v, 2) + 2 * bit_of(v, 1) + bit_of(v, 0) == v,
{
    let v1 = v / 2;
    let v2 = v1 / 2;
    let v3 = v2 / 2;
    let v4 = v3 / 2;
    let v5 = v4 / 2;
    let v6 = v5 / 2;
    let v7 = v6 / 2;
    assert(v / 4 == v2);
    assert(v / 8 == v3);
    assert(v / 16 == v4);
    assert(v / 32 == v5);
    assert(v / 64 == v6);
    assert(v / 128 == v7);
    assert(v7 % 2 == v7);
}

/// The bits of the symbols are the bits of the bytes.
proof fn symbols_keep_bits(b: Seq<u8>, j: int)
    requires
        0 <= j < 8 * b.len(),
    ensures
        0 <= j / 5 < base32_text(b).len(),
        symbol_bit(base32_text(b), j) == byte_bit(b, j),
{
    let g = j / 5;
    let f = |k: int| byte_bit(b, k);
    let at = 5 * g;
    assert(g < (8 * b.len() + 4) / 5);
    bit_is_binary(b[at / 8] as int, 7 - at % 8);
    bit_is_binary(b[(at + 1) / 8] as int, 7 - (at + 1) % 8);
    bit_is_binary(b[(at + 2) / 8] as int, 7 - (at + 2) % 8);
    bit_is_binary(b[(at + 3) / 8] as int, 7 - (at + 3) % 8);
    bit_is_binary(b[(at + 4) / 8] as int, 7 - (at + 4) % 8);
    five_bits_split(f(at), f(at + 1), f(at + 2), f(at + 3), f(at + 4));
    let v = five_bits(f, at);
    assert(base32_text(b)[g] == symbol(v));
    assert(symbol_value(symbol(v)) == v);
    let k = j % 5;
    assert(j == at + k);
}

/// Every character of a base32 text is a symbol.
proof fn texts_are_symbols(b: Seq<u8>, i: int)
    requires
        0 <= i < base32_text(b).len(),
    ensures
        is_symbol(base32_text(b)[i]),
{
    let f = |k: int| byte_bit(b, k);
    let at = 5 * i;
    bit_is_binary(b[at / 8] as int, 7 - at % 8);
    bit_is_binary(b[(at + 1) / 8] as int, 7 - (at + 1) % 8);
    bit_is_binary(b[(at + 2) / 8] as int, 7 - (at + 2) % 8);
    bit_is_binary(b[(at + 3) / 8] as int, 7 - (at + 3) % 8);
    bit_is_binary(b[(at + 4) / 8] as int, 7 - (at + 4) % 8);
    five_bits_split(f(at), f(at + 1), f(at + 2), f(at + 3), f(at + 4));
    assert(base32_text(b)[i] == symbol(five_bits(f, at)));
}

/// Bit `at + k` of the symbols of `b` is bit `7 - k` of byte `i`.
proof fn symbols_keep_byte_bit(b: Seq<u8>, i: int, k: int)
    requires
        0 <= i < b.len(),
        0 <= k < 8,
    ensures
        symbol_bit(base32_text(b), 8 * i + k) == bit_of(b[i] as int, 7 - k),
{
    symbols_keep_bits(b, 8 * i + k);
    assert((8 * i + k) / 8 == i && (8 * i + k) % 8 == k);
}

/// Each byte reads back from the symbols.
proof fn byte_reads_back(b: Seq<u8>, i: int)
    requires
        0 <= i < b.len(),
    ensures
        eight_bits(|j: int| symbol_bit(base32_text(b), j), 8 * i) == b[i],
{
    let f = |j: int| symbol_bit(base32_text(b), j);
    symbols_keep_byte_bit(b, i, 0);
    symbols_keep_byte_bit(b, i, 1);
    symbols_keep_byte_bit(b, i, 2);
    symbols_keep_byte_bit(b, i, 3);
    symbols_keep_byte_bit(b, i, 4);
    symbols_keep_byte_bit(b, i, 5);
    symbols_keep_byte_bit(b, i, 6);
    symbols_keep_byte_bit(b, i, 7);
    byte_is_its_bits(b[i] as int);
    assert(eight_bits(f, 8 * i) == 128 * f(8 * i) + 64 * f(8 * i + 1) + 32 * f(8 * i + 2) + 16 * f(
        8 * i + 3,
    ) + 8 * f(8 * i + 4) + 4 * f(8 * i + 5) + 2 * f(8 * i + 6) + f(8 * i + 7));
}

/// Decoding what was encoded gives the bytes back.
pub proof fn base32_round_trip(b: Seq<u8>)
    ensures
        base32_decoded(base32_text(b)) == Ok::<Seq<u8>, Seq<char>>(b),
{
    let s = base32_text(b);
    assert forall|i: int| 0 <= i < s.len() implies is_symbol(#[trigger] s[i]) by {
        texts_are_symbols(b, i);
    }
    assert forall|i: int| 0 <= i < s.len() implies #[trigger] ascii_lower(s)[i] == s[i] by {
        assert(is_symbol(s[i]));
    }
    assert(ascii_lower(s) =~= s);
    let d = base32_bytes(s)->Some_0;
    assert(d.len() == b.len());
    assert forall|i: int| 0 <= i < b.len() implies #[trigger] d[i] == b[i] by {
        byte_reads_back(b, i);
    }
    assert(d =~= b);
}

// ── Node ids ─────────────────────────────────────────────────────────────────

/// The public key that names a node.
#[derive(Debug, Clone, Copy, PartialEq, Eq)]
pub struct NodeId {
    pub bytes: [u8; 32],
}

/// What `iroh::PublicKey::from_bytes` has against 32 bytes as a public key.
pub uninterp spec fn public_key_fault(bytes: Seq<u8>) -> Option<Seq<char>>;

/// `iroh::PublicKey::from_bytes`: whether 32 bytes are a public key, and the
/// text of its error where they are not.
#[verifier::external_body]
pub(crate) fn check_public_key(bytes: &[u8; 32]) -> (r: Option<String>)
    ensures
        match r {
            Some(m) => public_key_fault(bytes@) == Some(m@),
            None => public_key_fault(bytes@) is None,
        },
{
    iroh::PublicKey::from_bytes(bytes).err().map(|e| e.to_string())
}

/// A key in which no fault was found names a node.
pub open spec fn admitted_node_id(bytes: Seq<u8>, fault: Option<Seq<char>>) -> Result<
    Seq<u8>,
    ErrorView,
> {
    match fault {
        Some(m) => Err((ErrorCode::InvalidInput, m)),
        None => Ok(bytes),
    }
}

/// Turns the outcome of a key check into a node id or an error.
pub fn admit_node_id(bytes: [u8; 32], fault: Option<String>) -> (r: Result<NodeId, CoreError>)
    ensures
        match r {
            Ok(id) => fault is None && id.bytes@ == bytes@,
            Err(e) => fault is Some && e@ == (ErrorCode::InvalidInput, fault->Some_0@),
        },
{
    match fault {
        Some(m) => Err(CoreError::invalid_input(&m)),
        None => Ok(NodeId { bytes }),
    }
}

/// The node id that a base32 string names, or what is wrong with it.
pub open spec fn parsed_node_id(s: Seq<char>) -> Result<Seq<u8>, ErrorView> {
    match base32_decoded(s) {
        Err(m) => Err((ErrorCode::InvalidInput, m)),
        Ok(b) => if b.len() != 32 {
            Err((ErrorCode::InvalidInput, "node-id must be 32 bytes"@))
        } else {
            admitted_node_id(b, public_key_fault(b))
        },
    }
}

/// The first 32 bytes of `v`, as an array.
fn array_of(v: &Vec<u8>) -> (r: [u8; 32])
    requires
        v@.len() == 32,
    ensures
        r@ == v@,
{
    let mut a: [u8; 32] = [0; 32];
    let mut i: usize = 0;
    while i < 32
        invariant
            i <= 32,
            v@.len() == 32,
            forall|j: int| 0 <= j < i ==> #[trigger] a@[j] == v@[j],
        decreases 32 - i,
    {
        a[i] = v[i];
        i = i + 1;
    }
    proof {
        assert(a@ =~= v@);
    }
    a
}

/// Parse a base32 node id.
pub fn parse_node_id(s: &str) -> (r: Result<NodeId, CoreError>)
    ensures
        match r {
            Ok(id) => parsed_node_id(s@) == Ok::<Seq<u8>, ErrorView>(id.bytes@),
            Err(e) => parsed_node_id(s@) == Err::<Seq<u8>, ErrorView>(e@),
        },
{
    match base32_decode(s) {
        Err(m) => Err(CoreError::invalid_input(&m)),
        Ok(v) => {
            if v.len() != 32 {
                return Err(CoreError::invalid_input("node-id must be 32 bytes"));
            }
            let bytes: [u8; 32] = array_of(&v);
            let fault = check_public_key(&bytes);
            admit_node_id(bytes, fault)
        },
    }
}

/// The text form of a node id that names a valid key parses back to the same bytes.
pub proof fn node_id_text_parses_back(bytes: Seq<u8>)
    requires
        bytes.len() == 32,
        public_key_fault(bytes) is None,
    ensures
        parsed_node_id(base32_text(bytes)) == Ok::<Seq<u8>, ErrorView>(bytes),
{
    base32_round_trip(bytes);
}

/// Numbers below 32 have their symbols: the small letters, then the digits from 2 to 7. A
/// symbol stands for the number whose symbol it is.
pub proof fn numbers_have_their_symbols(v: int)
    requires
        0 <= v < 32,
    ensures
        v < 26 ==> symbol(v) as int == 'a' as int + v,
        v >= 26 ==> symbol(v) as int == '2' as int + (v - 26),
        is_symbol(symbol(v)),
        symbol_value(symbol(v)) == v,
{
}

/// The text of bytes has a symbol for every five bits, and the bytes of a text are as many
/// as its symbols hold in full. Only symbols are read.
pub proof fn texts_have_their_length(b: Seq<u8>, s: Seq<char>)
    ensures
        5 * base32_text(b).len() >= 8 * b.len(),
        5 * base32_text(b).len() < 8 * b.len() + 5,
        base32_bytes(s) is Some <==> forall|i: int|
            0 <= i < s.len() ==> ('a' <= #[trigger] s[i] <= 'z') || ('2' <= s[i] <= '7'),
        base32_bytes(s) matches Some(out) ==> 8 * out.len() <= 5 * s.len() < 8 * out.len() + 8,
{
    if base32_bytes(s) is Some {
        assert forall|i: int| 0 <= i < s.len() implies ('a' <= #[trigger] s[i] <= 'z') || ('2'
            <= s[i] <= '7') by {
            assert(is_symbol(s[i]));
        }
    } else {
        let i = choose|i: int| 0 <= i < s.len() && !is_symbol(#[trigger] s[i]);
        assert(!is_symbol(s[i]));
    }
}

/// Texts are read in any case, and what is not read is quoted.
pub proof fn texts_are_read_in_any_case(a: Seq<char>, b: Seq<char>)
    requires
        crate::text::same_ignoring_case(a, b),
    ensures
        base32_decoded(a) is Ok <==> base32_decoded(b) is Ok,
        base32_decoded(a) is Ok ==> base32_decoded(a) == base32_decoded(b),
        base32_decoded(a) matches Err(m) ==> m == "invalid base32 string: "@ + a,
{
}

/// A node id is read exactly where its text is that of 32 bytes that are a public key, and
/// then is these bytes; else the error is one of the input, and says which of these fails.
pub proof fn node_ids_are_public_keys(s: Seq<char>)
    ensures
        match parsed_node_id(s) {
            Ok(b) => base32_decoded(s) == Ok::<Seq<u8>, Seq<char>>(b) && b.len() == 32
                && public_key_fault(b) is None,
            Err(e) => e.0 == ErrorCode::InvalidInput && (match base32_decoded(s) {
                Err(m) => e.1 == m,
                Ok(b) => if b.len() != 32 {
                    e.1 == "node-id must be 32 bytes"@
                } else {
                    public_key_fault(b) == Some(e.1)
                },
            }),
        },
        base32_decoded(s) matches Ok(b) ==> b.len() == 32 && public_key_fault(b) is None
            ==> parsed_node_id(s) == Ok::<Seq<u8>, ErrorView>(b),
{
}

/// The number that five bytes are, the first of them the highest.
pub open spec fn number_of_bytes(b: Seq<u8>, at: int) -> int {
    (((b[at] * 256 + b[at + 1]) * 256 + b[at + 2]) * 256 + b[at + 3]) * 256 + b[at + 4]
}

/// The number that eight symbols are, the first of them the highest.
pub open spec fn number_of_symbols(s: Seq<char>, at: int) -> int {
    ((((((symbol_value(s[at]) * 32 + symbol_value(s[at + 1])) * 32 + symbol_value(s[at + 2])) * 32
        + symbol_value(s[at + 3])) * 32 + symbol_value(s[at + 4])) * 32 + symbol_value(s[at + 5]))
        * 32 + symbol_value(s[at + 6])) * 32 + symbol_value(s[at + 7])
}

proof fn byte_has_its_bits(b: Seq<u8>, i: int)
    requires
        0 <= i < b.len(),
    ensures
        eight_bits(|j: int| byte_bit(b, j), 8 * i) == b[i],
{
    byte_is_its_bits(b[i] as int);
    let f = |j: int| byte_bit(b, j);
    assert(f(8 * i) == bit_of(b[i] as int, 7));
    assert(f(8 * i + 1) == bit_of(b[i] as int, 6));
    assert(f(8 * i + 2) == bit_of(b[i] as int, 5));
    assert(f(8 * i + 3) == bit_of(b[i] as int, 4));
    assert(f(8 * i + 4) == bit_of(b[i] as int, 3));
    assert(f(8 * i + 5) == bit_of(b[i] as int, 2));
    assert(f(8 * i + 6) == bit_of(b[i] as int, 1));
    assert(f(8 * i + 7) == bit_of(b[i] as int, 0));
}

proof fn symbol_has_its_bits(b: Seq<u8>, i: int)
    requires
        0 <= i < base32_text(b).len(),
    ensures
        symbol_value(base32_text(b)[i]) == five_bits(|j: int| byte_bit(b, j), 5 * i),
{
    let f = |j: int| byte_bit(b, j);
    let at = 5 * i;
    bit_is_binary(b[at / 8] as int, 7 - at % 8);
    bit_is_binary(b[(at + 1) / 8] as int, 7 - (at + 1) % 8);
    bit_is_binary(b[(at + 2) / 8] as int, 7 - (at + 2) % 8);
    bit_is_binary(b[(at + 3) / 8] as int, 7 - (at + 3) % 8);
    bit_is_binary(b[(at + 4) / 8] as int, 7 - (at + 4) % 8);
    assert(base32_text(b)[i] == symbol(five_bits(f, at)));
}

proof fn bits_are_the_number(f: spec_fn(int) -> int, b: Seq<u8>, s: Seq<char>, k: int, at: int)
    requires
        b[5 * k] == eight_bits(f, at),
        b[5 * k + 1] == eight_bits(f, at + 8),
        b[5 * k + 2] == eight_bits(f, at + 16),
        b[5 * k + 3] == eight_bits(f, at + 24),
        b[5 * k + 4] == eight_bits(f, at + 32),
        symbol_value(s[8 * k]) == five_bits(f, at),
        symbol_value(s[8 * k + 1]) == five_bits(f, at + 5),
        symbol_value(s[8 * k + 2]) == five_bits(f, at + 10),
        symbol_value(s[8 * k + 3]) == five_bits(f, at + 15),
        symbol_value(s[8 * k + 4]) == five_bits(f, at + 20),
        symbol_value(s[8 * k + 5]) == five_bits(f, at + 25),
        symbol_value(s[8 * k + 6]) == five_bits(f, at + 30),
        symbol_value(s[8 * k + 7]) == five_bits(f, at + 35),
    ensures
        number_of_symbols(s, 8 * k) == number_of_bytes(b, 5 * k),
{
}

/// Bytes and the symbols of their text are one number, five bytes and eight symbols at a
/// time: the bits keep their order.
pub proof fn texts_are_the_number(b: Seq<u8>, k: int)
    requires
        0 <= k,
        5 * k + 5 <= b.len(),
    ensures
        8 * k + 8 <= base32_text(b).len(),
        number_of_symbols(base32_text(b), 8 * k) == number_of_bytes(b, 5 * k),
{
    let f = |j: int| byte_bit(b, j);
    let s = base32_text(b);
    let at = 40 * k;
    assert(b[5 * k] == eight_bits(f, at)) by {
        byte_has_its_bits(b, 5 * k);
        assert(8 * (5 * k) == at);
    }
    assert(b[5 * k + 1] == eight_bits(f, at + 8)) by {
        byte_has_its_bits(b, 5 * k + 1);
        assert(8 * (5 * k + 1) == at + 8);
    }
    assert(b[5 * k + 2] == eight_bits(f, at + 16)) by {
        byte_has_its_bits(b, 5 * k + 2);
        assert(8 * (5 * k + 2) == at + 16);
    }
    assert(b[5 * k + 3] == eight_bits(f, at + 24)) by {
        byte_has_its_bits(b, 5 * k + 3);
        assert(8 * (5 * k + 3) == at + 24);
    }
    assert(b[5 * k + 4] == eight_bits(f, at + 32)) by {
        byte_has_its_bits(b, 5 * k + 4);
        assert(8 * (5 * k + 4) == at + 32);
    }
    assert(symbol_value(s[8 * k]) == five_bits(f, at)) by {
        symbol_has_its_bits(b, 8 * k);
        assert(5 * (8 * k) == at);
    }
    assert(symbol_value(s[8 * k + 1]) == five_bits(f, at + 5)) by {
        symbol_has_its_bits(b, 8 * k + 1);
        assert(5 * (8 * k + 1) == at + 5);
    }
    assert(symbol_value(s[8 * k + 2]) == five_bits(f, at + 10)) by {
        symbol_has_its_bits(b, 8 * k + 2);
        assert(5 * (8 * k + 2) == at + 10);
    }
    assert(symbol_value(s[8 * k + 3]) == five_bits(f, at + 15)) by {
        symbol_has_its_bits(b, 8 * k + 3);
        assert(5 * (8 * k + 3) == at + 15);
    }
    assert(symbol_value(s[8 * k + 4]) == five_bits(f, at + 20)) by {
        symbol_has_its_bits(b, 8 * k + 4);
        assert(5 * (8 * k + 4) == at + 20);
    }
    assert(symbol_value(s[8 * k + 5]) == five_bits(f, at + 25)) by {
        symbol_has_its_bits(b, 8 * k + 5);
        assert(5 * (8 * k + 5) == at + 25);
    }
    assert(symbol_value(s[8 * k + 6]) == five_bits(f, at + 30)) by {
        symbol_has_its_bits(b, 8 * k + 6);
        assert(5 * (8 * k + 6) == at + 30);
    }
    assert(symbol_value(s[8 * k + 7]) == five_bits(f, at + 35)) by {
        symbol_has_its_bits(b, 8 * k + 7);
        assert(5 * (8 * k + 7) == at + 35);
    }
    bits_are_the_number(f, b, s, k, at);
}

/// What is left over behind the last five bytes is written as if zeros followed it.
pub proof fn texts_end_in_zeros(b: Seq<u8>, n: nat)
    ensures
        base32_text(b) == base32_text(b + Seq::new(n, |i: int| 0u8)).take(
            base32_text(b).len() as int,
        ),
{
    let c = b + Seq::new(n, |i: int| 0u8);
    let f = |j: int| byte_bit(b, j);
    let g = |j: int| byte_bit(c, j);
    assert forall|j: int| 0 <= j implies #[trigger] byte_bit(b, j) == byte_bit(c, j) by {
        bit_of_zero(7 - j % 8);
        if j < 8 * b.len() {
            assert(c[j / 8] == b[j / 8]);
        } else if j < 8 * c.len() {
            assert(c[j / 8] == 0);
        }
    }
    assert forall|i: int| 0 <= i < base32_text(b).len() implies base32_text(b)[i] == base32_text(
        c,
    )[i] by {
        assert(f(5 * i) == g(5 * i));
        assert(f(5 * i + 1) == g(5 * i + 1));
        assert(f(5 * i + 2) == g(5 * i + 2));
        assert(f(5 * i + 3) == g(5 * i + 3));
        assert(f(5 * i + 4) == g(5 * i + 4));
    }
    assert(base32_text(b) =~= base32_text(c).take(base32_text(b).len() as int));
}

proof fn bit_of_zero(k: int)
    ensures
        bit_of(0, k) == 0,
{
}

proof fn symbol_is_its_bits(s: Seq<char>, i: int)
    requires
        0 <= i < s.len(),
        is_symbol(s[i]),
    ensures
        symbol_value(s[i]) == five_bits(|j: int| symbol_bit(s, j), 5 * i),
{
    let g = |j: int| symbol_bit(s, j);
    let v = symbol_value(s[i]);
    assert(0 <= v < 32);
    byte_is_its_bits(v);
    assert(g(5 * i) == bit_of(v, 4));
    assert(g(5 * i + 1) == bit_of(v, 3));
    assert(g(5 * i + 2) == bit_of(v, 2));
    assert(g(5 * i + 3) == bit_of(v, 1));
    assert(g(5 * i + 4) == bit_of(v, 0));
}

proof fn read_byte_has_its_bits(s: Seq<char>, i: int)
    requires
        base32_bytes(s) is Some,
        0 <= i < base32_bytes(s)->Some_0.len(),
    ensures
        base32_bytes(s)->Some_0[i] == eight_bits(|j: int| symbol_bit(s, j), 8 * i),
{
    let g = |j: int| symbol_bit(s, j);
    let at = 8 * i;
    bit_is_binary(symbol_value(s[at / 5]), 4 - at % 5);
    bit_is_binary(symbol_value(s[(at + 1) / 5]), 4 - (at + 1) % 5);
    bit_is_binary(symbol_value(s[(at + 2) / 5]), 4 - (at + 2) % 5);
    bit_is_binary(symbol_value(s[(at + 3) / 5]), 4 - (at + 3) % 5);
    bit_is_binary(symbol_value(s[(at + 4) / 5]), 4 - (at + 4) % 5);
    bit_is_binary(symbol_value(s[(at + 5) / 5]), 4 - (at + 5) % 5);
    bit_is_binary(symbol_value(s[(at + 6) / 5]), 4 - (at + 6) % 5);
    bit_is_binary(symbol_value(s[(at + 7) / 5]), 4 - (at + 7) % 5);
    assert(base32_bytes(s)->Some_0[i] == eight_bits(g, at) as u8);
}

/// The symbols of a text and the bytes that are read from it are one number, eight symbols
/// and five bytes at a time.
pub proof fn read_bytes_are_the_number(s: Seq<char>, k: int)
    requires
        base32_bytes(s) is Some,
        0 <= k,
        8 * k + 8 <= s.len(),
    ensures
        5 * k + 5 <= base32_bytes(s)->Some_0.len(),
        number_of_bytes(base32_bytes(s)->Some_0, 5 * k) == number_of_symbols(s, 8 * k),
{
    let f = |j: int| symbol_bit(s, j);
    let b = base32_bytes(s)->Some_0;
    let at = 40 * k;
    assert(b[5 * k] == eight_bits(f, at)) by {
        read_byte_has_its_bits(s, 5 * k);
        assert(8 * (5 * k) == at);
    }
    assert(b[5 * k + 1] == eight_bits(f, at + 8)) by {
        read_byte_has_its_bits(s, 5 * k + 1);
        assert(8 * (5 * k + 1) == at + 8);
    }
    assert(b[5 * k + 2] == eight_bits(f, at + 16)) by {
        read_byte_has_its_bits(s, 5 * k + 2);
        assert(8 * (5 * k + 2) == at + 16);
    }
    assert(b[5 * k + 3] == eight_bits(f, at + 24)) by {
        read_byte_has_its_bits(s, 5 * k + 3);
        assert(8 * (5 * k + 3) == at + 24);
    }
    assert(b[5 * k + 4] == eight_bits(f, at + 32)) by {
        read_byte_has_its_bits(s, 5 * k + 4);
        assert(8 * (5 * k + 4) == at + 32);
    }
    assert(symbol_value(s[8 * k]) == five_bits(f, at)) by {
        symbol_is_its_bits(s, 8 * k);
        assert(5 * (8 * k) == at);
    }
    assert(symbol_value(s[8 * k + 1]) == five_bits(f, at + 5)) by {
        symbol_is_its_bits(s, 8 * k + 1);
        assert(5 * (8 * k + 1) == at + 5);
    }
    assert(symbol_value(s[8 * k + 2]) == five_bits(f, at + 10)) by {
        symbol_is_its_bits(s, 8 * k + 2);
        assert(5 * (8 * k + 2) == at + 10);
    }
    assert(symbol_value(s[8 * k + 3]) == five_bits(f, at + 15)) by {
        symbol_is_its_bits(s, 8 * k + 3);
        assert(5 * (8 * k + 3) == at + 15);
    }
    assert(symbol_value(s[8 * k + 4]) == five_bits(f, at + 20)) by {
        symbol_is_its_bits(s, 8 * k + 4);
        assert(5 * (8 * k + 4) == at + 20);
    }
    assert(symbol_value(s[8 * k + 5]) == five_bits(f, at + 25)) by {
        symbol_is_its_bits(s, 8 * k + 5);
        assert(5 * (8 * k + 5) == at + 25);
    }
    assert(symbol_value(s[8 * k + 6]) == five_bits(f, at + 30)) by {
        symbol_is_its_bits(s, 8 * k + 6);
        assert(5 * (8 * k + 6) == at + 30);
    }
    assert(symbol_value(s[8 * k + 7]) == five_bits(f, at + 35)) by {
        symbol_is_its_bits(s, 8 * k + 7);
        assert(5 * (8 * k + 7) == at + 35);
    }
    bits_are_the_number(f, b, s, k, at);
}

/// The bytes of a text are the first ones of the same text with zeros behind it.
pub proof fn read_bytes_end_in_zeros(s: Seq<char>, n: nat)
    requires
        base32_bytes(s) is Some,
    ensures
        base32_bytes(s + Seq::new(n, |i: int| 'a')) matches Some(out) && base32_bytes(s)->Some_0
            == out.take(base32_bytes(s)->Some_0.len() as int),
{
    let c = s + Seq::new(n, |i: int| 'a');
    assert forall|i: int| 0 <= i < c.len() implies is_symbol(#[trigger] c[i]) by {
        if i < s.len() {
            assert(is_symbol(s[i]));
        }
    }
    let b = base32_bytes(s)->Some_0;
    let d = base32_bytes(c)->Some_0;
    let f = |j: int| symbol_bit(s, j);
    let g = |j: int| symbol_bit(c, j);
    assert forall|i: int| 0 <= i < b.len() implies b[i] == d[i] by {
        assert forall|j: int| 0 <= j < 5 * s.len() implies #[trigger] symbol_bit(s, j)
            == symbol_bit(c, j) by {
            assert(c[j / 5] == s[j / 5]);
        }
        assert(f(8 * i) == g(8 * i));
        assert(f(8 * i + 1) == g(8 * i + 1));
        assert(f(8 * i + 2) == g(8 * i + 2));
        assert(f(8 * i + 3) == g(8 * i + 3));
        assert(f(8 * i + 4) == g(8 * i + 4));
        assert(f(8 * i + 5) == g(8 * i + 5));
        assert(f(8 * i + 6) == g(8 * i + 6));
        assert(f(8 * i + 7) == g(8 * i + 7));
        assert(b[i] == eight_bits(f, 8 * i) as u8);
        assert(d[i] == eight_bits(g, 8 * i) as u8);
    }
    assert(b =~= d.take(b.len() as int));
}

} // verus!
