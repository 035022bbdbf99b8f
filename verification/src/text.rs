//! Strings as sequences of characters: searching, splitting, trimming,
//! ASCII case, and decimal numbers.
use vstd::prelude::*;

verus! {

/// `String::push`: the character goes to the end of the string.
pub assume_specification[ String::push ](s: &mut String, c: char)
    ensures
        final(s)@ == old(s)@.push(c),
;

// ── Decimal numbers ──────────────────────────────────────────────────────────

/// The character of a decimal digit.
pub open spec fn digit(d: nat) -> char
    recommends
        d < 10,
{
    (d + 48) as char
}

/// A number in decimal, without leading zeros.
pub open spec fn decimal(n: nat) -> Seq<char>
    decreases n,
{
    if n < 10 {
        seq![digit(n)]
    } else {
        decimal(n / 10).push(digit(n % 10))
    }
}

/// Whether `c` is an ASCII digit.
pub open spec fn is_digit(c: char) -> bool {
    '0' <= c <= '9'
}

/// The number that a sequence of ASCII digits denotes.
pub open spec fn digits_value(s: Seq<char>) -> nat
    decreases s.len(),
{
    if s.len() == 0 {
        0
    } else {
        10 * digits_value(s.drop_last()) + (s.last() as nat - 48) as nat
    }
}

/// Whether `s` is a run of ASCII digits.
pub open spec fn all_digits(s: Seq<char>) -> bool {
    forall|i: int| 0 <= i < s.len() ==> is_digit(#[trigger] s[i])
}

/// The number that an optionally `+`-signed, non-empty run of digits denotes,
/// if it is at most `max`.
pub open spec fn unsigned_value(s: Seq<char>, max: nat) -> Option<nat> {
    let body = if s.len() > 0 && s[0] == '+' {
        s.drop_first()
    } else {
        s
    };
    if body.len() > 0 && all_digits(body) && digits_value(body) <= max {
        Some(digits_value(body))
    } else {
        None
    }
}

/// Appends `n` in decimal.
pub fn append_decimal(s: &mut String, n: u64)
    ensures
        final(s)@ == old(s)@ + decimal(n as nat),
    decreases n,
{
    let d: u8 = (n % 10) as u8 + 48;
    if n >= 10 {
        append_decimal(s, n / 10);
    }
    let ghost before = s@;
    s.push(d as char);
    proof {
        assert(d as char == digit((n % 10) as nat));
        assert(before.push(d as char) =~= old(s)@ + decimal(n as nat));
    }
}

/// `n` in decimal.
pub fn decimal_text(n: u64) -> (r: String)
    ensures
        r@ == decimal(n as nat),
{
    let mut s: String = String::new();
    append_decimal(&mut s, n);
    proof {
        assert(s@ =~= decimal(n as nat));
    }
    s
}

/// Every character of a decimal number is a digit, and the digits denote the number.
pub proof fn decimal_denotes(n: nat)
    ensures
        decimal(n).len() > 0,
        all_digits(decimal(n)),
        digits_value(decimal(n)) == n,
    decreases n,
{
    if n < 10 {
        assert(decimal(n).drop_last() =~= Seq::<char>::empty());
        assert(digits_value(decimal(n).drop_last()) == 0);
    } else {
        decimal_denotes(n / 10);
        assert(decimal(n).drop_last() =~= decimal(n / 10));
    }
}

/// Reading back a number that was written in decimal gives the number.
pub proof fn decimal_reads_back(n: nat, max: nat)
    requires
        n <= max,
    ensures
        unsigned_value(decimal(n), max) == Some(n),
{
    decimal_denotes(n);
    assert(is_digit(decimal(n)[0]));
}

/// A prefix of a run of digits denotes no more than the run.
proof fn digits_prefix_bound(s: Seq<char>, k: int)
    requires
        0 <= k <= s.len(),
        all_digits(s),
    ensures
        digits_value(s.take(k)) <= digits_value(s),
    decreases s.len(),
{
    if k == s.len() {
        assert(s.take(k) =~= s);
    } else {
        digits_prefix_bound(s.drop_last(), k);
        assert(s.drop_last().take(k) =~= s.take(k));
    }
}

/// Reads an unsigned decimal number of at most `max`: an optional `+`, then digits.
pub fn parse_unsigned(s: &str, max: u64) -> (r: Option<u64>)
    ensures
        match r {
            Some(n) => unsigned_value(s@, max as nat) == Some(n as nat),
            None => unsigned_value(s@, max as nat) is None,
        },
{
    let v: Vec<char> = chars_of(s);
    let start: usize = if v.len() > 0 && v[0] == '+' {
        1
    } else {
        0
    };
    let ghost body = s@.skip(start as int);
    proof {
        assert(start == 1 ==> body =~= s@.drop_first());
        assert(start == 0 ==> body =~= s@);
    }
    if start == v.len() {
        return None;
    }
    let mut i: usize = start;
    let mut n: u64 = 0;
    proof {
        assert(body.take(0) =~= Seq::<char>::empty());
    }
    while i < v.len()
        invariant
            start <= i <= v.len(),
            v@ == s@,
            start <= 1,
            body == s@.skip(start as int),
            body == (if s@.len() > 0 && s@[0] == '+' {
                s@.drop_first()
            } else {
                s@
            }),
            forall|j: int| 0 <= j < i - start ==> is_digit(#[trigger] body[j]),
            n == digits_value(body.take(i - start)),
            n <= max,
        decreases v.len() - i,
    {
        let c: char = v[i];
        proof {
            assert(c == body[i - start]);
        }
        if !(c >= '0' && c <= '9') {
            proof {
                assert(!is_digit(body[i - start]));
            }
            return None;
        }
        let d: u64 = (c as u32 - 48) as u64;
        proof {
            let k = i - start;
            assert(body.take(k + 1).drop_last() =~= body.take(k));
            assert(digits_value(body.take(k + 1)) == 10 * n + d);
            if all_digits(body) {
                digits_prefix_bound(body, k + 1);
            }
        }
        let next: u128 = n as u128 * 10 + d as u128;
        if next > max as u128 {
            return None;
        }
        n = next as u64;
        i = i + 1;
    }
    proof {
        assert(body.take(body.len() as int) =~= body);
    }
    Some(n)
}


// ── Characters and pieces ────────────────────────────────────────────────────

/// The characters of a string.
pub fn chars_of(s: &str) -> (v: Vec<char>)
    ensures
        v@ == s@,
{
    let mut v: Vec<char> = Vec::new();
    for c in it: s.chars()
        invariant
            v@ == it.seq().take(it.index() as int),
            it.seq() == s@,
    {
        v.push(c);
    }
    proof {
        assert(s@.take(s@.len() as int) =~= s@);
    }
    v
}

/// A string of the given characters.
pub fn text_of(v: &[char]) -> (r: String)
    ensures
        r@ == v@,
{
    let mut s: String = String::new();
    let mut i: usize = 0;
    while i < v.len()
        invariant
            i <= v.len(),
            s@ == v@.take(i as int),
        decreases v.len() - i,
    {
        s.push(v[i]);
        i = i + 1;
        proof {
            assert(s@ =~= v@.take(i as int));
        }
    }
    proof {
        assert(v@.take(v@.len() as int) =~= v@);
    }
    s
}

/// The characters from `from` up to `to`, as a string of their own.
pub fn piece(v: &[char], from: usize, to: usize) -> (r: String)
    requires
        from <= to <= v@.len(),
    ensures
        r@ == v@.subrange(from as int, to as int),
{
    let mut s: String = String::new();
    let mut i: usize = from;
    while i < to
        invariant
            from <= i <= to <= v.len(),
            s@ == v@.subrange(from as int, i as int),
        decreases to - i,
    {
        s.push(v[i]);
        i = i + 1;
        proof {
            assert(s@ =~= v@.subrange(from as int, i as int));
        }
    }
    s
}

/// Whether two strings hold the same characters.
pub fn same(a: &str, b: &str) -> (r: bool)
    ensures
        r == (a@ == b@),
{
    let x: String = a.to_owned();
    let y: String = b.to_owned();
    x == y
}

/// The number of bytes of a string's UTF-8 form.
pub open spec fn byte_len(s: Seq<char>) -> nat {
    vstd::utf8::encode_utf8(s).len()
}

/// The number of bytes of a string's UTF-8 form.
pub fn byte_count(s: &str) -> (r: usize)
    ensures
        r == byte_len(s@),
{
    s.as_bytes().len()
}

// ── Bytes ────────────────────────────────────────────────────────────────────

/// The text that `String::from_utf8_lossy` makes of bytes that are not UTF-8.
pub uninterp spec fn replaced_text(bytes: Seq<u8>) -> Seq<char>;

/// Bytes as text: what they encode where they are UTF-8, else with replacement
/// characters.
pub open spec fn lossy_text(bytes: Seq<u8>) -> Seq<char> {
    if vstd::utf8::valid_utf8(bytes) {
        vstd::utf8::decode_utf8(bytes)
    } else {
        replaced_text(bytes)
    }
}

/// `String::from_utf8_lossy`: the text that the bytes encode where they are
/// UTF-8, else a text with replacement characters.
#[verifier::external_body]
pub(crate) fn text_from_bytes(bytes: &[u8]) -> (r: String)
    ensures
        r@ == (if vstd::utf8::valid_utf8(bytes@) {
            vstd::utf8::decode_utf8(bytes@)
        } else {
            replaced_text(bytes@)
        }),
{
    String::from_utf8_lossy(bytes).into_owned()
}

// ── Searching ────────────────────────────────────────────────────────────────

/// Where `c` first stands in `s`; the length of `s` where it does not.
pub open spec fn first_index(s: Seq<char>, c: char) -> int
    decreases s.len(),
{
    if s.len() == 0 {
        0
    } else if s[0] == c {
        0
    } else {
        1 + first_index(s.drop_first(), c)
    }
}

/// `first_index` points at the first occurrence, or past the end.
pub proof fn first_index_points(s: Seq<char>, c: char)
    ensures
        0 <= first_index(s, c) <= s.len(),
        first_index(s, c) < s.len() ==> s[first_index(s, c)] == c,
        forall|i: int| 0 <= i < first_index(s, c) ==> #[trigger] s[i] != c,
    decreases s.len(),
{
    if s.len() > 0 && s[0] != c {
        let rest = s.drop_first();
        first_index_points(rest, c);
        assert forall|i: int| 0 <= i < first_index(s, c) implies #[trigger] s[i] != c by {
            if i > 0 {
                assert(rest[i - 1] == s[i]);
            }
        }
        if first_index(s, c) < s.len() {
            assert(rest[first_index(rest, c)] == s[first_index(s, c)]);
        }
    }
}

/// An index before which `c` does not stand, and at which it stands or `s` ends,
/// is `first_index`.
proof fn first_index_unique(s: Seq<char>, c: char, k: int)
    requires
        0 <= k <= s.len(),
        forall|i: int| 0 <= i < k ==> #[trigger] s[i] != c,
        k < s.len() ==> s[k] == c,
    ensures
        first_index(s, c) == k,
{
    first_index_points(s, c);
    let f = first_index(s, c);
    if f < k {
        assert(s[f] != c);
    } else if k < f {
        assert(s[k] != c);
    }
}

/// Where `c` first stands in `v`, or its length.
pub fn index_of(v: &[char], c: char) -> (r: usize)
    ensures
        r == first_index(v@, c),
        r <= v@.len(),
{
    let mut i: usize = 0;
    while i < v.len() && v[i] != c
        invariant
            i <= v.len(),
            forall|j: int| 0 <= j < i ==> #[trigger] v@[j] != c,
        decreases v.len() - i,
    {
        i = i + 1;
    }
    proof {
        first_index_unique(v@, c, i as int);
    }
    i
}

/// Whether `needle` stands in `s` at `i`.
pub open spec fn stands_at(s: Seq<char>, needle: Seq<char>, i: int) -> bool {
    0 <= i && i + needle.len() <= s.len() && s.subrange(i, i + needle.len()) == needle
}

/// Whether `needle` stands in `s` anywhere.
pub open spec fn contains_text(s: Seq<char>, needle: Seq<char>) -> bool {
    exists|i: int| #[trigger] stands_at(s, needle, i)
}

/// Whether `s` begins with `prefix`.
pub open spec fn begins_with(s: Seq<char>, prefix: Seq<char>) -> bool {
    stands_at(s, prefix, 0)
}

/// Where `needle` first stands in `s`, if it does.
pub open spec fn first_text(s: Seq<char>, needle: Seq<char>) -> Option<int> {
    if contains_text(s, needle) {
        Some(choose|i: int|
            #[trigger] stands_at(s, needle, i) && forall|j: int|
                0 <= j < i ==> !#[trigger] stands_at(s, needle, j))
    } else {
        None
    }
}

/// A first occurrence is the one that `first_text` gives.
proof fn first_text_is(s: Seq<char>, needle: Seq<char>, k: int)
    requires
        stands_at(s, needle, k),
        forall|j: int| 0 <= j < k ==> !#[trigger] stands_at(s, needle, j),
    ensures
        first_text(s, needle) == Some(k),
{
    let f = choose|i: int|
        #[trigger] stands_at(s, needle, i) && forall|j: int|
            0 <= j < i ==> !#[trigger] stands_at(s, needle, j);
    assert(stands_at(s, needle, f));
    if f < k {
        assert(!stands_at(s, needle, f));
    } else if k < f {
        assert(!stands_at(s, needle, k));
    }
}

proof fn a_first_exists(s: Seq<char>, needle: Seq<char>, k: int)
    requires
        stands_at(s, needle, k),
    ensures
        exists|i: int|
            #[trigger] stands_at(s, needle, i) && forall|j: int|
                0 <= j < i ==> !#[trigger] stands_at(s, needle, j),
    decreases k,
{
    if exists|j: int| 0 <= j < k && #[trigger] stands_at(s, needle, j) {
        let j = choose|j: int| 0 <= j < k && #[trigger] stands_at(s, needle, j);
        a_first_exists(s, needle, j);
    }
}

/// Where `first_text` points, the text stands.
pub proof fn first_text_stands(s: Seq<char>, needle: Seq<char>)
    requires
        first_text(s, needle) is Some,
    ensures
        stands_at(s, needle, first_text(s, needle)->Some_0),
{
    let k = choose|i: int| #[trigger] stands_at(s, needle, i);
    a_first_exists(s, needle, k);
}

/// Whether `needle` stands in `v` at `i`.
pub fn matches_at(v: &[char], needle: &[char], i: usize) -> (r: bool)
    requires
        i <= v@.len(),
    ensures
        r == stands_at(v@, needle@, i as int),
{
    if needle.len() > v.len() - i {
        return false;
    }
    let mut j: usize = 0;
    while j < needle.len()
        invariant
            j <= needle.len(),
            i + needle.len() <= v.len(),
            forall|k: int| 0 <= k < j ==> v@[i + k] == #[trigger] needle@[k],
        decreases needle.len() - j,
    {
        if v[i + j] != needle[j] {
            proof {
                assert(v@.subrange(i as int, i + needle@.len())[j as int] != needle@[j as int]);
            }
            return false;
        }
        j = j + 1;
    }
    proof {
        assert(v@.subrange(i as int, i + needle@.len()) =~= needle@);
    }
    true
}

/// Where `needle` first stands in `v`, if it does.
pub fn find_text(v: &[char], needle: &[char]) -> (r: Option<usize>)
    ensures
        match r {
            Some(i) => first_text(v@, needle@) == Some(i as int) && stands_at(
                v@,
                needle@,
                i as int,
            ),
            None => first_text(v@, needle@) is None && !contains_text(v@, needle@),
        },
{
    let mut i: usize = 0;
    loop
        invariant
            i <= v.len(),
            forall|j: int| 0 <= j < i ==> !#[trigger] stands_at(v@, needle@, j),
        decreases v.len() - i,
    {
        if matches_at(v, needle, i) {
            proof {
                first_text_is(v@, needle@, i as int);
            }
            return Some(i);
        }
        if i == v.len() {
            return None;
        }
        i = i + 1;
    }
}

/// Whether `s` holds `needle`.
pub fn holds_text(s: &str, needle: &str) -> (r: bool)
    ensures
        r == contains_text(s@, needle@),
{
    let v: Vec<char> = chars_of(s);
    let n: Vec<char> = chars_of(needle);
    match find_text(&v, &n) {
        Some(i) => true,
        None => false,
    }
}

/// Whether `s` begins with `prefix`.
pub fn has_prefix(s: &str, prefix: &str) -> (r: bool)
    ensures
        r == begins_with(s@, prefix@),
{
    let v: Vec<char> = chars_of(s);
    let n: Vec<char> = chars_of(prefix);
    matches_at(&v, &n, 0)
}

// ── ASCII case ───────────────────────────────────────────────────────────────

/// The lower-case form of an ASCII capital; any other character as it is.
pub open spec fn lower(c: char) -> char {
    if 'A' <= c <= 'Z' {
        (c as u32 + 32) as char
    } else {
        c
    }
}

/// A string with its ASCII capitals in lower case.
pub open spec fn ascii_lower(s: Seq<char>) -> Seq<char> {
    s.map_values(|c: char| lower(c))
}

/// Whether two strings differ in ASCII case at most.
pub open spec fn same_ignoring_case(a: Seq<char>, b: Seq<char>) -> bool {
    ascii_lower(a) == ascii_lower(b)
}

/// The lower-case form of an ASCII capital; any other character as it is.
pub fn lower_char(c: char) -> (r: char)
    ensures
        r == lower(c),
{
    if c >= 'A' && c <= 'Z' {
        let b: u8 = c as u8;
        (b + 32) as char
    } else {
        c
    }
}

/// A string with its ASCII capitals in lower case.
pub fn to_ascii_lower(s: &str) -> (r: String)
    ensures
        r@ == ascii_lower(s@),
{
    let v: Vec<char> = chars_of(s);
    let mut out: String = String::new();
    let mut i: usize = 0;
    while i < v.len()
        invariant
            i <= v.len(),
            out@ == ascii_lower(v@.take(i as int)),
        decreases v.len() - i,
    {
        out.push(lower_char(v[i]));
        i = i + 1;
        proof {
            assert(out@ =~= ascii_lower(v@.take(i as int)));
        }
    }
    proof {
        assert(v@.take(v@.len() as int) =~= v@);
    }
    out
}

/// Whether two strings differ in ASCII case at most.
pub fn eq_ignore_case(a: &str, b: &str) -> (r: bool)
    ensures
        r == same_ignoring_case(a@, b@),
{
    let x: String = to_ascii_lower(a);
    let y: String = to_ascii_lower(b);
    x == y
}

// ── Tokens ───────────────────────────────────────────────────────────────────

/// Whether `c` is Unicode white space.
pub open spec fn is_space(c: char) -> bool {
    let u = c as u32;
    9 <= u <= 13 || u == 0x20 || u == 0x85 || u == 0xa0 || u == 0x1680 || 0x2000 <= u <= 0x200a
        || u == 0x2028 || u == 0x2029 || u == 0x202f || u == 0x205f || u == 0x3000
}

/// A string without the white space at its start.
pub open spec fn trim_start(s: Seq<char>) -> Seq<char>
    decreases s.len(),
{
    if s.len() > 0 && is_space(s[0]) {
        trim_start(s.drop_first())
    } else {
        s
    }
}

/// A string without the white space at its end.
pub open spec fn trim_end(s: Seq<char>) -> Seq<char>
    decreases s.len(),
{
    if s.len() > 0 && is_space(s.last()) {
        trim_end(s.drop_last())
    } else {
        s
    }
}

/// A string without the white space at its start and its end.
pub open spec fn trimmed(s: Seq<char>) -> Seq<char> {
    trim_end(trim_start(s))
}

fn space(c: char) -> (r: bool)
    ensures
        r == is_space(c),
{
    let u: u32 = c as u32;
    (9 <= u && u <= 13) || u == 0x20 || u == 0x85 || u == 0xa0 || u == 0x1680 || (0x2000 <= u && u
        <= 0x200a) || u == 0x2028 || u == 0x2029 || u == 0x202f || u == 0x205f || u == 0x3000
}

/// The part of `v` between `from` and `to`, without the white space around it.
pub fn trim_piece(v: &[char], from: usize, to: usize) -> (r: String)
    requires
        from <= to <= v@.len(),
    ensures
        r@ == trimmed(v@.subrange(from as int, to as int)),
{
    let mut a: usize = from;
    while a < to && space(v[a])
        invariant
            from <= a <= to <= v.len(),
            trim_start(v@.subrange(from as int, to as int)) == trim_start(
                v@.subrange(a as int, to as int),
            ),
        decreases to - a,
    {
        proof {
            assert(v@.subrange(a as int, to as int).drop_first() =~= v@.subrange(
                a + 1,
                to as int,
            ));
        }
        a = a + 1;
    }
    proof {
        assert(trim_start(v@.subrange(a as int, to as int)) == v@.subrange(a as int, to as int));
    }
    let mut b: usize = to;
    while b > a && space(v[b - 1])
        invariant
            a <= b <= to <= v.len(),
            trim_end(v@.subrange(a as int, to as int)) == trim_end(
                v@.subrange(a as int, b as int),
            ),
        decreases b - a,
    {
        proof {
            assert(v@.subrange(a as int, b as int).drop_last() =~= v@.subrange(a as int, b - 1));
        }
        b = b - 1;
    }
    piece(v, a, b)
}

/// A string without the white space around it.
pub fn trim(s: &str) -> (r: String)
    ensures
        r@ == trimmed(s@),
{
    let v: Vec<char> = chars_of(s);
    let r = trim_piece(&v, 0, v.len());
    proof {
        assert(s@.subrange(0, s@.len() as int) =~= s@);
    }
    r
}

/// Whether one of the comma-separated elements of `list`, without the white
/// space around it, is `token` in any ASCII case.
pub open spec fn has_token(list: Seq<char>, token: Seq<char>) -> bool
    decreases list.len(),
{
    let k = first_index(list, ',');
    if 0 <= k < list.len() {
        same_ignoring_case(trimmed(list.take(k)), token) || has_token(list.skip(k + 1), token)
    } else {
        same_ignoring_case(trimmed(list), token)
    }
}

/// Whether one of the comma-separated elements of `list` is `token` in any ASCII case.
pub fn list_has_token(list: &str, token: &str) -> (r: bool)
    ensures
        r == has_token(list@, token@),
{
    let v: Vec<char> = chars_of(list);
    let mut at: usize = 0;
    proof {
        assert(list@.skip(0) =~= list@);
    }
    loop
        invariant
            v@ == list@,
            at <= v.len(),
            has_token(list@, token@) == has_token(list@.skip(at as int), token@),
        decreases v.len() - at,
    {
        let ghost rest = list@.skip(at as int);
        let mut k: usize = at;
        while k < v.len() && v[k] != ','
            invariant
                at <= k <= v.len(),
                v@ == list@,
                rest == list@.skip(at as int),
                forall|j: int| 0 <= j < k - at ==> #[trigger] rest[j] != ',',
            decreases v.len() - k,
        {
            proof {
                assert(rest[k - at] == v@[k as int]);
            }
            k = k + 1;
        }
        proof {
            if k < v.len() {
                assert(rest[k - at] == ',');
            }
            first_index_unique(rest, ',', k - at);
            assert(rest.take(k - at) =~= v@.subrange(at as int, k as int));
        }
        let element = trim_piece(&v, at, k);
        if eq_ignore_case(&element, token) {
            proof {
                assert(k == v.len() ==> rest.take(k - at) =~= rest);
            }
            return true;
        }
        if k == v.len() {
            proof {
                assert(rest.take(k - at) =~= rest);
            }
            return false;
        }
        proof {
            assert(rest.skip(k - at + 1) =~= list@.skip(k + 1));
        }
        at = k + 1;
    }
}

/// Whether two runs of bytes are the same.
pub(crate) fn same_bytes(a: &[u8], b: &[u8]) -> (r: bool)
    ensures
        r == (a@ == b@),
{
    if a.len() != b.len() {
        return false;
    }
    let mut i: usize = 0;
    while i < a.len()
        invariant
            a@.len() == b@.len(),
            i <= a@.len(),
            forall|j: int| 0 <= j < i ==> a@[j] == b@[j],
        decreases a@.len() - i,
    {
        if a[i] != b[i] {
            return false;
        }
        i = i + 1;
    }
    proof {
        assert(a@ =~= b@);
    }
    true
}

/// The bytes of a string.
pub(crate) fn bytes_of(s: &str) -> (r: Vec<u8>)
    ensures
        r@ == vstd::utf8::encode_utf8(s@),
{
    let b = s.as_bytes();
    let r = crate::handles::copy_range(b, 0, b.len());
    proof {
        assert(b@.subrange(0, b@.len() as int) =~= b@);
    }
    r
}

// ── Laws ─────────────────────────────────────────────────────────────────────

/// A number below ten is written as its digit; a further digit behind a number makes it
/// ten times as large and adds the digit.
pub proof fn decimal_grows(n: nat, d: nat)
    requires
        d < 10,
    ensures
        decimal(d) == seq![(48 + d) as char],
        n > 0 ==> decimal(10 * n + d) == decimal(n).push((48 + d) as char),
{
    if n > 0 {
        assert((10 * n + d) / 10 == n && (10 * n + d) % 10 == d);
    }
}

/// What digits denote, digit by digit.
pub proof fn digits_denote(s: Seq<char>, c: char)
    requires
        '0' <= c <= '9',
    ensures
        digits_value(Seq::empty()) == 0,
        digits_value(s.push(c)) == 10 * digits_value(s) + (c as int - 48),
{
    assert(s.push(c).drop_last() =~= s);
}

/// Digits are read as the number they denote, with a plus sign before them or not, unless
/// it is too large.
pub proof fn digits_are_read(s: Seq<char>, max: nat)
    requires
        s.len() > 0,
        forall|i: int| 0 <= i < s.len() ==> '0' <= #[trigger] s[i] <= '9',
    ensures
        unsigned_value(s, max) == (if digits_value(s) <= max {
            Some(digits_value(s))
        } else {
            None
        }),
        unsigned_value(seq!['+'] + s, max) == unsigned_value(s, max),
{
    assert(is_digit(s[0]));
    assert(all_digits(s));
    assert((seq!['+'] + s).drop_first() =~= s);
}

/// Nothing but digits, with a plus sign before them or not, is read as a number.
pub proof fn only_digits_are_read(s: Seq<char>, max: nat)
    requires
        unsigned_value(s, max) is Some,
    ensures
        unsigned_value(s, max)->Some_0 <= max,
        s.len() > 0,
        s[0] == '+' ==> s.len() > 1,
        s[0] == '+' || '0' <= s[0] <= '9',
        forall|i: int| 1 <= i < s.len() ==> '0' <= #[trigger] s[i] <= '9',
{
    let body = if s.len() > 0 && s[0] == '+' {
        s.drop_first()
    } else {
        s
    };
    assert forall|i: int| 1 <= i < s.len() implies '0' <= #[trigger] s[i] <= '9' by {
        let k = if s[0] == '+' {
            i - 1
        } else {
            i
        };
        assert(is_digit(body[k]));
    }
    assert(is_digit(body[0]));
}

/// The size of a text is that of its UTF-8 form, and a text reads back from that form.
pub proof fn texts_read_back(s: Seq<char>)
    ensures
        byte_len(s) == vstd::utf8::encode_utf8(s).len(),
        lossy_text(vstd::utf8::encode_utf8(s)) == s,
{
    vstd::utf8::encode_utf8_valid_utf8(s);
    vstd::utf8::encode_utf8_decode_utf8(s);
}

/// A text begins with every prefix of it, and with nothing else.
pub proof fn prefixes_are_seen(prefix: Seq<char>, rest: Seq<char>, s: Seq<char>)
    ensures
        begins_with(prefix + rest, prefix),
        begins_with(s, prefix) <==> s.len() >= prefix.len() && forall|i: int|
            0 <= i < prefix.len() ==> #[trigger] s[i] == prefix[i],
{
    let all = prefix + rest;
    assert(all.subrange(0, 0int + prefix.len()) =~= prefix);
    if s.len() >= prefix.len() && (forall|i: int|
        0 <= i < prefix.len() ==> #[trigger] s[i] == prefix[i]) {
        assert(s.subrange(0, 0int + prefix.len()) =~= prefix);
    }
    if begins_with(s, prefix) {
        assert forall|i: int| 0 <= i < prefix.len() implies #[trigger] s[i] == prefix[i] by {
            assert(s.subrange(0, 0int + prefix.len())[i] == s[i]);
        }
    }
}

/// A text that stands somewhere is found, at the first place where it stands; one that is
/// found stands there.
pub proof fn texts_are_found(before: Seq<char>, needle: Seq<char>, behind: Seq<char>)
    ensures
        contains_text(before + needle + behind, needle),
        first_text(before + needle + behind, needle) matches Some(i) && 0 <= i <= before.len()
            && i + needle.len() <= (before + needle + behind).len() && (before + needle
            + behind).subrange(i, i + needle.len()) == needle,
{
    let all = before + needle + behind;
    let k = before.len() as int;
    assert(all.subrange(k, k + needle.len()) =~= needle);
    assert(stands_at(all, needle, k));
    a_first_exists(all, needle, k);
    let f = first_text(all, needle)->Some_0;
    assert(stands_at(all, needle, f));
}

/// A text in which another stands nowhere does not contain it.
pub proof fn nothing_else_is_found(s: Seq<char>, needle: Seq<char>)
    requires
        forall|i: int|
            0 <= i && i + needle.len() <= s.len() ==> #[trigger] s.subrange(i, i + needle.len())
                != needle,
    ensures
        !contains_text(s, needle),
        first_text(s, needle) is None,
{
    if contains_text(s, needle) {
        let i = choose|i: int| #[trigger] stands_at(s, needle, i);
        assert(s.subrange(i, i + needle.len()) == needle);
    }
}

/// The capital letters A to Z have their small ones; every other character stays.
pub proof fn case_of_letters(c: char)
    ensures
        'A' <= c <= 'Z' ==> lower(c) as int == c as int + 32,
        !('A' <= c <= 'Z') ==> lower(c) == c,
{
}

/// Texts are the same but for case where they are as long and differ in no place by more
/// than the case of a letter.
pub proof fn same_but_for_case(a: Seq<char>, b: Seq<char>)
    ensures
        same_ignoring_case(a, b) <==> a.len() == b.len() && forall|i: int|
            0 <= i < a.len() ==> {
                ||| #[trigger] a[i] == b[i]
                ||| 'A' <= a[i] <= 'Z' && b[i] as int == a[i] as int + 32
                ||| 'A' <= b[i] <= 'Z' && a[i] as int == b[i] as int + 32
            },
        ascii_lower(a).len() == a.len(),
        forall|i: int| 0 <= i < a.len() ==> #[trigger] ascii_lower(a)[i] == lower(a[i]),
{
    let la = ascii_lower(a);
    let lb = ascii_lower(b);
    if same_ignoring_case(a, b) {
        assert(la.len() == a.len() && lb.len() == b.len());
        assert forall|i: int| 0 <= i < a.len() implies {
            ||| #[trigger] a[i] == b[i]
            ||| 'A' <= a[i] <= 'Z' && b[i] as int == a[i] as int + 32
            ||| 'A' <= b[i] <= 'Z' && a[i] as int == b[i] as int + 32
        } by {
            assert(la[i] == lower(a[i]) && lb[i] == lower(b[i]));
        }
    }
    if a.len() == b.len() && (forall|i: int|
        0 <= i < a.len() ==> {
            ||| #[trigger] a[i] == b[i]
            ||| 'A' <= a[i] <= 'Z' && b[i] as int == a[i] as int + 32
            ||| 'A' <= b[i] <= 'Z' && a[i] as int == b[i] as int + 32
        }) {
        assert forall|i: int| 0 <= i < a.len() implies #[trigger] la[i] == lb[i] by {
            assert(a[i] == a[i]);
        }
        assert(la =~= lb);
    }
}

/// The characters that count as white space.
pub proof fn white_space(c: char)
    ensures
        is_space(c) <==> {
            ||| c == ' ' || c == '\t' || c == '\n' || c == '\r'
            ||| c as int == 0x0b || c as int == 0x0c || c as int == 0x85 || c as int == 0xa0
            ||| c as int == 0x1680 || 0x2000 <= c as int <= 0x200a || c as int == 0x2028
            ||| c as int == 0x2029 || c as int == 0x202f || c as int == 0x205f || c as int
                == 0x3000
        },
{
}

proof fn trim_start_is_a_tail(s: Seq<char>) -> (a: int)
    ensures
        0 <= a <= s.len(),
        trim_start(s) == s.skip(a),
        forall|i: int| 0 <= i < a ==> is_space(#[trigger] s[i]),
        a < s.len() ==> !is_space(s[a]),
    decreases s.len(),
{
    if s.len() > 0 && is_space(s[0]) {
        let rest = s.drop_first();
        let a = trim_start_is_a_tail(rest);
        assert(s.skip(a + 1) =~= rest.skip(a));
        assert forall|i: int| 0 <= i < a + 1 implies is_space(#[trigger] s[i]) by {
            if i > 0 {
                assert(rest[i - 1] == s[i]);
            }
        }
        if a < rest.len() {
            assert(rest[a] == s[a + 1]);
        }
        a + 1
    } else {
        assert(s.skip(0) =~= s);
        0
    }
}

proof fn trim_end_is_a_head(s: Seq<char>) -> (b: int)
    ensures
        0 <= b <= s.len(),
        trim_end(s) == s.take(b),
        forall|i: int| b <= i < s.len() ==> is_space(#[trigger] s[i]),
        b > 0 ==> !is_space(s[b - 1]),
    decreases s.len(),
{
    if s.len() > 0 && is_space(s.last()) {
        let init = s.drop_last();
        let b = trim_end_is_a_head(init);
        assert(s.take(b) =~= init.take(b));
        assert forall|i: int| b <= i < s.len() implies is_space(#[trigger] s[i]) by {
            if i < init.len() {
                assert(init[i] == s[i]);
            }
        }
        b
    } else {
        assert(s.take(s.len() as int) =~= s);
        s.len() as int
    }
}

/// A text without the white space around it is the part of it that neither begins nor ends
/// with white space, and only white space is around that part.
pub proof fn trimming_takes_white_space(s: Seq<char>) -> (a: int)
    ensures
        0 <= a,
        a + trimmed(s).len() <= s.len(),
        trimmed(s) == s.subrange(a, a + trimmed(s).len()),
        forall|i: int| 0 <= i < a ==> is_space(#[trigger] s[i]),
        forall|i: int| a + trimmed(s).len() <= i < s.len() ==> is_space(#[trigger] s[i]),
        trimmed(s).len() > 0 ==> !is_space(trimmed(s)[0]) && !is_space(trimmed(s).last()),
{
    let a = trim_start_is_a_tail(s);
    let rest = trim_start(s);
    let b = trim_end_is_a_head(rest);
    assert(rest.take(b) =~= s.subrange(a, a + b));
    assert forall|i: int| a + b <= i < s.len() implies is_space(#[trigger] s[i]) by {
        assert(rest[i - a] == s[i]);
    }
    if b > 0 {
        assert(rest[b - 1] == s[a + b - 1]);
    }
    a
}

/// Texts that are put together with a comma between them hold the tokens of either.
pub proof fn tokens_of_both(a: Seq<char>, b: Seq<char>, token: Seq<char>)
    ensures
        has_token(a + seq![','] + b, token) <==> has_token(a, token) || has_token(b, token),
    decreases a.len(),
{
    let all = a + seq![','] + b;
    first_index_points(a, ',');
    let k = first_index(a, ',');
    assert forall|i: int| 0 <= i < k implies #[trigger] all[i] != ',' by {
        assert(a[i] == all[i]);
    }
    if k < a.len() {
        assert(all[k] == a[k]);
        first_index_unique(all, ',', k);
        assert(all.take(k) =~= a.take(k));
        assert(all.skip(k + 1) =~= a.skip(k + 1) + seq![','] + b);
        tokens_of_both(a.skip(k + 1), b, token);
    } else {
        assert(all[k] == ',');
        first_index_unique(all, ',', k);
        assert(all.take(k) =~= a);
        assert(all.skip(k + 1) =~= b);
    }
}

/// A text without a comma is one token: what it is without the white space around it.
pub proof fn one_token(s: Seq<char>, token: Seq<char>)
    requires
        forall|i: int| 0 <= i < s.len() ==> #[trigger] s[i] != ',',
    ensures
        has_token(s, token) <==> same_ignoring_case(trimmed(s), token),
{
    first_index_points(s, ',');
}

} // verus!
