//! Lexical primitives of the HTTP/1.x wire grammar.
//!
//! Every scanner works on a byte line `s` at position `i` and returns the
//! position just past what it recognised. A scanner that can fail returns
//! `None`; one whose token may legitimately be empty always succeeds.
use vstd::prelude::*;

verus! {

/// The character classes that the grammar scans runs of.
#[derive(Clone, Copy, Debug, PartialEq, Eq, Structural)]
pub enum ByteClass {
    /// A single space.
    Space,
    /// An ASCII decimal digit.
    Digit,
    /// A header-name token character: alphanumeric or one of ``!#$%&'*+-.^_`|~``.
    Token,
    /// Anything but a space.
    NotSpace,
    /// Anything but a carriage return.
    NotCr,
    /// Anything but a line feed.
    NotLf,
    /// A header-value byte: tab or printable ASCII.
    HeaderValue,
    /// A header-value byte with the Latin-1 range 160..=255 allowed too.
    HeaderValueLatin1,
}

pub open spec fn is_digit(b: u8) -> bool {
    48 <= b <= 57
}

pub open spec fn is_alpha(b: u8) -> bool {
    (65 <= b <= 90) || (97 <= b <= 122)
}

/// One of ``!#$%&'*+-.^_`|~``.
pub open spec fn is_token_punct(b: u8) -> bool {
    b == 33 || b == 35 || b == 36 || b == 37 || b == 38 || b == 39 || b == 42 || b == 43
        || b == 45 || b == 46 || b == 94 || b == 95 || b == 96 || b == 124 || b == 126
}

pub open spec fn is_token_byte(b: u8) -> bool {
    is_digit(b) || is_alpha(b) || is_token_punct(b)
}

pub open spec fn is_header_value_byte(b: u8, latin1: bool) -> bool {
    b == 9 || (32 <= b <= 126) || (latin1 && b >= 160)
}

pub open spec fn in_class(c: ByteClass, b: u8) -> bool {
    match c {
        ByteClass::Space => b == 32,
        ByteClass::Digit => is_digit(b),
        ByteClass::Token => is_token_byte(b),
        ByteClass::NotSpace => b != 32,
        ByteClass::NotCr => b != 13,
        ByteClass::NotLf => b != 10,
        ByteClass::HeaderValue => is_header_value_byte(b, false),
        ByteClass::HeaderValueLatin1 => is_header_value_byte(b, true),
    }
}

/// The end of the longest run of class `c` that starts at `i`.
pub open spec fn span(s: Seq<u8>, i: int, c: ByteClass) -> int
    decreases s.len() - i,
{
    if 0 <= i < s.len() && in_class(c, s[i]) {
        span(s, i + 1, c)
    } else {
        i
    }
}

/// A run ends within the line, covers only bytes of its class, and stops at
/// the first byte outside it.
pub proof fn lemma_span(s: Seq<u8>, i: int, c: ByteClass)
    requires
        0 <= i <= s.len(),
    ensures
        i <= span(s, i, c) <= s.len(),
        forall|k: int| i <= k < span(s, i, c) ==> in_class(c, #[trigger] s[k]),
        span(s, i, c) == s.len() || !in_class(c, s[span(s, i, c)]),
    decreases s.len() - i,
{
    if i < s.len() && in_class(c, s[i]) {
        lemma_span(s, i + 1, c);
    }
}

/// A run over `a + b` that covers all of `a` and stops at the first byte of
/// `b` ends where `a` ends.
pub proof fn lemma_span_concat(a: Seq<u8>, b: Seq<u8>, i: int, c: ByteClass)
    requires
        0 <= i <= a.len(),
        forall|k: int| i <= k < a.len() ==> in_class(c, #[trigger] a[k]),
        b.len() == 0 || !in_class(c, b[0]),
    ensures
        span(a + b, i, c) == a.len(),
    decreases a.len() - i,
{
    if i < a.len() {
        lemma_span_concat(a, b, i + 1, c);
    }
}

/// The position that a scanner returned, as an integer.
pub open spec fn pos(r: Option<usize>) -> Option<int> {
    match r {
        Some(e) => Some(e as int),
        None => None,
    }
}

/// Whether `t` occurs in `s` at position `i`.
pub open spec fn tag_at(s: Seq<u8>, i: int, t: Seq<u8>) -> bool {
    0 <= i && i + t.len() <= s.len() && s.subrange(i, i + t.len()) == t
}

pub open spec fn crlf_bytes() -> Seq<u8> {
    seq![13u8, 10u8]
}

pub open spec fn ascii_lower(b: u8) -> u8 {
    if 65 <= b <= 90 {
        (b + 32) as u8
    } else {
        b
    }
}

/// `HTTP/` in any case at position `i`.
pub open spec fn http_prefix_at(s: Seq<u8>, i: int) -> bool {
    &&& 0 <= i && i + 5 <= s.len()
    &&& ascii_lower(s[i]) == 104u8
    &&& ascii_lower(s[i + 1]) == 116u8
    &&& ascii_lower(s[i + 2]) == 116u8
    &&& ascii_lower(s[i + 3]) == 112u8
    &&& s[i + 4] == 47u8
}

/// The request methods, in the order in which they are tried.
pub open spec fn method_names() -> Seq<Seq<u8>> {
    seq![
        seq![67u8, 79u8, 78u8, 78u8, 69u8, 67u8, 84u8],  // CONNECT
        seq![68u8, 69u8, 76u8, 69u8, 84u8, 69u8],  // DELETE
        seq![71u8, 69u8, 84u8],  // GET
        seq![72u8, 69u8, 65u8, 68u8],  // HEAD
        seq![79u8, 80u8, 84u8, 73u8, 79u8, 78u8, 83u8],  // OPTIONS
        seq![80u8, 65u8, 84u8, 67u8, 72u8],  // PATCH
        seq![80u8, 79u8, 83u8, 84u8],  // POST
        seq![80u8, 85u8, 84u8],  // PUT
        seq![84u8, 82u8, 65u8, 67u8, 69u8],  // TRACE
    ]
}

/// The index of the first method name, from `k` on, that occurs at `i`.
pub open spec fn first_method_from(s: Seq<u8>, i: int, k: int) -> Option<int>
    decreases method_names().len() - k,
{
    if k < 0 || k >= method_names().len() {
        None
    } else if tag_at(s, i, method_names()[k]) {
        Some(k)
    } else {
        first_method_from(s, i, k + 1)
    }
}

/// Where the method that starts at `i` ends, if one does.
pub open spec fn method_end(s: Seq<u8>, i: int) -> Option<int> {
    match first_method_from(s, i, 0) {
        Some(k) => Some(i + method_names()[k].len()),
        None => None,
    }
}

/// Where a strict run (at least one byte) ends.
pub open spec fn strict_span(s: Seq<u8>, i: int, c: ByteClass) -> Option<int> {
    if span(s, i, c) > i {
        Some(span(s, i, c))
    } else {
        None
    }
}

/// Where `HTTP/` and the three version bytes after it end.
pub open spec fn version_end(s: Seq<u8>, i: int) -> Option<int> {
    if http_prefix_at(s, i) && i + 8 <= s.len() {
        Some(i + 8)
    } else {
        None
    }
}

pub fn byte_in_class(c: ByteClass, b: u8) -> (r: bool)
    ensures
        r == in_class(c, b),
{
    match c {
        ByteClass::Space => b == 32,
        ByteClass::Digit => 48 <= b && b <= 57,
        ByteClass::Token => is_http_header_name_byte(b),
        ByteClass::NotSpace => b != 32,
        ByteClass::NotCr => b != 13,
        ByteClass::NotLf => b != 10,
        ByteClass::HeaderValue => b == 9 || (32 <= b && b <= 126),
        ByteClass::HeaderValueLatin1 => b == 9 || (32 <= b && b <= 126) || b >= 160,
    }
}

fn is_http_header_name_byte(b: u8) -> (r: bool)
    ensures
        r == is_token_byte(b),
{
    (48 <= b && b <= 57) || (65 <= b && b <= 90) || (97 <= b && b <= 122) || b == 33 || b == 35
        || b == 36 || b == 37 || b == 38 || b == 39 || b == 42 || b == 43 || b == 45 || b == 46
        || b == 94 || b == 95 || b == 96 || b == 124 || b == 126
}

/// Whether `ch` is an ASCII decimal digit.
pub fn is_digit_char(ch: char) -> (r: bool)
    ensures
        r == ('0' <= ch && ch <= '9'),
{
    '0' <= ch && ch <= '9'
}

/// Whether `ch` may stand in a header value: tab or printable ASCII.
pub fn is_header_value_char(ch: char) -> (r: bool)
    ensures
        r == (ch == '\t' || (' ' <= ch && ch <= '~')),
{
    ch == '\t' || (' ' <= ch && ch <= '~')
}

/// Whether `ch` may stand in a header value when Latin-1 values are
/// tolerated: tab, printable ASCII, or a character of 160..=255.
pub fn is_latin1_header_value_char(ch: char) -> (r: bool)
    ensures
        r == (ch == '\t' || (' ' <= ch && ch <= '~') || ('\u{a0}' <= ch && ch <= '\u{ff}')),
{
    is_header_value_char(ch) || ('\u{a0}' <= ch && ch <= '\u{ff}')
}

/// The end of the longest run of class `c` from `i`; it may be empty.
pub fn scan(s: &[u8], i: usize, c: ByteClass) -> (r: usize)
    requires
        i <= s@.len(),
    ensures
        r == span(s@, i as int, c),
        i <= r <= s@.len(),
{
    let mut j: usize = i;
    while j < s.len() && byte_in_class(c, s[j])
        invariant
            i <= j <= s@.len(),
            span(s@, i as int, c) == span(s@, j as int, c),
        decreases s@.len() - j,
    {
        j = j + 1;
    }
    proof {
        lemma_span(s@, i as int, c);
    }
    j
}

/// A run of at least one byte of class `c`.
pub fn scan_strict(s: &[u8], i: usize, c: ByteClass) -> (r: Option<usize>)
    requires
        i <= s@.len(),
    ensures
        r matches Some(e) ==> i <= e <= s@.len(),
        pos(r) == strict_span(s@, i as int, c),
{
    let e = scan(s, i, c);
    if e > i {
        Some(e)
    } else {
        None
    }
}

/// Whether the bytes of `t` occur in `s` at `i`.
pub fn match_tag(s: &[u8], i: usize, t: &[u8]) -> (r: bool)
    requires
        i <= s@.len(),
    ensures
        r == tag_at(s@, i as int, t@),
{
    if t.len() > s.len() - i {
        return false;
    }
    let n = s.len();
    let mut k: usize = 0;
    while k < t.len()
        invariant
            n == s@.len(),
            k <= t@.len(),
            i <= s@.len(),
            i + t@.len() <= s@.len(),
            forall|m: int| 0 <= m < k ==> s@[i + m] == t@[m],
        decreases t@.len() - k,
    {
        if s[i + k] != t[k] {
            assert(s@.subrange(i as int, i + t@.len())[k as int] != t@[k as int]);
            return false;
        }
        k = k + 1;
    }
    assert(s@.subrange(i as int, i + t@.len()) =~= t@);
    true
}

/// `\r\n` at `i`.
pub fn crlf(s: &[u8], i: usize) -> (r: Option<usize>)
    requires
        i <= s@.len(),
    ensures
        r matches Some(e) ==> i <= e <= s@.len(),
        pos(r) == (if tag_at(s@, i as int, crlf_bytes()) {
            Some(i + 2)
        } else {
            None
        }),
{
    if s.len() - i >= 2 && s[i] == 13 && s[i + 1] == 10 {
        assert(s@.subrange(i as int, i + 2) =~= crlf_bytes());
        Some(i + 2)
    } else {
        proof {
            if tag_at(s@, i as int, crlf_bytes()) {
                assert(s@.subrange(i as int, i + 2)[0] == s@[i as int]);
                assert(s@.subrange(i as int, i + 2)[1] == s@[i + 1]);
            }
        }
        None
    }
}

/// A colon at `i`.
pub fn colon(s: &[u8], i: usize) -> (r: Option<usize>)
    requires
        i <= s@.len(),
    ensures
        r matches Some(e) ==> i <= e <= s@.len(),
        pos(r) == (if i < s@.len() && s@[i as int] == 58u8 {
            Some(i + 1)
        } else {
            None
        }),
{
    if i < s.len() && s[i] == 58 {
        Some(i + 1)
    } else {
        None
    }
}

/// A single space at `i`.
pub fn space(s: &[u8], i: usize) -> (r: Option<usize>)
    requires
        i <= s@.len(),
    ensures
        r matches Some(e) ==> i <= e <= s@.len(),
        pos(r) == (if i < s@.len() && s@[i as int] == 32u8 {
            Some(i + 1)
        } else {
            None
        }),
{
    if i < s.len() && s[i] == 32 {
        Some(i + 1)
    } else {
        None
    }
}

/// One or more spaces from `i`.
pub fn spaces(s: &[u8], i: usize) -> (r: Option<usize>)
    requires
        i <= s@.len(),
    ensures
        r matches Some(e) ==> i <= e <= s@.len(),
        pos(r) == strict_span(s@, i as int, ByteClass::Space),
{
    scan_strict(s, i, ByteClass::Space)
}

/// One or more decimal digits from `i`.
pub fn digits(s: &[u8], i: usize) -> (r: Option<usize>)
    requires
        i <= s@.len(),
    ensures
        r matches Some(e) ==> i <= e <= s@.len(),
        pos(r) == strict_span(s@, i as int, ByteClass::Digit),
{
    scan_strict(s, i, ByteClass::Digit)
}

/// A number: one or more decimal digits from `i`.
pub fn number(s: &[u8], i: usize) -> (r: Option<usize>)
    requires
        i <= s@.len(),
    ensures
        r matches Some(e) ==> i <= e <= s@.len(),
        pos(r) == strict_span(s@, i as int, ByteClass::Digit),
{
    digits(s, i)
}

/// One or more bytes up to the next space (or the end of the line).
pub fn to_space(s: &[u8], i: usize) -> (r: Option<usize>)
    requires
        i <= s@.len(),
    ensures
        r matches Some(e) ==> i <= e <= s@.len(),
        pos(r) == strict_span(s@, i as int, ByteClass::NotSpace),
{
    scan_strict(s, i, ByteClass::NotSpace)
}

/// Everything up to the next carriage return, which must exist; the run may
/// be empty.
pub fn take_until(s: &[u8], i: usize) -> (r: Option<usize>)
    requires
        i <= s@.len(),
    ensures
        r matches Some(e) ==> i <= e <= s@.len(),
        pos(r) == (if span(s@, i as int, ByteClass::NotCr) < s@.len() {
            Some(span(s@, i as int, ByteClass::NotCr))
        } else {
            None
        }),
{
    let e = scan(s, i, ByteClass::NotCr);
    if e < s.len() {
        Some(e)
    } else {
        None
    }
}

/// The name of the `k`-th request method.
fn method_name(k: usize) -> (r: Vec<u8>)
    requires
        k < 9,
    ensures
        r@ == method_names()[k as int],
{
    if k == 0 {
        vec![67u8, 79u8, 78u8, 78u8, 69u8, 67u8, 84u8]
    } else if k == 1 {
        vec![68u8, 69u8, 76u8, 69u8, 84u8, 69u8]
    } else if k == 2 {
        vec![71u8, 69u8, 84u8]
    } else if k == 3 {
        vec![72u8, 69u8, 65u8, 68u8]
    } else if k == 4 {
        vec![79u8, 80u8, 84u8, 73u8, 79u8, 78u8, 83u8]
    } else if k == 5 {
        vec![80u8, 65u8, 84u8, 67u8, 72u8]
    } else if k == 6 {
        vec![80u8, 79u8, 83u8, 84u8]
    } else if k == 7 {
        vec![80u8, 85u8, 84u8]
    } else {
        vec![84u8, 82u8, 65u8, 67u8, 69u8]
    }
}

/// One of the nine request methods at `i`: CONNECT, DELETE, GET, HEAD,
/// OPTIONS, PATCH, POST, PUT or TRACE.
pub fn http_method(s: &[u8], i: usize) -> (r: Option<usize>)
    requires
        i <= s@.len(),
    ensures
        r matches Some(e) ==> i <= e <= s@.len(),
        pos(r) == method_end(s@, i as int),
{
    let n = s.len();
    let mut k: usize = 0;
    while k < 9
        invariant
            n == s@.len(),
            k <= 9,
            i <= s@.len(),
            method_names().len() == 9,
            first_method_from(s@, i as int, 0) == first_method_from(s@, i as int, k as int),
        decreases 9 - k,
    {
        let name = method_name(k);
        if match_tag(s, i, name.as_slice()) {
            return Some(i + name.len());
        }
        k = k + 1;
    }
    None
}

/// `HTTP/` in any case at `i`, then three version bytes; the version is the
/// three bytes before the returned end. The line is bytes off the wire, so
/// the version is taken as bytes too: a version that is not three ASCII
/// characters is never a recognised one.
pub fn http_version(s: &[u8], i: usize) -> (r: Option<usize>)
    requires
        i <= s@.len(),
    ensures
        r matches Some(e) ==> i <= e <= s@.len(),
        pos(r) == version_end(s@, i as int),
{
    if s.len() - i >= 8 && (s[i] == 72 || s[i] == 104) && (s[i + 1] == 84 || s[i + 1] == 116) && (
    s[i + 2] == 84 || s[i + 2] == 116) && (s[i + 3] == 80 || s[i + 3] == 112) && s[i + 4] == 47 {
        Some(i + 8)
    } else {
        None
    }
}

/// A header name: one or more token characters from `i`.
pub fn http_header_name(s: &[u8], i: usize) -> (r: Option<usize>)
    requires
        i <= s@.len(),
    ensures
        r matches Some(e) ==> i <= e <= s@.len(),
        pos(r) == strict_span(s@, i as int, ByteClass::Token),
{
    scan_strict(s, i, ByteClass::Token)
}

/// A header value, possibly empty: header-value bytes from `i`, Latin-1
/// ones included when `latin1` is set.
pub fn header_value(s: &[u8], i: usize, latin1: bool) -> (r: usize)
    requires
        i <= s@.len(),
    ensures
        i <= r <= s@.len(),
        r == span(s@, i as int, value_class(latin1)),
{
    if latin1 {
        scan(s, i, ByteClass::HeaderValueLatin1)
    } else {
        scan(s, i, ByteClass::HeaderValue)
    }
}

pub open spec fn value_class(latin1: bool) -> ByteClass {
    if latin1 {
        ByteClass::HeaderValueLatin1
    } else {
        ByteClass::HeaderValue
    }
}

} // verus!

verus! {

/// A run that stops inside `s` stops at the same place when more bytes
/// follow `s`.
pub proof fn lemma_span_extend(s: Seq<u8>, x: Seq<u8>, i: int, c: ByteClass)
    requires
        0 <= i <= s.len(),
        span(s, i, c) < s.len(),
    ensures
        span(s + x, i, c) == span(s, i, c),
    decreases s.len() - i,
{
    assert((s + x)[i] == s[i]);
    if in_class(c, s[i]) {
        lemma_span_extend(s, x, i + 1, c);
    }
}

} // verus!
