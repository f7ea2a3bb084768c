//! The line grammar: request lines, response lines, header lines, version
//! resolution and `Content-Length` values.
//!
//! The fields of a start line may be separated by one space or by a run of
//! them; a header line takes exactly one space after its colon. Every line
//! must end with `\r\n`, and each position in a line that can go wrong is
//! reported with its own reason.
use vstd::prelude::*;

use crate::combinators::{
    colon, crlf, crlf_bytes, header_value, http_header_name, http_method, http_version,
    first_method_from, in_class, is_digit, lemma_span_concat, method_end, method_names, number,
    span, spaces,
    strict_span, tag_at, take_until, to_space,
    value_class, version_end, ByteClass,
};
use crate::errors::{agrees, is_malformed, unknown_version_error, Failure, FlaskError};

verus! {

/// The HTTP versions that the grammar recognises.
#[derive(Clone, Copy, Debug, PartialEq, Eq, Structural)]
pub enum HttpVersion {
    Http09,
    Http10,
    Http11,
    Http20,
    Http30,
}

/// A parsed request line.
#[derive(Debug)]
pub struct RequestLine {
    pub method: Vec<u8>,
    pub target: Vec<u8>,
    pub version: Vec<u8>,
}

impl View for RequestLine {
    type V = (Seq<u8>, Seq<u8>, Seq<u8>);

    open spec fn view(&self) -> (Seq<u8>, Seq<u8>, Seq<u8>) {
        (self.method@, self.target@, self.version@)
    }
}

/// A parsed status line; the reason phrase is kept as read.
#[derive(Debug)]
pub struct ResponseLine {
    pub status_code: Vec<u8>,
    pub status_msg: Vec<u8>,
    pub version: Vec<u8>,
}

impl View for ResponseLine {
    type V = (Seq<u8>, Seq<u8>, Seq<u8>);

    open spec fn view(&self) -> (Seq<u8>, Seq<u8>, Seq<u8>) {
        (self.status_code@, self.status_msg@, self.version@)
    }
}

/// One header field, with its name as written.
#[derive(Debug)]
pub struct Header {
    pub key: Vec<u8>,
    pub value: Vec<u8>,
}

impl View for Header {
    type V = (Seq<u8>, Seq<u8>);

    open spec fn view(&self) -> (Seq<u8>, Seq<u8>) {
        (self.key@, self.value@)
    }
}

/// What a header line holds: the end of the header block, or a field.
#[derive(Debug)]
pub enum HeaderLine {
    End,
    Field(Header),
}

impl View for HeaderLine {
    type V = Option<(Seq<u8>, Seq<u8>)>;

    open spec fn view(&self) -> Option<(Seq<u8>, Seq<u8>)> {
        match self {
            HeaderLine::End => None,
            HeaderLine::Field(h) => Some(h@),
        }
    }
}

/// The line ends with `\r\n` at `v`.
pub open spec fn ends_at(s: Seq<u8>, v: int) -> bool {
    tag_at(s, v, crlf_bytes()) && v + 2 == s.len()
}

/// `METHOD SP+ target SP+ HTTP/x.y CRLF`, read into (method, target, version).
pub open spec fn request_line_spec(s: Seq<u8>) -> Result<(Seq<u8>, Seq<u8>, Seq<u8>), Failure> {
    match method_end(s, 0) {
        None => Err(Failure::RequestMissingMethod),
        Some(m) => match strict_span(s, m, ByteClass::Space) {
            None => Err(Failure::RequestMissingSpaceBeforeTarget),
            Some(a) => match strict_span(s, a, ByteClass::NotSpace) {
                None => Err(Failure::RequestBadTarget),
                Some(t) => match strict_span(s, t, ByteClass::Space) {
                    None => Err(Failure::RequestMissingSpaceAfterTarget),
                    Some(b) => match version_end(s, b) {
                        None => Err(Failure::RequestBadVersion),
                        Some(v) => if ends_at(s, v) {
                            Ok((s.subrange(0, m), s.subrange(a, t), s.subrange(v - 3, v)))
                        } else {
                            Err(Failure::RequestNoCrlf)
                        },
                    },
                },
            },
        },
    }
}

/// `HTTP/x.y SP+ digits SP+ reason CRLF`, read into (status, reason, version).
pub open spec fn response_line_spec(s: Seq<u8>) -> Result<(Seq<u8>, Seq<u8>, Seq<u8>), Failure> {
    match version_end(s, 0) {
        None => Err(Failure::ResponseBadVersion),
        Some(v) => match strict_span(s, v, ByteClass::Space) {
            None => Err(Failure::ResponseNoSpaceBeforeStatus),
            Some(a) => match strict_span(s, a, ByteClass::Digit) {
                None => Err(Failure::ResponseNoStatusCode),
                Some(d) => match strict_span(s, d, ByteClass::Space) {
                    None => Err(Failure::ResponseNoSpaceAfterStatus),
                    Some(b) => if span(s, b, ByteClass::NotCr) < s.len() {
                        let r = span(s, b, ByteClass::NotCr);
                        if ends_at(s, r) {
                            Ok((s.subrange(a, d), s.subrange(b, r), s.subrange(v - 3, v)))
                        } else {
                            Err(Failure::ResponseNoCrlf)
                        }
                    } else {
                        Err(Failure::ResponseBadStatusMessage)
                    },
                },
            },
        },
    }
}

/// `name: value CRLF` with exactly one space after the colon, read into
/// (name, value); a bare `\r\n` ends the header block.
pub open spec fn header_line_spec(s: Seq<u8>, latin1: bool) -> Result<
    Option<(Seq<u8>, Seq<u8>)>,
    Failure,
> {
    if s == crlf_bytes() {
        Ok(None)
    } else {
        match strict_span(s, 0, ByteClass::Token) {
            None => Err(Failure::HeaderMissingName),
            Some(k) => if !(k < s.len() && s[k] == 58u8) {
                Err(Failure::HeaderMissingColon)
            } else if !(k + 1 < s.len() && s[k + 1] == 32u8) {
                Err(Failure::HeaderMissingSpace)
            } else {
                let e = span(s, k + 2, value_class(latin1));
                if ends_at(s, e) {
                    Ok(Some((s.subrange(0, k), s.subrange(k + 2, e))))
                } else {
                    Err(Failure::HeaderNoCrlf)
                }
            },
        }
    }
}

pub open spec fn version_text(v: HttpVersion) -> Seq<u8> {
    match v {
        HttpVersion::Http09 => seq![48u8, 46u8, 57u8],
        HttpVersion::Http10 => seq![49u8, 46u8, 48u8],
        HttpVersion::Http11 => seq![49u8, 46u8, 49u8],
        HttpVersion::Http20 => seq![50u8, 46u8, 48u8],
        HttpVersion::Http30 => seq![51u8, 46u8, 48u8],
    }
}

/// 1.1 is supported; 0.9, 1.0, 2.0 and 3.0 are recognised but not
/// implemented; anything else is malformed.
pub open spec fn version_spec(v: Seq<u8>) -> Result<HttpVersion, Failure> {
    if v == version_text(HttpVersion::Http11) {
        Ok(HttpVersion::Http11)
    } else if v == version_text(HttpVersion::Http09) {
        Err(Failure::UnsupportedVersion(HttpVersion::Http09))
    } else if v == version_text(HttpVersion::Http10) {
        Err(Failure::UnsupportedVersion(HttpVersion::Http10))
    } else if v == version_text(HttpVersion::Http20) {
        Err(Failure::UnsupportedVersion(HttpVersion::Http20))
    } else if v == version_text(HttpVersion::Http30) {
        Err(Failure::UnsupportedVersion(HttpVersion::Http30))
    } else {
        Err(Failure::UnknownVersion(v))
    }
}

/// The number that the decimal digits `s` write.
pub open spec fn decimal_value(s: Seq<u8>) -> nat
    decreases s.len(),
{
    if s.len() == 0 {
        0
    } else {
        decimal_value(s.drop_last()) * 10 + (s.last() - 48) as nat
    }
}

pub open spec fn all_digits(s: Seq<u8>) -> bool {
    forall|k: int| 0 <= k < s.len() ==> is_digit(#[trigger] s[k])
}

/// The digits of a `Content-Length` value: all of it but a leading `+`.
pub open spec fn length_digits(s: Seq<u8>) -> Seq<u8> {
    if s.len() > 0 && s[0] == 43u8 {
        s.drop_first()
    } else {
        s
    }
}

/// A non-negative integer as `usize::from_str` reads it: an optional `+`,
/// then one or more digits whose number fits a `usize`.
pub open spec fn decimal_spec(s: Seq<u8>) -> Option<nat> {
    if s.len() > 0 && all_digits(s) && decimal_value(s) <= usize::MAX {
        Some(decimal_value(s))
    } else {
        None
    }
}

/// A `Content-Length` value: an optional `+`, then one or more digits whose
/// number fits a `usize`.
pub open spec fn content_length_spec(s: Seq<u8>) -> Option<nat> {
    decimal_spec(length_digits(s))
}

/// The status code that three digits write, first digit not zero.
pub open spec fn status_code_spec(s: Seq<u8>) -> Option<u16> {
    if s.len() == 3 && 49 <= s[0] <= 57 && is_digit(s[1]) && is_digit(s[2]) {
        Some(((s[0] - 48) * 100 + (s[1] - 48) * 10 + (s[2] - 48)) as u16)
    } else {
        None
    }
}

/// The bytes of `s` from `a` to `b`.
pub fn copy_range(s: &[u8], a: usize, b: usize) -> (r: Vec<u8>)
    requires
        a <= b <= s@.len(),
    ensures
        r@ == s@.subrange(a as int, b as int),
{
    let mut r: Vec<u8> = Vec::new();
    let mut k: usize = a;
    while k < b
        invariant
            a <= k <= b,
            b <= s@.len(),
            r@ == s@.subrange(a as int, k as int),
        decreases b - k,
    {
        r.push(s[k]);
        k = k + 1;
        assert(r@ =~= s@.subrange(a as int, k as int));
    }
    r
}

fn ends_here(s: &[u8], v: usize) -> (r: bool)
    requires
        v <= s@.len(),
    ensures
        r == ends_at(s@, v as int),
{
    match crlf(s, v) {
        Some(e) => e == s.len(),
        None => false,
    }
}

/// Parses a request line.
pub fn parse_request_line(line: &[u8]) -> (r: Result<RequestLine, FlaskError>)
    ensures
        agrees(r, request_line_spec(line@)),
{
    let m = match http_method(line, 0) {
        Some(m) => m,
        None => return Err(Failure::RequestMissingMethod.to_error()),
    };
    let a = match spaces(line, m) {
        Some(a) => a,
        None => return Err(Failure::RequestMissingSpaceBeforeTarget.to_error()),
    };
    let t = match to_space(line, a) {
        Some(t) => t,
        None => return Err(Failure::RequestBadTarget.to_error()),
    };
    let b = match spaces(line, t) {
        Some(b) => b,
        None => return Err(Failure::RequestMissingSpaceAfterTarget.to_error()),
    };
    let v = match http_version(line, b) {
        Some(v) => v,
        None => return Err(Failure::RequestBadVersion.to_error()),
    };
    if ends_here(line, v) {
        Ok(
            RequestLine {
                method: copy_range(line, 0, m),
                target: copy_range(line, a, t),
                version: copy_range(line, v - 3, v),
            },
        )
    } else {
        Err(Failure::RequestNoCrlf.to_error())
    }
}

/// Parses a response (status) line.
pub fn parse_response_line(line: &[u8]) -> (r: Result<ResponseLine, FlaskError>)
    ensures
        agrees(r, response_line_spec(line@)),
{
    let v = match http_version(line, 0) {
        Some(v) => v,
        None => return Err(Failure::ResponseBadVersion.to_error()),
    };
    let a = match spaces(line, v) {
        Some(a) => a,
        None => return Err(Failure::ResponseNoSpaceBeforeStatus.to_error()),
    };
    let d = match number(line, a) {
        Some(d) => d,
        None => return Err(Failure::ResponseNoStatusCode.to_error()),
    };
    let b = match spaces(line, d) {
        Some(b) => b,
        None => return Err(Failure::ResponseNoSpaceAfterStatus.to_error()),
    };
    let e = match take_until(line, b) {
        Some(e) => e,
        None => return Err(Failure::ResponseBadStatusMessage.to_error()),
    };
    if ends_here(line, e) {
        Ok(
            ResponseLine {
                status_code: copy_range(line, a, d),
                status_msg: copy_range(line, b, e),
                version: copy_range(line, v - 3, v),
            },
        )
    } else {
        Err(Failure::ResponseNoCrlf.to_error())
    }
}

/// Parses a header line; `latin1` lets header values hold bytes 160..=255.
pub fn read_header(line: &[u8], latin1: bool) -> (r: Result<HeaderLine, FlaskError>)
    ensures
        agrees(r, header_line_spec(line@, latin1)),
{
    if line.len() == 2 && line[0] == 13 && line[1] == 10 {
        assert(line@ =~= crlf_bytes());
        return Ok(HeaderLine::End);
    }
    assert(line@ != crlf_bytes()) by {
        if line@ == crlf_bytes() {
            assert(line@[0] == 13u8 && line@[1] == 10u8);
        }
    }
    let k = match http_header_name(line, 0) {
        Some(k) => k,
        None => return Err(Failure::HeaderMissingName.to_error()),
    };
    let c = match colon(line, k) {
        Some(c) => c,
        None => return Err(Failure::HeaderMissingColon.to_error()),
    };
    let s = match crate::combinators::space(line, c) {
        Some(s) => s,
        None => return Err(Failure::HeaderMissingSpace.to_error()),
    };
    let e = header_value(line, s, latin1);
    if ends_here(line, e) {
        Ok(HeaderLine::Field(Header { key: copy_range(line, 0, k), value: copy_range(line, s, e) }))
    } else {
        Err(Failure::HeaderNoCrlf.to_error())
    }
}

/// Resolves the three version bytes of a start line.
pub fn get_http_version(ver: &[u8]) -> (r: Result<HttpVersion, FlaskError>)
    ensures
        match (r, version_spec(ver@)) {
            (Ok(x), Ok(y)) => x == y,
            (Err(e), Err(f)) => e.reports(f),
            _ => false,
        },
{
    let recognised = ver.len() == 3 && ver[1] == 46;
    if recognised && ver[0] == 49 && ver[2] == 49 {
        assert(ver@ =~= version_text(HttpVersion::Http11));
        return Ok(HttpVersion::Http11);
    }
    let f = if recognised && ver[0] == 48 && ver[2] == 57 {
        assert(ver@ =~= version_text(HttpVersion::Http09));
        Failure::UnsupportedVersion(HttpVersion::Http09)
    } else if recognised && ver[0] == 49 && ver[2] == 48 {
        assert(ver@ =~= version_text(HttpVersion::Http10));
        Failure::UnsupportedVersion(HttpVersion::Http10)
    } else if recognised && ver[0] == 50 && ver[2] == 48 {
        assert(ver@ =~= version_text(HttpVersion::Http20));
        Failure::UnsupportedVersion(HttpVersion::Http20)
    } else if recognised && ver[0] == 51 && ver[2] == 48 {
        assert(ver@ =~= version_text(HttpVersion::Http30));
        Failure::UnsupportedVersion(HttpVersion::Http30)
    } else {
        assert(ver@ != version_text(HttpVersion::Http11));
        assert(ver@ != version_text(HttpVersion::Http09));
        assert(ver@ != version_text(HttpVersion::Http10));
        assert(ver@ != version_text(HttpVersion::Http20));
        assert(ver@ != version_text(HttpVersion::Http30));
        return Err(unknown_version_error(ver));
    };
    Err(f.to_error())
}

proof fn lemma_decimal_prefix(s: Seq<u8>, k: int)
    requires
        0 <= k <= s.len(),
        all_digits(s),
    ensures
        decimal_value(s.subrange(0, k)) <= decimal_value(s),
    decreases s.len() - k,
{
    if k < s.len() {
        assert(s.subrange(0, k + 1).drop_last() =~= s.subrange(0, k));
        lemma_decimal_prefix(s, k + 1);
    } else {
        assert(s.subrange(0, k) =~= s);
    }
}

/// Reads a `Content-Length` value.
pub fn parse_content_length(v: &[u8]) -> (r: Option<usize>)
    ensures
        match content_length_spec(v@) {
            Some(n) => r == Some(n as usize),
            None => r is None,
        },
{
    if v.len() > 0 && v[0] == 43 {
        let rest = &v[1..v.len()];
        assert(rest@ =~= v@.drop_first());
        parse_decimal(rest)
    } else {
        parse_decimal(v)
    }
}

fn parse_decimal(v: &[u8]) -> (r: Option<usize>)
    ensures
        match decimal_spec(v@) {
            Some(n) => r == Some(n as usize),
            None => r is None,
        },
{
    if v.len() == 0 {
        return None;
    }
    let mut n: usize = 0;
    let mut k: usize = 0;
    while k < v.len()
        invariant
            k <= v@.len(),
            all_digits(v@.subrange(0, k as int)),
            n == decimal_value(v@.subrange(0, k as int)),
        decreases v@.len() - k,
    {
        let b = v[k];
        if b < 48 || b > 57 {
            assert(!all_digits(v@)) by {
                assert(!is_digit(v@[k as int]));
            }
            return None;
        }
        let d = (b - 48) as usize;
        proof {
            assert(v@.subrange(0, k + 1).drop_last() =~= v@.subrange(0, k as int));
        }
        if n > (usize::MAX - d) / 10 {
            proof {
                assert(decimal_value(v@.subrange(0, k + 1)) > usize::MAX) by (nonlinear_arith)
                    requires
                        decimal_value(v@.subrange(0, k + 1)) == n * 10 + d,
                        n > (usize::MAX - d) / 10,
                        d <= 9,
                ;
                if all_digits(v@) {
                    lemma_decimal_prefix(v@, k + 1);
                }
            }
            return None;
        }
        n = n * 10 + d;
        k = k + 1;
        assert(all_digits(v@.subrange(0, k as int))) by {
            assert forall|j: int| 0 <= j < k implies is_digit(#[trigger] v@.subrange(0, k as int)[j]) by {
                if j < k - 1 {
                    assert(v@.subrange(0, k as int)[j] == v@.subrange(0, k - 1)[j]);
                }
            }
        }
    }
    assert(v@.subrange(0, k as int) =~= v@);
    Some(n)
}

/// Relies on `http::StatusCode::from_bytes`: it accepts exactly three ASCII
/// digits whose first is not zero, and `as_u16` gives their number.
#[verifier::external_body]
fn status_code_of(s: &[u8]) -> (r: Option<u16>)
    ensures
        r == status_code_spec(s@),
{
    match http::StatusCode::from_bytes(s) {
        Ok(code) => Some(code.as_u16()),
        Err(_) => None,
    }
}

/// Checks a status code with the message type's own rule.
pub fn check_status_code(s: &[u8]) -> (r: Result<u16, FlaskError>)
    ensures
        match status_code_spec(s@) {
            Some(c) => r == Ok::<u16, FlaskError>(c),
            None => r matches Err(e) && e.reports(Failure::InvalidStatusCode),
        },
{
    match status_code_of(s) {
        Some(c) => Ok(c),
        None => Err(Failure::InvalidStatusCode.to_error()),
    }
}

} // verus!

verus! {

/// Whether the line ends with `\r\n`.
pub open spec fn ends_with_crlf(s: Seq<u8>) -> bool {
    s.len() >= 2 && s[s.len() - 2] == 13u8 && s[s.len() - 1] == 10u8
}

proof fn lemma_ends_at_crlf(s: Seq<u8>, v: int)
    requires
        ends_at(s, v),
    ensures
        ends_with_crlf(s),
{
    assert(s.subrange(v, v + 2)[0] == s[v]);
    assert(s.subrange(v, v + 2)[1] == s[v + 1]);
}

/// A line that does not end with `\r\n` is never accepted, as a request
/// line, a status line or a header line: it is reported as malformed.
pub proof fn lemma_missing_crlf_is_malformed(line: Seq<u8>, latin1: bool)
    requires
        !ends_with_crlf(line),
    ensures
        request_line_spec(line) matches Err(f) && is_malformed(f),
        response_line_spec(line) matches Err(f) && is_malformed(f),
        header_line_spec(line, latin1) matches Err(f) && is_malformed(f),
{
    if line == crlf_bytes() {
        assert(ends_with_crlf(line));
    }
    if request_line_spec(line) is Ok {
        let v = version_end(line, span(line, span(line, span(line, method_end(line, 0)->Some_0, ByteClass::Space), ByteClass::NotSpace), ByteClass::Space))->Some_0;
        lemma_ends_at_crlf(line, v);
    }
    if response_line_spec(line) is Ok {
        let v = version_end(line, 0)->Some_0;
        let a = span(line, v, ByteClass::Space);
        let d = span(line, a, ByteClass::Digit);
        let b = span(line, d, ByteClass::Space);
        lemma_ends_at_crlf(line, span(line, b, ByteClass::NotCr));
    }
    if header_line_spec(line, latin1) is Ok {
        let k = span(line, 0, ByteClass::Token);
        lemma_ends_at_crlf(line, span(line, k + 2, value_class(latin1)));
    }
}

} // verus!

verus! {

proof fn lemma_tag_head(s: Seq<u8>, t: Seq<u8>)
    requires
        t.len() >= 2,
    ensures
        tag_at(s, 0, t) ==> s[0] == t[0] && s[1] == t[1],
{
    if tag_at(s, 0, t) {
        assert(s.subrange(0, t.len() as int)[0] == s[0]);
        assert(s.subrange(0, t.len() as int)[1] == s[1]);
    }
}

/// A line that starts with one of the method names is read as that method.
proof fn lemma_method_at_start(s: Seq<u8>, k: int)
    requires
        0 <= k < 9,
        tag_at(s, 0, method_names()[k]),
    ensures
        method_end(s, 0) == Some(method_names()[k].len() as int),
{
    reveal_with_fuel(first_method_from, 10);
    let n = method_names();
    lemma_tag_head(s, n[0]);
    lemma_tag_head(s, n[1]);
    lemma_tag_head(s, n[2]);
    lemma_tag_head(s, n[3]);
    lemma_tag_head(s, n[4]);
    lemma_tag_head(s, n[5]);
    lemma_tag_head(s, n[6]);
    lemma_tag_head(s, n[7]);
    lemma_tag_head(s, n[8]);
    if k == 0 {
    } else if k == 1 {
    } else if k == 2 {
    } else if k == 3 {
    } else if k == 4 {
    } else if k == 5 {
    } else if k == 6 {
    } else if k == 7 {
    } else {
    }
}

/// `n` spaces.
pub open spec fn space_run(n: nat) -> Seq<u8> {
    Seq::new(n, |i: int| 32u8)
}

/// `HTTP/`.
pub open spec fn http_slash() -> Seq<u8> {
    seq![72u8, 84u8, 84u8, 80u8, 47u8]
}

/// What a request line gives once its method, target and the spaces after
/// them are read: it depends on the rest of the line alone.
pub open spec fn request_tail(m: Seq<u8>, t: Seq<u8>, rest: Seq<u8>) -> Result<
    (Seq<u8>, Seq<u8>, Seq<u8>),
    Failure,
> {
    match version_end(rest, 0) {
        None => Err(Failure::RequestBadVersion),
        Some(_) => if ends_at(rest, 8) {
            Ok((m, t, rest.subrange(5, 8)))
        } else {
            Err(Failure::RequestNoCrlf)
        },
    }
}

/// Whether `t` can stand as a request target: non-empty, with no space.
pub open spec fn is_plain_target(t: Seq<u8>) -> bool {
    t.len() > 0 && forall|i: int| 0 <= i < t.len() ==> #[trigger] t[i] != 32u8
}

proof fn lemma_request_split(k: int, n1: nat, t: Seq<u8>, n2: nat, rest: Seq<u8>)
    requires
        0 <= k < 9,
        n1 >= 1,
        n2 >= 1,
        is_plain_target(t),
        rest.len() == 0 || rest[0] != 32u8,
    ensures
        request_line_spec(method_names()[k] + space_run(n1) + t + space_run(n2) + rest)
            == request_tail(method_names()[k], t, rest),
{
    let m = method_names()[k];
    let p1 = m + space_run(n1);
    let p2 = p1 + t;
    let p3 = p2 + space_run(n2);
    let s = p3 + rest;
    assert(s =~= m + space_run(n1) + t + space_run(n2) + rest);
    // the method
    assert(s.subrange(0, m.len() as int) =~= m);
    lemma_method_at_start(s, k);
    // the spaces before the target
    assert(s =~= p1 + (t + space_run(n2) + rest));
    assert forall|j: int| m.len() <= j < p1.len() implies in_class(ByteClass::Space, #[trigger] p1[j]) by {
        assert(p1[j] == space_run(n1)[j - m.len()]);
    }
    assert((t + space_run(n2) + rest)[0] == t[0]);
    lemma_span_concat(p1, t + space_run(n2) + rest, m.len() as int, ByteClass::Space);
    // the target
    assert(s =~= p2 + (space_run(n2) + rest));
    assert forall|j: int| p1.len() <= j < p2.len() implies in_class(ByteClass::NotSpace, #[trigger] p2[j]) by {
        assert(p2[j] == t[j - p1.len()]);
    }
    assert((space_run(n2) + rest)[0] == 32u8);
    lemma_span_concat(p2, space_run(n2) + rest, p1.len() as int, ByteClass::NotSpace);
    // the spaces after the target
    assert forall|j: int| p2.len() <= j < p3.len() implies in_class(ByteClass::Space, #[trigger] p3[j]) by {
        assert(p3[j] == space_run(n2)[j - p2.len()]);
    }
    lemma_span_concat(p3, rest, p2.len() as int, ByteClass::Space);
    // the rest
    let b = p3.len() as int;
    assert forall|j: int| 0 <= j < rest.len() implies #[trigger] s[b + j] == rest[j] by {}
    assert(strict_span(s, m.len() as int, ByteClass::Space) == Some(p1.len() as int));
    assert(strict_span(s, p1.len() as int, ByteClass::NotSpace) == Some(p2.len() as int));
    assert(strict_span(s, p2.len() as int, ByteClass::Space) == Some(b));
    assert(s.subrange(p1.len() as int, p2.len() as int) =~= t);
    assert(version_end(s, b) is Some <==> version_end(rest, 0) is Some);
    if version_end(rest, 0) is Some {
        assert(s.subrange(b + 5, b + 8) =~= rest.subrange(5, 8));
        if rest.len() == 10 {
            assert(s.subrange(b + 8, b + 10) =~= rest.subrange(8, 10));
        }
    }
}

/// A request line made of a supported method, a space, a non-empty target
/// without spaces, a space, `HTTP/`, three version bytes and `\r\n` is read
/// back as exactly that method, target and version.
pub proof fn lemma_request_line_parts(k: int, t: Seq<u8>, v: Seq<u8>)
    requires
        0 <= k < 9,
        is_plain_target(t),
        v.len() == 3,
    ensures
        request_line_spec(
            method_names()[k] + space_run(1) + t + space_run(1) + (http_slash() + v + crlf_bytes()),
        ) == Ok::<_, Failure>((method_names()[k], t, v)),
{
    let rest = http_slash() + v + crlf_bytes();
    lemma_request_split(k, 1, t, 1, rest);
    assert(rest.subrange(5, 8) =~= v);
    assert(rest.subrange(8, 10) =~= crlf_bytes());
}

/// The length of the space runs around the target does not matter: with
/// one or more spaces on each side, a request line reads as it does with
/// single spaces.
pub proof fn lemma_space_runs_insignificant(
    k: int,
    n1: nat,
    t: Seq<u8>,
    n2: nat,
    rest: Seq<u8>,
)
    requires
        0 <= k < 9,
        n1 >= 1,
        n2 >= 1,
        is_plain_target(t),
        rest.len() == 0 || rest[0] != 32u8,
    ensures
        request_line_spec(method_names()[k] + space_run(n1) + t + space_run(n2) + rest)
            == request_line_spec(method_names()[k] + space_run(1) + t + space_run(1) + rest),
{
    lemma_request_split(k, n1, t, n2, rest);
    lemma_request_split(k, 1, t, 1, rest);
}

} // verus!
