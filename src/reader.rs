//! The message reader: a state machine that takes a message line by line,
//! then its body, and a driver that runs it over bytes already in memory.
//!
//! The machine never reads by itself. Whoever owns the transport asks it
//! what it needs next (`next_action`), reads that, and hands it over.
use vstd::prelude::*;

use crate::combinators::{
    ascii_lower, crlf_bytes, in_class, lemma_span, lemma_span_concat, lemma_span_extend, scan, span,
    value_class, ByteClass,
};
use crate::errors::{agrees, invalid_content_length_error, is_malformed, Failure, FlaskError};
use crate::grammar::{
    check_status_code, content_length_spec, copy_range, ends_with_crlf,
    lemma_missing_crlf_is_malformed, get_http_version, header_line_spec,
    parse_content_length, parse_request_line, parse_response_line, read_header,
    request_line_spec, response_line_spec, status_code_spec, version_spec, Header, HeaderLine,
    HttpVersion,
};

verus! {

/// Which start line a message begins with.
#[derive(Clone, Copy, Debug, PartialEq, Eq, Structural)]
pub enum MessageKind {
    Request,
    Response,
}

/// The start line of a message once it has been read.
#[derive(Debug)]
pub enum Head {
    Request { method: Vec<u8>, target: Vec<u8> },
    Response { status: u16 },
}

pub enum HeadView {
    Request { method: Seq<u8>, target: Seq<u8> },
    Response { status: u16 },
}

impl View for Head {
    type V = HeadView;

    open spec fn view(&self) -> HeadView {
        match self {
            Head::Request { method, target } => HeadView::Request {
                method: method@,
                target: target@,
            },
            Head::Response { status } => HeadView::Response { status: *status },
        }
    }
}

/// A whole message: start line, version, headers in the order read, body.
#[derive(Debug)]
pub struct Message {
    pub head: Head,
    pub version: HttpVersion,
    pub headers: Vec<Header>,
    pub body: Vec<u8>,
}

pub struct MessageView {
    pub head: HeadView,
    pub version: HttpVersion,
    pub headers: Seq<(Seq<u8>, Seq<u8>)>,
    pub body: Seq<u8>,
}

pub open spec fn headers_view(hs: Seq<Header>) -> Seq<(Seq<u8>, Seq<u8>)> {
    hs.map_values(|h: Header| h@)
}

impl View for Message {
    type V = MessageView;

    open spec fn view(&self) -> MessageView {
        MessageView {
            head: self.head@,
            version: self.version,
            headers: headers_view(self.headers@),
            body: self.body@,
        }
    }
}

/// Where the reader stands.
#[derive(Clone, Copy, Debug, PartialEq, Eq, Structural)]
pub enum Phase {
    StartLine,
    Headers,
    Body,
}

/// What the reader needs next from the transport.
#[derive(Clone, Copy, Debug, PartialEq, Eq, Structural)]
pub enum Action {
    /// One line, up to and including its `\n`.
    ReadLine,
    /// Exactly this many body bytes.
    ReadBody(usize),
}

/// A message being read. Each step consumes the reader and hands back the
/// next one, or the error that ends the message.
#[derive(Debug)]
pub struct MessageReader {
    pub kind: MessageKind,
    pub latin1: bool,
    pub phase: Phase,
    pub head: Option<(Head, HttpVersion)>,
    pub headers: Vec<Header>,
    pub content_length: usize,
}

pub struct ReaderView {
    pub kind: MessageKind,
    pub latin1: bool,
    pub phase: Phase,
    pub head: Option<(HeadView, HttpVersion)>,
    pub headers: Seq<(Seq<u8>, Seq<u8>)>,
    pub content_length: nat,
}

impl View for MessageReader {
    type V = ReaderView;

    open spec fn view(&self) -> ReaderView {
        ReaderView {
            kind: self.kind,
            latin1: self.latin1,
            phase: self.phase,
            head: match self.head {
                Some((h, v)) => Some((h@, v)),
                None => None,
            },
            headers: headers_view(self.headers@),
            content_length: self.content_length as nat,
        }
    }
}

/// `content-length` in lower case.
pub open spec fn content_length_name() -> Seq<u8> {
    seq![99u8, 111u8, 110u8, 116u8, 101u8, 110u8, 116u8, 45u8, 108u8, 101u8, 110u8, 103u8, 116u8, 104u8]
}

/// Whether a header name is `Content-Length`, in any case.
pub open spec fn is_content_length_name(k: Seq<u8>) -> bool {
    k.len() == content_length_name().len() && forall|j: int|
        0 <= j < k.len() ==> ascii_lower(#[trigger] k[j]) == content_length_name()[j]
}

/// The body length that the headers declare: the last `Content-Length`
/// value, or 0 where there is none.
pub open spec fn declared_length(hs: Seq<(Seq<u8>, Seq<u8>)>) -> nat
    decreases hs.len(),
{
    if hs.len() == 0 {
        0
    } else if is_content_length_name(hs.last().0) {
        match content_length_spec(hs.last().1) {
            Some(n) => n,
            None => 0,
        }
    } else {
        declared_length(hs.drop_last())
    }
}

impl ReaderView {
    /// The reader's invariant: a head exactly once the start line is read,
    /// no headers before it, and the body length the headers declare.
    pub open spec fn wf(self) -> bool {
        &&& (self.phase == Phase::StartLine) == (self.head is None)
        &&& self.phase == Phase::StartLine ==> self.headers.len() == 0
        &&& self.content_length == declared_length(self.headers)
    }
}

pub open spec fn initial_reader(kind: MessageKind, latin1: bool) -> ReaderView {
    ReaderView {
        kind,
        latin1,
        phase: Phase::StartLine,
        head: None,
        headers: Seq::empty(),
        content_length: 0,
    }
}

pub open spec fn action_of(r: ReaderView) -> Action {
    if r.phase == Phase::Body {
        Action::ReadBody(r.content_length as usize)
    } else {
        Action::ReadLine
    }
}

/// The head and version that a start line gives.
pub open spec fn start_line_spec(kind: MessageKind, line: Seq<u8>) -> Result<
    (HeadView, HttpVersion),
    Failure,
> {
    match kind {
        MessageKind::Request => match request_line_spec(line) {
            Err(f) => Err(f),
            Ok((m, t, v)) => match version_spec(v) {
                Err(f) => Err(f),
                Ok(ver) => Ok((HeadView::Request { method: m, target: t }, ver)),
            },
        },
        MessageKind::Response => match response_line_spec(line) {
            Err(f) => Err(f),
            Ok((c, _, v)) => match status_code_spec(c) {
                None => Err(Failure::InvalidStatusCode),
                Some(code) => match version_spec(v) {
                    Err(f) => Err(f),
                    Ok(ver) => Ok((HeadView::Response { status: code }, ver)),
                },
            },
        },
    }
}

/// One line taken in the start-line or header phase.
pub open spec fn step_spec(r: ReaderView, line: Seq<u8>) -> Result<ReaderView, Failure> {
    if r.phase == Phase::StartLine {
        match start_line_spec(r.kind, line) {
            Err(f) => Err(f),
            Ok(h) => Ok(ReaderView { phase: Phase::Headers, head: Some(h), ..r }),
        }
    } else {
        match header_line_spec(line, r.latin1) {
            Err(f) => Err(f),
            Ok(None) => Ok(ReaderView { phase: Phase::Body, ..r }),
            Ok(Some((k, v))) => if is_content_length_name(k) {
                match content_length_spec(v) {
                    None => Err(Failure::InvalidContentLength(v)),
                    Some(n) => Ok(
                        ReaderView { headers: r.headers.push((k, v)), content_length: n, ..r },
                    ),
                }
            } else {
                Ok(ReaderView { headers: r.headers.push((k, v)), ..r })
            },
        }
    }
}

/// The message that the body completes; a body of another length than the
/// declared one is a short read.
pub open spec fn finish_spec(r: ReaderView, body: Seq<u8>) -> Result<MessageView, Failure> {
    if body.len() != r.content_length {
        Err(Failure::BodyTransport)
    } else {
        match r.head {
            Some((h, v)) => Ok(MessageView { head: h, version: v, headers: r.headers, body }),
            None => Err(Failure::HeaderTransport),
        }
    }
}

/// Where the line that starts at `pos` ends: just past its `\n`, or at the
/// end of the input.
pub open spec fn line_end(s: Seq<u8>, pos: int) -> int {
    if span(s, pos, ByteClass::NotLf) < s.len() {
        span(s, pos, ByteClass::NotLf) + 1
    } else {
        s.len() as int
    }
}

/// What reading the rest of `s` from `pos`, with the reader in state `r`,
/// gives: each line is stepped in turn, and the body is what follows the
/// header block, cut to the declared length.
pub open spec fn run_from(s: Seq<u8>, pos: int, r: ReaderView) -> Result<MessageView, Failure>
    decreases s.len() - pos,
{
    if pos < 0 || pos > s.len() {
        Err(Failure::HeaderTransport)
    } else if r.phase == Phase::Body {
        let end = if pos + r.content_length <= s.len() {
            pos + r.content_length
        } else {
            s.len() as int
        };
        finish_spec(r, s.subrange(pos, end))
    } else if pos == s.len() {
        Err(Failure::HeaderTransport)
    } else {
        let e = line_end(s, pos);
        if e <= pos {
            Err(Failure::HeaderTransport)
        } else {
            match step_spec(r, s.subrange(pos, e)) {
                Err(f) => Err(f),
                Ok(r2) => run_from(s, e, r2),
            }
        }
    }
}

/// What reading a whole message of kind `kind` from `s` gives.
pub open spec fn read_spec(s: Seq<u8>, kind: MessageKind, latin1: bool) -> Result<
    MessageView,
    Failure,
> {
    run_from(s, 0, initial_reader(kind, latin1))
}

fn is_content_length(k: &[u8]) -> (r: bool)
    ensures
        r == is_content_length_name(k@),
{
    let name: Vec<u8> = vec![99u8, 111u8, 110u8, 116u8, 101u8, 110u8, 116u8, 45u8, 108u8, 101u8, 110u8, 103u8, 116u8, 104u8];
    if k.len() != name.len() {
        return false;
    }
    let mut j: usize = 0;
    while j < k.len()
        invariant
            name@ == content_length_name(),
            k@.len() == name@.len(),
            j <= k@.len(),
            forall|m: int| 0 <= m < j ==> ascii_lower(#[trigger] k@[m]) == content_length_name()[m],
        decreases k@.len() - j,
    {
        let b = k[j];
        let lower = if 65 <= b && b <= 90 {
            b + 32
        } else {
            b
        };
        if lower != name[j] {
            return false;
        }
        j = j + 1;
    }
    true
}

proof fn lemma_headers_view_push(hs: Seq<Header>, h: Header)
    ensures
        headers_view(hs.push(h)) == headers_view(hs).push(h@),
{
    assert(headers_view(hs.push(h)) =~= headers_view(hs).push(h@));
}

impl MessageReader {
    /// A reader at the start of a message of kind `kind`; `latin1` lets
    /// header values hold bytes 160..=255.
    pub fn new(kind: MessageKind, latin1: bool) -> (r: MessageReader)
        ensures
            r@ == initial_reader(kind, latin1),
            r@.wf(),
    {
        let r = MessageReader {
            kind,
            latin1,
            phase: Phase::StartLine,
            head: None,
            headers: Vec::new(),
            content_length: 0,
        };
        assert(r@.headers =~= Seq::empty());
        r
    }

    /// What the reader needs next.
    pub fn next_action(&self) -> (a: Action)
        ensures
            a == action_of(self@),
    {
        match self.phase {
            Phase::Body => Action::ReadBody(self.content_length),
            _ => Action::ReadLine,
        }
    }

    /// The error for a transport that failed or closed while the reader
    /// waited: before the body, or during it.
    pub fn transport_failure(&self) -> (e: FlaskError)
        ensures
            e.reports(
                if self@.phase == Phase::Body {
                    Failure::BodyTransport
                } else {
                    Failure::HeaderTransport
                },
            ),
    {
        match self.phase {
            Phase::Body => Failure::BodyTransport.to_error(),
            _ => Failure::HeaderTransport.to_error(),
        }
    }

    fn read_start_line(kind: MessageKind, line: &[u8]) -> (r: Result<(Head, HttpVersion), FlaskError>)
        ensures
            match (r, start_line_spec(kind, line@)) {
                (Ok((h, v)), Ok((hv, vv))) => h@ == hv && v == vv,
                (Err(e), Err(f)) => e.reports(f),
                _ => false,
            },
    {
        match kind {
            MessageKind::Request => {
                let l = match parse_request_line(line) {
                    Ok(l) => l,
                    Err(e) => return Err(e),
                };
                let v = match get_http_version(l.version.as_slice()) {
                    Ok(v) => v,
                    Err(e) => return Err(e),
                };
                Ok((Head::Request { method: l.method, target: l.target }, v))
            },
            MessageKind::Response => {
                let l = match parse_response_line(line) {
                    Ok(l) => l,
                    Err(e) => return Err(e),
                };
                let code = match check_status_code(l.status_code.as_slice()) {
                    Ok(c) => c,
                    Err(e) => return Err(e),
                };
                let v = match get_http_version(l.version.as_slice()) {
                    Ok(v) => v,
                    Err(e) => return Err(e),
                };
                Ok((Head::Response { status: code }, v))
            },
        }
    }

    /// Takes one line in the start-line or header phase.
    pub fn on_line(self, line: &[u8]) -> (r: Result<MessageReader, FlaskError>)
        requires
            self@.wf(),
            self@.phase != Phase::Body,
        ensures
            match (r, step_spec(self@, line@)) {
                (Ok(n), Ok(v)) => n@ == v && n@.wf(),
                (Err(e), Err(f)) => e.reports(f),
                _ => false,
            },
    {
        let mut this = self;
        if this.phase == Phase::StartLine {
            match Self::read_start_line(this.kind, line) {
                Ok(h) => {
                    this.head = Some(h);
                    this.phase = Phase::Headers;
                    Ok(this)
                },
                Err(e) => Err(e),
            }
        } else {
            match read_header(line, this.latin1) {
                Err(e) => Err(e),
                Ok(HeaderLine::End) => {
                    this.phase = Phase::Body;
                    Ok(this)
                },
                Ok(HeaderLine::Field(h)) => {
                    let ghost old_headers = this.headers@;
                    if is_content_length(h.key.as_slice()) {
                        match parse_content_length(h.value.as_slice()) {
                            None => {
                                return Err(invalid_content_length_error(h.value.as_slice()));
                            },
                            Some(n) => {
                                this.content_length = n;
                            },
                        }
                    }
                    let ghost hv = h@;
                    this.headers.push(h);
                    proof {
                        lemma_headers_view_push(old_headers, h);
                        assert(headers_view(this.headers@).drop_last() =~= headers_view(old_headers));
                    }
                    Ok(this)
                },
            }
        }
    }

    /// Takes the body and completes the message.
    pub fn on_body(self, body: Vec<u8>) -> (r: Result<Message, FlaskError>)
        requires
            self@.wf(),
            self@.phase == Phase::Body,
        ensures
            agrees(r, finish_spec(self@, body@)),
    {
        if body.len() != self.content_length {
            return Err(Failure::BodyTransport.to_error());
        }
        match self.head {
            Some((head, version)) => Ok(Message { head, version, headers: self.headers, body }),
            None => Err(Failure::HeaderTransport.to_error()),
        }
    }
}

fn next_line_end(s: &[u8], pos: usize) -> (e: usize)
    requires
        pos < s@.len(),
    ensures
        e == line_end(s@, pos as int),
        pos < e <= s@.len(),
{
    let k = scan(s, pos, ByteClass::NotLf);
    proof {
        lemma_span(s@, pos as int, ByteClass::NotLf);
    }
    if k < s.len() {
        k + 1
    } else {
        k
    }
}

/// Reads one message of kind `kind` from bytes already in memory. Bytes
/// past the declared body are left alone.
pub fn read_message(input: &[u8], kind: MessageKind, latin1: bool) -> (r: Result<
    Message,
    FlaskError,
>)
    ensures
        agrees(r, read_spec(input@, kind, latin1)),
{
    let n = input.len();
    let mut reader = MessageReader::new(kind, latin1);
    let mut pos: usize = 0;
    loop
        invariant
            n == input@.len(),
            pos <= n,
            reader@.wf(),
            run_from(input@, pos as int, reader@) == read_spec(input@, kind, latin1),
        decreases n - pos,
    {
        match reader.next_action() {
            Action::ReadBody(len) => {
                let end = if len <= n - pos {
                    pos + len
                } else {
                    n
                };
                let body = copy_range(input, pos, end);
                return reader.on_body(body);
            },
            Action::ReadLine => {
                if pos == n {
                    return Err(reader.transport_failure());
                }
                let e = next_line_end(input, pos);
                let line = copy_range(input, pos, e);
                match reader.on_line(line.as_slice()) {
                    Ok(next) => {
                        reader = next;
                        pos = e;
                    },
                    Err(err) => {
                        return Err(err);
                    },
                }
            },
        }
    }
}

} // verus!

verus! {

/// A step keeps the reader's invariant.
proof fn lemma_step_wf(r: ReaderView, line: Seq<u8>)
    requires
        r.wf(),
        r.phase != Phase::Body,
    ensures
        step_spec(r, line) matches Ok(r2) ==> r2.wf() && r2.kind == r.kind && r2.latin1
            == r.latin1,
{
    if r.phase == Phase::Headers {
        if let Ok(Some((k, v))) = header_line_spec(line, r.latin1) {
            assert(r.headers.push((k, v)).drop_last() =~= r.headers);
        }
    }
}

/// In the start-line and header phases, a line that does not end with
/// `\r\n` ends the message as malformed input.
pub proof fn lemma_step_missing_crlf(r: ReaderView, line: Seq<u8>)
    requires
        r.phase != Phase::Body,
        !ends_with_crlf(line),
    ensures
        step_spec(r, line) matches Err(f) && is_malformed(f),
{
    lemma_missing_crlf_is_malformed(line, r.latin1);
}

proof fn lemma_run_body_length(s: Seq<u8>, pos: int, r: ReaderView)
    requires
        r.wf(),
    ensures
        run_from(s, pos, r) matches Ok(m) ==> m.body.len() == declared_length(m.headers),
    decreases s.len() - pos,
{
    if 0 <= pos < s.len() && r.phase != Phase::Body {
        let e = line_end(s, pos);
        if e > pos {
            lemma_step_wf(r, s.subrange(pos, e));
            if let Ok(r2) = step_spec(r, s.subrange(pos, e)) {
                lemma_run_body_length(s, e, r2);
            }
        }
    }
}

/// The body of a message read from `s` is exactly as long as its last
/// `Content-Length` header says, or empty where there is none, whatever
/// bytes follow it.
pub proof fn lemma_body_length(s: Seq<u8>, kind: MessageKind, latin1: bool)
    ensures
        read_spec(s, kind, latin1) matches Ok(m) ==> m.body.len() == declared_length(m.headers),
{
    lemma_run_body_length(s, 0, initial_reader(kind, latin1));
}

/// The field that a header line holds, if it is a well-formed one.
pub open spec fn header_field(line: Seq<u8>, latin1: bool) -> Option<(Seq<u8>, Seq<u8>)> {
    match header_line_spec(line, latin1) {
        Ok(Some(kv)) => Some(kv),
        _ => None,
    }
}

/// Whether each line is a well-formed header line, with a valid value
/// where it is `Content-Length`.
pub open spec fn valid_header_lines(lines: Seq<Seq<u8>>, latin1: bool) -> bool {
    forall|i: int|
        0 <= i < lines.len() ==> match #[trigger] header_field(lines[i], latin1) {
            Some(kv) => is_content_length_name(kv.0) ==> content_length_spec(kv.1) is Some,
            None => false,
        }
}

/// The reader after it has taken `lines` one by one.
pub open spec fn steps(r: ReaderView, lines: Seq<Seq<u8>>) -> Result<ReaderView, Failure>
    decreases lines.len(),
{
    if lines.len() == 0 {
        Ok(r)
    } else {
        match step_spec(r, lines[0]) {
            Err(f) => Err(f),
            Ok(r2) => steps(r2, lines.drop_first()),
        }
    }
}

/// Header lines taken in a row all land in the message, in the order of
/// the lines, duplicates included.
pub proof fn lemma_headers_in_order(r: ReaderView, lines: Seq<Seq<u8>>)
    requires
        r.phase == Phase::Headers,
        valid_header_lines(lines, r.latin1),
    ensures
        steps(r, lines) matches Ok(r2) && r2.phase == Phase::Headers && r2.head == r.head
            && r2.headers == r.headers + lines.map_values(
            |l: Seq<u8>| header_field(l, r.latin1)->Some_0,
        ),
    decreases lines.len(),
{
    let f = |l: Seq<u8>| header_field(l, r.latin1)->Some_0;
    if lines.len() == 0 {
        assert(r.headers + lines.map_values(f) =~= r.headers);
    } else {
        assert(header_field(lines[0], r.latin1) is Some);
        let r2 = step_spec(r, lines[0])->Ok_0;
        let rest = lines.drop_first();
        assert forall|i: int| 0 <= i < rest.len() implies match #[trigger] header_field(
            rest[i],
            r2.latin1,
        ) {
            Some(kv) => is_content_length_name(kv.0) ==> content_length_spec(kv.1) is Some,
            None => false,
        } by {
            assert(rest[i] == lines[i + 1]);
            assert(header_field(lines[i + 1], r.latin1) == header_field(rest[i], r.latin1));
        }
        lemma_headers_in_order(r2, rest);
        assert(r.headers + lines.map_values(f) =~= r2.headers + rest.map_values(f));
    }
}

} // verus!

verus! {

proof fn lemma_run_extend(s: Seq<u8>, x: Seq<u8>, pos: int, r: ReaderView)
    requires
        run_from(s, pos, r) is Ok,
    ensures
        run_from(s + x, pos, r) == run_from(s, pos, r),
    decreases s.len() - pos,
{
    let sx = s + x;
    if r.phase == Phase::Body {
        assert(pos + r.content_length <= s.len());
        assert(sx.subrange(pos, pos + r.content_length) =~= s.subrange(pos, pos + r.content_length));
    } else {
        let e = line_end(s, pos);
        let line = s.subrange(pos, e);
        if !ends_with_crlf(line) {
            lemma_step_missing_crlf(r, line);
        }
        lemma_span(s, pos, ByteClass::NotLf);
        assert(line[line.len() - 1] == s[e - 1]);
        lemma_span_extend(s, x, pos, ByteClass::NotLf);
        assert(sx.subrange(pos, e) =~= line);
        let r2 = step_spec(r, line)->Ok_0;
        lemma_run_extend(s, x, e, r2);
    }
}

/// Reading stops at the end of the declared body: once a message reads
/// from `s`, any bytes after `s` leave the result as it is.
pub proof fn lemma_trailing_bytes_ignored(s: Seq<u8>, x: Seq<u8>, kind: MessageKind, latin1: bool)
    requires
        read_spec(s, kind, latin1) is Ok,
    ensures
        read_spec(s + x, kind, latin1) == read_spec(s, kind, latin1),
{
    lemma_run_extend(s, x, 0, initial_reader(kind, latin1));
}

} // verus!

verus! {

/// Whether `l` is one line: it ends with its only `\n`.
pub open spec fn is_single_line(l: Seq<u8>) -> bool {
    l.len() > 0 && l.last() == 10u8 && forall|i: int| 0 <= i < l.len() - 1 ==> #[trigger] l[i] != 10u8
}

/// The lines `lines` one after the other.
pub open spec fn join_lines(lines: Seq<Seq<u8>>) -> Seq<u8>
    decreases lines.len(),
{
    if lines.len() == 0 {
        Seq::empty()
    } else {
        lines[0] + join_lines(lines.drop_first())
    }
}

proof fn lemma_line_end_at(p: Seq<u8>, l: Seq<u8>, q: Seq<u8>)
    requires
        is_single_line(l),
    ensures
        line_end(p + l + q, p.len() as int) == p.len() + l.len(),
{
    let s = p + l + q;
    let a = p + l.drop_last();
    let b = seq![10u8] + q;
    assert(s =~= a + b);
    assert forall|k: int| p.len() <= k < a.len() implies in_class(ByteClass::NotLf, #[trigger] a[k]) by {
        assert(a[k] == l[k - p.len()]);
    }
    lemma_span_concat(a, b, p.len() as int, ByteClass::NotLf);
}

proof fn lemma_header_single_line(l: Seq<u8>, latin1: bool)
    requires
        header_line_spec(l, latin1) matches Ok(Some(_)),
    ensures
        is_single_line(l),
{
    let k = span(l, 0, ByteClass::Token);
    let e = span(l, k + 2, value_class(latin1));
    lemma_span(l, 0, ByteClass::Token);
    lemma_span(l, k + 2, value_class(latin1));
    assert(l.subrange(e, e + 2)[0] == l[e]);
    assert(l.subrange(e, e + 2)[1] == l[e + 1]);
    assert forall|i: int| 0 <= i < l.len() - 1 implies #[trigger] l[i] != 10u8 by {
        if i < k {
            assert(in_class(ByteClass::Token, l[i]));
        } else if k + 2 <= i < e {
            assert(in_class(value_class(latin1), l[i]));
        }
    }
}

proof fn lemma_run_headers(s: Seq<u8>, pos: int, r: ReaderView, lines: Seq<Seq<u8>>)
    requires
        r.phase == Phase::Headers,
        r.wf(),
        valid_header_lines(lines, r.latin1),
        0 <= pos,
        pos + join_lines(lines).len() <= s.len(),
        s.subrange(pos, pos + join_lines(lines).len()) == join_lines(lines),
    ensures
        steps(r, lines) matches Ok(r2) && r2.wf() && r2.phase == Phase::Headers && r2.latin1
            == r.latin1 && r2.kind == r.kind && run_from(s, pos, r) == run_from(
            s,
            pos + join_lines(lines).len(),
            r2,
        ),
    decreases lines.len(),
{
    if lines.len() > 0 {
        let l = lines[0];
        let rest = lines.drop_first();
        assert(header_field(lines[0], r.latin1) is Some);
        lemma_header_single_line(l, r.latin1);
        assert(join_lines(lines) == l + join_lines(rest));
        let n = l.len() as int;
        assert(s.subrange(pos, pos + n) =~= l) by {
            assert forall|j: int| 0 <= j < n implies s.subrange(pos, pos + n)[j] == l[j] by {
                assert(s.subrange(pos, pos + join_lines(lines).len())[j] == (l + join_lines(rest))[j]);
            }
        }
        assert(s =~= s.subrange(0, pos) + l + s.subrange(pos + n, s.len() as int));
        lemma_line_end_at(s.subrange(0, pos), l, s.subrange(pos + n, s.len() as int));
        lemma_step_wf(r, l);
        let r2 = step_spec(r, l)->Ok_0;
        assert forall|i: int| 0 <= i < rest.len() implies match #[trigger] header_field(
            rest[i],
            r2.latin1,
        ) {
            Some(kv) => is_content_length_name(kv.0) ==> content_length_spec(kv.1) is Some,
            None => false,
        } by {
            assert(rest[i] == lines[i + 1]);
        }
        assert(s.subrange(pos + n, pos + n + join_lines(rest).len()) =~= join_lines(rest)) by {
            assert forall|j: int| 0 <= j < join_lines(rest).len() implies s.subrange(
                pos + n,
                pos + n + join_lines(rest).len(),
            )[j] == join_lines(rest)[j] by {
                assert(s.subrange(pos, pos + join_lines(lines).len())[n + j] == (l + join_lines(
                    rest,
                ))[n + j]);
            }
        }
        lemma_run_headers(s, pos + n, r2, rest);
    }
}

proof fn lemma_middle(a: Seq<u8>, b: Seq<u8>, c: Seq<u8>)
    ensures
        (a + b + c).subrange(a.len() as int, (a.len() + b.len()) as int) == b,
        line_end(a + b + c, a.len() as int) == a.len() + b.len() <== is_single_line(b),
{
    assert((a + b + c).subrange(a.len() as int, (a.len() + b.len()) as int) =~= b);
    if is_single_line(b) {
        lemma_line_end_at(a, b, c);
    }
}

proof fn lemma_run_one_line(s: Seq<u8>, pos: int, r: ReaderView, l: Seq<u8>)
    requires
        0 <= pos,
        pos + l.len() <= s.len(),
        s.subrange(pos, pos + l.len()) == l,
        line_end(s, pos) == pos + l.len(),
        l.len() > 0,
        r.phase != Phase::Body,
        step_spec(r, l) is Ok,
    ensures
        run_from(s, pos, r) == run_from(s, pos + l.len(), step_spec(r, l)->Ok_0),
{
}

proof fn lemma_run_body(s: Seq<u8>, pos: int, r: ReaderView, body: Seq<u8>)
    requires
        0 <= pos,
        r.phase == Phase::Body,
        r.head is Some,
        r.content_length == body.len(),
        pos + body.len() <= s.len(),
        s.subrange(pos, pos + body.len()) == body,
    ensures
        run_from(s, pos, r) == Ok::<MessageView, Failure>(
            MessageView {
                head: r.head->Some_0.0,
                version: r.head->Some_0.1,
                headers: r.headers,
                body,
            },
        ),
{
}

/// A whole message read from a stream: a well-formed start line, well-formed
/// header lines, the blank line, then a body as long as the headers
/// declare, whatever bytes follow. It reads as exactly that head, those
/// header fields in order with every duplicate, and that body.
#[verifier::rlimit(100)]
pub proof fn lemma_complete_message_reads(
    start: Seq<u8>,
    lines: Seq<Seq<u8>>,
    body: Seq<u8>,
    extra: Seq<u8>,
    kind: MessageKind,
    latin1: bool,
)
    requires
        start_line_spec(kind, start) is Ok,
        is_single_line(start),
        valid_header_lines(lines, latin1),
        declared_length(lines.map_values(|l: Seq<u8>| header_field(l, latin1)->Some_0))
            == body.len(),
    ensures
        read_spec(start + join_lines(lines) + crlf_bytes() + body + extra, kind, latin1) == Ok::<
            MessageView,
            Failure,
        >(
            MessageView {
                head: start_line_spec(kind, start)->Ok_0.0,
                version: start_line_spec(kind, start)->Ok_0.1,
                headers: lines.map_values(|l: Seq<u8>| header_field(l, latin1)->Some_0),
                body,
            },
        ),
{
    let f = join_lines(lines);
    let tail = body + extra;
    let s = start + f + crlf_bytes() + body + extra;
    let r0 = initial_reader(kind, latin1);
    let fields = lines.map_values(|l: Seq<u8>| header_field(l, latin1)->Some_0);
    let p1 = start.len() as int;
    let p2 = p1 + f.len();
    let p3 = p2 + 2;
    assert(s == Seq::<u8>::empty() + start + (f + crlf_bytes() + tail)) by {
        assert(s =~= Seq::<u8>::empty() + start + (f + crlf_bytes() + tail));
    }
    assert(s == start + f + (crlf_bytes() + tail)) by {
        assert(s =~= start + f + (crlf_bytes() + tail));
    }
    assert(s == (start + f) + crlf_bytes() + tail) by {
        assert(s =~= (start + f) + crlf_bytes() + tail);
    }
    assert(s == (start + f + crlf_bytes()) + body + extra);
    // the start line
    lemma_middle(Seq::<u8>::empty(), start, f + crlf_bytes() + tail);
    lemma_step_wf(r0, start);
    let r1 = step_spec(r0, start)->Ok_0;
    lemma_run_one_line(s, 0, r0, start);
    // the header lines
    assert(r1.headers =~= Seq::<(Seq<u8>, Seq<u8>)>::empty());
    lemma_middle(start, f, crlf_bytes() + tail);
    lemma_run_headers(s, p1, r1, lines);
    lemma_headers_in_order(r1, lines);
    let r2 = steps(r1, lines)->Ok_0;
    assert(r2.headers =~= fields);
    // the blank line
    assert(crlf_bytes().last() == 10u8);
    lemma_middle(start + f, crlf_bytes(), tail);
    lemma_run_one_line(s, p2, r2, crlf_bytes());
    let r3 = step_spec(r2, crlf_bytes())->Ok_0;
    // the body
    lemma_middle(start + f + crlf_bytes(), body, extra);
    lemma_run_body(s, p3, r3, body);
}

} // verus!
