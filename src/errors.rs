//! The error taxonomy: why a message could not be read, and the
//! transport-level outcome that each reason maps to.
use vstd::prelude::*;

use crate::grammar::HttpVersion;
use vstd::string::StringExecFns;
use vstd::utf8::{decode_utf8, valid_utf8};

verus! {

/// An error with the transport-level outcome it calls for and a description.
#[derive(Debug)]
pub enum FlaskError {
    /// 400
    BadRequest(String),
    /// 499
    ClientClosedRequest(String),
    /// 500
    InternalServerError(String),
    /// 502
    BadGateway(String),
    /// 501
    NotImplemented(String),
}

/// The transport-level outcome of an error, without its description.
#[derive(Clone, Copy, Debug, PartialEq, Eq, Structural)]
pub enum Outcome {
    BadRequest,
    ClientClosedRequest,
    InternalServerError,
    BadGateway,
    NotImplemented,
}

impl FlaskError {
    pub open spec fn outcome(&self) -> Outcome {
        match self {
            FlaskError::BadRequest(_) => Outcome::BadRequest,
            FlaskError::ClientClosedRequest(_) => Outcome::ClientClosedRequest,
            FlaskError::InternalServerError(_) => Outcome::InternalServerError,
            FlaskError::BadGateway(_) => Outcome::BadGateway,
            FlaskError::NotImplemented(_) => Outcome::NotImplemented,
        }
    }

    pub open spec fn message(&self) -> Seq<char> {
        match self {
            FlaskError::BadRequest(s) => s@,
            FlaskError::ClientClosedRequest(s) => s@,
            FlaskError::InternalServerError(s) => s@,
            FlaskError::BadGateway(s) => s@,
            FlaskError::NotImplemented(s) => s@,
        }
    }

    /// Whether this error is the one that `f` is reported as.
    pub open spec fn reports(&self, f: Failure) -> bool {
        self.outcome() == failure_outcome(f) && self.message() == failure_message(f)
    }

    /// The description carried by the error.
    pub fn get_msg(&self) -> (r: &str)
        ensures
            r@ == self.message(),
    {
        match self {
            FlaskError::BadRequest(s) => s.as_str(),
            FlaskError::ClientClosedRequest(s) => s.as_str(),
            FlaskError::InternalServerError(s) => s.as_str(),
            FlaskError::BadGateway(s) => s.as_str(),
            FlaskError::NotImplemented(s) => s.as_str(),
        }
    }

    /// The description, as an owned string.
    pub fn to_string(&self) -> (r: String)
        ensures
            r@ == self.message(),
    {
        self.get_msg().to_owned()
    }
}

/// Whether `r` is what `m` describes: the same value, or the error that
/// reports the same failure.
pub open spec fn agrees<T: View>(r: Result<T, FlaskError>, m: Result<T::V, Failure>) -> bool {
    match (r, m) {
        (Ok(x), Ok(y)) => x@ == y,
        (Err(e), Err(f)) => e.reports(f),
        _ => false,
    }
}

/// The specific reason why reading a message failed.
pub enum Failure {
    RequestMissingMethod,
    RequestMissingSpaceBeforeTarget,
    RequestBadTarget,
    RequestMissingSpaceAfterTarget,
    RequestBadVersion,
    RequestNoCrlf,
    ResponseBadVersion,
    ResponseNoSpaceBeforeStatus,
    ResponseNoStatusCode,
    ResponseNoSpaceAfterStatus,
    ResponseBadStatusMessage,
    ResponseNoCrlf,
    HeaderMissingName,
    HeaderMissingColon,
    HeaderMissingSpace,
    HeaderNoCrlf,
    /// A version outside the recognised set; it holds the version bytes.
    UnknownVersion(Seq<u8>),
    /// A recognised version that is not implemented.
    UnsupportedVersion(HttpVersion),
    /// A status code that the message type does not accept.
    InvalidStatusCode,
    /// A `Content-Length` value that is not a non-negative integer that
    /// fits; it holds the value.
    InvalidContentLength(Seq<u8>),
    /// The transport failed or closed before the header block was complete.
    HeaderTransport,
    /// The transport failed or closed before the whole body arrived.
    BodyTransport,
    /// The request type refused values that the grammar accepted.
    RequestRejected,
    /// The response type refused values that the grammar accepted.
    ResponseRejected,
}

/// Whether `f` is a violation of the line grammar.
pub open spec fn is_malformed(f: Failure) -> bool {
    match f {
        Failure::RequestMissingMethod | Failure::RequestMissingSpaceBeforeTarget
        | Failure::RequestBadTarget | Failure::RequestMissingSpaceAfterTarget
        | Failure::RequestBadVersion | Failure::RequestNoCrlf | Failure::ResponseBadVersion
        | Failure::ResponseNoSpaceBeforeStatus | Failure::ResponseNoStatusCode
        | Failure::ResponseNoSpaceAfterStatus | Failure::ResponseBadStatusMessage
        | Failure::ResponseNoCrlf | Failure::HeaderMissingName | Failure::HeaderMissingColon
        | Failure::HeaderMissingSpace | Failure::HeaderNoCrlf => true,
        _ => false,
    }
}

pub open spec fn failure_outcome(f: Failure) -> Outcome {
    match f {
        Failure::UnsupportedVersion(_) => Outcome::NotImplemented,
        Failure::HeaderTransport => Outcome::ClientClosedRequest,
        Failure::RequestRejected => Outcome::InternalServerError,
        Failure::ResponseRejected => Outcome::BadGateway,
        _ => Outcome::BadRequest,
    }
}

pub open spec fn failure_message(f: Failure) -> Seq<char> {
    match f {
        Failure::RequestMissingMethod => "Malformed Request Line: missing HTTP method"@,
        Failure::RequestMissingSpaceBeforeTarget =>
            "Malformed Request Line: missing space before target URL"@,
        Failure::RequestBadTarget => "Malformed Request Line: error parsing target URL"@,
        Failure::RequestMissingSpaceAfterTarget =>
            "Malformed Request Line: missing space after target URL"@,
        Failure::RequestBadVersion => "Malformed Request Line: bad http version"@,
        Failure::RequestNoCrlf => "Malformed Request Line: no terminating CRLF"@,
        Failure::ResponseBadVersion => "Malformed Response Line: bad http version"@,
        Failure::ResponseNoSpaceBeforeStatus =>
            "Malformed Response Line: no spaces before status code"@,
        Failure::ResponseNoStatusCode => "Malformed Response Line: no status code"@,
        Failure::ResponseNoSpaceAfterStatus =>
            "Malformed Response Line: no spaces after status code"@,
        Failure::ResponseBadStatusMessage => "Malformed Response Line: error parsing status message"@,
        Failure::ResponseNoCrlf => "Malformed Response Line: no terminating CRLF"@,
        Failure::HeaderMissingName => "Malformed Header: missing header name"@,
        Failure::HeaderMissingColon => "Malformed Header: missing colon"@,
        Failure::HeaderMissingSpace => "Malformed Header: missing space after colon"@,
        Failure::HeaderNoCrlf => "Malformed Header: no terminating CRLF"@,
        Failure::UnknownVersion(v) => "Unknown HTTP version "@ + lossy_text(v),
        Failure::UnsupportedVersion(v) => match v {
            HttpVersion::Http09 => "Unsupported HTTP version 0.9"@,
            HttpVersion::Http10 => "Unsupported HTTP version 1.0"@,
            HttpVersion::Http11 => "Unsupported HTTP version 1.1"@,
            HttpVersion::Http20 => "Unsupported HTTP version 2.0"@,
            HttpVersion::Http30 => "Unsupported HTTP version 3.0"@,
        },
        Failure::InvalidStatusCode => "Invalid status code"@,
        Failure::InvalidContentLength(v) => "Invalid Content-Length: "@ + lossy_text(v),
        Failure::HeaderTransport => "Error reading buffered line"@,
        Failure::BodyTransport => "Error reading message body"@,
        Failure::RequestRejected => "Request rejected by the message type"@,
        Failure::ResponseRejected => "Response rejected by the message type"@,
    }
}

fn failure_text(f: &Failure) -> (r: &'static str)
    requires
        !(f is UnknownVersion),
        !(f is InvalidContentLength),
    ensures
        r@ == failure_message(*f),
{
    match f {
        Failure::RequestMissingMethod => "Malformed Request Line: missing HTTP method",
        Failure::RequestMissingSpaceBeforeTarget =>
            "Malformed Request Line: missing space before target URL",
        Failure::RequestBadTarget => "Malformed Request Line: error parsing target URL",
        Failure::RequestMissingSpaceAfterTarget =>
            "Malformed Request Line: missing space after target URL",
        Failure::RequestBadVersion => "Malformed Request Line: bad http version",
        Failure::RequestNoCrlf => "Malformed Request Line: no terminating CRLF",
        Failure::ResponseBadVersion => "Malformed Response Line: bad http version",
        Failure::ResponseNoSpaceBeforeStatus =>
            "Malformed Response Line: no spaces before status code",
        Failure::ResponseNoStatusCode => "Malformed Response Line: no status code",
        Failure::ResponseNoSpaceAfterStatus =>
            "Malformed Response Line: no spaces after status code",
        Failure::ResponseBadStatusMessage => "Malformed Response Line: error parsing status message",
        Failure::ResponseNoCrlf => "Malformed Response Line: no terminating CRLF",
        Failure::HeaderMissingName => "Malformed Header: missing header name",
        Failure::HeaderMissingColon => "Malformed Header: missing colon",
        Failure::HeaderMissingSpace => "Malformed Header: missing space after colon",
        Failure::HeaderNoCrlf => "Malformed Header: no terminating CRLF",
        Failure::UnknownVersion(_) => "",
        Failure::UnsupportedVersion(v) => match v {
            HttpVersion::Http09 => "Unsupported HTTP version 0.9",
            HttpVersion::Http10 => "Unsupported HTTP version 1.0",
            HttpVersion::Http11 => "Unsupported HTTP version 1.1",
            HttpVersion::Http20 => "Unsupported HTTP version 2.0",
            HttpVersion::Http30 => "Unsupported HTTP version 3.0",
        },
        Failure::InvalidStatusCode => "Invalid status code",
        Failure::InvalidContentLength(_) => "",
        Failure::HeaderTransport => "Error reading buffered line",
        Failure::BodyTransport => "Error reading message body",
        Failure::RequestRejected => "Request rejected by the message type",
        Failure::ResponseRejected => "Response rejected by the message type",
    }
}

impl Failure {
    /// The error that this failure is reported as; a failure that holds
    /// bytes has a function of its own that takes them.
    pub fn to_error(self) -> (e: FlaskError)
        requires
            !(self is UnknownVersion),
            !(self is InvalidContentLength),
        ensures
            e.reports(self),
    {
        let msg = failure_text(&self).to_owned();
        match self {
            Failure::UnsupportedVersion(_) => FlaskError::NotImplemented(msg),
            Failure::HeaderTransport => FlaskError::ClientClosedRequest(msg),
            Failure::RequestRejected => FlaskError::InternalServerError(msg),
            Failure::ResponseRejected => FlaskError::BadGateway(msg),
            _ => FlaskError::BadRequest(msg),
        }
    }
}

/// What `String::from_utf8_lossy` makes of the bytes `b`.
pub uninterp spec fn lossy_text(b: Seq<u8>) -> Seq<char>;

/// Relies on `String::from_utf8_lossy`: the bytes read as UTF-8, each
/// invalid sequence replaced by U+FFFD; bytes that are valid UTF-8 read as
/// exactly the text they encode.
#[verifier::external_body]
fn text_of(b: &[u8]) -> (r: String)
    ensures
        r@ == lossy_text(b@),
        valid_utf8(b@) ==> r@ == decode_utf8(b@),
{
    String::from_utf8_lossy(b).into_owned()
}

/// The error for a version outside the recognised set, naming it.
pub fn unknown_version_error(v: &[u8]) -> (e: FlaskError)
    ensures
        e.reports(Failure::UnknownVersion(v@)),
{
    let mut msg = "Unknown HTTP version ".to_owned();
    let text = text_of(v);
    msg.append(text.as_str());
    FlaskError::BadRequest(msg)
}

/// The error for a `Content-Length` value that is refused, naming it.
pub fn invalid_content_length_error(v: &[u8]) -> (e: FlaskError)
    ensures
        e.reports(Failure::InvalidContentLength(v@)),
{
    let mut msg = "Invalid Content-Length: ".to_owned();
    let text = text_of(v);
    msg.append(text.as_str());
    FlaskError::BadRequest(msg)
}

} // verus!
