//! Hands a message that was read to the `http` crate's request and
//! response types. Those types check the values once more by their own
//! rules (a method token, a URI, header names and values, the size of the
//! header map); a refusal there is reported apart from a grammar failure.
use vstd::prelude::*;

use crate::combinators::ascii_lower;
use crate::errors::{Failure, FlaskError};
use crate::grammar::HttpVersion;
use crate::reader::{headers_view, Head, HeadView, Message, MessageView};

verus! {

#[verifier::external_type_specification]
#[verifier::external_body]
#[verifier::reject_recursive_types(T)]
pub struct ExRequest<T>(http::Request<T>);

#[verifier::external_type_specification]
#[verifier::external_body]
#[verifier::reject_recursive_types(T)]
pub struct ExResponse<T>(http::Response<T>);

/// What `http::HeaderMap::get_all` yields from a request's headers for the
/// stored name `n`: that name's values, in the order they were appended.
pub uninterp spec fn request_values(r: http::Request<Vec<u8>>, n: Seq<u8>) -> Seq<Seq<u8>>;

/// How many distinct names a request's headers hold
/// (`http::HeaderMap::keys_len`).
pub uninterp spec fn request_name_count(r: http::Request<Vec<u8>>) -> nat;

/// The body that a request holds.
pub uninterp spec fn request_body(r: http::Request<Vec<u8>>) -> Seq<u8>;

/// The bytes of the method that a request holds.
pub uninterp spec fn request_method(r: http::Request<Vec<u8>>) -> Seq<u8>;

/// The version that a request holds.
pub uninterp spec fn request_version(r: http::Request<Vec<u8>>) -> HttpVersion;

/// What `http::HeaderMap::get_all` yields from a response's headers for the
/// stored name `n`: that name's values, in the order they were appended.
pub uninterp spec fn response_values(r: http::Response<Vec<u8>>, n: Seq<u8>) -> Seq<Seq<u8>>;

/// How many distinct names a response's headers hold
/// (`http::HeaderMap::keys_len`).
pub uninterp spec fn response_name_count(r: http::Response<Vec<u8>>) -> nat;

/// The body that a response holds.
pub uninterp spec fn response_body(r: http::Response<Vec<u8>>) -> Seq<u8>;

/// The status code that a response holds.
pub uninterp spec fn response_status(r: http::Response<Vec<u8>>) -> u16;

/// The version that a response holds.
pub uninterp spec fn response_version(r: http::Response<Vec<u8>>) -> HttpVersion;

/// Whether `http::Method::from_bytes` accepts the bytes.
pub uninterp spec fn method_accepted(m: Seq<u8>) -> bool;

/// Whether `http::Uri::try_from` accepts the bytes.
pub uninterp spec fn uri_accepted(t: Seq<u8>) -> bool;

/// Whether `http::HeaderName::from_bytes` accepts the bytes.
pub uninterp spec fn header_name_accepted(k: Seq<u8>) -> bool;

/// `http::HeaderValue::from_bytes` accepts tab and every byte from 32 up
/// but 127.
pub open spec fn header_value_accepted(v: Seq<u8>) -> bool {
    forall|i: int| 0 <= i < v.len() ==> (#[trigger] v[i] >= 32 && v[i] != 127) || v[i] == 9
}

/// Below this many distinct names a `http::HeaderMap` always has room for
/// one more field: its table reaches its largest size only past it.
pub open spec fn header_name_room() -> nat {
    6554
}

/// A header name as `http::HeaderName` stores it: in lower case.
pub open spec fn stored_name(k: Seq<u8>) -> Seq<u8> {
    k.map_values(|b: u8| ascii_lower(b))
}

/// The values of the fields `hs` whose stored name is `n`, in order.
pub open spec fn values_named(hs: Seq<(Seq<u8>, Seq<u8>)>, n: Seq<u8>) -> Seq<Seq<u8>>
    decreases hs.len(),
{
    if hs.len() == 0 {
        Seq::empty()
    } else if stored_name(hs.last().0) == n {
        values_named(hs.drop_last(), n).push(hs.last().1)
    } else {
        values_named(hs.drop_last(), n)
    }
}

/// Whether the header types take the name and the value of every field.
pub open spec fn fields_accepted(hs: Seq<(Seq<u8>, Seq<u8>)>) -> bool {
    forall|i: int|
        #![trigger hs[i]]
        0 <= i < hs.len() ==> header_name_accepted(hs[i].0) && header_value_accepted(hs[i].1)
}

/// Whether the request type takes each value of a request message.
pub open spec fn request_accepted(m: MessageView) -> bool {
    match m.head {
        HeadView::Request { method, target } => method_accepted(method) && uri_accepted(target)
            && fields_accepted(m.headers),
        HeadView::Response { .. } => false,
    }
}

/// Whether the response type takes each value of a response message.
pub open spec fn response_accepted(m: MessageView) -> bool {
    match m.head {
        HeadView::Response { status } => 100 <= status <= 999 && fields_accepted(m.headers),
        HeadView::Request { .. } => false,
    }
}

/// Relies on `http::Request::new`: a request with the body and no header.
#[verifier::external_body]
fn new_request(body: Vec<u8>) -> (r: http::Request<Vec<u8>>)
    ensures
        forall|n: Seq<u8>| #[trigger] request_values(r, n) == Seq::<Seq<u8>>::empty(),
        request_name_count(r) == 0,
        request_body(r) == body@,
{
    http::Request::new(body)
}

/// Relies on `http::Request::method_mut`, given what
/// `http::Method::from_bytes` makes of `m`; the nine standard methods are
/// always accepted.
#[verifier::external_body]
fn set_request_method(r: &mut http::Request<Vec<u8>>, m: &[u8]) -> (ok: bool)
    ensures
        ok == method_accepted(m@),
        crate::combinators::method_names().contains(m@) ==> ok,
        ok ==> request_method(*final(r)) == m@,
        forall|n: Seq<u8>| #[trigger] request_values(*final(r), n) == request_values(*old(r), n),
        request_name_count(*final(r)) == request_name_count(*old(r)),
        request_body(*final(r)) == request_body(*old(r)),
{
    match http::Method::from_bytes(m) {
        Ok(method) => {
            *r.method_mut() = method;
            true
        },
        Err(_) => false,
    }
}

/// Relies on `http::Request::uri_mut`, given what `http::Uri::try_from`
/// makes of `t`.
#[verifier::external_body]
fn set_request_uri(r: &mut http::Request<Vec<u8>>, t: &[u8]) -> (ok: bool)
    ensures
        ok == uri_accepted(t@),
        request_method(*final(r)) == request_method(*old(r)),
        forall|n: Seq<u8>| #[trigger] request_values(*final(r), n) == request_values(*old(r), n),
        request_name_count(*final(r)) == request_name_count(*old(r)),
        request_body(*final(r)) == request_body(*old(r)),
{
    match http::Uri::try_from(t) {
        Ok(uri) => {
            *r.uri_mut() = uri;
            true
        },
        Err(_) => false,
    }
}

/// Relies on `http::Request::version_mut`, given the `http::Version` that
/// stands for `v`.
#[verifier::external_body]
fn set_request_version(r: &mut http::Request<Vec<u8>>, v: HttpVersion)
    ensures
        request_version(*final(r)) == v,
        request_method(*final(r)) == request_method(*old(r)),
        forall|n: Seq<u8>| #[trigger] request_values(*final(r), n) == request_values(*old(r), n),
        request_name_count(*final(r)) == request_name_count(*old(r)),
        request_body(*final(r)) == request_body(*old(r)),
{
    *r.version_mut() = match v {
        HttpVersion::Http09 => http::Version::HTTP_09,
        HttpVersion::Http10 => http::Version::HTTP_10,
        HttpVersion::Http11 => http::Version::HTTP_11,
        HttpVersion::Http20 => http::Version::HTTP_2,
        HttpVersion::Http30 => http::Version::HTTP_3,
    };
}

/// Relies on `http::HeaderMap::try_append` on the request's headers, given
/// what `http::HeaderName::from_bytes` and `http::HeaderValue::from_bytes`
/// make of `k` and `v`. The value goes after the earlier values of its name;
/// other names keep theirs. A refused name or value fails; so may a map at
/// its largest size, which is only reached past `header_name_room` names.
#[verifier::external_body]
fn append_request_field(r: &mut http::Request<Vec<u8>>, k: &[u8], v: &[u8]) -> (ok: bool)
    ensures
        !(header_name_accepted(k@) && header_value_accepted(v@)) ==> !ok,
        header_name_accepted(k@) && header_value_accepted(v@) && request_name_count(*old(r))
            < header_name_room() ==> ok,
        ok ==> request_values(*final(r), stored_name(k@)) == request_values(*old(r), stored_name(k@)).push(v@),
        ok ==> request_name_count(*final(r)) <= request_name_count(*old(r)) + 1,
        !ok ==> request_name_count(*final(r)) == request_name_count(*old(r)),
        forall|n: Seq<u8>|
            (!ok || n != stored_name(k@)) ==> #[trigger] request_values(*final(r), n) == request_values(*old(r), n),
        request_method(*final(r)) == request_method(*old(r)),
        request_version(*final(r)) == request_version(*old(r)),
        request_body(*final(r)) == request_body(*old(r)),
{
    match (http::HeaderName::from_bytes(k), http::HeaderValue::from_bytes(v)) {
        (Ok(name), Ok(value)) => r.headers_mut().try_append(name, value).is_ok(),
        _ => false,
    }
}

/// Relies on `http::Response::new`: a response with the body and no header.
#[verifier::external_body]
fn new_response(body: Vec<u8>) -> (r: http::Response<Vec<u8>>)
    ensures
        forall|n: Seq<u8>| #[trigger] response_values(r, n) == Seq::<Seq<u8>>::empty(),
        response_name_count(r) == 0,
        response_body(r) == body@,
{
    http::Response::new(body)
}

/// Relies on `http::Response::status_mut`, given what
/// `http::StatusCode::from_u16` makes of `code`: it accepts 100 to 999.
#[verifier::external_body]
fn set_response_status(r: &mut http::Response<Vec<u8>>, code: u16) -> (ok: bool)
    ensures
        ok == (100 <= code <= 999),
        ok ==> response_status(*final(r)) == code,
        forall|n: Seq<u8>| #[trigger] response_values(*final(r), n) == response_values(*old(r), n),
        response_name_count(*final(r)) == response_name_count(*old(r)),
        response_body(*final(r)) == response_body(*old(r)),
{
    match http::StatusCode::from_u16(code) {
        Ok(status) => {
            *r.status_mut() = status;
            true
        },
        Err(_) => false,
    }
}

/// Relies on `http::Response::version_mut`, given the `http::Version` that
/// stands for `v`.
#[verifier::external_body]
fn set_response_version(r: &mut http::Response<Vec<u8>>, v: HttpVersion)
    ensures
        response_version(*final(r)) == v,
        response_status(*final(r)) == response_status(*old(r)),
        forall|n: Seq<u8>| #[trigger] response_values(*final(r), n) == response_values(*old(r), n),
        response_name_count(*final(r)) == response_name_count(*old(r)),
        response_body(*final(r)) == response_body(*old(r)),
{
    *r.version_mut() = match v {
        HttpVersion::Http09 => http::Version::HTTP_09,
        HttpVersion::Http10 => http::Version::HTTP_10,
        HttpVersion::Http11 => http::Version::HTTP_11,
        HttpVersion::Http20 => http::Version::HTTP_2,
        HttpVersion::Http30 => http::Version::HTTP_3,
    };
}

/// Relies on `http::HeaderMap::try_append` on the response's headers, given
/// what `http::HeaderName::from_bytes` and `http::HeaderValue::from_bytes`
/// make of `k` and `v`. The value goes after the earlier values of its name;
/// other names keep theirs. A refused name or value fails; so may a map at
/// its largest size, which is only reached past `header_name_room` names.
#[verifier::external_body]
fn append_response_field(r: &mut http::Response<Vec<u8>>, k: &[u8], v: &[u8]) -> (ok: bool)
    ensures
        !(header_name_accepted(k@) && header_value_accepted(v@)) ==> !ok,
        header_name_accepted(k@) && header_value_accepted(v@) && response_name_count(*old(r))
            < header_name_room() ==> ok,
        ok ==> response_values(*final(r), stored_name(k@)) == response_values(*old(r), stored_name(k@)).push(v@),
        ok ==> response_name_count(*final(r)) <= response_name_count(*old(r)) + 1,
        !ok ==> response_name_count(*final(r)) == response_name_count(*old(r)),
        forall|n: Seq<u8>|
            (!ok || n != stored_name(k@)) ==> #[trigger] response_values(*final(r), n) == response_values(*old(r), n),
        response_status(*final(r)) == response_status(*old(r)),
        response_version(*final(r)) == response_version(*old(r)),
        response_body(*final(r)) == response_body(*old(r)),
{
    match (http::HeaderName::from_bytes(k), http::HeaderValue::from_bytes(v)) {
        (Ok(name), Ok(value)) => r.headers_mut().try_append(name, value).is_ok(),
        _ => false,
    }
}

proof fn lemma_values_step(hs: Seq<(Seq<u8>, Seq<u8>)>, i: int, n: Seq<u8>)
    requires
        0 <= i < hs.len(),
    ensures
        values_named(hs.subrange(0, i + 1), n) == if stored_name(hs[i].0) == n {
            values_named(hs.subrange(0, i), n).push(hs[i].1)
        } else {
            values_named(hs.subrange(0, i), n)
        },
{
    assert(hs.subrange(0, i + 1).drop_last() =~= hs.subrange(0, i));
    assert(hs.subrange(0, i + 1).last() == hs[i]);
}

proof fn lemma_accepted_step(hs: Seq<(Seq<u8>, Seq<u8>)>, i: int)
    requires
        0 <= i < hs.len(),
        fields_accepted(hs.subrange(0, i)),
        header_name_accepted(hs[i].0),
        header_value_accepted(hs[i].1),
    ensures
        fields_accepted(hs.subrange(0, i + 1)),
{
    let p = hs.subrange(0, i + 1);
    assert forall|j: int| #![trigger p[j]] 0 <= j < p.len() implies header_name_accepted(p[j].0)
        && header_value_accepted(p[j].1) by {
        if j < i {
            assert(p[j] == hs.subrange(0, i)[j]);
        }
    }
}

/// Builds the `http` request for a request message: method, target,
/// version, each header field in order, then the body. A value that the
/// request type refuses makes it fail, reported as the request type's
/// refusal; with every value taken and fewer fields than
/// `header_name_room`, it succeeds. The request it builds yields, for each
/// header name, the message's values of that name in message order.
pub fn build_request(m: Message) -> (r: Result<http::Request<Vec<u8>>, FlaskError>)
    requires
        m@.head is Request,
    ensures
        !request_accepted(m@) ==> r is Err,
        request_accepted(m@) && m@.headers.len() < header_name_room() ==> r is Ok,
        r matches Err(e) ==> e.reports(Failure::RequestRejected),
        r matches Ok(req) ==> {
            &&& request_method(req) == m@.head->Request_method
            &&& request_version(req) == m@.version
            &&& request_body(req) == m@.body
            &&& forall|n: Seq<u8>| #[trigger] request_values(req, n) == values_named(m@.headers, n)
        },
{
    let ghost mv = m@;
    let Message { head, version, headers, body } = m;
    let ghost hs = headers_view(headers@);
    assert(mv.headers == hs);
    let mut req = new_request(body);
    let (method, target) = match head {
        Head::Request { method, target } => (method, target),
        Head::Response { .. } => {
            return Err(Failure::RequestRejected.to_error());
        },
    };
    if !set_request_method(&mut req, method.as_slice()) {
        return Err(Failure::RequestRejected.to_error());
    }
    if !set_request_uri(&mut req, target.as_slice()) {
        return Err(Failure::RequestRejected.to_error());
    }
    set_request_version(&mut req, version);
    assert(hs.subrange(0, 0) =~= Seq::<(Seq<u8>, Seq<u8>)>::empty());
    let mut i: usize = 0;
    while i < headers.len()
        invariant
            i <= headers@.len(),
            hs == headers_view(headers@),
            mv.headers == hs,
            mv == m@,
            fields_accepted(hs.subrange(0, i as int)),
            forall|n: Seq<u8>| #[trigger] request_values(req, n) == values_named(hs.subrange(0, i as int), n),
            request_name_count(req) <= i,
            request_method(req) == method@,
            request_version(req) == mv.version,
            request_body(req) == mv.body,
            method_accepted(method@),
            uri_accepted(target@),
        decreases headers@.len() - i,
    {
        proof {
            assert(hs[i as int] == headers@[i as int]@);
        }
        let ok = append_request_field(&mut req, headers[i].key.as_slice(), headers[i].value.as_slice());
        if !ok {
            proof {
                if fields_accepted(hs) {
                    assert(header_name_accepted(hs[i as int].0));
                }
            }
            return Err(Failure::RequestRejected.to_error());
        }
        proof {
            lemma_accepted_step(hs, i as int);
            assert forall|n: Seq<u8>| #[trigger] request_values(req, n) == values_named(
                hs.subrange(0, i + 1),
                n,
            ) by {
                lemma_values_step(hs, i as int, n);
            }
        }
        i = i + 1;
    }
    assert(hs.subrange(0, i as int) =~= hs);
    Ok(req)
}

/// Builds the `http` response for a response message: status, version,
/// each header field in order, then the body. A value that the response
/// type refuses makes it fail, reported as the response type's refusal;
/// with every value taken and fewer fields than `header_name_room`, it
/// succeeds. The response it builds yields, for each header name, the
/// message's values of that name in message order.
pub fn build_response(m: Message) -> (r: Result<http::Response<Vec<u8>>, FlaskError>)
    requires
        m@.head is Response,
    ensures
        !response_accepted(m@) ==> r is Err,
        response_accepted(m@) && m@.headers.len() < header_name_room() ==> r is Ok,
        r matches Err(e) ==> e.reports(Failure::ResponseRejected),
        r matches Ok(resp) ==> {
            &&& response_status(resp) == m@.head->Response_status
            &&& response_version(resp) == m@.version
            &&& response_body(resp) == m@.body
            &&& forall|n: Seq<u8>| #[trigger] response_values(resp, n) == values_named(m@.headers, n)
        },
{
    let ghost mv = m@;
    let Message { head, version, headers, body } = m;
    let ghost hs = headers_view(headers@);
    assert(mv.headers == hs);
    let mut resp = new_response(body);
    let status = match head {
        Head::Response { status } => status,
        Head::Request { .. } => {
            return Err(Failure::ResponseRejected.to_error());
        },
    };
    if !set_response_status(&mut resp, status) {
        return Err(Failure::ResponseRejected.to_error());
    }
    set_response_version(&mut resp, version);
    assert(hs.subrange(0, 0) =~= Seq::<(Seq<u8>, Seq<u8>)>::empty());
    let mut i: usize = 0;
    while i < headers.len()
        invariant
            i <= headers@.len(),
            hs == headers_view(headers@),
            mv.headers == hs,
            mv == m@,
            fields_accepted(hs.subrange(0, i as int)),
            forall|n: Seq<u8>| #[trigger] response_values(resp, n) == values_named(hs.subrange(0, i as int), n),
            response_name_count(resp) <= i,
            response_status(resp) == status,
            response_version(resp) == mv.version,
            response_body(resp) == mv.body,
            100 <= status <= 999,
        decreases headers@.len() - i,
    {
        proof {
            assert(hs[i as int] == headers@[i as int]@);
        }
        let ok = append_response_field(&mut resp, headers[i].key.as_slice(), headers[i].value.as_slice());
        if !ok {
            proof {
                if fields_accepted(hs) {
                    assert(header_name_accepted(hs[i as int].0));
                }
            }
            return Err(Failure::ResponseRejected.to_error());
        }
        proof {
            lemma_accepted_step(hs, i as int);
            assert forall|n: Seq<u8>| #[trigger] response_values(resp, n) == values_named(
                hs.subrange(0, i + 1),
                n,
            ) by {
                lemma_values_step(hs, i as int, n);
            }
        }
        i = i + 1;
    }
    assert(hs.subrange(0, i as int) =~= hs);
    Ok(resp)
}

} // verus!
