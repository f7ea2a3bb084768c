use flask::{build_request, build_response, read_message, FlaskError, MessageKind};

#[test]
fn request_is_handed_to_the_http_type() {
    let m = read_message(
        "DELETE /first/second?aaa=bbb HTTP/1.1\r\nfluffy: bunny\r\nwet: dog\r\nwet: cat\r\nContent-Length: 4\r\n\r\nbody"
            .as_bytes(),
        MessageKind::Request,
        false,
    )
    .unwrap();
    let req = build_request(m).unwrap();
    assert_eq!(req.method(), http::Method::DELETE);
    assert_eq!(req.uri().path(), "/first/second");
    assert_eq!(req.uri().query(), Some("aaa=bbb"));
    assert_eq!(req.version(), http::Version::HTTP_11);
    assert_eq!(req.headers()["fluffy"], "bunny");
    let wet: Vec<&http::HeaderValue> = req.headers().get_all("WET").iter().collect();
    assert_eq!(wet, vec!["dog", "cat"]);
    assert_eq!(req.headers()[http::header::CONTENT_LENGTH], "4");
    assert_eq!(req.body(), &"body".as_bytes().to_vec());
}

#[test]
fn response_is_handed_to_the_http_type() {
    let m = read_message(
        "HTTP/1.1 501 Not Implemented\r\nGoLd: fish\r\nContent-Length: 0\r\n\r\n".as_bytes(),
        MessageKind::Response,
        false,
    )
    .unwrap();
    let resp = build_response(m).unwrap();
    assert_eq!(resp.status(), http::StatusCode::NOT_IMPLEMENTED);
    assert_eq!(resp.version(), http::Version::HTTP_11);
    assert_eq!(resp.headers()["gold"], "fish");
    assert!(resp.body().is_empty());
}

#[test]
fn target_refused_by_the_request_type() {
    let m = read_message("GET http://[::1 HTTP/1.1\r\n\r\n".as_bytes(), MessageKind::Request, false)
        .unwrap();
    let err = build_request(m).err().unwrap();
    assert!(matches!(err, FlaskError::InternalServerError(_)));
    assert_eq!(err.get_msg(), "Request rejected by the message type");
}

#[test]
fn latin1_header_value_reaches_the_response_type() {
    let line = [
        "HTTP/1.1 200 OK\r\nX: a".as_bytes(),
        &[0xe9],
        "\r\n\r\n".as_bytes(),
    ]
    .concat();
    let m = read_message(&line, MessageKind::Response, true).unwrap();
    let resp = build_response(m).unwrap();
    assert_eq!(resp.headers()["x"].as_bytes(), &[b'a', 0xe9]);
}

#[test]
fn post_request_scenario_on_the_http_type() {
    let m = read_message(
        "POST /foo/bar HTTP/1.1\r\nContent-Length: 5\r\n\r\nhello".as_bytes(),
        MessageKind::Request,
        false,
    )
    .unwrap();
    let req = build_request(m).unwrap();
    assert_eq!(req.method(), http::Method::POST);
    assert_eq!(req.uri(), "/foo/bar");
    assert_eq!(req.version(), http::Version::HTTP_11);
    assert_eq!(req.headers().len(), 1);
    assert_eq!(req.headers()["content-length"], "5");
    assert_eq!(req.body(), &"hello".as_bytes().to_vec());
}

#[test]
fn ok_response_scenario_on_the_http_type() {
    let m = read_message(
        "HTTP/1.1 200 OK\r\nContent-Length: 12\r\n\r\nHello World!trailing".as_bytes(),
        MessageKind::Response,
        false,
    )
    .unwrap();
    let resp = build_response(m).unwrap();
    assert_eq!(resp.status(), http::StatusCode::OK);
    assert_eq!(resp.version(), http::Version::HTTP_11);
    assert_eq!(resp.headers().len(), 1);
    assert_eq!(resp.headers()["content-length"], "12");
    assert_eq!(resp.body(), &"Hello World!".as_bytes().to_vec());
}

#[test]
fn response_headers_found_in_any_case() {
    let m = read_message(
        "HTTP/1.1 200 OK\r\npuppy: dog\r\nGoLd: fish\r\nContent-Length: 18\r\n\r\nit's a small world"
            .as_bytes(),
        MessageKind::Response,
        false,
    )
    .unwrap();
    let resp = build_response(m).unwrap();
    assert_eq!(resp.headers()["puppy"], "dog");
    assert_eq!(resp.headers()["gold"], "fish");
    assert_eq!(resp.headers()["content-length"], "18");
    assert_eq!(resp.body(), &"it's a small world".as_bytes().to_vec());
}

#[test]
fn interleaved_names_keep_their_own_order() {
    let m = read_message(
        "GET / HTTP/1.1\r\nA: 1\r\nB: 2\r\na: 3\r\nB: 4\r\n\r\n".as_bytes(),
        MessageKind::Request,
        false,
    )
    .unwrap();
    let req = build_request(m).unwrap();
    let a: Vec<&http::HeaderValue> = req.headers().get_all("a").iter().collect();
    let b: Vec<&http::HeaderValue> = req.headers().get_all("b").iter().collect();
    assert_eq!(a, vec!["1", "3"]);
    assert_eq!(b, vec!["2", "4"]);
    assert_eq!(req.headers().keys_len(), 2);
}
