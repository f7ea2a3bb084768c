use flask::{
    get_http_version, read_header, read_message, Action, FlaskError, Head, HeaderLine,
    HttpVersion, Message, MessageKind, MessageReader,
};

fn read_request(s: &str) -> Result<Message, FlaskError> {
    read_message(s.as_bytes(), MessageKind::Request, false)
}

fn read_response(s: &str) -> Result<Message, FlaskError> {
    read_message(s.as_bytes(), MessageKind::Response, false)
}

fn header_pairs(m: &Message) -> Vec<(String, String)> {
    m.headers
        .iter()
        .map(|h| {
            (String::from_utf8(h.key.clone()).unwrap(), String::from_utf8(h.value.clone()).unwrap())
        })
        .collect()
}

#[test]
fn post_request_with_body() {
    let m = read_request("POST /foo/bar HTTP/1.1\r\nContent-Length: 5\r\n\r\nhello").unwrap();
    match &m.head {
        Head::Request { method, target } => {
            assert_eq!(method, &"POST".as_bytes().to_vec());
            assert_eq!(target, &"/foo/bar".as_bytes().to_vec());
        }
        Head::Response { .. } => panic!("expected a request"),
    }
    assert_eq!(m.version, HttpVersion::Http11);
    assert_eq!(header_pairs(&m), vec![("Content-Length".to_string(), "5".to_string())]);
    assert_eq!(m.body, "hello".as_bytes());
}

#[test]
fn ok_response_with_body() {
    let m = read_response("HTTP/1.1 200 OK\r\nContent-Length: 12\r\n\r\nHello World!").unwrap();
    match &m.head {
        Head::Response { status } => assert_eq!(*status, 200),
        Head::Request { .. } => panic!("expected a response"),
    }
    assert_eq!(m.version, HttpVersion::Http11);
    assert_eq!(m.body, "Hello World!".as_bytes());
}

#[test]
fn unknown_method_is_malformed() {
    let err = read_request("POS /x HTTP/1.1\r\n").err().unwrap();
    assert!(matches!(err, FlaskError::BadRequest(_)));
    assert_eq!(err.get_msg(), "Malformed Request Line: missing HTTP method");
}

#[test]
fn start_line_without_crlf_is_malformed() {
    let err = read_request("GET /x HTTP/1.1").err().unwrap();
    assert!(matches!(err, FlaskError::BadRequest(_)));
    assert_eq!(err.get_msg(), "Malformed Request Line: no terminating CRLF");
}

#[test]
fn header_without_space_after_colon_is_malformed() {
    let err = read_header("X-Foo:bar\r\n".as_bytes(), false).err().unwrap();
    assert!(matches!(err, FlaskError::BadRequest(_)));
    assert_eq!(err.get_msg(), "Malformed Header: missing space after colon");
    let err = read_request("GET / HTTP/1.1\r\nX-Foo:bar\r\n\r\n").err().unwrap();
    assert_eq!(err.get_msg(), "Malformed Header: missing space after colon");
}

#[test]
fn non_numeric_content_length_is_fatal() {
    let reader = MessageReader::new(MessageKind::Request, false);
    let reader = reader.on_line("GET / HTTP/1.1\r\n".as_bytes()).unwrap();
    let err = reader.on_line("Content-Length: abc\r\n".as_bytes()).err().unwrap();
    assert!(matches!(err, FlaskError::BadRequest(_)));
    assert_eq!(err.get_msg(), "Invalid Content-Length: abc");
    let err = read_request("GET / HTTP/1.1\r\nContent-Length: abc\r\n\r\nabc").err().unwrap();
    assert_eq!(err.get_msg(), "Invalid Content-Length: abc");
}

#[test]
fn header_lines_and_their_errors() {
    match read_header("X-Foo: bar baz\r\n".as_bytes(), false).unwrap() {
        HeaderLine::Field(h) => {
            assert_eq!(h.key, "X-Foo".as_bytes());
            assert_eq!(h.value, "bar baz".as_bytes());
        }
        HeaderLine::End => panic!("expected a field"),
    }
    assert!(matches!(read_header("\r\n".as_bytes(), false).unwrap(), HeaderLine::End));
    let cases = [
        (": v\r\n", "Malformed Header: missing header name"),
        ("X-Foo bar\r\n", "Malformed Header: missing colon"),
        ("X-Foo: bar", "Malformed Header: no terminating CRLF"),
        ("X-Foo: bar\n", "Malformed Header: no terminating CRLF"),
        ("X-Foo: b\u{7f}r\r\n", "Malformed Header: no terminating CRLF"),
    ];
    for (line, msg) in cases {
        let err = read_header(line.as_bytes(), false).err().unwrap();
        assert_eq!(err.get_msg(), msg, "line {:?}", line);
    }
}

#[test]
fn latin1_header_values_are_a_choice() {
    let line = [b'X', b':', b' ', b'a', 0xe9, b'\r', b'\n'];
    assert!(read_header(&line, false).is_err());
    match read_header(&line, true).unwrap() {
        HeaderLine::Field(h) => assert_eq!(h.value, vec![b'a', 0xe9]),
        HeaderLine::End => panic!("expected a field"),
    }
}

#[test]
fn headers_keep_order_and_duplicates() {
    let m = read_request("GET / HTTP/1.1\r\nB: 1\r\nA: 2\r\nB: 3\r\nb: 4\r\n\r\n").unwrap();
    assert_eq!(
        header_pairs(&m),
        vec![
            ("B".to_string(), "1".to_string()),
            ("A".to_string(), "2".to_string()),
            ("B".to_string(), "3".to_string()),
            ("b".to_string(), "4".to_string()),
        ]
    );
    assert!(m.body.is_empty());
}

#[test]
fn body_length_follows_content_length_not_the_input() {
    let m = read_request("POST / HTTP/1.1\r\nContent-Length: 3\r\n\r\nabcdef").unwrap();
    assert_eq!(m.body, "abc".as_bytes());
    let m = read_request("POST / HTTP/1.1\r\n\r\nabcdef").unwrap();
    assert!(m.body.is_empty());
    let m = read_request("POST / HTTP/1.1\r\ncontent-LENGTH: 2\r\nContent-Length: 4\r\n\r\nabcdef")
        .unwrap();
    assert_eq!(m.body, "abcd".as_bytes());
    let m = read_request("POST / HTTP/1.1\r\nContent-Length: 0\r\n\r\nabcdef").unwrap();
    assert!(m.body.is_empty());
}

#[test]
fn short_body_is_a_body_phase_failure() {
    let err = read_request("POST / HTTP/1.1\r\nContent-Length: 10\r\n\r\nabc").err().unwrap();
    assert!(matches!(err, FlaskError::BadRequest(_)));
    assert_eq!(err.get_msg(), "Error reading message body");
}

#[test]
fn closed_before_header_block_ends_is_a_header_phase_failure() {
    let err = read_request("GET / HTTP/1.1\r\nHost: x\r\n").err().unwrap();
    assert!(matches!(err, FlaskError::ClientClosedRequest(_)));
    assert_eq!(err.get_msg(), "Error reading buffered line");
    let err = read_request("").err().unwrap();
    assert!(matches!(err, FlaskError::ClientClosedRequest(_)));
}

#[test]
fn header_line_without_crlf_is_malformed() {
    let err = read_request("GET / HTTP/1.1\r\nHost: x").err().unwrap();
    assert!(matches!(err, FlaskError::BadRequest(_)));
    assert_eq!(err.get_msg(), "Malformed Header: no terminating CRLF");
    let err = read_request("GET / HTTP/1.1\r\nHost: x\n\r\n").err().unwrap();
    assert_eq!(err.get_msg(), "Malformed Header: no terminating CRLF");
}

#[test]
fn content_length_values() {
    let big = format!("POST / HTTP/1.1\r\nContent-Length: {}0\r\n\r\n", usize::MAX);
    assert_eq!(
        read_request(&big).err().unwrap().get_msg(),
        format!("Invalid Content-Length: {}0", usize::MAX)
    );
    for bad in ["-1", "+", "++5", "+-5", "", "5 ", "0x10"] {
        let s = format!("POST / HTTP/1.1\r\nContent-Length: {}\r\n\r\n", bad);
        assert_eq!(
            read_request(&s).err().unwrap().get_msg(),
            format!("Invalid Content-Length: {}", bad),
            "{:?}",
            bad
        );
    }
    let m = read_request("POST / HTTP/1.1\r\nContent-Length: 007\r\n\r\n1234567").unwrap();
    assert_eq!(m.body, "1234567".as_bytes());
    let m = read_request("POST / HTTP/1.1\r\nContent-Length: +5\r\n\r\nhello world").unwrap();
    assert_eq!(m.body, "hello".as_bytes());
}

#[test]
fn versions_resolve_into_three_outcomes() {
    assert_eq!(get_http_version("1.1".as_bytes()).unwrap(), HttpVersion::Http11);
    for v in ["0.9", "1.0", "2.0", "3.0"] {
        let err = get_http_version(v.as_bytes()).err().unwrap();
        assert!(matches!(err, FlaskError::NotImplemented(_)));
        assert_eq!(err.get_msg(), format!("Unsupported HTTP version {}", v));
    }
    for v in ["1.2", "abc", "11"] {
        let err = get_http_version(v.as_bytes()).err().unwrap();
        assert!(matches!(err, FlaskError::BadRequest(_)));
        assert_eq!(err.get_msg(), format!("Unknown HTTP version {}", v));
    }
    let err = get_http_version(&[b'1', b'.', 0xff]).err().unwrap();
    assert_eq!(err.get_msg(), "Unknown HTTP version 1.\u{fffd}");
    let err = read_request("GET / HTTP/2.0\r\n\r\n").err().unwrap();
    assert!(matches!(err, FlaskError::NotImplemented(_)));
    let err = read_request("POST  https://panthip.com  HTTP/1.2\r\n\r\n").err().unwrap();
    assert_eq!(err.get_msg(), "Unknown HTTP version 1.2");
}

#[test]
fn status_codes_follow_the_message_type() {
    let m = read_response("HTTP/1.1 999 Odd\r\n\r\n").unwrap();
    assert!(matches!(m.head, Head::Response { status: 999 }));
    let m = read_response("HTTP/1.1 501 Not Implemented\r\n\r\n").unwrap();
    assert!(matches!(m.head, Head::Response { status: 501 }));
    for line in ["HTTP/1.1 099 Low\r\n\r\n", "HTTP/1.1 2000 Long\r\n\r\n", "HTTP/1.1 20 Short\r\n\r\n"] {
        let err = read_response(line).err().unwrap();
        assert!(matches!(err, FlaskError::BadRequest(_)));
        assert_eq!(err.get_msg(), "Invalid status code", "{:?}", line);
    }
}

#[test]
fn reader_steps_ask_for_what_they_need() {
    let reader = MessageReader::new(MessageKind::Response, false);
    assert_eq!(reader.next_action(), Action::ReadLine);
    let reader = reader.on_line("HTTP/1.1 200 OK\r\n".as_bytes()).unwrap();
    assert_eq!(reader.next_action(), Action::ReadLine);
    assert_eq!(reader.transport_failure().get_msg(), "Error reading buffered line");
    let reader = reader.on_line("Content-Length: 2\r\n".as_bytes()).unwrap();
    let reader = reader.on_line("\r\n".as_bytes()).unwrap();
    assert_eq!(reader.next_action(), Action::ReadBody(2));
    assert_eq!(reader.transport_failure().get_msg(), "Error reading message body");
    let m = reader.on_body(vec![b'o', b'k']).unwrap();
    assert_eq!(m.body, "ok".as_bytes());
}

#[test]
fn error_to_string_is_its_message() {
    let err = read_request("POS /x HTTP/1.1\r\n").err().unwrap();
    assert_eq!(err.to_string(), "Malformed Request Line: missing HTTP method");
}
