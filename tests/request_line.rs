use flask::parse_request_line;

#[test]
fn test_parse_request_line_good() {
    let line = "POST  https://panthip.com  HTTP/1.2\r\n";
    let parsed_line = parse_request_line(line.as_bytes()).unwrap();
    assert_eq!(parsed_line.method, "POST".as_bytes());
    assert_eq!(parsed_line.target, "https://panthip.com".as_bytes());
    assert_eq!(parsed_line.version, "1.2".as_bytes());
}

#[test]
fn test_parse_request_line_bad_http_method() {
    let line = "POS  https://panthip.com  HTTP/1.1\r\n";
    let result = parse_request_line(line.as_bytes());
    let flask_err = result.err().unwrap();
    assert_eq!(flask_err.get_msg(), "Malformed Request Line: missing HTTP method");
}

#[test]
fn test_parse_request_line_bad_missing_newline() {
    let line = "POST  https://panthip.com  HTTP/1.1\r";
    let result = parse_request_line(line.as_bytes());
    let flask_err = result.err().unwrap();
    assert_eq!(flask_err.get_msg(), "Malformed Request Line: no terminating CRLF");
}

#[test]
fn test_parse_request_line_bad_missing_carriage_return() {
    let line = "POST  https://panthip.com  HTTP/1.1\n";
    let result = parse_request_line(line.as_bytes());
    let flask_err = result.err().unwrap();
    assert_eq!(flask_err.get_msg(), "Malformed Request Line: no terminating CRLF");
}

#[test]
fn test_parse_request_line_bad_missing_crlf() {
    let line = "POST  https://panthip.com  HTTP/1.1";
    let result = parse_request_line(line.as_bytes());
    let flask_err = result.err().unwrap();
    assert_eq!(flask_err.get_msg(), "Malformed Request Line: no terminating CRLF");
}

#[test]
fn request_line_single_spaces_reads_parts() {
    for method in ["CONNECT", "DELETE", "GET", "HEAD", "OPTIONS", "PATCH", "POST", "PUT", "TRACE"] {
        let line = format!("{} /a/b?c=d HTTP/1.1\r\n", method);
        let parsed = parse_request_line(line.as_bytes()).unwrap();
        assert_eq!(parsed.method, method.as_bytes());
        assert_eq!(parsed.target, "/a/b?c=d".as_bytes());
        assert_eq!(parsed.version, "1.1".as_bytes());
    }
}

#[test]
fn request_line_space_runs_do_not_matter() {
    let wide = parse_request_line("GET  /x   HTTP/1.1\r\n".as_bytes()).unwrap();
    let narrow = parse_request_line("GET /x HTTP/1.1\r\n".as_bytes()).unwrap();
    assert_eq!(wide.method, narrow.method);
    assert_eq!(wide.target, narrow.target);
    assert_eq!(wide.version, narrow.version);
    assert_eq!(wide.target, "/x".as_bytes());
}

#[test]
fn request_line_each_position_has_its_reason() {
    let cases = [
        ("POS /x HTTP/1.1\r\n", "Malformed Request Line: missing HTTP method"),
        ("GETX /x HTTP/1.1\r\n", "Malformed Request Line: missing space before target URL"),
        ("GET ", "Malformed Request Line: error parsing target URL"),
        ("GET /x\r\n", "Malformed Request Line: missing space after target URL"),
        ("GET /x HTP/1.1\r\n", "Malformed Request Line: bad http version"),
        ("GET /x HTTP/1.\r\n", "Malformed Request Line: no terminating CRLF"),
        ("GET /x HTTP/1.1", "Malformed Request Line: no terminating CRLF"),
        ("GET /x HTTP/1.1\r\nextra", "Malformed Request Line: no terminating CRLF"),
    ];
    for (line, msg) in cases {
        let err = parse_request_line(line.as_bytes()).err().unwrap();
        assert_eq!(err.get_msg(), msg, "line {:?}", line);
        assert!(matches!(err, flask::FlaskError::BadRequest(_)));
    }
}

#[test]
fn request_line_version_prefix_any_case() {
    let parsed = parse_request_line("GET / http/1.1\r\n".as_bytes()).unwrap();
    assert_eq!(parsed.version, "1.1".as_bytes());
    assert_eq!(parsed.target, "/".as_bytes());
}
