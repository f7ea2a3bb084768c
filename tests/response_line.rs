use flask::parse_response_line;

#[test]
fn test_parse_response_line_ok() {
    let resp_line_str = "HTTP/1.1 200 OK\r\n";
    let parse_result = parse_response_line(resp_line_str.as_bytes());
    assert!(parse_result.is_ok());

    let resp_line = parse_result.unwrap();
    assert_eq!(resp_line.status_code, "200".as_bytes());
    assert_eq!(resp_line.version, "1.1".as_bytes());
}

#[test]
fn test_parse_response_line_server_error() {
    let resp_line_str = "HTTP/1.1 500 Internal Server Error\r\n";
    let parse_result = parse_response_line(resp_line_str.as_bytes());
    assert!(parse_result.is_ok());

    let resp_line = parse_result.unwrap();
    assert_eq!(resp_line.status_code, "500".as_bytes());
    assert_eq!(resp_line.version, "1.1".as_bytes());
    assert_eq!(resp_line.status_msg, "Internal Server Error".as_bytes());
}

#[test]
fn test_bad_http_method() {
    let line = "HTP/1.1 200 OK\r\n";
    let result = parse_response_line(line.as_bytes());
    let flask_err = result.err().unwrap();
    assert_eq!(flask_err.get_msg(), "Malformed Response Line: bad http version");
}

#[test]
fn test_bad_missing_crlf() {
    let line = "HTTP/1.1 200 OK";
    let result = parse_response_line(line.as_bytes());
    let flask_err = result.err().unwrap();
    assert_eq!(flask_err.get_msg(), "Malformed Response Line: error parsing status message");
}

#[test]
fn test_bad_missing_carriage_return() {
    let line = "HTTP/1.1 200 OK\n";
    let result = parse_response_line(line.as_bytes());
    let flask_err = result.err().unwrap();
    assert_eq!(flask_err.get_msg(), "Malformed Response Line: error parsing status message");
}

#[test]
fn test_bad_missing_newline() {
    let line = "HTTP/1.1 200 OK\r";
    let result = parse_response_line(line.as_bytes());
    let flask_err = result.err().unwrap();
    assert_eq!(flask_err.get_msg(), "Malformed Response Line: no terminating CRLF");
}

#[test]
fn response_line_each_position_has_its_reason() {
    let cases = [
        ("HTTP/1.1200 OK\r\n", "Malformed Response Line: no spaces before status code"),
        ("HTTP/1.1 OK\r\n", "Malformed Response Line: no status code"),
        ("HTTP/1.1 200OK\r\n", "Malformed Response Line: no spaces after status code"),
    ];
    for (line, msg) in cases {
        let err = parse_response_line(line.as_bytes()).err().unwrap();
        assert_eq!(err.get_msg(), msg, "line {:?}", line);
    }
}

#[test]
fn response_line_empty_reason_is_accepted() {
    let parsed = parse_response_line("HTTP/1.1 204 \r\n".as_bytes()).unwrap();
    assert_eq!(parsed.status_code, "204".as_bytes());
    assert!(parsed.status_msg.is_empty());
}
