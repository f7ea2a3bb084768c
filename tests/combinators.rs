use flask::combinators::{
    colon, crlf, digits, header_value, http_header_name, http_method, http_version,
    is_digit_char, is_header_value_char, is_latin1_header_value_char, number, space, spaces,
    take_until, to_space,
};

#[test]
fn test_crlf() {
    let s = "\r\n".as_bytes();
    assert_eq!(crlf(s, 0), Some(2));
    assert_eq!(&s[2..], "".as_bytes());
    let s = "\r\nWorld!".as_bytes();
    assert_eq!(crlf(s, 0), Some(2));
    assert_eq!(&s[2..], "World!".as_bytes());
    let s = "\r\nHello\r\nWorld!".as_bytes();
    assert_eq!(crlf(s, 0), Some(2));
    assert_eq!(&s[2..], "Hello\r\nWorld!".as_bytes());
    let s = "\r\n     ".as_bytes();
    assert_eq!(crlf(s, 0), Some(2));
    assert_eq!(&s[2..], "     ".as_bytes());

    assert_eq!(crlf("Something".as_bytes(), 0), None);
    assert_eq!(crlf("Foo\r\nBar".as_bytes(), 0), None);
}

#[test]
fn test_space() {
    assert_eq!(space(" ".as_bytes(), 0), Some(1));
    let s = " Hello".as_bytes();
    assert_eq!(space(s, 0), Some(1));
    assert_eq!(&s[1..], "Hello".as_bytes());
    let s = "      ".as_bytes();
    assert_eq!(space(s, 0), Some(1));
    assert_eq!(&s[1..], "     ".as_bytes());

    assert_eq!(space("Rust World".as_bytes(), 0), None);
}

#[test]
fn test_spaces() {
    assert_eq!(spaces(" ".as_bytes(), 0), Some(1));
    assert_eq!(spaces("   ".as_bytes(), 0), Some(3));
    let s = " cat".as_bytes();
    assert_eq!(spaces(s, 0), Some(1));
    assert_eq!(&s[1..], "cat".as_bytes());
    let s = "   Hello".as_bytes();
    assert_eq!(spaces(s, 0), Some(3));
    assert_eq!(&s[3..], "Hello".as_bytes());
    assert_eq!(spaces("  ".as_bytes(), 0), Some(2));
    let s = "  TREE  ".as_bytes();
    assert_eq!(spaces(s, 0), Some(2));
    assert_eq!(&s[2..], "TREE  ".as_bytes());

    assert_eq!(spaces("none".as_bytes(), 0), None);
}

#[test]
fn test_digits() {
    assert_eq!(digits("7".as_bytes(), 0), Some(1));
    assert_eq!(digits("777".as_bytes(), 0), Some(3));
    let s = "123xxx456".as_bytes();
    assert_eq!(digits(s, 0), Some(3));
    assert_eq!(&s[..3], "123".as_bytes());
    assert_eq!(&s[3..], "xxx456".as_bytes());

    assert_eq!(digits("car 5".as_bytes(), 0), None);
}

#[test]
fn test_http_method() {
    let s = "POST foo bar baz".as_bytes();
    assert_eq!(http_method(s, 0), Some(4));
    assert_eq!(&s[4..], " foo bar baz".as_bytes());
    let s = "HEAD foo bar baz".as_bytes();
    assert_eq!(http_method(s, 0), Some(4));
    assert_eq!(&s[..4], "HEAD".as_bytes());
    let s = "GET foo bar baz".as_bytes();
    assert_eq!(http_method(s, 0), Some(3));
    assert_eq!(&s[..3], "GET".as_bytes());
}

#[test]
fn unknown_methods_are_refused() {
    assert_eq!(http_method("POS /x".as_bytes(), 0), None);
    assert_eq!(http_method("get /x".as_bytes(), 0), None);
    assert_eq!(http_method("BREW /pot".as_bytes(), 0), None);
    assert_eq!(http_method("".as_bytes(), 0), None);
}

#[test]
fn other_scanners() {
    assert_eq!(colon(": x".as_bytes(), 0), Some(1));
    assert_eq!(colon("x".as_bytes(), 0), None);
    assert_eq!(number("200 OK".as_bytes(), 0), Some(3));
    assert_eq!(number("OK".as_bytes(), 0), None);
    assert_eq!(to_space("/a/b c".as_bytes(), 0), Some(4));
    assert_eq!(to_space(" c".as_bytes(), 0), None);
    assert_eq!(take_until("OK\r\n".as_bytes(), 0), Some(2));
    assert_eq!(take_until("\r\n".as_bytes(), 0), Some(0));
    assert_eq!(take_until("OK\n".as_bytes(), 0), None);
    assert_eq!(http_version("HTTP/1.1\r\n".as_bytes(), 0), Some(8));
    assert_eq!(http_version("hTtP/2.0".as_bytes(), 0), Some(8));
    assert_eq!(http_version("HTTP/1.".as_bytes(), 0), None);
    assert_eq!(http_version("HTTPS1.1".as_bytes(), 0), None);
    assert_eq!(http_header_name("X-Foo: bar".as_bytes(), 0), Some(5));
    assert_eq!(http_header_name(": bar".as_bytes(), 0), None);
    assert_eq!(header_value("a b\tc\r\n".as_bytes(), 0, false), 5);
    assert_eq!(header_value(&[0x61, 0xe9, 0x0d, 0x0a], 0, false), 1);
    assert_eq!(header_value(&[0x61, 0xe9, 0x0d, 0x0a], 0, true), 2);
}

#[test]
fn character_classes() {
    assert!(is_digit_char('0'));
    assert!(is_digit_char('9'));
    assert!(!is_digit_char('a'));
    assert!(!is_digit_char('\u{130}'));
    assert!(is_header_value_char('\t'));
    assert!(is_header_value_char(' '));
    assert!(is_header_value_char('~'));
    assert!(!is_header_value_char('\r'));
    assert!(!is_header_value_char('\u{7f}'));
    assert!(!is_header_value_char('é'));
    assert!(is_latin1_header_value_char('é'));
    assert!(!is_latin1_header_value_char('\u{9f}'));
    assert!(!is_latin1_header_value_char('\u{100}'));
}
