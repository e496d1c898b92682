use selproxy::error::ConnError;
use selproxy::parse::{check_http, parse_host, BUFFER_SIZE};

#[test]
fn get_prefix_accepted() {
    assert!(check_http(b"GET / HTTP/1.1\r\n"));
    assert!(check_http(b"GETX"));
}

#[test]
fn get_prefix_alone_rejected() {
    // The head must hold more than the three prefix bytes.
    assert!(!check_http(b"GET"));
}

#[test]
fn non_get_rejected() {
    assert!(!check_http(b""));
    assert!(!check_http(b"GE"));
    assert!(!check_http(b"POST / HTTP/1.1\r\n"));
    assert!(!check_http(b"get / HTTP/1.1\r\n"));
}

#[test]
fn host_header_found() {
    let head = b"GET / HTTP/1.1\r\nHost: example.com\r\nAccept: */*\r\n\r\n";
    let host = parse_host(head).unwrap();
    assert_eq!(host, b"example.com".to_vec());
}

#[test]
fn host_header_case_insensitive() {
    let head = b"GET / HTTP/1.1\r\nhOsT: ExAmPlE.CoM\r\n\r\n";
    let host = parse_host(head).unwrap();
    assert_eq!(host, b"example.com".to_vec());
}

#[test]
fn host_value_trimmed() {
    let head = b"GET / HTTP/1.1\r\nHost:   spaced.example.com  \r\n\r\n";
    let host = parse_host(head).unwrap();
    assert_eq!(host, b"spaced.example.com".to_vec());
}

#[test]
fn host_line_leading_whitespace() {
    let head = b"GET / HTTP/1.1\r\n   Host: indented.example\r\n\r\n";
    let host = parse_host(head).unwrap();
    assert_eq!(host, b"indented.example".to_vec());
}

#[test]
fn first_host_line_wins() {
    let head = b"GET / HTTP/1.1\r\nHost: first.example\r\nHost: second.example\r\n\r\n";
    let host = parse_host(head).unwrap();
    assert_eq!(host, b"first.example".to_vec());
}

#[test]
fn host_header_keeps_port() {
    let head = b"GET / HTTP/1.1\r\nHost: example.com:8080\r\n\r\n";
    let host = parse_host(head).unwrap();
    assert_eq!(host, b"example.com:8080".to_vec());
}

#[test]
fn host_header_without_newline_terminator() {
    // The header may be the last line of the peeked window, unterminated.
    let head = b"GET / HTTP/1.1\r\nHost: tail.example";
    let host = parse_host(head).unwrap();
    assert_eq!(host, b"tail.example".to_vec());
}

#[test]
fn missing_host_is_parse_error() {
    let head = b"GET / HTTP/1.1\r\nAccept: */*\r\n\r\n";
    match parse_host(head) {
        Err(e) => assert_eq!(e, ConnError::ParseError),
        Ok(_) => panic!("a head without a Host header must fail"),
    }
}

#[test]
fn hostless_head_within_window_is_parse_error() {
    // A truncated head below BUFFER_SIZE with no Host header fails.
    let mut head = b"GET / HTTP/1.1\r\nUser-Agent: probe\r\nX-Filler: ".to_vec();
    while head.len() < BUFFER_SIZE / 2 {
        head.push(b'x');
    }
    assert!(head.len() < BUFFER_SIZE);
    match parse_host(&head) {
        Err(e) => assert_eq!(e, ConnError::ParseError),
        Ok(_) => panic!("a truncated head without a Host header must fail"),
    }
}

#[test]
fn header_must_begin_with_host_prefix() {
    // A line that merely contains `host:` later on does not match; only a
    // line beginning (after leading whitespace) with `host:` does.
    let head = b"GET / HTTP/1.1\r\nXhost: nope\r\nHost: real.example\r\n\r\n";
    let host = parse_host(head).unwrap();
    assert_eq!(host, b"real.example".to_vec());
}

#[test]
fn empty_host_value() {
    let head = b"GET / HTTP/1.1\r\nHost:\r\n\r\n";
    let host = parse_host(head).unwrap();
    assert_eq!(host, b"".to_vec());
}

#[test]
fn lowercasing_touches_only_ascii_letters() {
    let lowered = selproxy::bytes::to_lower(b"HoSt: MiXeD-09.example\xFF");
    assert_eq!(lowered, b"host: mixed-09.example\xFF".to_vec());
}

#[test]
fn byte_equality() {
    assert!(selproxy::bytes::bytes_eq(b"abc", b"abc"));
    assert!(!selproxy::bytes::bytes_eq(b"abc", b"abd"));
    assert!(!selproxy::bytes::bytes_eq(b"abc", b"ab"));
    assert!(selproxy::bytes::bytes_eq(b"", b""));
}
