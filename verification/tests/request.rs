//! Tests for the start-line parser and the request assembler.

use minihttp::request::identify;
use minihttp::request::parse_header_lines;
use minihttp::request::to_request;
use minihttp::request::HTTPMethod;
use minihttp::ErrorKind;

#[test]
fn identify_get() {
    let (method, uri) = identify("GET /index.html HTTP/1.1").unwrap();
    assert_eq!(method, HTTPMethod::GET);
    assert_eq!(uri, "/index.html");
}

#[test]
fn identify_post() {
    let (method, uri) = identify("POST /submit HTTP/1.1").unwrap();
    assert_eq!(method, HTTPMethod::POST);
    assert_eq!(uri, "/submit");
}

#[test]
fn identify_unknown_method_is_accepted() {
    let (method, uri) = identify("PATCH /x HTTP/1.1").unwrap();
    assert_eq!(method, HTTPMethod::UNKNOWN);
    assert_eq!(uri, "/x");
}

#[test]
fn identify_missing_uri_is_invalid() {
    let e = identify("GET HTTP/1.1").unwrap_err();
    assert_eq!(e.kind, ErrorKind::InvalidStartLine);
}

#[test]
fn identify_keeps_query_string() {
    let (method, uri) = identify("GET /search?q=1&r=2 HTTP/1.1").unwrap();
    assert_eq!(method, HTTPMethod::GET);
    assert_eq!(uri, "/search?q=1&r=2");
}

#[test]
fn identify_rejects_structural_mismatches() {
    // leading junk before the method token
    assert!(identify("xGET /x HTTP/1.1").is_err());
    // lowercase method token
    assert!(identify("get /x HTTP/1.1").is_err());
    // URI not starting with a slash
    assert!(identify("GET x HTTP/1.1").is_err());
    // doubled separator space
    assert!(identify("GET  /x HTTP/1.1").is_err());
    // whitespace inside the URI region
    assert!(identify("GET /a b HTTP/1.1").is_err());
    // missing protocol
    assert!(identify("GET /x ").is_err());
    // empty line
    assert!(identify("").is_err());
}

#[test]
fn identify_rejects_unicode_whitespace_in_tokens() {
    // no-break space inside the URI region
    let e = identify("GET /\u{a0} HTTP/1.1").unwrap_err();
    assert_eq!(e.kind, ErrorKind::InvalidStartLine);
    // line separator inside the protocol token
    assert!(identify("GET /x HTTP/1.1\u{2028}").is_err());
    // ideographic space inside the URI region
    assert!(identify("GET /a\u{3000}b HTTP/1.1").is_err());
}

#[test]
fn identify_accepts_bare_root() {
    let (method, uri) = identify("GET / HTTP/1.1").unwrap();
    assert_eq!(method, HTTPMethod::GET);
    assert_eq!(uri, "/");
}

#[test]
fn parse_header_lines_builds_map_in_order() {
    let lines = vec![
        String::from("Host: localhost"),
        String::from("Content-Length: 5"),
    ];
    let map = parse_header_lines(&lines).unwrap();
    assert_eq!(map.join("\r\n"), "Host: localhost\r\ncontent-length: 5");
}

#[test]
fn parse_header_lines_propagates_first_failure() {
    let lines = vec![
        String::from("Host: localhost"),
        String::from("bogus line"),
        String::from("X-Late: too late"),
    ];
    let e = parse_header_lines(&lines).unwrap_err();
    assert_eq!(e.kind, ErrorKind::MalformedHeaderLine);
}

#[test]
fn to_request_empty_head_fails() {
    let lines: Vec<String> = vec![];
    let e = to_request(&lines).unwrap_err();
    assert_eq!(e.kind, ErrorKind::EmptyRequest);
}

#[test]
fn to_request_assembles_method_uri_and_headers() {
    let lines = vec![
        String::from("GET /index.html HTTP/1.1"),
        String::from("Host: localhost"),
        String::from("Referer: /start"),
    ];
    let req = to_request(&lines).unwrap();
    assert_eq!(req.method, HTTPMethod::GET);
    assert_eq!(req.uri, "/index.html");
    assert_eq!(req.headers.join("\r\n"), "Host: localhost\r\nreferer: /start");
}

#[test]
fn to_request_bad_start_line_wins_over_bad_header() {
    let lines = vec![String::from("nonsense"), String::from("also nonsense")];
    let e = to_request(&lines).unwrap_err();
    assert_eq!(e.kind, ErrorKind::InvalidStartLine);
}

#[test]
fn to_request_bad_header_line_fails() {
    let lines = vec![
        String::from("GET / HTTP/1.1"),
        String::from("no colon in sight"),
    ];
    let e = to_request(&lines).unwrap_err();
    assert_eq!(e.kind, ErrorKind::MalformedHeaderLine);
}

#[test]
fn to_request_head_of_one_line_has_empty_headers() {
    let lines = vec![String::from("GET / HTTP/1.1")];
    let req = to_request(&lines).unwrap();
    assert_eq!(req.method, HTTPMethod::GET);
    assert_eq!(req.headers.join("\r\n"), "");
}
