//! Tests for status codes and the response serializer.

use minihttp::header::HeaderMap;
use minihttp::header::PredefinedName;
use minihttp::response::Response;
use minihttp::status::StatusCode;
use minihttp::text::usize_to_string;

#[test]
fn status_codes_and_reasons() {
    assert_eq!(StatusCode::OK.code(), 200);
    assert_eq!(StatusCode::OK.reason(), "OK");
    assert_eq!(StatusCode::BadRequest.code(), 400);
    assert_eq!(StatusCode::BadRequest.reason(), "Bad Request");
    assert_eq!(StatusCode::NotFound.code(), 404);
    assert_eq!(StatusCode::NotFound.reason(), "Not Found");
    assert_eq!(StatusCode::URITooLong.code(), 414);
    assert_eq!(StatusCode::URITooLong.reason(), "URI Too Long");
    assert_eq!(StatusCode::NotImplemented.code(), 0);
    assert_eq!(StatusCode::NotImplemented.reason(), "");
}

#[test]
fn status_display_is_code_and_reason() {
    assert_eq!(StatusCode::OK.display(), "200 OK");
    assert_eq!(StatusCode::NotFound.display(), "404 Not Found");
    assert_eq!(StatusCode::NotImplemented.display(), "0 ");
}

#[test]
fn decimal_rendering() {
    assert_eq!(usize_to_string(0), "0");
    assert_eq!(usize_to_string(7), "7");
    assert_eq!(usize_to_string(42), "42");
    assert_eq!(usize_to_string(1234567890), "1234567890");
}

#[test]
fn serialize_no_declared_headers() {
    let response = Response {
        protocol: String::from("HTTP/1.1"),
        status_code: StatusCode::OK,
        headers: HeaderMap::new(),
        body: String::from("hi"),
    };
    assert_eq!(response.join(), "HTTP/1.1 200 OK\r\ncontent-length: 2\r\n\r\nhi");
}

#[test]
fn serialize_with_declared_headers() {
    let mut headers = HeaderMap::new();
    headers.insert(PredefinedName::Server, String::from("quiet"));
    let response = Response {
        protocol: String::from("HTTP/1.1"),
        status_code: StatusCode::NotFound,
        headers,
        body: String::from("missing"),
    };
    assert_eq!(
        response.join(),
        "HTTP/1.1 404 Not Found\r\nserver: quiet\r\ncontent-length: 7\r\n\r\nmissing"
    );
}

#[test]
fn serialize_empty_body_still_has_blank_line() {
    let response = Response {
        protocol: String::from("HTTP/1.1"),
        status_code: StatusCode::OK,
        headers: HeaderMap::new(),
        body: String::new(),
    };
    assert_eq!(response.join(), "HTTP/1.1 200 OK\r\ncontent-length: 0\r\n\r\n");
}

#[test]
fn serialize_counts_bytes_not_chars() {
    let response = Response {
        protocol: String::from("HTTP/1.1"),
        status_code: StatusCode::OK,
        headers: HeaderMap::new(),
        body: String::from("h\u{00e9}"),
    };
    // two characters, three UTF-8 bytes
    assert_eq!(response.join(), "HTTP/1.1 200 OK\r\ncontent-length: 3\r\n\r\nh\u{00e9}");
}

#[test]
fn serialize_does_not_deduplicate_declared_content_length() {
    let mut headers = HeaderMap::new();
    headers.insert(PredefinedName::ContentLength, String::from("999"));
    let response = Response {
        protocol: String::from("HTTP/1.1"),
        status_code: StatusCode::OK,
        headers,
        body: String::from("abc"),
    };
    assert_eq!(
        response.join(),
        "HTTP/1.1 200 OK\r\ncontent-length: 999\r\ncontent-length: 3\r\n\r\nabc"
    );
}

#[test]
fn serialize_twice_is_byte_identical() {
    let mut headers = HeaderMap::new();
    headers.insert(String::from("X-Tag"), String::from("v1"));
    let response = Response {
        protocol: String::from("HTTP/1.1"),
        status_code: StatusCode::OK,
        headers,
        body: String::from("same body"),
    };
    let first = response.join();
    let second = response.join();
    assert_eq!(first.as_bytes(), second.as_bytes());
}
