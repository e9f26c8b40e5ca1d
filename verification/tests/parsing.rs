//! The request parser on good and bad input, and the response wire
//! format read back.

use tinyhttp::http::{ContentType, Encoding, Method, Status};
use tinyhttp::parser::{parse_http, ParseError};
use tinyhttp::wire::parse_response;

#[test]
fn parses_request_fields() {
    let req = parse_http(
        b"POST /files/x HTTP/1.0\r\nHost: localhost\r\nContent-Length: 4\r\n\r\nbodyTRAILING",
    )
    .unwrap();
    assert_eq!(req.method, Method::POST);
    assert_eq!(req.path, b"/files/x".to_vec());
    assert_eq!(req.version, b"HTTP/1.0".to_vec());
    assert_eq!(req.headers.get(b"Host").map(|v| v.as_slice()), Some(b"localhost".as_slice()));
    assert_eq!(req.headers.get(b"Missing"), None);
    // Only the declared body is taken; trailing bytes are left alone.
    assert_eq!(req.body.as_deref(), Some(b"body".as_slice()));
}

#[test]
fn body_absent_without_content_length() {
    let req = parse_http(b"GET / HTTP/1.1\r\n\r\n").unwrap();
    assert!(req.body.is_none());
}

#[test]
fn body_empty_with_zero_content_length() {
    let req = parse_http(b"POST /files/e HTTP/1.1\r\nContent-Length: 0\r\n\r\n").unwrap();
    assert_eq!(req.body.as_deref(), Some(b"".as_slice()));
}

#[test]
fn duplicate_header_keeps_last_value() {
    let req = parse_http(b"GET /user-agent HTTP/1.1\r\nUser-Agent: one\r\nUser-Agent: two\r\n\r\n")
        .unwrap();
    assert_eq!(req.headers.get(b"User-Agent").map(|v| v.as_slice()), Some(b"two".as_slice()));
}

#[test]
fn rejects_two_token_request_line() {
    assert!(matches!(parse_http(b"GET /\r\n\r\n"), Err(ParseError::MalformedRequestLine)));
}

#[test]
fn rejects_four_token_request_line() {
    assert!(matches!(
        parse_http(b"GET / HTTP/1.1 extra\r\n\r\n"),
        Err(ParseError::MalformedRequestLine)
    ));
}

#[test]
fn rejects_put_method() {
    assert!(matches!(parse_http(b"PUT / HTTP/1.1\r\n\r\n"), Err(ParseError::UnsupportedMethod)));
}

#[test]
fn rejects_header_line_without_separator() {
    assert!(matches!(
        parse_http(b"GET / HTTP/1.1\r\nNoSeparator\r\n\r\n"),
        Err(ParseError::MalformedHeaderLine)
    ));
}

#[test]
fn rejects_non_numeric_content_length() {
    assert!(matches!(
        parse_http(b"POST /files/x HTTP/1.1\r\nContent-Length: abc\r\n\r\nabc"),
        Err(ParseError::InvalidContentLength)
    ));
}

#[test]
fn rejects_truncated_body() {
    assert!(matches!(
        parse_http(b"POST /files/x HTTP/1.1\r\nContent-Length: 10\r\n\r\nabc"),
        Err(ParseError::UnexpectedEnd)
    ));
}

#[test]
fn status_codes_and_messages() {
    assert_eq!(Status::Okay.code(), 200);
    assert_eq!(Status::Created.code(), 201);
    assert_eq!(Status::NotFound.code(), 404);
    assert_eq!(Status::InternalServerError.code(), 500);
    assert_eq!(Status::Okay.message(), "OK");
    assert_eq!(Status::Created.message(), "Created");
    assert_eq!(Status::NotFound.message(), "Not Found");
    assert_eq!(Status::InternalServerError.message(), "Internal Server Error");
    assert_eq!(ContentType::Text.label(), "text/plain");
    assert_eq!(ContentType::Application.label(), "application/octet-stream");
    assert_eq!(Encoding::Gzip.label(), "gzip");
}

#[test]
fn round_trip_framing() {
    let resp = tinyhttp::http::Response {
        status: Status::Created,
        content_encoding: None,
        content_type: Some(ContentType::Application),
        version: b"HTTP/1.1".to_vec(),
        body: Some(b"xyz".to_vec()),
    };
    let bytes = resp.as_bytes();
    let back = parse_response(&bytes).expect("serialized response should read back");
    assert_eq!(back.status, Status::Created);
    assert_eq!(back.content_type, Some(ContentType::Application));
    assert_eq!(back.content_encoding, None);
    assert_eq!(back.version, b"HTTP/1.1".to_vec());
    assert_eq!(back.body.as_deref(), Some(b"xyz".as_slice()));
    // Content-Length names the body's exact length.
    let text = String::from_utf8(bytes).unwrap();
    assert!(text.contains("Content-Length: 3\r\n"));
}

#[test]
fn bare_response_reads_back() {
    let resp = tinyhttp::http::Response {
        status: Status::NotFound,
        content_encoding: None,
        content_type: None,
        version: b"HTTP/1.1".to_vec(),
        body: None,
    };
    let back = parse_response(&resp.as_bytes()).unwrap();
    assert_eq!(back.status, Status::NotFound);
    assert!(back.content_type.is_none());
    assert!(back.body.is_none());
}

#[test]
fn gzip_response_reads_back_with_compressed_length() {
    let resp = tinyhttp::http::Response {
        status: Status::Okay,
        content_encoding: Some(Encoding::Gzip),
        content_type: Some(ContentType::Text),
        version: b"HTTP/1.1".to_vec(),
        body: Some(b"hello hello hello".to_vec()),
    };
    let bytes = resp.as_bytes();
    let back = parse_response(&bytes).unwrap();
    assert_eq!(back.content_encoding, Some(Encoding::Gzip));
    let compressed = back.body.unwrap();
    // The parsed body is the compressed payload, not the original text.
    assert_ne!(compressed, b"hello hello hello".to_vec());
    let mut decoder = flate2::read::GzDecoder::new(compressed.as_slice());
    let mut plain = Vec::new();
    std::io::Read::read_to_end(&mut decoder, &mut plain).unwrap();
    assert_eq!(plain, b"hello hello hello".to_vec());
}

#[test]
fn parse_response_rejects_garbage() {
    assert!(parse_response(b"junk").is_none());
    assert!(parse_response(b"HTTP/1.1 999 Nope\r\n\r\n").is_none());
    assert!(parse_response(b"HTTP/1.1 200 OK\r\nContent-Type: text/plain\r\n\r\n").is_none());
}
