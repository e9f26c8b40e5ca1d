//! End-to-end scenarios through the public pipeline: parse, dispatch,
//! finish, serialize.

use tinyhttp::http::{ContentType, Encoding, Method, Status};
use tinyhttp::parser::parse_http;
use tinyhttp::router::{dispatch, read_response, write_response, Dispatch};

fn reply_of(input: &[u8]) -> tinyhttp::http::Response {
    let req = parse_http(input).expect("request should parse");
    match dispatch(req) {
        Dispatch::Reply(resp) => resp,
        _ => panic!("expected a finished reply"),
    }
}

#[test]
fn echo_scenario() {
    let resp = reply_of(b"GET /echo/hello HTTP/1.1\r\n\r\n");
    assert_eq!(resp.status, Status::Okay);
    assert_eq!(resp.content_type, Some(ContentType::Text));
    assert_eq!(resp.content_encoding, None);
    assert_eq!(resp.body.as_deref(), Some(b"hello".as_slice()));
    let bytes = resp.as_bytes();
    assert_eq!(
        bytes,
        b"HTTP/1.1 200 OK\r\nContent-Type: text/plain\r\nContent-Length: 5\r\n\r\nhello".to_vec()
    );
}

#[test]
fn echo_keeps_embedded_slashes() {
    let resp = reply_of(b"GET /echo/a/b HTTP/1.1\r\n\r\n");
    assert_eq!(resp.body.as_deref(), Some(b"a/b".as_slice()));
}

#[test]
fn user_agent_scenario() {
    let resp = reply_of(b"GET /user-agent HTTP/1.1\r\nUser-Agent: test-client\r\n\r\n");
    assert_eq!(resp.status, Status::Okay);
    assert_eq!(resp.body.as_deref(), Some(b"test-client".as_slice()));
    let bytes = resp.as_bytes();
    assert_eq!(
        bytes,
        b"HTTP/1.1 200 OK\r\nContent-Type: text/plain\r\nContent-Length: 11\r\n\r\ntest-client"
            .to_vec()
    );
}

#[test]
fn user_agent_missing_header_gives_empty_body() {
    let resp = reply_of(b"GET /user-agent HTTP/1.1\r\n\r\n");
    assert_eq!(resp.status, Status::Okay);
    assert_eq!(resp.body.as_deref(), Some(b"".as_slice()));
    let bytes = resp.as_bytes();
    assert_eq!(
        bytes,
        b"HTTP/1.1 200 OK\r\nContent-Type: text/plain\r\nContent-Length: 0\r\n\r\n".to_vec()
    );
}

#[test]
fn root_scenario() {
    let resp = reply_of(b"GET / HTTP/1.1\r\n\r\n");
    assert_eq!(resp.status, Status::Okay);
    assert!(resp.body.is_none());
    assert_eq!(resp.as_bytes(), b"HTTP/1.1 200 OK\r\n\r\n".to_vec());
}

#[test]
fn not_found_scenario() {
    let resp = reply_of(b"GET /nonexistent HTTP/1.1\r\n\r\n");
    assert_eq!(resp.status, Status::NotFound);
    assert!(resp.body.is_none());
    assert_eq!(resp.as_bytes(), b"HTTP/1.1 404 Not Found\r\n\r\n".to_vec());
}

#[test]
fn post_not_found_scenario() {
    let req = parse_http(b"POST /echo/x HTTP/1.1\r\nContent-Length: 0\r\n\r\n").unwrap();
    match dispatch(req) {
        Dispatch::Reply(resp) => {
            assert_eq!(resp.status, Status::NotFound);
            assert_eq!(resp.as_bytes(), b"HTTP/1.1 404 Not Found\r\n\r\n".to_vec());
        }
        _ => panic!("expected a finished reply"),
    }
}

#[test]
fn files_write_then_read_scenario() {
    // The filesystem collaborator is played by a plain map in this test.
    let mut store: std::collections::HashMap<Vec<u8>, Vec<u8>> = std::collections::HashMap::new();

    let req = parse_http(b"POST /files/a.txt HTTP/1.1\r\nContent-Length: 3\r\n\r\nabc").unwrap();
    assert_eq!(req.method, Method::POST);
    let resp = match dispatch(req) {
        Dispatch::WriteFile { name, contents, version, encoding } => {
            assert_eq!(name, b"a.txt".to_vec());
            assert_eq!(contents, b"abc".to_vec());
            assert_eq!(encoding, None);
            store.insert(name, contents);
            write_response(version, true)
        }
        _ => panic!("expected a file write"),
    };
    assert_eq!(resp.status, Status::Created);
    assert!(resp.body.is_none());
    assert_eq!(resp.as_bytes(), b"HTTP/1.1 201 Created\r\n\r\n".to_vec());

    let req = parse_http(b"GET /files/a.txt HTTP/1.1\r\n\r\n").unwrap();
    let resp = match dispatch(req) {
        Dispatch::ReadFile { name, version, encoding } => {
            let outcome = store.get(&name).cloned();
            read_response(version, encoding, outcome)
        }
        _ => panic!("expected a file read"),
    };
    assert_eq!(resp.status, Status::Okay);
    assert_eq!(resp.content_type, Some(ContentType::Application));
    assert_eq!(resp.body.as_deref(), Some(b"abc".as_slice()));
    assert_eq!(
        resp.as_bytes(),
        b"HTTP/1.1 200 OK\r\nContent-Type: application/octet-stream\r\nContent-Length: 3\r\n\r\nabc"
            .to_vec()
    );
}

#[test]
fn files_read_missing_gives_not_found() {
    let req = parse_http(b"GET /files/missing.txt HTTP/1.1\r\n\r\n").unwrap();
    let resp = match dispatch(req) {
        Dispatch::ReadFile { name, version, encoding } => {
            assert_eq!(name, b"missing.txt".to_vec());
            read_response(version, encoding, None)
        }
        _ => panic!("expected a file read"),
    };
    assert_eq!(resp.status, Status::NotFound);
    assert_eq!(resp.as_bytes(), b"HTTP/1.1 404 Not Found\r\n\r\n".to_vec());
}

#[test]
fn files_write_failure_gives_server_error() {
    let req = parse_http(b"POST /files/a.txt HTTP/1.1\r\nContent-Length: 3\r\n\r\nabc").unwrap();
    let resp = match dispatch(req) {
        Dispatch::WriteFile { version, .. } => write_response(version, false),
        _ => panic!("expected a file write"),
    };
    assert_eq!(resp.status, Status::InternalServerError);
    assert_eq!(
        resp.as_bytes(),
        b"HTTP/1.1 500 Internal Server Error\r\n\r\n".to_vec()
    );
}

#[test]
fn gzip_negotiation_scenario() {
    let resp = reply_of(b"GET /echo/hi HTTP/1.1\r\nAccept-Encoding: gzip\r\n\r\n");
    assert_eq!(resp.content_encoding, Some(Encoding::Gzip));
    let bytes = resp.as_bytes();
    let split = find_blank_line(&bytes);
    let head = &bytes[..split];
    let body = &bytes[split + 4..];
    let head_str = std::str::from_utf8(head).unwrap();
    let mut lines = head_str.split("\r\n");
    assert_eq!(lines.next(), Some("HTTP/1.1 200 OK"));
    assert_eq!(lines.next(), Some("Content-Encoding: gzip"));
    assert_eq!(lines.next(), Some("Content-Type: text/plain"));
    assert_eq!(lines.next(), Some(format!("Content-Length: {}", body.len()).as_str()));
    assert_eq!(lines.next(), None);
    // Decompressing the serialized body yields the original text.
    let mut decoder = flate2::read::GzDecoder::new(body);
    let mut plain = Vec::new();
    std::io::Read::read_to_end(&mut decoder, &mut plain).unwrap();
    assert_eq!(plain, b"hi".to_vec());
    // The body really was transformed, not passed through.
    assert_ne!(body, b"hi");
}

#[test]
fn gzip_compressed_body_differs_from_plain() {
    let plain = reply_of(b"GET /echo/hi HTTP/1.1\r\n\r\n").as_bytes();
    let gzipped = reply_of(b"GET /echo/hi HTTP/1.1\r\nAccept-Encoding: gzip\r\n\r\n").as_bytes();
    assert_ne!(plain, gzipped);
}

#[test]
fn no_encoding_without_accept_encoding_header() {
    let resp = reply_of(b"GET /echo/hi HTTP/1.1\r\n\r\n");
    assert_eq!(resp.content_encoding, None);
    let bytes = resp.as_bytes();
    assert_eq!(
        bytes,
        b"HTTP/1.1 200 OK\r\nContent-Type: text/plain\r\nContent-Length: 2\r\n\r\nhi".to_vec()
    );
}

#[test]
fn no_encoding_when_gzip_not_among_tokens() {
    let resp = reply_of(b"GET /echo/hi HTTP/1.1\r\nAccept-Encoding: deflate, br\r\n\r\n");
    assert_eq!(resp.content_encoding, None);
    let bytes = resp.as_bytes();
    assert_eq!(
        bytes,
        b"HTTP/1.1 200 OK\r\nContent-Type: text/plain\r\nContent-Length: 2\r\n\r\nhi".to_vec()
    );
}

#[test]
fn gzip_found_among_several_tokens() {
    let resp = reply_of(b"GET /echo/hi HTTP/1.1\r\nAccept-Encoding: deflate, gzip, br\r\n\r\n");
    assert_eq!(resp.content_encoding, Some(Encoding::Gzip));
}

fn find_blank_line(bytes: &[u8]) -> usize {
    bytes
        .windows(4)
        .position(|w| w == b"\r\n\r\n")
        .expect("serialized response should hold a blank line")
}
