use localhost::headers::{Header, Headers};
use localhost::message::Response;
use localhost::server::responses::{error, format_response, redirect};
use localhost::server::wire::{latin_text, parse_headers, parse_response, parse_status_line};
use localhost::server_config::ServerConfig;
use localhost::status::{StatusCode, Version};

fn response(status: u16, headers: Vec<(&str, &str)>, body: &[u8]) -> Response {
    let mut list = Headers::new();
    for (name, value) in headers {
        assert!(list.append(name, value));
    }
    Response {
        status: StatusCode::from_u16(status).unwrap(),
        version: Version::Http11,
        headers: list,
        body: body.to_vec(),
    }
}

fn config() -> ServerConfig<'static> {
    ServerConfig {
        host: "127.0.0.1",
        ports: vec![8080],
        custom_error_path: None,
        body_size_limit: 100,
        routes: vec![],
    }
}

#[test]
fn a_plain_response_is_read_back() {
    let written = response(
        200,
        vec![("Host", "127.0.0.1"), ("Content-Type", "text/plain"), ("X-Note", "a: b: c")],
        b"hello\r\n\r\nworld",
    );
    assert_eq!(parse_response(&format_response(written.clone())), Some(written));
}

#[test]
fn a_response_without_headers_or_body_is_read_back() {
    let written = response(404, vec![], b"");
    assert_eq!(parse_response(b"HTTP/1.1 404 Not Found\r\n\r\n"), Some(written.clone()));
    assert_eq!(parse_response(&format_response(written.clone())), Some(written));
}

#[test]
fn a_chunked_response_is_read_back() {
    let body: Vec<u8> = (0..5000).map(|i| (i % 251) as u8).collect();
    let written = response(200, vec![("Transfer-Encoding", "chunked")], &body);
    let wire = format_response(written.clone());
    assert!(wire.len() > body.len() + 5 * 7);
    assert_eq!(parse_response(&wire), Some(written));

    let small = response(200, vec![("transfer-encoding", "CHUNKED")], b"\r\n0\r\n\r\n");
    assert_eq!(parse_response(&format_response(small.clone())), Some(small));
    let empty = response(200, vec![("transfer-encoding", "chunked")], b"");
    assert_eq!(parse_response(&format_response(empty.clone())), Some(empty));
}

#[test]
fn every_version_and_status_is_read_back() {
    for version in [Version::Http09, Version::Http10, Version::Http11, Version::H2, Version::H3] {
        for status in [100, 200, 307, 404, 599, 799, 999] {
            let mut written = response(status, vec![("a", "")], b"x");
            written.version = version;
            assert_eq!(parse_response(&format_response(written.clone())), Some(written));
        }
    }
}

#[test]
fn built_responses_are_read_back() {
    let failed = error(StatusCode::not_found(), &config(), None);
    assert_eq!(parse_response(&format_response(failed.clone())), Some(failed));
    let moved = redirect(StatusCode::temporary_redirect(), &config(), Version::Http10, "/a".to_string());
    assert_eq!(parse_response(&format_response(moved.clone())), Some(moved));
}

#[test]
fn values_are_read_back_as_they_are_shown() {
    let written = response(200, vec![("x-note", "caf\u{e9}"), ("x-tab", "a\tb")], b"");
    let read = parse_response(&format_response(written)).unwrap();
    assert_eq!(read.headers.get("x-note"), Some(""));
    assert_eq!(read.headers.get("x-tab"), Some("a\tb"));
}

#[test]
fn malformed_responses_are_refused() {
    assert_eq!(parse_response(b""), None);
    assert_eq!(parse_response(b"HTTP/1.1 200 OK"), None);
    assert_eq!(parse_response(b"HTTP/1.1 200 OK\r\n"), None);
    assert_eq!(parse_response(b"HTTP/1.1 20 OK\r\n\r\n"), None);
    assert_eq!(parse_response(b"HTTP/1.1 099 Low\r\n\r\n"), None);
    assert_eq!(parse_response(b"HTTP/1.1 200OK\r\n\r\n"), None);
    assert_eq!(parse_response(b"HTTP/1.5 200 OK\r\n\r\n"), None);
    assert_eq!(parse_response(b"HTTP/1.1 200 OK\r\nno separator\r\n\r\n"), None);
    assert_eq!(parse_response(b"HTTP/1.1 200 OK\r\nhost: x\r\n"), None);
    assert_eq!(
        parse_response(b"HTTP/1.1 200 OK\r\ntransfer-encoding: chunked\r\n\r\nzz\r\n"),
        None
    );
}

#[test]
fn status_lines_and_headers_are_read_by_their_parts() {
    assert_eq!(
        parse_status_line(b"HTTP/1.0 418 I'm a teapot"),
        Some((Version::Http10, StatusCode::from_u16(418).unwrap()))
    );
    assert_eq!(parse_status_line(b"HTTP/1.0 418"), None);
    let data = b"skip\r\nA: 1\r\nb: 2: 3\r\n\r\nrest";
    let (headers, end) = parse_headers(data, 6).unwrap();
    assert_eq!(
        headers.entries,
        vec![
            Header { name: "A".to_string(), value: "1".to_string() },
            Header { name: "b".to_string(), value: "2: 3".to_string() },
        ]
    );
    assert_eq!(&data[end..], b"rest");
    assert_eq!(parse_headers(data, 100), None);
    assert_eq!(latin_text(b"a\xe9"), "a\u{e9}");
}
