use localhost::headers::Headers;
use localhost::message::Request;
use localhost::server::methods::get_method;
use localhost::server::requests::body::{get_body, get_chunked_body, split_once_str};
use localhost::server::requests::get_request;
use localhost::server::requests::headers::{format_header, get_headers, is_chunked};
use localhost::server::requests::path::{add_root_to_path, get_path};
use localhost::server::requests::utils::{get_line, get_split_index};
use localhost::server::requests::version::get_version;
use localhost::server_config::{Route, ServerConfig, Settings};
use localhost::status::{Method, StatusCode, Version};

fn config_with_limit(limit: usize) -> ServerConfig<'static> {
    ServerConfig {
        host: "127.0.0.1",
        ports: vec![8080],
        custom_error_path: None,
        body_size_limit: limit,
        routes: vec![],
    }
}

fn parse(head: &str, body: &[u8], limit: usize) -> Result<Request, StatusCode> {
    get_request(&config_with_limit(limit), (head.to_string(), body.to_vec()))
}

#[test]
fn test_add_root_to_path() {
    let path = "/foo";
    let route = Route { url_path: path, methods: vec![], handler: None, settings: None };
    let expected_path = "./foo".to_string();
    assert_eq!(add_root_to_path(&route, path), expected_path);
}

#[test]
fn add_root_to_path_puts_the_root_between_dot_and_path() {
    let route = Route {
        url_path: "/test.txt",
        methods: vec![],
        handler: None,
        settings: Some(Settings {
            http_redirections: None,
            redirect_status_code: None,
            root_path: Some("/files"),
            default_if_url_is_dir: None,
            default_if_request_is_dir: None,
            cgi_def: None,
            list_directory: false,
        }),
    };
    assert_eq!(add_root_to_path(&route, "/test.txt"), "./files/test.txt");
}

#[test]
fn test_get_version() {
    for version in ["HTTP/0.9", "HTTP/1.0", "HTTP/1.1", "HTTP/2.0", "HTTP/3.0"] {
        assert!(get_version(version).is_ok());
    }

    assert!(get_version("HTTP/BILL_CLINTON")
        .is_err_and(|code| code == StatusCode::http_version_not_supported()));
}

#[test]
fn get_version_maps_each_literal() {
    assert_eq!(get_version("GET / HTTP/0.9"), Ok(Version::Http09));
    assert_eq!(get_version("GET / HTTP/1.0"), Ok(Version::Http10));
    assert_eq!(get_version("GET / HTTP/1.1\r\nHost: x"), Ok(Version::Http11));
    assert_eq!(get_version("GET / HTTP/2.0"), Ok(Version::H2));
    assert_eq!(get_version("GET / HTTP/3.0"), Ok(Version::H3));
}

#[test]
fn get_version_without_a_version_is_a_bad_request() {
    assert_eq!(get_version("GET /"), Err(StatusCode::bad_request()));
    assert_eq!(get_version(""), Err(StatusCode::bad_request()));
}

#[test]
fn get_version_takes_the_first_word_that_holds_the_marker() {
    assert_eq!(
        get_version("GET /HTTP/1.1 HTTP/1.1"),
        Err(StatusCode::http_version_not_supported())
    );
}

#[test]
fn test_format_header() {
    assert!(format_header("Foo: bar").is_some_and(|(foo, bar)| foo == "Foo" && bar == "bar"));
    assert!(format_header("Foo: bar: baz").is_none());
}

#[test]
fn format_header_cuts_trailing_nul_and_space() {
    assert_eq!(format_header("Host: example.org  \0\0"), Some(("Host", "example.org")));
    assert_eq!(format_header("no separator"), None);
    assert_eq!(format_header(""), None);
}

#[test]
fn get_headers_drops_the_request_line_and_the_body() {
    let head = "GET /a HTTP/1.1\r\nHost: x\r\nAccept: */*\r\n\r\nbody: here";
    assert_eq!(get_headers(head), vec!["Host: x", "Accept: */*"]);
}

#[test]
fn get_headers_of_a_bare_request_line_is_empty() {
    assert!(get_headers("GET / HTTP/1.1").is_empty());
}

#[test]
fn test_get_chunked_body() {
    // Valid chunked body
    let input_body_1 = Vec::from("4\r\nTest\r\n5\r\n12345\r\n0\r\n\r\n");
    let limit_1 = 100;
    let expected_result_1 = Vec::from("Test12345");
    assert_eq!(get_chunked_body(input_body_1, limit_1), Ok(expected_result_1));

    // Body too long, exceeds limit
    let input_body_2 = Vec::from("4\r\nTest\r\n5\r\n12345\r\n0\r\n\r\n");
    let limit_2 = 5; // Set a limit that should be exceeded
    assert_eq!(get_chunked_body(input_body_2, limit_2), Err(StatusCode::payload_too_large()));

    // Invalid chunk size format
    let input_body_3 = Vec::from("invalid_size\r\n");
    let limit_3 = 100;
    assert_eq!(get_chunked_body(input_body_3, limit_3), Err(StatusCode::bad_request()));

    // No CRLF after chunk size
    let input_body_4 = Vec::from("3\r\nfoo\r\n12");
    let limit_4 = 100;
    assert_eq!(get_chunked_body(input_body_4, limit_4), Err(StatusCode::bad_request()));

    // Not enough data for next chunk
    let input_body_5 = Vec::from("10\r\nfoo\r\n12");
    let limit_5 = 100;
    assert_eq!(get_chunked_body(input_body_5, limit_5), Err(StatusCode::bad_request()));
}

#[test]
fn chunked_body_sizes_are_hexadecimal_in_either_case() {
    let data = "0123456789abcdefghijklmnopq";
    let lower = format!("1b\r\n{data}\r\n0\r\n\r\n");
    let upper = format!("1B\r\n{data}\r\n0\r\n\r\n");
    assert_eq!(get_chunked_body(lower.into_bytes(), 100), Ok(data.as_bytes().to_vec()));
    assert_eq!(get_chunked_body(upper.into_bytes(), 100), Ok(data.as_bytes().to_vec()));
}

#[test]
fn chunked_body_accepts_space_around_the_size_and_a_plus_sign() {
    assert_eq!(get_chunked_body(Vec::from(" +4 \r\nWiki\r\n0\r\n\r\n"), 10), Ok(Vec::from("Wiki")));
}

#[test]
fn chunked_body_at_the_limit_is_accepted() {
    assert_eq!(get_chunked_body(Vec::from("4\r\nTest\r\n0\r\n\r\n"), 4), Ok(Vec::from("Test")));
    assert_eq!(
        get_chunked_body(Vec::from("4\r\nTest\r\n0\r\n\r\n"), 3),
        Err(StatusCode::payload_too_large())
    );
}

#[test]
fn chunked_body_needs_cr_lf_after_each_chunk() {
    assert_eq!(get_chunked_body(Vec::from("4\r\nTestXX0\r\n\r\n"), 100), Err(StatusCode::bad_request()));
}

#[test]
fn chunked_body_may_end_without_a_last_chunk() {
    assert_eq!(get_chunked_body(Vec::from("4\r\nTest\r\n"), 100), Ok(Vec::from("Test")));
    assert_eq!(get_chunked_body(Vec::new(), 100), Ok(Vec::new()));
}

#[test]
fn chunked_body_refuses_an_empty_or_oversized_size() {
    assert_eq!(get_chunked_body(Vec::from("\r\nTest\r\n"), 100), Err(StatusCode::bad_request()));
    assert_eq!(
        get_chunked_body(Vec::from("fffffffffffffffffffffffff\r\nTest\r\n"), 100),
        Err(StatusCode::bad_request())
    );
}

#[test]
fn test_get_body() {
    let body = Vec::from("hej");
    assert!(get_body(body.clone(), 10).is_ok_and(|b| b == body), "Return should be: {body:?}");
    assert!(get_body(body, 1).is_err_and(|code| code == StatusCode::payload_too_large()));
}

#[test]
fn get_body_at_the_limit_is_accepted() {
    assert_eq!(get_body(Vec::from("hej"), 3), Ok(Vec::from("hej")));
    assert_eq!(get_body(Vec::new(), 0), Ok(Vec::new()));
}

#[test]
fn test_split_once_str() {
    assert!(split_once_str("hej".as_bytes(), b'x', b'y').is_none());
}

#[test]
fn split_once_str_cuts_at_the_first_pair() {
    let (chunk, rest) = split_once_str(b"ab\r\ncd\r\nef", b'\r', b'\n').unwrap();
    assert_eq!(chunk, b"ab");
    assert_eq!(rest, b"cd\r\nef");
}

#[test]
fn split_once_str_ignores_a_first_delimiter_at_the_end() {
    assert!(split_once_str(b"abc\r", b'\r', b'\n').is_none());
}

#[test]
fn test_get_split_index() {
    assert!(get_split_index("", 100).is_empty());
}

#[test]
fn get_split_index_falls_back_to_the_first_word() {
    assert_eq!(get_split_index("GET /a HTTP/1.1", 0), "GET");
    assert_eq!(get_split_index("GET /a HTTP/1.1", 1), "/a");
    assert_eq!(get_split_index("GET /a HTTP/1.1", 2), "HTTP/1.1");
    assert_eq!(get_split_index("GET /a HTTP/1.1", 3), "GET");
    assert_eq!(get_split_index("  \t one \u{a0} two  ", 1), "two");
}

#[test]
fn test_get_line() {
    assert!(get_line("", 1).is_empty());
    assert_eq!(get_line("hello", 100), "hello");
}

#[test]
fn get_line_splits_at_cr_lf() {
    let head = "GET / HTTP/1.1\r\nHost: x\r\n\r\n\0\0";
    assert_eq!(get_line(head, 0), "GET / HTTP/1.1");
    assert_eq!(get_line(head, 1), "Host: x");
    assert_eq!(get_line(head, 2), "");
    assert_eq!(get_line(head, 9), "GET / HTTP/1.1");
}

#[test]
fn get_path_is_the_second_word_of_the_first_line() {
    assert_eq!(get_path("GET /index.html HTTP/1.1\r\nHost: x"), "/index.html");
    assert_eq!(get_path("GET"), "GET");
    assert_eq!(get_path(""), "");
}

#[test]
fn get_method_reads_standard_and_extension_methods() {
    assert_eq!(get_method("DELETE /x HTTP/1.1"), Ok(Method::Delete));
    assert_eq!(get_method("BREW /pot HTTP/1.1"), Ok(Method::Extension("BREW".to_string())));
    assert_eq!(get_method("G(T /x HTTP/1.1"), Err(StatusCode::bad_request()));
}

#[test]
fn is_chunked_reads_the_first_transfer_encoding() {
    let mut headers = Headers::new();
    assert!(!is_chunked(Some(&headers)));
    assert!(headers.append("Transfer-Encoding", "chunked"));
    assert!(is_chunked(Some(&headers)));
    assert!(!is_chunked(None));

    let mut other = Headers::new();
    assert!(other.append("transfer-encoding", "gzip"));
    assert!(other.append("transfer-encoding", "chunked"));
    assert!(!is_chunked(Some(&other)));
}

#[test]
fn get_request_reads_a_plain_request() {
    let req = parse("GET /test.txt HTTP/1.1\r\nHost: 127.0.0.1\r\nX-Mixed: CaSe", b"", 10).unwrap();
    assert_eq!(req.method, Method::Get);
    assert_eq!(req.uri.path, "/test.txt");
    assert_eq!(req.uri.target, "/test.txt");
    assert_eq!(req.version, Version::Http11);
    assert_eq!(req.headers.len(), 2);
    assert_eq!(req.headers.get("host"), Some("127.0.0.1"));
    assert_eq!(req.headers.get("X-MIXED"), Some("case"));
    assert!(req.body.is_empty());
}

#[test]
fn get_request_decodes_a_chunked_body() {
    let req = parse(
        "POST /files/upload.txt HTTP/1.1\r\nTransfer-Encoding: chunked",
        b"4\r\nWiki\r\n5\r\npedia\r\n0\r\n\r\n",
        100,
    )
    .unwrap();
    assert_eq!(req.body, b"Wikipedia");
}

#[test]
fn get_request_refuses_a_body_over_the_limit() {
    assert_eq!(parse("POST /x HTTP/1.1", b"12345", 4), Err(StatusCode::payload_too_large()));
    assert_eq!(parse("POST /x HTTP/1.1", b"1234", 4).map(|r| r.body), Ok(b"1234".to_vec()));
    assert_eq!(
        parse("POST /x HTTP/1.1\r\nTransfer-Encoding: chunked", b"5\r\n12345\r\n0\r\n\r\n", 4),
        Err(StatusCode::payload_too_large())
    );
    assert_eq!(
        parse("POST /x HTTP/1.1\r\nTransfer-Encoding: chunked", b"zz\r\n12345\r\n", 4),
        Err(StatusCode::bad_request())
    );
}

#[test]
fn get_request_reports_each_kind_of_malformed_head() {
    assert_eq!(parse("GET /x", b"", 10), Err(StatusCode::bad_request()));
    assert_eq!(parse("GET /x HTTP/9.9", b"", 10), Err(StatusCode::http_version_not_supported()));
    assert_eq!(parse("G@T /x HTTP/1.1", b"", 10), Err(StatusCode::bad_request()));
    assert_eq!(parse("GET /a\u{7f}b HTTP/1.1", b"", 10), Err(StatusCode::bad_request()));
    assert_eq!(parse("GET /x HTTP/1.1\r\nBad Name: v", b"", 10), Err(StatusCode::bad_request()));
}

#[test]
fn get_request_checks_the_length_before_the_headers() {
    assert_eq!(
        parse("GET /x HTTP/1.1\r\nBad Name: v", b"12345", 4),
        Err(StatusCode::payload_too_large())
    );
}

#[test]
fn request_target_is_read_by_its_parts() {
    let req = Request::new(Method::Get, "http://localhost:8080/cgi/a.py?x=1&y=2").unwrap();
    assert_eq!(req.uri.path, "/cgi/a.py");
    assert_eq!(req.uri.query.as_deref(), Some("x=1&y=2"));
    assert_eq!(req.uri.port, Some(8080));
    assert!(Request::new(Method::Get, "").is_none());
    assert!(Request::new(Method::Get, "/a b").is_none());
}
