use localhost::server::handle::{
    parse_http_request, replace_path_in_request, serve_directory_contents, serve_response, Reader,
    WriteStep, Wrote, Writer,
};
use localhost::server::responses::BUFFER_SIZE;
use localhost::status::StatusCode;

#[test]
fn replace_path_with_stripped_prefix() {
    let head = "GET /old_path HTTP/1.1\r\n".to_string();
    let path = "./old_path";
    let default_path = "/new_path";

    let result = replace_path_in_request(head, path, default_path);
    assert_eq!(result, "GET new_path HTTP/1.1\r\n");
}

#[test]
fn replace_path_without_stripped_prefix() {
    let head = "POST /old_path HTTP/1.1\r\n".to_string();
    let path = "/old_path";
    let default_path = "/new_path";

    let result = replace_path_in_request(head, path, default_path);
    assert_eq!(result, "POST new_path HTTP/1.1\r\n");
}

#[test]
fn replace_path_not_found() {
    let head = "PUT /another_path HTTP/1.1\r\n".to_string();
    let path = "/old_path";
    let default_path = "/new_path";

    let result = replace_path_in_request(head, path, default_path);
    assert_eq!(result, "PUT /another_path HTTP/1.1\r\n");
}

#[test]
fn replace_path_replaces_the_first_occurrence_only() {
    let head = "GET /a HTTP/1.1\r\nReferer: /a\r\n".to_string();
    assert_eq!(
        replace_path_in_request(head, "/a", "./files/a/index.html"),
        "GET /files/a/index.html HTTP/1.1\r\nReferer: /a\r\n"
    );
}

#[test]
fn parse_http_request_splits_at_the_first_blank_line() {
    let (head, body) = parse_http_request(b"GET / HTTP/1.1\r\nHost: x\r\n\r\nab\r\n\r\ncd");
    assert_eq!(head, "GET / HTTP/1.1\r\nHost: x");
    assert_eq!(body, b"ab\r\n\r\ncd");
}

#[test]
fn parse_http_request_without_a_blank_line_is_all_head() {
    let (head, body) = parse_http_request(b"GET / HTTP/1.1\r\nHost: x\r\n");
    assert_eq!(head, "GET / HTTP/1.1\r\nHost: x\r\n");
    assert!(body.is_empty());
}

#[test]
fn parse_http_request_replaces_what_is_no_utf8_in_the_head() {
    let (head, body) = parse_http_request(b"GET /\xff HTTP/1.1\r\n\r\n\xff");
    assert_eq!(head, "GET /\u{fffd} HTTP/1.1");
    assert_eq!(body, b"\xff");
}

#[test]
fn reader_reads_on_until_a_short_read_after_the_head() {
    let mut reader = Reader::new();
    assert!(reader.feed(b"GET / HTTP/1.1\r\n"));
    assert!(!reader.feed(b"Host: x\r\n\r\n"));
    assert_eq!(reader.data, b"GET / HTTP/1.1\r\nHost: x\r\n\r\n");
}

#[test]
fn reader_reads_on_after_a_full_buffer() {
    let mut reader = Reader::new();
    let mut first = b"POST / HTTP/1.1\r\n\r\n".to_vec();
    first.resize(BUFFER_SIZE, b'a');
    assert!(reader.feed(&first));
    assert!(!reader.feed(b"tail"));
    assert_eq!(reader.data.len(), BUFFER_SIZE + 4);
}

#[test]
fn reader_stops_at_an_empty_read() {
    let mut reader = Reader::new();
    assert!(reader.feed(b"GET /"));
    assert!(!reader.feed(b""));
}

#[test]
fn writer_follows_partial_writes() {
    let mut writer = Writer { bytes: b"0123456789".to_vec(), written: 0 };
    assert_eq!(writer.pending(), b"0123456789");
    assert_eq!(writer.wrote(Wrote::Bytes(4)), WriteStep::Write);
    assert_eq!(writer.pending(), b"456789");
    assert_eq!(writer.wrote(Wrote::WouldBlock), WriteStep::Write);
    assert_eq!(writer.written, 4);
    assert_eq!(writer.wrote(Wrote::Bytes(6)), WriteStep::Flush);
    assert_eq!(writer.written, 10);
    assert!(writer.pending().is_empty());
}

#[test]
fn writer_stops_when_nothing_is_taken_or_the_write_fails() {
    let mut writer = Writer { bytes: b"0123456789".to_vec(), written: 3 };
    assert_eq!(writer.wrote(Wrote::Bytes(0)), WriteStep::Flush);
    assert_eq!(writer.written, 3);
    assert_eq!(writer.wrote(Wrote::Failed), WriteStep::Abort);
    assert_eq!(writer.written, 3);
    assert_eq!(writer.wrote(Wrote::Bytes(usize::MAX)), WriteStep::Flush);
    assert_eq!(writer.written, 10);
}

#[test]
fn directory_listing_links_each_entry() {
    let entries = vec!["a.txt".to_string(), "sub".to_string()];
    let response = serve_directory_contents("./files//", &entries);
    assert_eq!(response.status, StatusCode::ok());
    assert_eq!(response.headers.get("Content-Type"), Some("text/html"));
    assert_eq!(
        String::from_utf8(response.body.clone()).unwrap(),
        "<html><body><ul><li><a href=\"/./files/a.txt\">a.txt</a></li>\
         <li><a href=\"/./files/sub\">sub</a></li></ul></body></html>"
    );
    let writer = serve_response(response);
    assert!(writer.bytes.starts_with(b"HTTP/1.1 200 OK\r\ncontent-type: text/html\r\n\r\n<html>"));
}

#[test]
fn directory_listing_of_nothing_is_an_empty_list() {
    let response = serve_directory_contents("./files", &Vec::new());
    assert_eq!(response.body, b"<html><body><ul></ul></body></html>");
}
