use localhost::client::{
    get_body, get_content_length, get_content_type, get_cookies, set_cookies, to_bytes, CgiError,
};

const REQUEST: &str = "POST /a HTTP/1.1\nContent-Type: text/html\nContent-Length: 1337\n\
                       Cookie: a=1;b=2\nSet-Cookie: foo_bar=baz\nSet-Cookie: other=1; Path=/\n\nbody";

#[test]
fn to_bytes_gives_the_encoding() {
    assert_eq!(to_bytes("hej"), b"hej");
    assert_eq!(to_bytes("å"), vec![0xc3, 0xa5]);
    assert!(to_bytes("").is_empty());
}

#[test]
fn set_cookies_collects_the_second_words() {
    assert_eq!(set_cookies(REQUEST), Some(vec!["foo_bar=baz", "other=1;"]));
    assert_eq!(set_cookies("GET / HTTP/1.1\nCookie: a=1"), None);
    assert_eq!(set_cookies("Set-Cookie"), Some(vec!["Set-Cookie"]));
}

#[test]
fn get_cookies_cuts_the_first_cookie_line_at_semicolons() {
    assert_eq!(get_cookies(REQUEST), Some(vec!["Cookie: a=1", "b=2"]));
    assert_eq!(get_cookies("Set-Cookie: a;b\nCookie: c"), Some(vec!["Set-Cookie: a", "b"]));
    assert_eq!(get_cookies("GET / HTTP/1.1"), None);
}

#[test]
fn content_fields_are_the_second_words_of_their_lines() {
    assert_eq!(get_content_length(REQUEST), Some("1337"));
    assert_eq!(get_content_type(REQUEST), Some("text/html"));
    assert_eq!(get_content_length("GET / HTTP/1.1"), None);
    assert_eq!(get_content_type("Content-Type:"), Some("Content-Type:"));
}

#[test]
fn get_body_is_what_follows_the_last_empty_line() {
    assert_eq!(get_body(REQUEST, 4), Some("body"));
    assert_eq!(get_body(REQUEST, 3), None);
    assert_eq!(get_body("a\n\nb\n\nc\0\0", 1), Some("c"));
    assert_eq!(get_body("no empty line", 20), Some("no empty line"));
    assert_eq!(get_body("x\n\nåå", 3), None);
    assert_eq!(get_body("x\n\nåå", 4), Some("åå"));
    assert_eq!(get_body("", 0), Some(""));
}

#[test]
fn script_errors_are_told_apart() {
    assert_ne!(CgiError::NotFound, CgiError::BodyTooLarge);
    assert_ne!(CgiError::BodyTooLarge, CgiError::ExecutionError);
}
