//! Requests and responses as plain values.
use crate::headers::Headers;
use crate::status::{Method, StatusCode, Version};
use crate::type_aliases::Bytes;
use vstd::prelude::*;
use vstd::string::*;

verus! {

/// What `http::Uri` makes of a request target: `None` where it refuses the
/// text, else the path, the query and the port that it reads from it.
pub uninterp spec fn uri_parts(target: Seq<char>) -> Option<
    (Seq<char>, Option<Seq<char>>, Option<u16>),
>;

/// The view of an optional string.
pub open spec fn opt_view(o: Option<String>) -> Option<Seq<char>> {
    match o {
        Some(s) => Some(s@),
        None => None,
    }
}

/// Parses a request target with `http::Uri::from_str` and reads the result
/// with `Uri::path`, `Uri::query` and `Uri::port_u16`. All of it depends on
/// the text alone.
#[verifier::external_body]
fn http_uri(target: &str) -> (r: Option<(String, Option<String>, Option<u16>)>)
    ensures
        r.is_some() == uri_parts(target@).is_some(),
        r.is_some() ==> (r.unwrap().0@, opt_view(r.unwrap().1), r.unwrap().2) == uri_parts(
            target@,
        ).unwrap(),
{
    match target.parse::<http::Uri>() {
        Ok(uri) => Some(
            (String::from(uri.path()), uri.query().map(String::from), uri.port_u16()),
        ),
        Err(_) => None,
    }
}

/// A request target together with what was read from it.
#[derive(Clone, Debug, PartialEq, Eq)]
pub struct Uri {
    pub target: String,
    pub path: String,
    pub query: Option<String>,
    pub port: Option<u16>,
}

/// A request target and its parts, as texts.
pub struct UriView {
    pub target: Seq<char>,
    pub path: Seq<char>,
    pub query: Option<Seq<char>>,
    pub port: Option<u16>,
}

impl View for Uri {
    type V = UriView;

    open spec fn view(&self) -> UriView {
        UriView {
            target: self.target@,
            path: self.path@,
            query: opt_view(self.query),
            port: self.port,
        }
    }
}

/// The parts that a target text stands for, where it is a URI.
pub open spec fn uri_of(target: Seq<char>) -> Option<UriView> {
    match uri_parts(target) {
        Some(p) => Some(UriView { target, path: p.0, query: p.1, port: p.2 }),
        None => None,
    }
}

impl Uri {
    /// The parts are those of the target.
    pub open spec fn wf(&self) -> bool {
        uri_of(self.target@) == Some(self@)
    }

    /// Reads a request target.
    pub fn parse(target: &str) -> (r: Option<Uri>)
        ensures
            r.is_some() == uri_of(target@).is_some(),
            r.is_some() ==> r.unwrap()@ == uri_of(target@).unwrap() && r.unwrap().wf(),
    {
        match http_uri(target) {
            Some(parts) => Some(
                Uri { target: target.to_owned(), path: parts.0, query: parts.1, port: parts.2 },
            ),
            None => None,
        }
    }

    /// The path of the target.
    pub fn path(&self) -> (r: &str)
        ensures
            r@ == self@.path,
    {
        self.path.as_str()
    }
}

/// A parsed request.
#[derive(Clone, Debug, PartialEq, Eq)]
pub struct Request {
    pub method: Method,
    pub uri: Uri,
    pub version: Version,
    pub headers: Headers,
    pub body: Bytes,
}

/// A request, as texts and bytes.
pub struct RequestView {
    pub method: Seq<char>,
    pub uri: UriView,
    pub version: Version,
    pub headers: Seq<(Seq<char>, Seq<char>)>,
    pub body: Seq<u8>,
}

impl View for Request {
    type V = RequestView;

    open spec fn view(&self) -> RequestView {
        RequestView {
            method: self.method@,
            uri: self.uri@,
            version: self.version,
            headers: self.headers@,
            body: self.body@,
        }
    }
}

impl Request {
    /// The method has one representation, the parts of the target are those
    /// that its text stands for, and every header is sound.
    pub open spec fn wf(&self) -> bool {
        self.method.wf() && self.uri.wf() && self.headers.wf()
    }

    /// A request with the given method and target, HTTP/1.1, no headers and an
    /// empty body; `None` where the target is no URI.
    pub fn new(method: Method, target: &str) -> (r: Option<Request>)
        ensures
            r.is_some() == uri_of(target@).is_some(),
            r.is_some() ==> r.unwrap()@ == (RequestView {
                method: method@,
                uri: uri_of(target@).unwrap(),
                version: Version::Http11,
                headers: Seq::empty(),
                body: Seq::empty(),
            }),
            r.is_some() && method.wf() ==> r.unwrap().wf(),
    {
        match Uri::parse(target) {
            Some(uri) => Some(
                Request {
                    method,
                    uri,
                    version: Version::Http11,
                    headers: Headers::new(),
                    body: Vec::new(),
                },
            ),
            None => None,
        }
    }
}

/// What `Debug` of `http::Request` writes for a request with the given
/// method, target, version, headers and body; `None` where `http` does not
/// take them for a request.
pub uninterp spec fn request_debug(
    method: Seq<char>,
    target: Seq<char>,
    version: Version,
    headers: Seq<(Seq<char>, Seq<char>)>,
    body: Seq<u8>,
) -> Option<Seq<char>>;

/// Builds the request with `http::request::Builder` (`method`, `uri`,
/// `version`, `header` for each header in order, `body`) and writes it with
/// its `Debug`. All of it depends on the parts alone.
#[verifier::external_body]
fn http_debug(method: &str, target: &str, version: Version, headers: &Headers, body: &Bytes) -> (r:
    Option<String>)
    ensures
        opt_view(r) == request_debug(method@, target@, version, headers@, body@),
{
    let version = match version {
        Version::Http09 => http::Version::HTTP_09,
        Version::Http10 => http::Version::HTTP_10,
        Version::Http11 => http::Version::HTTP_11,
        Version::H2 => http::Version::HTTP_2,
        Version::H3 => http::Version::HTTP_3,
    };
    let mut b = http::Request::builder().method(method).uri(target).version(version);
    for h in headers.entries.iter() {
        b = b.header(h.name.as_str(), h.value.as_str());
    }
    match b.body(body.clone()) {
        Ok(req) => Some(format!("{:?}", req)),
        Err(_) => None,
    }
}

/// The debug text of a request, on one line, as `http` writes it.
pub open spec fn debug_text(r: RequestView) -> Option<Seq<char>> {
    request_debug(r.method, r.uri.target, r.version, r.headers, r.body)
}

impl Request {
    /// The debug text of the request; `None` where its parts do not make a
    /// request for `http`.
    pub fn to_debug_text(&self) -> (r: Option<String>)
        ensures
            opt_view(r) == debug_text(self@),
    {
        http_debug(
            self.method.as_str(),
            self.uri.target.as_str(),
            self.version,
            &self.headers,
            &self.body,
        )
    }
}

/// A response to be written.
#[derive(Clone, Debug, PartialEq, Eq)]
pub struct Response {
    pub status: StatusCode,
    pub version: Version,
    pub headers: Headers,
    pub body: Bytes,
}

/// A response, as texts and bytes.
pub struct ResponseView {
    pub status: StatusCode,
    pub version: Version,
    pub headers: Seq<(Seq<char>, Seq<char>)>,
    pub body: Seq<u8>,
}

impl View for Response {
    type V = ResponseView;

    open spec fn view(&self) -> ResponseView {
        ResponseView {
            status: self.status,
            version: self.version,
            headers: self.headers@,
            body: self.body@,
        }
    }
}

impl Response {
    /// The status has three digits and every header is sound.
    pub open spec fn wf(&self) -> bool {
        self.status.wf() && self.headers.wf()
    }
}

} // verus!
