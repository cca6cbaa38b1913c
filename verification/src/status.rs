//! Status codes, protocol versions and request methods.
use crate::text::{chars_of, same_text};
use vstd::prelude::*;
use vstd::string::*;

verus! {

/// An HTTP status code.
#[derive(Clone, Copy, Debug, PartialEq, Eq, Structural)]
pub struct StatusCode {
    pub code: u16,
}

/// What `http::StatusCode::canonical_reason` gives for a code; `None` also for
/// a number that is no status code.
pub uninterp spec fn reason_phrase(code: u16) -> Option<Seq<char>>;

/// Calls `http::StatusCode::from_u16` and then `canonical_reason`: the standard
/// reason phrase of a status code, where the number is a status code and has
/// one. The phrase depends on the number alone.
#[verifier::external_body]
fn http_reason(code: u16) -> (r: Option<String>)
    ensures
        r.is_some() == reason_phrase(code).is_some(),
        r.is_some() ==> r.unwrap()@ == reason_phrase(code).unwrap(),
{
    match http::StatusCode::from_u16(code) {
        Ok(status) => status.canonical_reason().map(String::from),
        Err(_) => None,
    }
}

impl StatusCode {
    /// A status code has three digits.
    pub open spec fn wf(self) -> bool {
        100 <= self.code <= 999
    }

    /// The status code with the given number, if it has three digits.
    pub fn from_u16(code: u16) -> (r: Option<StatusCode>)
        ensures
            r == if 100 <= code <= 999 {
                Some(StatusCode { code })
            } else {
                None::<StatusCode>
            },
    {
        if 100 <= code && code <= 999 {
            Some(StatusCode { code })
        } else {
            None
        }
    }

    /// The number of the code.
    #[verifier::allow_in_spec]
    pub fn as_u16(&self) -> u16
        returns
            self.code,
    {
        self.code
    }

    /// 200 OK.
    #[verifier::allow_in_spec]
    pub fn ok() -> StatusCode
        returns
            (StatusCode { code: 200 }),
    {
        StatusCode { code: 200 }
    }

    /// 307 Temporary Redirect.
    #[verifier::allow_in_spec]
    pub fn temporary_redirect() -> StatusCode
        returns
            (StatusCode { code: 307 }),
    {
        StatusCode { code: 307 }
    }

    /// 400 Bad Request.
    #[verifier::allow_in_spec]
    pub fn bad_request() -> StatusCode
        returns
            (StatusCode { code: 400 }),
    {
        StatusCode { code: 400 }
    }

    /// 401 Unauthorized.
    #[verifier::allow_in_spec]
    pub fn unauthorized() -> StatusCode
        returns
            (StatusCode { code: 401 }),
    {
        StatusCode { code: 401 }
    }

    /// 404 Not Found.
    #[verifier::allow_in_spec]
    pub fn not_found() -> StatusCode
        returns
            (StatusCode { code: 404 }),
    {
        StatusCode { code: 404 }
    }

    /// 405 Method Not Allowed.
    #[verifier::allow_in_spec]
    pub fn method_not_allowed() -> StatusCode
        returns
            (StatusCode { code: 405 }),
    {
        StatusCode { code: 405 }
    }

    /// 413 Payload Too Large.
    #[verifier::allow_in_spec]
    pub fn payload_too_large() -> StatusCode
        returns
            (StatusCode { code: 413 }),
    {
        StatusCode { code: 413 }
    }

    /// 500 Internal Server Error.
    #[verifier::allow_in_spec]
    pub fn internal_server_error() -> StatusCode
        returns
            (StatusCode { code: 500 }),
    {
        StatusCode { code: 500 }
    }

    /// 501 Not Implemented.
    #[verifier::allow_in_spec]
    pub fn not_implemented() -> StatusCode
        returns
            (StatusCode { code: 501 }),
    {
        StatusCode { code: 501 }
    }

    /// 505 HTTP Version Not Supported.
    #[verifier::allow_in_spec]
    pub fn http_version_not_supported() -> StatusCode
        returns
            (StatusCode { code: 505 }),
    {
        StatusCode { code: 505 }
    }

    /// 1xx.
    #[verifier::allow_in_spec]
    pub fn is_informational(&self) -> bool
        returns
            100 <= self.code < 200,
    {
        100 <= self.code && self.code < 200
    }

    /// 2xx.
    #[verifier::allow_in_spec]
    pub fn is_success(&self) -> bool
        returns
            200 <= self.code < 300,
    {
        200 <= self.code && self.code < 300
    }

    /// 3xx.
    #[verifier::allow_in_spec]
    pub fn is_redirection(&self) -> bool
        returns
            300 <= self.code < 400,
    {
        300 <= self.code && self.code < 400
    }

    /// 4xx.
    #[verifier::allow_in_spec]
    pub fn is_client_error(&self) -> bool
        returns
            400 <= self.code < 500,
    {
        400 <= self.code && self.code < 500
    }

    /// 5xx.
    #[verifier::allow_in_spec]
    pub fn is_server_error(&self) -> bool
        returns
            500 <= self.code < 600,
    {
        500 <= self.code && self.code < 600
    }

    /// The standard reason phrase, where the code has one.
    pub fn canonical_reason(&self) -> (r: Option<String>)
        ensures
            r.is_some() == reason_phrase(self.code).is_some(),
            r.is_some() ==> r.unwrap()@ == reason_phrase(self.code).unwrap(),
    {
        http_reason(self.code)
    }

    /// The reason phrase as it is written in a status line: the standard
    /// phrase where the code has one and it is visible text, else a
    /// placeholder.
    pub open spec fn reason_text(self) -> Seq<char> {
        written_reason(reason_phrase(self.code))
    }

    /// The code followed by its reason phrase: `404 Not Found`.
    pub open spec fn text(self) -> Seq<char> {
        code_and_reason(self.code, reason_phrase(self.code))
    }

    /// The code followed by its reason phrase.
    pub fn to_text(&self) -> (r: String)
        ensures
            r@ == self.text(),
    {
        match self.canonical_reason() {
            Some(p) => status_text(self.code, Some(p.as_str())),
            None => status_text(self.code, None),
        }
    }
}

/// A reason phrase as it is written: the phrase itself where there is one and
/// it is visible text, else a placeholder.
pub open spec fn written_reason(reason: Option<Seq<char>>) -> Seq<char> {
    match reason {
        Some(p) => if crate::headers::is_visible(p) {
            p
        } else {
            "<unknown status code>"@
        },
        None => "<unknown status code>"@,
    }
}

/// A code, a space, and the reason phrase as it is written.
pub open spec fn code_and_reason(code: u16, reason: Option<Seq<char>>) -> Seq<char> {
    decimal(code as nat) + seq![' '] + written_reason(reason)
}

/// The view of an optional string slice.
pub open spec fn reason_view(reason: Option<&str>) -> Option<Seq<char>> {
    match reason {
        Some(p) => Some(p@),
        None => None,
    }
}

/// A code followed by the given reason phrase, as they stand in a status
/// line.
pub fn status_text(code: u16, reason: Option<&str>) -> (r: String)
    ensures
        r@ == code_and_reason(code, reason_view(reason)),
{
    let mut out = decimal_string(code as u64);
    out.append(" ");
    proof {
        reveal_strlit(" ");
    }
    assert(out@ =~= decimal(code as nat) + seq![' ']);
    match reason {
        Some(p) => {
            if crate::headers::visible(&chars_of(p)) {
                out.append(p);
            } else {
                out.append("<unknown status code>");
            }
        },
        None => {
            out.append("<unknown status code>");
        },
    }
    out
}

/// The character of a decimal digit.
pub open spec fn digit_char(d: nat) -> char
    recommends
        d < 10,
{
    ((48 + d) as u8) as char
}

/// A natural number in decimal, without leading zeros.
pub open spec fn decimal(n: nat) -> Seq<char>
    decreases n,
{
    if n < 10 {
        seq![digit_char(n)]
    } else {
        decimal(n / 10).push(digit_char(n % 10))
    }
}

/// The digits of a number are visible characters other than white space.
pub proof fn lemma_decimal_is_value(n: nat)
    ensures
        decimal(n).len() > 0,
        forall|i: int| 0 <= i < decimal(n).len() ==> '0' <= #[trigger] decimal(n)[i] <= '9',
        crate::headers::is_header_value(decimal(n)),
        crate::headers::is_visible(decimal(n)),
    decreases n,
{
    if n >= 10 {
        lemma_decimal_is_value(n / 10);
    }
    assert forall|i: int| 0 <= i < decimal(n).len() implies '0' <= #[trigger] decimal(n)[i]
        <= '9' by {
        if n >= 10 && i < decimal(n / 10).len() {
            assert(decimal(n)[i] == decimal(n / 10)[i]);
        }
    }
}

/// Calls `Iterator::collect` of std on the characters of a vector: the
/// string made of exactly those characters, in order.
#[verifier::external_body]
pub(crate) fn string_of(v: &Vec<char>) -> (s: String)
    ensures
        s@ == v@,
{
    v.iter().collect()
}

/// The decimal digits of `n`.
pub fn decimal_chars(n: u64) -> (v: Vec<char>)
    ensures
        v@ == decimal(n as nat),
{
    let mut rev: Vec<char> = Vec::new();
    let mut m: u64 = n;
    while m >= 10
        invariant
            decimal(n as nat) == decimal(m as nat) + rev@.reverse(),
        decreases m,
    {
        let d: u8 = (m % 10) as u8;
        let c: char = (48 + d) as char;
        assert(c == digit_char((m % 10) as nat));
        assert(decimal(m as nat) == decimal((m / 10) as nat).push(c));
        assert(rev@.push(c).reverse() =~= seq![c] + rev@.reverse());
        assert(decimal((m / 10) as nat).push(c) + rev@.reverse() =~= decimal((m / 10) as nat) + (
        seq![c] + rev@.reverse()));
        rev.push(c);
        m = m / 10;
    }
    let d: u8 = m as u8;
    let c: char = (48 + d) as char;
    let mut out: Vec<char> = Vec::new();
    out.push(c);
    assert(out@ =~= decimal(m as nat));
    let mut k: usize = rev.len();
    while k > 0
        invariant
            k <= rev.len(),
            out@ == decimal(m as nat) + rev@.reverse().subrange(0, rev.len() - k),
        decreases k,
    {
        k -= 1;
        out.push(rev[k]);
        assert(rev@.reverse()[rev.len() - 1 - k] == rev@[k as int]);
        assert(out@ =~= decimal(m as nat) + rev@.reverse().subrange(0, rev.len() - k));
    }
    assert(rev@.reverse().subrange(0, rev.len() as int) =~= rev@.reverse());
    out
}

/// `n` in decimal.
pub fn decimal_string(n: u64) -> (s: String)
    ensures
        s@ == decimal(n as nat),
{
    let v = decimal_chars(n);
    string_of(&v)
}

/// A protocol version that the server recognises.
#[derive(Clone, Copy, Debug, PartialEq, Eq, Structural)]
pub enum Version {
    Http09,
    Http10,
    Http11,
    H2,
    H3,
}

impl Version {
    /// The version as it is written in a request or status line.
    pub open spec fn text(self) -> Seq<char> {
        match self {
            Version::Http09 => "HTTP/0.9"@,
            Version::Http10 => "HTTP/1.0"@,
            Version::Http11 => "HTTP/1.1"@,
            Version::H2 => "HTTP/2.0"@,
            Version::H3 => "HTTP/3.0"@,
        }
    }

    /// The version as it is written.
    pub fn as_str(&self) -> (r: &'static str)
        ensures
            r@ == self.text(),
    {
        match self {
            Version::Http09 => "HTTP/0.9",
            Version::Http10 => "HTTP/1.0",
            Version::Http11 => "HTTP/1.1",
            Version::H2 => "HTTP/2.0",
            Version::H3 => "HTTP/3.0",
        }
    }

    /// The version that a piece of text names, if any.
    pub open spec fn parse(s: Seq<char>) -> Option<Version> {
        if s == "HTTP/0.9"@ {
            Some(Version::Http09)
        } else if s == "HTTP/1.0"@ {
            Some(Version::Http10)
        } else if s == "HTTP/1.1"@ {
            Some(Version::Http11)
        } else if s == "HTTP/2.0"@ {
            Some(Version::H2)
        } else if s == "HTTP/3.0"@ {
            Some(Version::H3)
        } else {
            None
        }
    }

    /// The version that a text names, if any.
    pub fn from_text(s: &str) -> (r: Option<Version>)
        ensures
            r == Version::parse(s@),
    {
        if same_text(s, "HTTP/0.9") {
            Some(Version::Http09)
        } else if same_text(s, "HTTP/1.0") {
            Some(Version::Http10)
        } else if same_text(s, "HTTP/1.1") {
            Some(Version::Http11)
        } else if same_text(s, "HTTP/2.0") {
            Some(Version::H2)
        } else if same_text(s, "HTTP/3.0") {
            Some(Version::H3)
        } else {
            None
        }
    }
}

/// A character that may stand in a token: a method or a header name.
pub open spec fn is_tchar(c: char) -> bool {
    ('a' <= c <= 'z') || ('A' <= c <= 'Z') || ('0' <= c <= '9') || c == '!' || c == '#' || c == '$'
        || c == '%' || c == '&' || c == '\'' || c == '*' || c == '+' || c == '-' || c == '.' || c
        == '^' || c == '_' || c == '`' || c == '|' || c == '~'
}

/// A non-empty run of token characters.
pub open spec fn is_token(s: Seq<char>) -> bool {
    s.len() > 0 && forall|i: int| 0 <= i < s.len() ==> is_tchar(#[trigger] s[i])
}

/// Calls `http::Method::from_bytes`, which accepts exactly the non-empty
/// texts made of token characters.
#[verifier::external_body]
fn http_method_ok(token: &str) -> (r: bool)
    ensures
        r == is_token(token@),
{
    http::Method::from_bytes(token.as_bytes()).is_ok()
}

/// A request method: one of the nine standard methods, or any other token.
#[derive(Clone, Debug, PartialEq, Eq)]
pub enum Method {
    Options,
    Get,
    Post,
    Put,
    Delete,
    Head,
    Trace,
    Connect,
    Patch,
    Extension(String),
}

impl View for Method {
    type V = Seq<char>;

    /// The method's token.
    open spec fn view(&self) -> Seq<char> {
        match self {
            Method::Options => "OPTIONS"@,
            Method::Get => "GET"@,
            Method::Post => "POST"@,
            Method::Put => "PUT"@,
            Method::Delete => "DELETE"@,
            Method::Head => "HEAD"@,
            Method::Trace => "TRACE"@,
            Method::Connect => "CONNECT"@,
            Method::Patch => "PATCH"@,
            Method::Extension(s) => s@,
        }
    }
}

/// What the nine standard tokens hold.
pub proof fn lemma_method_names()
    ensures
        "OPTIONS"@ == seq!['O', 'P', 'T', 'I', 'O', 'N', 'S'],
        "GET"@ == seq!['G', 'E', 'T'],
        "POST"@ == seq!['P', 'O', 'S', 'T'],
        "PUT"@ == seq!['P', 'U', 'T'],
        "DELETE"@ == seq!['D', 'E', 'L', 'E', 'T', 'E'],
        "HEAD"@ == seq!['H', 'E', 'A', 'D'],
        "TRACE"@ == seq!['T', 'R', 'A', 'C', 'E'],
        "CONNECT"@ == seq!['C', 'O', 'N', 'N', 'E', 'C', 'T'],
        "PATCH"@ == seq!['P', 'A', 'T', 'C', 'H'],
{
    reveal_strlit("OPTIONS");
    reveal_strlit("GET");
    reveal_strlit("POST");
    reveal_strlit("PUT");
    reveal_strlit("DELETE");
    reveal_strlit("HEAD");
    reveal_strlit("TRACE");
    reveal_strlit("CONNECT");
    reveal_strlit("PATCH");
    assert("OPTIONS"@ =~= seq!['O', 'P', 'T', 'I', 'O', 'N', 'S']);
    assert("GET"@ =~= seq!['G', 'E', 'T']);
    assert("POST"@ =~= seq!['P', 'O', 'S', 'T']);
    assert("PUT"@ =~= seq!['P', 'U', 'T']);
    assert("DELETE"@ =~= seq!['D', 'E', 'L', 'E', 'T', 'E']);
    assert("HEAD"@ =~= seq!['H', 'E', 'A', 'D']);
    assert("TRACE"@ =~= seq!['T', 'R', 'A', 'C', 'E']);
    assert("CONNECT"@ =~= seq!['C', 'O', 'N', 'N', 'E', 'C', 'T']);
    assert("PATCH"@ =~= seq!['P', 'A', 'T', 'C', 'H']);
}

impl Method {
    /// The method that a token names.
    pub open spec fn named(s: Seq<char>) -> Method {
        if s == "OPTIONS"@ {
            Method::Options
        } else if s == "GET"@ {
            Method::Get
        } else if s == "POST"@ {
            Method::Post
        } else if s == "PUT"@ {
            Method::Put
        } else if s == "DELETE"@ {
            Method::Delete
        } else if s == "HEAD"@ {
            Method::Head
        } else if s == "TRACE"@ {
            Method::Trace
        } else if s == "CONNECT"@ {
            Method::Connect
        } else {
            Method::Patch
        }
    }

    /// Whether a token is one of the nine standard ones.
    pub open spec fn is_standard(s: Seq<char>) -> bool {
        s == "OPTIONS"@ || s == "GET"@ || s == "POST"@ || s == "PUT"@ || s == "DELETE"@ || s
            == "HEAD"@ || s == "TRACE"@ || s == "CONNECT"@ || s == "PATCH"@
    }

    /// An extension method holds a token that is none of the standard ones, so
    /// that each token has one representation.
    pub open spec fn wf(&self) -> bool {
        match self {
            Method::Extension(s) => is_token(s@) && !Method::is_standard(s@),
            _ => true,
        }
    }

    /// The method's token.
    pub fn as_str(&self) -> (r: &str)
        ensures
            r@ == self@,
    {
        match self {
            Method::Options => "OPTIONS",
            Method::Get => "GET",
            Method::Post => "POST",
            Method::Put => "PUT",
            Method::Delete => "DELETE",
            Method::Head => "HEAD",
            Method::Trace => "TRACE",
            Method::Connect => "CONNECT",
            Method::Patch => "PATCH",
            Method::Extension(s) => s.as_str(),
        }
    }

    /// Whether two methods have the same token.
    pub fn same(&self, other: &Method) -> (r: bool)
        ensures
            r == (self@ == other@),
    {
        same_text(self.as_str(), other.as_str())
    }

    /// The method with the given token, if the text is a token.
    pub fn from_token(token: &str) -> (r: Option<Method>)
        ensures
            r.is_some() == is_token(token@),
            r.is_some() ==> r.unwrap()@ == token@ && r.unwrap().wf(),
            r.is_some() && Method::is_standard(token@) ==> r.unwrap() == Method::named(token@),
    {
        if !http_method_ok(token) {
            return None;
        }
        let m = if same_text(token, "OPTIONS") {
            Method::Options
        } else if same_text(token, "GET") {
            Method::Get
        } else if same_text(token, "POST") {
            Method::Post
        } else if same_text(token, "PUT") {
            Method::Put
        } else if same_text(token, "DELETE") {
            Method::Delete
        } else if same_text(token, "HEAD") {
            Method::Head
        } else if same_text(token, "TRACE") {
            Method::Trace
        } else if same_text(token, "CONNECT") {
            Method::Connect
        } else if same_text(token, "PATCH") {
            Method::Patch
        } else {
            Method::Extension(token.to_owned())
        };
        Some(m)
    }
}

} // verus!
