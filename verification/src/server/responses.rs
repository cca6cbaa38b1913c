//! Building responses and writing them out as bytes.
use crate::headers::{is_header_value, shown, to_lower, visible, Headers};
use crate::message::{Response, ResponseView};
use crate::server::requests::body::crlf_bytes;
use crate::server::requests::path::holds_text;
use crate::server_config::ServerConfig;
use crate::status::{decimal, decimal_string, StatusCode, Version};
use crate::text::{chars_of, last_index_of, lower, rfind_char, same_chars, same_text};
use crate::type_aliases::{Bytes, Path};
use vstd::prelude::*;
use vstd::string::*;
use vstd::utf8::encode_utf8;

verus! {

/// The most bytes that are read at once, and the most that one chunk of a
/// chunked response holds.
pub const BUFFER_SIZE: usize = 1024;

/// The text after the last dot of a path; the whole path where it has no
/// dot.
pub open spec fn extension_of(path: Seq<char>) -> Seq<char> {
    path.subrange(last_index_of(path, '.') + 1, path.len() as int)
}

/// The media type that goes with a file extension.
pub open spec fn media_type(ext: Seq<char>) -> Seq<char> {
    if ext == "html"@ {
        "text/html"@
    } else if ext == "css"@ {
        "text/css"@
    } else if ext == "js"@ {
        "text/javascript"@
    } else if ext == "txt"@ {
        "text/plain"@
    } else if ext == "xml"@ {
        "text/xml"@
    } else if ext == "http"@ {
        "message/http"@
    } else if ext == "jpeg"@ || ext == "jpg"@ {
        "image/jpeg"@
    } else if ext == "png"@ {
        "image/png"@
    } else if ext == "gif"@ {
        "image/gif"@
    } else if ext == "bmp"@ {
        "image/bmp"@
    } else if ext == "svg"@ {
        "image/svg+xml"@
    } else if ext == "aac"@ {
        "audio/aac"@
    } else if ext == "eac3"@ {
        "audio/eac3"@
    } else if ext == "mp3"@ {
        "audio/mpeg"@
    } else if ext == "ogg"@ {
        "audio/ogg"@
    } else if ext == "mp4"@ {
        "video/mp4"@
    } else if ext == "webm"@ {
        "video/webm"@
    } else if ext == "ogv"@ {
        "video/ogg"@
    } else if ext == "json"@ {
        "application/json"@
    } else if ext == "pdf"@ {
        "application/pdf"@
    } else if ext == "zip"@ {
        "application/zip"@
    } else if ext == "tar"@ {
        "application/x-tar"@
    } else if ext == "gz"@ {
        "application/gzip"@
    } else if ext == "exe"@ || ext == "msi"@ {
        "application/octet-stream"@
    } else if ext == "woff"@ {
        "application/font-woff"@
    } else if ext == "woff2"@ {
        "application/font-woff2"@
    } else if ext == "ttf"@ || ext == "otf"@ {
        "application/font-sfnt"@
    } else {
        "text/plain"@
    }
}

/// The media type that goes with a file extension.
pub fn media_type_of(ext: &str) -> (r: &'static str)
    ensures
        r@ == media_type(ext@),
{
    if same_text(ext, "html") {
        "text/html"
    } else if same_text(ext, "css") {
        "text/css"
    } else if same_text(ext, "js") {
        "text/javascript"
    } else if same_text(ext, "txt") {
        "text/plain"
    } else if same_text(ext, "xml") {
        "text/xml"
    } else if same_text(ext, "http") {
        "message/http"
    } else if same_text(ext, "jpeg") || same_text(ext, "jpg") {
        "image/jpeg"
    } else if same_text(ext, "png") {
        "image/png"
    } else if same_text(ext, "gif") {
        "image/gif"
    } else if same_text(ext, "bmp") {
        "image/bmp"
    } else if same_text(ext, "svg") {
        "image/svg+xml"
    } else if same_text(ext, "aac") {
        "audio/aac"
    } else if same_text(ext, "eac3") {
        "audio/eac3"
    } else if same_text(ext, "mp3") {
        "audio/mpeg"
    } else if same_text(ext, "ogg") {
        "audio/ogg"
    } else if same_text(ext, "mp4") {
        "video/mp4"
    } else if same_text(ext, "webm") {
        "video/webm"
    } else if same_text(ext, "ogv") {
        "video/ogg"
    } else if same_text(ext, "json") {
        "application/json"
    } else if same_text(ext, "pdf") {
        "application/pdf"
    } else if same_text(ext, "zip") {
        "application/zip"
    } else if same_text(ext, "tar") {
        "application/x-tar"
    } else if same_text(ext, "gz") {
        "application/gzip"
    } else if same_text(ext, "exe") || same_text(ext, "msi") {
        "application/octet-stream"
    } else if same_text(ext, "woff") {
        "application/font-woff"
    } else if same_text(ext, "woff2") {
        "application/font-woff2"
    } else if same_text(ext, "ttf") || same_text(ext, "otf") {
        "application/font-sfnt"
    } else {
        "text/plain"
    }
}

/// Every media type is a sound header value.
pub proof fn lemma_media_type_sound(ext: Seq<char>)
    ensures
        is_header_value(media_type(ext)),
{
    reveal_strlit("text/html");
    reveal_strlit("text/css");
    reveal_strlit("text/javascript");
    reveal_strlit("text/plain");
    reveal_strlit("text/xml");
    reveal_strlit("message/http");
    reveal_strlit("image/jpeg");
    reveal_strlit("image/png");
    reveal_strlit("image/gif");
    reveal_strlit("image/bmp");
    reveal_strlit("image/svg+xml");
    reveal_strlit("audio/aac");
    reveal_strlit("audio/eac3");
    reveal_strlit("audio/mpeg");
    reveal_strlit("audio/ogg");
    reveal_strlit("video/mp4");
    reveal_strlit("video/webm");
    reveal_strlit("video/ogg");
    reveal_strlit("application/json");
    reveal_strlit("application/pdf");
    reveal_strlit("application/zip");
    reveal_strlit("application/x-tar");
    reveal_strlit("application/gzip");
    reveal_strlit("application/octet-stream");
    reveal_strlit("application/font-woff");
    reveal_strlit("application/font-woff2");
    reveal_strlit("application/font-sfnt");
}

/// The media type of the file that a path names, by its extension.
pub fn content_type(path: &str) -> (r: String)
    ensures
        r@ == media_type(extension_of(path@)),
{
    let v = chars_of(path);
    let end = v.len();
    let start = match rfind_char(&v, '.') {
        Some(i) => i + 1,
        None => 0,
    };
    // "/test.html" -> "html"
    let file_extension = path.substring_char(start, end);
    media_type_of(file_extension).to_owned()
}

/// The header lines of a response head: for each header its name, `: `, its
/// value as it is shown, and CR LF.
pub open spec fn header_block(h: Seq<(Seq<char>, Seq<char>)>) -> Seq<char>
    decreases h.len(),
{
    if h.len() == 0 {
        Seq::empty()
    } else {
        header_block(h.drop_last()) + h.last().0 + ": "@ + shown(h.last().1) + "\r\n"@
    }
}

/// The head of a response: the status line, the header lines and the blank
/// line that ends them.
pub open spec fn head_text(r: ResponseView) -> Seq<char> {
    r.version.text() + " "@ + r.status.text() + "\r\n"@ + header_block(r.headers) + "\r\n"@
}

/// Whether some `transfer-encoding` header says `chunked`, in whatever case.
pub open spec fn asks_chunked(h: Seq<(Seq<char>, Seq<char>)>) -> bool {
    exists|i: int|
        0 <= i < h.len() && (#[trigger] h[i]).0 == "transfer-encoding"@ && lower(shown(h[i].1))
            == "chunked"@
}

/// The ASCII code of a hexadecimal digit, in upper case.
pub open spec fn hex_char(d: nat) -> u8
    recommends
        d < 16,
{
    if d < 10 {
        (48 + d) as u8
    } else {
        (55 + d) as u8
    }
}

/// A number in hexadecimal, upper case, without leading zeros.
pub open spec fn hex_upper(n: nat) -> Seq<u8>
    decreases n,
{
    if n < 16 {
        seq![hex_char(n)]
    } else {
        hex_upper(n / 16).push(hex_char(n % 16))
    }
}

/// One chunk on the wire: its length in hexadecimal, CR LF, its bytes, CR
/// LF.
pub open spec fn frame(chunk: Seq<u8>) -> Seq<u8> {
    hex_upper(chunk.len()) + crlf_bytes() + chunk + crlf_bytes()
}

/// The bytes of `body` from `pos` on as chunks of `size` bytes, the last one
/// perhaps shorter.
pub open spec fn frames_from(body: Seq<u8>, pos: int, size: int) -> Seq<u8>
    decreases body.len() - pos,
{
    if pos < 0 || pos >= body.len() || size <= 0 {
        Seq::empty()
    } else {
        let n = if body.len() - pos < size {
            body.len() - pos
        } else {
            size
        };
        frame(body.subrange(pos, pos + n)) + frames_from(body, pos + n, size)
    }
}

/// The chunk that ends a chunked body.
pub open spec fn last_frame() -> Seq<u8> {
    seq![48u8, 13u8, 10u8, 13u8, 10u8]
}

/// The size of the chunks that a body is written in.
pub open spec fn frame_size(body: Seq<u8>) -> int {
    if body.len() < BUFFER_SIZE {
        body.len() as int
    } else {
        BUFFER_SIZE as int
    }
}

/// A response on the wire: the head, then the body. Where a header asks for
/// it, the body is written in chunks and ended by a chunk of size 0, which is
/// written also where the body is empty.
pub open spec fn wire(r: ResponseView) -> Seq<u8> {
    let head = encode_utf8(head_text(r));
    if asks_chunked(r.headers) {
        head + frames_from(r.body, 0, frame_size(r.body)) + last_frame()
    } else {
        head + r.body
    }
}

/// `n` in hexadecimal.
pub fn hex_upper_bytes(n: usize) -> (v: Vec<u8>)
    ensures
        v@ == hex_upper(n as nat),
{
    let mut rev: Vec<u8> = Vec::new();
    let mut m: usize = n;
    while m >= 16
        invariant
            hex_upper(n as nat) == hex_upper(m as nat) + rev@.reverse(),
        decreases m,
    {
        let d: u8 = (m % 16) as u8;
        let c: u8 = if d < 10 {
            48 + d
        } else {
            55 + d
        };
        assert(c == hex_char((m % 16) as nat));
        assert(hex_upper(m as nat) == hex_upper((m / 16) as nat).push(c));
        assert(rev@.push(c).reverse() =~= seq![c] + rev@.reverse());
        assert(hex_upper((m / 16) as nat).push(c) + rev@.reverse() =~= hex_upper((m / 16) as nat)
            + (seq![c] + rev@.reverse()));
        rev.push(c);
        m = m / 16;
    }
    let d: u8 = m as u8;
    let c: u8 = if d < 10 {
        48 + d
    } else {
        55 + d
    };
    let mut out: Vec<u8> = Vec::new();
    out.push(c);
    assert(out@ =~= hex_upper(m as nat));
    let mut k: usize = rev.len();
    while k > 0
        invariant
            k <= rev.len(),
            out@ == hex_upper(m as nat) + rev@.reverse().subrange(0, rev.len() - k),
        decreases k,
    {
        k -= 1;
        out.push(rev[k]);
        assert(rev@.reverse()[rev.len() - 1 - k] == rev@[k as int]);
        assert(out@ =~= hex_upper(m as nat) + rev@.reverse().subrange(0, rev.len() - k));
    }
    assert(rev@.reverse().subrange(0, rev.len() as int) =~= rev@.reverse());
    out
}

/// Whether some `transfer-encoding` header says `chunked`, in whatever case.
pub fn is_chunked(headers: &Headers) -> (r: bool)
    ensures
        r == asks_chunked(headers@),
{
    let name = chars_of("transfer-encoding");
    let word = chars_of("chunked");
    let mut i: usize = 0;
    while i < headers.entries.len()
        invariant
            i <= headers.entries.len(),
            name@ == "transfer-encoding"@,
            word@ == "chunked"@,
            forall|j: int|
                0 <= j < i ==> !((#[trigger] headers@[j]).0 == "transfer-encoding"@ && lower(
                    shown(headers@[j].1),
                ) == "chunked"@),
        decreases headers.entries.len() - i,
    {
        let n = chars_of(headers.entries[i].name.as_str());
        let v = chars_of(headers.entries[i].value.as_str());
        assert(headers@[i as int] == headers.entries@[i as int]@);
        if same_chars(&n, &name) {
            let text = if visible(&v) {
                to_lower(&v)
            } else {
                Vec::new()
            };
            assert(text@ =~= lower(shown(v@)));
            if same_chars(&text, &word) {
                return true;
            }
        }
        i += 1;
    }
    false
}

/// The header lines of a response head.
pub fn header_block_of(headers: &Headers) -> (r: String)
    ensures
        r@ == header_block(headers@),
{
    let mut out = String::new();
    let mut i: usize = 0;
    assert(headers@.subrange(0, 0) =~= Seq::<(Seq<char>, Seq<char>)>::empty());
    while i < headers.entries.len()
        invariant
            i <= headers.entries.len(),
            out@ == header_block(headers@.subrange(0, i as int)),
        decreases headers.entries.len() - i,
    {
        let key = headers.entries[i].name.as_str();
        let value = headers.entries[i].value.as_str();
        assert(headers@[i as int] == headers.entries@[i as int]@);
        assert(headers@.subrange(0, i + 1).drop_last() =~= headers@.subrange(0, i as int));
        assert(headers@.subrange(0, i + 1).last() == headers@[i as int]);
        out.append(key);
        out.append(": ");
        if visible(&chars_of(value)) {
            out.append(value);
        } else {
            assert(out@ + Seq::<char>::empty() =~= out@);
        }
        out.append("\r\n");
        i += 1;
    }
    assert(headers@.subrange(0, headers@.len() as int) =~= headers@);
    out
}

/// Appends one chunk as it goes on the wire.
pub fn write_frame(out: &mut Vec<u8>, chunk: &[u8])
    ensures
        final(out)@ == old(out)@ + frame(chunk@),
{
    let ghost before = out@;
    let digits = hex_upper_bytes(chunk.len());
    out.extend_from_slice(digits.as_slice());
    out.push(13);
    out.push(10);
    assert(out@ =~= before + (digits@ + crlf_bytes()));
    out.extend_from_slice(chunk);
    out.push(13);
    out.push(10);
    assert(out@ =~= before + (digits@ + crlf_bytes() + chunk@ + crlf_bytes()));
}

/// The response as it goes on the wire.
pub fn format_response(response: Response) -> (r: Bytes)
    ensures
        r@ == wire(response@),
{
    // Split up the response into head and parts
    let mut head = String::from_str(response.version.as_str());
    head.append(" ");
    head.append(response.status.to_text().as_str());
    head.append("\r\n");

    // Get all headers into the response
    head.append(header_block_of(&response.headers).as_str());
    head.append("\r\n");  // Add the extra CRLF before the response body
    assert(head@ == head_text(response@));

    let mut resp: Vec<u8> = Vec::new();
    resp.extend_from_slice(head.as_str().as_bytes());
    assert(resp@ =~= encode_utf8(head@));

    let body = &response.body;
    let chunk_size = if body.len() < BUFFER_SIZE {
        body.len()
    } else {
        BUFFER_SIZE
    };
    if is_chunked(&response.headers) {
        let ghost all = frames_from(body@, 0, chunk_size as int);
        let ghost mut done: Seq<u8> = Seq::empty();
        let mut pos: usize = 0;
        assert(resp@ =~= encode_utf8(head@) + done);
        while pos < body.len()
            invariant
                pos <= body.len(),
                body.len() > 0 ==> chunk_size > 0,
                all == frames_from(body@, 0, chunk_size as int),
                resp@ == encode_utf8(head@) + done,
                done + frames_from(body@, pos as int, chunk_size as int) == all,
            decreases body.len() - pos,
        {
            let n = if body.len() - pos < chunk_size {
                body.len() - pos
            } else {
                chunk_size
            };
            let chunk = vstd::slice::slice_subrange(body.as_slice(), pos, pos + n);
            write_frame(&mut resp, chunk);
            proof {
                let f = frame(body@.subrange(pos as int, pos + n));
                let rest = frames_from(body@, pos + n, chunk_size as int);
                assert(frames_from(body@, pos as int, chunk_size as int) == f + rest);
                assert(resp@ =~= encode_utf8(head@) + (done + f));
                assert((done + f) + rest =~= done + (f + rest));
                done = done + f;
            }
            pos = pos + n;
        }
        resp.push(48);
        resp.push(13);
        resp.push(10);
        resp.push(13);
        resp.push(10);  // End of chunks
        assert(done + Seq::<u8>::empty() =~= done);
        assert(resp@ =~= encode_utf8(head@) + all + last_frame());
    } else {
        resp.extend_from_slice(body.as_slice());  // No chunks
    }
    resp
}

/// Whether `path` is among the redirections.
pub fn is_redirect(path: &str, redirections: &Option<Vec<Path>>) -> (r: bool)
    ensures
        r == match redirections {
            Some(list) => exists|k: int| 0 <= k < list@.len() && (#[trigger] list@[k])@ == path@,
            None => false,
        },
{
    match redirections {
        Some(list) => holds_text(list, path),
        None => false,
    }
}

/// A response without a body that carries the host.
pub fn informational(status: StatusCode, config: &ServerConfig, version: Version) -> (r: Response)
    requires
        is_header_value(config.host@),
    ensures
        r@ == (ResponseView {
            status,
            version,
            headers: seq![("host"@, config.host@)],
            body: Seq::empty(),
        }),
{
    let mut headers = Headers::new();
    proof {
        crate::headers::lemma_written_names();
    }
    headers.append("host", config.host);
    assert(headers@ =~= seq![("host"@, config.host@)]);
    Response { status, version, headers, body: Vec::new() }
}

/// A redirection to `path`: the status, the host and the path as location,
/// without a body.
pub open spec fn redirect_view(
    status: StatusCode,
    config: ServerConfig,
    version: Version,
    path: Seq<char>,
) -> ResponseView {
    ResponseView {
        status,
        version,
        headers: seq![("host"@, config.host@), ("location"@, path)],
        body: Seq::empty(),
    }
}

/// A redirection to `path`.
pub fn redirect(status: StatusCode, config: &ServerConfig, version: Version, path: String) -> (r:
    Response)
    requires
        is_header_value(config.host@),
        is_header_value(path@),
    ensures
        r@ == redirect_view(status, *config, version, path@),
{
    let mut headers = Headers::new();
    proof {
        crate::headers::lemma_written_names();
    }
    headers.append("host", config.host);
    headers.append("location", path.as_str());
    assert(headers@ =~= seq![("host"@, config.host@), ("location"@, path@)]);
    Response { status, version, headers, body: Vec::new() }
}

/// A response in the making: status, version and headers; `sound` says
/// whether every header given so far was accepted.
#[derive(Clone, Debug)]
pub struct Builder {
    pub status: StatusCode,
    pub version: Version,
    pub headers: Headers,
    pub sound: bool,
}

impl Builder {
    /// 200, HTTP/1.1, no headers.
    pub fn new() -> (r: Builder)
        ensures
            r.status == StatusCode::ok(),
            r.version == Version::Http11,
            r.headers@ == Seq::<(Seq<char>, Seq<char>)>::empty(),
            r.sound,
    {
        Builder {
            status: StatusCode::ok(),
            version: Version::Http11,
            headers: Headers::new(),
            sound: true,
        }
    }

    /// Sets the status.
    pub fn status(self, status: StatusCode) -> (r: Builder)
        ensures
            r.status == status,
            r.version == self.version,
            r.headers == self.headers,
            r.sound == self.sound,
    {
        Builder { status, version: self.version, headers: self.headers, sound: self.sound }
    }

    /// Sets the version.
    pub fn version(self, version: Version) -> (r: Builder)
        ensures
            r.status == self.status,
            r.version == version,
            r.headers == self.headers,
            r.sound == self.sound,
    {
        Builder { status: self.status, version, headers: self.headers, sound: self.sound }
    }

    /// Adds a header. One that is refused makes the builder unsound, and
    /// an unsound builder stays so.
    pub fn header(self, name: &str, value: &str) -> (r: Builder)
        ensures
            r.status == self.status,
            r.version == self.version,
            r.sound == (self.sound && crate::headers::is_header_name(name@) && is_header_value(
                value@,
            )),
            r.sound ==> r.headers@ == self.headers@.push((lower(name@), value@)),
    {
        let mut headers = self.headers;
        let sound = if self.sound {
            headers.append(name, value)
        } else {
            false
        };
        Builder { status: self.status, version: self.version, headers, sound }
    }

    /// The response with the given body; `None` where a header was refused.
    pub fn body(self, body: Bytes) -> (r: Option<Response>)
        ensures
            r.is_some() == self.sound,
            r.is_some() ==> r.unwrap()@ == (ResponseView {
                status: self.status,
                version: self.version,
                headers: self.headers@,
                body: body@,
            }),
    {
        if self.sound {
            Some(
                Response {
                    status: self.status,
                    version: self.version,
                    headers: self.headers,
                    body,
                },
            )
        } else {
            None
        }
    }
}

/// Every name is a header name in lower case and every value a header
/// value.
pub open spec fn all_sound(h: Seq<(Seq<char>, Seq<char>)>) -> bool {
    forall|i: int|
        0 <= i < h.len() ==> crate::headers::is_header_name((#[trigger] h[i]).0) && lower(h[i].0)
            == h[i].0 && is_header_value(h[i].1)
}

/// The response with the given parts, or `failure` where a header is not
/// sound.
pub open spec fn assembled(
    status: StatusCode,
    version: Version,
    headers: Seq<(Seq<char>, Seq<char>)>,
    body: Seq<u8>,
    failure: StatusCode,
) -> Result<ResponseView, StatusCode> {
    if all_sound(headers) {
        Ok(ResponseView { status, version, headers, body })
    } else {
        Err(failure)
    }
}

/// The view of a response or the status that took its place.
pub open spec fn response_view(r: Result<Response, StatusCode>) -> Result<
    ResponseView,
    StatusCode,
> {
    match r {
        Ok(resp) => Ok(resp@),
        Err(e) => Err(e),
    }
}

/// The generated error page up to the code in its title.
pub const ERROR_PAGE_TOP: &'static str = "<!DOCTYPE html>\n<html lang=\"en\">\n<head>\n    <meta charset=\"UTF-8\">\n    <title>";

/// The generated error page between its title and the heading.
pub const ERROR_PAGE_STYLE: &'static str = "</title>\n    <style>\n        body {\n            display: flex;\n            justify-content: center;\n            align-items: center;\n            height: 100vh;\n            margin: 0;\n        }\n\n        h1 {\n            text-align: center;\n            font-size: xxx-large;\n            font-family: sans-serif;\n        }\n    </style>\n</head>\n<body>\n<h1>";

/// The generated error page after its heading.
pub const ERROR_PAGE_END: &'static str = "</h1>\n</body>\n</html>";

/// The generated error page for a code and its reason phrase: the code and
/// the phrase stand in the title and in the heading.
pub open spec fn error_html(code: u16, name: Seq<char>) -> Seq<char> {
    ERROR_PAGE_TOP@ + decimal(code as nat) + " "@ + name + ERROR_PAGE_STYLE@ + decimal(code as nat)
        + " | "@ + name + ERROR_PAGE_END@
}

/// The generated error page for a code and its reason phrase.
pub fn generate_error_html(code: u16, name: &str) -> (r: String)
    ensures
        r@ == error_html(code, name@),
{
    let digits = decimal_string(code as u64);
    let mut out = String::from_str(ERROR_PAGE_TOP);
    out.append(digits.as_str());
    out.append(" ");
    out.append(name);
    out.append(ERROR_PAGE_STYLE);
    out.append(digits.as_str());
    out.append(" | ");
    out.append(name);
    out.append(ERROR_PAGE_END);
    out
}

/// The reason phrase of a code, or the empty text where it has none.
pub open spec fn reason_or_empty(code: StatusCode) -> Seq<char> {
    match crate::status::reason_phrase(code.code) {
        Some(p) => p,
        None => Seq::empty(),
    }
}

/// Where the page for a status is looked up, where the configuration names a
/// place for error pages: a dot, that place, a slash, the code, `.html`.
pub open spec fn error_page_path(code: StatusCode, config: ServerConfig) -> Option<Seq<char>> {
    match config.custom_error_path {
        Some(dir) => Some("."@ + dir@ + "/"@ + decimal(code.code as nat) + ".html"@),
        None => None,
    }
}

/// The file that holds the page for a status, where the configuration names a
/// place for error pages.
pub fn custom_error_page(code: StatusCode, config: &ServerConfig) -> (r: Option<String>)
    ensures
        crate::message::opt_view(r) == error_page_path(code, *config),
{
    match config.custom_error_path {
        Some(custom_error_path) => {
            let mut path = String::from_str(".");
            path.append(custom_error_path);
            path.append("/");
            path.append(decimal_string(code.code as u64).as_str());
            path.append(".html");
            Some(path)
        },
        None => None,
    }
}

/// The body of the page for a status. With a place for error pages
/// configured it is `page`, what was read there, if anything; without, it is
/// the generated page.
pub open spec fn error_page(
    code: StatusCode,
    config: ServerConfig,
    page: Option<Seq<u8>>,
) -> Option<Seq<u8>> {
    match config.custom_error_path {
        Some(_) => page,
        None => Some(encode_utf8(error_html(code.code, reason_or_empty(code)))),
    }
}

/// The view of optional bytes.
pub open spec fn opt_bytes(o: Option<Bytes>) -> Option<Seq<u8>> {
    match o {
        Some(b) => Some(b@),
        None => None,
    }
}

/// The body of the page for a status; `page` is what was read from the
/// configured place, if there is one and it could be read.
pub fn check_errors(code: StatusCode, config: &ServerConfig, page: Option<Bytes>) -> (r: Option<
    Bytes,
>)
    ensures
        opt_bytes(r) == error_page(code, *config, opt_bytes(page)),
{
    match config.custom_error_path {
        Some(_) => page,
        None => {
            let name = match code.canonical_reason() {
                Some(name) => name,
                None => String::new(),
            };
            Some(generate_error_html(code.code, name.as_str()).as_str().as_bytes_vec())
        },
    }
}

/// The body of an error response: the page for the status, or the status
/// and its reason phrase where there is no page.
pub open spec fn error_body(code: StatusCode, config: ServerConfig, page: Option<Seq<u8>>) -> Seq<
    u8,
> {
    match error_page(code, config, page) {
        Some(b) => b,
        None => encode_utf8(code.text()),
    }
}

/// The response for an error status: the status, the host, the length of the
/// body, and the body.
pub open spec fn error_view(
    code: StatusCode,
    config: ServerConfig,
    page: Option<Seq<u8>>,
) -> ResponseView {
    ResponseView {
        status: code,
        version: Version::Http11,
        headers: seq![
            ("host"@, config.host@),
            ("content-length"@, decimal(error_body(code, config, page).len())),
        ],
        body: error_body(code, config, page),
    }
}

/// The response for an error status. `page` is what was read from the
/// configured place for error pages, if there is one and it could be read.
pub fn error(code: StatusCode, config: &ServerConfig, page: Option<Bytes>) -> (r: Response)
    requires
        is_header_value(config.host@),
    ensures
        r@ == error_view(code, *config, opt_bytes(page)),
{
    let error_body = match check_errors(code, config, page) {
        Some(b) => b,
        None => code.to_text().as_str().as_bytes_vec(),
    };
    let mut headers = Headers::new();
    proof {
        crate::headers::lemma_written_names();
        crate::status::lemma_decimal_is_value(error_body@.len());
    }
    headers.append("host", config.host);
    headers.append("content-length", decimal_string(error_body.len() as u64).as_str());
    assert(headers@ =~= seq![
        ("host"@, config.host@),
        ("content-length"@, decimal(error_body@.len())),
    ]);
    Response { status: code, version: Version::Http11, headers, body: error_body }
}

} // verus!
