//! The methods that change nothing: GET, HEAD, OPTIONS and TRACE.
use crate::headers::{first_value, is_visible, lemma_written_names, shown, visible};
use crate::message::{debug_text, Request, RequestView};
use crate::server::methods::{lemma_all_sound_push, target_path, target_view};
use crate::server::responses::{
    all_sound, assembled, content_type, extension_of, lemma_media_type_sound, media_type,
    response_view, Builder,
};
use crate::server_config::{Route, ServerConfig};
use crate::status::{decimal, decimal_string, lemma_decimal_is_value, string_of, StatusCode};
use crate::text::{
    chars_of, has_at, occurs_at, pieces, ranges_view, ranges_within, same_text, slice_chars, split,
    split_at_each,
};
use crate::type_aliases::Bytes;
use vstd::prelude::*;
use vstd::string::*;
use vstd::utf8::encode_utf8;

verus! {

/// The headers of a request that a GET response repeats: those called
/// `transfer-encoding`, in their order.
pub open spec fn echoed(h: Seq<(Seq<char>, Seq<char>)>) -> Seq<(Seq<char>, Seq<char>)>
    decreases h.len(),
{
    if h.len() == 0 {
        Seq::empty()
    } else if h.last().0 == "transfer-encoding"@ {
        echoed(h.drop_last()).push(h.last())
    } else {
        echoed(h.drop_last())
    }
}

/// The answer to a GET. `file` is what was read at the path that the request
/// names, if it could be read.
///
/// A request that no route answers gets the status that says so, and one
/// whose file cannot be read gets 404. Else the answer is 200 with the file
/// as body, the host, the media type by the file's extension and the length
/// of the body; 500 where one of these is no sound header.
pub open spec fn get_answer(
    req: RequestView,
    config: ServerConfig,
    file: Option<Seq<u8>>,
) -> Result<crate::message::ResponseView, StatusCode> {
    match target_view(req, config) {
        Err(code) => Err(code),
        Ok(path) => match file {
            None => Err(StatusCode::not_found()),
            Some(body) => assembled(
                StatusCode::ok(),
                req.version,
                served_headers(req, config, media_type(extension_of(path)), body),
                body,
                StatusCode::internal_server_error(),
            ),
        },
    }
}

/// The headers of a response that carries a file or the output of a script
/// to the sender of `req`: the host, the media type, the length of the body,
/// and what the request had under `transfer-encoding`.
pub open spec fn served_headers(
    req: RequestView,
    config: ServerConfig,
    media: Seq<char>,
    body: Seq<u8>,
) -> Seq<(Seq<char>, Seq<char>)> {
    seq![
        ("host"@, config.host@),
        ("content-type"@, media),
        ("content-length"@, decimal(body.len())),
    ] + echoed(req.headers)
}

/// The response that carries `body` with the given media type to the sender
/// of `req`: 200, or 500 where a header is not sound.
pub fn served(req: &Request, config: &ServerConfig, media: &str, body: Bytes) -> (r: Result<
    crate::message::Response,
    StatusCode,
>)
    ensures
        response_view(r) == assembled(
            StatusCode::ok(),
            req@.version,
            served_headers(req@, *config, media@, body@),
            body@,
            StatusCode::internal_server_error(),
        ),
{
    proof {
        lemma_written_names();
        lemma_decimal_is_value(body@.len());
    }
    let ghost base = seq![
        ("host"@, config.host@),
        ("content-type"@, media@),
        ("content-length"@, decimal(body@.len())),
    ];
    let mut resp = Builder::new().version(req.version).header("host", config.host).status(
        StatusCode::ok(),
    ).header("content-type", media).header(
        "content-length",
        decimal_string(body.len() as u64).as_str(),
    );
    assert(resp.sound ==> resp.headers@ =~= base);
    assert(resp.sound == all_sound(base)) by {
        if all_sound(base) {
            assert(base[0] == ("host"@, config.host@));
            assert(base[1] == ("content-type"@, media@));
        }
    }
    let ghost h = req.headers@;
    assert(h.subrange(0, 0) =~= Seq::<(Seq<char>, Seq<char>)>::empty());
    assert(base + echoed(h.subrange(0, 0)) =~= base);
    let mut i: usize = 0;
    while i < req.headers.entries.len()
        invariant
            i <= req.headers.entries.len(),
            h == req.headers@,
            resp.status == StatusCode::ok(),
            resp.version == req.version,
            resp.sound == all_sound(base + echoed(h.subrange(0, i as int))),
            resp.sound ==> resp.headers@ == base + echoed(h.subrange(0, i as int)),
        decreases req.headers.entries.len() - i,
    {
        let key = req.headers.entries[i].name.as_str();
        let value = req.headers.entries[i].value.as_str();
        assert(h[i as int] == req.headers.entries@[i as int]@);
        assert(h.subrange(0, i + 1).drop_last() =~= h.subrange(0, i as int));
        assert(h.subrange(0, i + 1).last() == h[i as int]);
        if same_text(key, "transfer-encoding") {
            let ghost before = base + echoed(h.subrange(0, i as int));
            proof {
                lemma_written_names();
                lemma_all_sound_push(before, h[i as int]);
                assert(before.push(h[i as int]) =~= base + echoed(h.subrange(0, i + 1)));
            }
            resp = resp.header(key, value);
        }
        i += 1;
    }
    assert(h.subrange(0, h.len() as int) =~= h);
    match resp.body(body) {
        Some(response) => Ok(response),
        None => Err(StatusCode::internal_server_error()),
    }
}

/// Answers a GET from what was read.
pub fn get(req: &Request, config: &ServerConfig, file: Option<Bytes>) -> (r: Result<
    crate::message::Response,
    StatusCode,
>)
    ensures
        response_view(r) == get_answer(req@, *config, crate::server::responses::opt_bytes(file)),
{
    let path = target_path(req, config)?;
    let body = match file {
        Some(b) => b,
        None => return Err(StatusCode::not_found()),
    };
    served(req, config, content_type(path.as_str()).as_str(), body)
}

/// The answer to a HEAD. `size` is the size of the file at the path that the
/// request names, if it could be had.
///
/// As for GET, but the body is empty, the length is that of the file, and a
/// file whose size cannot be had gives 500.
pub open spec fn head_answer(req: RequestView, config: ServerConfig, size: Option<u64>) -> Result<
    crate::message::ResponseView,
    StatusCode,
> {
    match target_view(req, config) {
        Err(code) => Err(code),
        Ok(path) => match size {
            None => Err(StatusCode::internal_server_error()),
            Some(n) => assembled(
                StatusCode::ok(),
                req.version,
                seq![
                    ("host"@, config.host@),
                    ("content-type"@, media_type(extension_of(path))),
                    ("content-length"@, decimal(n as nat)),
                ],
                Seq::empty(),
                StatusCode::internal_server_error(),
            ),
        },
    }
}

/// Answers a HEAD from the size of the file.
pub fn head(req: &Request, config: &ServerConfig, size: Option<u64>) -> (r: Result<
    crate::message::Response,
    StatusCode,
>)
    ensures
        response_view(r) == head_answer(req@, *config, size),
{
    let path = target_path(req, config)?;
    let n = match size {
        Some(n) => n,
        None => return Err(StatusCode::internal_server_error()),
    };
    proof {
        lemma_written_names();
        lemma_media_type_sound(extension_of(path@));
        lemma_decimal_is_value(n as nat);
    }
    let ghost base = seq![
        ("host"@, config.host@),
        ("content-type"@, media_type(extension_of(path@))),
        ("content-length"@, decimal(n as nat)),
    ];
    let resp = Builder::new().version(req.version).header("host", config.host).status(
        StatusCode::ok(),
    ).header("content-type", content_type(path.as_str()).as_str()).header(
        "content-length",
        decimal_string(n).as_str(),
    );
    assert(resp.sound ==> resp.headers@ =~= base);
    assert(resp.sound == all_sound(base)) by {
        if all_sound(base) {
            assert(base[0] == ("host"@, config.host@));
        }
    }
    match resp.body(Vec::new()) {
        Some(response) => Ok(response),
        None => Err(StatusCode::internal_server_error()),
    }
}

/// The tokens of the methods, with `, ` between them.
pub open spec fn methods_text(methods: Seq<crate::status::Method>) -> Seq<char>
    decreases methods.len(),
{
    if methods.len() == 0 {
        Seq::empty()
    } else if methods.len() == 1 {
        methods[0]@
    } else {
        methods_text(methods.drop_last()) + ", "@ + methods.last()@
    }
}

/// The answer to an OPTIONS: 200 without a body, with the host and the
/// methods of the route under `allow`.
pub open spec fn options_answer(route: Route, req: RequestView, config: ServerConfig) -> Result<
    crate::message::ResponseView,
    StatusCode,
> {
    assembled(
        StatusCode::ok(),
        req.version,
        seq![("host"@, config.host@), ("allow"@, methods_text(route.methods@))],
        Seq::empty(),
        StatusCode::internal_server_error(),
    )
}

/// Answers an OPTIONS with the methods of the route.
pub fn options(route: &Route, req: &Request, config: &ServerConfig) -> (r: Result<
    crate::message::Response,
    StatusCode,
>)
    ensures
        response_view(r) == options_answer(*route, req@, *config),
{
    let ghost m = route.methods@;
    let mut allowed_methods = String::new();
    let mut i: usize = 0;
    assert(m.subrange(0, 0) =~= Seq::<crate::status::Method>::empty());
    while i < route.methods.len()
        invariant
            i <= route.methods.len(),
            m == route.methods@,
            allowed_methods@ == methods_text(m.subrange(0, i as int)),
        decreases route.methods.len() - i,
    {
        assert(m.subrange(0, i + 1).drop_last() =~= m.subrange(0, i as int));
        assert(m.subrange(0, i + 1).last() == m[i as int]);
        assert(m.subrange(0, i + 1)[0] == m[0]);
        if i > 0 {
            allowed_methods.append(", ");
        } else {
            assert(Seq::<char>::empty() + m[0]@ =~= m[0]@);
        }
        allowed_methods.append(route.methods[i].as_str());
        i += 1;
    }
    assert(m.subrange(0, m.len() as int) =~= m);
    proof {
        lemma_written_names();
    }
    let ghost base = seq![("host"@, config.host@), ("allow"@, methods_text(route.methods@))];
    let resp = Builder::new().version(req.version).header("host", config.host).status(
        StatusCode::ok(),
    ).header("allow", allowed_methods.as_str());
    assert(resp.sound ==> resp.headers@ =~= base);
    assert(resp.sound == all_sound(base)) by {
        if all_sound(base) {
            assert(base[0] == ("host"@, config.host@));
            assert(base[1] == ("allow"@, methods_text(route.methods@)));
        }
    }
    // Empty body for OPTIONS
    match resp.body(Vec::new()) {
        Some(response) => Ok(response),
        None => Err(StatusCode::internal_server_error()),
    }
}

/// A run of zeros after an optional sign: what reads as the number 0.
pub open spec fn is_zero_number(s: Seq<char>) -> bool {
    let start: int = if s.len() > 0 && (s[0] == '+' || s[0] == '-') {
        1
    } else {
        0
    };
    start < s.len() && forall|i: int| start <= i < s.len() ==> s[i] == '0'
}

/// Whether the request may not be forwarded any more: its `max-forwards`
/// header is visible text that reads as 0.
pub open spec fn forwards_spent(h: Seq<(Seq<char>, Seq<char>)>) -> bool {
    match first_value(h, "max-forwards"@) {
        Some(v) => is_visible(v) && is_zero_number(v),
        None => false,
    }
}

/// The `via` header of a TRACE response: the host, after what the request
/// had under `via`.
pub open spec fn via_text(h: Seq<(Seq<char>, Seq<char>)>, host: Seq<char>) -> Seq<char> {
    match first_value(h, "via"@) {
        Some(v) => shown(v) + ", "@ + host,
        None => host,
    }
}

/// A line without the carriage return that ends it, if one does.
pub open spec fn strip_cr(line: Seq<char>) -> Seq<char> {
    if line.len() > 0 && line.last() == '\r' {
        line.drop_last()
    } else {
        line
    }
}

/// Whether a line of the echo is left out: it starts with `Cookie:` or
/// `Authorization:`.
pub open spec fn is_secret(line: Seq<char>) -> bool {
    has_at(line, "Cookie:"@, 0) || has_at(line, "Authorization:"@, 0)
}

/// The lines among `parts[..n]` that are echoed, joined by CR LF. `parts`
/// are the pieces of a text between its line feeds; each piece but the last
/// is a line and loses the carriage return that ends it, the last piece is a
/// line unless it is empty.
pub open spec fn echo_of(parts: Seq<Seq<char>>, n: int) -> Seq<char>
    decreases n,
{
    if n <= 0 || n > parts.len() {
        Seq::empty()
    } else {
        let before = echo_of(parts, n - 1);
        let line = if n < parts.len() {
            strip_cr(parts[n - 1])
        } else {
            parts[n - 1]
        };
        if is_secret(line) || (n == parts.len() && line.len() == 0) {
            before
        } else if kept_count(parts, n - 1) == 0 {
            line
        } else {
            before + "\r\n"@ + line
        }
    }
}

/// The number of lines among `parts[..n]` that are echoed.
pub open spec fn kept_count(parts: Seq<Seq<char>>, n: int) -> nat
    decreases n,
{
    if n <= 0 || n > parts.len() {
        0
    } else {
        let line = if n < parts.len() {
            strip_cr(parts[n - 1])
        } else {
            parts[n - 1]
        };
        if is_secret(line) || (n == parts.len() && line.len() == 0) {
            kept_count(parts, n - 1)
        } else {
            kept_count(parts, n - 1) + 1
        }
    }
}

/// The echo of a text: its lines but those that start with `Cookie:` or
/// `Authorization:`, joined by CR LF.
pub open spec fn echo(text: Seq<char>) -> Seq<char> {
    let parts = split(text, seq!['\n']);
    echo_of(parts, parts.len() as int)
}

/// The echo of a text.
pub fn echo_lines(text: &str) -> (r: String)
    ensures
        r@ == echo(text@),
{
    let v = chars_of(text);
    let mut sep: Vec<char> = Vec::new();
    sep.push('\n');
    assert(sep@ =~= seq!['\n']);
    let ranges = split_at_each(&v, &sep);
    let cookie = chars_of("Cookie:");
    let authorization = chars_of("Authorization:");
    let ghost parts = split(text@, seq!['\n']);
    let mut out: Vec<char> = Vec::new();
    let mut kept: usize = 0;
    let mut i: usize = 0;
    while i < ranges.len()
        invariant
            i <= ranges.len(),
            v@ == text@,
            cookie@ == "Cookie:"@,
            authorization@ == "Authorization:"@,
            parts == pieces(v@, ranges_view(ranges@)),
            parts.len() == ranges.len(),
            ranges_within(ranges@, v@.len() as int),
            out@ == echo_of(parts, i as int),
            kept == kept_count(parts, i as int),
            kept <= i,
        decreases ranges.len() - i,
    {
        let (a, b) = ranges[i];
        assert(ranges_view(ranges@)[i as int] == (a as int, b as int));
        assert(parts[i as int] == v@.subrange(a as int, b as int));
        let end = if i + 1 < ranges.len() && b > a && v[b - 1] == '\r' {
            b - 1
        } else {
            b
        };
        let line = slice_chars(&v, a, end);
        assert(line@ =~= if i + 1 < parts.len() {
            strip_cr(parts[i as int])
        } else {
            parts[i as int]
        });
        let secret = occurs_at(&line, &cookie, 0) || occurs_at(&line, &authorization, 0);
        if !(secret || (i + 1 == ranges.len() && line.len() == 0)) {
            if kept > 0 {
                out.push('\r');
                out.push('\n');
                proof {
                    reveal_strlit("\r\n");
                }
                assert(out@ =~= echo_of(parts, i as int) + "\r\n"@);
            } else {
                assert(out@.len() == 0) by {
                    lemma_echo_empty(parts, i as int);
                }
            }
            let mut k: usize = 0;
            let ghost start = out@;
            while k < line.len()
                invariant
                    k <= line.len(),
                    out@ == start + line@.subrange(0, k as int),
                decreases line.len() - k,
            {
                out.push(line[k]);
                assert(out@ =~= start + line@.subrange(0, k + 1));
                k += 1;
            }
            assert(line@.subrange(0, line.len() as int) =~= line@);
            assert(kept == 0 ==> out@ =~= line@);
            kept += 1;
        }
        i += 1;
    }
    string_of(&out)
}

/// Where no line was kept, the echo is empty.
proof fn lemma_echo_empty(parts: Seq<Seq<char>>, n: int)
    requires
        kept_count(parts, n) == 0,
    ensures
        echo_of(parts, n).len() == 0,
    decreases n,
{
    if n > 0 && n <= parts.len() {
        lemma_echo_empty(parts, n - 1);
    }
}

/// The answer to a TRACE, given the debug text of the request: 400 where the
/// request may not be forwarded any more, 500 where there is no debug text.
/// Else 200 with the echo of the debug text as body, the host, the media type
/// `message/http` and this host added under `via`.
pub open spec fn trace_of(req: RequestView, config: ServerConfig, debug: Option<Seq<char>>) -> Result<
    crate::message::ResponseView,
    StatusCode,
> {
    if forwards_spent(req.headers) {
        Err(StatusCode::bad_request())
    } else {
        match debug {
            None => Err(StatusCode::internal_server_error()),
            Some(text) => assembled(
                StatusCode::ok(),
                req.version,
                seq![
                    ("host"@, config.host@),
                    ("content-type"@, "message/http"@),
                    ("via"@, via_text(req.headers, config.host@)),
                ],
                encode_utf8(echo(text + "\r\n"@)),
                StatusCode::internal_server_error(),
            ),
        }
    }
}

/// The answer to a TRACE: that for the debug text of the request.
pub open spec fn trace_answer(req: RequestView, config: ServerConfig) -> Result<
    crate::message::ResponseView,
    StatusCode,
> {
    trace_of(req, config, debug_text(req))
}

/// Whether `v` reads as the number 0.
pub fn zero_number(v: &Vec<char>) -> (r: bool)
    ensures
        r == is_zero_number(v@),
{
    let start: usize = if v.len() > 0 && (v[0] == '+' || v[0] == '-') {
        1
    } else {
        0
    };
    if start >= v.len() {
        return false;
    }
    let mut i: usize = start;
    while i < v.len()
        invariant
            start <= i <= v.len(),
            start as int == (if v@.len() > 0 && (v@[0] == '+' || v@[0] == '-') {
                1int
            } else {
                0int
            }),
            forall|j: int| start <= j < i ==> v@[j] == '0',
        decreases v.len() - i,
    {
        if v[i] != '0' {
            return false;
        }
        i += 1;
    }
    true
}

/// Answers a TRACE with the echo of the request.
pub fn trace(req: &Request, config: &ServerConfig) -> (r: Result<
    crate::message::Response,
    StatusCode,
>)
    ensures
        response_view(r) == trace_answer(req@, *config),
{
    trace_echo(req, config, req.to_debug_text())
}

/// Answers a TRACE with the echo of the given debug text of the request.
pub fn trace_echo(req: &Request, config: &ServerConfig, debug: Option<String>) -> (r: Result<
    crate::message::Response,
    StatusCode,
>)
    ensures
        response_view(r) == trace_of(req@, *config, crate::message::opt_view(debug)),
{
    proof {
        lemma_written_names();
        reveal_strlit("message/http");
    }
    // Check the Max-Forwards header
    if let Some(h) = req.headers.get("Max-Forwards") {
        proof {
            lemma_lower_max_forwards();
        }
        let chars = chars_of(h);
        if visible(&chars) && zero_number(&chars) {
            return Err(StatusCode::bad_request());
        }
    } else {
        proof {
            lemma_lower_max_forwards();
        }
    }
    let mut text = match debug {
        Some(text) => text,
        None => return Err(StatusCode::internal_server_error()),
    };
    // Update the Via header
    let via = match req.headers.get("via") {
        Some(via_header) => {
            let mut via = String::new();
            if visible(&chars_of(via_header)) {
                via.append(via_header);
            }
            assert(via@ =~= shown(via_header@));
            via.append(", ");
            via.append(config.host);
            via
        },
        None => config.host.to_owned(),
    };
    // Exclude sensitive headers and construct the request string
    text.append("\r\n");
    let request_string = echo_lines(text.as_str());

    let ghost base = seq![
        ("host"@, config.host@),
        ("content-type"@, "message/http"@),
        ("via"@, via_text(req@.headers, config.host@)),
    ];
    let resp = Builder::new().version(req.version).header("host", config.host).status(
        StatusCode::ok(),
    ).header("content-type", "message/http").header("via", via.as_str());
    assert(resp.sound ==> resp.headers@ =~= base);
    assert(crate::headers::is_header_value("message/http"@));
    assert(resp.sound == all_sound(base)) by {
        if all_sound(base) {
            assert(base[0] == ("host"@, config.host@));
            assert(base[2] == ("via"@, via_text(req@.headers, config.host@)));
        }
    }
    match resp.body(request_string.as_str().as_bytes_vec()) {
        Some(response) => Ok(response),
        None => Err(StatusCode::internal_server_error()),
    }
}

/// `Max-Forwards` in lower case.
proof fn lemma_lower_max_forwards()
    ensures
        crate::text::lower("Max-Forwards"@) == "max-forwards"@,
{
    reveal_strlit("Max-Forwards");
    reveal_strlit("max-forwards");
    assert(crate::text::lower("Max-Forwards"@) =~= "max-forwards"@);
}

} // verus!
