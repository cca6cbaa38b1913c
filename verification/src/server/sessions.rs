//! The cookie handlers: routes that are answered by code.
use crate::headers::{is_header_value, lemma_written_names, shown, to_lower, visible};
use crate::message::{Request, RequestView, Response, ResponseView};
use crate::server::methods::safe::{served, served_headers};
use crate::server::responses::{
    all_sound, assembled, content_type, extension_of, media_type, opt_bytes, response_view, Builder,
};
use crate::server_config::ServerConfig;
use crate::status::StatusCode;
use crate::text::{chars_of, lower, same_chars, same_text};
use crate::type_aliases::Bytes;
use vstd::prelude::*;
use vstd::string::*;

verus! {

/// The cookie that the demonstration hands out.
pub const DEMO_COOKIE: &'static str = "grit:lab=cookie";

/// The file that the demonstration page is read from.
pub const DEMO_PAGE: &'static str = "./files/cookie-demo.html";

/// What follows the value of a cookie that is set: it lasts an hour.
pub const KEEP_COOKIE: &'static str = "; path=/; Max-Age=3600";

/// What follows the value of a cookie that is removed: it has expired.
pub const DROP_COOKIE: &'static str = "; path=/; expires=Thu, 01 Jan 1970 00:00:00 GMT";

/// Sets a cookie for an hour.
pub fn set_cookie(resp: Builder, value: &str) -> (r: Builder)
    ensures
        r.status == resp.status,
        r.version == resp.version,
        r.sound == (resp.sound && is_header_value(value@ + KEEP_COOKIE@)),
        r.sound ==> r.headers@ == resp.headers@.push(("set-cookie"@, value@ + KEEP_COOKIE@)),
{
    proof {
        lemma_written_names();
    }
    let mut text = value.to_owned();
    text.append(KEEP_COOKIE);
    resp.header("set-cookie", text.as_str())
}

/// Removes a cookie, by setting it as expired.
pub fn remove_cookie(resp: Builder, value: &str) -> (r: Builder)
    ensures
        r.status == resp.status,
        r.version == resp.version,
        r.sound == (resp.sound && is_header_value(value@ + DROP_COOKIE@)),
        r.sound ==> r.headers@ == resp.headers@.push(("set-cookie"@, value@ + DROP_COOKIE@)),
{
    proof {
        lemma_written_names();
    }
    let mut text = value.to_owned();
    text.append(DROP_COOKIE);
    resp.header("set-cookie", text.as_str())
}

/// # cookie
///
/// Adds a cookie to the response headers. Cookie is specified by `value`
pub fn cookie(resp: Builder, value: &str) -> (r: Builder)
    ensures
        r.status == resp.status,
        r.version == resp.version,
        r.sound == (resp.sound && is_header_value(value@)),
        r.sound ==> r.headers@ == resp.headers@.push(("cookie"@, value@)),
{
    proof {
        lemma_written_names();
    }
    resp.header("cookie", value)
}

/// The position of the first `cookie` header at or after `from` that shows
/// `value`, or -1.
pub open spec fn cookie_index(h: Seq<(Seq<char>, Seq<char>)>, value: Seq<char>, from: int) -> int
    decreases h.len() - from,
{
    if from < 0 || from >= h.len() {
        -1
    } else if h[from].0 == "cookie"@ && shown(h[from].1) == value {
        from
    } else {
        cookie_index(h, value, from + 1)
    }
}

/// The first `cookie` header of the request that shows `value`.
pub fn get_cookie<'a>(req: &'a Request, value: &'a str) -> (r: Option<&'a str>)
    ensures
        match r {
            Some(v) => cookie_index(req@.headers, value@, 0) >= 0 && v@ == req@.headers[cookie_index(
                req@.headers,
                value@,
                0,
            )].1,
            None => cookie_index(req@.headers, value@, 0) == -1,
        },
{
    let wanted = chars_of(value);
    let empty: Vec<char> = Vec::new();
    let ghost h = req@.headers;
    let mut i: usize = 0;
    while i < req.headers.entries.len()
        invariant
            i <= req.headers.entries.len(),
            h == req.headers@,
            wanted@ == value@,
            empty@.len() == 0,
            cookie_index(h, value@, 0) == cookie_index(h, value@, i as int),
        decreases req.headers.entries.len() - i,
    {
        let name = req.headers.entries[i].name.as_str();
        let v = req.headers.entries[i].value.as_str();
        assert(h[i as int] == req.headers.entries@[i as int]@);
        if same_text(name, "cookie") {
            let chars = chars_of(v);
            let found = if visible(&chars) {
                same_chars(&chars, &wanted)
            } else {
                assert(shown(v@) =~= empty@);
                same_chars(&empty, &wanted)
            };
            if found {
                return Some(v);
            }
        }
        i += 1;
    }
    None
}

/// Whether some header of the request shows the demonstration cookie, in
/// whatever case.
pub open spec fn carries_demo_cookie(h: Seq<(Seq<char>, Seq<char>)>) -> bool {
    exists|i: int| 0 <= i < h.len() && lower(shown((#[trigger] h[i]).1)) == DEMO_COOKIE@
}

/// The answer of the handler that hands out the demonstration cookie: 200
/// without a body. It removes the cookie where the request carried it and
/// sets it where not.
pub open spec fn update_cookie_answer(req: RequestView, conf: ServerConfig) -> Result<
    ResponseView,
    StatusCode,
> {
    let change = if carries_demo_cookie(req.headers) {
        DEMO_COOKIE@ + DROP_COOKIE@
    } else {
        DEMO_COOKIE@ + KEEP_COOKIE@
    };
    assembled(
        StatusCode::ok(),
        req.version,
        seq![("set-cookie"@, change), ("host"@, conf.host@)],
        Seq::empty(),
        StatusCode::internal_server_error(),
    )
}

/// Hands out the demonstration cookie, or takes it back.
pub fn update_cookie(req: &Request, conf: &ServerConfig) -> (r: Result<Response, StatusCode>)
    ensures
        response_view(r) == update_cookie_answer(req@, *conf),
{
    let word = chars_of(DEMO_COOKIE);
    let ghost h = req@.headers;
    let mut carried = false;
    let mut i: usize = 0;
    while i < req.headers.entries.len() && !carried
        invariant
            i <= req.headers.entries.len(),
            h == req.headers@,
            word@ == DEMO_COOKIE@,
            carried ==> carries_demo_cookie(h),
            !carried ==> forall|j: int|
                0 <= j < i ==> lower(shown((#[trigger] h[j]).1)) != DEMO_COOKIE@,
        decreases req.headers.entries.len() - i + (if carried { 0int } else { 1int }),
    {
        let v = chars_of(req.headers.entries[i].value.as_str());
        assert(h[i as int] == req.headers.entries@[i as int]@);
        let text = if visible(&v) {
            to_lower(&v)
        } else {
            Vec::new()
        };
        assert(text@ =~= lower(shown(v@)));
        if same_chars(&text, &word) {
            carried = true;
        } else {
            i += 1;
        }
    }
    proof {
        lemma_written_names();
    }
    let start = Builder::new().status(StatusCode::ok()).version(req.version);
    // Replace this with a database value.
    let changed = if carried {
        remove_cookie(start, DEMO_COOKIE)
    } else {
        set_cookie(start, DEMO_COOKIE)
    };
    let resp = changed.header("host", conf.host);
    let ghost change = if carried {
        DEMO_COOKIE@ + DROP_COOKIE@
    } else {
        DEMO_COOKIE@ + KEEP_COOKIE@
    };
    let ghost list = seq![("set-cookie"@, change), ("host"@, conf.host@)];
    assert(resp.sound ==> resp.headers@ =~= list);
    assert(resp.sound == all_sound(list)) by {
        if all_sound(list) {
            assert(list[0] == ("set-cookie"@, change));
            assert(list[1] == ("host"@, conf.host@));
        }
    }
    match resp.body(Vec::new()) {
        Some(response) => Ok(response),
        None => Err(StatusCode::internal_server_error()),
    }
}

/// The answer of the handler that asks for the demonstration cookie: 401
/// where no `cookie` header of the request shows it; else 200 without a body,
/// with the cookie and the host.
pub open spec fn validate_cookie_answer(req: RequestView, conf: ServerConfig) -> Result<
    ResponseView,
    StatusCode,
> {
    let i = cookie_index(req.headers, DEMO_COOKIE@, 0);
    if i < 0 {
        Err(StatusCode::unauthorized())
    } else {
        assembled(
            StatusCode::ok(),
            req.version,
            seq![("cookie"@, shown(req.headers[i].1)), ("host"@, conf.host@)],
            Seq::empty(),
            StatusCode::internal_server_error(),
        )
    }
}

/// Asks for the demonstration cookie.
pub fn validate_cookie(req: &Request, conf: &ServerConfig) -> (r: Result<Response, StatusCode>)
    ensures
        response_view(r) == validate_cookie_answer(req@, *conf),
{
    let found = match get_cookie(req, DEMO_COOKIE) {
        Some(v) => v,
        None => return Err(StatusCode::unauthorized()),
    };
    proof {
        lemma_cookie_index(req@.headers, DEMO_COOKIE@, 0);
        lemma_written_names();
    }
    let value = if visible(&chars_of(found)) {
        found
    } else {
        ""
    };
    proof {
        reveal_strlit("");
    }
    assert(value@ =~= shown(found@));
    let resp = cookie(Builder::new().status(StatusCode::ok()).version(req.version), value).header(
        "host",
        conf.host,
    );
    let ghost list = seq![("cookie"@, value@), ("host"@, conf.host@)];
    assert(resp.sound ==> resp.headers@ =~= list);
    assert(resp.sound == all_sound(list)) by {
        if all_sound(list) {
            assert(list[0] == ("cookie"@, value@));
            assert(list[1] == ("host"@, conf.host@));
        }
    }
    match resp.body(Vec::new()) {
        Some(response) => Ok(response),
        None => Err(StatusCode::internal_server_error()),
    }
}

/// `cookie_index` gives a header that shows the value.
proof fn lemma_cookie_index(h: Seq<(Seq<char>, Seq<char>)>, value: Seq<char>, from: int)
    requires
        0 <= from,
    ensures
        cookie_index(h, value, from) == -1 || (from <= cookie_index(h, value, from) < h.len()
            && shown(h[cookie_index(h, value, from)].1) == value),
    decreases h.len() - from,
{
    if from < h.len() && !(h[from].0 == "cookie"@ && shown(h[from].1) == value) {
        lemma_cookie_index(h, value, from + 1);
    }
}

/// The answer of the handler that shows the demonstration page. `page` is
/// what was read from `DEMO_PAGE`, if it could be read: 404 where not, else
/// the page as `text/html`.
pub open spec fn cookie_demo_answer(
    req: RequestView,
    config: ServerConfig,
    page: Option<Seq<u8>>,
) -> Result<ResponseView, StatusCode> {
    match page {
        None => Err(StatusCode::not_found()),
        Some(body) => assembled(
            StatusCode::ok(),
            req.version,
            served_headers(req, config, media_type(extension_of(DEMO_PAGE@)), body),
            body,
            StatusCode::internal_server_error(),
        ),
    }
}

/// Shows the demonstration page.
pub fn cookie_demo(req: &Request, config: &ServerConfig, page: Option<Bytes>) -> (r: Result<
    Response,
    StatusCode,
>)
    ensures
        response_view(r) == cookie_demo_answer(req@, *config, opt_bytes(page)),
{
    let body = match page {
        Some(b) => b,
        None => return Err(StatusCode::not_found()),
    };
    served(req, config, content_type(DEMO_PAGE).as_str(), body)
}

} // verus!
