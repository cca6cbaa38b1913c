//! One request and its response on one connection.
//!
//! Reading and writing the socket, and what is done with files and scripts,
//! is the caller's. The library says what to read on, takes a request apart,
//! names each thing that is to be done outside as a `Step`, and makes the
//! response from what came of it.
use crate::message::{Request, RequestView, Response, ResponseView};
use crate::server::cgi::{call_of, cgi_call, is_cgi_request, CgiCall, CgiCallView};
use crate::server::methods::{
    action_of, answer, file_action, handle_method, target_path, target_view, FileAction,
    FileActionView, FileOutcome, FileOutcomeView,
};
use crate::server::requests::{get_request, request_of};
use crate::server::requests::body::find_bytes;
use crate::server::requests::path::{add_root_to_path, lemma_first_redirect, resolved_path};
use crate::server::responses::{
    custom_error_page, error, error_page_path, error_view, format_response, redirect, redirect_view,
    response_view, wire, BUFFER_SIZE,
};
use crate::server::routes::{get_route, resolve};
use crate::server::sessions::{
    update_cookie, update_cookie_answer, validate_cookie, validate_cookie_answer, DEMO_PAGE,
};
use crate::server_config::{Handler, ServerConfig};
use crate::status::StatusCode;
use crate::text::{
    chars_of, contains_seq, find, find_from, lemma_find_from_bounds, trim_end_char,
    trim_end_char_to,
};
use crate::type_aliases::Bytes;
use vstd::prelude::*;
use vstd::slice::slice_subrange;
use vstd::string::*;
use vstd::utf8::{decode_utf8, encode_utf8, valid_utf8};

verus! {

/// What `String::from_utf8_lossy` of std makes of bytes.
pub uninterp spec fn utf8_lossy(bytes: Seq<u8>) -> Seq<char>;

/// Calls `String::from_utf8_lossy` of std: the text that the bytes encode,
/// with a replacement character for each sequence that is no UTF-8. The text
/// depends on the bytes alone, and valid UTF-8 gives the text that it
/// encodes.
#[verifier::external_body]
fn lossy_text(bytes: &[u8]) -> (r: String)
    ensures
        r@ == utf8_lossy(bytes@),
        valid_utf8(bytes@) ==> r@ == decode_utf8(bytes@),
{
    String::from_utf8_lossy(bytes).into_owned()
}

/// The blank line that ends a head, as bytes.
pub open spec fn blank_line() -> Seq<u8> {
    seq![13u8, 10u8, 13u8, 10u8]
}

/// The blank line that ends a head.
pub fn blank_line_bytes() -> (r: Vec<u8>)
    ensures
        r@ == blank_line(),
{
    let mut r: Vec<u8> = Vec::new();
    r.push(13);
    r.push(10);
    r.push(13);
    r.push(10);
    assert(r@ =~= blank_line());
    r
}

/// What was received of a request so far.
#[derive(Clone, Debug, PartialEq, Eq)]
pub struct Reader {
    pub data: Bytes,
}

impl Reader {
    /// Nothing received.
    pub fn new() -> (r: Reader)
        ensures
            r.data@ == Seq::<u8>::empty(),
    {
        Reader { data: Vec::new() }
    }

    /// Whether to read on after `chunk` was read into a buffer of
    /// `BUFFER_SIZE` bytes: not after an empty read, and not after a read that
    /// left the buffer partly empty once the blank line that ends the head
    /// has come.
    pub open spec fn reads_on(data: Seq<u8>, chunk: Seq<u8>) -> bool {
        chunk.len() > 0 && !(chunk.len() < BUFFER_SIZE && find_from(data, blank_line(), 0) >= 0)
    }

    /// Takes what one read gave, and says whether to read on.
    pub fn feed(&mut self, chunk: &[u8]) -> (more: bool)
        ensures
            final(self).data@ == old(self).data@ + chunk@,
            more == Reader::reads_on(final(self).data@, chunk@),
    {
        self.data.extend_from_slice(chunk);
        if chunk.len() == 0 {
            return false;
        }
        if chunk.len() < BUFFER_SIZE {
            let blank = blank_line_bytes();
            find_bytes(self.data.as_slice(), blank.as_slice(), 0).is_none()
        } else {
            true
        }
    }
}

/// Head and body of what was received: what stands before the first blank
/// line, as text, and what stands after it. Without a blank line all of it is
/// head.
pub open spec fn head_body_split(received: Seq<u8>) -> (Seq<char>, Seq<u8>) {
    let i = find_from(received, blank_line(), 0);
    if i < 0 {
        (utf8_lossy(received), Seq::empty())
    } else {
        (utf8_lossy(received.subrange(0, i)), received.subrange(i + 4, received.len() as int))
    }
}

/// The bytes of what was received that make up its head.
pub open spec fn head_bytes(received: Seq<u8>) -> Seq<u8> {
    let i = find_from(received, blank_line(), 0);
    if i < 0 {
        received
    } else {
        received.subrange(0, i)
    }
}

/// Splits what was received into head and body. A head that is valid UTF-8
/// is the text that its bytes encode.
pub fn parse_http_request(received: &[u8]) -> (r: (String, Bytes))
    ensures
        (r.0@, r.1@) == head_body_split(received@),
        valid_utf8(head_bytes(received@)) ==> r.0@ == decode_utf8(head_bytes(received@)),
{
    let blank = blank_line_bytes();
    let n = received.len();
    match find_bytes(received, blank.as_slice(), 0) {
        Some(index) => {
            // Split head and body when finding the double CRLF (Carriage Return Line Feed)
            let head = lossy_text(slice_subrange(received, 0, index));
            let mut body: Vec<u8> = Vec::new();
            body.extend_from_slice(slice_subrange(received, index + 4, n));
            (head, body)
        },
        None => {
            // If no double CRLF found, all of it is head
            assert(received@.subrange(0, n as int) =~= received@);
            (lossy_text(slice_subrange(received, 0, n)), Vec::new())
        },
    }
}

/// `head` with the first occurrence of `needle` replaced by `by`.
pub open spec fn replaced_once(head: Seq<char>, needle: Seq<char>, by: Seq<char>) -> Seq<char> {
    let at = find_from(head, needle, 0);
    if at < 0 {
        head
    } else {
        head.subrange(0, at) + by + head.subrange(at + needle.len(), head.len() as int)
    }
}

/// The head of the request for the default file of a directory: `head` with
/// the first occurrence of `path`, less a dot in front, replaced by
/// `default_path` less its first character.
pub open spec fn with_default_path(
    head: Seq<char>,
    path: Seq<char>,
    default_path: Seq<char>,
) -> Seq<char> {
    let needle = if path.len() > 0 && path[0] == '.' {
        path.subrange(1, path.len() as int)
    } else {
        path
    };
    replaced_once(head, needle, default_path.subrange(1, default_path.len() as int))
}

/// The head of the request for the default file of a directory: `head` with
/// `default_file` appended to the first occurrence of the URL `path`.
pub open spec fn with_default_file(
    head: Seq<char>,
    path: Seq<char>,
    default_file: Seq<char>,
) -> Seq<char> {
    with_default_path(head, path, "."@ + path + default_file)
}

/// `head` with the first occurrence of `path`, less a dot in front, replaced
/// by `default_path` less its first character.
pub fn replace_path_in_request(head: String, path: &str, default_path: &str) -> (r: String)
    requires
        default_path@.len() > 0,
    ensures
        r@ == with_default_path(head@, path@, default_path@),
{
    let h = chars_of(head.as_str());
    let p = chars_of(path);
    let d = chars_of(default_path);
    let start: usize = if p.len() > 0 && p[0] == '.' {
        1
    } else {
        0
    };
    let needle = crate::text::slice_chars(&p, start, p.len());
    assert(start == 0 ==> needle@ =~= path@);
    let len = h.len();
    proof {
        lemma_find_from_bounds(h@, needle@, 0);
    }
    match find(&h, &needle, 0) {
        Some(at) => {
            let mut out = head.as_str().substring_char(0, at).to_owned();
            out.append(default_path.substring_char(1, d.len()));
            out.append(head.as_str().substring_char(at + needle.len(), len));
            out
        },
        None => head,
    }
}

/// What a write to the socket gave.
#[derive(Clone, Copy, Debug, PartialEq, Eq, Structural)]
pub enum Wrote {
    /// That many bytes were taken.
    Bytes(usize),
    /// The socket would block: nothing was taken this time.
    WouldBlock,
    /// The write failed otherwise.
    Failed,
}

/// What to do next with a response that is being written.
#[derive(Clone, Copy, Debug, PartialEq, Eq, Structural)]
pub enum WriteStep {
    /// Write what is pending.
    Write,
    /// Nothing more is to be written: flush and close.
    Flush,
    /// Give up: close without more ado.
    Abort,
}

/// A response on its way out: its bytes, and how many of them are written.
#[derive(Clone, Debug, PartialEq, Eq)]
pub struct Writer {
    pub bytes: Bytes,
    pub written: usize,
}

impl Writer {
    /// No more is written than there is.
    pub open spec fn wf(&self) -> bool {
        self.written <= self.bytes@.len()
    }

    /// What is still to be written.
    pub fn pending(&self) -> (r: &[u8])
        requires
            self.wf(),
        ensures
            r@ == self.bytes@.subrange(self.written as int, self.bytes@.len() as int),
    {
        slice_subrange(self.bytes.as_slice(), self.written, self.bytes.len())
    }

    /// The step after a write, and how far the response is written then.
    pub open spec fn after(bytes: Seq<u8>, written: nat, result: Wrote) -> (nat, WriteStep) {
        match result {
            Wrote::Bytes(n) => if n == 0 {
                (written, WriteStep::Flush)
            } else if written + n >= bytes.len() {
                (bytes.len(), WriteStep::Flush)
            } else {
                ((written + n) as nat, WriteStep::Write)
            },
            Wrote::WouldBlock => (written, WriteStep::Write),
            Wrote::Failed => (written, WriteStep::Abort),
        }
    }

    /// Takes note of what a write of the pending bytes gave. A write that
    /// took nothing ends the writing; bytes that were taken are not written
    /// again; a socket that would block is tried again; any other failure
    /// ends it all.
    pub fn wrote(&mut self, result: Wrote) -> (step: WriteStep)
        requires
            old(self).wf(),
        ensures
            final(self).wf(),
            final(self).bytes == old(self).bytes,
            (final(self).written as nat, step) == Writer::after(
                old(self).bytes@,
                old(self).written as nat,
                result,
            ),
    {
        match result {
            Wrote::Bytes(n) => {
                if n == 0 {
                    WriteStep::Flush
                } else if n >= self.bytes.len() - self.written {
                    self.written = self.bytes.len();
                    WriteStep::Flush
                } else {
                    self.written = self.written + n;
                    WriteStep::Write
                }
            },
            Wrote::WouldBlock => WriteStep::Write,
            Wrote::Failed => WriteStep::Abort,
        }
    }
}

/// The response as bytes on their way out, none of them written yet. A
/// response without bytes to write does not occur: the status line is never
/// empty.
pub fn serve_response(response: Response) -> (w: Writer)
    ensures
        w.bytes@ == wire(response@),
        w.written == 0,
        w.wf(),
{
    let formatted_response = format_response(response);
    Writer { bytes: formatted_response, written: 0 }
}

/// The items of a directory listing: for each entry a list item with a link
/// to it under `base`.
pub open spec fn listing_items(base: Seq<char>, entries: Seq<String>) -> Seq<char>
    decreases entries.len(),
{
    if entries.len() == 0 {
        Seq::empty()
    } else {
        listing_items(base, entries.drop_last()) + "<li><a href=\"/"@ + base + "/"@
            + entries.last()@ + "\">"@ + entries.last()@ + "</a></li>"@
    }
}

/// The page that lists a directory. `path` is the directory, with or without
/// slashes at its end.
pub open spec fn listing_html(path: Seq<char>, entries: Seq<String>) -> Seq<char> {
    "<html><body><ul>"@ + listing_items(trim_end_char(path, '/'), entries)
        + "</ul></body></html>"@
}

/// The response that lists a directory: 200 with the page as `text/html`.
/// `entries` are the names of what the directory holds.
pub fn serve_directory_contents(path: &str, entries: &Vec<String>) -> (r: Response)
    ensures
        r@ == (ResponseView {
            status: StatusCode::ok(),
            version: crate::status::Version::Http11,
            headers: seq![("content-type"@, "text/html"@)],
            body: encode_utf8(listing_html(path@, entries@)),
        }),
{
    // Ensure the path doesn't end with a slash
    let v = chars_of(path);
    assert(v@.subrange(0, v.len() as int) =~= v@);
    let n = trim_end_char_to(&v, v.len(), '/');
    let trimmed_path = path.substring_char(0, n);

    // Fold all entries into a single unordered list
    let mut items = String::new();
    let ghost all = entries@;
    let mut i: usize = 0;
    assert(all.subrange(0, 0) =~= Seq::<String>::empty());
    while i < entries.len()
        invariant
            i <= entries.len(),
            all == entries@,
            trimmed_path@ == trim_end_char(path@, '/'),
            items@ == listing_items(trimmed_path@, all.subrange(0, i as int)),
        decreases entries.len() - i,
    {
        assert(all.subrange(0, i + 1).drop_last() =~= all.subrange(0, i as int));
        assert(all.subrange(0, i + 1).last() == all[i as int]);
        let entry_name = entries[i].as_str();
        items.append("<li><a href=\"/");
        items.append(trimmed_path);
        items.append("/");
        items.append(entry_name);
        items.append("\">");
        items.append(entry_name);
        items.append("</a></li>");
        i += 1;
    }
    assert(all.subrange(0, all.len() as int) =~= all);
    let mut body = String::from_str("<html><body><ul>");
    body.append(items.as_str());
    body.append("</ul></body></html>");

    proof {
        crate::headers::lemma_written_names();
        reveal_strlit("text/html");
    }
    let mut headers = crate::headers::Headers::new();
    assert(crate::headers::is_header_value("text/html"@));
    headers.append("content-type", "text/html");
    assert(headers@ =~= seq![("content-type"@, "text/html"@)]);
    Response {
        status: StatusCode::ok(),
        version: crate::status::Version::Http11,
        headers,
        body: body.as_str().as_bytes_vec(),
    }
}

/// What is to be done next for a request. All but `Send` name something
/// that the caller does outside, and the function that makes the next step
/// from what came of it.
#[derive(Clone, Debug, PartialEq, Eq)]
pub enum Step {
    /// Write the response; the exchange ends with it.
    Send(Response),
    /// Read the error page at the path; `error` makes the response for the
    /// status from what was read.
    ErrorPage(StatusCode, String),
    /// Find out whether the path names a directory; `after_probe` goes on.
    Probe(String),
    /// Perform the action; `handle_method` makes the answer from what comes
    /// of it.
    File(FileAction),
    /// Read the file at the path; `get` answers the request given here from
    /// what was read.
    Default(Request, String),
    /// List the directory at the path; `serve_directory_contents` makes the
    /// response.
    List(String),
    /// Run the script; `execute_cgi_script` makes the answer from what it
    /// wrote.
    Script(CgiCall),
    /// Read the page at the path; `cookie_demo` makes the answer.
    Demo(String),
}

/// A step, as texts and bytes.
pub enum StepView {
    Send(ResponseView),
    ErrorPage(StatusCode, Seq<char>),
    Probe(Seq<char>),
    File(FileActionView),
    Default(RequestView, Seq<char>),
    List(Seq<char>),
    Script(CgiCallView),
    Demo(Seq<char>),
}

impl View for Step {
    type V = StepView;

    open spec fn view(&self) -> StepView {
        match self {
            Step::Send(r) => StepView::Send(r@),
            Step::ErrorPage(c, p) => StepView::ErrorPage(*c, p@),
            Step::Probe(p) => StepView::Probe(p@),
            Step::File(a) => StepView::File(a@),
            Step::Default(r, p) => StepView::Default(r@, p@),
            Step::List(p) => StepView::List(p@),
            Step::Script(c) => StepView::Script(c@),
            Step::Demo(p) => StepView::Demo(p@),
        }
    }
}

/// The step that answers with an error status: the error page is read
/// first where the configuration names a place for such pages, else the
/// generated page is sent.
pub open spec fn failure(code: StatusCode, config: ServerConfig) -> StepView {
    match error_page_path(code, config) {
        Some(path) => StepView::ErrorPage(code, path),
        None => StepView::Send(error_view(code, config, None)),
    }
}

/// The step after an answer was made or refused: the answer is sent, a
/// refusal turns into the error response for its status.
pub open spec fn settled(
    result: Result<ResponseView, StatusCode>,
    config: ServerConfig,
) -> StepView {
    match result {
        Ok(response) => StepView::Send(response),
        Err(code) => failure(code, config),
    }
}

/// The step that answers with an error status.
pub fn fail(code: StatusCode, config: &ServerConfig) -> (r: Step)
    requires
        config.wf(),
    ensures
        r@ == failure(code, *config),
{
    match custom_error_page(code, config) {
        Some(path) => Step::ErrorPage(code, path),
        None => Step::Send(error(code, config, None)),
    }
}

/// The step after an answer was made or refused.
pub fn settle(result: Result<Response, StatusCode>, config: &ServerConfig) -> (r: Step)
    requires
        config.wf(),
    ensures
        r@ == settled(response_view(result), *config),
{
    match result {
        Ok(response) => Step::Send(response),
        Err(code) => fail(code, config),
    }
}

/// The first step for a request that was received.
///
/// A request that cannot be read is answered with the status that says why.
/// Else the route is found: a redirection is sent, any other refusal turns
/// into the error response. A route with a handler is answered by it. For
/// any other route the file that the request names is probed.
pub open spec fn first_step(config: ServerConfig, head: Seq<char>, body: Seq<u8>) -> StepView {
    match request_of(head, body, config.body_size_limit as nat) {
        Err(code) => failure(code, config),
        Ok(req) => match resolve(config.routes@, req.uri.path, req.method) {
            Err((code, path)) => if code.is_redirection() {
                StepView::Send(redirect_view(code, config, req.version, path))
            } else {
                failure(code, config)
            },
            Ok(i) => match config.routes@[i].handler {
                Some(Handler::UpdateCookie) => settled(update_cookie_answer(req, config), config),
                Some(Handler::ValidateCookie) => settled(
                    validate_cookie_answer(req, config),
                    config,
                ),
                Some(Handler::CookieDemo) => StepView::Demo(DEMO_PAGE@),
                None => StepView::Probe(resolved_path(config.routes@[i], req.uri.path)),
            },
        },
    }
}

/// Takes a request that was received and says what to do first. The request
/// is returned where it could be read.
pub fn handle_connection(config: &ServerConfig, request_parts: &(String, Bytes)) -> (r: (
    Step,
    Option<Request>,
))
    requires
        config.wf(),
    ensures
        r.0@ == first_step(*config, request_parts.0@, request_parts.1@),
        match r.1 {
            Some(req) => request_of(
                request_parts.0@,
                request_parts.1@,
                config.body_size_limit as nat,
            ) == Ok::<RequestView, StatusCode>(req@) && req.wf(),
            None => request_of(
                request_parts.0@,
                request_parts.1@,
                config.body_size_limit as nat,
            ).is_err(),
        },
{
    let request = match get_request(config, (request_parts.0.clone(), request_parts.1.clone())) {
        Ok(request) => request,
        Err(e) => return (fail(e, config), None),
    };
    proof {
        lemma_first_redirect(config.routes@, request@.uri.path, 0);
    }
    // Get the route from the request
    let step = match get_route(&request, config) {
        Ok(route) => {
            // Use the associated handler for the route
            match route.handler {
                Some(Handler::UpdateCookie) => settle(update_cookie(&request, config), config),
                Some(Handler::ValidateCookie) => settle(validate_cookie(&request, config), config),
                Some(Handler::CookieDemo) => Step::Demo(DEMO_PAGE.to_owned()),
                None => Step::Probe(add_root_to_path(route, request.uri.path())),
            }
        },
        // Handle the redirections
        Err((code, path)) => if code.is_redirection() {
            Step::Send(redirect(code, config, request.version, path))
        } else {
            // Handle the errors
            fail(code, config)
        },
    };
    (step, Some(request))
}

/// The step after the file that a request names was probed.
///
/// A directory under a route with settings is answered by its default file,
/// where the settings name one: the default file is appended to the URL in
/// the head of the request, the head is read anew, and the file that the new
/// request names is to be read. Without
/// a default file the directory is listed where the settings allow it, and
/// not found where they do not. Anything else is a script where its path
/// holds `/cgi/`, and else a matter of the method.
pub open spec fn probed_step(
    req: RequestView,
    config: ServerConfig,
    head: Seq<char>,
    body: Seq<u8>,
    is_dir: bool,
) -> StepView {
    match resolve(config.routes@, req.uri.path, req.method) {
        Err((code, _)) => failure(code, config),
        Ok(i) => {
            let route = config.routes@[i];
            let path = resolved_path(route, req.uri.path);
            if is_dir && route.settings.is_some() {
                let settings = route.settings.unwrap();
                match settings.default_if_url_is_dir {
                    Some(default_file) => {
                        let new_head = with_default_file(head, req.uri.path, default_file@);
                        match request_of(new_head, body, config.body_size_limit as nat) {
                            Err(code) => failure(code, config),
                            Ok(new_req) => match target_view(new_req, config) {
                                Err(code) => failure(code, config),
                                Ok(file) => StepView::Default(new_req, file),
                            },
                        }
                    },
                    None => if settings.list_directory {
                        StepView::List(path)
                    } else {
                        failure(StatusCode::not_found(), config)
                    },
                }
            } else if contains_seq(path, "/cgi/"@) {
                match call_of(req, config) {
                    Ok(call) => StepView::Script(call),
                    Err(code) => failure(code, config),
                }
            } else {
                match action_of(req, config) {
                    Err(code) => failure(code, config),
                    Ok(FileActionView::Nothing) => settled(
                        answer(route, req, config, FileOutcomeView::Nothing),
                        config,
                    ),
                    Ok(action) => StepView::File(action),
                }
            }
        },
    }
}

/// Goes on after the file that a request names was probed: `is_dir` says
/// whether it is a directory.
pub fn after_probe(
    req: &Request,
    config: &ServerConfig,
    request_parts: &(String, Bytes),
    is_dir: bool,
) -> (r: Step)
    requires
        config.wf(),
    ensures
        r@ == probed_step(req@, *config, request_parts.0@, request_parts.1@, is_dir),
{
    let route = match get_route(req, config) {
        Ok(route) => route,
        Err((code, _)) => return fail(code, config),
    };
    let path = add_root_to_path(route, req.uri.path());

    // Check if the path is a directory and a default file is specified
    if is_dir {
        if let Some(settings) = &route.settings {
            // Serve the default file if enabled in config
            if let Some(default_file) = settings.default_if_url_is_dir {
                let mut default_path = String::from_str(".");
                default_path.append(req.uri.path());
                default_path.append(default_file);
                proof {
                    reveal_strlit(".");
                }
                let new_head = replace_path_in_request(
                    request_parts.0.clone(),
                    req.uri.path(),
                    default_path.as_str(),
                );
                let request = match get_request(config, (new_head, request_parts.1.clone())) {
                    Ok(r) => r,
                    Err(code) => return fail(code, config),
                };
                return match target_path(&request, config) {
                    Ok(file) => Step::Default(request, file),
                    Err(code) => fail(code, config),
                };
            }
            // List directory setting is enabled. Default file is disabled.
            return if settings.list_directory {
                Step::List(path)
            } else {
                fail(StatusCode::not_found(), config)
            };
        }
    }
    if is_cgi_request(path.as_str()) {
        return match cgi_call(req, config) {
            Ok(call) => Step::Script(call),
            Err(code) => fail(code, config),
        };
    }
    match file_action(req, config) {
        Err(code) => fail(code, config),
        Ok(FileAction::Nothing) => settle(
            handle_method(route, req, config, FileOutcome::Nothing),
            config,
        ),
        Ok(action) => Step::File(action),
    }
}

} // verus!
