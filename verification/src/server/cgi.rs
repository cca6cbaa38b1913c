//! Requests that are answered by a script.
//!
//! The library does not run anything: `cgi_call` says what is to be run, with
//! which arguments and in which environment; `execute_cgi_script` makes the
//! answer from what the script wrote.
use crate::headers::{shown, visible};
use crate::message::{Request, RequestView, Response, ResponseView};
use crate::server::methods::safe::{served, served_headers};
use crate::server::requests::path::{add_root_to_path, resolved_path};
use crate::server::responses::{assembled, opt_bytes, response_view};
use crate::server::routes::{get_route, resolve};
use crate::server_config::{Cgi, Route, ServerConfig};
use crate::status::{decimal, decimal_string, string_of, StatusCode};
use crate::text::{
    chars_of, contains, contains_seq, find, find_from, last_index_of, ranges_view, rfind_char,
    same_text, slice_chars, split, split_at_each,
};
use crate::type_aliases::{Bytes, FileExtension};
use vstd::prelude::*;
use vstd::string::*;
use vstd::utf8::{decode_utf8, valid_utf8};

verus! {

/// Whether `char::is_alphanumeric` of std holds of a character.
pub uninterp spec fn is_alphanumeric(c: char) -> bool;

/// Calls `char::is_alphanumeric` of std, which depends on the character
/// alone.
#[verifier::external_body]
fn alphanumeric(c: char) -> (r: bool)
    ensures
        r == is_alphanumeric(c),
{
    c.is_alphanumeric()
}

/// Calls `String::from_utf8` of std: the text that the bytes encode, where
/// they are valid UTF-8.
#[verifier::external_body]
fn utf8_text(bytes: &Vec<u8>) -> (r: Option<String>)
    ensures
        r.is_some() == valid_utf8(bytes@),
        r.is_some() ==> r.unwrap()@ == decode_utf8(bytes@),
{
    match String::from_utf8(bytes.clone()) {
        Ok(s) => Some(s),
        Err(_) => None,
    }
}

/// A path names a script where it holds `/cgi/`.
pub fn is_cgi_request(path: &str) -> (r: bool)
    ensures
        r == contains_seq(path@, "/cgi/"@),
{
    contains(&chars_of(path), &chars_of("/cgi/"))
}

/// The length of the longest run of alphanumeric characters that `s` starts
/// with after position `from`.
pub open spec fn alnum_end(s: Seq<char>, from: int) -> int
    decreases s.len() - from,
{
    if from < 0 || from >= s.len() || !is_alphanumeric(s[from]) {
        from
    } else {
        alnum_end(s, from + 1)
    }
}

/// The file extension of a script path: the alphanumeric characters that
/// follow its last dot.
pub open spec fn script_extension(path: Seq<char>) -> Seq<char> {
    let start = last_index_of(path, '.') + 1;
    path.subrange(start, alnum_end(path, start))
}

/// The path of the script itself: `path` up to and with the first `.ext`
/// in it, `ext` being its extension. What follows is not part of it.
pub open spec fn script_path(path: Seq<char>) -> Seq<char> {
    let dot_ext = seq!['.'] + script_extension(path);
    let at = find_from(path, dot_ext, 0);
    if at < 0 {
        path + dot_ext
    } else {
        path.subrange(0, at) + dot_ext
    }
}

/// The language that goes with an extension: that of the first entry for
/// it.
pub open spec fn language_of(defs: Seq<(FileExtension, Cgi)>, ext: Seq<char>, from: int) -> Option<
    Cgi,
>
    decreases defs.len() - from,
{
    if from < 0 || from >= defs.len() {
        None
    } else if defs[from].0@ == ext {
        Some(defs[from].1)
    } else {
        language_of(defs, ext, from + 1)
    }
}

/// No extension has two entries.
pub open spec fn distinct_extensions(defs: Seq<(FileExtension, Cgi)>) -> bool {
    forall|i: int, j: int|
        0 <= i < j < defs.len() ==> (#[trigger] defs[i]).0@ != (#[trigger] defs[j]).0@
}

/// Where no extension has two entries, the language of an extension is that
/// of its entry, wherever it stands.
pub proof fn lemma_language_of_entry(defs: Seq<(FileExtension, Cgi)>, k: int)
    requires
        distinct_extensions(defs),
        0 <= k < defs.len(),
    ensures
        language_of(defs, defs[k].0@, 0) == Some(defs[k].1),
{
    lemma_language_from(defs, k, 0);
}

/// Looking from `from` on, the entry at `k` is found where no entry before
/// it has its extension.
proof fn lemma_language_from(defs: Seq<(FileExtension, Cgi)>, k: int, from: int)
    requires
        distinct_extensions(defs),
        0 <= from <= k < defs.len(),
    ensures
        language_of(defs, defs[k].0@, from) == Some(defs[k].1),
    decreases k - from,
{
    if from < k {
        assert(defs[from].0@ != defs[k].0@);
        lemma_language_from(defs, k, from + 1);
    }
}

/// The program that runs scripts of a language.
pub open spec fn interpreter(cgi: Cgi) -> Seq<char> {
    match cgi {
        Cgi::JavaScript => "node"@,
        Cgi::PHP => "php"@,
        Cgi::Python => "python3"@,
        Cgi::Ruby => "ruby"@,
    }
}

/// The program that runs scripts of a language.
pub fn interpreter_of(cgi: Cgi) -> (r: &'static str)
    ensures
        r@ == interpreter(cgi),
{
    match cgi {
        Cgi::JavaScript => "node",
        Cgi::PHP => "php",
        Cgi::Python => "python3",
        Cgi::Ruby => "ruby",
    }
}

/// The name of the variable that a request header is handed to a script
/// under, for the headers that are handed on.
pub open spec fn variable_of(header: Seq<char>) -> Option<Seq<char>> {
    if header == "accept"@ {
        Some("HTTP_ACCEPT"@)
    } else if header == "content-length"@ {
        Some("CONTENT_LENGTH"@)
    } else if header == "content-type"@ {
        Some("CONTENT_TYPE"@)
    } else if header == "accept-charset"@ {
        Some("HTTP_ACCEPT_CHARSET"@)
    } else if header == "accept-encoding"@ {
        Some("HTTP_ACCEPT_ENCODING"@)
    } else if header == "accept-language"@ {
        Some("HTTP_ACCEPT_LANGUAGE"@)
    } else if header == "forwarded"@ {
        Some("HTTP_FORWARDED"@)
    } else if header == "host"@ {
        Some("HTTP_HOST"@)
    } else if header == "proxy-authorization"@ {
        Some("HTTP_PROXY_AUTHORIZATION"@)
    } else if header == "user-agent"@ {
        Some("HTTP_USER_AGENT"@)
    } else if header == "cookie"@ {
        Some("COOKIE"@)
    } else {
        None
    }
}

/// The name of the variable that a request header is handed to a script
/// under.
pub fn variable_name(header: &str) -> (r: Option<&'static str>)
    ensures
        r.is_some() == variable_of(header@).is_some(),
        r.is_some() ==> r.unwrap()@ == variable_of(header@).unwrap(),
{
    if same_text(header, "accept") {
        Some("HTTP_ACCEPT")
    } else if same_text(header, "content-length") {
        Some("CONTENT_LENGTH")
    } else if same_text(header, "content-type") {
        Some("CONTENT_TYPE")
    } else if same_text(header, "accept-charset") {
        Some("HTTP_ACCEPT_CHARSET")
    } else if same_text(header, "accept-encoding") {
        Some("HTTP_ACCEPT_ENCODING")
    } else if same_text(header, "accept-language") {
        Some("HTTP_ACCEPT_LANGUAGE")
    } else if same_text(header, "forwarded") {
        Some("HTTP_FORWARDED")
    } else if same_text(header, "host") {
        Some("HTTP_HOST")
    } else if same_text(header, "proxy-authorization") {
        Some("HTTP_PROXY_AUTHORIZATION")
    } else if same_text(header, "user-agent") {
        Some("HTTP_USER_AGENT")
    } else if same_text(header, "cookie") {
        Some("COOKIE")
    } else {
        None
    }
}

/// The variables that the headers of a request give: one for each header
/// that is handed on and whose value, as shown, is not empty; in the order of
/// the headers.
pub open spec fn http_variables(h: Seq<(Seq<char>, Seq<char>)>) -> Seq<(Seq<char>, Seq<char>)>
    decreases h.len(),
{
    if h.len() == 0 {
        Seq::empty()
    } else {
        match variable_of(h.last().0) {
            Some(name) => if shown(h.last().1).len() > 0 {
                http_variables(h.drop_last()).push((name, shown(h.last().1)))
            } else {
                http_variables(h.drop_last())
            },
            None => http_variables(h.drop_last()),
        }
    }
}

/// A name and a value of the environment of a script.
#[derive(Clone, Debug, PartialEq, Eq)]
pub struct Variable {
    pub name: String,
    pub value: String,
}

impl View for Variable {
    type V = (Seq<char>, Seq<char>);

    open spec fn view(&self) -> (Seq<char>, Seq<char>) {
        (self.name@, self.value@)
    }
}

/// The views of a list of variables.
pub open spec fn variables_view(v: Seq<Variable>) -> Seq<(Seq<char>, Seq<char>)> {
    Seq::new(v.len(), |i: int| v[i]@)
}

/// The views of a list of strings.
pub open spec fn strings_view(v: Seq<String>) -> Seq<Seq<char>> {
    Seq::new(v.len(), |i: int| v[i]@)
}

/// Adds to `env` the variables that the headers of a request give.
pub fn add_http_variables(headers: &crate::headers::Headers, env: &mut Vec<Variable>)
    ensures
        variables_view(final(env)@) == variables_view(old(env)@) + http_variables(headers@),
{
    let ghost h = headers@;
    let ghost start = variables_view(env@);
    let mut i: usize = 0;
    assert(h.subrange(0, 0) =~= Seq::<(Seq<char>, Seq<char>)>::empty());
    assert(start + http_variables(h.subrange(0, 0)) =~= start);
    while i < headers.entries.len()
        invariant
            i <= headers.entries.len(),
            h == headers@,
            variables_view(env@) == start + http_variables(h.subrange(0, i as int)),
        decreases headers.entries.len() - i,
    {
        let key = headers.entries[i].name.as_str();
        let v = headers.entries[i].value.as_str();
        assert(h[i as int] == headers.entries@[i as int]@);
        assert(h.subrange(0, i + 1).drop_last() =~= h.subrange(0, i as int));
        assert(h.subrange(0, i + 1).last() == h[i as int]);
        let chars = chars_of(v);
        if visible(&chars) && chars.len() > 0 {
            if let Some(name) = variable_name(key) {
                let ghost before = variables_view(env@);
                env.push(Variable { name: name.to_owned(), value: v.to_owned() });
                assert(variables_view(env@) =~= before.push((name@, v@)));
                assert(before.push((name@, v@)) =~= start + http_variables(h.subrange(0, i + 1)));
            }
        }
        i += 1;
    }
    assert(h.subrange(0, h.len() as int) =~= h);
}

/// A path holds path information where the extension cuts it in exactly two.
pub fn contains_path_info(path: Vec<&str>) -> (r: bool)
    ensures
        r == (path@.len() == 2),
{
    path.len() == 2
}

/// What of a request path follows the script: the second of its parts around
/// the extension, where there are exactly two.
pub open spec fn path_info(path: Seq<char>, ext: Seq<char>) -> Option<Seq<char>> {
    let parts = split(path, ext);
    if parts.len() == 2 {
        Some(parts[1])
    } else {
        None
    }
}

/// The software that the server says it is.
pub const SERVER_SOFTWARE: &'static str = "Rust v1.74.0";

/// One variable, or none.
pub open spec fn optional(name: Seq<char>, value: Option<Seq<char>>) -> Seq<
    (Seq<char>, Seq<char>),
> {
    match value {
        Some(v) => seq![(name, v)],
        None => Seq::empty(),
    }
}

/// The port as text.
pub open spec fn port_text(port: Option<u16>) -> Option<Seq<char>> {
    match port {
        Some(p) => Some(decimal(p as nat)),
        None => None,
    }
}

/// The environment of a script: the variables of the request headers; the
/// query, where the target has one; the method; the host as the name of the
/// server; the port, where the target names one; the software; and the path
/// information, where there is some.
pub open spec fn environment(req: RequestView, config: ServerConfig, ext: Seq<char>) -> Seq<
    (Seq<char>, Seq<char>),
> {
    http_variables(req.headers) + optional("QUERY_STRING"@, req.uri.query) + seq![
        ("REQUEST_METHOD"@, req.method),
        ("SERVER_NAME"@, config.host@),
    ] + optional("SERVER_PORT"@, port_text(req.uri.port)) + seq![
        ("SERVER_SOFTWARE"@, SERVER_SOFTWARE@),
    ] + optional("PATH_INFO"@, path_info(req.uri.path, ext))
}

/// The environment of a script, in the order in which the variables are to
/// be set.
pub fn add_env_variables(req: &Request, config: &ServerConfig, file_extension: FileExtension) -> (r:
    Vec<Variable>)
    ensures
        variables_view(r@) == environment(req@, *config, file_extension@),
{
    let mut env: Vec<Variable> = Vec::new();
    assert(variables_view(env@) =~= Seq::<(Seq<char>, Seq<char>)>::empty());
    add_http_variables(&req.headers, &mut env);
    assert(variables_view(env@) =~= http_variables(req@.headers));
    let ghost mut so_far = variables_view(env@);
    if let Some(query) = &req.uri.query {
        env.push(Variable { name: "QUERY_STRING".to_owned(), value: query.clone() });
    }
    assert(variables_view(env@) =~= so_far + optional("QUERY_STRING"@, req@.uri.query));
    proof {
        so_far = variables_view(env@);
    }
    env.push(Variable { name: "REQUEST_METHOD".to_owned(), value: req.method.as_str().to_owned() });
    env.push(Variable { name: "SERVER_NAME".to_owned(), value: config.host.to_owned() });
    assert(variables_view(env@) =~= so_far + seq![
        ("REQUEST_METHOD"@, req@.method),
        ("SERVER_NAME"@, config.host@),
    ]);
    proof {
        so_far = variables_view(env@);
    }
    if let Some(port) = req.uri.port {
        env.push(Variable { name: "SERVER_PORT".to_owned(), value: decimal_string(port as u64) });
    }
    assert(variables_view(env@) =~= so_far + optional("SERVER_PORT"@, port_text(req@.uri.port)));
    proof {
        so_far = variables_view(env@);
    }
    env.push(Variable { name: "SERVER_SOFTWARE".to_owned(), value: SERVER_SOFTWARE.to_owned() });
    assert(variables_view(env@) =~= so_far + seq![("SERVER_SOFTWARE"@, SERVER_SOFTWARE@)]);
    proof {
        so_far = variables_view(env@);
    }
    let whole = req.uri.path();
    let v = chars_of(whole);
    let ranges = split_at_each(&v, &chars_of(file_extension));
    // localhost:8080/cgi/python.py/path/to/file -> PATH_INFO: /path/to/file
    if ranges.len() == 2 {
        let (a, b) = ranges[1];
        assert(ranges_view(ranges@)[1] == (a as int, b as int));
        let info = whole.substring_char(a, b);
        env.push(Variable { name: "PATH_INFO".to_owned(), value: info.to_owned() });
    }
    assert(variables_view(env@) =~= so_far + optional(
        "PATH_INFO"@,
        path_info(req@.uri.path, file_extension@),
    ));
    env
}

/// What is to be run for a request.
#[derive(Clone, Debug, PartialEq, Eq)]
pub struct CgiCall {
    /// The program.
    pub command: String,
    /// Its arguments: the script and the body of the request.
    pub arguments: Vec<String>,
    /// The variables to set for it, in order.
    pub env: Vec<Variable>,
}

/// What is to be run, as texts.
pub struct CgiCallView {
    pub command: Seq<char>,
    pub arguments: Seq<Seq<char>>,
    pub env: Seq<(Seq<char>, Seq<char>)>,
}

impl View for CgiCall {
    type V = CgiCallView;

    open spec fn view(&self) -> CgiCallView {
        CgiCallView {
            command: self.command@,
            arguments: strings_view(self.arguments@),
            env: variables_view(self.env@),
        }
    }
}

/// The scripts that a route knows of, where it has settings that name some.
pub open spec fn scripts_of(route: Route) -> Option<Seq<(FileExtension, Cgi)>> {
    match route.settings {
        Some(settings) => match settings.cgi_def {
            Some(defs) => Some(defs@),
            None => None,
        },
        None => None,
    }
}

/// What is to be run for a request, or the status that says why nothing is.
///
/// A request that no route answers gets the status that says so. A route
/// that knows of no scripts makes the request bad; a body over the limit is
/// too large; a body that is no UTF-8 text makes the request bad; an
/// extension that the route has no language for is not found. Else the
/// interpreter of the language is run on the script, with the body as second
/// argument.
pub open spec fn call_of(req: RequestView, config: ServerConfig) -> Result<
    CgiCallView,
    StatusCode,
> {
    match resolve(config.routes@, req.uri.path, req.method) {
        Err((code, _)) => Err(code),
        Ok(i) => {
            let route = config.routes@[i];
            let full = resolved_path(route, req.uri.path);
            let ext = script_extension(full);
            match scripts_of(route) {
                None => Err(StatusCode::bad_request()),
                Some(defs) => if req.body.len() > config.body_size_limit {
                    Err(StatusCode::payload_too_large())
                } else if !valid_utf8(req.body) {
                    Err(StatusCode::bad_request())
                } else {
                    match language_of(defs, ext, 0) {
                        None => Err(StatusCode::not_found()),
                        Some(cgi) => Ok(
                            CgiCallView {
                                command: interpreter(cgi),
                                arguments: seq![script_path(full), decode_utf8(req.body)],
                                env: environment(req, config, ext),
                            },
                        ),
                    }
                },
            }
        },
    }
}

/// The view of a call or the status that took its place.
pub open spec fn call_view(r: Result<CgiCall, StatusCode>) -> Result<CgiCallView, StatusCode> {
    match r {
        Ok(c) => Ok(c@),
        Err(e) => Err(e),
    }
}

/// The language that goes with an extension.
pub fn find_language(defs: &Vec<(FileExtension, Cgi)>, ext: &str) -> (r: Option<Cgi>)
    ensures
        r == language_of(defs@, ext@, 0),
{
    let mut i: usize = 0;
    while i < defs.len()
        invariant
            i <= defs.len(),
            language_of(defs@, ext@, 0) == language_of(defs@, ext@, i as int),
        decreases defs.len() - i,
    {
        if same_text(defs[i].0, ext) {
            return Some(defs[i].1);
        }
        i += 1;
    }
    None
}

/// What is to be run for a request.
pub fn cgi_call(req: &Request, config: &ServerConfig) -> (r: Result<CgiCall, StatusCode>)
    ensures
        call_view(r) == call_of(req@, *config),
{
    let route = match get_route(req, config) {
        Ok(route) => route,
        Err((status, _)) => return Err(status),
    };
    let settings = match &route.settings {
        Some(s) => s,
        None => return Err(StatusCode::bad_request()),
    };
    let defs = match &settings.cgi_def {
        Some(d) => d,
        None => return Err(StatusCode::bad_request()),
    };
    let full_path = add_root_to_path(route, req.uri.path());
    if req.body.len() > config.body_size_limit {
        return Err(StatusCode::payload_too_large());
    }
    let body = match utf8_text(&req.body) {
        Some(b) => b,
        None => return Err(StatusCode::bad_request()),
    };
    let v = chars_of(full_path.as_str());
    let len = v.len();
    let start = match rfind_char(&v, '.') {
        Some(i) => i + 1,
        None => 0,
    };
    let mut end: usize = start;
    while end < len && alphanumeric(v[end])
        invariant
            start <= end <= len,
            len == v.len(),
            alnum_end(v@, start as int) == alnum_end(v@, end as int),
        decreases len - end,
    {
        end += 1;
    }
    let file_extension = full_path.as_str().substring_char(start, end);
    let mut dot_ext: Vec<char> = Vec::new();
    dot_ext.push('.');
    let ext_chars = slice_chars(&v, start, end);
    let mut k: usize = 0;
    while k < ext_chars.len()
        invariant
            k <= ext_chars.len(),
            dot_ext@ == seq!['.'] + ext_chars@.subrange(0, k as int),
        decreases ext_chars.len() - k,
    {
        dot_ext.push(ext_chars[k]);
        assert(dot_ext@ =~= seq!['.'] + ext_chars@.subrange(0, k + 1));
        k += 1;
    }
    assert(ext_chars@.subrange(0, ext_chars.len() as int) =~= ext_chars@);
    let cut = match find(&v, &dot_ext, 0) {
        Some(at) => at,
        None => len,
    };
    proof {
        crate::text::lemma_find_from_bounds(v@, dot_ext@, 0);
        assert(v@.subrange(0, len as int) =~= v@);
    }
    let mut path = full_path.as_str().substring_char(0, cut).to_owned();
    path.append(string_of(&dot_ext).as_str());

    // Check if the file extension is associated with a CGI script
    let cgi_type = match find_language(defs, file_extension) {
        Some(cgi_type) => cgi_type,
        None => return Err(StatusCode::not_found()),
    };
    let env = add_env_variables(req, config, file_extension);
    let mut arguments: Vec<String> = Vec::new();
    arguments.push(path);
    arguments.push(body);
    assert(strings_view(arguments@) =~= seq![
        script_path(full_path@),
        decode_utf8(req.body@),
    ]);
    Ok(CgiCall { command: interpreter_of(cgi_type).to_owned(), arguments, env })
}

/// The answer to a request for a script. `output` is what the script wrote,
/// if it could be run.
///
/// Where nothing is to be run, the status says why; a script that could not
/// be run gives 500. Else the answer is 200 with the output as body, as
/// `text/html`.
pub open spec fn script_answer(
    req: RequestView,
    config: ServerConfig,
    output: Option<Seq<u8>>,
) -> Result<ResponseView, StatusCode> {
    match call_of(req, config) {
        Err(code) => Err(code),
        Ok(_) => match output {
            None => Err(StatusCode::internal_server_error()),
            Some(body) => assembled(
                StatusCode::ok(),
                req.version,
                served_headers(req, config, "text/html"@, body),
                body,
                StatusCode::internal_server_error(),
            ),
        },
    }
}

/// The answer to a request for a script, from what the script wrote.
pub fn execute_cgi_script(req: &Request, config: &ServerConfig, output: Option<Bytes>) -> (r:
    Result<Response, StatusCode>)
    ensures
        response_view(r) == script_answer(req@, *config, opt_bytes(output)),
{
    cgi_call(req, config)?;
    // What the script wrote is the body
    let body = match output {
        Some(b) => b,
        None => return Err(StatusCode::internal_server_error()),
    };
    served(req, config, "text/html", body)
}

} // verus!
