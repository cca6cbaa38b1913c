//! The methods that change files: POST, PUT, PATCH and DELETE.
use crate::headers::lemma_written_names;
use crate::message::{Request, RequestView, Response, ResponseView};
use crate::server::methods::{target_path, target_view};
use crate::server::responses::{
    content_type, extension_of, lemma_media_type_sound, media_type, opt_bytes, response_view,
    Builder,
};
use crate::server_config::ServerConfig;
use crate::status::{decimal, decimal_string, lemma_decimal_is_value, StatusCode, Version};
use crate::text::{chars_of, last_index_of, rfind_char};
use crate::type_aliases::Bytes;
use vstd::prelude::*;
use vstd::string::*;

verus! {

/// The answer once a file was changed: 200 with the media type by the file's
/// extension, the length of the body, and the body.
pub open spec fn stored_answer(path: Seq<char>, body: Seq<u8>) -> ResponseView {
    ResponseView {
        status: StatusCode::ok(),
        version: Version::Http11,
        headers: seq![
            ("content-type"@, media_type(extension_of(path))),
            ("content-length"@, decimal(body.len())),
        ],
        body,
    }
}

/// The answer once a file was changed. It never fails.
pub fn unsafe_response(path: &str, body: Bytes) -> (r: Result<Response, StatusCode>)
    ensures
        response_view(r) == Ok::<ResponseView, StatusCode>(stored_answer(path@, body@)),
{
    proof {
        lemma_written_names();
        lemma_media_type_sound(extension_of(path@));
        lemma_decimal_is_value(body@.len());
    }
    let resp = Builder::new().status(StatusCode::ok()).header(
        "content-type",
        content_type(path).as_str(),
    ).header("content-length", decimal_string(body.len() as u64).as_str());
    assert(resp.headers@ =~= stored_answer(path@, body@).headers);
    match resp.body(body) {
        Some(response) => Ok(response),
        None => Err(StatusCode::internal_server_error()),
    }
}

/// Where the number goes in a path: before its last dot, or at its end where
/// it has no dot.
pub open spec fn number_place(path: Seq<char>) -> int {
    if last_index_of(path, '.') >= 0 {
        last_index_of(path, '.')
    } else {
        path.len() as int
    }
}

/// The path with `(n)` before its last dot: `/foo.txt` gives `/foo(0).txt`.
pub open spec fn numbered(path: Seq<char>, n: nat) -> Seq<char> {
    path.subrange(0, number_place(path)) + "("@ + decimal(n) + ")"@ + path.subrange(
        number_place(path),
        path.len() as int,
    )
}

/// The name to try in the `n`-th place when the file that a POST names
/// exists already. The caller takes the first that is free, counting from 0.
pub fn numbered_path(path: &str, n: u64) -> (r: String)
    ensures
        r@ == numbered(path@, n as nat),
{
    let v = chars_of(path);
    let len = v.len();
    let end = match rfind_char(&v, '.') {
        Some(i) => i,
        None => len,
    };
    let mut out = path.substring_char(0, end).to_owned();
    out.append("(");
    out.append(decimal_string(n).as_str());
    out.append(")");
    out.append(path.substring_char(end, len));
    out
}

/// Which name is tried for the body of a POST: the path itself, or one of
/// its numbered names.
#[derive(Clone, Copy, Debug, PartialEq, Eq, Structural)]
pub enum Attempt {
    Plain,
    Numbered(u64),
}

/// The name that an attempt stands for.
pub open spec fn attempt_name(path: Seq<char>, attempt: Attempt) -> Seq<char> {
    match attempt {
        Attempt::Plain => path,
        Attempt::Numbered(n) => numbered(path, n as nat),
    }
}

/// What to do next to store the body of a POST.
#[derive(Clone, Debug, PartialEq, Eq)]
pub enum CreateStep {
    /// Find out whether the name is taken, and go on with `create_next`.
    Probe(Attempt, String),
    /// Write the body under the name.
    Write(String),
    /// Every name is taken.
    GiveUp,
}

/// A step to store the body of a POST, with the name as text.
pub enum CreateStepView {
    Probe(Attempt, Seq<char>),
    Write(Seq<char>),
    GiveUp,
}

impl View for CreateStep {
    type V = CreateStepView;

    open spec fn view(&self) -> CreateStepView {
        match self {
            CreateStep::Probe(a, p) => CreateStepView::Probe(*a, p@),
            CreateStep::Write(p) => CreateStepView::Write(p@),
            CreateStep::GiveUp => CreateStepView::GiveUp,
        }
    }
}

/// The step after an attempt: a name that is free is written; after a name
/// that is taken the next numbered name is tried, from 0 on.
pub open spec fn step_after(path: Seq<char>, attempt: Attempt, taken: bool) -> CreateStepView {
    if !taken {
        CreateStepView::Write(attempt_name(path, attempt))
    } else {
        match attempt {
            Attempt::Plain => CreateStepView::Probe(Attempt::Numbered(0), numbered(path, 0)),
            Attempt::Numbered(n) => if n < u64::MAX {
                CreateStepView::Probe(
                    Attempt::Numbered((n + 1) as u64),
                    numbered(path, (n + 1) as nat),
                )
            } else {
                CreateStepView::GiveUp
            },
        }
    }
}

/// The first step to store the body of a POST to `path`: try the path
/// itself.
pub fn create_start(path: &str) -> (r: CreateStep)
    ensures
        r@ == CreateStepView::Probe(Attempt::Plain, path@),
{
    CreateStep::Probe(Attempt::Plain, path.to_owned())
}

/// The step after `attempt` was probed; `taken` says whether a file of that
/// name is there.
pub fn create_next(path: &str, attempt: Attempt, taken: bool) -> (r: CreateStep)
    ensures
        r@ == step_after(path@, attempt, taken),
{
    if !taken {
        return match attempt {
            Attempt::Plain => CreateStep::Write(path.to_owned()),
            Attempt::Numbered(n) => CreateStep::Write(numbered_path(path, n)),
        };
    }
    // If the file already exists, modify the path.
    // /foo.txt -> /foo(0).txt
    match attempt {
        Attempt::Plain => CreateStep::Probe(Attempt::Numbered(0), numbered_path(path, 0)),
        Attempt::Numbered(n) => if n < u64::MAX {
            CreateStep::Probe(Attempt::Numbered(n + 1), numbered_path(path, n + 1))
        } else {
            CreateStep::GiveUp
        },
    }
}

/// The answer to a POST. `written` says whether the body was written, to the
/// file that the request names or, where that exists, to the first free
/// numbered name.
///
/// A request that no route answers gets the status that says so; a body that
/// could not be written gives 400; else the body is echoed.
pub open spec fn post_answer(req: RequestView, config: ServerConfig, written: bool) -> Result<
    ResponseView,
    StatusCode,
> {
    match target_view(req, config) {
        Err(code) => Err(code),
        Ok(path) => if written {
            Ok(stored_answer(path, req.body))
        } else {
            Err(StatusCode::bad_request())
        },
    }
}

/// Answers a POST once its body was written, or not.
pub fn post(req: &Request, config: &ServerConfig, written: bool) -> (r: Result<
    Response,
    StatusCode,
>)
    ensures
        response_view(r) == post_answer(req@, *config, written),
{
    let path = target_path(req, config)?;
    let body = req.body.clone();
    let resp = unsafe_response(path.as_str(), body)?;
    if !written {
        return Err(StatusCode::bad_request());
    }
    Ok(resp)
}

/// The answer to a PUT. `written` says whether the body was written to the
/// file that the request names, in place of what it held.
///
/// A body that could not be written gives 500; else the body is echoed.
pub open spec fn put_answer(req: RequestView, config: ServerConfig, written: bool) -> Result<
    ResponseView,
    StatusCode,
> {
    match target_view(req, config) {
        Err(code) => Err(code),
        Ok(path) => if written {
            Ok(stored_answer(path, req.body))
        } else {
            Err(StatusCode::internal_server_error())
        },
    }
}

/// Answers a PUT once its body was written, or not.
pub fn put(req: &Request, config: &ServerConfig, written: bool) -> (r: Result<
    Response,
    StatusCode,
>)
    ensures
        response_view(r) == put_answer(req@, *config, written),
{
    let path = target_path(req, config)?;
    let body = req.body.clone();
    if !written {
        return Err(StatusCode::internal_server_error());
    }
    unsafe_response(path.as_str(), body)
}

/// The answer to a PATCH. `existed` says whether the file that the request
/// names was there, `written` whether the body was then written in place of
/// what it held.
///
/// A file that was not there gives 404, a body that could not be written
/// 500; else the body is echoed.
pub open spec fn patch_answer(
    req: RequestView,
    config: ServerConfig,
    existed: bool,
    written: bool,
) -> Result<ResponseView, StatusCode> {
    match target_view(req, config) {
        Err(code) => Err(code),
        Ok(path) => if !existed {
            Err(StatusCode::not_found())
        } else if !written {
            Err(StatusCode::internal_server_error())
        } else {
            Ok(stored_answer(path, req.body))
        },
    }
}

/// Answers a PATCH once its file was looked for and written, or not.
pub fn patch(req: &Request, config: &ServerConfig, existed: bool, written: bool) -> (r: Result<
    Response,
    StatusCode,
>)
    ensures
        response_view(r) == patch_answer(req@, *config, existed, written),
{
    let path = target_path(req, config)?;
    let body = req.body.clone();
    if !existed {
        return Err(StatusCode::not_found());
    }
    if !written {
        return Err(StatusCode::internal_server_error());
    }
    unsafe_response(path.as_str(), body)
}

/// The answer to a DELETE. `old` is what the file that the request names
/// held, if it could be read; `removed` says whether it was then removed.
///
/// A file that could not be read gives 404, one that could not be removed
/// 500; else the answer carries what the file held.
pub open spec fn delete_answer(
    req: RequestView,
    config: ServerConfig,
    old: Option<Seq<u8>>,
    removed: bool,
) -> Result<ResponseView, StatusCode> {
    match target_view(req, config) {
        Err(code) => Err(code),
        Ok(path) => match old {
            None => Err(StatusCode::not_found()),
            Some(body) => if removed {
                Ok(stored_answer(path, body))
            } else {
                Err(StatusCode::internal_server_error())
            },
        },
    }
}

/// Answers a DELETE once its file was read and removed, or not.
pub fn delete(req: &Request, config: &ServerConfig, old: Option<Bytes>, removed: bool) -> (r:
    Result<Response, StatusCode>)
    ensures
        response_view(r) == delete_answer(req@, *config, opt_bytes(old), removed),
{
    let path = target_path(req, config)?;
    let body = match old {
        Some(b) => b,
        None => return Err(StatusCode::not_found()),
    };
    if !removed {
        return Err(StatusCode::internal_server_error());
    }
    unsafe_response(path.as_str(), body)
}

} // verus!
