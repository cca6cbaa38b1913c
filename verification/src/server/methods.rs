//! The request method, and what each method does.
//!
//! The methods that touch files do not touch them here: `file_action` says
//! what is to be done with which file, the caller does it, and
//! `handle_method` makes the answer from what came of it.
pub mod not_safe;
pub mod safe;

use crate::headers::is_header_value;
use crate::message::{Request, RequestView, Response, ResponseView};
use crate::server::methods::not_safe::{
    delete, delete_answer, patch, patch_answer, post, post_answer, put, put_answer,
};
use crate::server::methods::safe::{
    get, get_answer, head, head_answer, options, options_answer, trace, trace_answer,
};
use crate::server::requests::path::{add_root_to_path, resolved_path};
use crate::server::requests::utils::{get_line, get_split_index, line_at, word_at};
use crate::server::responses::{all_sound, response_view};
use crate::server::routes::{get_route, resolve};
use crate::server_config::{Route, ServerConfig};
use crate::status::{is_token, Method, StatusCode};
use crate::text::{lower, same_text};
use crate::type_aliases::Bytes;
use vstd::prelude::*;
use vstd::string::*;

verus! {

/// The method token of a request head: the first word of its first line.
pub open spec fn method_token(req: Seq<char>) -> Seq<char> {
    word_at(line_at(req, 0), 0)
}

/// The method of a request head; a bad request where the first word is no
/// token.
pub fn get_method(req: &str) -> (r: Result<Method, StatusCode>)
    ensures
        r.is_ok() == is_token(method_token(req@)),
        r.is_ok() ==> r.unwrap()@ == method_token(req@) && r.unwrap().wf(),
        r.is_ok() && Method::is_standard(method_token(req@)) ==> r.unwrap() == Method::named(
            method_token(req@),
        ),
        r.is_err() ==> r == Err::<Method, StatusCode>(StatusCode::bad_request()),
{
    let line = get_line(req, 0);
    let method = get_split_index(line, 0);
    // "GET /path2 HTTP/1.1" -> "GET"
    match Method::from_token(method) {
        Some(m) => Ok(m),
        None => Err(StatusCode::bad_request()),
    }
}

/// Whether `method` is among the methods of a route.
pub open spec fn allows(route: Route, method: Seq<char>) -> bool {
    exists|k: int| 0 <= k < route.methods@.len() && (#[trigger] route.methods@[k])@ == method
}

/// Whether the method is among the methods of the route.
pub fn method_is_allowed(method: &Method, route: &Route) -> (r: bool)
    ensures
        r == allows(*route, method@),
{
    let mut k: usize = 0;
    while k < route.methods.len()
        invariant
            k <= route.methods.len(),
            forall|j: int| 0 <= j < k ==> (#[trigger] route.methods@[j])@ != method@,
        decreases route.methods.len() - k,
    {
        if route.methods[k].same(method) {
            return true;
        }
        k += 1;
    }
    false
}

/// The file that a request names: the resolved path under the route that
/// answers it, or the status that says why no route does.
pub open spec fn target_view(req: RequestView, config: ServerConfig) -> Result<
    Seq<char>,
    StatusCode,
> {
    match resolve(config.routes@, req.uri.path, req.method) {
        Ok(i) => Ok(resolved_path(config.routes@[i], req.uri.path)),
        Err((code, _)) => Err(code),
    }
}

/// The view of a path or the status that took its place.
pub open spec fn path_view(r: Result<String, StatusCode>) -> Result<Seq<char>, StatusCode> {
    match r {
        Ok(p) => Ok(p@),
        Err(e) => Err(e),
    }
}

/// The file that a request names.
pub fn target_path(req: &Request, config: &ServerConfig) -> (r: Result<String, StatusCode>)
    ensures
        path_view(r) == target_view(req@, *config),
{
    let route = match get_route(req, config) {
        Ok(route) => route,
        Err((status, _)) => return Err(status),
    };
    Ok(add_root_to_path(route, req.uri.path()))
}

/// What is to be done with a file before a request can be answered. What is
/// written is the body of the request.
#[derive(Clone, Debug, PartialEq, Eq)]
pub enum FileAction {
    /// Nothing: the answer does not depend on a file.
    Nothing,
    /// Read the file.
    Read(String),
    /// Get the size of the file.
    Size(String),
    /// Write the file, in place of what it held.
    Write(String),
    /// Write the file, if it is there.
    Overwrite(String),
    /// Read the file, then remove it; a directory is removed with all that
    /// is in it.
    Take(String),
    /// Write the file if it is not there, else the first of its numbered
    /// names that is free: the name that `create_start` and `create_next`
    /// lead to.
    Create(String),
}

/// A file action, with the path as text.
pub enum FileActionView {
    Nothing,
    Read(Seq<char>),
    Size(Seq<char>),
    Write(Seq<char>),
    Overwrite(Seq<char>),
    Take(Seq<char>),
    Create(Seq<char>),
}

impl View for FileAction {
    type V = FileActionView;

    open spec fn view(&self) -> FileActionView {
        match self {
            FileAction::Nothing => FileActionView::Nothing,
            FileAction::Read(p) => FileActionView::Read(p@),
            FileAction::Size(p) => FileActionView::Size(p@),
            FileAction::Write(p) => FileActionView::Write(p@),
            FileAction::Overwrite(p) => FileActionView::Overwrite(p@),
            FileAction::Take(p) => FileActionView::Take(p@),
            FileAction::Create(p) => FileActionView::Create(p@),
        }
    }
}

/// What came of a file action.
#[derive(Clone, Debug, PartialEq, Eq)]
pub enum FileOutcome {
    /// Nothing was to be done.
    Nothing,
    /// What the file held: after `Read`, and after `Take` once the file was
    /// removed.
    Content(Bytes),
    /// The size of the file, after `Size`.
    Size(u64),
    /// The file was written.
    Done,
    /// The file is not there or cannot be read.
    Missing,
    /// The action failed otherwise.
    Failed,
}

/// The outcome of a file action, as bytes.
pub enum FileOutcomeView {
    Nothing,
    Content(Seq<u8>),
    Size(u64),
    Done,
    Missing,
    Failed,
}

impl View for FileOutcome {
    type V = FileOutcomeView;

    open spec fn view(&self) -> FileOutcomeView {
        match self {
            FileOutcome::Nothing => FileOutcomeView::Nothing,
            FileOutcome::Content(b) => FileOutcomeView::Content(b@),
            FileOutcome::Size(n) => FileOutcomeView::Size(*n),
            FileOutcome::Done => FileOutcomeView::Done,
            FileOutcome::Missing => FileOutcomeView::Missing,
            FileOutcome::Failed => FileOutcomeView::Failed,
        }
    }
}

/// What a request asks to be done with a file. The methods that touch no
/// file, and those that are not implemented, ask for nothing.
pub open spec fn action_of(req: RequestView, config: ServerConfig) -> Result<
    FileActionView,
    StatusCode,
> {
    let m = req.method;
    if !(m == "GET"@ || m == "HEAD"@ || m == "POST"@ || m == "PUT"@ || m == "PATCH"@ || m
        == "DELETE"@) {
        Ok(FileActionView::Nothing)
    } else {
        match target_view(req, config) {
            Err(code) => Err(code),
            Ok(path) => Ok(
                if m == "GET"@ {
                    FileActionView::Read(path)
                } else if m == "HEAD"@ {
                    FileActionView::Size(path)
                } else if m == "POST"@ {
                    FileActionView::Create(path)
                } else if m == "PUT"@ {
                    FileActionView::Write(path)
                } else if m == "PATCH"@ {
                    FileActionView::Overwrite(path)
                } else {
                    FileActionView::Take(path)
                },
            ),
        }
    }
}

/// The view of an action or the status that took its place.
pub open spec fn action_view(r: Result<FileAction, StatusCode>) -> Result<
    FileActionView,
    StatusCode,
> {
    match r {
        Ok(a) => Ok(a@),
        Err(e) => Err(e),
    }
}

/// What is to be done with which file before `handle_method` can answer the
/// request.
pub fn file_action(req: &Request, config: &ServerConfig) -> (r: Result<FileAction, StatusCode>)
    ensures
        action_view(r) == action_of(req@, *config),
{
    let m = req.method.as_str();
    proof {
        crate::status::lemma_method_names();
    }
    if same_text(m, "GET") {
        Ok(FileAction::Read(target_path(req, config)?))
    } else if same_text(m, "HEAD") {
        Ok(FileAction::Size(target_path(req, config)?))
    } else if same_text(m, "POST") {
        Ok(FileAction::Create(target_path(req, config)?))
    } else if same_text(m, "PUT") {
        Ok(FileAction::Write(target_path(req, config)?))
    } else if same_text(m, "PATCH") {
        Ok(FileAction::Overwrite(target_path(req, config)?))
    } else if same_text(m, "DELETE") {
        Ok(FileAction::Take(target_path(req, config)?))
    } else {
        Ok(FileAction::Nothing)
    }
}

/// The answer to a request, given what came of its file action.
///
/// GET, HEAD, OPTIONS, TRACE, POST, PUT, PATCH and DELETE are answered as
/// their own functions say; an outcome that does not belong to the action of
/// the method counts as a failure of that action. Any other method is not
/// implemented.
pub open spec fn answer(
    route: Route,
    req: RequestView,
    config: ServerConfig,
    outcome: FileOutcomeView,
) -> Result<ResponseView, StatusCode> {
    let m = req.method;
    if m == "GET"@ {
        get_answer(
            req,
            config,
            match outcome {
                FileOutcomeView::Content(b) => Some(b),
                _ => None,
            },
        )
    } else if m == "OPTIONS"@ {
        options_answer(route, req, config)
    } else if m == "HEAD"@ {
        head_answer(
            req,
            config,
            match outcome {
                FileOutcomeView::Size(n) => Some(n),
                _ => None,
            },
        )
    } else if m == "TRACE"@ {
        trace_answer(req, config)
    } else if m == "POST"@ {
        post_answer(req, config, outcome is Done)
    } else if m == "PUT"@ {
        put_answer(req, config, outcome is Done)
    } else if m == "PATCH"@ {
        patch_answer(req, config, !(outcome is Missing), outcome is Done)
    } else if m == "DELETE"@ {
        match outcome {
            FileOutcomeView::Content(old) => delete_answer(req, config, Some(old), true),
            FileOutcomeView::Missing => delete_answer(req, config, None, false),
            _ => delete_answer(req, config, Some(Seq::empty()), false),
        }
    } else {
        Err(StatusCode::not_implemented())
    }
}

/// Answers a request by its method, given what came of its file action.
pub fn handle_method(
    route: &Route,
    req: &Request,
    config: &ServerConfig,
    outcome: FileOutcome,
) -> (r: Result<Response, StatusCode>)
    ensures
        response_view(r) == answer(*route, req@, *config, outcome@),
{
    let m = req.method.as_str();
    if same_text(m, "GET") {
        // SAFE METHODS
        get(
            req,
            config,
            match outcome {
                FileOutcome::Content(b) => Some(b),
                _ => None,
            },
        )
    } else if same_text(m, "OPTIONS") {
        options(route, req, config)
    } else if same_text(m, "HEAD") {
        head(
            req,
            config,
            match outcome {
                FileOutcome::Size(n) => Some(n),
                _ => None,
            },
        )
    } else if same_text(m, "TRACE") {
        trace(req, config)
    } else if same_text(m, "POST") {
        // UNSAFE METHODS
        post(req, config, matches!(outcome, FileOutcome::Done))
    } else if same_text(m, "PUT") {
        put(req, config, matches!(outcome, FileOutcome::Done))
    } else if same_text(m, "PATCH") {
        patch(
            req,
            config,
            !matches!(outcome, FileOutcome::Missing),
            matches!(outcome, FileOutcome::Done),
        )
    } else if same_text(m, "DELETE") {
        match outcome {
            FileOutcome::Content(old) => delete(req, config, Some(old), true),
            FileOutcome::Missing => delete(req, config, None, false),
            _ => delete(req, config, Some(Vec::new()), false),
        }
    } else {
        // Managed to bypass implemented request methods.
        Err(StatusCode::not_implemented())
    }
}

/// A list of headers with one more is sound where the list and the one are.
pub proof fn lemma_all_sound_push(h: Seq<(Seq<char>, Seq<char>)>, e: (Seq<char>, Seq<char>))
    ensures
        all_sound(h.push(e)) == (all_sound(h) && crate::headers::is_header_name(e.0) && lower(e.0)
            == e.0 && is_header_value(e.1)),
{
    if all_sound(h.push(e)) {
        assert forall|i: int| 0 <= i < h.len() implies crate::headers::is_header_name(
            (#[trigger] h[i]).0,
        ) && lower(h[i].0) == h[i].0 && is_header_value(h[i].1) by {
            assert(h.push(e)[i] == h[i]);
        }
        assert(h.push(e)[h.len() as int] == e);
    }
    if all_sound(h) && crate::headers::is_header_name(e.0) && lower(e.0) == e.0 && is_header_value(
        e.1,
    ) {
        assert forall|i: int| 0 <= i < h.push(e).len() implies crate::headers::is_header_name(
            (#[trigger] h.push(e)[i]).0,
        ) && lower(h.push(e)[i].0) == h.push(e)[i].0 && is_header_value(h.push(e)[i].1) by {
            if i < h.len() {
                assert(h.push(e)[i] == h[i]);
            }
        }
    }
}

} // verus!
