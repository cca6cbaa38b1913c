//! A model of the files that the methods act on, and what the methods do to
//! it.
//!
//! The library never touches a file: `file_action` names an action, the
//! caller performs it, `handle_method` answers from the outcome. Here the
//! files are a map from path to contents, the caller is taken to perform each
//! action faithfully, and the statements below say what then holds of
//! requests that follow one another.
use crate::headers::{headers_wf, is_header_value};
use crate::message::{RequestView, ResponseView};
use crate::server::methods::{action_of, answer, target_view, FileActionView, FileOutcomeView};
use crate::server::methods::not_safe::{
    attempt_name, numbered, step_after, Attempt, CreateStepView,
};
use crate::server::methods::safe::echoed;
use crate::server::responses::{all_sound, extension_of, lemma_media_type_sound, media_type};
use crate::server_config::{Route, ServerConfig};
use crate::status::{decimal, lemma_decimal_is_value, lemma_method_names, StatusCode};
use vstd::prelude::*;

verus! {

/// The files: what each path that names a file holds.
pub type Files = Map<Seq<char>, Seq<u8>>;

/// Whether `numbered(path, n)` is the first of the numbered names of `path`
/// that names no file.
pub open spec fn first_free(files: Files, path: Seq<char>, n: nat) -> bool {
    !files.dom().contains(numbered(path, n)) && forall|m: nat|
        m < n ==> files.dom().contains(#[trigger] numbered(path, m))
}

/// The name under which a POST to `path` stores its body: `path` itself if
/// it names no file, else its first numbered name that names none.
pub open spec fn free_name(files: Files, path: Seq<char>) -> Seq<char> {
    if !files.dom().contains(path) {
        path
    } else {
        numbered(path, choose|n: nat| first_free(files, path, n))
    }
}

/// The name that is written in the end when the steps of `create_next` are
/// taken against the files, from `attempt` on; `None` where that takes more
/// than `fuel` steps or every name is taken.
pub open spec fn created_name(files: Files, path: Seq<char>, attempt: Attempt, fuel: nat) -> Option<
    Seq<char>,
>
    decreases fuel,
{
    if fuel == 0 {
        None
    } else {
        match step_after(path, attempt, files.dom().contains(attempt_name(path, attempt))) {
            CreateStepView::Write(name) => Some(name),
            CreateStepView::Probe(next, _) => created_name(files, path, next, (fuel - 1) as nat),
            CreateStepView::GiveUp => None,
        }
    }
}

/// At most one numbered name is the first that is free.
pub proof fn lemma_first_free_unique(files: Files, path: Seq<char>, a: nat, b: nat)
    requires
        first_free(files, path, a),
        first_free(files, path, b),
    ensures
        a == b,
{
    if a < b {
        assert(files.dom().contains(numbered(path, a)));
    } else if b < a {
        assert(files.dom().contains(numbered(path, b)));
    }
}

/// From a numbered name on, the steps end at the first numbered name that is
/// free.
proof fn lemma_created_from(files: Files, path: Seq<char>, j: nat, k: nat)
    requires
        first_free(files, path, k),
        j <= k <= u64::MAX,
    ensures
        created_name(files, path, Attempt::Numbered(j as u64), (k - j + 1) as nat) == Some(
            numbered(path, k),
        ),
    decreases k - j,
{
    if j < k {
        assert(files.dom().contains(numbered(path, j)));
        lemma_created_from(files, path, j + 1, k);
    }
}

/// The steps of `create_next` end at the name that the model takes: the
/// path itself where it names no file, else its first numbered name that
/// names none.
pub proof fn lemma_created_is_free_name(files: Files, path: Seq<char>, k: nat)
    requires
        files.dom().contains(path) ==> first_free(files, path, k) && k <= u64::MAX,
    ensures
        created_name(files, path, Attempt::Plain, k + 2) == Some(free_name(files, path)),
{
    if files.dom().contains(path) {
        let n = choose|n: nat| first_free(files, path, n);
        lemma_first_free_unique(files, path, n, k);
        lemma_created_from(files, path, 0, k);
    }
}

/// What an action does to the files and what comes of it, where nothing goes
/// wrong. `body` is what is written.
pub open spec fn perform(files: Files, action: FileActionView, body: Seq<u8>) -> (
    Files,
    FileOutcomeView,
) {
    match action {
        FileActionView::Nothing => (files, FileOutcomeView::Nothing),
        FileActionView::Read(p) => if files.dom().contains(p) {
            (files, FileOutcomeView::Content(files[p]))
        } else {
            (files, FileOutcomeView::Missing)
        },
        FileActionView::Size(p) => if files.dom().contains(p) && files[p].len() <= u64::MAX {
            (files, FileOutcomeView::Size(files[p].len() as u64))
        } else {
            (files, FileOutcomeView::Failed)
        },
        FileActionView::Write(p) => (files.insert(p, body), FileOutcomeView::Done),
        FileActionView::Overwrite(p) => if files.dom().contains(p) {
            (files.insert(p, body), FileOutcomeView::Done)
        } else {
            (files, FileOutcomeView::Missing)
        },
        FileActionView::Take(p) => if files.dom().contains(p) {
            (files.remove(p), FileOutcomeView::Content(files[p]))
        } else {
            (files, FileOutcomeView::Missing)
        },
        FileActionView::Create(p) => (
            files.insert(free_name(files, p), body),
            FileOutcomeView::Done,
        ),
    }
}

/// A request served: the files afterwards, and the answer.
pub open spec fn serve(files: Files, route: Route, req: RequestView, config: ServerConfig) -> (
    Files,
    Result<ResponseView, StatusCode>,
) {
    match action_of(req, config) {
        Err(_) => (files, answer(route, req, config, FileOutcomeView::Nothing)),
        Ok(action) => {
            let (after, outcome) = perform(files, action, req.body);
            (after, answer(route, req, config, outcome))
        },
    }
}

/// GET, HEAD, OPTIONS and TRACE.
pub open spec fn is_safe(method: Seq<char>) -> bool {
    method == "GET"@ || method == "HEAD"@ || method == "OPTIONS"@ || method == "TRACE"@
}

/// A safe method leaves the files as they are, so the same request served
/// twice in succession is answered twice alike.
pub proof fn lemma_safe_methods_read_only(
    files: Files,
    route: Route,
    req: RequestView,
    config: ServerConfig,
)
    requires
        is_safe(req.method),
    ensures
        serve(files, route, req, config).0 == files,
        serve(serve(files, route, req, config).0, route, req, config).1 == serve(
            files,
            route,
            req,
            config,
        ).1,
{
    lemma_method_names();
}

/// After a PUT of `put.body` to a path, a GET of that path is answered with
/// that body, where a route answers both requests, the host can stand in a
/// header and the headers of the GET are sound.
pub proof fn lemma_get_after_put(
    files: Files,
    route: Route,
    put: RequestView,
    get: RequestView,
    config: ServerConfig,
)
    requires
        put.method == "PUT"@,
        get.method == "GET"@,
        put.uri.path == get.uri.path,
        target_view(put, config).is_ok(),
        target_view(get, config).is_ok(),
        is_header_value(config.host@),
        headers_wf(get.headers),
    ensures
        serve(files, route, put, config).1.is_ok(),
        serve(serve(files, route, put, config).0, route, get, config).1.is_ok(),
        serve(serve(files, route, put, config).0, route, get, config).1.unwrap().body == put.body,
{
    lemma_method_names();
    crate::headers::lemma_written_names();
    let path = target_view(get, config).unwrap();
    assert(target_view(put, config).unwrap() == path);
    lemma_media_type_sound(extension_of(path));
    lemma_decimal_is_value(put.body.len());
    let base = seq![
        ("host"@, config.host@),
        ("content-type"@, media_type(extension_of(path))),
        ("content-length"@, decimal(put.body.len())),
    ];
    lemma_echoed_sound(get.headers);
    lemma_all_sound_concat(base, echoed(get.headers));
}

/// The headers of a response that carries a body to the sender of a request
/// with sound headers are sound, where the host and the media type can stand
/// in a header.
pub proof fn lemma_served_sound(
    req: RequestView,
    config: ServerConfig,
    media: Seq<char>,
    body: Seq<u8>,
)
    requires
        is_header_value(config.host@),
        is_header_value(media),
        headers_wf(req.headers),
    ensures
        all_sound(crate::server::methods::safe::served_headers(req, config, media, body)),
{
    crate::headers::lemma_written_names();
    lemma_decimal_is_value(body.len());
    let base = seq![
        ("host"@, config.host@),
        ("content-type"@, media),
        ("content-length"@, decimal(body.len())),
    ];
    lemma_echoed_sound(req.headers);
    lemma_all_sound_concat(base, echoed(req.headers));
}

/// What is repeated of sound headers is sound.
proof fn lemma_echoed_sound(h: Seq<(Seq<char>, Seq<char>)>)
    requires
        headers_wf(h),
    ensures
        all_sound(echoed(h)),
    decreases h.len(),
{
    if h.len() > 0 {
        let rest = h.drop_last();
        assert(headers_wf(rest)) by {
            assert forall|i: int| 0 <= i < rest.len() implies crate::headers::is_header_name(
                (#[trigger] rest[i]).0,
            ) && crate::text::lower(rest[i].0) == rest[i].0 && is_header_value(rest[i].1) by {
                assert(rest[i] == h[i]);
            }
        }
        lemma_echoed_sound(rest);
        assert(crate::headers::is_header_name(h[h.len() - 1].0));
        crate::server::methods::lemma_all_sound_push(echoed(rest), h.last());
    }
}

/// Two sound lists of headers make a sound list.
proof fn lemma_all_sound_concat(a: Seq<(Seq<char>, Seq<char>)>, b: Seq<(Seq<char>, Seq<char>)>)
    requires
        all_sound(a),
        all_sound(b),
    ensures
        all_sound(a + b),
{
    assert forall|i: int| 0 <= i < (a + b).len() implies crate::headers::is_header_name(
        (#[trigger] (a + b)[i]).0,
    ) && crate::text::lower((a + b)[i].0) == (a + b)[i].0 && is_header_value((a + b)[i].1) by {
        if i < a.len() {
            assert((a + b)[i] == a[i]);
        } else {
            assert((a + b)[i] == b[i - a.len()]);
        }
    }
}

/// After a DELETE of a path that names a file, a GET of that path is
/// answered 404, where a route answers both requests.
pub proof fn lemma_get_after_delete(
    files: Files,
    route: Route,
    delete: RequestView,
    get: RequestView,
    config: ServerConfig,
)
    requires
        delete.method == "DELETE"@,
        get.method == "GET"@,
        delete.uri.path == get.uri.path,
        target_view(delete, config).is_ok(),
        target_view(get, config).is_ok(),
        files.dom().contains(target_view(delete, config).unwrap()),
    ensures
        serve(files, route, delete, config).1.is_ok(),
        serve(files, route, delete, config).1.unwrap().body == files[target_view(
            delete,
            config,
        ).unwrap()],
        serve(serve(files, route, delete, config).0, route, get, config).1 == Err::<
            ResponseView,
            StatusCode,
        >(StatusCode::not_found()),
{
    lemma_method_names();
    assert(target_view(delete, config).unwrap() == target_view(get, config).unwrap());
}

/// A PATCH of a path that names no file is answered 404 and changes nothing,
/// where a route answers the request.
pub proof fn lemma_patch_of_missing(
    files: Files,
    route: Route,
    req: RequestView,
    config: ServerConfig,
)
    requires
        req.method == "PATCH"@,
        target_view(req, config).is_ok(),
        !files.dom().contains(target_view(req, config).unwrap()),
    ensures
        serve(files, route, req, config).0 == files,
        serve(files, route, req, config).1 == Err::<ResponseView, StatusCode>(
            StatusCode::not_found(),
        ),
{
    lemma_method_names();
}

} // verus!
