//! A whole exchange: what is received, what is done outside, and the one
//! response that is sent.
//!
//! The steps of `handle_connection` are taken here against a model of what is
//! outside: the files, the directories and what scripts write. Each step is
//! performed faithfully, and the statements below say what response comes of
//! a request, and what becomes of the files.
use crate::headers::{headers_wf, is_header_value};
use crate::message::{RequestView, ResponseView};
use crate::server::cgi::{call_of, script_answer, CgiCallView};
use crate::server::files::{free_name, perform, Files};
use crate::server::handle::{first_step, listing_html, probed_step, StepView};
use crate::server::methods::not_safe::stored_answer;
use crate::server::methods::safe::{get_answer, served_headers};
use crate::server::methods::{answer, target_view};
use crate::server::requests::body::{encoded, is_chunk, is_end, payload};
use crate::server::requests::headers::{chunked_in, header_lines};
use crate::server::requests::path::{resolved_path, target_of};
use crate::server::requests::version::version_of;
use crate::server::requests::{header_pairs, pairs_valid, request_of};
use crate::server::responses::{
    error_page_path, error_view, extension_of, lemma_media_type_sound, media_type,
};
use crate::server::routes::resolve;
use crate::server::sessions::cookie_demo_answer;
use crate::server_config::ServerConfig;
use crate::status::{is_token, lemma_decimal_is_value, lemma_method_names, StatusCode, Version};
use crate::text::contains_seq;
use vstd::prelude::*;

verus! {

/// What is outside a request.
pub struct World {
    /// What each path that names a file holds.
    pub files: Files,
    /// The paths that name a directory.
    pub dirs: Set<Seq<char>>,
    /// The names of what each directory holds.
    pub listings: Map<Seq<char>, Seq<String>>,
    /// What the scripts write, for those that can be run.
    pub outputs: Map<CgiCallView, Seq<u8>>,
}

/// What is read at a path, if it names a file.
pub open spec fn read(files: Files, path: Seq<char>) -> Option<Seq<u8>> {
    if files.dom().contains(path) {
        Some(files[path])
    } else {
        None
    }
}

/// The response that an answer or a refusal ends in: the answer itself, or
/// the error response for the status, with the error page read where the
/// configuration names a place for such pages.
pub open spec fn closing(
    files: Files,
    config: ServerConfig,
    result: Result<ResponseView, StatusCode>,
) -> ResponseView {
    match result {
        Ok(response) => response,
        Err(code) => match error_page_path(code, config) {
            Some(path) => error_view(code, config, read(files, path)),
            None => error_view(code, config, None),
        },
    }
}

/// The response that lists a directory.
pub open spec fn listing_view(path: Seq<char>, entries: Seq<String>) -> ResponseView {
    ResponseView {
        status: StatusCode::ok(),
        version: Version::Http11,
        headers: seq![("content-type"@, "text/html"@)],
        body: vstd::utf8::encode_utf8(listing_html(path, entries)),
    }
}

/// The place of the route that answers a request, where one does.
pub open spec fn answering(config: ServerConfig, req: RequestView) -> int {
    match resolve(config.routes@, req.uri.path, req.method) {
        Ok(i) => i,
        Err(_) => 0,
    }
}

/// What comes of a step that is taken: the files afterwards and the response
/// that is sent. `req` is the request where it could be read. A probe is
/// taken by `exchange`; here it counts as a failure of the server.
pub open spec fn taken(
    world: World,
    config: ServerConfig,
    req: RequestView,
    step: StepView,
) -> (Files, ResponseView) {
    let files = world.files;
    match step {
        StepView::Send(response) => (files, response),
        StepView::ErrorPage(code, path) => (files, error_view(code, config, read(files, path))),
        StepView::Probe(_) => (
            files,
            closing(files, config, Err(StatusCode::internal_server_error())),
        ),
        StepView::File(action) => {
            let (after, outcome) = perform(files, action, req.body);
            let route = config.routes@[answering(config, req)];
            (after, closing(after, config, answer(route, req, config, outcome)))
        },
        StepView::Default(request, file) => (
            files,
            closing(files, config, get_answer(request, config, read(files, file))),
        ),
        StepView::List(path) => (
            files,
            listing_view(
                path,
                if world.listings.dom().contains(path) {
                    world.listings[path]
                } else {
                    Seq::empty()
                },
            ),
        ),
        StepView::Script(call) => (
            files,
            closing(
                files,
                config,
                script_answer(
                    req,
                    config,
                    if world.outputs.dom().contains(call) {
                        Some(world.outputs[call])
                    } else {
                        None
                    },
                ),
            ),
        ),
        StepView::Demo(path) => (
            files,
            closing(files, config, cookie_demo_answer(req, config, read(files, path))),
        ),
    }
}

/// One exchange: what was received is answered by exactly one response, and
/// the files are as the exchange leaves them.
pub open spec fn exchange(world: World, config: ServerConfig, head: Seq<char>, body: Seq<u8>) -> (
    Files,
    ResponseView,
) {
    let first = first_step(config, head, body);
    match request_of(head, body, config.body_size_limit as nat) {
        Err(_) => taken(world, config, arbitrary(), first),
        Ok(req) => match first {
            StepView::Probe(path) => taken(
                world,
                config,
                req,
                probed_step(req, config, head, body, world.dirs.contains(path)),
            ),
            _ => taken(world, config, req, first),
        },
    }
}

/// A request is plainly for a file under a route: it can be read, a route
/// without a handler answers it, and the file that it names is no directory
/// and no script.
pub open spec fn plainly_for_file(
    world: World,
    config: ServerConfig,
    head: Seq<char>,
    body: Seq<u8>,
) -> bool {
    match request_of(head, body, config.body_size_limit as nat) {
        Err(_) => false,
        Ok(req) => match resolve(config.routes@, req.uri.path, req.method) {
            Err(_) => false,
            Ok(i) => {
                let path = resolved_path(config.routes@[i], req.uri.path);
                config.routes@[i].handler.is_none() && !world.dirs.contains(path) && !contains_seq(
                    path,
                    "/cgi/"@,
                )
            },
        },
    }
}

/// The file that a request names, where a route answers it.
pub open spec fn file_of(config: ServerConfig, head: Seq<char>, body: Seq<u8>) -> Seq<char> {
    target_view(request_of(head, body, config.body_size_limit as nat).unwrap(), config).unwrap()
}

/// A GET that is plainly for a file that is there is answered 200 with what
/// the file holds, its media type by the extension and its length, and leaves
/// the files as they are.
pub proof fn lemma_get_of_file(world: World, config: ServerConfig, head: Seq<char>, body: Seq<u8>)
    requires
        is_header_value(config.host@),
        plainly_for_file(world, config, head, body),
        request_of(head, body, config.body_size_limit as nat).unwrap().method == "GET"@,
        headers_wf(request_of(head, body, config.body_size_limit as nat).unwrap().headers),
        world.files.dom().contains(file_of(config, head, body)),
    ensures
        exchange(world, config, head, body).0 == world.files,
        ({
            let req = request_of(head, body, config.body_size_limit as nat).unwrap();
            let path = file_of(config, head, body);
            let content = world.files[path];
            exchange(world, config, head, body).1 == (ResponseView {
                status: StatusCode::ok(),
                version: req.version,
                headers: served_headers(req, config, media_type(extension_of(path)), content),
                body: content,
            })
        }),
{
    let req = request_of(head, body, config.body_size_limit as nat).unwrap();
    let path = file_of(config, head, body);
    let content = world.files[path];
    lemma_method_names();
    crate::headers::lemma_written_names();
    lemma_media_type_sound(extension_of(path));
    lemma_decimal_is_value(content.len());
    crate::server::files::lemma_served_sound(req, config, media_type(extension_of(path)), content);
}

/// A POST that is plainly for a file stores the body of the request under the
/// name of the file, or under its first numbered name that is free where the
/// file is there already, and is answered 200 with the body. What the files
/// held before, they hold afterwards.
pub proof fn lemma_post_of_file(world: World, config: ServerConfig, head: Seq<char>, body: Seq<u8>)
    requires
        plainly_for_file(world, config, head, body),
        request_of(head, body, config.body_size_limit as nat).unwrap().method == "POST"@,
    ensures
        ({
            let req = request_of(head, body, config.body_size_limit as nat).unwrap();
            let path = file_of(config, head, body);
            &&& exchange(world, config, head, body).0 == world.files.insert(
                free_name(world.files, path),
                req.body,
            )
            &&& exchange(world, config, head, body).1 == stored_answer(path, req.body)
            &&& (!world.files.dom().contains(path) || exists|n: nat|
                crate::server::files::first_free(world.files, path, n)) ==> forall|p: Seq<char>|
                #[trigger] world.files.dom().contains(p) ==> exchange(
                    world,
                    config,
                    head,
                    body,
                ).0[p] == world.files[p]
        }),
{
    lemma_method_names();
}

/// The body of a request that comes in chunks is what the chunks hold: a
/// request with a sound head whose headers ask for chunks, and whose chunks
/// hold no more than the limit, is read with the data of its chunks as body.
pub proof fn lemma_chunked_request(
    head: Seq<char>,
    chunks: Seq<(Seq<u8>, Seq<u8>)>,
    end: Seq<u8>,
    limit: nat,
)
    requires
        version_of(head).is_ok(),
        is_token(crate::server::methods::method_token(head)),
        crate::message::uri_of(target_of(head)).is_some(),
        pairs_valid(header_pairs(header_lines(head))),
        chunked_in(header_pairs(header_lines(head))),
        forall|j: int| 0 <= j < chunks.len() ==> is_chunk((#[trigger] chunks[j]).0, chunks[j].1),
        is_end(end),
        payload(chunks, 0).len() <= limit,
    ensures
        request_of(head, encoded(chunks, 0) + end, limit).is_ok(),
        request_of(head, encoded(chunks, 0) + end, limit).unwrap().body == payload(chunks, 0),
{
    crate::server::requests::body::lemma_decode_encoded(chunks, end, limit);
}

/// A request that is for a script which can be run is answered 200 with what
/// the script wrote, as `text/html`.
pub proof fn lemma_script_answer(world: World, config: ServerConfig, head: Seq<char>, body: Seq<u8>)
    requires
        is_header_value(config.host@),
        request_of(head, body, config.body_size_limit as nat).is_ok(),
        headers_wf(request_of(head, body, config.body_size_limit as nat).unwrap().headers),
        ({
            let req = request_of(head, body, config.body_size_limit as nat).unwrap();
            match resolve(config.routes@, req.uri.path, req.method) {
                Err(_) => false,
                Ok(i) => {
                    let path = resolved_path(config.routes@[i], req.uri.path);
                    &&& config.routes@[i].handler.is_none()
                    &&& !world.dirs.contains(path)
                    &&& contains_seq(path, "/cgi/"@)
                    &&& call_of(req, config).is_ok()
                    &&& world.outputs.dom().contains(call_of(req, config).unwrap())
                },
            }
        }),
    ensures
        exchange(world, config, head, body).0 == world.files,
        ({
            let req = request_of(head, body, config.body_size_limit as nat).unwrap();
            let output = world.outputs[call_of(req, config).unwrap()];
            exchange(world, config, head, body).1 == (ResponseView {
                status: StatusCode::ok(),
                version: req.version,
                headers: served_headers(req, config, "text/html"@, output),
                body: output,
            })
        }),
{
    let req = request_of(head, body, config.body_size_limit as nat).unwrap();
    let output = world.outputs[call_of(req, config).unwrap()];
    reveal_strlit("text/html");
    assert(is_header_value("text/html"@));
    crate::server::files::lemma_served_sound(req, config, "text/html"@, output);
}

} // verus!
