use localhost::message::{Request, Response};
use localhost::server::cgi::execute_cgi_script;
use localhost::server::handle::{
    after_probe, handle_connection, parse_http_request, serve_directory_contents, serve_response,
    settle, Step,
};
use localhost::server::methods::not_safe::{create_next, create_start, CreateStep};
use localhost::server::methods::safe::get;
use localhost::server::methods::{handle_method, FileAction, FileOutcome};
use localhost::server::responses::{error, format_response};
use localhost::server::routes::get_route;
use localhost::server::sessions::cookie_demo;
use localhost::server_config::{server_config, Cgi, Handler, Route, ServerConfig, Settings};
use localhost::status::{Method, StatusCode};
use std::collections::{HashMap, HashSet};

/// What stands for the world outside in these tests: files, directories and
/// what scripts write.
struct World {
    files: HashMap<String, Vec<u8>>,
    dirs: HashSet<String>,
}

impl World {
    fn new() -> World {
        World {
            files: HashMap::from([
                ("./files/test.txt".to_string(), b"hello\n".to_vec()),
                ("./files/existing.txt".to_string(), b"old".to_vec()),
                ("./files/mega-dir/dir.html".to_string(), b"<p>dir</p>".to_vec()),
                ("./files/cookie-demo.html".to_string(), b"<p>demo</p>".to_vec()),
            ]),
            dirs: HashSet::from(["./files".to_string(), "./files/mega-dir".to_string()]),
        }
    }

    fn perform(&mut self, action: FileAction, body: &[u8]) -> FileOutcome {
        match action {
            FileAction::Nothing => FileOutcome::Nothing,
            FileAction::Read(path) => match self.files.get(&path) {
                Some(content) => FileOutcome::Content(content.clone()),
                None => FileOutcome::Missing,
            },
            FileAction::Size(path) => match self.files.get(&path) {
                Some(content) => FileOutcome::Size(content.len() as u64),
                None => FileOutcome::Failed,
            },
            FileAction::Write(path) => {
                self.files.insert(path, body.to_vec());
                FileOutcome::Done
            }
            FileAction::Overwrite(path) => {
                if self.files.contains_key(&path) {
                    self.files.insert(path, body.to_vec());
                    FileOutcome::Done
                } else {
                    FileOutcome::Missing
                }
            }
            FileAction::Take(path) => match self.files.remove(&path) {
                Some(content) => FileOutcome::Content(content),
                None => FileOutcome::Missing,
            },
            FileAction::Create(path) => {
                let mut step = create_start(&path);
            loop {
                step = match step {
                    CreateStep::Probe(attempt, name) => {
                        create_next(&path, attempt, self.files.contains_key(&name))
                    }
                    CreateStep::Write(name) => {
                        self.files.insert(name, body.to_vec());
                        return FileOutcome::Done;
                    }
                    CreateStep::GiveUp => return FileOutcome::Failed,
                };
            }
            }
        }
    }

    fn list(&self, dir: &str) -> Vec<String> {
        let prefix = format!("{}/", dir.trim_end_matches('/'));
        let mut names: Vec<String> = self
            .files
            .keys()
            .filter_map(|path| path.strip_prefix(&prefix))
            .filter(|name| !name.contains('/'))
            .map(|name| name.to_string())
            .collect();
        names.sort();
        names
    }

    /// Serves what was received, as a caller of the library does.
    fn exchange(&mut self, config: &ServerConfig, received: &[u8]) -> Response {
        assert!(config.is_sound());
        let parts = parse_http_request(received);
        let (mut step, request) = handle_connection(config, &parts);
        loop {
            step = match step {
                Step::Send(response) => return response,
                Step::ErrorPage(code, path) => {
                    Step::Send(error(code, config, self.files.get(&path).cloned()))
                }
                Step::Probe(path) => {
                    after_probe(request.as_ref().unwrap(), config, &parts, self.dirs.contains(&path))
                }
                Step::File(action) => {
                    let request = request.as_ref().unwrap();
                    let route = get_route(request, config).unwrap();
                    let outcome = self.perform(action, &request.body);
                    settle(handle_method(route, request, config, outcome), config)
                }
                Step::Default(new_request, path) => {
                    settle(get(&new_request, config, self.files.get(&path).cloned()), config)
                }
                Step::List(path) => Step::Send(serve_directory_contents(&path, &self.list(&path))),
                Step::Script(call) => {
                    let output = match call.command.as_str() {
                        "python3" => Some(format!("{}\n", call.arguments[1]).into_bytes()),
                        _ => None,
                    };
                    settle(execute_cgi_script(request.as_ref().unwrap(), config, output), config)
                }
                Step::Demo(path) => settle(
                    cookie_demo(request.as_ref().unwrap(), config, self.files.get(&path).cloned()),
                    config,
                ),
            };
        }
    }
}

fn settings() -> Settings<'static> {
    Settings {
        http_redirections: None,
        redirect_status_code: None,
        root_path: None,
        default_if_url_is_dir: None,
        default_if_request_is_dir: None,
        cgi_def: None,
        list_directory: false,
    }
}

fn config() -> ServerConfig<'static> {
    ServerConfig {
        host: "127.0.0.1",
        ports: vec![8080],
        custom_error_path: None,
        body_size_limit: 1000,
        routes: vec![
            Route {
                url_path: "/api/update-cookie",
                methods: vec![Method::Post],
                handler: Some(Handler::UpdateCookie),
                settings: None,
            },
            Route {
                url_path: "/api/get-cookie",
                methods: vec![Method::Get],
                handler: Some(Handler::ValidateCookie),
                settings: None,
            },
            Route {
                url_path: "/api/cookie-demo",
                methods: vec![Method::Get],
                handler: Some(Handler::CookieDemo),
                settings: None,
            },
            Route {
                url_path: "/cgi",
                methods: vec![Method::Get, Method::Post],
                handler: None,
                settings: Some(Settings {
                    cgi_def: Some(vec![("py", Cgi::Python), ("rb", Cgi::Ruby)]),
                    ..settings()
                }),
            },
            Route {
                url_path: "/test.txt",
                methods: vec![Method::Get, Method::Post],
                handler: None,
                settings: Some(Settings { root_path: Some("/files"), ..settings() }),
            },
            Route {
                url_path: "/tests/redirect.txt",
                methods: vec![Method::Get],
                handler: None,
                settings: Some(Settings {
                    http_redirections: Some(vec!["/redirection"]),
                    redirect_status_code: Some(StatusCode::temporary_redirect()),
                    root_path: Some("/files"),
                    ..settings()
                }),
            },
            Route {
                url_path: "/mega-dir",
                methods: vec![Method::Get],
                handler: None,
                settings: Some(Settings {
                    root_path: Some("/files"),
                    default_if_url_is_dir: Some("/dir.html"),
                    ..settings()
                }),
            },
            Route {
                url_path: "/files",
                methods: vec![
                    Method::Get,
                    Method::Post,
                    Method::Put,
                    Method::Patch,
                    Method::Delete,
                    Method::Options,
                ],
                handler: None,
                settings: Some(Settings { list_directory: true, ..settings() }),
            },
        ],
    }
}

fn text(response: &Response) -> String {
    String::from_utf8(format_response(response.clone())).unwrap()
}

#[test]
fn get_of_a_file_under_a_root() {
    let mut world = World::new();
    let response = world.exchange(&config(), b"GET /test.txt HTTP/1.1\r\nHost: 127.0.0.1\r\n\r\n");
    assert_eq!(response.status, StatusCode::ok());
    assert_eq!(response.headers.get("Content-Type"), Some("text/plain"));
    assert_eq!(response.headers.get("Content-Length"), Some("6"));
    assert_eq!(response.body, b"hello\n");
    assert_eq!(
        text(&response),
        "HTTP/1.1 200 OK\r\nhost: 127.0.0.1\r\ncontent-type: text/plain\r\ncontent-length: 6\r\n\r\nhello\n"
    );
}

#[test]
fn post_to_a_script() {
    let mut world = World::new();
    let response = world.exchange(
        &config(),
        b"POST /cgi/echo.py HTTP/1.1\r\nHost: x\r\nContent-Type: text/plain\r\nContent-Length: 3\r\n\r\nabc",
    );
    assert_eq!(response.status, StatusCode::ok());
    assert_eq!(response.body, b"abc\n");
    assert_eq!(response.headers.get("content-type"), Some("text/html"));
}

#[test]
fn script_request_by_extension() {
    let mut world = World::new();
    let resp = world.exchange(&config(), b"GET /cgi/python.py HTTP/1.1\r\n\r\n");
    assert_eq!(resp.status.as_u16(), 200);

    // Not found test
    let resp = world.exchange(&config(), b"GET /cgi/php.kek HTTP/1.1\r\n\r\n");
    assert_eq!(resp.status.as_u16(), 404);

    // A script that cannot be run
    let resp = world.exchange(&config(), b"GET /cgi/ruby.rb HTTP/1.1\r\n\r\n");
    assert_eq!(resp.status.as_u16(), 500);
}

#[test]
fn redirection_to_the_route() {
    let mut world = World::new();
    let response = world.exchange(&config(), b"GET /redirection HTTP/1.1\r\n\r\n");
    assert_eq!(
        text(&response),
        "HTTP/1.1 307 Temporary Redirect\r\nhost: 127.0.0.1\r\nlocation: /tests/redirect.txt\r\n\r\n"
    );
    assert!(response.body.is_empty());
}

#[test]
fn put_of_a_new_file() {
    let mut world = World::new();
    let response =
        world.exchange(&config(), b"PUT /files/new.txt HTTP/1.1\r\nContent-Length: 4\r\n\r\ndata");
    assert_eq!(response.status, StatusCode::ok());
    assert_eq!(response.body, b"data");
    assert_eq!(world.files["./files/new.txt"], b"data");

    let read = world.exchange(&config(), b"GET /files/new.txt HTTP/1.1\r\n\r\n");
    assert_eq!(read.body, b"data");
}

#[test]
fn post_to_an_existing_file() {
    let mut world = World::new();
    let response = world
        .exchange(&config(), b"POST /files/existing.txt HTTP/1.1\r\nContent-Length: 1\r\n\r\nx");
    assert_eq!(response.status, StatusCode::ok());
    assert_eq!(world.files["./files/existing(0).txt"], b"x");
    assert_eq!(world.files["./files/existing.txt"], b"old");
}

#[test]
fn chunked_post() {
    let mut world = World::new();
    let response = world.exchange(
        &config(),
        b"POST /files/upload.txt HTTP/1.1\r\nTransfer-Encoding: chunked\r\n\r\n4\r\nWiki\r\n5\r\npedia\r\n0\r\n\r\n",
    );
    assert_eq!(response.status, StatusCode::ok());
    assert_eq!(world.files["./files/upload.txt"], b"Wikipedia");
}

#[test]
fn delete_then_get_is_not_found() {
    let mut world = World::new();
    let removed = world.exchange(&config(), b"DELETE /files/existing.txt HTTP/1.1\r\n\r\n");
    assert_eq!(removed.status, StatusCode::ok());
    assert_eq!(removed.body, b"old");
    let response = world.exchange(&config(), b"GET /files/existing.txt HTTP/1.1\r\n\r\n");
    assert_eq!(response.status, StatusCode::not_found());
}

#[test]
fn patch_of_a_missing_file() {
    let mut world = World::new();
    let response = world.exchange(&config(), b"PATCH /files/none.txt HTTP/1.1\r\n\r\nx");
    assert_eq!(response.status, StatusCode::not_found());
    assert!(!world.files.contains_key("./files/none.txt"));
}

#[test]
fn body_over_the_limit() {
    let mut world = World::new();
    let mut received = b"PUT /files/big.txt HTTP/1.1\r\n\r\n".to_vec();
    received.extend(vec![b'a'; 1001]);
    let response = world.exchange(&config(), &received);
    assert_eq!(response.status, StatusCode::payload_too_large());
    assert!(!world.files.contains_key("./files/big.txt"));
}

#[test]
fn unroutable_and_empty_requests() {
    let mut world = World::new();
    let response = world.exchange(&config(), b"GET / HTTP/1.1\r\n\r\n");
    assert!(response.status.is_client_error());
    let response = world.exchange(&config(), b"\r\n\r\n");
    assert_eq!(response.status, StatusCode::bad_request());
    assert!(text(&response).starts_with("HTTP/1.1 400 Bad Request\r\nhost: 127.0.0.1\r\n"));
}

#[test]
fn unknown_path_is_not_found() {
    let mut world = World::new();
    let response = world.exchange(&config(), b"GET /oga-boga HTTP/1.1\r\n\r\n");
    assert!(response.status.is_client_error());
    assert_eq!(response.status, StatusCode::not_found());
    assert!(String::from_utf8(response.body).unwrap().contains("<h1>404 | Not Found</h1>"));
}

#[test]
fn method_outside_the_route_is_refused() {
    let mut world = World::new();
    let response = world.exchange(&config(), b"DELETE /test.txt HTTP/1.1\r\n\r\n");
    assert_eq!(response.status, StatusCode::method_not_allowed());
}

#[test]
fn version_not_supported() {
    let mut world = World::new();
    let response = world.exchange(&config(), b"GET /test.txt HTTP/1.2\r\n\r\n");
    assert_eq!(response.status, StatusCode::http_version_not_supported());
}

#[test]
fn method_not_implemented() {
    let mut world = World::new();
    let mut open = config();
    open.routes[7].methods.push(Method::Connect);
    let response = world.exchange(&open, b"CONNECT /files/x HTTP/1.1\r\n\r\n");
    assert_eq!(response.status, StatusCode::not_implemented());
}

#[test]
fn cookie_handlers() {
    let mut world = World::new();
    let resp = world.exchange(&config(), b"POST /api/update-cookie HTTP/1.1\r\n\r\n");
    assert!(resp.status.is_success());
    assert!(resp.headers.contains_key("set-cookie"));

    // Attempt to get a cookie we don't have.
    let resp = world.exchange(&config(), b"GET /api/get-cookie HTTP/1.1\r\n\r\n");
    assert!(resp.status.is_client_error());
    assert_eq!(resp.status, StatusCode::unauthorized());

    let resp = world
        .exchange(&config(), b"GET /api/get-cookie HTTP/1.1\r\nCookie: grit:lab=cookie\r\n\r\n");
    assert!(resp.status.is_success());

    let resp = world.exchange(&config(), b"GET /api/cookie-demo HTTP/1.1\r\n\r\n");
    assert_eq!(resp.body, b"<p>demo</p>");
}

#[test]
fn directory_with_a_default_file() {
    let mut world = World::new();
    let resp = world.exchange(&config(), b"GET /mega-dir HTTP/1.1\r\n\r\n");
    assert!(resp.status.is_success());
    assert_eq!(resp.body, b"<p>dir</p>");
}

#[test]
fn default_file_is_appended_to_the_url() {
    let parts = parse_http_request(b"GET /mega-dir HTTP/1.1\r\nHost: x\r\n\r\n");
    let (step, request) = handle_connection(&config(), &parts);
    assert_eq!(step, Step::Probe("./files/mega-dir".to_string()));
    match after_probe(&request.unwrap(), &config(), &parts, true) {
        Step::Default(request, file) => {
            assert_eq!(request.uri.path, "/mega-dir/dir.html");
            assert_eq!(request.headers.get("host"), Some("x"));
            assert_eq!(file, "./files/mega-dir/dir.html");
        }
        other => panic!("{:?}", other),
    }
}

#[test]
fn directory_is_listed() {
    let mut world = World::new();
    let resp = world.exchange(&config(), b"GET /files HTTP/1.1\r\n\r\n");
    assert!(resp.status.is_success());
    let page = String::from_utf8(resp.body).unwrap();
    assert!(page.starts_with("<html><body><ul><li><a href=\"/./files/cookie-demo.html\">"));
    assert!(page.contains("<li><a href=\"/./files/test.txt\">test.txt</a></li>"));
}

#[test]
fn directory_without_listing_or_default_is_not_found() {
    let mut world = World::new();
    world.dirs.insert("./files/test.txt".to_string());
    let resp = world.exchange(&config(), b"GET /test.txt HTTP/1.1\r\n\r\n");
    assert_eq!(resp.status, StatusCode::not_found());
}

#[test]
fn custom_error_pages_are_read_from_their_place() {
    let mut world = World::new();
    world.files.insert("./errors/404.html".to_string(), b"nothing here".to_vec());
    let mut custom = config();
    custom.custom_error_path = Some("/errors");
    let resp = world.exchange(&custom, b"GET /oga-boga HTTP/1.1\r\n\r\n");
    assert_eq!(resp.status, StatusCode::not_found());
    assert_eq!(resp.body, b"nothing here");
    let resp = world.exchange(&custom, b"DELETE /test.txt HTTP/1.1\r\n\r\n");
    assert_eq!(resp.body, b"405 Method Not Allowed");
}

#[test]
fn post_of_binary_data() {
    let mut world = World::new();
    let buf: Vec<u8> = (0..=255).collect();
    let mut received = b"POST /files/tests.png HTTP/1.1\r\n\r\n".to_vec();
    received.extend(&buf);
    let response = world.exchange(&config(), &received);
    assert_eq!(response.status, StatusCode::ok());
    assert_eq!(response.headers.get("content-type"), Some("image/png"));
    assert!(format_response(response).len() > buf.len());
    assert_eq!(world.files["./files/tests.png"], buf);
}

#[test]
fn put_of_binary_data() {
    let mut world = World::new();
    let buf: Vec<u8> = (0..=255).collect();
    let mut received = b"PUT /files/tests.png HTTP/1.1\r\n\r\n".to_vec();
    received.extend(&buf);
    let response = world.exchange(&config(), &received);
    assert_eq!(response.status, StatusCode::ok());
    assert!(format_response(response).len() > buf.len());
    assert_eq!(world.files["./files/tests.png"], buf);
}

#[test]
fn built_in_configuration_serves_its_routes() {
    let mut world = World::new();
    let configs = server_config();
    let resp = world.exchange(&configs[0], b"GET /redirection-test HTTP/1.1\r\n\r\n");
    assert_eq!(resp.status, StatusCode::from_u16(301).unwrap());
    assert_eq!(resp.headers.get("location"), Some("/test.txt"));
    let resp = world.exchange(&configs[0], b"GET /test.txt HTTP/1.1\r\n\r\n");
    assert_eq!(resp.body, b"hello\n");
}

#[test]
fn written_response_is_what_was_formatted() {
    let mut world = World::new();
    let response = world.exchange(&config(), b"GET /test.txt HTTP/1.1\r\n\r\n");
    let writer = serve_response(response.clone());
    assert_eq!(writer.written, 0);
    assert_eq!(writer.bytes, format_response(response));
}

#[test]
fn request_is_returned_where_it_could_be_read() {
    let parts = parse_http_request(b"GET /test.txt HTTP/1.1\r\nHost: x\r\n\r\n");
    let (_, request) = handle_connection(&config(), &parts);
    let request: Request = request.unwrap();
    assert_eq!(request.method, Method::Get);
    let bad = parse_http_request(b"nonsense");
    assert!(handle_connection(&config(), &bad).1.is_none());
}
