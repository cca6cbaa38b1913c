use localhost::message::Request;
use localhost::server::cgi::{
    add_env_variables, cgi_call, contains_path_info, execute_cgi_script, is_cgi_request,
    Variable,
};
use localhost::server_config::{Cgi, Route, ServerConfig, Settings};
use localhost::status::{Method, StatusCode};

fn mock_request(
    method: Method,
    path: &str,
    body: Option<&str>,
    headers: Option<Vec<(&str, &str)>>,
) -> Request {
    let mut req = Request::new(method, &format!("http://localhost:8080{path}")).unwrap();
    for (key, value) in headers.unwrap_or_default() {
        assert!(req.headers.append(key, value));
    }
    req.body = Vec::from(body.unwrap_or_default());
    req
}

fn file_settings(redirections: Option<Vec<&'static str>>) -> Settings<'static> {
    Settings {
        redirect_status_code: redirections.as_ref().map(|_| StatusCode::temporary_redirect()),
        http_redirections: redirections,
        root_path: Some("/files"),
        default_if_url_is_dir: None,
        default_if_request_is_dir: None,
        cgi_def: None,
        list_directory: false,
    }
}

fn file_route(url_path: &'static str) -> Route<'static> {
    Route {
        url_path,
        methods: vec![
            Method::Get,
            Method::Post,
            Method::Head,
            Method::Options,
            Method::Trace,
            Method::Put,
            Method::Patch,
            Method::Delete,
        ],
        handler: None,
        settings: Some(file_settings(None)),
    }
}

fn mock_server_config() -> ServerConfig<'static> {
    let config = ServerConfig {
        host: "127.0.0.1",
        ports: vec![8080],
        custom_error_path: None,
        body_size_limit: 10024,
        routes: vec![
            Route {
                url_path: "/cgi",
                methods: vec![Method::Get],
                handler: None,
                settings: Some(Settings {
                    http_redirections: None,
                    redirect_status_code: None,
                    root_path: None,
                    default_if_url_is_dir: None,
                    default_if_request_is_dir: None,
                    cgi_def: Some(vec![
                        ("js", Cgi::JavaScript),
                        ("php", Cgi::PHP),
                        ("py", Cgi::Python),
                        ("rb", Cgi::Ruby),
                    ]),
                    list_directory: false,
                }),
            },
            Route { url_path: "/test", methods: vec![Method::Get], handler: None, settings: None },
            file_route("/test.txt"),
            file_route("/test_put.txt"),
            file_route("/patch_test.txt"),
            file_route("/delete_test.txt"),
            file_route("/non_existing_file.txt"),
            Route {
                url_path: "/tests/redirect.txt",
                methods: vec![Method::Get],
                handler: None,
                settings: Some(file_settings(Some(vec!["/redirection"]))),
            },
        ],
    };
    config
}

/// The configuration with POST allowed on the scripts as well.
fn posting_config() -> ServerConfig<'static> {
    let mut config = mock_server_config();
    config.routes[0].methods.push(Method::Post);
    config
}

fn variable(name: &str, value: &str) -> Variable {
    Variable { name: name.to_string(), value: value.to_string() }
}

#[test]
fn test_get() {
    let conf = &mock_server_config();
    for path in ["javascript.js", "php.php", "python.py", "ruby.rb"] {
        let req = &mock_request(Method::Get, &format!("/cgi/{path}"), None, None);
        assert!(execute_cgi_script(req, conf, Some(Vec::new())).is_ok());
    }
}

#[test]
fn test_invalid_route() {
    let conf = &mock_server_config();
    let req = &mock_request(Method::Get, "/cgi/test", None, None);

    assert!(execute_cgi_script(req, conf, Some(Vec::new())).is_err());
}

#[test]
fn test_no_cgi_def() {
    let conf = &mock_server_config();
    let req = &mock_request(Method::Get, "/test.txt", None, None);

    assert!(execute_cgi_script(req, conf, Some(Vec::new()))
        .is_err_and(|e| e == StatusCode::bad_request()));
}

#[test]
fn add_headers_to_request() {
    let conf = &mock_server_config();
    let headers = vec![
        ("Accept", "bytes"),
        ("Content-Length", "123"),
        ("Content-Type", "text/html"),
        ("Accept-Charset", "utf-8"),
        ("Accept-Encoding", "none"),
        ("Accept-Language", "en-us"),
        ("Forwarded", "hell yea"),
        ("Host", "grit:lab special"),
        ("Proxy-Authorization", "Yep"),
        ("User-Agent", "Cia"),
        ("Cookie", "yummy"),
        ("Theodore", "Kaczynski"),
        ("Kek", ""),
    ];
    let req = &mock_request(Method::Get, "/cgi/php.php", None, Some(headers));
    assert!(execute_cgi_script(req, conf, Some(Vec::new())).is_ok());

    let call = cgi_call(req, conf).unwrap();
    assert_eq!(
        call.env,
        vec![
            variable("HTTP_ACCEPT", "bytes"),
            variable("CONTENT_LENGTH", "123"),
            variable("CONTENT_TYPE", "text/html"),
            variable("HTTP_ACCEPT_CHARSET", "utf-8"),
            variable("HTTP_ACCEPT_ENCODING", "none"),
            variable("HTTP_ACCEPT_LANGUAGE", "en-us"),
            variable("HTTP_FORWARDED", "hell yea"),
            variable("HTTP_HOST", "grit:lab special"),
            variable("HTTP_PROXY_AUTHORIZATION", "Yep"),
            variable("HTTP_USER_AGENT", "Cia"),
            variable("COOKIE", "yummy"),
            variable("REQUEST_METHOD", "GET"),
            variable("SERVER_NAME", "127.0.0.1"),
            variable("SERVER_PORT", "8080"),
            variable("SERVER_SOFTWARE", "Rust v1.74.0"),
        ]
    );
}

#[test]
fn cgi_call_names_interpreter_script_and_body() {
    let conf = posting_config();
    let req = mock_request(Method::Post, "/cgi/echo.py", Some("abc"), None);
    let call = cgi_call(&req, &conf).unwrap();
    assert_eq!(call.command, "python3");
    assert_eq!(call.arguments, vec!["./cgi/echo.py".to_string(), "abc".to_string()]);

    let commands: Vec<String> = ["a.js", "a.php", "a.py", "a.rb"]
        .iter()
        .map(|file| {
            cgi_call(&mock_request(Method::Get, &format!("/cgi/{file}"), None, None), &conf)
                .unwrap()
                .command
        })
        .collect();
    assert_eq!(commands, vec!["node", "php", "python3", "ruby"]);
}

#[test]
fn cgi_call_hands_on_query_and_path_info() {
    let conf = mock_server_config();
    let req = mock_request(Method::Get, "/cgi/app.py/extra/path?a=1", None, None);
    let call = cgi_call(&req, &conf).unwrap();
    assert_eq!(call.arguments[0], "./cgi/app.py");
    assert!(call.env.contains(&variable("QUERY_STRING", "a=1")));
    assert!(call.env.contains(&variable("PATH_INFO", "/extra/path")));

    let env = add_env_variables(&mock_request(Method::Get, "/cgi/app.py", None, None), &conf, "py");
    assert!(!env.iter().any(|v| v.name == "QUERY_STRING"));
    assert!(env.contains(&variable("PATH_INFO", "")));
    let none = add_env_variables(&mock_request(Method::Get, "/cgi/papy.py", None, None), &conf, "py");
    assert!(!none.iter().any(|v| v.name == "PATH_INFO"));
}

#[test]
fn cgi_call_fails_by_kind() {
    let conf = posting_config();
    let unknown = mock_request(Method::Get, "/cgi/php.kek", None, None);
    assert_eq!(cgi_call(&unknown, &conf), Err(StatusCode::not_found()));

    let mut binary = mock_request(Method::Post, "/cgi/echo.py", None, None);
    binary.body = vec![0xff, 0xfe];
    assert_eq!(cgi_call(&binary, &conf), Err(StatusCode::bad_request()));

    let mut small = posting_config();
    small.body_size_limit = 2;
    let long = mock_request(Method::Post, "/cgi/echo.py", Some("abc"), None);
    assert_eq!(cgi_call(&long, &small), Err(StatusCode::payload_too_large()));

    let put = mock_request(Method::Put, "/cgi/echo.py", None, None);
    assert_eq!(cgi_call(&put, &conf), Err(StatusCode::method_not_allowed()));
}

#[test]
fn execute_cgi_script_answers_with_the_output() {
    let conf = posting_config();
    let req = mock_request(Method::Post, "/cgi/echo.py", Some("abc"), None);
    let resp = execute_cgi_script(&req, &conf, Some(b"abc\n".to_vec())).unwrap();
    assert_eq!(resp.status, StatusCode::ok());
    assert_eq!(resp.headers.get("content-type"), Some("text/html"));
    assert_eq!(resp.headers.get("content-length"), Some("4"));
    assert_eq!(resp.body, b"abc\n");
    assert_eq!(execute_cgi_script(&req, &conf, None), Err(StatusCode::internal_server_error()));
}

#[test]
fn is_cgi_request_looks_for_the_directory() {
    assert!(is_cgi_request("./cgi/echo.py"));
    assert!(is_cgi_request("./files/cgi/x"));
    assert!(!is_cgi_request("./cgi"));
    assert!(!is_cgi_request("./cgix/a"));
}

#[test]
fn contains_path_info_wants_two_parts() {
    assert!(contains_path_info(vec!["/cgi/app.", "/extra"]));
    assert!(!contains_path_info(vec!["/cgi/app"]));
    assert!(!contains_path_info(vec!["a", "b", "c"]));
}
