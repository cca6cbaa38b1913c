use localhost::message::Request;
use localhost::server::requests::path::path_exists;
use localhost::server::routes::get_route;
use localhost::server_config::{Cgi, Route, ServerConfig, Settings};
use localhost::status::{Method, StatusCode};

fn mock_request(method: Method, path: &str) -> Request {
    Request::new(method, &format!("http://localhost:8080{path}")).unwrap()
}

fn route(url_path: &'static str, methods: Vec<Method>) -> Route<'static> {
    Route { url_path, methods, handler: None, settings: None }
}

fn redirecting(
    url_path: &'static str,
    from: Vec<&'static str>,
    code: Option<StatusCode>,
) -> Route<'static> {
    Route {
        url_path,
        methods: vec![Method::Get],
        handler: None,
        settings: Some(Settings {
            http_redirections: Some(from),
            redirect_status_code: code,
            root_path: Some("/files"),
            default_if_url_is_dir: None,
            default_if_request_is_dir: None,
            cgi_def: None,
            list_directory: false,
        }),
    }
}

fn config_of(routes: Vec<Route<'static>>) -> ServerConfig<'static> {
    ServerConfig {
        host: "127.0.0.1",
        ports: vec![8080],
        custom_error_path: None,
        body_size_limit: 10024,
        routes,
    }
}

fn file_settings(redirections: Option<Vec<&'static str>>) -> Settings<'static> {
    Settings {
        redirect_status_code: redirections.as_ref().map(|_| StatusCode::temporary_redirect()),
        http_redirections: redirections,
        root_path: Some("/files"),
        default_if_url_is_dir: None,
        default_if_request_is_dir: None,
        cgi_def: None,
        list_directory: false,
    }
}

fn file_route(url_path: &'static str) -> Route<'static> {
    Route {
        url_path,
        methods: vec![
            Method::Get,
            Method::Post,
            Method::Head,
            Method::Options,
            Method::Trace,
            Method::Put,
            Method::Patch,
            Method::Delete,
        ],
        handler: None,
        settings: Some(file_settings(None)),
    }
}

fn mock_server_config() -> ServerConfig<'static> {
    let config = ServerConfig {
        host: "127.0.0.1",
        ports: vec![8080],
        custom_error_path: None,
        body_size_limit: 10024,
        routes: vec![
            Route {
                url_path: "/cgi",
                methods: vec![Method::Get],
                handler: None,
                settings: Some(Settings {
                    http_redirections: None,
                    redirect_status_code: None,
                    root_path: None,
                    default_if_url_is_dir: None,
                    default_if_request_is_dir: None,
                    cgi_def: Some(vec![
                        ("js", Cgi::JavaScript),
                        ("php", Cgi::PHP),
                        ("py", Cgi::Python),
                        ("rb", Cgi::Ruby),
                    ]),
                    list_directory: false,
                }),
            },
            Route { url_path: "/test", methods: vec![Method::Get], handler: None, settings: None },
            file_route("/test.txt"),
            file_route("/test_put.txt"),
            file_route("/patch_test.txt"),
            file_route("/delete_test.txt"),
            file_route("/non_existing_file.txt"),
            Route {
                url_path: "/tests/redirect.txt",
                methods: vec![Method::Get],
                handler: None,
                settings: Some(file_settings(Some(vec!["/redirection"]))),
            },
        ],
    };
    config
}

#[test]
fn test_valid_route() {
    let req = &mock_request(Method::Get, "/test.txt");
    let config = &mock_server_config();

    let route = get_route(req, config);

    assert!(route.is_ok_and(|route| route.url_path == "/test.txt"));
}

#[test]
fn test_redirection() {
    let req = &mock_request(Method::Get, "/redirection");
    let config = &mock_server_config();

    let route = get_route(req, config);

    assert!(route.is_err_and(|(code, path)| {
        code == StatusCode::temporary_redirect() && path == "/tests/redirect.txt"
    }));
}

#[test]
fn test_not_found() {
    let req = &mock_request(Method::Patch, "/jews");
    let config = &mock_server_config();
    let route = get_route(req, config);

    assert!(route.is_err_and(|(code, path)| { code == StatusCode::not_found() && path == "" }));
}

#[test]
fn test_method_not_allowed() {
    let req = &mock_request(Method::Patch, "/tests/redirect.txt");
    let config = &mock_server_config();
    let route = get_route(req, config);

    assert!(route
        .is_err_and(|(code, path)| { code == StatusCode::method_not_allowed() && path == "" }));
}

#[test]
fn exact_match_overrides_longer_prefixes_and_redirections() {
    let config = config_of(vec![
        redirecting("/elsewhere", vec!["/a"], None),
        route("/a/b", vec![Method::Get]),
        route("/a", vec![Method::Get]),
    ]);
    let req = mock_request(Method::Get, "/a");
    assert_eq!(get_route(&req, &config).unwrap().url_path, "/a");
    assert_eq!(path_exists("/a", &config.routes), Some((2, "/a")));
}

#[test]
fn redirection_defaults_to_307_and_takes_the_configured_code() {
    let config = config_of(vec![
        redirecting("/new", vec!["/old", "/older"], None),
        redirecting("/moved", vec!["/was"], StatusCode::from_u16(301)),
    ]);
    assert_eq!(
        get_route(&mock_request(Method::Get, "/older"), &config).err(),
        Some((StatusCode::temporary_redirect(), "/new".to_string()))
    );
    assert_eq!(
        get_route(&mock_request(Method::Get, "/was"), &config).err(),
        Some((StatusCode::from_u16(301).unwrap(), "/moved".to_string()))
    );
}

#[test]
fn longest_prefix_wins_and_ties_go_to_the_first() {
    let config = config_of(vec![
        route("/foo", vec![Method::Get]),
        route("/foo/bar", vec![Method::Post]),
        route("/foo/bar", vec![Method::Get]),
        route("/", vec![Method::Get]),
    ]);
    assert_eq!(path_exists("/foo/bar/baz", &config.routes), Some((1, "/foo/bar")));
    assert_eq!(path_exists("/foobar", &config.routes), Some((0, "/foo")));
    assert_eq!(path_exists("/other", &config.routes), Some((3, "/")));
    assert_eq!(
        get_route(&mock_request(Method::Get, "/foo/bar/baz"), &config).err(),
        Some((StatusCode::method_not_allowed(), String::new()))
    );
}

#[test]
fn no_route_is_not_found() {
    let config = config_of(vec![route("/a", vec![Method::Get])]);
    assert_eq!(path_exists("/b", &config.routes), None);
    assert_eq!(path_exists("/b", &[]), None);
    assert_eq!(
        get_route(&mock_request(Method::Get, "/b"), &config).err(),
        Some((StatusCode::not_found(), String::new()))
    );
}

#[test]
fn the_query_is_no_part_of_the_path() {
    let config = mock_server_config();
    let req = mock_request(Method::Get, "/test.txt?download=1");
    assert_eq!(get_route(&req, &config).unwrap().url_path, "/test.txt");
}
