use localhost::message::{Request, Response};
use localhost::server::methods::not_safe::{
    create_next, create_start, numbered_path, Attempt, CreateStep,
};
use localhost::server::methods::safe::{get, head, options, trace, trace_echo};
use localhost::server::methods::{
    file_action, get_method, handle_method, method_is_allowed, FileAction, FileOutcome,
};
use localhost::server::responses::content_type;
use localhost::server_config::{Cgi, Route, ServerConfig, Settings};
use localhost::status::{Method, StatusCode, Version};
use rand::distributions::Alphanumeric;
use rand::Rng;
use std::collections::HashMap;

// Mock functions and data for testing
fn mock_route() -> Route<'static> {
    let route = Route {
        methods: vec![
            Method::Get,
            Method::Options,
            Method::Head,
            Method::Trace,
            Method::Post,
            Method::Put,
            Method::Patch,
            Method::Delete,
            // Method::Connect, // Excluded as it's unimplemented
        ],
        url_path: "/",
        handler: None,
        settings: None,
    };
    route
}

fn mock_request(
    method: Method,
    path: &str,
    body: Option<&str>,
    headers: Option<Vec<(&str, &str)>>,
) -> Request {
    let mut req = Request::new(method, &format!("http://localhost:8080{path}")).unwrap();
    for (key, value) in headers.unwrap_or_default() {
        assert!(req.headers.append(key, value));
    }
    req.body = Vec::from(body.unwrap_or_default());
    req
}

fn file_settings(redirections: Option<Vec<&'static str>>) -> Settings<'static> {
    Settings {
        redirect_status_code: redirections.as_ref().map(|_| StatusCode::temporary_redirect()),
        http_redirections: redirections,
        root_path: Some("/files"),
        default_if_url_is_dir: None,
        default_if_request_is_dir: None,
        cgi_def: None,
        list_directory: false,
    }
}

fn file_route(url_path: &'static str) -> Route<'static> {
    Route {
        url_path,
        methods: vec![
            Method::Get,
            Method::Post,
            Method::Head,
            Method::Options,
            Method::Trace,
            Method::Put,
            Method::Patch,
            Method::Delete,
        ],
        handler: None,
        settings: Some(file_settings(None)),
    }
}

fn mock_server_config() -> ServerConfig<'static> {
    let config = ServerConfig {
        host: "127.0.0.1",
        ports: vec![8080],
        custom_error_path: None,
        body_size_limit: 10024,
        routes: vec![
            Route {
                url_path: "/cgi",
                methods: vec![Method::Get],
                handler: None,
                settings: Some(Settings {
                    http_redirections: None,
                    redirect_status_code: None,
                    root_path: None,
                    default_if_url_is_dir: None,
                    default_if_request_is_dir: None,
                    cgi_def: Some(vec![
                        ("js", Cgi::JavaScript),
                        ("php", Cgi::PHP),
                        ("py", Cgi::Python),
                        ("rb", Cgi::Ruby),
                    ]),
                    list_directory: false,
                }),
            },
            Route { url_path: "/test", methods: vec![Method::Get], handler: None, settings: None },
            file_route("/test.txt"),
            file_route("/test_put.txt"),
            file_route("/patch_test.txt"),
            file_route("/delete_test.txt"),
            file_route("/non_existing_file.txt"),
            Route {
                url_path: "/tests/redirect.txt",
                methods: vec![Method::Get],
                handler: None,
                settings: Some(file_settings(Some(vec!["/redirection"]))),
            },
        ],
    };
    config
}

/// The files that the requests of a test act on.
fn mock_files() -> HashMap<String, Vec<u8>> {
    HashMap::from([("./files/test.txt".to_string(), b"hello\n".to_vec())])
}

fn perform(files: &mut HashMap<String, Vec<u8>>, action: FileAction, body: &[u8]) -> FileOutcome {
    match action {
        FileAction::Nothing => FileOutcome::Nothing,
        FileAction::Read(path) => match files.get(&path) {
            Some(content) => FileOutcome::Content(content.clone()),
            None => FileOutcome::Missing,
        },
        FileAction::Size(path) => match files.get(&path) {
            Some(content) => FileOutcome::Size(content.len() as u64),
            None => FileOutcome::Failed,
        },
        FileAction::Write(path) => {
            files.insert(path, body.to_vec());
            FileOutcome::Done
        }
        FileAction::Overwrite(path) => {
            if files.contains_key(&path) {
                files.insert(path, body.to_vec());
                FileOutcome::Done
            } else {
                FileOutcome::Missing
            }
        }
        FileAction::Take(path) => match files.remove(&path) {
            Some(content) => FileOutcome::Content(content),
            None => FileOutcome::Missing,
        },
        FileAction::Create(path) => {
            let mut step = create_start(&path);
            loop {
                step = match step {
                    CreateStep::Probe(attempt, name) => {
                        create_next(&path, attempt, files.contains_key(&name))
                    }
                    CreateStep::Write(name) => {
                        files.insert(name, body.to_vec());
                        return FileOutcome::Done;
                    }
                    CreateStep::GiveUp => return FileOutcome::Failed,
                };
            }
        }
    }
}

fn serve(
    files: &mut HashMap<String, Vec<u8>>,
    route: &Route,
    request: &Request,
    config: &ServerConfig,
) -> Result<Response, StatusCode> {
    let outcome = match file_action(request, config) {
        Ok(action) => perform(files, action, &request.body),
        Err(_) => FileOutcome::Nothing,
    };
    handle_method(route, request, config, outcome)
}

/// The request as `http` holds it.
fn outside_request(request: &Request) -> http::Request<Vec<u8>> {
    let mut builder = http::Request::builder()
        .method(request.method.as_str())
        .uri(request.uri.target.as_str())
        .version(http::Version::HTTP_11);
    for header in &request.headers.entries {
        builder = builder.header(header.name.as_str(), header.value.as_str());
    }
    builder.body(request.body.clone()).unwrap()
}

#[test]
fn test_methods_test_method_is_allowed() {
    let route = mock_route();
    // Iterate through all the methods, and assert that they are allowed.
    for method in &route.methods {
        assert!(method_is_allowed(method, &route));
    }

    // 10 random invalid methods
    for _ in 0..10 {
        let s: String =
            rand::thread_rng().sample_iter(&Alphanumeric).take(20).map(char::from).collect();

        assert!(!method_is_allowed(&Method::from_token(&s).unwrap(), &route));
    }
}

#[test]
fn test_methods_test_handle_method_unsupported() {
    let route = mock_route();
    let request = mock_request(Method::from_token("UNSUPPORTED").unwrap(), "/test.txt", None, None);
    let config = mock_server_config();

    let result = serve(&mut mock_files(), &route, &request, &config);
    assert!(matches!(result, Err(code) if code == StatusCode::not_implemented()));
}

#[test]
fn test_methods_test_get_method_valid() {
    let request_line = "GET /index.html HTTP/1.1";
    assert_eq!(get_method(request_line).unwrap(), Method::Get);
}

#[test]
fn test_methods_test_get_method_empty() {
    let request_line = "";
    assert!(get_method(request_line).is_err());
}

#[test]
fn test_methods_test_get_method_no_method() {
    let request_line = "/index.html HTTP/1.1";
    assert!(get_method(request_line).is_err());
}

#[test]
fn test_methods_test_handle_method_get() {
    let route = mock_route();
    let config = mock_server_config();
    let request = mock_request(Method::Get, "/test.txt", None, None);

    let result = serve(&mut mock_files(), &route, &request, &config);
    assert!(result.is_ok());
    // Additional assertions based on the expected response
}

#[test]
fn test_methods_test_handle_method_post() {
    let route = mock_route();
    let config = mock_server_config();
    let request =
        mock_request(Method::Post, "/test.txt", Some("Ehm... missing post tests here"), None);

    let result = serve(&mut mock_files(), &route, &request, &config);
    assert!(result.is_ok());
    // Additional assertions based on the expected response
}

#[test]
fn test_methods_test_handle_method_head() {
    let route = mock_route();
    let request = mock_request(Method::Head, "/test.txt", None, None);
    let config = mock_server_config();

    let result = serve(&mut mock_files(), &route, &request, &config);
    assert!(result.is_ok());
    let response = result.unwrap();
    // Check that the response body is empty
    assert!(response.body.is_empty());
    //Check that the response headers are correct
    assert!(response.headers.contains_key("Content-Length"));
    assert!(response.headers.contains_key("Content-Type"));
}

#[test]
fn test_methods_test_handle_method_options() {
    let route = mock_route();
    let config = mock_server_config();
    let request = mock_request(Method::Options, "/test.txt", None, None);

    let result = serve(&mut mock_files(), &route, &request, &config);
    assert!(result.is_ok());
    let response = result.unwrap();
    // Check that we receive the correct methods that are available
    let allowed_methods = response.headers.get("Allow").unwrap();
    for method in &route.methods {
        assert!(allowed_methods.contains(&method.as_str().to_ascii_uppercase()))
    }
}

#[test]
fn test_methods_test_handle_method_trace() {
    let config = mock_server_config();
    let route = mock_route();

    let mut request = mock_request(Method::Trace, "/test.txt", None, None);
    let headers = HashMap::from([
        ("Max-Forwards", "10"),
        ("Cookie", "test_cookie"),
        ("Authorization", "Basic dGVzdDp0ZXN"),
    ]);
    for (key, value) in headers {
        assert!(request.headers.append(key, value));
    }

    let result = serve(&mut mock_files(), &route, &request, &config);
    assert!(result.is_ok());
    let response = result.unwrap();

    // Use debug representation to reconstruct the request string
    let request_representation = format!("{:?}\r\n", outside_request(&request))
        .lines()
        .filter(|line| !line.contains("Cookie:") && !line.contains("Authorization:"))
        .collect::<Vec<_>>()
        .join("\r\n");

    // Convert response body to String for comparison
    let response_body_str =
        String::from_utf8(response.body.clone()).expect("Failed to convert response body to String");

    // Check that the response body matches the reconstructed request
    assert_eq!(response_body_str, request_representation);
}

#[test]
fn test_methods_test_handle_method_put() {
    let route = mock_route();
    let config = mock_server_config();
    let mut files = mock_files();

    // Set up a test file path and body content
    let test_file_path = "/test_put.txt";
    let test_body_content = "Test PUT content kek";

    let request = mock_request(Method::Put, test_file_path, Some(test_body_content), None);

    // Execute the PUT request
    let result = serve(&mut files, &route, &request, &config);
    assert!(result.is_ok());
    let response = result.unwrap();

    // Check response status
    assert_eq!(response.status, StatusCode::ok());

    // Check response headers
    assert_eq!(response.headers.get("content-type").unwrap(), &content_type(test_file_path));
    assert_eq!(
        response.headers.get("content-length").unwrap(),
        &test_body_content.len().to_string()
    );

    // Check response body
    assert_eq!(&response.body, &test_body_content.as_bytes().to_vec());

    // Verify that the file was created and contains the correct content
    let file_path = format!("./files{}", test_file_path);
    let file_content = String::from_utf8(files[&file_path].clone()).expect("Failed to read file");
    assert_eq!(file_content, test_body_content);
}

#[test]
fn test_methods_test_handle_method_patch() {
    let route = mock_route();
    let config = mock_server_config();
    let mut files = mock_files();

    // Step 1: Create a test file using PUT
    let test_file_path = "/patch_test.txt";
    let initial_content = "Initial Content";
    let modified_content = "Modified Content";
    let put_request = mock_request(Method::Put, test_file_path, Some(initial_content), None);
    let put_result = serve(&mut files, &route, &put_request, &config);
    assert!(put_result.is_ok());

    // Step 2: Modify the file content using PATCH
    let patch_request = mock_request(Method::Patch, test_file_path, Some(modified_content), None);
    let body = match serve(&mut files, &route, &patch_request, &config) {
        Ok(resp) => resp.body.clone(),
        _ => panic!(),
    };
    // Assert that the content is now updated
    assert_eq!(Vec::from(modified_content), body);
    assert_eq!(files["./files/patch_test.txt"], modified_content.as_bytes());
}

#[test]
fn test_methods_test_handle_method_delete_existing_file() {
    let route = mock_route();
    let config = mock_server_config();
    let mut files = mock_files();

    // Create a file using PUT
    let test_file_path = "/delete_test.txt";
    let test_content = "Test Content";
    let put_request = mock_request(Method::Put, test_file_path, Some(test_content), None);
    assert!(serve(&mut files, &route, &put_request, &config).is_ok());

    // Retrieve the file using GET
    let get_request = mock_request(Method::Get, test_file_path, None, None);
    assert!(serve(&mut files, &route, &get_request, &config).is_ok());

    // Delete the file using DELETE
    let delete_request = mock_request(Method::Delete, test_file_path, None, None);
    assert!(serve(&mut files, &route, &delete_request, &config).is_ok());

    // Attempt to retrieve the file again using GET
    let get_request_again = mock_request(Method::Get, test_file_path, None, None);
    assert!(matches!(
        serve(&mut files, &route, &get_request_again, &config),
        Err(code) if code == StatusCode::not_found()
    ));
}

#[test]
fn test_methods_test_handle_method_delete_non_existing_file() {
    let route = mock_route();
    let config = mock_server_config();

    let test_file_path = "/non_existing_file.txt";
    let delete_request = mock_request(Method::Delete, test_file_path, None, None);
    let result = serve(&mut mock_files(), &route, &delete_request, &config);
    assert!(matches!(result, Err(code) if code == StatusCode::not_found()));
}

#[test]
fn get_answers_with_the_file_and_its_headers() {
    let config = mock_server_config();
    let request = mock_request(Method::Get, "/test.txt", None, Some(vec![("Host", "127.0.0.1")]));
    let response = get(&request, &config, Some(b"hello\n".to_vec())).unwrap();
    assert_eq!(response.status, StatusCode::ok());
    assert_eq!(response.version, Version::Http11);
    assert_eq!(response.headers.len(), 3);
    assert_eq!(response.headers.get("Host"), Some("127.0.0.1"));
    assert_eq!(response.headers.get("Content-Type"), Some("text/plain"));
    assert_eq!(response.headers.get("Content-Length"), Some("6"));
    assert_eq!(response.body, b"hello\n");
}

#[test]
fn get_repeats_the_transfer_encoding_of_the_request() {
    let config = mock_server_config();
    let request = mock_request(
        Method::Get,
        "/test.txt",
        None,
        Some(vec![("Accept", "*/*"), ("Transfer-Encoding", "chunked")]),
    );
    let response = get(&request, &config, Some(b"hello\n".to_vec())).unwrap();
    assert_eq!(response.headers.len(), 4);
    assert_eq!(response.headers.get("transfer-encoding"), Some("chunked"));
    assert_eq!(response.headers.get("accept"), None);
}

#[test]
fn get_of_a_missing_file_is_not_found() {
    let config = mock_server_config();
    let request = mock_request(Method::Get, "/test.txt", None, None);
    assert_eq!(get(&request, &config, None), Err(StatusCode::not_found()));
}

#[test]
fn get_outside_the_routes_is_refused_by_the_resolver() {
    let config = mock_server_config();
    let request = mock_request(Method::Get, "/nowhere", None, None);
    assert_eq!(get(&request, &config, Some(Vec::new())), Err(StatusCode::not_found()));
    let request = mock_request(Method::Put, "/test", None, None);
    assert_eq!(get(&request, &config, Some(Vec::new())), Err(StatusCode::method_not_allowed()));
}

#[test]
fn get_with_an_unsound_host_is_a_server_error() {
    let mut config = mock_server_config();
    config.host = "bad\nhost";
    let request = mock_request(Method::Get, "/test.txt", None, None);
    assert_eq!(get(&request, &config, Some(Vec::new())), Err(StatusCode::internal_server_error()));
}

#[test]
fn head_answers_with_the_size_and_no_body() {
    let config = mock_server_config();
    let request = mock_request(Method::Head, "/test.txt", None, None);
    let response = head(&request, &config, Some(1234)).unwrap();
    assert_eq!(response.headers.get("content-length"), Some("1234"));
    assert_eq!(response.headers.get("content-type"), Some("text/plain"));
    assert!(response.body.is_empty());
    assert_eq!(head(&request, &config, None), Err(StatusCode::internal_server_error()));
}

#[test]
fn options_lists_the_methods_of_the_route() {
    let config = mock_server_config();
    let request = mock_request(Method::Options, "/test.txt", None, None);
    let response = options(&mock_route(), &request, &config).unwrap();
    assert_eq!(
        response.headers.get("allow"),
        Some("GET, OPTIONS, HEAD, TRACE, POST, PUT, PATCH, DELETE")
    );
    assert_eq!(response.headers.get("host"), Some("127.0.0.1"));
    assert!(response.body.is_empty());
}

#[test]
fn trace_refuses_a_request_that_may_not_be_forwarded() {
    let config = mock_server_config();
    for zero in ["0", "+0", "-0", "000"] {
        let request =
            mock_request(Method::Trace, "/test.txt", None, Some(vec![("Max-Forwards", zero)]));
        assert_eq!(trace(&request, &config), Err(StatusCode::bad_request()));
    }
    for other in ["1", "", "0x", " 0"] {
        let request =
            mock_request(Method::Trace, "/test.txt", None, Some(vec![("Max-Forwards", other)]));
        assert!(trace(&request, &config).is_ok());
    }
}

#[test]
fn trace_echoes_the_request_and_adds_the_host_to_via() {
    let config = mock_server_config();
    let request = mock_request(
        Method::Trace,
        "/test.txt",
        Some("ab"),
        Some(vec![("Via", "1.1 proxy"), ("X-Test", "yes")]),
    );
    let response = trace(&request, &config).unwrap();
    assert_eq!(response.headers.get("content-type"), Some("message/http"));
    assert_eq!(response.headers.get("via"), Some("1.1 proxy, 127.0.0.1"));
    assert_eq!(
        String::from_utf8(response.body).unwrap(),
        "Request { method: TRACE, uri: http://localhost:8080/test.txt, version: HTTP/1.1, \
         headers: {\"via\": \"1.1 proxy\", \"x-test\": \"yes\"}, body: [97, 98] }"
    );

    let plain = mock_request(Method::Trace, "/test.txt", None, None);
    assert_eq!(trace(&plain, &config).unwrap().headers.get("via"), Some("127.0.0.1"));
}

#[test]
fn trace_writes_the_request_as_http_does() {
    let config = mock_server_config();
    let mut request = mock_request(Method::Trace, "/a?b=1#frag", Some("\n"), None);
    assert!(request.headers.append("x-one", "say \"hi\""));
    assert!(request.headers.append("x-two", "caf\u{e9}"));
    assert!(request.headers.append("x-one", "again"));
    let response = trace(&request, &config).unwrap();
    assert_eq!(
        String::from_utf8(response.body).unwrap(),
        format!("{:?}", outside_request(&request))
    );
    assert_eq!(
        request.to_debug_text().unwrap(),
        "Request { method: TRACE, uri: http://localhost:8080/a?b=1, version: HTTP/1.1, \
         headers: {\"x-one\": \"say \\\"hi\\\"\", \"x-one\": \"again\", \
         \"x-two\": \"caf\\xc3\\xa9\"}, body: [10] }"
    );
}

#[test]
fn trace_echo_leaves_out_secret_lines() {
    let config = mock_server_config();
    let request = mock_request(Method::Trace, "/test.txt", None, None);
    let text = "first\r\nCookie: a=b\nAuthorization: x\r\n cookie: kept\nlast".to_string();
    let response = trace_echo(&request, &config, Some(text)).unwrap();
    assert_eq!(response.body, b"first\r\n cookie: kept\r\nlast");
    assert_eq!(
        trace_echo(&request, &config, None),
        Err(StatusCode::internal_server_error())
    );
}

#[test]
fn trace_of_a_request_that_http_does_not_take_fails() {
    let config = mock_server_config();
    let mut request = mock_request(Method::Trace, "/test.txt", None, None);
    request.uri.target = "not a target".to_string();
    assert_eq!(request.to_debug_text(), None);
    assert_eq!(trace(&request, &config), Err(StatusCode::internal_server_error()));
}

#[test]
fn post_stores_under_the_first_free_name() {
    let route = mock_route();
    let config = mock_server_config();
    let mut files = mock_files();
    let request = mock_request(Method::Post, "/test.txt", Some("x"), None);

    let response = serve(&mut files, &route, &request, &config).unwrap();
    assert_eq!(response.status, StatusCode::ok());
    assert_eq!(response.body, b"x");
    assert_eq!(files["./files/test.txt"], b"hello\n");
    assert_eq!(files["./files/test(0).txt"], b"x");

    let again = mock_request(Method::Post, "/test.txt", Some("y"), None);
    assert!(serve(&mut files, &route, &again, &config).is_ok());
    assert_eq!(files["./files/test(1).txt"], b"y");
    assert_eq!(files.len(), 3);
}

#[test]
fn post_creates_the_file_where_there_is_none() {
    let route = mock_route();
    let config = mock_server_config();
    let mut files = HashMap::new();
    let request = mock_request(Method::Post, "/test.txt", Some("data"), None);
    assert!(serve(&mut files, &route, &request, &config).is_ok());
    assert_eq!(files["./files/test.txt"], b"data");
    assert_eq!(files.len(), 1);
}

#[test]
fn numbered_path_puts_the_number_before_the_last_dot() {
    assert_eq!(numbered_path("/foo.txt", 0), "/foo(0).txt");
    assert_eq!(numbered_path("./files/a.tar.gz", 12), "./files/a.tar(12).gz");
    assert_eq!(numbered_path("plain", 3), "plain(3)");
}

#[test]
fn create_steps_try_the_numbered_names_in_turn() {
    assert_eq!(create_start("/a.txt"), CreateStep::Probe(Attempt::Plain, "/a.txt".to_string()));
    assert_eq!(
        create_next("/a.txt", Attempt::Plain, false),
        CreateStep::Write("/a.txt".to_string())
    );
    assert_eq!(
        create_next("/a.txt", Attempt::Plain, true),
        CreateStep::Probe(Attempt::Numbered(0), "/a(0).txt".to_string())
    );
    assert_eq!(
        create_next("/a.txt", Attempt::Numbered(0), true),
        CreateStep::Probe(Attempt::Numbered(1), "/a(1).txt".to_string())
    );
    assert_eq!(
        create_next("/a.txt", Attempt::Numbered(41), false),
        CreateStep::Write("/a(41).txt".to_string())
    );
    assert_eq!(create_next("/a.txt", Attempt::Numbered(u64::MAX), true), CreateStep::GiveUp);
}

#[test]
fn patch_of_a_missing_file_is_not_found() {
    let route = mock_route();
    let config = mock_server_config();
    let mut files = HashMap::new();
    let request = mock_request(Method::Patch, "/patch_test.txt", Some("x"), None);
    assert_eq!(serve(&mut files, &route, &request, &config), Err(StatusCode::not_found()));
    assert!(files.is_empty());
}

#[test]
fn safe_methods_answer_twice_alike() {
    let route = mock_route();
    let config = mock_server_config();
    let mut files = mock_files();
    for method in [Method::Get, Method::Head, Method::Options, Method::Trace] {
        let request = mock_request(method, "/test.txt", None, None);
        let first = serve(&mut files, &route, &request, &config).unwrap();
        let second = serve(&mut files, &route, &request, &config).unwrap();
        assert_eq!(first, second);
        assert_eq!(files, mock_files());
    }
}

#[test]
fn failed_writes_are_reported_by_method() {
    let route = mock_route();
    let config = mock_server_config();
    let put = mock_request(Method::Put, "/test.txt", Some("x"), None);
    assert_eq!(
        handle_method(&route, &put, &config, FileOutcome::Failed),
        Err(StatusCode::internal_server_error())
    );
    let post = mock_request(Method::Post, "/test.txt", Some("x"), None);
    assert_eq!(
        handle_method(&route, &post, &config, FileOutcome::Failed),
        Err(StatusCode::bad_request())
    );
    let patch = mock_request(Method::Patch, "/test.txt", Some("x"), None);
    assert_eq!(
        handle_method(&route, &patch, &config, FileOutcome::Failed),
        Err(StatusCode::internal_server_error())
    );
    let delete = mock_request(Method::Delete, "/test.txt", None, None);
    assert_eq!(
        handle_method(&route, &delete, &config, FileOutcome::Failed),
        Err(StatusCode::internal_server_error())
    );
}

#[test]
fn file_action_names_the_file_by_method() {
    let config = mock_server_config();
    let path = "./files/test.txt".to_string();
    let action = |method| file_action(&mock_request(method, "/test.txt", None, None), &config);
    assert_eq!(action(Method::Get), Ok(FileAction::Read(path.clone())));
    assert_eq!(action(Method::Head), Ok(FileAction::Size(path.clone())));
    assert_eq!(action(Method::Post), Ok(FileAction::Create(path.clone())));
    assert_eq!(action(Method::Put), Ok(FileAction::Write(path.clone())));
    assert_eq!(action(Method::Patch), Ok(FileAction::Overwrite(path.clone())));
    assert_eq!(action(Method::Delete), Ok(FileAction::Take(path)));
    assert_eq!(action(Method::Options), Ok(FileAction::Nothing));
    assert_eq!(action(Method::Connect), Ok(FileAction::Nothing));
    assert_eq!(
        file_action(&mock_request(Method::Get, "/nowhere", None, None), &config),
        Err(StatusCode::not_found())
    );
}
