//! What the server is configured with: hosts, ports and routes.
use crate::headers::{is_header_value, is_value};
use crate::status::{Method, StatusCode};
use crate::type_aliases::{FileExtension, Path, Port};
use vstd::prelude::*;
use vstd::string::*;

verus! {

/// The language of a CGI script, which decides the interpreter.
#[derive(Clone, Copy, Debug, PartialEq, Eq, Structural)]
pub enum Cgi {
    JavaScript,
    PHP,
    Python,
    Ruby,
}

/// A built-in handler that answers a route in place of the method
/// dispatcher. The three handlers here are all there are: a route cannot be
/// given a handler of the caller's own.
#[derive(Clone, Copy, Debug, PartialEq, Eq, Structural)]
pub enum Handler {
    UpdateCookie,
    ValidateCookie,
    CookieDemo,
}

/// How a route serves files.
#[derive(Clone, Debug)]
pub struct Settings<'a> {
    /// Other URLs that redirect to the route.
    pub http_redirections: Option<Vec<Path<'a>>>,
    pub redirect_status_code: Option<StatusCode>,
    pub root_path: Option<Path<'a>>,
    pub default_if_url_is_dir: Option<Path<'a>>,
    pub default_if_request_is_dir: Option<Path<'a>>,
    /// File extension, without the dot, to the language of the script. Each
    /// extension is meant to stand once; where one stands twice, its first
    /// entry counts.
    pub cgi_def: Option<Vec<(FileExtension<'a>, Cgi)>>,
    pub list_directory: bool,
}

/// A URL path and what answers requests for it.
#[derive(Clone, Debug)]
pub struct Route<'a> {
    pub url_path: Path<'a>,
    pub methods: Vec<Method>,
    pub handler: Option<Handler>,
    pub settings: Option<Settings<'a>>,
}

/// One server: where it listens and what it serves.
#[derive(Clone, Debug)]
pub struct ServerConfig<'a> {
    pub host: &'a str,
    pub ports: Vec<Port>,
    pub custom_error_path: Option<Path<'a>>,
    pub body_size_limit: usize,
    pub routes: Vec<Route<'a>>,
}

/// The largest body that the built-in configuration accepts, in bytes.
pub const BODY_SIZE_LIMIT: u64 = 1000000000024;

/// The scripts that the built-in configuration knows of.
pub fn script_languages() -> (r: Vec<(FileExtension<'static>, Cgi)>)
    ensures
        r@.len() == 4,
        r@[0].0@ == "js"@ && r@[0].1 == Cgi::JavaScript,
        r@[1].0@ == "php"@ && r@[1].1 == Cgi::PHP,
        r@[2].0@ == "py"@ && r@[2].1 == Cgi::Python,
        r@[3].0@ == "rb"@ && r@[3].1 == Cgi::Ruby,
        crate::server::cgi::distinct_extensions(r@),
{
    proof {
        reveal_strlit("js");
        reveal_strlit("php");
        reveal_strlit("py");
        reveal_strlit("rb");
    }
    // Map file extensions to CGI handlers. Add or remove mappings as required.
    let mut defs: Vec<(FileExtension<'static>, Cgi)> = Vec::new();
    defs.push(("js", Cgi::JavaScript));
    defs.push(("php", Cgi::PHP));
    defs.push(("py", Cgi::Python));
    defs.push(("rb", Cgi::Ruby));
    proof {
        assert("js"@.len() == 2 && "php"@.len() == 3 && "py"@.len() == 2 && "rb"@.len() == 2);
        assert("js"@[0] == 'j' && "py"@[0] == 'p' && "rb"@[0] == 'r');
        assert forall|i: int, j: int| 0 <= i < j < defs@.len() implies (#[trigger] defs@[i]).0@ != (
        #[trigger] defs@[j]).0@ by {
            if i == 0 {
            } else if i == 1 {
            } else if i == 2 {
            }
        }
    }
    defs
}

/// Settings with everything off.
pub fn plain_settings() -> (r: Settings<'static>)
    ensures
        r.http_redirections.is_none(),
        r.redirect_status_code.is_none(),
        r.root_path.is_none(),
        r.default_if_url_is_dir.is_none(),
        r.default_if_request_is_dir.is_none(),
        r.cgi_def.is_none(),
        !r.list_directory,
{
    Settings {
        http_redirections: None,
        redirect_status_code: None,
        root_path: None,
        default_if_url_is_dir: None,
        default_if_request_is_dir: None,
        cgi_def: None,
        list_directory: false,
    }
}

/// A list of methods.
pub fn methods_of(a: Method, rest: Vec<Method>) -> (r: Vec<Method>)
    ensures
        r@ == seq![a] + rest@,
{
    let mut v: Vec<Method> = Vec::new();
    v.push(a);
    let mut rest = rest;
    v.append(&mut rest);
    v
}

// Function to configure the server settings
pub fn server_config() -> (r: Vec<ServerConfig<'static>>)
    ensures
        r@.len() == 1,
        r@[0].wf(),
        r@[0].host@ == "127.0.0.1"@,
        r@[0].ports@ == seq![8080u16, 8081u16, 8082u16],
        r@[0].custom_error_path.is_none(),
        r@[0].body_size_limit as int == if BODY_SIZE_LIMIT <= usize::MAX {
            BODY_SIZE_LIMIT as int
        } else {
            usize::MAX as int
        },
        r@[0].routes@.len() == 8,
        r@[0].routes@[0].url_path@ == "/api/update-cookie"@,
        r@[0].routes@[0].handler == Some(Handler::UpdateCookie),
        r@[0].routes@[1].url_path@ == "/api/get-cookie"@,
        r@[0].routes@[1].handler == Some(Handler::ValidateCookie),
        r@[0].routes@[2].url_path@ == "/api/cookie-demo"@,
        r@[0].routes@[2].handler == Some(Handler::CookieDemo),
        r@[0].routes@[3].url_path@ == "/cgi"@,
        r@[0].routes@[4].url_path@ == "/test.txt"@,
        r@[0].routes@[5].url_path@ == "/mega-dir"@,
        r@[0].routes@[6].url_path@ == "/src"@,
        r@[0].routes@[7].url_path@ == "/files"@,
        forall|i: int| 3 <= i < 8 ==> (#[trigger] r@[0].routes@[i]).handler.is_none(),
{
    proof {
        reveal_strlit("127.0.0.1");
        reveal_strlit("/api/update-cookie");
        reveal_strlit("/api/get-cookie");
        reveal_strlit("/api/cookie-demo");
        reveal_strlit("/cgi");
        reveal_strlit("/test.txt");
        reveal_strlit("/mega-dir");
        reveal_strlit("/src");
        reveal_strlit("/files");
    }
    // Ports on which the server will listen. Add or remove ports as required.
    let mut ports: Vec<Port> = Vec::new();
    ports.push(8080);
    ports.push(8081);
    ports.push(8082);
    assert(ports@ =~= seq![8080u16, 8081u16, 8082u16]);

    // Configuration for individual routes on the server.
    let mut routes: Vec<Route<'static>> = Vec::new();
    routes.push(
        Route {
            // Path for the route. Adjust this to match the endpoint you wish to configure.
            url_path: "/api/update-cookie",
            // HTTP methods allowed for this route. Add or remove methods as needed.
            methods: methods_of(Method::Post, Vec::new()),
            // Handler for the route.
            handler: Some(Handler::UpdateCookie),
            // Route-specific settings. Leave as 'None' for default settings.
            settings: None,
        },
    );
    // Additional routes follow the same structure. Customize each route as needed.
    routes.push(
        Route {
            url_path: "/api/get-cookie",
            methods: methods_of(Method::Get, Vec::new()),
            handler: Some(Handler::ValidateCookie),
            settings: None,
        },
    );
    routes.push(
        Route {
            url_path: "/api/cookie-demo",
            methods: methods_of(Method::Get, Vec::new()),
            handler: Some(Handler::CookieDemo),
            settings: None,
        },
    );
    let mut cgi = plain_settings();
    // Configuration for CGI scripts.
    cgi.cgi_def = Some(script_languages());
    // Enable directory listing for this route. Set to 'false' to disable.
    cgi.list_directory = true;
    routes.push(
        Route {
            url_path: "/cgi",
            methods: methods_of(Method::Get, Vec::new()),
            // No specific handler means processing is defined by 'settings'.
            handler: None,
            settings: Some(cgi),
        },
    );
    let mut test = plain_settings();
    let mut redirections: Vec<Path<'static>> = Vec::new();
    redirections.push("/redirection-test");
    test.http_redirections = Some(redirections);
    test.redirect_status_code = StatusCode::from_u16(301);
    test.root_path = Some("/files");
    routes.push(
        Route {
            url_path: "/test.txt",
            methods: methods_of(Method::Get, methods_of(Method::Post, Vec::new())),
            handler: None,
            settings: Some(test),
        },
    );
    let mut mega = plain_settings();
    mega.root_path = Some("/files");
    mega.default_if_url_is_dir = Some("/dir.html");
    routes.push(
        Route {
            url_path: "/mega-dir",
            methods: methods_of(Method::Get, Vec::new()),
            handler: None,
            settings: Some(mega),
        },
    );
    let mut src = plain_settings();
    src.default_if_url_is_dir = Some("/does-not-exist-mate");
    routes.push(
        Route {
            url_path: "/src",
            methods: methods_of(Method::Get, Vec::new()),
            handler: None,
            settings: Some(src),
        },
    );
    let mut files = plain_settings();
    files.list_directory = true;
    routes.push(
        Route {
            url_path: "/files",
            methods: methods_of(
                Method::Get,
                methods_of(
                    Method::Post,
                    methods_of(
                        Method::Put,
                        methods_of(Method::Patch, methods_of(Method::Delete, Vec::new())),
                    ),
                ),
            ),
            handler: None,
            settings: Some(files),
        },
    );
    let body_size_limit: usize = if BODY_SIZE_LIMIT > usize::MAX as u64 {
        usize::MAX
    } else {
        BODY_SIZE_LIMIT as usize
    };
    let mut configs: Vec<ServerConfig<'static>> = Vec::new();
    configs.push(
        ServerConfig {
            // IP address where the server listens.
            host: "127.0.0.1",
            ports,
            // Path for custom error pages. Set to 'Some(path)' to enable, or leave as 'None'
            // for default error handling.
            custom_error_path: None,
            // Maximum allowed size for request bodies in bytes.
            body_size_limit,
            routes,
        },
    );
    configs
}

impl<'a> ServerConfig<'a> {
    /// The host and the `url_path` of every route can stand in a header: the
    /// first is sent with every response, the second with a redirection.
    pub open spec fn wf(&self) -> bool {
        is_header_value(self.host@) && forall|i: int|
            0 <= i < self.routes@.len() ==> is_header_value((#[trigger] self.routes@[i]).url_path@)
    }

    /// Whether the configuration is well formed.
    pub fn is_sound(&self) -> (r: bool)
        ensures
            r == self.wf(),
    {
        if !is_value(self.host) {
            return false;
        }
        let mut i: usize = 0;
        while i < self.routes.len()
            invariant
                i <= self.routes.len(),
                forall|j: int| 0 <= j < i ==> is_header_value((#[trigger] self.routes@[j]).url_path@),
            decreases self.routes.len() - i,
        {
            if !is_value(self.routes[i].url_path) {
                return false;
            }
            i += 1;
        }
        true
    }
}

} // verus!
