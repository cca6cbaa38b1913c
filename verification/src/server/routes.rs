//! Which route answers a request.
use crate::message::Request;
use crate::server::methods::{allows, method_is_allowed};
use crate::server::requests::path::{
    best_prefix, first_exact, first_redirect, lemma_best_prefix, lemma_first_exact,
    lemma_first_redirect, path_exists, route_redirects,
};
use crate::server_config::{Route, ServerConfig};
use crate::status::StatusCode;
use crate::text::same_text;
use vstd::prelude::*;
use vstd::string::*;

verus! {

/// The status that a redirection to a route is answered with: the one in its
/// settings, else 307.
pub open spec fn redirect_code(route: Route) -> StatusCode {
    match route.settings {
        Some(settings) => match settings.redirect_status_code {
            Some(code) => code,
            None => StatusCode::temporary_redirect(),
        },
        None => StatusCode::temporary_redirect(),
    }
}

/// The route at `i`, if the method is among its methods.
pub open spec fn checked(routes: Seq<Route>, i: int, method: Seq<char>) -> Result<
    int,
    (StatusCode, Seq<char>),
> {
    if allows(routes[i], method) {
        Ok(i)
    } else {
        Err((StatusCode::method_not_allowed(), Seq::empty()))
    }
}

/// The index of the route that answers a request for `url` with `method`, or
/// the status and path that say why none does.
///
/// The first route whose `url_path` is `url` is taken. Failing that, the
/// first route that has `url` among its redirections gives a redirection to
/// its `url_path`. Failing that, the route with the longest `url_path` that
/// is a prefix of `url` is taken, the first of several; without one the
/// answer is 404. A route that is taken answers 405 unless `method` is among
/// its methods.
pub open spec fn resolve(routes: Seq<Route>, url: Seq<char>, method: Seq<char>) -> Result<
    int,
    (StatusCode, Seq<char>),
> {
    let exact = first_exact(routes, url, 0);
    let redirect = first_redirect(routes, url, 0);
    let prefix = best_prefix(routes, url, routes.len() as int);
    if exact >= 0 {
        checked(routes, exact, method)
    } else if redirect >= 0 {
        Err((redirect_code(routes[redirect]), routes[redirect].url_path@))
    } else if prefix >= 0 {
        checked(routes, prefix, method)
    } else {
        Err((StatusCode::not_found(), Seq::empty()))
    }
}

/// What `get_route` returned, with the route as its index in `routes`.
pub open spec fn resolved_as(
    r: Result<&Route, (StatusCode, String)>,
    routes: Seq<Route>,
    expected: Result<int, (StatusCode, Seq<char>)>,
) -> bool {
    match (r, expected) {
        (Ok(route), Ok(i)) => 0 <= i < routes.len() && *route == routes[i],
        (Err((code, path)), Err((c, p))) => code == c && path@ == p,
        _ => false,
    }
}

/// The route that answers a request, or the status and path that say why none does.
pub fn get_route<'a>(req: &'a Request, config: &'a ServerConfig<'a>) -> (r: Result<
    &'a Route<'a>,
    (StatusCode, String),
>)
    ensures
        resolved_as(r, config.routes@, resolve(config.routes@, req@.uri.path, req@.method)),
{
    // Get the route assigned to the path
    let url_path = req.uri.path();
    proof {
        lemma_first_exact(config.routes@, url_path@, 0);
        lemma_first_redirect(config.routes@, url_path@, 0);
        lemma_best_prefix(config.routes@, url_path@, config.routes@.len() as int);
    }
    let route;
    let routed_path;

    if let Some((i, path)) = path_exists(url_path, config.routes.as_slice()) {
        route = &config.routes[i];
        routed_path = path;
    } else {
        return Err((StatusCode::not_found(), String::new()));
    }

    // Check if it is a redirect
    if !same_text(route.url_path, url_path) && route_redirects(route, url_path) {
        let code = match &route.settings {
            Some(settings) => match settings.redirect_status_code {
                Some(code) => code,
                None => StatusCode::temporary_redirect(),
            },
            None => StatusCode::temporary_redirect(),
        };
        return Err((code, routed_path.to_owned()));
    }

    // Check if the method is allowed on route
    if !method_is_allowed(&req.method, route) {
        return Err((StatusCode::method_not_allowed(), String::new()));
    }

    Ok(route)
}

/// A request for the `url_path` of a route, with a method that the route
/// allows, is answered by that route, provided no route before it has the
/// same `url_path`.
pub proof fn lemma_exact_route_wins(routes: Seq<Route>, k: int, method: Seq<char>)
    requires
        0 <= k < routes.len(),
        allows(routes[k], method),
        forall|j: int| 0 <= j < k ==> (#[trigger] routes[j]).url_path@ != routes[k].url_path@,
    ensures
        resolve(routes, routes[k].url_path@, method) == Ok::<int, (StatusCode, Seq<char>)>(k),
{
    lemma_first_exact(routes, routes[k].url_path@, 0);
}

} // verus!
