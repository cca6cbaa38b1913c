//! The path of a request, the route that it falls under and the file that it
//! names.
use crate::server::requests::utils::{get_line, get_split_index, line_at, word_at};
use crate::server_config::Route;
use crate::text::{chars_of, occurs_at, same_text, starts_with};
use crate::type_aliases::Path;
use vstd::prelude::*;
use vstd::string::*;

verus! {

/// The request target: the second word of the first line (the first word
/// where there is no second).
pub open spec fn target_of(req: Seq<char>) -> Seq<char> {
    word_at(line_at(req, 0), 1)
}

/// `path` gets the path from the `request`
pub fn get_path(req: &str) -> (r: &str)
    ensures
        r@ == target_of(req@),
{
    let line = get_line(req, 0);
    get_split_index(line, 1)
}

/// Whether `url` is one of the route's redirections.
pub open spec fn redirects(route: Route, url: Seq<char>) -> bool {
    match route.settings {
        Some(settings) => match settings.http_redirections {
            Some(list) => exists|k: int| 0 <= k < list@.len() && (#[trigger] list@[k])@ == url,
            None => false,
        },
        None => false,
    }
}

/// The first route at or after `from` whose `url_path` is `url`, or -1.
pub open spec fn first_exact(routes: Seq<Route>, url: Seq<char>, from: int) -> int
    decreases routes.len() - from,
{
    if from < 0 || from >= routes.len() {
        -1
    } else if routes[from].url_path@ == url {
        from
    } else {
        first_exact(routes, url, from + 1)
    }
}

/// The first route at or after `from` that has `url` among its redirections,
/// or -1.
pub open spec fn first_redirect(routes: Seq<Route>, url: Seq<char>, from: int) -> int
    decreases routes.len() - from,
{
    if from < 0 || from >= routes.len() {
        -1
    } else if redirects(routes[from], url) {
        from
    } else {
        first_redirect(routes, url, from + 1)
    }
}

/// The best route among the first `n` whose `url_path` is a prefix of `url`:
/// the longest, and of several of that length the first. -1 where there is
/// none.
pub open spec fn best_prefix(routes: Seq<Route>, url: Seq<char>, n: int) -> int
    decreases n,
{
    if n <= 0 || n > routes.len() {
        -1
    } else {
        let b = best_prefix(routes, url, n - 1);
        if starts_with(url, routes[n - 1].url_path@) && (b < 0 || b >= routes.len() || routes[n
            - 1].url_path@.len() > routes[b].url_path@.len()) {
            n - 1
        } else {
            b
        }
    }
}

/// The route that `url` falls under: the first whose `url_path` is `url`;
/// failing that, the first that has `url` among its redirections; failing
/// that, the best prefix. -1 where there is none.
pub open spec fn route_index(routes: Seq<Route>, url: Seq<char>) -> int {
    let exact = first_exact(routes, url, 0);
    let redirect = first_redirect(routes, url, 0);
    if exact >= 0 {
        exact
    } else if redirect >= 0 {
        redirect
    } else {
        best_prefix(routes, url, routes.len() as int)
    }
}

/// `first_exact` gives a route with that `url_path`, and none before it has
/// it.
pub proof fn lemma_first_exact(routes: Seq<Route>, url: Seq<char>, from: int)
    requires
        0 <= from,
    ensures
        first_exact(routes, url, from) == -1 || (from <= first_exact(routes, url, from)
            < routes.len() && routes[first_exact(routes, url, from)].url_path@ == url),
        forall|j: int|
            from <= j < routes.len() && (first_exact(routes, url, from) == -1 || j < first_exact(
                routes,
                url,
                from,
            )) ==> (#[trigger] routes[j]).url_path@ != url,
    decreases routes.len() - from,
{
    if from < routes.len() && routes[from].url_path@ != url {
        lemma_first_exact(routes, url, from + 1);
    }
}

/// `first_redirect` gives a route that redirects `url`, and none before it
/// does.
pub proof fn lemma_first_redirect(routes: Seq<Route>, url: Seq<char>, from: int)
    requires
        0 <= from,
    ensures
        first_redirect(routes, url, from) == -1 || (from <= first_redirect(routes, url, from)
            < routes.len() && redirects(routes[first_redirect(routes, url, from)], url)),
        forall|j: int|
            from <= j < routes.len() && (first_redirect(routes, url, from) == -1 || j
                < first_redirect(routes, url, from)) ==> !redirects(#[trigger] routes[j], url),
    decreases routes.len() - from,
{
    if from < routes.len() && !redirects(routes[from], url) {
        lemma_first_redirect(routes, url, from + 1);
    }
}

/// What `best_prefix` picks: a route whose path is a prefix of the URL, no
/// shorter than any other such route, and longer than each such route before
/// it.
pub proof fn lemma_best_prefix(routes: Seq<Route>, url: Seq<char>, n: int)
    requires
        0 <= n <= routes.len(),
    ensures
        ({
            let b = best_prefix(routes, url, n);
            &&& -1 <= b < n
            &&& b >= 0 ==> starts_with(url, routes[b].url_path@)
            &&& forall|j: int|
                0 <= j < n && starts_with(url, (#[trigger] routes[j]).url_path@) ==> b >= 0
                    && routes[j].url_path@.len() <= routes[b].url_path@.len() && (j < b
                    ==> routes[j].url_path@.len() < routes[b].url_path@.len())
        }),
    decreases n,
{
    if n > 0 {
        lemma_best_prefix(routes, url, n - 1);
    }
}

/// Whether `list` holds the text `url`.
pub fn holds_text(list: &Vec<&str>, url: &str) -> (r: bool)
    ensures
        r == exists|k: int| 0 <= k < list@.len() && (#[trigger] list@[k])@ == url@,
{
    let mut k: usize = 0;
    while k < list.len()
        invariant
            k <= list.len(),
            forall|j: int| 0 <= j < k ==> (#[trigger] list@[j])@ != url@,
        decreases list.len() - k,
    {
        if same_text(list[k], url) {
            return true;
        }
        k += 1;
    }
    false
}

/// Whether `url` is one of the route's redirections.
pub fn route_redirects(route: &Route, url: &str) -> (r: bool)
    ensures
        r == redirects(*route, url@),
{
    match &route.settings {
        Some(settings) => match &settings.http_redirections {
            Some(list) => holds_text(list, url),
            None => false,
        },
        None => false,
    }
}

/// `path_exists` gets the `path` and the `index` of the `route` it was a part of if found.
pub fn path_exists<'a>(requested_path: Path<'a>, routes: &[Route<'a>]) -> (r: Option<
    (usize, Path<'a>),
>)
    ensures
        match r {
            Some((i, path)) => i as int == route_index(routes@, requested_path@) && i < routes@.len()
                && path@ == routes@[i as int].url_path@,
            None => route_index(routes@, requested_path@) == -1,
        },
{
    proof {
        lemma_first_exact(routes@, requested_path@, 0);
        lemma_first_redirect(routes@, requested_path@, 0);
    }
    // Check for _exact_ matches in path
    let mut i: usize = 0;
    while i < routes.len()
        invariant
            i <= routes.len(),
            first_exact(routes@, requested_path@, 0) == first_exact(
                routes@,
                requested_path@,
                i as int,
            ),
        decreases routes.len() - i,
    {
        if same_text(routes[i].url_path, requested_path) {
            return Some((i, routes[i].url_path));
        }
        i += 1;
    }
    // Check for redirections to a path
    i = 0;
    while i < routes.len()
        invariant
            i <= routes.len(),
            first_exact(routes@, requested_path@, 0) == -1,
            first_redirect(routes@, requested_path@, 0) == first_redirect(
                routes@,
                requested_path@,
                i as int,
            ),
        decreases routes.len() - i,
    {
        if route_redirects(&routes[i], requested_path) {
            return Some((i, routes[i].url_path));
        }
        i += 1;
    }
    // Check for paths with matching roots
    let wanted = chars_of(requested_path);
    let mut best: Option<(usize, usize)> = None;
    i = 0;
    while i < routes.len()
        invariant
            i <= routes.len(),
            wanted@ == requested_path@,
            match best {
                Some((index, len)) => index as int == best_prefix(routes@, wanted@, i as int)
                    && index < i && len == routes@[index as int].url_path@.len(),
                None => best_prefix(routes@, wanted@, i as int) == -1,
            },
        decreases routes.len() - i,
    {
        let candidate = chars_of(routes[i].url_path);
        if occurs_at(&wanted, &candidate, 0) {
            // More specified routes are prioritized
            // Example: "/foo" and "/foo/bar" both match "/foo/bar/baz". This will take the
            // "/foo/bar" route.
            let better = match best {
                Some((_, len)) => candidate.len() > len,
                None => true,
            };
            if better {
                best = Some((i, candidate.len()));
            }
        }
        i += 1;
    }
    match best {
        Some((index, _)) => Some((index, routes[index].url_path)),
        None => None,
    }
}

/// The root that a route puts before a path: that of its settings, where it
/// has settings and they name one.
pub open spec fn root_of(route: Route) -> Seq<char> {
    match route.settings {
        Some(settings) => match settings.root_path {
            Some(root) => root@,
            None => Seq::empty(),
        },
        None => Seq::empty(),
    }
}

/// The file that a path names under a route: a dot, the route's root, the
/// path. It is relative to the working directory.
pub open spec fn resolved_path(route: Route, path: Seq<char>) -> Seq<char> {
    seq!['.'] + root_of(route) + path
}

/// The file that a path names under a route.
pub fn add_root_to_path(route: &Route, path: &str) -> (r: String)
    ensures
        r@ == resolved_path(*route, path@),
{
    proof {
        reveal_strlit(".");
    }
    let mut out = String::from_str(".");
    assert(out@ =~= seq!['.']);
    if let Some(settings) = &route.settings {
        if let Some(root) = settings.root_path {
            out.append(root);
        }
    }
    assert(out@ =~= seq!['.'] + root_of(*route));
    out.append(path);
    out
}

} // verus!
