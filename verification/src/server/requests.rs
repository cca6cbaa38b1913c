//! From the raw head and body of a request to a typed request.
pub mod body;
pub mod headers;
pub mod path;
pub mod utils;
pub mod version;

use crate::headers::{is_header_name, is_header_value, lemma_lower_twice, to_lower, Headers};
use crate::message::{uri_of, Request, RequestView, Uri};
use crate::server::methods::{get_method, method_token};
use crate::server::requests::body::{
    chunked_decode, get_body, get_chunked_body, lemma_decode_within_limit,
};
use crate::server::requests::headers::{
    chunked_in, format_header, get_headers, header_lines, header_parts, is_chunked,
};
use crate::server::requests::path::{get_path, target_of};
use crate::server::requests::version::{get_version, version_of};
use crate::server_config::ServerConfig;
use crate::status::{is_token, string_of, StatusCode};
use crate::text::{chars_of, lower, strs_view};
use crate::type_aliases::Bytes;
use vstd::prelude::*;
use vstd::string::*;

verus! {

/// The headers that a sequence of header lines gives: one for each line that
/// has a name and a value, both in lower case, in the order of the lines.
pub open spec fn header_pairs(lines: Seq<Seq<char>>) -> Seq<(Seq<char>, Seq<char>)>
    decreases lines.len(),
{
    if lines.len() == 0 {
        Seq::empty()
    } else {
        match header_parts(lines.last()) {
            Some((k, v)) => header_pairs(lines.drop_last()).push((lower(k), lower(v))),
            None => header_pairs(lines.drop_last()),
        }
    }
}

/// Every name is a header name and every value a header value.
pub open spec fn pairs_valid(pairs: Seq<(Seq<char>, Seq<char>)>) -> bool {
    forall|i: int|
        0 <= i < pairs.len() ==> is_header_name((#[trigger] pairs[i]).0) && is_header_value(
            pairs[i].1,
        )
}

/// The request that a head and the bytes after it stand for.
///
/// The version is read first, then the method; either may fail. The body is
/// decoded from chunks where the target and all headers are sound and the
/// headers ask for it; else it is the bytes as they are, at most `limit` of
/// them. Only then does an unsound target or header make the request bad.
pub open spec fn request_of(head: Seq<char>, body: Seq<u8>, limit: nat) -> Result<
    RequestView,
    StatusCode,
> {
    let pairs = header_pairs(header_lines(head));
    let uri = uri_of(target_of(head));
    let sound = uri.is_some() && pairs_valid(pairs);
    let payload = if sound && chunked_in(pairs) {
        chunked_decode(body, limit)
    } else if body.len() <= limit {
        Ok(body)
    } else {
        Err(StatusCode::payload_too_large())
    };
    match version_of(head) {
        Err(e) => Err(e),
        Ok(version) => if !is_token(method_token(head)) {
            Err(StatusCode::bad_request())
        } else {
            match payload {
                Err(e) => Err(e),
                Ok(b) => if !sound {
                    Err(StatusCode::bad_request())
                } else {
                    Ok(
                        RequestView {
                            method: method_token(head),
                            uri: uri.unwrap(),
                            version,
                            headers: pairs,
                            body: b,
                        },
                    )
                },
            }
        },
    }
}

/// The view of a request or the status that took its place.
pub open spec fn request_view(r: Result<Request, StatusCode>) -> Result<RequestView, StatusCode> {
    match r {
        Ok(req) => Ok(req@),
        Err(e) => Err(e),
    }
}

/// The body of a request that is accepted is never longer than the limit.
pub proof fn lemma_body_within_limit(head: Seq<char>, body: Seq<u8>, limit: nat)
    ensures
        request_of(head, body, limit).is_ok() ==> request_of(head, body, limit).unwrap().body.len()
            <= limit,
{
    lemma_decode_within_limit(body, 0, Seq::empty(), limit);
}

/// A request with a sound request line whose body is longer than the limit
/// is refused: with 413 where the body is taken as it is; where it comes in
/// chunks, with 413 or, where the chunks are malformed, 400, unless what the
/// chunks hold is within the limit.
pub proof fn lemma_oversized_body(head: Seq<char>, body: Seq<u8>, limit: nat)
    requires
        version_of(head).is_ok(),
        is_token(method_token(head)),
        body.len() > limit,
    ensures
        !(uri_of(target_of(head)).is_some() && pairs_valid(header_pairs(header_lines(head)))
            && chunked_in(header_pairs(header_lines(head)))) ==> request_of(head, body, limit)
            == Err::<RequestView, StatusCode>(StatusCode::payload_too_large()),
        match request_of(head, body, limit) {
            Ok(r) => r.body.len() <= limit && chunked_in(r.headers),
            Err(e) => e == StatusCode::payload_too_large() || e == StatusCode::bad_request(),
        },
{
    lemma_decode_within_limit(body, 0, Seq::empty(), limit);
}

/// A copy of `s` in lower case.
pub fn lower_string(s: &str) -> (r: String)
    ensures
        r@ == lower(s@),
{
    let v = to_lower(&chars_of(s));
    string_of(&v)
}

/// The headers of a request head, and whether all of them are sound. Where
/// they are not, the headers returned are those before the first unsound
/// one.
pub fn collect_headers(head: &str) -> (r: (Headers, bool))
    ensures
        r.1 == pairs_valid(header_pairs(header_lines(head@))),
        r.1 ==> r.0@ == header_pairs(header_lines(head@)),
        r.0.wf(),
{
    let lines = get_headers(head);
    let ghost all = header_lines(head@);
    let mut headers = Headers::new();
    let mut sound = true;
    let mut i: usize = 0;
    assert(all.subrange(0, 0) =~= Seq::<Seq<char>>::empty());
    while i < lines.len()
        invariant
            i <= lines.len(),
            strs_view(lines@) == all,
            headers.wf(),
            sound == pairs_valid(header_pairs(all.subrange(0, i as int))),
            sound ==> headers@ == header_pairs(all.subrange(0, i as int)),
        decreases lines.len() - i,
    {
        let ghost before = header_pairs(all.subrange(0, i as int));
        assert(all.subrange(0, i + 1).drop_last() =~= all.subrange(0, i as int));
        assert(all.subrange(0, i + 1).last() == lines@[i as int]@);
        if let Some((key, value)) = format_header(lines[i]) {
            let k = lower_string(key);
            let v = lower_string(value);
            proof {
                lemma_lower_twice(key@);
            }
            let ghost after = before.push((lower(key@), lower(value@)));
            assert(header_pairs(all.subrange(0, i + 1)) == after);
            assert(after[after.len() - 1] == (lower(key@), lower(value@)));
            if sound {
                let ok = headers.append(k.as_str(), v.as_str());
                if !ok {
                    sound = false;
                } else {
                    assert(pairs_valid(after)) by {
                        assert forall|j: int| 0 <= j < after.len() implies is_header_name(
                            (#[trigger] after[j]).0,
                        ) && is_header_value(after[j].1) by {
                            if j < before.len() {
                                assert(after[j] == before[j]);
                            }
                        }
                    }
                }
            } else {
                assert(!pairs_valid(after)) by {
                    if pairs_valid(after) {
                        assert forall|j: int| 0 <= j < before.len() implies is_header_name(
                            (#[trigger] before[j]).0,
                        ) && is_header_value(before[j].1) by {
                            assert(after[j] == before[j]);
                        }
                    }
                }
            }
        } else {
            assert(header_pairs(all.subrange(0, i + 1)) == before);
        }
        i += 1;
    }
    assert(all.subrange(0, lines.len() as int) =~= all);
    (headers, sound)
}

/// Reads a request from its head and the bytes after it.
pub fn get_request(conf: &ServerConfig, request_parts: (String, Bytes)) -> (r: Result<
    Request,
    StatusCode,
>)
    ensures
        request_view(r) == request_of(
            request_parts.0@,
            request_parts.1@,
            conf.body_size_limit as nat,
        ),
        r.is_ok() ==> r.unwrap().wf(),
{
    let head = request_parts.0.as_str();
    let body = request_parts.1;
    let version = get_version(head)?;
    let path = get_path(head);
    let method = get_method(head)?;

    // Constructing the request with parsed headers and body
    let uri = Uri::parse(path);
    let (headers, headers_sound) = collect_headers(head);
    let sound = uri.is_some() && headers_sound;

    let body = if sound && is_chunked(Some(&headers)) {
        get_chunked_body(body, conf.body_size_limit)?
    } else {
        get_body(body, conf.body_size_limit)?
    };

    match uri {
        Some(uri) => if headers_sound {
            Ok(Request { method, uri, version, headers, body })
        } else {
            Err(StatusCode::bad_request())
        },
        None => Err(StatusCode::bad_request()),
    }
}

} // verus!
