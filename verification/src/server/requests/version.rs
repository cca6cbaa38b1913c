//! The protocol version of a request.
use crate::status::{StatusCode, Version};
use crate::text::{
    chars_of, contains, first_containing, ranges_view, ranges_within, slice_chars, word_ranges,
    word_ranges_of, words,
};
use vstd::prelude::*;
use vstd::string::*;

verus! {

/// The version that a request head names: that of its first word that holds
/// `HTTP/`. Without such a word the request is bad; with one that names no
/// known version, the version is not supported.
pub open spec fn version_of(req: Seq<char>) -> Result<Version, StatusCode> {
    let w = words(req);
    let i = first_containing(w, "HTTP/"@, 0);
    if i < 0 {
        Err(StatusCode::bad_request())
    } else {
        match Version::parse(w[i]) {
            Some(v) => Ok(v),
            None => Err(StatusCode::http_version_not_supported()),
        }
    }
}

/// The version that a request head names.
pub fn get_version(req: &str) -> (r: Result<Version, StatusCode>)
    ensures
        r == version_of(req@),
{
    let v = chars_of(req);
    let ranges = word_ranges_of(&v);
    let pat = chars_of("HTTP/");
    let mut i: usize = 0;
    while i < ranges.len()
        invariant
            i <= ranges.len(),
            v@ == req@,
            pat@ == "HTTP/"@,
            ranges_view(ranges@) == word_ranges(v@, 0),
            ranges_within(ranges@, v@.len() as int),
            first_containing(words(req@), pat@, 0) == first_containing(
                words(req@),
                pat@,
                i as int,
            ),
        decreases ranges.len() - i,
    {
        let (a, b) = ranges[i];
        assert(ranges_view(ranges@)[i as int] == (a as int, b as int));
        let word = slice_chars(&v, a, b);
        assert(words(req@)[i as int] == word@);
        if contains(&word, &pat) {
            let text = req.substring_char(a, b);
            return match Version::from_text(text) {
                Some(version) => Ok(version),
                None => Err(StatusCode::http_version_not_supported()),
            };
        }
        i += 1;
    }
    Err(StatusCode::bad_request())
}

} // verus!
