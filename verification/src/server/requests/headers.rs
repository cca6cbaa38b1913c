//! The header lines of a request head.
use crate::headers::{first_value, shown, visible, Headers};
use crate::server::requests::utils::{crlf, crlf_chars};
use crate::text::{
    chars_of, contains, pieces, ranges_view, ranges_within, same_text, slice_chars, split,
    split_at_each, split_ranges, strs_view, trim_end, trim_end_char, trim_end_char_to, trim_end_to,
    without,
};
use vstd::prelude::*;
use vstd::string::*;

verus! {

/// The blank line that ends a head.
pub open spec fn crlf_crlf() -> Seq<char> {
    seq!['\r', '\n', '\r', '\n']
}

/// The head proper: `req` without trailing line feeds and white space, up to
/// its first blank line, without trailing white space.
pub open spec fn head_of(req: Seq<char>) -> Seq<char> {
    trim_end(split(trim_end(trim_end_char(req, '\n')), crlf_crlf())[0])
}

/// The header lines of a request head: its lines, but those that hold
/// `HTTP/`, which is how the request line is told.
pub open spec fn header_lines(req: Seq<char>) -> Seq<Seq<char>> {
    without(split(head_of(req), crlf()), "HTTP/"@)
}

/// The text of a header line that counts: without trailing NUL characters
/// and white space.
pub open spec fn header_text(header: Seq<char>) -> Seq<char> {
    trim_end(trim_end_char(header, '\0'))
}

/// Name and value of a header line: the two parts around its `: `, where
/// there are exactly two.
pub open spec fn header_parts(header: Seq<char>) -> Option<(Seq<char>, Seq<char>)> {
    let parts = split(header_text(header), ": "@);
    if parts.len() == 2 {
        Some((parts[0], parts[1]))
    } else {
        None
    }
}

/// The view of a pair of string slices.
pub open spec fn pair_view(p: Option<(&str, &str)>) -> Option<(Seq<char>, Seq<char>)> {
    match p {
        Some((k, v)) => Some((k@, v@)),
        None => None,
    }
}

/// The header lines of a request head.
pub fn get_headers(req: &str) -> (r: Vec<&str>)
    ensures
        strs_view(r@) == header_lines(req@),
{
    let mut v = chars_of(req);
    // Remove the body from the request
    assert(v@.subrange(0, v.len() as int) =~= v@);
    let n1 = trim_end_char_to(&v, v.len(), '\n');
    v.truncate(n1);
    assert(v@.subrange(0, v.len() as int) =~= v@);
    let n2 = trim_end_to(&v, v.len());
    v.truncate(n2);
    assert(v@ == trim_end(trim_end_char(req@, '\n')));
    let mut blank = crlf_chars();
    blank.push('\r');
    blank.push('\n');
    assert(blank@ =~= crlf_crlf());
    let parts = split_at_each(&v, &blank);
    let (h0, h1) = parts[0];
    assert(ranges_view(parts@)[0] == (h0 as int, h1 as int));
    assert(h0 == 0) by {
        assert(split_ranges(v@, blank@, 0)[0].0 == 0);
    }
    v.truncate(h1);
    assert(v@ == split(trim_end(trim_end_char(req@, '\n')), crlf_crlf())[0]);
    assert(v@.subrange(0, v.len() as int) =~= v@);
    let n3 = trim_end_to(&v, v.len());
    v.truncate(n3);
    assert(v@ == head_of(req@));
    assert(v@ =~= req@.subrange(0, n3 as int));
    let sep = crlf_chars();
    let ranges = split_at_each(&v, &sep);
    let pat = chars_of("HTTP/");
    let ghost all = split(head_of(req@), crlf());
    let mut out: Vec<&str> = Vec::new();
    let mut i: usize = 0;
    assert(all.subrange(0, 0) =~= Seq::<Seq<char>>::empty());
    assert(strs_view(out@) =~= Seq::<Seq<char>>::empty());
    while i < ranges.len()
        invariant
            i <= ranges.len(),
            v@ == head_of(req@),
            v@ == req@.subrange(0, n3 as int),
            n3 <= req@.len(),
            pat@ == "HTTP/"@,
            all == split(head_of(req@), crlf()),
            all == pieces(v@, ranges_view(ranges@)),
            ranges_within(ranges@, v@.len() as int),
            strs_view(out@) == without(all.subrange(0, i as int), pat@),
        decreases ranges.len() - i,
    {
        let (a, b) = ranges[i];
        assert(ranges_view(ranges@)[i as int] == (a as int, b as int));
        let line = slice_chars(&v, a, b);
        assert(all[i as int] == line@);
        assert(all.subrange(0, i + 1).drop_last() =~= all.subrange(0, i as int));
        assert(all.subrange(0, i + 1).last() == all[i as int]);
        if !contains(&line, &pat) {
            let piece = req.substring_char(a, b);
            assert(piece@ =~= line@);
            let ghost before = strs_view(out@);
            out.push(piece);
            assert(strs_view(out@) =~= before.push(line@));
        }
        i += 1;
    }
    assert(all.subrange(0, ranges.len() as int) =~= all);
    out
}

/// Whether there are headers and they ask for a chunked body.
pub fn is_chunked(headers: Option<&Headers>) -> (r: bool)
    ensures
        r == chunked(headers),
{
    proof {
        crate::headers::lemma_written_names();
        reveal_strlit("chunked");
    }
    match headers {
        None => false,
        Some(h) => match h.get("transfer-encoding") {
            Some(value) => {
                let chars = chars_of(value);
                if visible(&chars) {
                    same_text(value, "chunked")
                } else {
                    assert("chunked"@.len() == 7);
                    assert(shown(value@).len() == 0);
                    false
                }
            },
            None => false,
        },
    }
}

/// Whether the first `transfer-encoding` header among `h` says `chunked`.
pub open spec fn chunked_in(h: Seq<(Seq<char>, Seq<char>)>) -> bool {
    match first_value(h, "transfer-encoding"@) {
        Some(value) => shown(value) == "chunked"@,
        None => false,
    }
}

/// Whether there are headers and they ask for a chunked body.
pub open spec fn chunked(headers: Option<&Headers>) -> bool {
    match headers {
        None => false,
        Some(h) => chunked_in(h@),
    }
}

/// Name and value of a header line.
pub fn format_header(header: &str) -> (r: Option<(&str, &str)>)
    ensures
        pair_view(r) == header_parts(header@),
{
    let mut v = chars_of(header);
    assert(v@.subrange(0, v.len() as int) =~= v@);
    let n1 = trim_end_char_to(&v, v.len(), '\0');
    v.truncate(n1);
    assert(v@.subrange(0, v.len() as int) =~= v@);
    let n2 = trim_end_to(&v, v.len());
    v.truncate(n2);
    assert(v@ == header_text(header@));
    assert(v@ =~= header@.subrange(0, n2 as int));
    let sep = chars_of(": ");
    let key_value = split_at_each(&v, &sep);
    if key_value.len() == 2 {
        let (a0, b0) = key_value[0];
        let (a1, b1) = key_value[1];
        assert(ranges_view(key_value@)[0] == (a0 as int, b0 as int));
        assert(ranges_view(key_value@)[1] == (a1 as int, b1 as int));
        let k = header.substring_char(a0, b0);
        let val = header.substring_char(a1, b1);
        assert(k@ =~= v@.subrange(a0 as int, b0 as int));
        assert(val@ =~= v@.subrange(a1 as int, b1 as int));
        Some((k, val))
    } else {
        None
    }
}

} // verus!
