//! Reading single fields out of the text of a request, without taking the
//! whole request apart.
use crate::server::requests::utils::word_at;
use crate::text::{
    chars_of, contains, contains_seq, first_containing, pieces, ranges_view, ranges_within,
    slice_chars, split, split_at_each, strs_view, trim_end_char, trim_end_char_to, word_ranges_of,
};
use crate::type_aliases::Bytes;
use vstd::prelude::*;
use vstd::string::*;
use vstd::utf8::encode_utf8;

verus! {

/// Why a script gave no answer.
#[derive(Clone, Copy, Debug, PartialEq, Eq, Structural)]
pub enum CgiError {
    NotFound,
    BodyTooLarge,
    ExecutionError,
}

/// The bytes of a text.
pub fn to_bytes(str: &str) -> (r: Bytes)
    ensures
        r@ == encode_utf8(str@),
{
    str.as_bytes_vec()
}

/// The lines of a text: its pieces between line feeds.
pub open spec fn lines(req: Seq<char>) -> Seq<Seq<char>> {
    split(req, seq!['\n'])
}

/// The second word of each member of `lines` in which `pat` occurs (the
/// first word where a member has no second), in order.
pub open spec fn second_words(lines: Seq<Seq<char>>, pat: Seq<char>) -> Seq<Seq<char>>
    decreases lines.len(),
{
    if lines.len() == 0 {
        Seq::empty()
    } else if contains_seq(lines.last(), pat) {
        second_words(lines.drop_last(), pat).push(word_at(lines.last(), 1))
    } else {
        second_words(lines.drop_last(), pat)
    }
}

/// The views of an optional list of string slices.
pub open spec fn list_view(o: Option<Vec<&str>>) -> Option<Seq<Seq<char>>> {
    match o {
        Some(v) => Some(strs_view(v@)),
        None => None,
    }
}

/// The view of an optional string slice.
pub open spec fn slice_view(o: Option<&str>) -> Option<Seq<char>> {
    match o {
        Some(s) => Some(s@),
        None => None,
    }
}

/// The ranges of the lines of `v`.
fn line_ranges(v: &Vec<char>) -> (r: Vec<(usize, usize)>)
    ensures
        pieces(v@, ranges_view(r@)) == lines(v@),
        ranges_within(r@, v@.len() as int),
        r@.len() >= 1,
{
    let mut sep: Vec<char> = Vec::new();
    sep.push('\n');
    assert(sep@ =~= seq!['\n']);
    split_at_each(v, &sep)
}

/// The word at `index` of the piece of `req` from `a` up to `b`, or its first
/// word; the empty text where it has no word.
fn word_of<'a>(req: &'a str, v: &Vec<char>, a: usize, b: usize, index: usize) -> (r: &'a str)
    requires
        v@ == req@,
        a <= b <= v@.len(),
    ensures
        r@ == word_at(req@.subrange(a as int, b as int), index as nat),
{
    let line = slice_chars(v, a, b);
    let ranges = word_ranges_of(&line);
    if ranges.len() == 0 {
        let r = req.substring_char(a, a);
        assert(r@ =~= Seq::<char>::empty());
        r
    } else {
        let k = if index < ranges.len() {
            index
        } else {
            0
        };
        let (x, y) = ranges[k];
        assert(ranges_view(ranges@)[k as int] == (x as int, y as int));
        let r = req.substring_char(a + x, a + y);
        assert(r@ =~= line@.subrange(x as int, y as int));
        r
    }
}

/// The index of the first line of `v` in which `pat` occurs.
fn first_line_with(v: &Vec<char>, ranges: &Vec<(usize, usize)>, pat: &Vec<char>) -> (r: Option<
    usize,
>)
    requires
        ranges_within(ranges@, v@.len() as int),
    ensures
        match r {
            Some(i) => i < ranges@.len() && i as int == first_containing(
                pieces(v@, ranges_view(ranges@)),
                pat@,
                0,
            ),
            None => first_containing(pieces(v@, ranges_view(ranges@)), pat@, 0) == -1,
        },
{
    let ghost all = pieces(v@, ranges_view(ranges@));
    let mut i: usize = 0;
    while i < ranges.len()
        invariant
            i <= ranges.len(),
            all == pieces(v@, ranges_view(ranges@)),
            ranges_within(ranges@, v@.len() as int),
            first_containing(all, pat@, 0) == first_containing(all, pat@, i as int),
        decreases ranges.len() - i,
    {
        let (a, b) = ranges[i];
        assert(ranges_view(ranges@)[i as int] == (a as int, b as int));
        let line = slice_chars(v, a, b);
        assert(all[i as int] == line@);
        if contains(&line, pat) {
            return Some(i);
        }
        i += 1;
    }
    None
}

/// `set_cookies` takes care of the `Set-Cookie` header: the second word of
/// each line that holds `Set-Cookie`, if there is such a line.
pub fn set_cookies(req: &str) -> (r: Option<Vec<&str>>)
    ensures
        list_view(r) == if second_words(lines(req@), "Set-Cookie"@).len() == 0 {
            None
        } else {
            Some(second_words(lines(req@), "Set-Cookie"@))
        },
{
    let v = chars_of(req);
    let ranges = line_ranges(&v);
    let pat = chars_of("Set-Cookie");
    let ghost all = lines(req@);
    let mut cookies: Vec<&str> = Vec::new();
    let mut i: usize = 0;
    assert(all.subrange(0, 0) =~= Seq::<Seq<char>>::empty());
    assert(strs_view(cookies@) =~= Seq::<Seq<char>>::empty());
    while i < ranges.len()
        invariant
            i <= ranges.len(),
            v@ == req@,
            pat@ == "Set-Cookie"@,
            all == pieces(v@, ranges_view(ranges@)),
            ranges_within(ranges@, v@.len() as int),
            strs_view(cookies@) == second_words(all.subrange(0, i as int), pat@),
        decreases ranges.len() - i,
    {
        let (a, b) = ranges[i];
        assert(ranges_view(ranges@)[i as int] == (a as int, b as int));
        let line = slice_chars(&v, a, b);
        assert(all[i as int] == line@);
        assert(all.subrange(0, i + 1).drop_last() =~= all.subrange(0, i as int));
        assert(all.subrange(0, i + 1).last() == all[i as int]);
        if contains(&line, &pat) {
            // "Set-Cookie: foo_bar=baz" -> "foo_bar=baz"
            let word = word_of(req, &v, a, b, 1);
            let ghost before = strs_view(cookies@);
            cookies.push(word);
            assert(strs_view(cookies@) =~= before.push(word@));
        }
        i += 1;
    }
    assert(all.subrange(0, ranges.len() as int) =~= all);
    if cookies.len() > 0 {
        Some(cookies)
    } else {
        None
    }
}

/// The parts of the first line that holds `Cookie`, cut at each semicolon.
pub open spec fn cookie_parts(req: Seq<char>) -> Option<Seq<Seq<char>>> {
    let i = first_containing(lines(req), "Cookie"@, 0);
    if i < 0 {
        None
    } else {
        Some(split(lines(req)[i], seq![';']))
    }
}

/// `get_cookies` takes care of the `Cookie` header
pub fn get_cookies(req: &str) -> (r: Option<Vec<&str>>)
    ensures
        list_view(r) == cookie_parts(req@),
{
    let v = chars_of(req);
    let ranges = line_ranges(&v);
    match first_line_with(&v, &ranges, &chars_of("Cookie")) {
        None => None,
        Some(i) => {
            let (a, b) = ranges[i];
            assert(ranges_view(ranges@)[i as int] == (a as int, b as int));
            let line = slice_chars(&v, a, b);
            let mut sep: Vec<char> = Vec::new();
            sep.push(';');
            assert(sep@ =~= seq![';']);
            let parts = split_at_each(&line, &sep);
            let ghost all = split(line@, seq![';']);
            let mut out: Vec<&str> = Vec::new();
            let mut k: usize = 0;
            assert(strs_view(out@) =~= all.subrange(0, 0));
            while k < parts.len()
                invariant
                    k <= parts.len(),
                    v@ == req@,
                    a <= b <= v@.len(),
                    line@ == v@.subrange(a as int, b as int),
                    all == pieces(line@, ranges_view(parts@)),
                    ranges_within(parts@, line@.len() as int),
                    strs_view(out@) == all.subrange(0, k as int),
                decreases parts.len() - k,
            {
                let (x, y) = parts[k];
                assert(ranges_view(parts@)[k as int] == (x as int, y as int));
                let piece = req.substring_char(a + x, a + y);
                assert(piece@ =~= line@.subrange(x as int, y as int));
                let ghost before = strs_view(out@);
                out.push(piece);
                assert(strs_view(out@) =~= before.push(piece@));
                assert(before.push(piece@) =~= all.subrange(0, k + 1));
                k += 1;
            }
            assert(all.subrange(0, parts.len() as int) =~= all);
            Some(out)
        },
    }
}

/// The second word of the first line that holds `name` (its first word where
/// it has no second).
pub open spec fn field_of(req: Seq<char>, name: Seq<char>) -> Option<Seq<char>> {
    let i = first_containing(lines(req), name, 0);
    if i < 0 {
        None
    } else {
        Some(word_at(lines(req)[i], 1))
    }
}

/// The second word of the first line that holds `name`.
fn get_field<'a>(req: &'a str, name: &str) -> (r: Option<&'a str>)
    ensures
        slice_view(r) == field_of(req@, name@),
{
    let v = chars_of(req);
    let ranges = line_ranges(&v);
    match first_line_with(&v, &ranges, &chars_of(name)) {
        None => None,
        Some(i) => {
            let (a, b) = ranges[i];
            assert(ranges_view(ranges@)[i as int] == (a as int, b as int));
            Some(word_of(req, &v, a, b, 1))
        },
    }
}

/// `get_content_length` gets the `Content-Length` header for state changing methods
pub fn get_content_length(req: &str) -> (r: Option<&str>)
    ensures
        slice_view(r) == field_of(req@, "Content-Length"@),
{
    // "Content-Length: 1337" -> "1337"
    get_field(req, "Content-Length")
}

/// `get_content_type` gets the `Content-Type` header for state changing methods
pub fn get_content_type(req: &str) -> (r: Option<&str>)
    ensures
        slice_view(r) == field_of(req@, "Content-Type"@),
{
    // "Content-Type: text/html" -> "text/html"
    get_field(req, "Content-Type")
}

/// What follows the last empty line of a request, NUL characters at the end
/// of the request apart.
pub open spec fn body_text(req: Seq<char>) -> Seq<char> {
    split(trim_end_char(req, '\0'), seq!['\n', '\n']).last()
}

/// The body of a request, unless it takes more than `limit` bytes.
pub fn get_body(req: &str, limit: usize) -> (r: Option<&str>)
    ensures
        slice_view(r) == if encode_utf8(body_text(req@)).len() <= limit {
            Some(body_text(req@))
        } else {
            None
        },
{
    let mut v = chars_of(req);
    assert(v@.subrange(0, v.len() as int) =~= v@);
    let n = trim_end_char_to(&v, v.len(), '\0');
    v.truncate(n);
    let mut sep: Vec<char> = Vec::new();
    sep.push('\n');
    sep.push('\n');
    assert(sep@ =~= seq!['\n', '\n']);
    let binding = split_at_each(&v, &sep);
    let (a, b) = binding[binding.len() - 1];
    assert(ranges_view(binding@)[binding.len() - 1] == (a as int, b as int));
    let body = req.substring_char(a, b);
    assert(body@ =~= v@.subrange(a as int, b as int));
    if body.as_bytes().len() <= limit {
        Some(body)
    } else {
        None
    }
}

} // verus!
