//! Lines and words of a request head.
use crate::text::{
    chars_of, ranges_view, split, split_at_each, trim_end_char, trim_end_char_to, word_ranges_of,
    words,
};
use vstd::prelude::*;
use vstd::string::*;

verus! {

/// Carriage return and line feed.
pub open spec fn crlf() -> Seq<char> {
    seq!['\r', '\n']
}

/// The lines of `s`: the text without trailing NUL characters, split at each
/// CR LF. There is always a first line.
pub open spec fn lines_of(s: Seq<char>) -> Seq<Seq<char>> {
    split(trim_end_char(s, '\0'), crlf())
}

/// The line of `s` at `index`, or the first line where there is none.
pub open spec fn line_at(s: Seq<char>, index: nat) -> Seq<char> {
    let lines = lines_of(s);
    if index < lines.len() {
        lines[index as int]
    } else {
        lines[0]
    }
}

/// The word of `s` at `index`, or the first word where there is none; the
/// empty text where `s` has no word.
pub open spec fn word_at(s: Seq<char>, index: nat) -> Seq<char> {
    let w = words(s);
    if w.len() == 0 {
        Seq::empty()
    } else if index < w.len() {
        w[index as int]
    } else {
        w[0]
    }
}

/// Carriage return and line feed, as characters.
pub fn crlf_chars() -> (r: Vec<char>)
    ensures
        r@ == crlf(),
{
    let mut r: Vec<char> = Vec::new();
    r.push('\r');
    r.push('\n');
    assert(r@ =~= crlf());
    r
}

/// `get_split_index` gets the word at `index` after splitting at white space.
pub fn get_split_index(str: &str, index: usize) -> (r: &str)
    ensures
        r@ == word_at(str@, index as nat),
{
    let v = chars_of(str);
    let ranges = word_ranges_of(&v);
    if ranges.len() == 0 {
        let r = str.substring_char(0, 0);
        assert(r@ =~= Seq::<char>::empty());
        r
    } else {
        let k = if index >= ranges.len() {
            0
        } else {
            index
        };
        let (a, b) = ranges[k];
        assert(ranges_view(ranges@)[k as int] == (a as int, b as int));
        str.substring_char(a, b)
    }
}

/// `get_line` gets the line at `index` after splitting at CR LF.
pub fn get_line(str: &str, index: usize) -> (r: &str)
    ensures
        r@ == line_at(str@, index as nat),
{
    let mut v = chars_of(str);
    let n = trim_end_char_to(&v, v.len(), '\0');
    assert(v@.subrange(0, v.len() as int) =~= v@);
    v.truncate(n);
    assert(v@ == trim_end_char(str@, '\0'));
    let sep = crlf_chars();
    let ranges = split_at_each(&v, &sep);
    let k = if index < ranges.len() {
        index
    } else {
        0
    };
    let (a, b) = ranges[k];
    assert(ranges_view(ranges@)[k as int] == (a as int, b as int));
    let r = str.substring_char(a, b);
    assert(r@ =~= v@.subrange(a as int, b as int));
    r
}

} // verus!
