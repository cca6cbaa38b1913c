//! Searching, splitting and trimming of sequences, with the executable
//! counterparts on vectors of characters that the rest of the crate builds on.
//!
//! Text is modelled as `Seq<char>` (the view of `str` and `String`); a piece of
//! a text is named by a pair of positions `(start, end)` in it.
use vstd::prelude::*;
use vstd::string::*;

verus! {

/// `pat` occurs in `s` at position `i`.
pub open spec fn has_at<T>(s: Seq<T>, pat: Seq<T>, i: int) -> bool {
    0 <= i && i + pat.len() <= s.len() && s.subrange(i, i + pat.len()) == pat
}

/// The least position at or after `from` where `pat` occurs in `s`, or -1.
pub open spec fn find_from<T>(s: Seq<T>, pat: Seq<T>, from: int) -> int
    decreases s.len() - from,
{
    if from < 0 || from + pat.len() > s.len() {
        -1
    } else if has_at(s, pat, from) || from >= s.len() {
        from
    } else {
        find_from(s, pat, from + 1)
    }
}

/// `pat` occurs somewhere in `s`.
pub open spec fn contains_seq<T>(s: Seq<T>, pat: Seq<T>) -> bool {
    find_from(s, pat, 0) >= 0
}

/// `pat` is a prefix of `s`.
pub open spec fn starts_with<T>(s: Seq<T>, pat: Seq<T>) -> bool {
    has_at(s, pat, 0)
}

/// The pieces of `s` from position `from` on, cut at each leftmost occurrence
/// of the non-empty separator `pat`; occurrences do not overlap. There is
/// always at least one piece.
pub open spec fn split_ranges<T>(s: Seq<T>, pat: Seq<T>, from: int) -> Seq<(int, int)>
    decreases s.len() - from,
{
    let i = find_from(s, pat, from);
    if i < from || pat.len() == 0 || from < 0 || i + pat.len() > s.len() {
        seq![(from, s.len() as int)]
    } else {
        seq![(from, i)] + split_ranges(s, pat, i + pat.len())
    }
}

/// The text of each piece of `ranges` in `s`.
pub open spec fn pieces<T>(s: Seq<T>, ranges: Seq<(int, int)>) -> Seq<Seq<T>> {
    Seq::new(ranges.len(), |k: int| s.subrange(ranges[k].0, ranges[k].1))
}

/// `s` split at the separator `pat`, as `str::split` does.
pub open spec fn split<T>(s: Seq<T>, pat: Seq<T>) -> Seq<Seq<T>> {
    pieces(s, split_ranges(s, pat, 0))
}

/// White space as `char::is_whitespace` defines it.
pub open spec fn is_space(c: char) -> bool {
    let u = c as u32;
    (0x09 <= u <= 0x0D) || u == 0x20 || u == 0x85 || u == 0xA0 || u == 0x1680 || (0x2000 <= u
        <= 0x200A) || u == 0x2028 || u == 0x2029 || u == 0x202F || u == 0x205F || u == 0x3000
}

/// The length of `s` once trailing white space is cut.
pub open spec fn trim_end_len(s: Seq<char>) -> int
    decreases s.len(),
{
    if s.len() > 0 && is_space(s.last()) {
        trim_end_len(s.drop_last())
    } else {
        s.len() as int
    }
}

/// `s` without trailing white space.
pub open spec fn trim_end(s: Seq<char>) -> Seq<char> {
    s.subrange(0, trim_end_len(s))
}

/// The length of `s` once every trailing `c` is cut.
pub open spec fn trim_end_char_len(s: Seq<char>, c: char) -> int
    decreases s.len(),
{
    if s.len() > 0 && s.last() == c {
        trim_end_char_len(s.drop_last(), c)
    } else {
        s.len() as int
    }
}

/// `s` without its trailing run of `c`.
pub open spec fn trim_end_char(s: Seq<char>, c: char) -> Seq<char> {
    s.subrange(0, trim_end_char_len(s, c))
}

/// The first position at or after `from` that holds no white space, or the
/// length of `s`.
pub open spec fn skip_space(s: Seq<char>, from: int) -> int
    decreases s.len() - from,
{
    if from < 0 || from >= s.len() {
        s.len() as int
    } else if is_space(s[from]) {
        skip_space(s, from + 1)
    } else {
        from
    }
}

/// The first position at or after `from` that holds white space, or the length
/// of `s`.
pub open spec fn skip_word(s: Seq<char>, from: int) -> int
    decreases s.len() - from,
{
    if from < 0 || from >= s.len() {
        s.len() as int
    } else if !is_space(s[from]) {
        skip_word(s, from + 1)
    } else {
        from
    }
}

/// The maximal runs without white space in `s` from `from` on, in order.
pub open spec fn word_ranges(s: Seq<char>, from: int) -> Seq<(int, int)>
    decreases s.len() - from,
{
    let a = skip_space(s, from);
    if from < 0 || a >= s.len() || skip_word(s, a) <= from || skip_word(s, a) > s.len() {
        Seq::empty()
    } else {
        seq![(a, skip_word(s, a))] + word_ranges(s, skip_word(s, a))
    }
}

/// The words of `s`, as `str::split_whitespace` gives them.
pub open spec fn words(s: Seq<char>) -> Seq<Seq<char>> {
    pieces(s, word_ranges(s, 0))
}

/// The last position of `c` in `s`, or -1.
pub open spec fn last_index_of(s: Seq<char>, c: char) -> int
    decreases s.len(),
{
    if s.len() == 0 {
        -1
    } else if s.last() == c {
        s.len() - 1
    } else {
        last_index_of(s.drop_last(), c)
    }
}

/// The lower-case form of an ASCII capital; any other character is unchanged.
pub open spec fn lower_char(c: char) -> char {
    if 'A' <= c <= 'Z' {
        ((c as u8) + 32) as char
    } else {
        c
    }
}

/// `s` with each ASCII capital in lower case.
pub open spec fn lower(s: Seq<char>) -> Seq<char> {
    Seq::new(s.len(), |i: int| lower_char(s[i]))
}

/// Where `find_from` finds something, the pattern occurs there, at or after
/// `from`.
pub proof fn lemma_find_from_bounds<T>(s: Seq<T>, pat: Seq<T>, from: int)
    ensures
        find_from(s, pat, from) == -1 || (from <= find_from(s, pat, from) && has_at(
            s,
            pat,
            find_from(s, pat, from),
        )),
        find_from(s, pat, from) >= 0 ==> from >= 0,
    decreases s.len() - from,
{
    if from < 0 || from + pat.len() > s.len() {
    } else if has_at(s, pat, from) {
    } else if from >= s.len() {
        assert(s.subrange(from, from + pat.len()) =~= pat);
    } else {
        lemma_find_from_bounds(s, pat, from + 1);
    }
}

/// Nothing occurs between `from` and the position that `find_from` gives.
pub proof fn lemma_find_from_least<T>(s: Seq<T>, pat: Seq<T>, from: int, j: int)
    requires
        0 <= from <= j,
        has_at(s, pat, j),
    ensures
        0 <= find_from(s, pat, from) <= j,
    decreases j - from,
{
    if has_at(s, pat, from) {
    } else {
        lemma_find_from_least(s, pat, from + 1, j);
    }
}

/// `skip_space` and `skip_word` stay within the text and move forward.
proof fn lemma_skip_bounds(s: Seq<char>, from: int)
    requires
        0 <= from <= s.len(),
    ensures
        from <= skip_space(s, from) <= s.len(),
        from <= skip_word(s, from) <= s.len(),
        skip_space(s, from) < s.len() ==> !is_space(s[skip_space(s, from)]),
        from < s.len() && !is_space(s[from]) ==> from < skip_word(s, from),
    decreases s.len() - from,
{
    if from < s.len() {
        lemma_skip_bounds(s, from + 1);
    }
}

/// The characters of a string slice, in order.
pub fn chars_of(s: &str) -> (v: Vec<char>)
    ensures
        v@ == s@,
{
    let mut v: Vec<char> = Vec::new();
    for c in it: s.chars()
        invariant
            it.seq() == s@,
            v@ == it.seq().subrange(0, it.index() as int),
    {
        v.push(c);
    }
    v
}

/// Whether `c` is white space.
pub fn space(c: char) -> (r: bool)
    ensures
        r == is_space(c),
{
    let u: u32 = c as u32;
    (0x09 <= u && u <= 0x0D) || u == 0x20 || u == 0x85 || u == 0xA0 || u == 0x1680 || (0x2000 <= u
        && u <= 0x200A) || u == 0x2028 || u == 0x2029 || u == 0x202F || u == 0x205F || u == 0x3000
}

/// Whether `pat` occurs in `v` at position `i`.
pub fn occurs_at(v: &Vec<char>, pat: &Vec<char>, i: usize) -> (r: bool)
    ensures
        r == has_at(v@, pat@, i as int),
{
    if pat.len() > v.len() || i > v.len() - pat.len() {
        return false;
    }
    let mut k: usize = 0;
    while k < pat.len()
        invariant
            k <= pat.len(),
            i + pat.len() <= v.len(),
            forall|j: int| 0 <= j < k ==> v@[i + j] == pat@[j],
        decreases pat.len() - k,
    {
        if v[i + k] != pat[k] {
            assert(v@.subrange(i as int, i + pat.len())[k as int] == v@[i + k]);
            return false;
        }
        k += 1;
    }
    assert(v@.subrange(i as int, i + pat.len()) =~= pat@);
    true
}

/// The least position at or after `from` where `pat` occurs in `v`.
pub fn find(v: &Vec<char>, pat: &Vec<char>, from: usize) -> (r: Option<usize>)
    ensures
        match r {
            Some(i) => i as int == find_from(v@, pat@, from as int),
            None => find_from(v@, pat@, from as int) == -1,
        },
{
    if pat.len() > v.len() || from > v.len() - pat.len() {
        return None;
    }
    let last: usize = v.len() - pat.len();
    let mut i: usize = from;
    while i < last
        invariant
            from <= i <= last,
            last + pat.len() == v.len(),
            find_from(v@, pat@, from as int) == find_from(v@, pat@, i as int),
        decreases last - i,
    {
        if occurs_at(v, pat, i) {
            return Some(i);
        }
        i += 1;
    }
    if occurs_at(v, pat, i) {
        Some(i)
    } else {
        assert(pat.len() == 0 ==> v@.subrange(i as int, i + pat.len()) =~= pat@);
        assert(find_from(v@, pat@, i + 1) == -1);
        None
    }
}

/// Whether `pat` occurs in `v`.
pub fn contains(v: &Vec<char>, pat: &Vec<char>) -> (r: bool)
    ensures
        r == contains_seq(v@, pat@),
{
    find(v, pat, 0).is_some()
}

/// The pieces of `v` between the occurrences of the separator `pat`.
pub fn split_at_each(v: &Vec<char>, pat: &Vec<char>) -> (r: Vec<(usize, usize)>)
    ensures
        ranges_view(r@) == split_ranges(v@, pat@, 0),
        r@.len() >= 1,
        ranges_within(r@, v@.len() as int),
{
    let mut out: Vec<(usize, usize)> = Vec::new();
    let mut from: usize = 0;
    if pat.len() == 0 {
        out.push((0, v.len()));
        assert(ranges_view(out@) =~= split_ranges(v@, pat@, 0));
        return out;
    }
    loop
        invariant
            pat.len() > 0,
            from <= v.len(),
            ranges_within(out@, v@.len() as int),
            split_ranges(v@, pat@, 0) == ranges_view(out@) + split_ranges(v@, pat@, from as int),
        decreases v.len() - from,
    {
        proof {
            lemma_find_from_bounds(v@, pat@, from as int);
        }
        match find(v, pat, from) {
            Some(i) => {
                out.push((from, i));
                assert(ranges_view(out@) =~= ranges_view(out@.drop_last()) + seq![
                    (from as int, i as int),
                ]);
                from = i + pat.len();
            },
            None => {
                out.push((from, v.len()));
                assert(ranges_view(out@) =~= ranges_view(out@.drop_last()) + seq![
                    (from as int, v.len() as int),
                ]);
                return out;
            },
        }
    }
}

/// Executable ranges as mathematical ones.
pub open spec fn ranges_view(r: Seq<(usize, usize)>) -> Seq<(int, int)> {
    Seq::new(r.len(), |k: int| (r[k].0 as int, r[k].1 as int))
}

/// Each range lies within a text of length `n`.
pub open spec fn ranges_within(r: Seq<(usize, usize)>, n: int) -> bool {
    forall|k: int| 0 <= k < r.len() ==> (#[trigger] r[k]).0 <= r[k].1 <= n
}

/// The maximal runs without white space in `v`.
pub fn word_ranges_of(v: &Vec<char>) -> (r: Vec<(usize, usize)>)
    ensures
        ranges_view(r@) == word_ranges(v@, 0),
        ranges_within(r@, v@.len() as int),
{
    let mut out: Vec<(usize, usize)> = Vec::new();
    let mut from: usize = 0;
    loop
        invariant
            from <= v.len(),
            ranges_within(out@, v@.len() as int),
            word_ranges(v@, 0) == ranges_view(out@) + word_ranges(v@, from as int),
        decreases v.len() - from,
    {
        let mut a: usize = from;
        while a < v.len() && space(v[a])
            invariant
                from <= a <= v.len(),
                skip_space(v@, from as int) == skip_space(v@, a as int),
            decreases v.len() - a,
        {
            a += 1;
        }
        if a >= v.len() {
            assert(ranges_view(out@) + Seq::<(int, int)>::empty() =~= ranges_view(out@));
            return out;
        }
        let mut b: usize = a;
        while b < v.len() && !space(v[b])
            invariant
                a <= b <= v.len(),
                skip_word(v@, a as int) == skip_word(v@, b as int),
            decreases v.len() - b,
        {
            b += 1;
        }
        proof {
            lemma_skip_bounds(v@, a as int);
        }
        out.push((a, b));
        assert(ranges_view(out@) =~= ranges_view(out@.drop_last()) + seq![(a as int, b as int)]);
        from = b;
    }
}

/// The length of `v[..end]` without trailing white space.
pub fn trim_end_to(v: &Vec<char>, end: usize) -> (r: usize)
    requires
        end <= v.len(),
    ensures
        r as int == trim_end_len(v@.subrange(0, end as int)),
        r <= end,
{
    let mut n: usize = end;
    while n > 0 && space(v[n - 1])
        invariant
            n <= end <= v.len(),
            trim_end_len(v@.subrange(0, end as int)) == trim_end_len(v@.subrange(0, n as int)),
        decreases n,
    {
        assert(v@.subrange(0, n as int).drop_last() =~= v@.subrange(0, n - 1));
        n -= 1;
    }
    n
}

/// The length of `v[..end]` without its trailing run of `c`.
pub fn trim_end_char_to(v: &Vec<char>, end: usize, c: char) -> (r: usize)
    requires
        end <= v.len(),
    ensures
        r as int == trim_end_char_len(v@.subrange(0, end as int), c),
        r <= end,
{
    let mut n: usize = end;
    while n > 0 && v[n - 1] == c
        invariant
            n <= end <= v.len(),
            trim_end_char_len(v@.subrange(0, end as int), c) == trim_end_char_len(
                v@.subrange(0, n as int),
                c,
            ),
        decreases n,
    {
        assert(v@.subrange(0, n as int).drop_last() =~= v@.subrange(0, n - 1));
        n -= 1;
    }
    n
}

/// The last position of `c` in `v`.
pub fn rfind_char(v: &Vec<char>, c: char) -> (r: Option<usize>)
    ensures
        match r {
            Some(i) => i as int == last_index_of(v@, c) && i < v@.len() && v@[i as int] == c,
            None => last_index_of(v@, c) == -1,
        },
{
    let mut n: usize = v.len();
    assert(v@.subrange(0, n as int) =~= v@);
    while n > 0
        invariant
            n <= v.len(),
            last_index_of(v@, c) == last_index_of(v@.subrange(0, n as int), c),
        decreases n,
    {
        if v[n - 1] == c {
            return Some(n - 1);
        }
        assert(v@.subrange(0, n as int).drop_last() =~= v@.subrange(0, n - 1));
        n -= 1;
    }
    assert(v@.subrange(0, 0) =~= Seq::<char>::empty());
    None
}

/// A copy of the characters of `v` from `a` up to `b`.
pub fn slice_chars(v: &Vec<char>, a: usize, b: usize) -> (r: Vec<char>)
    requires
        a <= b <= v.len(),
    ensures
        r@ == v@.subrange(a as int, b as int),
{
    let mut out: Vec<char> = Vec::new();
    let mut i: usize = a;
    while i < b
        invariant
            a <= i <= b <= v.len(),
            out@ == v@.subrange(a as int, i as int),
        decreases b - i,
    {
        out.push(v[i]);
        assert(out@ =~= v@.subrange(a as int, i + 1));
        i += 1;
    }
    out
}

/// The members of `s` in which `pat` does not occur, in order.
pub open spec fn without<T>(s: Seq<Seq<T>>, pat: Seq<T>) -> Seq<Seq<T>>
    decreases s.len(),
{
    if s.len() == 0 {
        Seq::empty()
    } else if !contains_seq(s.last(), pat) {
        without(s.drop_last(), pat).push(s.last())
    } else {
        without(s.drop_last(), pat)
    }
}

/// The position of the first member of `s` at or after `from` in which `pat`
/// occurs, or -1.
pub open spec fn first_containing<T>(s: Seq<Seq<T>>, pat: Seq<T>, from: int) -> int
    decreases s.len() - from,
{
    if from < 0 || from >= s.len() {
        -1
    } else if contains_seq(s[from], pat) {
        from
    } else {
        first_containing(s, pat, from + 1)
    }
}

/// The views of a sequence of string slices.
pub open spec fn strs_view(v: Seq<&str>) -> Seq<Seq<char>> {
    Seq::new(v.len(), |i: int| v[i]@)
}

/// Whether two string slices hold the same text.
pub fn same_text(a: &str, b: &str) -> (r: bool)
    ensures
        r == (a@ == b@),
{
    let x = chars_of(a);
    let y = chars_of(b);
    same_chars(&x, &y)
}

/// Whether two vectors hold the same characters.
pub fn same_chars(x: &Vec<char>, y: &Vec<char>) -> (r: bool)
    ensures
        r == (x@ == y@),
{
    if x.len() != y.len() {
        return false;
    }
    let mut i: usize = 0;
    while i < x.len()
        invariant
            x.len() == y.len(),
            i <= x.len(),
            forall|j: int| 0 <= j < i ==> x@[j] == y@[j],
        decreases x.len() - i,
    {
        if x[i] != y[i] {
            return false;
        }
        i += 1;
    }
    assert(x@ =~= y@);
    true
}

} // verus!
