//! The header list of a request or a response: name and value pairs in the
//! order in which they were added. Names are kept in lower case.
use crate::status::is_token;
use crate::text::{chars_of, lower, lower_char, same_chars};
use vstd::prelude::*;
use vstd::string::*;

verus! {

/// A header name: a token of at most 65535 characters.
pub open spec fn is_header_name(s: Seq<char>) -> bool {
    is_token(s) && s.len() <= 65535
}

/// A character that may stand in a header value: anything but a control
/// character, or a tab.
pub open spec fn is_value_char(c: char) -> bool {
    (c >= ' ' && c != '\x7f') || c == '\t'
}

/// A header value holds no control character but tabs.
pub open spec fn is_header_value(s: Seq<char>) -> bool {
    forall|i: int| 0 <= i < s.len() ==> is_value_char(#[trigger] s[i])
}

/// Visible ASCII, a space or a tab.
pub open spec fn is_visible_char(c: char) -> bool {
    (' ' <= c < '\x7f') || c == '\t'
}

/// A text of visible ASCII, spaces and tabs only.
pub open spec fn is_visible(s: Seq<char>) -> bool {
    forall|i: int| 0 <= i < s.len() ==> is_visible_char(#[trigger] s[i])
}

/// The value as the server reads and writes it: the value itself if it is
/// visible ASCII, else the empty text.
pub open spec fn shown(value: Seq<char>) -> Seq<char> {
    if is_visible(value) {
        value
    } else {
        Seq::empty()
    }
}

/// Calls `http::HeaderName::from_bytes`, which accepts a token of 1 to 65535
/// bytes and maps its capitals to lower case.
#[verifier::external_body]
fn http_header_name(name: &str) -> (r: Option<String>)
    ensures
        r.is_some() == is_header_name(name@),
        r.is_some() ==> r.unwrap()@ == lower(name@),
{
    match http::HeaderName::from_bytes(name.as_bytes()) {
        Ok(n) => Some(String::from(n.as_str())),
        Err(_) => None,
    }
}

/// Calls `http::HeaderValue::from_str`, which accepts a text unless it holds
/// a byte under 32 other than a tab, or the byte 127.
#[verifier::external_body]
fn http_header_value_ok(value: &str) -> (r: bool)
    ensures
        r == is_header_value(value@),
{
    http::HeaderValue::from_str(value).is_ok()
}

/// Whether a text is a header value.
pub fn is_value(value: &str) -> (r: bool)
    ensures
        r == is_header_value(value@),
{
    http_header_value_ok(value)
}

/// One header line.
#[derive(Clone, Debug, PartialEq, Eq)]
pub struct Header {
    pub name: String,
    pub value: String,
}

impl View for Header {
    type V = (Seq<char>, Seq<char>);

    open spec fn view(&self) -> (Seq<char>, Seq<char>) {
        (self.name@, self.value@)
    }
}

/// The headers of a message, in insertion order. Headers of one name are
/// not brought together, and their number is not bounded.
#[derive(Clone, Debug, PartialEq, Eq)]
pub struct Headers {
    pub entries: Vec<Header>,
}

impl View for Headers {
    type V = Seq<(Seq<char>, Seq<char>)>;

    open spec fn view(&self) -> Seq<(Seq<char>, Seq<char>)> {
        Seq::new(self.entries@.len(), |i: int| self.entries@[i]@)
    }
}

/// The position of the first header called `name`, or -1.
pub open spec fn index_of_name(h: Seq<(Seq<char>, Seq<char>)>, name: Seq<char>, from: int) -> int
    decreases h.len() - from,
{
    if from < 0 || from >= h.len() {
        -1
    } else if h[from].0 == name {
        from
    } else {
        index_of_name(h, name, from + 1)
    }
}

/// The value of the first header called `name`.
pub open spec fn first_value(h: Seq<(Seq<char>, Seq<char>)>, name: Seq<char>) -> Option<
    Seq<char>,
> {
    let i = index_of_name(h, name, 0);
    if i < 0 {
        None
    } else {
        Some(h[i].1)
    }
}

/// Each name is a header name in lower case and each value a header value.
pub open spec fn headers_wf(h: Seq<(Seq<char>, Seq<char>)>) -> bool {
    forall|i: int|
        0 <= i < h.len() ==> is_header_name((#[trigger] h[i]).0) && lower(h[i].0) == h[i].0
            && is_header_value(h[i].1)
}

/// Lower case is idempotent.
pub proof fn lemma_lower_twice(s: Seq<char>)
    ensures
        lower(lower(s)) == lower(s),
{
    assert(lower(lower(s)) =~= lower(s));
}

/// The header names that the server itself writes and asks for are header
/// names in lower case.
pub proof fn lemma_written_names()
    ensures
        lower("transfer-encoding"@) == "transfer-encoding"@,
        is_header_name("transfer-encoding"@),
        lower("host"@) == "host"@,
        is_header_name("host"@),
        lower("location"@) == "location"@,
        is_header_name("location"@),
        lower("content-type"@) == "content-type"@,
        is_header_name("content-type"@),
        lower("content-length"@) == "content-length"@,
        is_header_name("content-length"@),
        lower("allow"@) == "allow"@,
        is_header_name("allow"@),
        lower("via"@) == "via"@,
        is_header_name("via"@),
        lower("max-forwards"@) == "max-forwards"@,
        is_header_name("max-forwards"@),
        lower("set-cookie"@) == "set-cookie"@,
        is_header_name("set-cookie"@),
        lower("cookie"@) == "cookie"@,
        is_header_name("cookie"@),
{
    reveal_strlit("transfer-encoding");
    reveal_strlit("host");
    reveal_strlit("location");
    reveal_strlit("content-type");
    reveal_strlit("content-length");
    reveal_strlit("allow");
    reveal_strlit("via");
    reveal_strlit("max-forwards");
    reveal_strlit("set-cookie");
    reveal_strlit("cookie");
    assert(lower("transfer-encoding"@) =~= "transfer-encoding"@);
    assert(lower("host"@) =~= "host"@);
    assert(lower("location"@) =~= "location"@);
    assert(lower("content-type"@) =~= "content-type"@);
    assert(lower("content-length"@) =~= "content-length"@);
    assert(lower("allow"@) =~= "allow"@);
    assert(lower("via"@) =~= "via"@);
    assert(lower("max-forwards"@) =~= "max-forwards"@);
    assert(lower("set-cookie"@) =~= "set-cookie"@);
    assert(lower("cookie"@) =~= "cookie"@);
}

/// `c` in lower case.
pub fn to_lower_char(c: char) -> (r: char)
    ensures
        r == lower_char(c),
{
    if 'A' <= c && c <= 'Z' {
        ((c as u8) + 32) as char
    } else {
        c
    }
}

/// The characters of `v` in lower case.
pub fn to_lower(v: &Vec<char>) -> (r: Vec<char>)
    ensures
        r@ == lower(v@),
{
    let mut out: Vec<char> = Vec::new();
    let mut i: usize = 0;
    while i < v.len()
        invariant
            i <= v.len(),
            out@ == lower(v@).subrange(0, i as int),
        decreases v.len() - i,
    {
        out.push(to_lower_char(v[i]));
        assert(out@ =~= lower(v@).subrange(0, i + 1));
        i += 1;
    }
    assert(lower(v@).subrange(0, v.len() as int) =~= lower(v@));
    out
}

/// Whether every character of `v` is visible ASCII, a space or a tab.
pub fn visible(v: &Vec<char>) -> (r: bool)
    ensures
        r == is_visible(v@),
{
    let mut i: usize = 0;
    while i < v.len()
        invariant
            i <= v.len(),
            forall|j: int| 0 <= j < i ==> is_visible_char(#[trigger] v@[j]),
        decreases v.len() - i,
    {
        let c = v[i];
        if !((' ' <= c && c < '\x7f') || c == '\t') {
            return false;
        }
        i += 1;
    }
    true
}

impl Headers {
    /// Every header is sound.
    pub open spec fn wf(&self) -> bool {
        headers_wf(self@)
    }

    /// No headers.
    pub fn new() -> (r: Headers)
        ensures
            r@ == Seq::<(Seq<char>, Seq<char>)>::empty(),
            r.wf(),
    {
        let r = Headers { entries: Vec::new() };
        assert(r@ =~= Seq::<(Seq<char>, Seq<char>)>::empty());
        r
    }

    /// Adds a header after those present. The name is kept in lower case. A
    /// name that is no header name, or a value that is no header value, is
    /// refused and nothing changes.
    pub fn append(&mut self, name: &str, value: &str) -> (ok: bool)
        ensures
            ok == (is_header_name(name@) && is_header_value(value@)),
            ok ==> final(self)@ == old(self)@.push((lower(name@), value@)),
            !ok ==> *final(self) == *old(self),
            ok && old(self).wf() ==> final(self).wf(),
    {
        match http_header_name(name) {
            Some(n) => {
                if http_header_value_ok(value) {
                    let ghost before = self@;
                    self.entries.push(Header { name: n, value: value.to_owned() });
                    proof {
                        assert(self@ =~= before.push((lower(name@), value@)));
                        lemma_lower_twice(name@);
                        assert(is_token(lower(name@))) by {
                            assert forall|i: int| 0 <= i < lower(name@).len() implies crate::status::is_tchar(
                                #[trigger] lower(name@)[i],
                            ) by {
                                assert(crate::status::is_tchar(name@[i]));
                            }
                        }
                    }
                    true
                } else {
                    false
                }
            },
            None => false,
        }
    }

    /// The number of headers.
    pub fn len(&self) -> (n: usize)
        ensures
            n == self@.len(),
    {
        self.entries.len()
    }

    /// The value of the first header with the given name, whatever the case
    /// of the name asked for.
    pub fn get(&self, name: &str) -> (r: Option<&str>)
        ensures
            r.is_some() == first_value(self@, lower(name@)).is_some(),
            r.is_some() ==> r.unwrap()@ == first_value(self@, lower(name@)).unwrap(),
    {
        let wanted = to_lower(&chars_of(name));
        let mut i: usize = 0;
        while i < self.entries.len()
            invariant
                i <= self.entries.len(),
                wanted@ == lower(name@),
                index_of_name(self@, wanted@, 0) == index_of_name(self@, wanted@, i as int),
            decreases self.entries.len() - i,
        {
            let n = chars_of(self.entries[i].name.as_str());
            if same_chars(&n, &wanted) {
                assert(self@[i as int] == self.entries@[i as int]@);
                return Some(self.entries[i].value.as_str());
            }
            assert(self@[i as int] == self.entries@[i as int]@);
            i += 1;
        }
        None
    }

    /// Whether a header with the given name is present.
    pub fn contains_key(&self, name: &str) -> (r: bool)
        ensures
            r == first_value(self@, lower(name@)).is_some(),
    {
        self.get(name).is_some()
    }
}

} // verus!
