//! The body of a request: length-delimited, or in chunks.
use crate::status::StatusCode;
use crate::text::{find_from, has_at, lemma_find_from_bounds, lemma_find_from_least};
use crate::type_aliases::Bytes;
use vstd::prelude::*;
use vstd::slice::slice_subrange;

verus! {

/// Carriage return and line feed, as bytes.
pub open spec fn crlf_bytes() -> Seq<u8> {
    seq![13u8, 10u8]
}

/// ASCII white space.
pub open spec fn is_space_byte(b: u8) -> bool {
    (9 <= b <= 13) || b == 32
}

/// The value of a hexadecimal digit, in either case.
pub open spec fn hex_digit(b: u8) -> Option<nat> {
    if 48 <= b <= 57 {
        Some((b - 48) as nat)
    } else if 97 <= b <= 102 {
        Some((b - 87) as nat)
    } else if 65 <= b <= 70 {
        Some((b - 55) as nat)
    } else {
        None
    }
}

/// The number that a run of hexadecimal digits stands for; `None` where a
/// byte is no digit.
pub open spec fn hex_value(s: Seq<u8>) -> Option<nat>
    decreases s.len(),
{
    if s.len() == 0 {
        Some(0)
    } else {
        match (hex_value(s.drop_last()), hex_digit(s.last())) {
            (Some(v), Some(d)) => Some(v * 16 + d),
            _ => None,
        }
    }
}

/// The first position at or after `from` that holds no white space.
pub open spec fn skip_space_bytes(s: Seq<u8>, from: int) -> int
    decreases s.len() - from,
{
    if from < 0 || from >= s.len() {
        s.len() as int
    } else if is_space_byte(s[from]) {
        skip_space_bytes(s, from + 1)
    } else {
        from
    }
}

/// The end of `s` without trailing white space, but not before `start`.
pub open spec fn trim_end_bytes(s: Seq<u8>, start: int, end: int) -> int
    decreases end - start,
{
    if end <= start {
        start
    } else if is_space_byte(s[end - 1]) {
        trim_end_bytes(s, start, end - 1)
    } else {
        end
    }
}

/// The size that a chunk-size line states: white space around it is passed
/// over, a leading `+` is accepted, then come one or more hexadecimal digits
/// whose value fits in `usize`; anything else is malformed.
pub open spec fn chunk_size(line: Seq<u8>) -> Option<nat> {
    let a = skip_space_bytes(line, 0);
    let b = trim_end_bytes(line, a, line.len() as int);
    let start = if a < b && line[a] == 43 {
        a + 1
    } else {
        a
    };
    if start >= b {
        None
    } else {
        match hex_value(line.subrange(start, b)) {
            Some(v) => if v <= usize::MAX {
                Some(v)
            } else {
                None
            },
            None => None,
        }
    }
}

/// The payload of a chunked body, read from position `pos` on, after `acc`.
///
/// Each chunk is a size line, CR LF, that many bytes, CR LF. Reading ends at
/// a chunk of size 0 or at the end of the data. A size line without CR LF, a
/// malformed size, a chunk that is cut short or is not followed by CR LF is a
/// bad request; a payload longer than `limit` is too large.
pub open spec fn decode_from(data: Seq<u8>, pos: int, acc: Seq<u8>, limit: nat) -> Result<
    Seq<u8>,
    StatusCode,
>
    decreases data.len() - pos,
{
    if pos < 0 || pos >= data.len() {
        Ok(acc)
    } else {
        let i = find_from(data, crlf_bytes(), pos);
        if i < pos {
            Err(StatusCode::bad_request())
        } else {
            match chunk_size(data.subrange(pos, i)) {
                None => Err(StatusCode::bad_request()),
                Some(size) => if size == 0 {
                    Ok(acc)
                } else if data.len() - (i + 2) < size + 2 {
                    Err(StatusCode::bad_request())
                } else if data[i + 2 + size] != 13 || data[i + 2 + size + 1] != 10 {
                    Err(StatusCode::bad_request())
                } else if acc.len() + size > limit {
                    Err(StatusCode::payload_too_large())
                } else {
                    decode_from(
                        data,
                        i + 2 + size + 2,
                        acc + data.subrange(i + 2, i + 2 + size),
                        limit,
                    )
                },
            }
        }
    }
}

/// The payload of a chunked body.
pub open spec fn chunked_decode(body: Seq<u8>, limit: nat) -> Result<Seq<u8>, StatusCode> {
    decode_from(body, 0, Seq::empty(), limit)
}

/// The view of a body or the status that took its place.
pub open spec fn body_view(r: Result<Bytes, StatusCode>) -> Result<Seq<u8>, StatusCode> {
    match r {
        Ok(b) => Ok(b@),
        Err(e) => Err(e),
    }
}

/// A prefix of a run of digits is a run of digits of no greater value.
proof fn lemma_hex_value_prefix(s: Seq<u8>, k: int)
    requires
        0 <= k <= s.len(),
        hex_value(s).is_some(),
    ensures
        hex_value(s.subrange(0, k)).is_some(),
        hex_value(s.subrange(0, k)).unwrap() <= hex_value(s).unwrap(),
    decreases s.len(),
{
    if k == s.len() {
        assert(s.subrange(0, k) =~= s);
    } else {
        lemma_hex_value_prefix(s.drop_last(), k);
        assert(s.drop_last().subrange(0, k) =~= s.subrange(0, k));
    }
}

/// A chunk as a sender may write it: data that is not empty, after a size
/// line that states its length and holds no CR LF.
pub open spec fn is_chunk(line: Seq<u8>, data: Seq<u8>) -> bool {
    data.len() > 0 && chunk_size(line) == Some(data.len()) && find_from(line, crlf_bytes(), 0)
        == -1
}

/// What may follow the last chunk: nothing, or a size line that states 0,
/// CR LF, and anything after it.
pub open spec fn is_end(end: Seq<u8>) -> bool {
    end.len() == 0 || exists|line: Seq<u8>, tail: Seq<u8>|
        end == line + crlf_bytes() + tail && chunk_size(line) == Some(0nat) && find_from(
            line,
            crlf_bytes(),
            0,
        ) == -1
}

/// The chunks from the `k`-th on, as they stand on the wire.
pub open spec fn encoded(chunks: Seq<(Seq<u8>, Seq<u8>)>, k: int) -> Seq<u8>
    decreases chunks.len() - k,
{
    if k < 0 || k >= chunks.len() {
        Seq::empty()
    } else {
        chunks[k].0 + crlf_bytes() + chunks[k].1 + crlf_bytes() + encoded(chunks, k + 1)
    }
}

/// The data of the chunks from the `k`-th on, put together.
pub open spec fn payload(chunks: Seq<(Seq<u8>, Seq<u8>)>, k: int) -> Seq<u8>
    decreases chunks.len() - k,
{
    if k < 0 || k >= chunks.len() {
        Seq::empty()
    } else {
        chunks[k].1 + payload(chunks, k + 1)
    }
}

/// After `pre`, the first CR LF in `pre + line + CR LF + post` is the one
/// after `line`, where `line` holds none.
pub proof fn lemma_find_after_line(pre: Seq<u8>, line: Seq<u8>, post: Seq<u8>)
    requires
        find_from(line, crlf_bytes(), 0) == -1,
    ensures
        find_from(pre + line + crlf_bytes() + post, crlf_bytes(), pre.len() as int) == pre.len()
            + line.len(),
{
    let data = pre + line + crlf_bytes() + post;
    let m: int = (pre.len() + line.len()) as int;
    assert(data.subrange(m, m + 2) =~= crlf_bytes());
    lemma_find_from_least(data, crlf_bytes(), pre.len() as int, m);
    lemma_find_from_bounds(data, crlf_bytes(), pre.len() as int);
    let f = find_from(data, crlf_bytes(), pre.len() as int);
    if f < m {
        let w = data.subrange(f, f + 2);
        assert(w[0] == data[f] && w[1] == data[f + 1]);
        assert(crlf_bytes()[0] == 13 && crlf_bytes()[1] == 10);
        if f + 2 <= m {
            assert(line.subrange(f - pre.len(), f - pre.len() + 2) =~= w);
            lemma_find_from_least(line, crlf_bytes(), 0, f - pre.len());
        } else {
            assert(data[f + 1] == crlf_bytes()[0]);
        }
    }
}

/// One chunk read: where the first CR LF after `pos` ends a size line that
/// states `size`, and that many bytes and CR LF follow within the limit,
/// reading goes on after them with those bytes added.
pub proof fn lemma_decode_chunk(
    data: Seq<u8>,
    pos: int,
    acc: Seq<u8>,
    limit: nat,
    i: int,
    size: nat,
)
    requires
        0 <= pos < data.len(),
        pos <= i,
        find_from(data, crlf_bytes(), pos) == i,
        chunk_size(data.subrange(pos, i)) == Some(size),
        size > 0,
        i + 2 + size + 2 <= data.len(),
        data[i + 2 + size] == 13,
        data[i + 2 + size + 1] == 10,
        acc.len() + size <= limit,
    ensures
        decode_from(data, pos, acc, limit) == decode_from(
            data,
            i + 2 + size + 2,
            acc + data.subrange(i + 2, i + 2 + size),
            limit,
        ),
{
}

/// The end read: where the first CR LF after `pos` ends a size line that
/// states 0, reading ends with what was read before.
pub proof fn lemma_decode_end(data: Seq<u8>, pos: int, acc: Seq<u8>, limit: nat, i: int)
    requires
        0 <= pos < data.len(),
        pos <= i,
        find_from(data, crlf_bytes(), pos) == i,
        chunk_size(data.subrange(pos, i)) == Some(0nat),
    ensures
        decode_from(data, pos, acc, limit) == Ok::<Seq<u8>, StatusCode>(acc),
{
}

/// Reading after `pre` what a sender wrote gives back what it sent: the
/// data of its chunks after what was read before, in order, where all of it
/// is within the limit.
proof fn lemma_decode_after(
    pre: Seq<u8>,
    chunks: Seq<(Seq<u8>, Seq<u8>)>,
    k: int,
    end: Seq<u8>,
    acc: Seq<u8>,
    limit: nat,
)
    requires
        0 <= k <= chunks.len(),
        forall|j: int| 0 <= j < chunks.len() ==> is_chunk((#[trigger] chunks[j]).0, chunks[j].1),
        is_end(end),
        acc.len() + payload(chunks, k).len() <= limit,
    ensures
        decode_from(pre + encoded(chunks, k) + end, pre.len() as int, acc, limit) == Ok::<
            Seq<u8>,
            StatusCode,
        >(acc + payload(chunks, k)),
    decreases chunks.len() - k,
{
    let data = pre + encoded(chunks, k) + end;
    let pos = pre.len() as int;
    if k == chunks.len() {
        assert(acc + payload(chunks, k) =~= acc);
        assert(data =~= pre + end);
        if end.len() > 0 {
            let (line, tail) = choose|line: Seq<u8>, tail: Seq<u8>|
                end == line + crlf_bytes() + tail && chunk_size(line) == Some(0nat) && find_from(
                    line,
                    crlf_bytes(),
                    0,
                ) == -1;
            assert(data == pre + line + crlf_bytes() + tail) by {
                assert(data =~= pre + line + crlf_bytes() + tail);
            }
            lemma_find_after_line(pre, line, tail);
            assert(data.subrange(pos, pos + line.len()) == line) by {
                assert(data.subrange(pos, pos + line.len()) =~= line);
            }
            lemma_decode_end(data, pos, acc, limit, pos + line.len());
        }
    } else {
        let line = chunks[k].0;
        let d = chunks[k].1;
        assert(is_chunk(chunks[k].0, chunks[k].1));
        let rest = encoded(chunks, k + 1) + end;
        let post = d + crlf_bytes() + rest;
        assert(data == pre + line + crlf_bytes() + post) by {
            assert(data =~= pre + line + crlf_bytes() + post);
        }
        lemma_find_after_line(pre, line, post);
        let i = pos + line.len();
        assert(data.subrange(pos, i) == line) by {
            assert(data.subrange(pos, i) =~= line);
        }
        assert(data.subrange(i + 2, i + 2 + d.len()) == d) by {
            assert(data.subrange(i + 2, i + 2 + d.len()) =~= d);
        }
        assert(data[i + 2 + d.len()] == 13 && data[i + 2 + d.len() + 1] == 10) by {
            assert(data[i + 2 + d.len()] == crlf_bytes()[0]);
            assert(data[i + 2 + d.len() + 1] == crlf_bytes()[1]);
        }
        assert(payload(chunks, k) == d + payload(chunks, k + 1));
        lemma_decode_chunk(data, pos, acc, limit, i, d.len());
        let next = pre + line + crlf_bytes() + d + crlf_bytes();
        assert(data == next + encoded(chunks, k + 1) + end) by {
            assert(data =~= next + encoded(chunks, k + 1) + end);
        }
        lemma_decode_after(next, chunks, k + 1, end, acc + d, limit);
        assert((acc + d) + payload(chunks, k + 1) == acc + payload(chunks, k)) by {
            assert((acc + d) + payload(chunks, k + 1) =~= acc + (d + payload(chunks, k + 1)));
        }
    }
}

/// A chunked body decodes to the data that it was made from, whatever the
/// chunks: reading what a sender wrote gives back what it sent, where that
/// is within the limit.
pub proof fn lemma_decode_encoded(chunks: Seq<(Seq<u8>, Seq<u8>)>, end: Seq<u8>, limit: nat)
    requires
        forall|j: int| 0 <= j < chunks.len() ==> is_chunk((#[trigger] chunks[j]).0, chunks[j].1),
        is_end(end),
        payload(chunks, 0).len() <= limit,
    ensures
        chunked_decode(encoded(chunks, 0) + end, limit) == Ok::<Seq<u8>, StatusCode>(
            payload(chunks, 0),
        ),
{
    lemma_decode_after(Seq::empty(), chunks, 0, end, Seq::empty(), limit);
    assert(Seq::<u8>::empty() + encoded(chunks, 0) + end =~= encoded(chunks, 0) + end);
    assert(Seq::<u8>::empty() + payload(chunks, 0) =~= payload(chunks, 0));
}

/// A chunked body is never decoded to more than the limit, and where it is
/// refused, the status is 400 or 413.
pub proof fn lemma_decode_within_limit(data: Seq<u8>, pos: int, acc: Seq<u8>, limit: nat)
    requires
        acc.len() <= limit,
    ensures
        match decode_from(data, pos, acc, limit) {
            Ok(b) => b.len() <= limit,
            Err(e) => e == StatusCode::bad_request() || e == StatusCode::payload_too_large(),
        },
    decreases data.len() - pos,
{
    if pos < 0 || pos >= data.len() {
    } else {
        let i = find_from(data, crlf_bytes(), pos);
        if i >= pos {
            match chunk_size(data.subrange(pos, i)) {
                None => {},
                Some(size) => {
                    if size != 0 && !(data.len() - (i + 2) < size + 2) && !(data[i + 2 + size]
                        != 13 || data[i + 2 + size + 1] != 10) && !(acc.len() + size > limit) {
                        lemma_decode_within_limit(
                            data,
                            i + 2 + size + 2,
                            acc + data.subrange(i + 2, i + 2 + size),
                            limit,
                        );
                    }
                },
            }
        }
    }
}

/// The length-delimited body: the bytes themselves, unless they are more
/// than `limit`.
pub fn get_body(body: Bytes, limit: usize) -> (r: Result<Bytes, StatusCode>)
    ensures
        r == if body@.len() <= limit {
            Ok::<Bytes, StatusCode>(body)
        } else {
            Err::<Bytes, StatusCode>(StatusCode::payload_too_large())
        },
{
    if body.len() <= limit {
        Ok(body)
    } else {
        Err(StatusCode::payload_too_large())
    }
}

/// The least position at or after `from` where `d1` is followed by `d2`.
pub fn find_pair(data: &[u8], d1: u8, d2: u8, from: usize) -> (r: Option<usize>)
    ensures
        match r {
            Some(i) => i as int == find_from(data@, seq![d1, d2], from as int) && from <= i && i
                + 2 <= data@.len(),
            None => find_from(data@, seq![d1, d2], from as int) == -1,
        },
{
    let ghost pat = seq![d1, d2];
    if data.len() < 2 || from > data.len() - 2 {
        return None;
    }
    let mut i: usize = from;
    while i < data.len() - 1
        invariant
            from <= i <= data.len() - 1,
            data.len() >= 2,
            pat == seq![d1, d2],
            find_from(data@, pat, from as int) == find_from(data@, pat, i as int),
        decreases data.len() - i,
    {
        if data[i] == d1 && data[i + 1] == d2 {
            assert(data@.subrange(i as int, i + 2) =~= pat);
            return Some(i);
        }
        assert(!has_at(data@, pat, i as int)) by {
            let w = data@.subrange(i as int, i + 2);
            assert(w[0] == data@[i as int] && w[1] == data@[i + 1]);
            assert(pat[0] == d1 && pat[1] == d2);
        }
        i += 1;
    }
    None
}

/// Whether `pat` occurs in `data` at position `i`.
pub fn bytes_at(data: &[u8], pat: &[u8], i: usize) -> (r: bool)
    ensures
        r == has_at(data@, pat@, i as int),
{
    if pat.len() > data.len() || i > data.len() - pat.len() {
        return false;
    }
    let mut k: usize = 0;
    while k < pat.len()
        invariant
            k <= pat.len(),
            i + pat.len() <= data.len(),
            forall|j: int| 0 <= j < k ==> data@[i + j] == pat@[j],
        decreases pat.len() - k,
    {
        if data[i + k] != pat[k] {
            assert(data@.subrange(i as int, i + pat.len())[k as int] == data@[i + k]);
            return false;
        }
        k += 1;
    }
    assert(data@.subrange(i as int, i + pat.len()) =~= pat@);
    true
}

/// The least position at or after `from` where `pat` occurs in `data`.
pub fn find_bytes(data: &[u8], pat: &[u8], from: usize) -> (r: Option<usize>)
    ensures
        match r {
            Some(i) => i as int == find_from(data@, pat@, from as int) && from <= i && i
                + pat@.len() <= data@.len(),
            None => find_from(data@, pat@, from as int) == -1,
        },
{
    if pat.len() > data.len() || from > data.len() - pat.len() {
        return None;
    }
    let last: usize = data.len() - pat.len();
    let mut i: usize = from;
    while i < last
        invariant
            from <= i <= last,
            last + pat.len() == data.len(),
            find_from(data@, pat@, from as int) == find_from(data@, pat@, i as int),
        decreases last - i,
    {
        if bytes_at(data, pat, i) {
            return Some(i);
        }
        i += 1;
    }
    if bytes_at(data, pat, i) {
        Some(i)
    } else {
        assert(pat.len() == 0 ==> data@.subrange(i as int, i + pat.len()) =~= pat@);
        assert(find_from(data@, pat@, i + 1) == -1);
        None
    }
}

// Function to split the byte slice at the first occurrence of delimiter1 and delimiter2
pub fn split_once_str(data: &[u8], delimiter1: u8, delimiter2: u8) -> (r: Option<(&[u8], &[u8])>)
    ensures
        ({
            let i = find_from(data@, seq![delimiter1, delimiter2], 0);
            match r {
                Some((chunk, rest)) => i >= 0 && chunk@ == data@.subrange(0, i) && rest@
                    == data@.subrange(i + 2, data@.len() as int),
                None => i == -1,
            }
        }),
{
    proof {
        lemma_find_from_bounds(data@, seq![delimiter1, delimiter2], 0);
    }
    let n = data.len();
    match find_pair(data, delimiter1, delimiter2, 0) {
        Some(i) => {
            let chunk = slice_subrange(data, 0, i);
            let rest = slice_subrange(data, i + 2, n);
            Some((chunk, rest))
        },
        None => None,
    }
}

/// The value of a hexadecimal digit.
pub fn hex_digit_of(b: u8) -> (r: Option<usize>)
    ensures
        match r {
            Some(d) => hex_digit(b) == Some(d as nat) && d < 16,
            None => hex_digit(b).is_none(),
        },
{
    if 48 <= b && b <= 57 {
        Some((b - 48) as usize)
    } else if 97 <= b && b <= 102 {
        Some((b - 87) as usize)
    } else if 65 <= b && b <= 70 {
        Some((b - 55) as usize)
    } else {
        None
    }
}

/// Whether a byte is ASCII white space.
pub fn space_byte(b: u8) -> (r: bool)
    ensures
        r == is_space_byte(b),
{
    (9 <= b && b <= 13) || b == 32
}

/// Reads the size line `data[from..to]`.
pub fn parse_chunk_size(data: &[u8], from: usize, to: usize) -> (r: Option<usize>)
    requires
        from <= to <= data.len(),
    ensures
        match r {
            Some(n) => chunk_size(data@.subrange(from as int, to as int)) == Some(n as nat),
            None => chunk_size(data@.subrange(from as int, to as int)).is_none(),
        },
{
    let ghost line = data@.subrange(from as int, to as int);
    let mut a: usize = from;
    while a < to && space_byte(data[a])
        invariant
            from <= a <= to <= data.len(),
            line == data@.subrange(from as int, to as int),
            skip_space_bytes(line, 0) == skip_space_bytes(line, a - from),
        decreases to - a,
    {
        a += 1;
    }
    let mut b: usize = to;
    while b > a && space_byte(data[b - 1])
        invariant
            from <= a <= b <= to <= data.len(),
            line == data@.subrange(from as int, to as int),
            trim_end_bytes(line, a - from, line.len() as int) == trim_end_bytes(
                line,
                a - from,
                b - from,
            ),
        decreases b - a,
    {
        b -= 1;
    }
    assert(skip_space_bytes(line, 0) == a - from);
    assert(trim_end_bytes(line, a - from, line.len() as int) == b - from);
    let start: usize = if a < b && data[a] == 43 {
        a + 1
    } else {
        a
    };
    if start >= b {
        return None;
    }
    let ghost digits = line.subrange(start - from, b - from);
    assert(chunk_size(line) == match hex_value(digits) {
        Some(v) => if v <= usize::MAX {
            Some(v)
        } else {
            None
        },
        None => None,
    });
    let mut value: usize = 0;
    let mut i: usize = start;
    assert(digits.subrange(0, 0) =~= Seq::<u8>::empty());
    while i < b
        invariant
            from <= start <= i <= b <= to <= data.len(),
            line == data@.subrange(from as int, to as int),
            digits == line.subrange(start - from, b - from),
            hex_value(digits.subrange(0, i - start)) == Some(value as nat),
            chunk_size(line) == match hex_value(digits) {
                Some(v) => if v <= usize::MAX {
                    Some(v)
                } else {
                    None
                },
                None => None,
            },
        decreases b - i,
    {
        let ghost next = digits.subrange(0, i - start + 1);
        assert(next.drop_last() =~= digits.subrange(0, i - start));
        assert(next.last() == data@[i as int]);
        match hex_digit_of(data[i]) {
            None => {
                proof {
                    if hex_value(digits).is_some() {
                        lemma_hex_value_prefix(digits, i - start + 1);
                    }
                }
                return None;
            },
            Some(d) => {
                if value > (usize::MAX - d) / 16 {
                    proof {
                        if hex_value(digits).is_some() {
                            lemma_hex_value_prefix(digits, i - start + 1);
                        }
                    }
                    return None;
                }
                value = value * 16 + d;
            },
        }
        i += 1;
    }
    assert(digits.subrange(0, b - start) =~= digits);
    Some(value)
}

/// Decodes a chunked body.
pub fn get_chunked_body(body: Bytes, limit: usize) -> (r: Result<Bytes, StatusCode>)
    ensures
        body_view(r) == chunked_decode(body@, limit as nat),
{
    let mut result_body: Vec<u8> = Vec::new();
    let data = body.as_slice();
    let mut pos: usize = 0;
    while pos < data.len()
        invariant
            data@ == body@,
            pos <= data.len(),
            chunked_decode(body@, limit as nat) == decode_from(
                data@,
                pos as int,
                result_body@,
                limit as nat,
            ),
        decreases data.len() - pos,
    {
        proof {
            lemma_find_from_bounds(data@, crlf_bytes(), pos as int);
        }
        // Split at the first occurrence of CRLF
        let i = match find_pair(data, 13, 10, pos) {
            Some(i) => i,
            None => {
                // Missing CRLF after chunk size
                return Err(StatusCode::bad_request());
            },
        };
        // Parse the chunk size
        let chunk_size = match parse_chunk_size(data, pos, i) {
            Some(size) => size,
            None => {
                return Err(StatusCode::bad_request());
            },
        };
        // Check for the end of the chunked body
        if chunk_size == 0 {
            return Ok(result_body);
        }
        // Ensure there's enough data for the chunk and the CRLF that ends it
        let rest_len = data.len() - (i + 2);
        if rest_len < 2 || rest_len - 2 < chunk_size {
            return Err(StatusCode::bad_request());
        }
        let end = i + 2 + chunk_size;
        if data[end] != 13 || data[end + 1] != 10 {
            return Err(StatusCode::bad_request());
        }
        // Check body size limit
        if result_body.len() > limit || limit - result_body.len() < chunk_size {
            return Err(StatusCode::payload_too_large());
        }
        // Extract the chunk data
        let chunk_data = slice_subrange(data, i + 2, end);
        let ghost before = result_body@;
        result_body.extend_from_slice(chunk_data);
        assert(result_body@ == before + data@.subrange(i + 2, end as int));
        assert(decode_from(data@, pos as int, before, limit as nat) == decode_from(
            data@,
            end + 2,
            before + data@.subrange(i + 2, end as int),
            limit as nat,
        ));
        // Prepare for the next iteration, skip past the chunk data and CRLF
        pos = end + 2;
    }
    Ok(result_body)
}

} // verus!
