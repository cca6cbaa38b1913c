//! Reading back what was written: a response on the wire, read as HTTP/1.1,
//! is the response that was written.
use crate::headers::{
    headers_wf, is_header_name, is_visible, is_visible_char, shown, Header, Headers,
};
use crate::message::{Response, ResponseView};
use crate::server::requests::body::{
    chunk_size, chunked_decode, crlf_bytes, decode_from, find_bytes, find_pair, get_chunked_body,
    hex_digit, hex_value, is_space_byte, lemma_decode_chunk, lemma_decode_end,
    lemma_find_after_line, skip_space_bytes, trim_end_bytes,
};
use crate::server::responses::{
    asks_chunked, frame, frame_size, frames_from, head_text, header_block, hex_char, hex_upper,
    is_chunked, last_frame, wire,
};
use crate::status::{decimal, digit_char, is_tchar, string_of, StatusCode, Version};
use crate::text::{find_from, has_at, lemma_find_from_bounds, lemma_find_from_least, lower};
use vstd::prelude::*;
use vstd::slice::slice_subrange;
use vstd::string::*;
use vstd::utf8::{encode_utf8, is_ascii_chars, is_ascii_chars_encode_utf8};

verus! {

/// Bytes as characters, one for one.
pub open spec fn latin(b: Seq<u8>) -> Seq<char> {
    Seq::new(b.len(), |i: int| b[i] as char)
}

/// Characters as bytes, one for one; for ASCII text.
pub open spec fn ascii(s: Seq<char>) -> Seq<u8> {
    Seq::new(s.len(), |i: int| s[i] as u8)
}

/// The value of a decimal digit.
pub open spec fn digit_value(b: u8) -> Option<nat> {
    if 48 <= b <= 57 {
        Some((b - 48) as nat)
    } else {
        None
    }
}

/// Version and status of a status line: the version, a space, three digits
/// of which the first is no 0, a space, and the reason phrase, which does not
/// count.
pub open spec fn read_status_line(line: Seq<u8>) -> Option<(Version, StatusCode)> {
    let sp = find_from(line, seq![32u8], 0);
    if sp < 0 || line.len() < sp + 5 {
        None
    } else {
        match (
            Version::parse(latin(line.subrange(0, sp))),
            digit_value(line[sp + 1]),
            digit_value(line[sp + 2]),
            digit_value(line[sp + 3]),
        ) {
            (Some(version), Some(a), Some(b), Some(c)) => if line[sp + 4] == 32 && a >= 1 {
                Some((version, StatusCode { code: (a * 100 + b * 10 + c) as u16 }))
            } else {
                None
            },
            _ => None,
        }
    }
}

/// The headers that stand in `data` from `pos` on, up to a blank line, and
/// the position after that line. Each header is a line that ends in CR LF; its
/// name stands before the first `: ` in it and its value after.
pub open spec fn read_headers(data: Seq<u8>, pos: int) -> Option<
    (Seq<(Seq<char>, Seq<char>)>, int),
>
    decreases data.len() - pos,
{
    let i = find_from(data, crlf_bytes(), pos);
    if pos < 0 || i < pos || i + 2 > data.len() {
        None
    } else if i == pos {
        Some((Seq::empty(), pos + 2))
    } else {
        let line = data.subrange(pos, i);
        let c = find_from(line, seq![58u8, 32u8], 0);
        if c < 0 {
            None
        } else {
            match read_headers(data, i + 2) {
                None => None,
                Some((rest, end)) => Some(
                    (
                        seq![
                            (latin(line.subrange(0, c)), latin(line.subrange(c + 2, line.len() as int))),
                        ] + rest,
                        end,
                    ),
                ),
            }
        }
    }
}

/// The response that bytes on the wire stand for, read as HTTP/1.1: a status
/// line, headers, a blank line, and the body, which comes in chunks where a
/// header says so.
pub open spec fn read_response(data: Seq<u8>) -> Option<ResponseView> {
    let i = find_from(data, crlf_bytes(), 0);
    if i < 0 {
        None
    } else {
        match (read_status_line(data.subrange(0, i)), read_headers(data, i + 2)) {
            (Some((version, status)), Some((headers, end))) => {
                let rest = data.subrange(end, data.len() as int);
                if asks_chunked(headers) {
                    match chunked_decode(rest, rest.len()) {
                        Ok(body) => Some(ResponseView { status, version, headers, body }),
                        Err(_) => None,
                    }
                } else {
                    Some(ResponseView { status, version, headers, body: rest })
                }
            },
            _ => None,
        }
    }
}

/// The headers read so far before what is read from there on.
pub open spec fn read_on(
    so_far: Seq<(Seq<char>, Seq<char>)>,
    then: Option<(Seq<(Seq<char>, Seq<char>)>, int)>,
) -> Option<(Seq<(Seq<char>, Seq<char>)>, int)> {
    match then {
        Some((rest, end)) => Some((so_far + rest, end)),
        None => None,
    }
}

/// The view of a response, if there is one.
pub open spec fn read_view(r: Option<Response>) -> Option<ResponseView> {
    match r {
        Some(response) => Some(response@),
        None => None,
    }
}

/// Bytes as text, one character for each byte.
pub fn latin_text(bytes: &[u8]) -> (r: String)
    ensures
        r@ == latin(bytes@),
{
    let mut v: Vec<char> = Vec::new();
    let mut i: usize = 0;
    while i < bytes.len()
        invariant
            i <= bytes.len(),
            v@ == latin(bytes@).subrange(0, i as int),
        decreases bytes.len() - i,
    {
        v.push(bytes[i] as char);
        assert(v@ =~= latin(bytes@).subrange(0, i + 1));
        i += 1;
    }
    assert(latin(bytes@).subrange(0, bytes.len() as int) =~= latin(bytes@));
    string_of(&v)
}

/// The value of a decimal digit.
pub fn digit_of(b: u8) -> (r: Option<u16>)
    ensures
        match r {
            Some(d) => digit_value(b) == Some(d as nat) && d <= 9,
            None => digit_value(b).is_none(),
        },
{
    if 48 <= b && b <= 57 {
        Some((b - 48) as u16)
    } else {
        None
    }
}

/// Version and status of a status line.
pub fn parse_status_line(line: &[u8]) -> (r: Option<(Version, StatusCode)>)
    ensures
        r == read_status_line(line@),
{
    let mut space: Vec<u8> = Vec::new();
    space.push(32);
    assert(space@ =~= seq![32u8]);
    let n = line.len();
    let sp = match find_bytes(line, space.as_slice(), 0) {
        Some(sp) => sp,
        None => return None,
    };
    if n - sp < 5 {
        return None;
    }
    let version = match Version::from_text(latin_text(slice_subrange(line, 0, sp)).as_str()) {
        Some(version) => version,
        None => return None,
    };
    match (digit_of(line[sp + 1]), digit_of(line[sp + 2]), digit_of(line[sp + 3])) {
        (Some(a), Some(b), Some(c)) => {
            if line[sp + 4] == 32 && a >= 1 {
                Some((version, StatusCode { code: a * 100 + b * 10 + c }))
            } else {
                None
            }
        },
        _ => None,
    }
}

/// The headers that stand in `data` from `start` on, up to a blank line, and
/// the position after that line.
pub fn parse_headers(data: &[u8], start: usize) -> (r: Option<(Headers, usize)>)
    ensures
        match r {
            Some((headers, end)) => read_headers(data@, start as int) == Some(
                (headers@, end as int),
            ) && end <= data@.len(),
            None => read_headers(data@, start as int).is_none(),
        },
{
    let mut headers = Headers { entries: Vec::new() };
    let mut pos: usize = start;
    assert(headers@ =~= Seq::<(Seq<char>, Seq<char>)>::empty());
    assert(read_on(headers@, read_headers(data@, pos as int)) == read_headers(data@, pos as int))
        by {
        match read_headers(data@, pos as int) {
            Some((rest, end)) => {
                assert(headers@ + rest =~= rest);
            },
            None => {},
        }
    }
    loop
        invariant
            start <= pos,
            read_headers(data@, start as int) == read_on(
                headers@,
                read_headers(data@, pos as int),
            ),
        decreases data.len() - pos,
    {
        let i = match find_pair(data, 13, 10, pos) {
            Some(i) => i,
            None => return None,
        };
        if i == pos {
            assert(headers@ + Seq::<(Seq<char>, Seq<char>)>::empty() =~= headers@);
            return Some((headers, pos + 2));
        }
        let line = slice_subrange(data, pos, i);
        let c = match find_pair(line, 58, 32, 0) {
            Some(c) => c,
            None => return None,
        };
        let name = latin_text(slice_subrange(line, 0, c));
        let value = latin_text(slice_subrange(line, c + 2, line.len()));
        let ghost before = headers@;
        let ghost then = read_headers(data@, i + 2);
        headers.entries.push(Header { name, value });
        proof {
            assert(headers@ =~= before.push((name@, value@)));
            match then {
                Some((rest, end)) => {
                    assert(before + (seq![(name@, value@)] + rest) =~= headers@ + rest);
                },
                None => {},
            }
        }
        pos = i + 2;
    }
}

/// Reads a response from the wire, as HTTP/1.1.
pub fn parse_response(data: &[u8]) -> (r: Option<Response>)
    ensures
        read_view(r) == read_response(data@),
{
    let len = data.len();
    let i = match find_pair(data, 13, 10, 0) {
        Some(i) => i,
        None => return None,
    };
    let (version, status) = match parse_status_line(slice_subrange(data, 0, i)) {
        Some(first) => first,
        None => return None,
    };
    let (headers, end) = match parse_headers(data, i + 2) {
        Some(found) => found,
        None => return None,
    };
    let mut rest: Vec<u8> = Vec::new();
    rest.extend_from_slice(slice_subrange(data, end, len));
    assert(rest@ =~= data@.subrange(end as int, len as int));
    let body = if is_chunked(&headers) {
        let limit = rest.len();
        match get_chunked_body(rest, limit) {
            Ok(body) => body,
            Err(_) => return None,
        }
    } else {
        rest
    };
    Some(Response { status, version, headers, body })
}

/// The headers with each value as it is shown.
pub open spec fn shown_headers(h: Seq<(Seq<char>, Seq<char>)>) -> Seq<(Seq<char>, Seq<char>)> {
    Seq::new(h.len(), |i: int| (h[i].0, shown(h[i].1)))
}

/// The response as the wire shows it: with each header value as it is
/// shown.
pub open spec fn as_shown(r: ResponseView) -> ResponseView {
    ResponseView {
        status: r.status,
        version: r.version,
        headers: shown_headers(r.headers),
        body: r.body,
    }
}

/// No byte of `s` is a carriage return.
pub open spec fn no_cr(s: Seq<u8>) -> bool {
    forall|i: int| 0 <= i < s.len() ==> #[trigger] s[i] != 13
}

/// A line without a carriage return holds no CR LF.
proof fn lemma_no_cr_no_crlf(line: Seq<u8>)
    requires
        no_cr(line),
    ensures
        find_from(line, crlf_bytes(), 0) == -1,
{
    lemma_find_from_bounds(line, crlf_bytes(), 0);
    let f = find_from(line, crlf_bytes(), 0);
    if f >= 0 {
        assert(line.subrange(f, f + 2)[0] == line[f]);
        assert(crlf_bytes()[0] == 13);
    }
}

/// ASCII text is encoded byte for character.
proof fn lemma_ascii_bytes(s: Seq<char>)
    requires
        is_ascii_chars(s),
    ensures
        encode_utf8(s) == ascii(s),
{
    is_ascii_chars_encode_utf8(s);
    assert(encode_utf8(s) =~= ascii(s));
}

/// The bytes of a text in two parts are the bytes of the parts.
proof fn lemma_ascii_concat(a: Seq<char>, b: Seq<char>)
    ensures
        ascii(a + b) == ascii(a) + ascii(b),
{
    assert(ascii(a + b) =~= ascii(a) + ascii(b));
}

/// The digits of a number in hexadecimal are hexadecimal digits in upper
/// case, and read back as the number.
proof fn lemma_hex_upper(n: nat)
    ensures
        hex_upper(n).len() > 0,
        forall|i: int|
            0 <= i < hex_upper(n).len() ==> (48 <= #[trigger] hex_upper(n)[i] <= 57) || (65
                <= hex_upper(n)[i] <= 70),
        hex_value(hex_upper(n)) == Some(n),
    decreases n,
{
    if n >= 16 {
        lemma_hex_upper(n / 16);
        let s = hex_upper(n / 16);
        let d = hex_char(n % 16);
        assert(hex_upper(n) == s.push(d));
        assert(s.push(d).drop_last() =~= s);
        assert(s.push(d).last() == d);
        assert(hex_digit(d) == Some(n % 16));
        assert forall|i: int| 0 <= i < hex_upper(n).len() implies (48 <= #[trigger] hex_upper(
            n,
        )[i] <= 57) || (65 <= hex_upper(n)[i] <= 70) by {
            if i < s.len() {
                assert(hex_upper(n)[i] == s[i]);
            }
        }
    } else {
        let s = hex_upper(n);
        assert(s.drop_last() =~= Seq::<u8>::empty());
        assert(hex_value(s.drop_last()) == Some(0nat));
        assert(hex_digit(s.last()) == Some(n));
    }
}

/// A length in hexadecimal is a size line that states the length and holds
/// no CR LF.
proof fn lemma_hex_line(n: nat)
    requires
        n <= usize::MAX,
    ensures
        chunk_size(hex_upper(n)) == Some(n),
        find_from(hex_upper(n), crlf_bytes(), 0) == -1,
{
    lemma_hex_upper(n);
    let line = hex_upper(n);
    assert(!is_space_byte(line[0]));
    assert(!is_space_byte(line[line.len() - 1]));
    assert(skip_space_bytes(line, 0) == 0);
    assert(trim_end_bytes(line, 0, line.len() as int) == line.len());
    assert(line[0] != 43);
    assert(line.subrange(0, line.len() as int) =~= line);
    assert(no_cr(line));
    lemma_no_cr_no_crlf(line);
}

/// After `pre`, the chunk that ends a body ends the reading.
proof fn lemma_read_last_frame(pre: Seq<u8>, acc: Seq<u8>, limit: nat)
    ensures
        decode_from(pre + last_frame(), pre.len() as int, acc, limit) == Ok::<
            Seq<u8>,
            StatusCode,
        >(acc),
{
    let data = pre + last_frame();
    let start = pre.len() as int;
    let zero = seq![48u8];
    assert(hex_upper(0) =~= zero);
    lemma_hex_line(0);
    assert(data == pre + zero + crlf_bytes() + crlf_bytes()) by {
        assert(data =~= pre + zero + crlf_bytes() + crlf_bytes());
    }
    lemma_find_after_line(pre, zero, crlf_bytes());
    assert(data.subrange(start, start + 1) == zero) by {
        assert(data.subrange(start, start + 1) =~= zero);
    }
    lemma_decode_end(data, start, acc, limit, start + 1);
}

/// After `pre`, one chunk as it was written is read as it is, and reading
/// goes on after it.
proof fn lemma_read_one_frame(
    pre: Seq<u8>,
    chunk: Seq<u8>,
    rest: Seq<u8>,
    acc: Seq<u8>,
    limit: nat,
)
    requires
        0 < chunk.len() <= usize::MAX,
        acc.len() + chunk.len() <= limit,
    ensures
        decode_from(pre + frame(chunk) + rest, pre.len() as int, acc, limit) == decode_from(
            pre + frame(chunk) + rest,
            (pre + frame(chunk)).len() as int,
            acc + chunk,
            limit,
        ),
{
    let data = pre + frame(chunk) + rest;
    let start = pre.len() as int;
    let n = chunk.len() as int;
    let line = hex_upper(n as nat);
    let post = chunk + crlf_bytes() + rest;
    lemma_hex_line(n as nat);
    assert(data == pre + line + crlf_bytes() + post) by {
        assert(data =~= pre + line + crlf_bytes() + post);
    }
    lemma_find_after_line(pre, line, post);
    let i = start + line.len();
    assert(data.subrange(start, i) == line) by {
        assert(data.subrange(start, i) =~= line);
    }
    assert(data.subrange(i + 2, i + 2 + n) == chunk) by {
        assert(data.subrange(i + 2, i + 2 + n) =~= chunk);
    }
    assert(data[i + 2 + n] == 13 && data[i + 2 + n + 1] == 10) by {
        assert(data[i + 2 + n] == crlf_bytes()[0]);
        assert(data[i + 2 + n + 1] == crlf_bytes()[1]);
    }
    lemma_decode_chunk(data, start, acc, limit, i, n as nat);
}

/// The length of the chunk that is written first from `pos` on.
pub open spec fn first_len(body: Seq<u8>, pos: int, size: int) -> int {
    if body.len() - pos < size {
        body.len() - pos
    } else {
        size
    }
}

/// What is written from `pos` on is the first chunk and what is written
/// after it.
proof fn lemma_frames_unfold(pre: Seq<u8>, body: Seq<u8>, pos: int, size: int)
    requires
        0 <= pos < body.len(),
        0 < size,
    ensures
        ({
            let n = first_len(body, pos, size);
            let chunk = body.subrange(pos, pos + n);
            let rest = frames_from(body, pos + n, size) + last_frame();
            &&& 0 < n <= size
            &&& pos + n <= body.len()
            &&& pre + frames_from(body, pos, size) + last_frame() == pre + frame(chunk) + rest
            &&& pre + frames_from(body, pos, size) + last_frame() == (pre + frame(chunk))
                + frames_from(body, pos + n, size) + last_frame()
        }),
{
    let n = first_len(body, pos, size);
    let chunk = body.subrange(pos, pos + n);
    let rest = frames_from(body, pos + n, size) + last_frame();
    let data = pre + frames_from(body, pos, size) + last_frame();
    assert(frames_from(body, pos, size) == frame(chunk) + frames_from(body, pos + n, size));
    assert(data =~= pre + frame(chunk) + rest);
    assert(data =~= (pre + frame(chunk)) + frames_from(body, pos + n, size) + last_frame());
}

/// What was read before, a chunk, and the rest of a body are the body from
/// the start of the chunk on after what was read before.
proof fn lemma_body_parts(acc: Seq<u8>, body: Seq<u8>, pos: int, n: int)
    requires
        0 <= pos,
        0 <= n,
        pos + n <= body.len(),
    ensures
        (acc + body.subrange(pos, pos + n)) + body.subrange(pos + n, body.len() as int) == acc
            + body.subrange(pos, body.len() as int),
{
    assert((acc + body.subrange(pos, pos + n)) + body.subrange(pos + n, body.len() as int) =~= acc
        + body.subrange(pos, body.len() as int));
}

/// What was written in chunks after `pre` is read back as it was: the bytes
/// of the body from `pos` on, after what was read before.
proof fn lemma_read_frames(
    pre: Seq<u8>,
    body: Seq<u8>,
    pos: int,
    size: int,
    acc: Seq<u8>,
    limit: nat,
)
    requires
        0 <= pos <= body.len(),
        0 < size <= usize::MAX,
        acc.len() + (body.len() - pos) <= limit,
    ensures
        decode_from(
            pre + frames_from(body, pos, size) + last_frame(),
            pre.len() as int,
            acc,
            limit,
        ) == Ok::<Seq<u8>, StatusCode>(acc + body.subrange(pos, body.len() as int)),
    decreases body.len() - pos,
{
    if pos == body.len() {
        assert(pre + frames_from(body, pos, size) + last_frame() == pre + last_frame()) by {
            assert(pre + frames_from(body, pos, size) + last_frame() =~= pre + last_frame());
        }
        lemma_read_last_frame(pre, acc, limit);
        assert(acc + body.subrange(pos, body.len() as int) == acc) by {
            assert(acc + body.subrange(pos, body.len() as int) =~= acc);
        }
    } else {
        let n = first_len(body, pos, size);
        let chunk = body.subrange(pos, pos + n);
        let rest = frames_from(body, pos + n, size) + last_frame();
        lemma_frames_unfold(pre, body, pos, size);
        lemma_read_one_frame(pre, chunk, rest, acc, limit);
        lemma_read_frames(pre + frame(chunk), body, pos + n, size, acc + chunk, limit);
        lemma_body_parts(acc, body, pos, n);
    }
}

/// A body that was written in chunks is read back as it was.
pub proof fn lemma_chunks_read_back(body: Seq<u8>, size: int)
    requires
        0 <= size <= usize::MAX,
        body.len() > 0 ==> 0 < size,
    ensures
        chunked_decode(
            frames_from(body, 0, size) + last_frame(),
            (frames_from(body, 0, size) + last_frame()).len(),
        ) == Ok::<Seq<u8>, StatusCode>(body),
{
    let written = frames_from(body, 0, size) + last_frame();
    if body.len() == 0 {
        assert(written =~= Seq::<u8>::empty() + last_frame());
        lemma_read_last_frame(Seq::empty(), Seq::empty(), written.len());
        assert(body =~= Seq::<u8>::empty());
    } else {
        lemma_frames_len(body, 0, size);
        lemma_read_frames(Seq::empty(), body, 0, size, Seq::empty(), written.len());
        assert(Seq::<u8>::empty() + frames_from(body, 0, size) + last_frame() =~= written);
        assert(Seq::<u8>::empty() + body.subrange(0, body.len() as int) =~= body);
    }
}

/// Chunks are no shorter than what they carry.
proof fn lemma_frames_len(body: Seq<u8>, pos: int, size: int)
    requires
        0 <= pos <= body.len(),
        0 < size,
    ensures
        frames_from(body, pos, size).len() >= body.len() - pos,
    decreases body.len() - pos,
{
    if pos < body.len() {
        let n: int = if body.len() - pos < size {
            body.len() - pos
        } else {
            size
        };
        lemma_frames_len(body, pos + n, size);
    }
}

/// A header on the wire, without the CR LF that ends it: the name, `: `,
/// the value as it is shown.
pub open spec fn line_bytes(e: (Seq<char>, Seq<char>)) -> Seq<u8> {
    ascii(e.0) + seq![58u8, 32u8] + ascii(shown(e.1))
}

/// The headers from the `k`-th on as they stand on the wire, each ended by
/// CR LF.
pub open spec fn block_bytes(h: Seq<(Seq<char>, Seq<char>)>, k: int) -> Seq<u8>
    decreases h.len() - k,
{
    if k < 0 || k >= h.len() {
        Seq::empty()
    } else {
        line_bytes(h[k]) + crlf_bytes() + block_bytes(h, k + 1)
    }
}

/// A header line holds no carriage return, and its first `: ` comes right
/// after the name.
proof fn lemma_header_line(e: (Seq<char>, Seq<char>))
    requires
        is_header_name(e.0),
    ensures
        no_cr(line_bytes(e)),
        line_bytes(e).len() > 0,
        find_from(line_bytes(e), seq![58u8, 32u8], 0) == e.0.len(),
        latin(line_bytes(e).subrange(0, e.0.len() as int)) == e.0,
        latin(line_bytes(e).subrange(e.0.len() as int + 2, line_bytes(e).len() as int)) == shown(
            e.1,
        ),
{
    let line = line_bytes(e);
    let sep = seq![58u8, 32u8];
    let n = e.0.len() as int;
    let v = shown(e.1);
    assert(is_visible(v));
    assert forall|i: int| 0 <= i < line.len() implies #[trigger] line[i] != 13 by {
        if i < n {
            assert(is_tchar(e.0[i]));
            assert(line[i] == e.0[i] as u8);
        } else if i >= n + 2 {
            assert(is_visible_char(v[i - n - 2]));
            assert(line[i] == v[i - n - 2] as u8);
        }
    }
    assert(line.subrange(n, n + 2) =~= sep);
    lemma_find_from_least(line, sep, 0, n);
    lemma_find_from_bounds(line, sep, 0);
    let f = find_from(line, sep, 0);
    if f < n {
        assert(line.subrange(f, f + 2)[0] == line[f]);
        assert(sep[0] == 58);
        assert(is_tchar(e.0[f]));
        assert(line[f] == e.0[f] as u8);
    }
    assert forall|i: int| 0 <= i < n implies (#[trigger] e.0[i] as u8) as char == e.0[i] by {
        assert(is_tchar(e.0[i]));
    }
    assert(latin(line.subrange(0, n)) =~= e.0);
    assert forall|i: int| 0 <= i < v.len() implies (#[trigger] v[i] as u8) as char == v[i] by {
        assert(is_visible_char(v[i]));
    }
    assert(latin(line.subrange(n + 2, line.len() as int)) =~= v);
}

/// The headers that were written after `pre` are read back as they are
/// shown, up to the blank line that follows them.
proof fn lemma_read_headers(pre: Seq<u8>, h: Seq<(Seq<char>, Seq<char>)>, k: int, post: Seq<u8>)
    requires
        0 <= k <= h.len(),
        headers_wf(h),
    ensures
        read_headers(pre + block_bytes(h, k) + crlf_bytes() + post, pre.len() as int) == Some(
            (
                shown_headers(h).subrange(k, h.len() as int),
                (pre.len() + block_bytes(h, k).len() + 2) as int,
            ),
        ),
    decreases h.len() - k,
{
    let data = pre + block_bytes(h, k) + crlf_bytes() + post;
    let pos = pre.len() as int;
    if k == h.len() {
        assert(data.subrange(pos, pos + 2) =~= crlf_bytes());
        assert(has_at(data, crlf_bytes(), pos));
        assert(shown_headers(h).subrange(k, h.len() as int) =~= Seq::<
            (Seq<char>, Seq<char>),
        >::empty());
    } else {
        let line = line_bytes(h[k]);
        assert(is_header_name(h[k].0));
        lemma_header_line(h[k]);
        lemma_no_cr_no_crlf(line);
        let tail = block_bytes(h, k + 1) + crlf_bytes() + post;
        assert(data == pre + line + crlf_bytes() + tail) by {
            assert(data =~= pre + line + crlf_bytes() + tail);
        }
        lemma_find_after_line(pre, line, tail);
        let i = pos + line.len();
        assert(data.subrange(pos, i) == line) by {
            assert(data.subrange(pos, i) =~= line);
        }
        let next = pre + line + crlf_bytes();
        assert(data == next + block_bytes(h, k + 1) + crlf_bytes() + post) by {
            assert(data =~= next + block_bytes(h, k + 1) + crlf_bytes() + post);
        }
        lemma_read_headers(next, h, k + 1, post);
        assert(seq![(h[k].0, shown(h[k].1))] + shown_headers(h).subrange(k + 1, h.len() as int)
            =~= shown_headers(h).subrange(k, h.len() as int));
    }
}

/// The text of a status line, without the CR LF that ends it.
pub open spec fn status_line(version: Version, status: StatusCode) -> Seq<char> {
    version.text() + " "@ + status.text()
}

/// A number of three digits is written with three digits.
proof fn lemma_three_digits(n: nat)
    requires
        100 <= n <= 999,
    ensures
        decimal(n) == seq![digit_char(n / 100), digit_char((n / 10) % 10), digit_char(n % 10)],
{
    assert(decimal(n / 100) == seq![digit_char(n / 100)]);
    assert(decimal(n / 10) == decimal(n / 100).push(digit_char((n / 10) % 10))) by {
        assert((n / 10) / 10 == n / 100);
    }
    assert(decimal(n) =~= seq![
        digit_char(n / 100),
        digit_char((n / 10) % 10),
        digit_char(n % 10),
    ]);
}

/// What the five versions are written as.
proof fn lemma_version_texts()
    ensures
        "HTTP/0.9"@ == seq!['H', 'T', 'T', 'P', '/', '0', '.', '9'],
        "HTTP/1.0"@ == seq!['H', 'T', 'T', 'P', '/', '1', '.', '0'],
        "HTTP/1.1"@ == seq!['H', 'T', 'T', 'P', '/', '1', '.', '1'],
        "HTTP/2.0"@ == seq!['H', 'T', 'T', 'P', '/', '2', '.', '0'],
        "HTTP/3.0"@ == seq!['H', 'T', 'T', 'P', '/', '3', '.', '0'],
{
    reveal_strlit("HTTP/0.9");
    reveal_strlit("HTTP/1.0");
    reveal_strlit("HTTP/1.1");
    reveal_strlit("HTTP/2.0");
    reveal_strlit("HTTP/3.0");
    assert("HTTP/0.9"@ =~= seq!['H', 'T', 'T', 'P', '/', '0', '.', '9']);
    assert("HTTP/1.0"@ =~= seq!['H', 'T', 'T', 'P', '/', '1', '.', '0']);
    assert("HTTP/1.1"@ =~= seq!['H', 'T', 'T', 'P', '/', '1', '.', '1']);
    assert("HTTP/2.0"@ =~= seq!['H', 'T', 'T', 'P', '/', '2', '.', '0']);
    assert("HTTP/3.0"@ =~= seq!['H', 'T', 'T', 'P', '/', '3', '.', '0']);
}

/// A version is read back from its text.
proof fn lemma_version_read_back(version: Version)
    ensures
        Version::parse(version.text()) == Some(version),
        version.text().len() == 8,
        forall|i: int|
            0 <= i < 8 ==> is_visible_char(#[trigger] version.text()[i]) && version.text()[i]
                != ' ',
{
    lemma_version_texts();
    let t = version.text();
    assert("HTTP/0.9"@[5] == '0' && "HTTP/1.0"@[5] == '1' && "HTTP/2.0"@[5] == '2' && "HTTP/3.0"@[5]
        == '3' && "HTTP/1.1"@[5] == '1');
    assert("HTTP/1.0"@[7] == '0' && "HTTP/1.1"@[7] == '1');
    assert forall|i: int| 0 <= i < 8 implies is_visible_char(#[trigger] t[i]) && t[i] != ' ' by {
        if i == 0 {
        } else if i == 1 {
        } else if i == 2 {
        } else if i == 3 {
        } else if i == 4 {
        } else if i == 5 {
        } else if i == 6 {
        } else {
        }
    }
}

/// The reason phrase of a status line is visible text.
proof fn lemma_reason_visible(status: StatusCode)
    ensures
        is_visible(status.reason_text()),
{
    reveal_strlit("<unknown status code>");
}

/// A status line is visible text, and version and status are read back from
/// it.
proof fn lemma_read_status_line(version: Version, status: StatusCode)
    requires
        status.wf(),
    ensures
        is_visible(status_line(version, status)),
        read_status_line(ascii(status_line(version, status))) == Some((version, status)),
{
    let text = status_line(version, status);
    let line = ascii(text);
    let v = version.text();
    let n = status.code as nat;
    let reason = status.reason_text();
    reveal_strlit(" ");
    lemma_version_read_back(version);
    lemma_three_digits(n);
    lemma_reason_visible(status);
    let digits = decimal(n);
    assert(text =~= v + seq![' '] + digits + seq![' '] + reason);
    assert(text.len() == 13 + reason.len());
    assert forall|i: int| 0 <= i < text.len() implies is_visible_char(#[trigger] text[i]) by {
        if i < 8 {
            assert(text[i] == v[i]);
        } else if i == 8 {
        } else if i < 12 {
            assert(text[i] == digits[i - 9]);
        } else if i == 12 {
        } else {
            assert(text[i] == reason[i - 13]);
            assert(is_visible_char(reason[i - 13]));
        }
    }
    let sp = seq![32u8];
    assert(line.subrange(8, 9) =~= sp);
    lemma_find_from_least(line, sp, 0, 8);
    lemma_find_from_bounds(line, sp, 0);
    let f = find_from(line, sp, 0);
    if f < 8 {
        assert(line.subrange(f, f + 1)[0] == line[f]);
        assert(sp[0] == 32);
        assert(text[f] == v[f]);
        assert(v[f] != ' ');
        assert(is_visible_char(v[f]));
    }
    assert(f == 8);
    assert forall|i: int| 0 <= i < 8 implies (#[trigger] v[i] as u8) as char == v[i] by {
        assert(is_visible_char(v[i]));
    }
    assert(latin(line.subrange(0, 8)) =~= v) by {
        assert forall|i: int| 0 <= i < 8 implies latin(line.subrange(0, 8))[i] == v[i] by {
            assert(text[i] == v[i]);
            assert((v[i] as u8) as char == v[i]);
        }
    }
    assert(line[9] == digits[0] as u8 && line[10] == digits[1] as u8 && line[11] == digits[2]
        as u8) by {
        assert(text[9] == digits[0] && text[10] == digits[1] && text[11] == digits[2]);
    }
    assert(line[12] == 32) by {
        assert(text[12] == ' ');
    }
    let a = n / 100;
    let b = (n / 10) % 10;
    let c = n % 10;
    assert(digit_value(line[9]) == Some(a));
    assert(digit_value(line[10]) == Some(b));
    assert(digit_value(line[11]) == Some(c));
    assert(a * 100 + b * 10 + c == n);
}

/// The text of one header with the CR LF that ends it.
pub open spec fn line_text(e: (Seq<char>, Seq<char>)) -> Seq<char> {
    e.0 + ": "@ + shown(e.1) + "\r\n"@
}

/// A header on the wire is its text, byte for character.
proof fn lemma_line_text(e: (Seq<char>, Seq<char>))
    requires
        is_header_name(e.0),
    ensures
        is_ascii_chars(line_text(e)),
        ascii(line_text(e)) == line_bytes(e) + crlf_bytes(),
{
    reveal_strlit(": ");
    reveal_strlit("\r\n");
    let t = line_text(e);
    let v = shown(e.1);
    let n = e.0.len() as int;
    assert(is_visible(v));
    assert forall|i: int| 0 <= i < t.len() implies '\0' <= #[trigger] t[i] <= '\u{7f}' by {
        if i < n {
            assert(is_tchar(e.0[i]));
            assert(t[i] == e.0[i]);
        } else if i < n + 2 {
        } else if i < n + 2 + v.len() {
            assert(is_visible_char(v[i - n - 2]));
            assert(t[i] == v[i - n - 2]);
        } else {
        }
    }
    assert(ascii(t) =~= line_bytes(e) + crlf_bytes());
}

/// The header lines of a head, up to the `n`-th, are the headers on the
/// wire, byte for character.
proof fn lemma_header_block(h: Seq<(Seq<char>, Seq<char>)>, n: int)
    requires
        0 <= n <= h.len(),
        headers_wf(h),
    ensures
        is_ascii_chars(header_block(h.subrange(0, n))),
        ascii(header_block(h.subrange(0, n))) + block_bytes(h, n) == block_bytes(h, 0),
    decreases n,
{
    let part = h.subrange(0, n);
    if n == 0 {
        assert(ascii(header_block(part)) + block_bytes(h, 0) =~= block_bytes(h, 0));
    } else {
        lemma_header_block(h, n - 1);
        let before = header_block(h.subrange(0, n - 1));
        assert(part.drop_last() =~= h.subrange(0, n - 1));
        assert(part.last() == h[n - 1]);
        assert(is_header_name(h[n - 1].0));
        lemma_line_text(h[n - 1]);
        let line = line_text(h[n - 1]);
        assert(header_block(part) =~= before + line);
        assert forall|i: int| 0 <= i < header_block(part).len() implies '\0'
            <= #[trigger] header_block(part)[i] <= '\u{7f}' by {
            if i < before.len() {
                assert(header_block(part)[i] == before[i]);
            } else {
                assert(header_block(part)[i] == line[i - before.len()]);
            }
        }
        lemma_ascii_concat(before, line);
        assert(block_bytes(h, n - 1) == line_bytes(h[n - 1]) + crlf_bytes() + block_bytes(h, n));
        assert(ascii(header_block(part)) + block_bytes(h, n) =~= ascii(before) + block_bytes(
            h,
            n - 1,
        ));
    }
}

/// The head of a response on the wire: the status line, CR LF, the headers,
/// CR LF.
proof fn lemma_head_bytes(r: ResponseView)
    requires
        r.status.wf(),
        headers_wf(r.headers),
    ensures
        encode_utf8(head_text(r)) == ascii(status_line(r.version, r.status)) + crlf_bytes()
            + block_bytes(r.headers, 0) + crlf_bytes(),
{
    reveal_strlit("\r\n");
    let first = status_line(r.version, r.status);
    let block = header_block(r.headers);
    let end = "\r\n"@;
    let text = head_text(r);
    lemma_read_status_line(r.version, r.status);
    lemma_header_block(r.headers, r.headers.len() as int);
    assert(r.headers.subrange(0, r.headers.len() as int) =~= r.headers);
    assert(block_bytes(r.headers, r.headers.len() as int) =~= Seq::<u8>::empty());
    assert(ascii(block) =~= block_bytes(r.headers, 0));
    assert(text =~= first + end + block + end);
    assert forall|i: int| 0 <= i < text.len() implies '\0' <= #[trigger] text[i] <= '\u{7f}' by {
        if i < first.len() {
            assert(text[i] == first[i]);
            assert(is_visible_char(first[i]));
        } else if i < first.len() + 2 {
        } else if i < first.len() + 2 + block.len() {
            assert(text[i] == block[i - first.len() - 2]);
        } else {
        }
    }
    lemma_ascii_bytes(text);
    assert(ascii(end) =~= crlf_bytes());
    assert(ascii(text) =~= ascii(first) + crlf_bytes() + ascii(block) + crlf_bytes());
}

/// What is shown of a value is shown as it is.
proof fn lemma_shown_twice(v: Seq<char>)
    ensures
        shown(shown(v)) == shown(v),
{
    if !is_visible(v) {
        assert(is_visible(Seq::<char>::empty()));
    }
}

/// Whether a body comes in chunks can be told from the headers as they are
/// shown.
proof fn lemma_asks_chunked_shown(h: Seq<(Seq<char>, Seq<char>)>)
    ensures
        asks_chunked(shown_headers(h)) == asks_chunked(h),
{
    let s = shown_headers(h);
    if asks_chunked(h) {
        let i = choose|i: int|
            0 <= i < h.len() && (#[trigger] h[i]).0 == "transfer-encoding"@ && lower(shown(h[i].1))
                == "chunked"@;
        lemma_shown_twice(h[i].1);
        assert(s[i].0 == "transfer-encoding"@ && lower(shown(s[i].1)) == "chunked"@);
    }
    if asks_chunked(s) {
        let i = choose|i: int|
            0 <= i < s.len() && (#[trigger] s[i]).0 == "transfer-encoding"@ && lower(shown(s[i].1))
                == "chunked"@;
        lemma_shown_twice(h[i].1);
        assert(h[i].0 == "transfer-encoding"@ && lower(shown(h[i].1)) == "chunked"@);
    }
}

/// A response on the wire, read as HTTP/1.1, is the response that was
/// written, with each header value as it is shown: the same status, version,
/// headers and body. It holds of every response with a three-digit status
/// whose headers are sound.
pub proof fn lemma_read_back(r: ResponseView)
    requires
        r.status.wf(),
        headers_wf(r.headers),
    ensures
        read_response(wire(r)) == Some(as_shown(r)),
{
    let data = wire(r);
    let first = ascii(status_line(r.version, r.status));
    let block = block_bytes(r.headers, 0);
    let head = encode_utf8(head_text(r));
    lemma_head_bytes(r);
    lemma_read_status_line(r.version, r.status);
    let size = frame_size(r.body);
    let body_part = if asks_chunked(r.headers) {
        frames_from(r.body, 0, size) + last_frame()
    } else {
        r.body
    };
    assert(data == head + body_part) by {
        assert(data =~= head + body_part);
    }
    // The status line
    assert(no_cr(first)) by {
        assert forall|i: int| 0 <= i < first.len() implies #[trigger] first[i] != 13 by {
            assert(is_visible_char(status_line(r.version, r.status)[i]));
        }
    }
    lemma_no_cr_no_crlf(first);
    let after_first = block + crlf_bytes() + body_part;
    assert(data == Seq::<u8>::empty() + first + crlf_bytes() + after_first) by {
        assert(data =~= Seq::<u8>::empty() + first + crlf_bytes() + after_first);
    }
    lemma_find_after_line(Seq::empty(), first, after_first);
    let i = first.len() as int;
    assert(find_from(data, crlf_bytes(), 0) == i);
    assert(data.subrange(0, i) == first) by {
        assert(data.subrange(0, i) =~= first);
    }
    // The headers
    let pre = first + crlf_bytes();
    assert(data == pre + block + crlf_bytes() + body_part) by {
        assert(data =~= pre + block + crlf_bytes() + body_part);
    }
    lemma_read_headers(pre, r.headers, 0, body_part);
    assert(shown_headers(r.headers).subrange(0, r.headers.len() as int) =~= shown_headers(
        r.headers,
    ));
    let end: int = (pre.len() + block.len() + 2) as int;
    assert(end == head.len());
    let rest = data.subrange(end, data.len() as int);
    assert(rest == body_part) by {
        assert(rest =~= body_part);
    }
    lemma_asks_chunked_shown(r.headers);
    // The body
    if asks_chunked(r.headers) {
        lemma_chunks_read_back(r.body, size);
    }
}

} // verus!
