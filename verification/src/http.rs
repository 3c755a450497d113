//! The small HTTP side of the server: reading the head of a request (method, path,
//! `Content-Length`, where the body starts), choosing what answers it, and writing
//! responses and static files. Sockets belong to the program around the library.

use vstd::prelude::*;
use vstd::utf8::encode_utf8;
use crate::encoding::{spec_utf8_lossy, utf8_lossy};
use crate::numbers::{nat_decimal, parse_usize, parse_usize_chars, usize_decimal};
use crate::text::{chars_of, string_of, extend_chars, index_of_from, index_of_from_exec,
    lemma_index_of_from, is_white_space, char_is_white_space, trim, trim_chars, trim_start,
    starts_with, starts_with_chars, ends_with, ends_with_chars, spec_to_lowercase, to_lowercase,
    strip_leading, strip_leading_chars, str_equals, contains, contains_chars};

verus! {

// ---------------------------------------------------------------------------
// Bytes.

/// `p` occurs in `b` at position `i`.
pub open spec fn bytes_at(b: Seq<u8>, p: Seq<u8>, i: int) -> bool {
    0 <= i && i + p.len() <= b.len() && b.subrange(i, i + p.len()) == p
}

/// The first position at or after `from` where `p` occurs in `b`, or -1.
pub open spec fn find_bytes_from(b: Seq<u8>, p: Seq<u8>, from: int) -> int
    decreases b.len() + 1 - from,
{
    if from < 0 || from > b.len() {
        -1
    } else if bytes_at(b, p, from) {
        from
    } else {
        find_bytes_from(b, p, from + 1)
    }
}

/// The blank line that ends the head of a request.
pub open spec fn head_end() -> Seq<u8> {
    seq![13u8, 10u8, 13u8, 10u8]
}

fn bytes_at_exec(b: &[u8], p: &[u8], i: usize) -> (r: bool)
    ensures
        r == bytes_at(b@, p@, i as int),
{
    if i > b.len() || p.len() > b.len() - i {
        return false;
    }
    let mut j: usize = 0;
    while j < p.len()
        invariant
            i + p.len() <= b.len(),
            j <= p.len(),
            forall|k: int| 0 <= k < j ==> b@[i + k] == p@[k],
        decreases p.len() - j,
    {
        if b[i + j] != p[j] {
            assert(b@.subrange(i as int, i + p.len())[j as int] != p@[j as int]);
            return false;
        }
        j = j + 1;
    }
    assert(b@.subrange(i as int, i + p.len()) =~= p@);
    true
}

fn find_bytes(b: &[u8], p: &[u8]) -> (r: Option<usize>)
    ensures
        match r {
            Some(j) => find_bytes_from(b@, p@, 0) == j,
            None => find_bytes_from(b@, p@, 0) == -1,
        },
{
    let mut j: usize = 0;
    while j < b.len()
        invariant
            j <= b.len(),
            find_bytes_from(b@, p@, 0) == find_bytes_from(b@, p@, j as int),
        decreases b.len() - j,
    {
        if bytes_at_exec(b, p, j) {
            return Some(j);
        }
        j = j + 1;
    }
    if bytes_at_exec(b, p, j) {
        return Some(j);
    }
    assert(find_bytes_from(b@, p@, j as int + 1) == -1);
    None
}

fn head_end_bytes() -> (r: Vec<u8>)
    ensures
        r@ == head_end(),
{
    let mut v: Vec<u8> = Vec::new();
    v.push(13);
    v.push(10);
    v.push(13);
    v.push(10);
    assert(v@ =~= head_end());
    v
}

/// Whether the bytes read so far hold the whole head of a request.
pub fn head_complete(buf: &[u8]) -> (r: bool)
    ensures
        r == (find_bytes_from(buf@, head_end(), 0) >= 0),
{
    let e = head_end_bytes();
    find_bytes(buf, e.as_slice()).is_some()
}

// ---------------------------------------------------------------------------
// Lines and words.

/// A line without the carriage return that ended it.
pub open spec fn strip_cr(l: Seq<char>) -> Seq<char> {
    if l.len() > 0 && l.last() == '\r' {
        l.drop_last()
    } else {
        l
    }
}

/// The lines of a text (`str::lines`): split after each line feed, a carriage return
/// before it dropped; a final line feed ends the last line.
pub open spec fn lines_of(s: Seq<char>) -> Seq<Seq<char>>
    decreases s.len(),
{
    if s.len() == 0 {
        seq![]
    } else {
        let d = index_of_from(s, '\n', 0);
        proof {
            lemma_index_of_from(s, '\n', 0);
        }
        if d < 0 {
            seq![s]
        } else {
            seq![strip_cr(s.take(d))] + lines_of(s.skip(d + 1))
        }
    }
}

/// The first position at or after `i` holding white space, or the length.
pub open spec fn space_from(s: Seq<char>, i: int) -> int
    decreases s.len() - i,
{
    if i < 0 || i >= s.len() {
        s.len() as int
    } else if is_white_space(s[i]) {
        i
    } else {
        space_from(s, i + 1)
    }
}

/// The words of a text (`str::split_whitespace`): the runs between white space.
pub open spec fn words_of(s: Seq<char>) -> Seq<Seq<char>>
    decreases s.len(),
{
    let t = trim_start(s);
    proof {
        lemma_trim_start_len(s);
    }
    if t.len() == 0 {
        seq![]
    } else {
        let e = space_from(t, 0);
        proof {
            lemma_space_from(t, 0);
        }
        seq![t.take(e)] + words_of(t.skip(e))
    }
}

pub proof fn lemma_trim_start_len(s: Seq<char>)
    ensures
        trim_start(s).len() <= s.len(),
        trim_start(s).len() == 0 || !is_white_space(trim_start(s)[0]),
        exists|a: int| 0 <= a <= s.len() && trim_start(s) == s.skip(a),
    decreases s.len(),
{
    if s.len() > 0 && is_white_space(s[0]) {
        lemma_trim_start_len(s.drop_first());
        let a = choose|a: int| 0 <= a <= s.drop_first().len() && trim_start(s.drop_first()) == s.drop_first().skip(a);
        assert(s.drop_first().skip(a) == s.skip(a + 1));
    } else {
        assert(s.skip(0) == s);
    }
}

pub proof fn lemma_space_from(s: Seq<char>, i: int)
    requires
        0 <= i <= s.len(),
    ensures
        i <= space_from(s, i) <= s.len(),
        space_from(s, i) < s.len() ==> is_white_space(s[space_from(s, i)]),
        forall|k: int| i <= k < space_from(s, i) ==> !is_white_space(s[k]),
    decreases s.len() - i,
{
    if i < s.len() && !is_white_space(s[i]) {
        lemma_space_from(s, i + 1);
    }
}

// ---------------------------------------------------------------------------
// The head of a request.

/// The value of a header line that starts with `content-length:` (lowercased): what
/// follows that colon, up to the next one.
pub open spec fn header_value(lower: Seq<char>) -> Seq<char> {
    let rest = lower.skip(15);
    let b = index_of_from(rest, ':', 0);
    if b < 0 {
        rest
    } else {
        rest.take(b)
    }
}

/// The length that a line gives for the body: the line lowercased starts with
/// `content-length:` and its value, trimmed, is a `usize`.
pub open spec fn line_content_length(line: Seq<char>) -> Option<usize> {
    let lower = spec_to_lowercase(line);
    if starts_with(lower, "content-length:"@) {
        parse_usize(trim(header_value(lower)))
    } else {
        None
    }
}

/// The length given by the first line that gives one.
pub open spec fn first_content_length(lines: Seq<Seq<char>>) -> Option<usize>
    decreases lines.len(),
{
    if lines.len() == 0 {
        None
    } else {
        match line_content_length(lines[0]) {
            Some(n) => Some(n),
            None => first_content_length(lines.drop_first()),
        }
    }
}

/// The head of a request.
#[derive(Debug, Clone)]
pub struct RequestHead {
    pub method: String,
    pub path: String,
    pub content_length: usize,
    pub body_start: Option<usize>,
}

/// The word at position `k` of the first line, or `default`.
pub open spec fn first_line_word(text: Seq<char>, k: int, default: Seq<char>) -> Seq<char> {
    let first = if lines_of(text).len() > 0 {
        lines_of(text)[0]
    } else {
        seq![]
    };
    if k < words_of(first).len() {
        words_of(first)[k]
    } else {
        default
    }
}

/// What the head of a request says, from the bytes read so far (read as UTF-8, malformed
/// bytes replaced): the method and path are the first two words of the first line
/// (`GET` and `/` when missing); the body length is that of the first `Content-Length`
/// header that has one (0 otherwise); the body starts after the first blank line.
pub open spec fn request_head_of(buf: Seq<u8>) -> (Seq<char>, Seq<char>, usize, Option<int>) {
    let text = spec_utf8_lossy(buf);
    let e = find_bytes_from(buf, head_end(), 0);
    (
        first_line_word(text, 0, "GET"@),
        first_line_word(text, 1, "/"@),
        match first_content_length(lines_of(text)) {
            Some(n) => n,
            None => 0,
        },
        if e >= 0 {
            Some(e + 4)
        } else {
            None
        },
    )
}

fn subrange_of(s: &Vec<char>, a: usize, b: usize) -> (r: Vec<char>)
    requires
        a <= b <= s.len(),
    ensures
        r@ == s@.subrange(a as int, b as int),
{
    crate::paths::subrange_chars(s, a, b)
}

/// The lines of a text (exec).
fn lines_chars(s: &Vec<char>) -> (r: Vec<Vec<char>>)
    ensures
        crate::text::views(r@) == lines_of(s@),
{
    let mut out: Vec<Vec<char>> = Vec::new();
    let mut start: usize = 0;
    assert(s@.skip(0) == s@);
    while start < s.len()
        invariant
            start <= s.len(),
            lines_of(s@) == crate::text::views(out@) + lines_of(s@.skip(start as int)),
        decreases s.len() - start,
    {
        let ghost rest = s@.skip(start as int);
        proof {
            lemma_index_of_from(s@, '\n', start as int);
            lemma_index_of_from(rest, '\n', 0);
            let a = index_of_from(s@, '\n', start as int);
            let b = index_of_from(rest, '\n', 0);
            if a >= 0 {
                assert(rest[a - start] == s@[a]);
                if b >= 0 {
                    assert(s@[b + start] == rest[b]);
                }
            } else if b >= 0 {
                assert(s@[b + start] == rest[b]);
            }
        }
        let ghost before = out@;
        match index_of_from_exec(s, '\n', start) {
            Some(d) => {
                let mut line = subrange_of(s, start, d);
                assert(line@ == rest.take(d - start));
                if line.len() > 0 && line[line.len() - 1] == '\r' {
                    line.pop();
                }
                assert(line@ == strip_cr(rest.take(d - start)));
                out.push(line);
                assert(crate::text::views(out@) =~= crate::text::views(before).push(strip_cr(rest.take(d - start))));
                assert(rest.skip(d - start + 1) == s@.skip(d + 1));
                start = d + 1;
            },
            None => {
                let line = subrange_of(s, start, s.len());
                assert(line@ == rest);
                out.push(line);
                assert(crate::text::views(out@) =~= crate::text::views(before).push(rest));
                start = s.len();
                assert(s@.skip(start as int).len() == 0);
            },
        }
    }
    assert(s@.skip(start as int).len() == 0);
    out
}

/// The first `k + 1` words of a text, or all of them when there are fewer.
fn words_prefix(s: &Vec<char>, k: usize) -> (r: Vec<Vec<char>>)
    requires
        k < usize::MAX,
    ensures
        r.len() <= k + 1,
        r.len() == k + 1 || r.len() == words_of(s@).len(),
        forall|i: int| 0 <= i < r.len() ==> i < words_of(s@).len() && (#[trigger] r@[i])@ == words_of(s@)[i],
{
    let mut out: Vec<Vec<char>> = Vec::new();
    let mut pos: usize = 0;
    assert(s@.skip(0) == s@);
    while out.len() <= k
        invariant
            pos <= s.len(),
            out.len() <= k + 1,
            k < usize::MAX,
            words_of(s@).len() == out.len() + words_of(s@.skip(pos as int)).len(),
            forall|i: int| 0 <= i < out.len() ==> (#[trigger] out@[i])@ == words_of(s@)[i],
            forall|i: int| 0 <= i < words_of(s@.skip(pos as int)).len() ==> words_of(s@)[out.len() + i] == (#[trigger] words_of(s@.skip(pos as int))[i]),
        decreases s.len() - pos,
    {
        let ghost rest = s@.skip(pos as int);
        // skip white space
        let mut a = pos;
        while a < s.len() && char_is_white_space(s[a])
            invariant
                pos <= a <= s.len(),
                forall|j: int| pos <= j < a ==> is_white_space(s@[j]),
            decreases s.len() - a,
        {
            a = a + 1;
        }
        proof {
            lemma_trim_start_skip_gen(rest, a - pos);
            assert(rest.skip(a - pos) == s@.skip(a as int));
        }
        if a == s.len() {
            assert(trim_start(rest).len() == 0);
            assert(words_of(rest).len() == 0);
            return out;
        }
        let mut b = a;
        while b < s.len() && !char_is_white_space(s[b])
            invariant
                a <= b <= s.len(),
                forall|j: int| a <= j < b ==> !is_white_space(s@[j]),
            decreases s.len() - b,
        {
            b = b + 1;
        }
        let ghost t = s@.skip(a as int);
        proof {
            lemma_space_from_at(t, b - a);
            assert(t.take(b - a) == s@.subrange(a as int, b as int));
            assert(t.skip(b - a) == s@.skip(b as int));
            assert(trim_start(rest) == t);
            assert(words_of(rest) == seq![t.take(b - a)] + words_of(t.skip(b - a)));
        }
        let w = subrange_of(s, a, b);
        let ghost n0 = out.len() as int;
        let ghost before = out@;
        proof {
            assert(words_of(rest)[0] == t.take(b - a));
            assert(words_of(s@)[n0 + 0] == words_of(rest)[0]);
            assert forall|i: int| 0 <= i < words_of(s@.skip(b as int)).len() implies words_of(s@)[n0 + 1 + i]
                == words_of(s@.skip(b as int))[i] by {
                assert(words_of(rest)[i + 1] == words_of(t.skip(b - a))[i]);
                assert(words_of(s@)[n0 + (i + 1)] == words_of(rest)[i + 1]);
            }
        }
        out.push(w);
        proof {
            assert forall|i: int| 0 <= i < out.len() implies (#[trigger] out@[i])@ == words_of(s@)[i] by {
                if i < n0 {
                    assert(out@[i] == before[i]);
                }
            }
        }
        pos = b;
    }
    out
}

proof fn lemma_trim_start_skip_gen(s: Seq<char>, a: int)
    requires
        0 <= a <= s.len(),
        forall|j: int| 0 <= j < a ==> is_white_space(s[j]),
        a == s.len() || !is_white_space(s[a]),
    ensures
        trim_start(s) == s.skip(a),
    decreases a,
{
    if a > 0 {
        assert(s.drop_first().skip(a - 1) == s.skip(a));
        lemma_trim_start_skip_gen(s.drop_first(), a - 1);
    } else {
        assert(s.skip(0) == s);
    }
}

proof fn lemma_space_from_at(t: Seq<char>, e: int)
    requires
        0 <= e <= t.len(),
        forall|j: int| 0 <= j < e ==> !is_white_space(t[j]),
        e == t.len() || is_white_space(t[e]),
    ensures
        space_from(t, 0) == e,
{
    lemma_space_from_at_from(t, 0, e);
}

proof fn lemma_space_from_at_from(t: Seq<char>, i: int, e: int)
    requires
        0 <= i <= e <= t.len(),
        forall|j: int| i <= j < e ==> !is_white_space(t[j]),
        e == t.len() || is_white_space(t[e]),
    ensures
        space_from(t, i) == e,
    decreases e - i,
{
    if i < e {
        lemma_space_from_at_from(t, i + 1, e);
    }
}


fn header_value_chars(lower: &Vec<char>) -> (r: Vec<char>)
    requires
        lower.len() >= 15,
    ensures
        r@ == header_value(lower@),
{
    let rest = subrange_of(lower, 15, lower.len());
    assert(rest@ == lower@.skip(15));
    match index_of_from_exec(&rest, ':', 0) {
        Some(b) => {
            proof {
                lemma_index_of_from(rest@, ':', 0);
            }
            subrange_of(&rest, 0, b)
        },
        None => rest,
    }
}

fn line_content_length_exec(line: &Vec<char>) -> (r: Option<usize>)
    ensures
        r == line_content_length(line@),
{
    let lower = chars_of(to_lowercase(string_of(line).as_str()).as_str());
    let prefix = chars_of("content-length:");
    proof {
        reveal_strlit("content-length:");
    }
    if !starts_with_chars(&lower, &prefix) {
        return None;
    }
    let v = header_value_chars(&lower);
    parse_usize_chars(&trim_chars(&v))
}

fn first_content_length_exec(lines: &Vec<Vec<char>>) -> (r: Option<usize>)
    ensures
        r == first_content_length(crate::text::views(lines@)),
{
    let ghost ls = crate::text::views(lines@);
    let mut i: usize = 0;
    assert(ls.skip(0) == ls);
    while i < lines.len()
        invariant
            i <= lines.len(),
            ls == crate::text::views(lines@),
            first_content_length(ls) == first_content_length(ls.skip(i as int)),
        decreases lines.len() - i,
    {
        assert(ls.skip(i as int)[0] == lines@[i as int]@);
        assert(ls.skip(i as int).drop_first() == ls.skip(i as int + 1));
        match line_content_length_exec(&lines[i]) {
            Some(n) => {
                return Some(n);
            },
            None => {},
        }
        i = i + 1;
    }
    assert(ls.skip(i as int).len() == 0);
    None
}

/// Reads the head of a request from the bytes read so far.
pub fn parse_request_head(buf: &[u8]) -> (r: RequestHead)
    ensures
        (r.method@, r.path@, r.content_length, match r.body_start {
            Some(n) => Some(n as int),
            None => None,
        }) == request_head_of(buf@),
{
    let text_s = utf8_lossy(buf);
    let text = chars_of(text_s.as_str());
    let lines = lines_chars(&text);
    let first: Vec<char> = if lines.len() > 0 {
        lines[0].clone()
    } else {
        Vec::new()
    };
    assert(first@ == (if lines_of(text@).len() > 0 {
        lines_of(text@)[0]
    } else {
        seq![]
    }));
    let words = words_prefix(&first, 1);
    let method = if words.len() > 0 {
        string_of(&words[0])
    } else {
        string_of(&chars_of("GET"))
    };
    let path = if words.len() > 1 {
        string_of(&words[1])
    } else {
        string_of(&chars_of("/"))
    };
    let content_length = match first_content_length_exec(&lines) {
        Some(n) => n,
        None => 0,
    };
    let e = head_end_bytes();
    proof {
        lemma_find_bytes_bounds(buf@, head_end(), 0);
    }
    let body_start = match find_bytes(buf, e.as_slice()) {
        Some(i) => {
            assert(e@ == head_end());
            assert(head_end().len() == 4);
            assert(bytes_at(buf@, head_end(), i as int));
            let n = buf.len();
            assert(n == buf@.len());
            Some(i + 4)
        },
        None => None,
    };
    RequestHead { method, path, content_length, body_start }
}

proof fn lemma_find_bytes_bounds(b: Seq<u8>, p: Seq<u8>, from: int)
    requires
        0 <= from,
    ensures
        find_bytes_from(b, p, from) >= 0 ==> bytes_at(b, p, find_bytes_from(b, p, from)),
    decreases b.len() + 1 - from,
{
    if from <= b.len() && !bytes_at(b, p, from) {
        lemma_find_bytes_bounds(b, p, from + 1);
    }
}

/// Whether the head asks for a WebSocket connection: it names an `Upgrade:` header
/// (capitalized or not).
pub open spec fn is_upgrade_head(buf: Seq<u8>) -> bool {
    contains(spec_utf8_lossy(buf), "Upgrade:"@) || contains(spec_utf8_lossy(buf), "upgrade:"@)
}

pub fn is_websocket_request(buf: &[u8]) -> (r: bool)
    ensures
        r == is_upgrade_head(buf@),
{
    let text = chars_of(utf8_lossy(buf).as_str());
    contains_chars(&text, &chars_of("Upgrade:")) || contains_chars(&text, &chars_of("upgrade:"))
}

/// What answers a request.
#[derive(Debug, Clone, Copy, PartialEq, Eq)]
pub enum Route {
    /// A JSON-RPC call in the body.
    Rpc,
    /// A CORS preflight.
    Preflight,
    /// A file of the web interface.
    Static,
}

pub open spec fn route_of(method: Seq<char>, path: Seq<char>) -> Route {
    if method == "POST"@ && path == "/rpc"@ {
        Route::Rpc
    } else if method == "OPTIONS"@ {
        Route::Preflight
    } else {
        Route::Static
    }
}

/// What answers a request with this method and path.
pub fn route(method: &str, path: &str) -> (r: Route)
    ensures
        r == route_of(method@, path@),
{
    if str_equals(method, "POST") && str_equals(path, "/rpc") {
        Route::Rpc
    } else if str_equals(method, "OPTIONS") {
        Route::Preflight
    } else {
        Route::Static
    }
}

// ---------------------------------------------------------------------------
// Responses.

/// The head of a successful response with a body of `len` bytes.
pub open spec fn ok_head(content_type: Seq<char>, len: nat, cors: bool) -> Seq<char> {
    "HTTP/1.1 200 OK\r\nContent-Type: "@ + content_type + "\r\nContent-Length: "@ + nat_decimal(len)
        + "\r\nCache-Control: no-cache\r\n"@ + (if cors {
        "Access-Control-Allow-Origin: *\r\n"@
    } else {
        seq![]
    }) + "\r\n"@
}

fn push_bytes(dst: &mut Vec<u8>, src: &[u8])
    ensures
        final(dst)@ == old(dst)@ + src@,
{
    let mut i: usize = 0;
    while i < src.len()
        invariant
            i <= src.len(),
            dst@ == old(dst)@ + src@.take(i as int),
        decreases src.len() - i,
    {
        dst.push(src[i]);
        i = i + 1;
        assert(dst@ =~= old(dst)@ + src@.take(i as int));
    }
    assert(src@.take(src.len() as int) == src@);
}

fn text_bytes(s: &str) -> (r: Vec<u8>)
    ensures
        r@ == encode_utf8(s@),
{
    let mut v: Vec<u8> = Vec::new();
    push_bytes(&mut v, s.as_bytes());
    assert(v@ =~= encode_utf8(s@));
    v
}

/// A `200 OK` response: the head in UTF-8, then the body.
pub fn format_http_response(content_type: &str, body: &[u8], cors: bool) -> (r: Vec<u8>)
    ensures
        r@ == encode_utf8(ok_head(content_type@, body@.len(), cors)) + body@,
{
    let mut h = chars_of("HTTP/1.1 200 OK\r\nContent-Type: ");
    extend_chars(&mut h, &chars_of(content_type));
    extend_chars(&mut h, &chars_of("\r\nContent-Length: "));
    extend_chars(&mut h, &chars_of(usize_decimal(body.len()).as_str()));
    extend_chars(&mut h, &chars_of("\r\nCache-Control: no-cache\r\n"));
    if cors {
        extend_chars(&mut h, &chars_of("Access-Control-Allow-Origin: *\r\n"));
    }
    extend_chars(&mut h, &chars_of("\r\n"));
    assert(h@ =~= ok_head(content_type@, body@.len(), cors));
    let head = string_of(&h);
    let mut resp = text_bytes(head.as_str());
    push_bytes(&mut resp, body);
    resp
}

/// The answer to a CORS preflight.
pub open spec fn preflight_text() -> Seq<char> {
    "HTTP/1.1 204 No Content\r\nAccess-Control-Allow-Origin: *\r\nAccess-Control-Allow-Methods: POST, GET, OPTIONS\r\nAccess-Control-Allow-Headers: Content-Type\r\nContent-Length: 0\r\n\r\n"@
}

pub fn http_cors_preflight() -> (r: Vec<u8>)
    ensures
        r@ == encode_utf8(preflight_text()),
{
    text_bytes("HTTP/1.1 204 No Content\r\nAccess-Control-Allow-Origin: *\r\nAccess-Control-Allow-Methods: POST, GET, OPTIONS\r\nAccess-Control-Allow-Headers: Content-Type\r\nContent-Length: 0\r\n\r\n")
}

/// The answer when no file has the asked name.
pub open spec fn not_found_text() -> Seq<char> {
    "HTTP/1.1 404 Not Found\r\nContent-Length: 0\r\n\r\n"@
}

/// The content type of a file of the web interface, by the end of its name.
pub open spec fn mime_of(path: Seq<char>) -> Seq<char> {
    if ends_with(path, ".html"@) {
        "text/html; charset=utf-8"@
    } else if ends_with(path, ".js"@) {
        "application/javascript; charset=utf-8"@
    } else if ends_with(path, ".css"@) {
        "text/css; charset=utf-8"@
    } else if ends_with(path, ".json"@) {
        "application/json; charset=utf-8"@
    } else if ends_with(path, ".png"@) {
        "image/png"@
    } else if ends_with(path, ".svg"@) {
        "image/svg+xml"@
    } else if ends_with(path, ".ico"@) {
        "image/x-icon"@
    } else if ends_with(path, ".woff2"@) {
        "font/woff2"@
    } else if ends_with(path, ".woff"@) {
        "font/woff"@
    } else if ends_with(path, ".ttf"@) {
        "font/ttf"@
    } else {
        "application/octet-stream"@
    }
}

fn path_ends_with(p: &Vec<char>, suffix: &str) -> (r: bool)
    ensures
        r == ends_with(p@, suffix@),
{
    ends_with_chars(p, &chars_of(suffix))
}

/// The content type of a file of the web interface.
pub fn guess_mime(path: &str) -> (r: &'static str)
    ensures
        r@ == mime_of(path@),
{
    let p = chars_of(path);
    if path_ends_with(&p, ".html") {
        "text/html; charset=utf-8"
    } else if path_ends_with(&p, ".js") {
        "application/javascript; charset=utf-8"
    } else if path_ends_with(&p, ".css") {
        "text/css; charset=utf-8"
    } else if path_ends_with(&p, ".json") {
        "application/json; charset=utf-8"
    } else if path_ends_with(&p, ".png") {
        "image/png"
    } else if path_ends_with(&p, ".svg") {
        "image/svg+xml"
    } else if path_ends_with(&p, ".ico") {
        "image/x-icon"
    } else if path_ends_with(&p, ".woff2") {
        "font/woff2"
    } else if path_ends_with(&p, ".woff") {
        "font/woff"
    } else if path_ends_with(&p, ".ttf") {
        "font/ttf"
    } else {
        "application/octet-stream"
    }
}

/// The files of the web interface, by name.
#[derive(Debug, Clone)]
pub struct StaticFiles {
    pub files: Vec<(String, Vec<u8>)>,
}

pub open spec fn file_views(v: Seq<(String, Vec<u8>)>) -> Seq<(Seq<char>, Seq<u8>)> {
    v.map_values(|f: (String, Vec<u8>)| (f.0@, f.1@))
}

/// The name of the file a path asks for: without its leading slashes, `index.html` when
/// nothing is left.
pub open spec fn static_name(path: Seq<char>) -> Seq<char> {
    if strip_leading(path, '/').len() == 0 {
        "index.html"@
    } else {
        strip_leading(path, '/')
    }
}

/// The first file with the given name.
pub open spec fn lookup_file(files: Seq<(Seq<char>, Seq<u8>)>, name: Seq<char>) -> Option<Seq<u8>>
    decreases files.len(),
{
    if files.len() == 0 {
        None
    } else if files[0].0 == name {
        Some(files[0].1)
    } else {
        lookup_file(files.drop_first(), name)
    }
}

/// The answer for a file of the web interface: the file with its content type, or
/// `404 Not Found`.
pub open spec fn static_response(path: Seq<char>, files: Seq<(Seq<char>, Seq<u8>)>) -> Seq<u8> {
    let name = static_name(path);
    match lookup_file(files, name) {
        Some(body) => encode_utf8(ok_head(mime_of(name), body.len(), false)) + body,
        None => encode_utf8(not_found_text()),
    }
}

/// The answer for a file of the web interface.
pub fn serve_static_file(path: &str, files: &StaticFiles) -> (r: Vec<u8>)
    ensures
        r@ == static_response(path@, file_views(files.files@)),
{
    let stripped = strip_leading_chars(&chars_of(path), '/');
    let name = if stripped.len() == 0 {
        string_of(&chars_of("index.html"))
    } else {
        string_of(&stripped)
    };
    let ghost fs = file_views(files.files@);
    let mut i: usize = 0;
    assert(fs.skip(0) == fs);
    while i < files.files.len()
        invariant
            i <= files.files.len(),
            fs == file_views(files.files@),
            name@ == static_name(path@),
            lookup_file(fs, name@) == lookup_file(fs.skip(i as int), name@),
        decreases files.files.len() - i,
    {
        assert(fs.skip(i as int)[0] == (files.files@[i as int].0@, files.files@[i as int].1@));
        assert(fs.skip(i as int).drop_first() == fs.skip(i as int + 1));
        if str_equals(files.files[i].0.as_str(), name.as_str()) {
            let mime = guess_mime(name.as_str());
            return format_http_response(mime, files.files[i].1.as_slice(), false);
        }
        i = i + 1;
    }
    assert(fs.skip(i as int).len() == 0);
    text_bytes("HTTP/1.1 404 Not Found\r\nContent-Length: 0\r\n\r\n")
}

} // verus!
