//! The search logic of the index: the SQL text and parameters of a keyword search, the
//! ordering and paging of its results, the snippets shown for each hit, and the settings
//! kept in the index. The SQLite connection itself belongs to the program around the
//! library, which runs the statements built here and hands the rows back.

use vstd::prelude::*;
use crate::config::{Config, WatchPath, default_file_patterns};
use crate::encoding::{spec_utf8_lossy, utf8_lossy};
use crate::numbers::{int_decimal, i64_decimal, nat_decimal, nat_decimal_chars, usize_decimal,
    parse_usize, parse_usize_chars, lemma_parse_usize_decimal};
use crate::paths::{eq_ignore_ascii_case, eq_ignore_ascii_case_chars, last_index_before,
    last_index_before_exec, lemma_last_index_before};
use crate::text::{chars_of, string_of, extend_chars, str_equals, find_from, find_from_exec,
    lemma_find_from, spec_to_lowercase, to_lowercase, trim, trim_chars, strip_leading,
    strip_leading_chars, join, join_chars, views, starts_with, starts_with_chars, same_chars, lex_lt,
    lex_lt_chars, lemma_lex_lt_total, lemma_lex_lt_transitive, string_views};

verus! {

/// Where a page of search results ends: the sort value and path of its last hit.
#[derive(Debug, Clone)]
pub struct SearchCursor {
    pub sort_value: String,
    pub path: String,
}

/// A search result as the legacy search endpoint reported it.
#[derive(Debug, Clone)]
pub struct SearchResult {
    pub name: String,
    pub path: String,
    pub context: String,
    pub is_start: bool,
    pub is_end: bool,
    pub last_modified_time: i64,
}

/// One file that a keyword search found, with the text shown for it.
#[derive(Debug, Clone)]
pub struct LikeSearchHit {
    pub abs_path: String,
    pub name: String,
    pub context: String,
    pub last_modified_time: String,
    pub file_size: i64,
}

/// One row of a custom SQL query, with the names of all columns.
#[derive(Debug, Clone)]
pub struct CustomResult {
    pub columns: Vec<String>,
    pub values: Vec<String>,
}

/// The result of a custom SQL query.
#[derive(Debug, Clone)]
pub struct SqlResult {
    pub columns: Vec<String>,
    pub rows: Vec<CustomResult>,
}

/// The settings kept in the index's `config` table.
#[derive(Debug, Clone)]
pub struct DbConfig {
    pub watch_paths: Vec<WatchPath>,
    pub file_patterns: Vec<String>,
    pub context_length: usize,
    pub page_size: usize,
    pub preview_length: usize,
}

/// The filters of a search besides its keywords; every one is optional.
#[derive(Debug, Clone, Default)]
pub struct SearchFilters {
    pub name: Option<String>,
    pub types: Vec<String>,
    pub dirs: Vec<String>,
    pub time_from: Option<String>,
    pub time_to: Option<String>,
    pub size_min: Option<i64>,
    pub size_max: Option<i64>,
}

/// A bookmarked file.
#[derive(Debug, Clone)]
pub struct BookmarkItem {
    pub id: i64,
    pub abs_path: String,
    pub name: String,
    pub file_size: Option<i64>,
    pub last_modified_time: Option<String>,
}

/// A category of bookmarks with its bookmarks.
#[derive(Debug, Clone)]
pub struct BookmarkCategory {
    pub id: i64,
    pub name: String,
    pub bookmarks: Vec<BookmarkItem>,
}

/// A value bound to a `?` of an SQL statement.
#[derive(Debug, Clone)]
pub enum SqlParam {
    Text(String),
    Integer(i64),
}

/// What a bound value is, as plain values.
pub enum ParamView {
    Text(Seq<char>),
    Integer(int),
}

impl SqlParam {
    pub open spec fn view(&self) -> ParamView {
        match self {
            SqlParam::Text(s) => ParamView::Text(s@),
            SqlParam::Integer(n) => ParamView::Integer(*n as int),
        }
    }
}

pub open spec fn params_view(v: Seq<SqlParam>) -> Seq<ParamView> {
    v.map_values(|p: SqlParam| p@)
}

pub open spec fn text_params(v: Seq<Seq<char>>) -> Seq<ParamView> {
    v.map_values(|s: Seq<char>| ParamView::Text(s))
}

// ---------------------------------------------------------------------------
// Ordering of results.

/// The `ORDER BY` text, the column a cursor compares, and whether that column descends,
/// for each name of a sort order; the default is newest first.
pub open spec fn sort_choice(sort_by: Seq<char>) -> (Seq<char>, Seq<char>, bool) {
    if sort_by == "mtime_asc"@ {
        ("last_modified_time ASC, abs_path ASC"@, "last_modified_time"@, false)
    } else if sort_by == "name_desc"@ {
        ("name DESC, abs_path ASC"@, "name"@, true)
    } else if sort_by == "name_asc"@ {
        ("name ASC, abs_path ASC"@, "name"@, false)
    } else if sort_by == "size_desc"@ {
        ("file_size DESC, abs_path ASC"@, "file_size"@, true)
    } else if sort_by == "size_asc"@ {
        ("file_size ASC, abs_path ASC"@, "file_size"@, false)
    } else {
        ("last_modified_time DESC, abs_path ASC"@, "last_modified_time"@, true)
    }
}

/// The ordering that a sort name asks for.
pub fn parse_sort_by(sort_by: &str) -> (r: (String, &'static str, bool))
    ensures
        (r.0@, r.1@, r.2) == sort_choice(sort_by@),
{
    if str_equals(sort_by, "mtime_asc") {
        (string_of(&chars_of("last_modified_time ASC, abs_path ASC")), "last_modified_time", false)
    } else if str_equals(sort_by, "name_desc") {
        (string_of(&chars_of("name DESC, abs_path ASC")), "name", true)
    } else if str_equals(sort_by, "name_asc") {
        (string_of(&chars_of("name ASC, abs_path ASC")), "name", false)
    } else if str_equals(sort_by, "size_desc") {
        (string_of(&chars_of("file_size DESC, abs_path ASC")), "file_size", true)
    } else if str_equals(sort_by, "size_asc") {
        (string_of(&chars_of("file_size ASC, abs_path ASC")), "file_size", false)
    } else {
        (
            string_of(&chars_of("last_modified_time DESC, abs_path ASC")),
            "last_modified_time",
            true,
        )
    }
}

/// The value of a hit in the column that a cursor compares.
pub open spec fn sort_value_of(
    name: Seq<char>,
    file_size: i64,
    last_modified_time: Seq<char>,
    sort_col: Seq<char>,
) -> Seq<char> {
    if sort_col == "name"@ {
        name
    } else if sort_col == "file_size"@ {
        int_decimal(file_size as int)
    } else {
        last_modified_time
    }
}

/// The value of `hit` in the column `sort_col`, as text.
pub fn get_sort_value(hit: &LikeSearchHit, sort_col: &str) -> (r: String)
    ensures
        r@ == sort_value_of(hit.name@, hit.file_size, hit.last_modified_time@, sort_col@),
{
    if str_equals(sort_col, "name") {
        hit.name.clone()
    } else if str_equals(sort_col, "file_size") {
        i64_decimal(hit.file_size)
    } else {
        hit.last_modified_time.clone()
    }
}

// ---------------------------------------------------------------------------
// Text shown for a hit.

/// The first `max_chars` characters of `content`, followed by `...` when there were more.
pub open spec fn prefix_with_ellipsis(content: Seq<char>, max_chars: nat) -> Seq<char> {
    if content.len() <= max_chars {
        content
    } else {
        content.take(max_chars as int) + "..."@
    }
}

fn push_ellipsis(v: &mut Vec<char>)
    ensures
        final(v)@ == old(v)@ + "..."@,
{
    proof {
        reveal_strlit("...");
    }
    v.push('.');
    v.push('.');
    v.push('.');
    assert(v@ =~= old(v)@ + "..."@);
}

fn take_chars(s: &Vec<char>, n: usize) -> (r: Vec<char>)
    requires
        n <= s.len(),
    ensures
        r@ == s@.take(n as int),
{
    let mut out: Vec<char> = Vec::new();
    let mut i: usize = 0;
    while i < n
        invariant
            i <= n <= s.len(),
            out@ == s@.take(i as int),
        decreases n - i,
    {
        out.push(s[i]);
        i = i + 1;
        assert(out@ =~= s@.take(i as int));
    }
    out
}

fn range_chars(s: &Vec<char>, a: usize, b: usize) -> (r: Vec<char>)
    requires
        a <= b <= s.len(),
    ensures
        r@ == s@.subrange(a as int, b as int),
{
    let mut out: Vec<char> = Vec::new();
    let mut i: usize = a;
    while i < b
        invariant
            a <= i <= b <= s.len(),
            out@ == s@.subrange(a as int, i as int),
        decreases b - i,
    {
        out.push(s[i]);
        i = i + 1;
        assert(out@ =~= s@.subrange(a as int, i as int));
    }
    out
}

/// The beginning of `content`, at most `max_chars` characters, with `...` when cut.
pub fn content_prefix(content: &str, max_chars: usize) -> (r: String)
    ensures
        r@ == prefix_with_ellipsis(content@, max_chars as nat),
{
    let chars = chars_of(content);
    if chars.len() <= max_chars {
        return string_of(&chars);
    }
    let mut out = take_chars(&chars, max_chars);
    push_ellipsis(&mut out);
    string_of(&out)
}


/// The number of bytes of `c` in UTF-8.
pub open spec fn char_utf8_len(c: char) -> nat {
    if (c as u32) < 0x80 {
        1
    } else if (c as u32) < 0x800 {
        2
    } else if (c as u32) < 0x10000 {
        3
    } else {
        4
    }
}

/// The number of bytes of `s` in UTF-8; for a prefix of a text, the byte offset of the
/// character that follows it.
pub open spec fn utf8_len(s: Seq<char>) -> nat
    decreases s.len(),
{
    if s.len() == 0 {
        0
    } else {
        utf8_len(s.drop_last()) + char_utf8_len(s.last())
    }
}

/// Where `keyword`, lowercased, first occurs in the lowercased text `lower`, as a byte
/// offset; `None` for an empty keyword or one that does not occur.
pub open spec fn keyword_offset(lower: Seq<char>, keyword: Seq<char>) -> Option<nat> {
    if keyword.len() == 0 {
        None
    } else {
        let p = find_from(lower, spec_to_lowercase(keyword), 0);
        if p < 0 {
            None
        } else {
            Some(utf8_len(lower.take(p)))
        }
    }
}

/// The smaller of two optional offsets.
pub open spec fn min_offset(a: Option<nat>, b: Option<nat>) -> Option<nat> {
    match (a, b) {
        (Some(x), Some(y)) => Some(if x <= y { x } else { y }),
        (Some(x), None) => Some(x),
        (None, _) => b,
    }
}

/// The earliest byte offset in `lower` at which one of the keywords occurs.
pub open spec fn first_keyword_offset(lower: Seq<char>, keywords: Seq<Seq<char>>) -> Option<nat>
    decreases keywords.len(),
{
    if keywords.len() == 0 {
        None
    } else {
        min_offset(
            first_keyword_offset(lower, keywords.drop_last()),
            keyword_offset(lower, keywords.last()),
        )
    }
}

/// Scanning `content` from character `i`, the last character that begins at or before
/// byte `offset`.
pub open spec fn char_at_offset_from(content: Seq<char>, offset: nat, i: int) -> int
    decreases content.len() - i,
{
    if i + 1 < content.len() && utf8_len(content.take(i + 1)) <= offset {
        char_at_offset_from(content, offset, i + 1)
    } else {
        i
    }
}

/// The last character of `content` that begins at or before byte `offset`.
pub open spec fn char_at_offset(content: Seq<char>, offset: nat) -> int {
    char_at_offset_from(content, offset, 0)
}

/// The snippet of `content` shown for a hit: `context_length` characters around the first
/// place where a keyword occurs (case aside), starting half of it before that place, with
/// `...` on each side where the content goes on.
pub open spec fn snippet(content: Seq<char>, keywords: Seq<Seq<char>>, context_length: nat) -> Seq<
    char,
> {
    if content.len() == 0 {
        seq![]
    } else {
        let first = match first_keyword_offset(spec_to_lowercase(content), keywords) {
            Some(o) => o,
            None => 0,
        };
        let m = char_at_offset(content, first);
        let half = (context_length / 2) as int;
        let start = if m >= half {
            m - half
        } else {
            0
        };
        let end = if start + context_length < content.len() {
            start + context_length
        } else {
            content.len() as int
        };
        (if start > 0 {
            "..."@
        } else {
            seq![]
        }) + content.subrange(start, end) + (if end < content.len() {
            "..."@
        } else {
            seq![]
        })
    }
}

pub open spec fn string_list(v: Seq<String>) -> Seq<Seq<char>> {
    v.map_values(|s: String| s@)
}

fn char_utf8_len_exec(c: char) -> (r: u128)
    ensures
        r == char_utf8_len(c),
{
    let u = c as u32;
    if u < 0x80 {
        1
    } else if u < 0x800 {
        2
    } else if u < 0x10000 {
        3
    } else {
        4
    }
}

proof fn lemma_utf8_len_bound(s: Seq<char>)
    ensures
        utf8_len(s) <= 4 * s.len(),
    decreases s.len(),
{
    if s.len() > 0 {
        lemma_utf8_len_bound(s.drop_last());
    }
}

/// The UTF-8 length of the first `n` characters of `s`.
fn utf8_len_prefix(s: &Vec<char>, n: usize) -> (r: u128)
    requires
        n <= s.len(),
    ensures
        r == utf8_len(s@.take(n as int)),
{
    let mut acc: u128 = 0;
    let mut i: usize = 0;
    while i < n
        invariant
            i <= n <= s.len(),
            acc == utf8_len(s@.take(i as int)),
        decreases n - i,
    {
        proof {
            lemma_utf8_len_bound(s@.take(i as int));
            assert(s@.take(i as int + 1).drop_last() == s@.take(i as int));
        }
        acc = acc + char_utf8_len_exec(s[i]);
        i = i + 1;
    }
    acc
}

proof fn lemma_char_at_offset_from_bound(content: Seq<char>, offset: nat, i: int)
    requires
        0 <= i < content.len(),
    ensures
        i <= char_at_offset_from(content, offset, i) < content.len(),
    decreases content.len() - i,
{
    if i + 1 < content.len() && utf8_len(content.take(i + 1)) <= offset {
        lemma_char_at_offset_from_bound(content, offset, i + 1);
    }
}

proof fn lemma_char_at_offset_bound(content: Seq<char>, offset: nat)
    requires
        content.len() > 0,
    ensures
        0 <= char_at_offset(content, offset) < content.len(),
{
    lemma_char_at_offset_from_bound(content, offset, 0);
}

/// A snippet is one window of the text, at most `context_length` characters long and as
/// long as that unless it reaches the end of the text, marked with `...` on each side where
/// the text goes on.
pub proof fn lemma_snippet_is_a_window(content: Seq<char>, keywords: Seq<Seq<char>>, context_length: nat)
    requires
        content.len() > 0,
    ensures
        exists|start: int, end: int|
            0 <= start <= end <= content.len() && end - start <= context_length && (end - start
                == context_length || end == content.len()) && snippet(content, keywords, context_length)
                == (if start > 0 {
                "..."@
            } else {
                seq![]
            }) + content.subrange(start, end) + (if end < content.len() {
                "..."@
            } else {
                seq![]
            }),
{
    let first = match first_keyword_offset(spec_to_lowercase(content), keywords) {
        Some(o) => o,
        None => 0,
    };
    let m = char_at_offset(content, first);
    let half = (context_length / 2) as int;
    let start = if m >= half {
        m - half
    } else {
        0
    };
    let end = if start + context_length < content.len() {
        start + context_length
    } else {
        content.len() as int
    };
    lemma_char_at_offset_bound(content, first);
    assert(0 <= start <= end <= content.len());
    assert(snippet(content, keywords, context_length) == (if start > 0 {
        "..."@
    } else {
        seq![]
    }) + content.subrange(start, end) + (if end < content.len() {
        "..."@
    } else {
        seq![]
    }));
    assert(end - start <= context_length && (end - start == context_length || end
        == content.len()));
}

/// A piece of `content` around the first place where one of the keywords occurs,
/// compared without regard to case.
pub fn make_snippet(content: &str, keywords: &[String], context_length: usize) -> (r: String)
    ensures
        r@ == snippet(content@, string_list(keywords@), context_length as nat),
{
    let chars = chars_of(content);
    let n = chars.len();
    if n == 0 {
        return String::new();
    }
    let lower_text = to_lowercase(content);
    let lower = chars_of(&lower_text);
    let ghost kws = string_list(keywords@);
    let mut first: Option<u128> = None;
    let mut k: usize = 0;
    while k < keywords.len()
        invariant
            k <= keywords.len(),
            kws == string_list(keywords@),
            lower@ == spec_to_lowercase(content@),
            match first {
                Some(o) => first_keyword_offset(lower@, kws.take(k as int)) == Some(o as nat),
                None => first_keyword_offset(lower@, kws.take(k as int)) is None,
            },
        decreases keywords.len() - k,
    {
        assert(kws.take(k as int + 1).drop_last() == kws.take(k as int));
        let kw = &keywords[k];
        assert(kws.take(k as int + 1).last() == kw@);
        let found: Option<u128> = if kw.as_str().is_empty() {
            None
        } else {
            let kl = chars_of(&to_lowercase(kw.as_str()));
            match find_from_exec(&lower, &kl, 0) {
                Some(p) => {
                    proof {
                        lemma_find_from(lower@, kl@, 0);
                    }
                    Some(utf8_len_prefix(&lower, p))
                },
                None => None,
            }
        };
        assert(match found {
            Some(o) => keyword_offset(lower@, kw@) == Some(o as nat),
            None => keyword_offset(lower@, kw@) is None,
        });
        first = match (first, found) {
            (Some(x), Some(y)) => Some(if x <= y { x } else { y }),
            (Some(x), None) => Some(x),
            (None, _) => found,
        };
        k = k + 1;
    }
    assert(kws.take(keywords.len() as int) == kws);
    let first_pos: u128 = match first {
        Some(o) => o,
        None => 0,
    };
    // The last character that begins at or before `first_pos`.
    let mut m: usize = 0;
    let mut acc: u128 = 0;
    proof {
        lemma_utf8_len_bound(chars@.take(0));
    }
    while m + 1 < n && acc + char_utf8_len_exec(chars[m]) <= first_pos
        invariant
            m < n,
            n == chars.len(),
            acc == utf8_len(chars@.take(m as int)),
            acc <= 4 * m,
            char_at_offset(chars@, first_pos as nat) == char_at_offset_from(
                chars@,
                first_pos as nat,
                m as int,
            ),
        decreases n - m,
    {
        assert(chars@.take(m as int + 1).drop_last() == chars@.take(m as int));
        acc = acc + char_utf8_len_exec(chars[m]);
        m = m + 1;
    }
    proof {
        if m + 1 < n {
            assert(chars@.take(m as int + 1).drop_last() == chars@.take(m as int));
        }
    }
    assert(char_at_offset(chars@, first_pos as nat) == m);
    let half = context_length / 2;
    let start: usize = if m >= half {
        m - half
    } else {
        0
    };
    let end: usize = if context_length < n - start {
        start + context_length
    } else {
        n
    };
    let mut out: Vec<char> = Vec::new();
    if start > 0 {
        push_ellipsis(&mut out);
    }
    let body = range_chars(&chars, start, end);
    extend_chars(&mut out, &body);
    if end < n {
        push_ellipsis(&mut out);
    }
    string_of(&out)
}


// ---------------------------------------------------------------------------
// LIKE patterns.

/// How one character is written in a LIKE pattern: `%` and `_` are escaped with a
/// backslash, and so is the backslash itself when `backslash` is set.
pub open spec fn like_escape_char(c: char, backslash: bool) -> Seq<char> {
    if backslash && c == '\\' {
        seq!['\\', '\\']
    } else if c == '%' {
        seq!['\\', '%']
    } else if c == '_' {
        seq!['\\', '_']
    } else {
        seq![c]
    }
}

/// `s` with each character written as `like_escape_char` writes it.
pub open spec fn like_escaped(s: Seq<char>, backslash: bool) -> Seq<char>
    decreases s.len(),
{
    if s.len() == 0 {
        seq![]
    } else {
        like_escape_char(s[0], backslash) + like_escaped(s.drop_first(), backslash)
    }
}

pub proof fn lemma_like_escaped_concat(a: Seq<char>, b: Seq<char>, backslash: bool)
    ensures
        like_escaped(a + b, backslash) == like_escaped(a, backslash) + like_escaped(b, backslash),
    decreases a.len(),
{
    if a.len() == 0 {
        assert(a + b == b);
    } else {
        assert((a + b).drop_first() == a.drop_first() + b);
        lemma_like_escaped_concat(a.drop_first(), b, backslash);
    }
}

fn escape_chars(s: &Vec<char>, backslash: bool) -> (r: Vec<char>)
    ensures
        r@ == like_escaped(s@, backslash),
{
    let mut out: Vec<char> = Vec::new();
    let mut i: usize = 0;
    while i < s.len()
        invariant
            i <= s.len(),
            out@ == like_escaped(s@.take(i as int), backslash),
        decreases s.len() - i,
    {
        let c = s[i];
        proof {
            lemma_like_escaped_concat(s@.take(i as int), seq![c], backslash);
            assert(s@.take(i as int + 1) == s@.take(i as int) + seq![c]);
            assert(like_escaped(seq![c], backslash) == like_escape_char(c, backslash) + like_escaped(
                seq![c].drop_first(),
                backslash,
            ));
            assert(seq![c].drop_first().len() == 0);
        }
        if backslash && c == '\\' {
            out.push('\\');
            out.push('\\');
        } else if c == '%' {
            out.push('\\');
            out.push('%');
        } else if c == '_' {
            out.push('\\');
            out.push('_');
        } else {
            out.push(c);
        }
        i = i + 1;
        assert(out@ =~= like_escaped(s@.take(i as int), backslash));
    }
    assert(s@.take(s.len() as int) == s@);
    out
}

/// `s` written so that a LIKE with `ESCAPE '\\'` matches it literally.
pub fn escape_like(s: &str) -> (r: String)
    ensures
        r@ == like_escaped(s@, true),
{
    string_of(&escape_chars(&chars_of(s), true))
}

/// What a LIKE with `ESCAPE '\\'` reads from an escaped pattern: each backslash stands
/// for the character after it.
pub open spec fn like_unescaped(s: Seq<char>) -> Seq<char>
    decreases s.len(),
{
    if s.len() == 0 {
        seq![]
    } else if s[0] == '\\' && s.len() >= 2 {
        seq![s[1]] + like_unescaped(s.skip(2))
    } else {
        seq![s[0]] + like_unescaped(s.drop_first())
    }
}

/// Whether a LIKE pattern read with `ESCAPE '\\'` has no wildcard: every `%` and `_` in it
/// stands after a backslash that escapes it.
pub open spec fn no_free_wildcard(r: Seq<char>) -> bool
    decreases r.len(),
{
    if r.len() == 0 {
        true
    } else if r[0] == '\\' {
        r.len() >= 2 && no_free_wildcard(r.skip(2))
    } else {
        r[0] != '%' && r[0] != '_' && no_free_wildcard(r.drop_first())
    }
}

/// An escaped text holds no wildcard: a LIKE with `ESCAPE '\\'` matches it character for
/// character, whatever `%`, `_` or `\\` the text holds.
pub proof fn lemma_escaped_has_no_wildcard(s: Seq<char>)
    ensures
        no_free_wildcard(like_escaped(s, true)),
    decreases s.len(),
{
    if s.len() > 0 {
        let e = like_escaped(s, true);
        let rest = like_escaped(s.drop_first(), true);
        lemma_escaped_has_no_wildcard(s.drop_first());
        let c = s[0];
        if c == '\\' || c == '%' || c == '_' {
            assert(e == seq!['\\', c] + rest);
            assert(e.skip(2) == rest);
        } else {
            assert(e == seq![c] + rest);
            assert(e.drop_first() == rest);
        }
    }
}

/// A keyword's pattern is the keyword, escaped so that it holds no wildcard and reads back
/// as the keyword, between two `%`: the search looks for the keyword as it was typed,
/// anywhere in the text.
pub proof fn lemma_keyword_pattern_is_literal(k: Seq<char>)
    ensures
        keyword_pattern(k) == seq!['%'] + like_escaped(k, true) + seq!['%'],
        no_free_wildcard(like_escaped(k, true)),
        like_unescaped(like_escaped(k, true)) == k,
{
    lemma_escaped_has_no_wildcard(k);
    lemma_escape_like_round_trip(k);
}

/// Escaping loses nothing: reading an escaped text back gives the text itself, so a
/// filter on a name or a directory matches what the user typed and nothing else.
pub proof fn lemma_escape_like_round_trip(s: Seq<char>)
    ensures
        like_unescaped(like_escaped(s, true)) == s,
    decreases s.len(),
{
    if s.len() > 0 {
        let e = like_escaped(s, true);
        let rest = like_escaped(s.drop_first(), true);
        lemma_escape_like_round_trip(s.drop_first());
        let c = s[0];
        if c == '\\' || c == '%' || c == '_' {
            assert(e == seq!['\\', c] + rest);
            assert(e.skip(2) == rest);
        } else {
            assert(e == seq![c] + rest);
            assert(e.drop_first() == rest);
        }
        assert(s == seq![c] + s.drop_first());
    }
}

/// The LIKE pattern of a search keyword, for a LIKE with `ESCAPE '\\'`: `\\`, `%` and `_`
/// escaped, wrapped in `%`, so that the keyword is matched literally anywhere in the text.
pub open spec fn keyword_pattern(k: Seq<char>) -> Seq<char> {
    seq!['%'] + like_escaped(k, true) + seq!['%']
}

fn keyword_pattern_chars(k: &Vec<char>) -> (r: Vec<char>)
    ensures
        r@ == keyword_pattern(k@),
{
    let mut out: Vec<char> = Vec::new();
    out.push('%');
    let e = escape_chars(k, true);
    extend_chars(&mut out, &e);
    out.push('%');
    assert(out@ =~= keyword_pattern(k@));
    out
}


// ---------------------------------------------------------------------------
// Filters.

pub open spec fn opt_text(o: Option<String>) -> Option<Seq<char>> {
    match o {
        Some(s) => Some(s@),
        None => None,
    }
}

/// The clauses of a filter and the values they bind, in order.
pub type FilterSql = (Seq<Seq<char>>, Seq<ParamView>);

pub open spec fn no_filter() -> FilterSql {
    (seq![], seq![])
}

pub open spec fn join_filters(a: FilterSql, b: FilterSql) -> FilterSql {
    (a.0 + b.0, a.1 + b.1)
}

/// The name filter: file names containing the (trimmed) text, taken literally.
pub open spec fn name_filter(name: Option<Seq<char>>) -> FilterSql {
    match name {
        Some(n) => if trim(n).len() > 0 {
            (
                seq!["name LIKE ? ESCAPE '\\'"@],
                seq![ParamView::Text(seq!['%'] + like_escaped(trim(n), true) + seq!['%'])],
            )
        } else {
            no_filter()
        },
        None => no_filter(),
    }
}

/// The extension that a type filter entry names: trimmed, leading dots removed,
/// lowercased.
pub open spec fn type_ext(t: Seq<char>) -> Seq<char> {
    spec_to_lowercase(strip_leading(trim(t), '.'))
}

/// The non-empty extensions that the type filter names, in order.
pub open spec fn type_exts(types: Seq<Seq<char>>) -> Seq<Seq<char>>
    decreases types.len(),
{
    if types.len() == 0 {
        seq![]
    } else {
        let e = type_ext(types.last());
        type_exts(types.drop_last()) + if e.len() > 0 {
            seq![e]
        } else {
            seq![]
        }
    }
}

/// The values bound for the extensions: `%.` and the extension.
pub open spec fn ext_params(exts: Seq<Seq<char>>) -> Seq<ParamView>
    decreases exts.len(),
{
    if exts.len() == 0 {
        seq![]
    } else {
        ext_params(exts.drop_last()).push(ParamView::Text(seq!['%', '.'] + exts.last()))
    }
}

/// `item` written `k` times with `sep` between consecutive copies.
pub open spec fn repeat_join(item: Seq<char>, sep: Seq<char>, k: nat) -> Seq<char>
    decreases k,
{
    if k == 0 {
        seq![]
    } else if k == 1 {
        item
    } else {
        repeat_join(item, sep, (k - 1) as nat) + sep + item
    }
}

/// `k` copies of `item` joined by ` OR `, in parentheses.
pub open spec fn any_of(item: Seq<char>, k: nat) -> Seq<char> {
    seq!['('] + repeat_join(item, " OR "@, k) + seq![')']
}

/// The type filter: names ending in `.` and one of the extensions, case aside.
pub open spec fn types_filter(types: Seq<Seq<char>>) -> FilterSql {
    let exts = type_exts(types);
    if exts.len() > 0 {
        (seq![any_of("lower(name) LIKE ?"@, exts.len())], ext_params(exts))
    } else {
        no_filter()
    }
}

/// The directories of the directory filter that are not blank, trimmed, in order.
pub open spec fn dir_prefixes(dirs: Seq<Seq<char>>) -> Seq<Seq<char>>
    decreases dirs.len(),
{
    if dirs.len() == 0 {
        seq![]
    } else {
        dir_prefixes(dirs.drop_last()) + if trim(dirs.last()).len() > 0 {
            seq![trim(dirs.last())]
        } else {
            seq![]
        }
    }
}

/// The values bound for the directories: the directory taken literally, then `%`.
pub open spec fn dir_params(dirs: Seq<Seq<char>>) -> Seq<ParamView>
    decreases dirs.len(),
{
    if dirs.len() == 0 {
        seq![]
    } else {
        dir_params(dirs.drop_last()).push(
            ParamView::Text(like_escaped(dirs.last(), true) + seq!['%']),
        )
    }
}

/// The directory filter: paths that begin with one of the directories, taken literally.
pub open spec fn dirs_filter(dirs: Seq<Seq<char>>) -> FilterSql {
    let ds = dir_prefixes(dirs);
    if ds.len() > 0 {
        (seq![any_of("abs_path LIKE ? ESCAPE '\\'"@, ds.len())], dir_params(ds))
    } else {
        no_filter()
    }
}

/// A filter on a date bound: the modification date compared with the (trimmed) date.
pub open spec fn date_filter(bound: Option<Seq<char>>, clause: Seq<char>) -> FilterSql {
    match bound {
        Some(b) => if trim(b).len() > 0 {
            (seq![clause], seq![ParamView::Text(trim(b))])
        } else {
            no_filter()
        },
        None => no_filter(),
    }
}

/// A filter on a size bound.
pub open spec fn size_filter(bound: Option<i64>, clause: Seq<char>) -> FilterSql {
    match bound {
        Some(b) => (seq![clause], seq![ParamView::Integer(b as int)]),
        None => no_filter(),
    }
}

/// All the clauses of the filters and the values they bind, in the order name, types,
/// directories, earliest date, latest date, smallest size, largest size.
pub open spec fn filter_sql(f: SearchFilters) -> FilterSql {
    join_filters(
        join_filters(
            join_filters(
                join_filters(
                    join_filters(
                        join_filters(name_filter(opt_text(f.name)), types_filter(string_list(f.types@))),
                        dirs_filter(string_list(f.dirs@)),
                    ),
                    date_filter(opt_text(f.time_from), "date(last_modified_time) >= date(?)"@),
                ),
                date_filter(opt_text(f.time_to), "date(last_modified_time) <= date(?)"@),
            ),
            size_filter(f.size_min, "file_size >= ?"@),
        ),
        size_filter(f.size_max, "file_size <= ?"@),
    )
}

fn text_param(v: &Vec<char>) -> (r: SqlParam)
    ensures
        r@ == ParamView::Text(v@),
{
    SqlParam::Text(string_of(v))
}

/// Adds a filter's clauses and values.
fn add_filter(
    clauses: &mut Vec<String>,
    params: &mut Vec<SqlParam>,
    c: &Vec<char>,
    p: SqlParam,
    Ghost(f): Ghost<FilterSql>,
)
    requires
        f == (seq![c@], seq![p@]),
    ensures
        string_list(final(clauses)@) == string_list(old(clauses)@) + f.0,
        params_view(final(params)@) == params_view(old(params)@) + f.1,
{
    clauses.push(string_of(c));
    params.push(p);
    assert(string_list(clauses@) =~= string_list(old(clauses)@) + f.0);
    assert(params_view(params@) =~= params_view(old(params)@) + f.1);
}

/// `k` copies of `item` joined by ` OR `, in parentheses.
fn any_of_chars(item: &Vec<char>, k: usize) -> (r: Vec<char>)
    ensures
        r@ == any_of(item@, k as nat),
{
    let sep = chars_of(" OR ");
    let mut acc: Vec<char> = Vec::new();
    let mut i: usize = 0;
    while i < k
        invariant
            i <= k,
            sep@ == " OR "@,
            acc@ == repeat_join(item@, sep@, i as nat),
        decreases k - i,
    {
        if i > 0 {
            extend_chars(&mut acc, &sep);
        }
        extend_chars(&mut acc, item);
        i = i + 1;
    }
    let mut out: Vec<char> = Vec::new();
    out.push('(');
    extend_chars(&mut out, &acc);
    out.push(')');
    assert(out@ =~= any_of(item@, k as nat));
    out
}

fn opt_trimmed(o: &Option<String>) -> (r: Option<Vec<char>>)
    ensures
        match opt_text(*o) {
            Some(s) => r matches Some(t) && t@ == trim(s),
            None => r is None,
        },
{
    match o {
        Some(s) => Some(trim_chars(&chars_of(s.as_str()))),
        None => None,
    }
}

fn add_name_filter(clauses: &mut Vec<String>, params: &mut Vec<SqlParam>, name: &Option<String>)
    ensures
        string_list(final(clauses)@) == string_list(old(clauses)@) + name_filter(opt_text(*name)).0,
        params_view(final(params)@) == params_view(old(params)@) + name_filter(opt_text(*name)).1,
{
    match opt_trimmed(name) {
        Some(t) => {
            if t.len() > 0 {
                let mut pat: Vec<char> = Vec::new();
                pat.push('%');
                extend_chars(&mut pat, &escape_chars(&t, true));
                pat.push('%');
                assert(pat@ == seq!['%'] + like_escaped(t@, true) + seq!['%']);
                add_filter(
                    clauses,
                    params,
                    &chars_of("name LIKE ? ESCAPE '\\'"),
                    text_param(&pat),
                    Ghost(name_filter(opt_text(*name))),
                );
                return;
            }
        },
        None => {},
    }
    assert(string_list(clauses@) =~= string_list(clauses@) + no_filter().0);
    assert(params_view(params@) =~= params_view(params@) + no_filter().1);
}

fn add_types_filter(clauses: &mut Vec<String>, params: &mut Vec<SqlParam>, types_v: &Vec<String>)
    ensures
        string_list(final(clauses)@) == string_list(old(clauses)@) + types_filter(string_list(types_v@)).0,
        params_view(final(params)@) == params_view(old(params)@) + types_filter(string_list(types_v@)).1,
{
    let ghost types = string_list(types_v@);
    let ghost pbefore = params_view(params@);
    let mut n_ext: usize = 0;
    let mut i: usize = 0;
    while i < types_v.len()
        invariant
            i <= types_v.len(),
            n_ext <= i,
            types == string_list(types_v@),
            n_ext == type_exts(types.take(i as int)).len(),
            params_view(params@) == pbefore + ext_params(type_exts(types.take(i as int))),
            clauses == old(clauses),
        decreases types_v.len() - i,
    {
        assert(types.take(i as int + 1).drop_last() == types.take(i as int));
        assert(types.take(i as int + 1).last() == types_v@[i as int]@);
        let t = trim_chars(&chars_of(types_v[i].as_str()));
        let stripped = strip_leading_chars(&t, '.');
        let ext = chars_of(&to_lowercase(string_of(&stripped).as_str()));
        let ghost prev = type_exts(types.take(i as int));
        if ext.len() > 0 {
            let mut pat: Vec<char> = Vec::new();
            pat.push('%');
            pat.push('.');
            extend_chars(&mut pat, &ext);
            assert(pat@ == seq!['%', '.'] + ext@);
            let ghost before = params@;
            params.push(text_param(&pat));
            n_ext = n_ext + 1;
            assert(params_view(params@) =~= params_view(before).push(ParamView::Text(pat@)));
            assert(type_exts(types.take(i as int + 1)) == prev.push(ext@));
            assert(prev.push(ext@).drop_last() == prev);
            assert(ext_params(prev.push(ext@)) == ext_params(prev).push(ParamView::Text(pat@)));
            assert(params_view(params@) =~= pbefore + ext_params(prev.push(ext@)));
        } else {
            assert(type_exts(types.take(i as int + 1)) =~= prev);
        }
        i = i + 1;
    }
    assert(types.take(types_v.len() as int) == types);
    if n_ext > 0 {
        let item = chars_of("lower(name) LIKE ?");
        clauses.push(string_of(&any_of_chars(&item, n_ext)));
    }
    assert(string_list(clauses@) =~= string_list(old(clauses)@) + types_filter(types).0);
    assert(params_view(params@) =~= pbefore + types_filter(types).1);
}

fn add_dirs_filter(clauses: &mut Vec<String>, params: &mut Vec<SqlParam>, dirs_v: &Vec<String>)
    ensures
        string_list(final(clauses)@) == string_list(old(clauses)@) + dirs_filter(string_list(dirs_v@)).0,
        params_view(final(params)@) == params_view(old(params)@) + dirs_filter(string_list(dirs_v@)).1,
{
    let ghost dirs = string_list(dirs_v@);
    let ghost pbefore = params_view(params@);
    let mut n_dir: usize = 0;
    let mut j: usize = 0;
    while j < dirs_v.len()
        invariant
            j <= dirs_v.len(),
            n_dir <= j,
            dirs == string_list(dirs_v@),
            n_dir == dir_prefixes(dirs.take(j as int)).len(),
            params_view(params@) == pbefore + dir_params(dir_prefixes(dirs.take(j as int))),
            clauses == old(clauses),
        decreases dirs_v.len() - j,
    {
        assert(dirs.take(j as int + 1).drop_last() == dirs.take(j as int));
        assert(dirs.take(j as int + 1).last() == dirs_v@[j as int]@);
        let t = trim_chars(&chars_of(dirs_v[j].as_str()));
        let ghost prev = dir_prefixes(dirs.take(j as int));
        if t.len() > 0 {
            let mut pat = escape_chars(&t, true);
            pat.push('%');
            assert(pat@ == like_escaped(t@, true) + seq!['%']);
            let ghost before = params@;
            params.push(text_param(&pat));
            n_dir = n_dir + 1;
            assert(params_view(params@) =~= params_view(before).push(ParamView::Text(pat@)));
            assert(dir_prefixes(dirs.take(j as int + 1)) == prev.push(t@));
            assert(prev.push(t@).drop_last() == prev);
            assert(dir_params(prev.push(t@)) == dir_params(prev).push(ParamView::Text(pat@)));
            assert(params_view(params@) =~= pbefore + dir_params(prev.push(t@)));
        } else {
            assert(dir_prefixes(dirs.take(j as int + 1)) =~= prev);
        }
        j = j + 1;
    }
    assert(dirs.take(dirs_v.len() as int) == dirs);
    if n_dir > 0 {
        let item = chars_of("abs_path LIKE ? ESCAPE '\\'");
        clauses.push(string_of(&any_of_chars(&item, n_dir)));
    }
    assert(string_list(clauses@) =~= string_list(old(clauses)@) + dirs_filter(dirs).0);
    assert(params_view(params@) =~= pbefore + dirs_filter(dirs).1);
}

fn add_date_filter(
    clauses: &mut Vec<String>,
    params: &mut Vec<SqlParam>,
    bound: &Option<String>,
    clause: &str,
)
    ensures
        string_list(final(clauses)@) == string_list(old(clauses)@) + date_filter(opt_text(*bound), clause@).0,
        params_view(final(params)@) == params_view(old(params)@) + date_filter(opt_text(*bound), clause@).1,
{
    match opt_trimmed(bound) {
        Some(t) => {
            if t.len() > 0 {
                add_filter(
                    clauses,
                    params,
                    &chars_of(clause),
                    text_param(&t),
                    Ghost(date_filter(opt_text(*bound), clause@)),
                );
                return;
            }
        },
        None => {},
    }
    assert(string_list(clauses@) =~= string_list(clauses@) + no_filter().0);
    assert(params_view(params@) =~= params_view(params@) + no_filter().1);
}

fn add_size_filter(
    clauses: &mut Vec<String>,
    params: &mut Vec<SqlParam>,
    bound: Option<i64>,
    clause: &str,
)
    ensures
        string_list(final(clauses)@) == string_list(old(clauses)@) + size_filter(bound, clause@).0,
        params_view(final(params)@) == params_view(old(params)@) + size_filter(bound, clause@).1,
{
    match bound {
        Some(b) => {
            add_filter(
                clauses,
                params,
                &chars_of(clause),
                SqlParam::Integer(b),
                Ghost(size_filter(bound, clause@)),
            );
        },
        None => {
            assert(string_list(clauses@) =~= string_list(clauses@) + no_filter().0);
            assert(params_view(params@) =~= params_view(params@) + no_filter().1);
        },
    }
}

/// Adds the clauses of the filters to a search, and their values to `params`.
pub fn build_filter_sql(filters: &SearchFilters, params: &mut Vec<SqlParam>) -> (r: Vec<String>)
    ensures
        string_list(r@) == filter_sql(*filters).0,
        params_view(final(params)@) == params_view(old(params)@) + filter_sql(*filters).1,
{
    let ghost p0 = params_view(params@);
    let mut clauses: Vec<String> = Vec::new();
    assert(string_list(clauses@) =~= seq![]);
    add_name_filter(&mut clauses, params, &filters.name);
    add_types_filter(&mut clauses, params, &filters.types);
    add_dirs_filter(&mut clauses, params, &filters.dirs);
    add_date_filter(&mut clauses, params, &filters.time_from, "date(last_modified_time) >= date(?)");
    add_date_filter(&mut clauses, params, &filters.time_to, "date(last_modified_time) <= date(?)");
    add_size_filter(&mut clauses, params, filters.size_min, "file_size >= ?");
    add_size_filter(&mut clauses, params, filters.size_max, "file_size <= ?");
    assert(string_list(clauses@) =~= filter_sql(*filters).0);
    assert(params_view(params@) =~= p0 + filter_sql(*filters).1);
    clauses
}


// ---------------------------------------------------------------------------
// Keyword search.

/// The keywords that are not empty, in order.
pub open spec fn nonempty_keywords(kws: Seq<Seq<char>>) -> Seq<Seq<char>>
    decreases kws.len(),
{
    if kws.len() == 0 {
        seq![]
    } else {
        nonempty_keywords(kws.drop_last()) + if kws.last().len() > 0 {
            seq![kws.last()]
        } else {
            seq![]
        }
    }
}

/// The values bound for the keywords: their LIKE patterns.
pub open spec fn keyword_params(kws: Seq<Seq<char>>) -> Seq<ParamView>
    decreases kws.len(),
{
    if kws.len() == 0 {
        seq![]
    } else {
        keyword_params(kws.drop_last()).push(ParamView::Text(keyword_pattern(kws.last())))
    }
}

/// The column a search looks in: the file name, or the text of the file.
pub open spec fn hit_column(name_only: bool) -> Seq<char> {
    if name_only {
        "name"@
    } else {
        "content"@
    }
}

/// How the keyword conditions are combined: all of them when the mode is `AND` (case
/// aside), any of them otherwise.
pub open spec fn keyword_joiner(mode: Seq<char>) -> Seq<char> {
    if eq_ignore_ascii_case(mode, "AND"@) {
        " AND "@
    } else {
        " OR "@
    }
}

/// The condition on the keywords and the values it binds; `None` when no keyword is
/// non-empty, in which case nothing is searched.
pub open spec fn keyword_sql(kws: Seq<Seq<char>>, mode: Seq<char>, name_only: bool) -> Option<
    (Seq<char>, Seq<ParamView>),
> {
    let ks = nonempty_keywords(kws);
    if ks.len() == 0 {
        None
    } else {
        Some(
            (
                seq!['('] + repeat_join(hit_column(name_only) + " LIKE ? ESCAPE '\\'"@, keyword_joiner(mode), ks.len())
                    + seq![')'],
                keyword_params(ks),
            ),
        )
    }
}

/// The condition that starts a page after a cursor: past its sort value in the direction
/// of the ordering, or equal to it with a later path.
pub open spec fn cursor_sql(cursor: Option<(Seq<char>, Seq<char>)>, sort_col: Seq<char>, desc: bool) -> FilterSql {
    match cursor {
        Some((value, path)) => (
            seq![
                seq!['('] + sort_col + seq![' '] + (if desc {
                    seq!['<']
                } else {
                    seq!['>']
                }) + " ? OR ("@ + sort_col + " = ? AND abs_path > ?))"@,
            ],
            seq![ParamView::Text(value), ParamView::Text(value), ParamView::Text(path)],
        ),
        None => no_filter(),
    }
}

/// The next page continues in the order of the search: for a sort name that orders upward
/// (`mtime_asc`, `name_asc`, `size_asc`) the rows are ordered by the column upward and the
/// page after a cursor takes the rows whose value is greater than the cursor's, or equal
/// with a greater path; for the other sort names the rows are ordered downward and the page
/// takes the rows whose value is smaller, or equal with a greater path. The cursor's value is
/// bound twice, then its path.
pub proof fn lemma_next_page_follows_the_order(sort_by: Seq<char>, value: Seq<char>, path: Seq<char>)
    ensures
        ({
            let (order_by, col, desc) = sort_choice(sort_by);
            let cs = cursor_sql(Some((value, path)), col, desc);
            &&& (sort_by == "mtime_asc"@ || sort_by == "name_asc"@ || sort_by == "size_asc"@)
                <==> !desc
            &&& !desc ==> order_by == col + " ASC, abs_path ASC"@
            &&& desc ==> order_by == col + " DESC, abs_path ASC"@
            &&& !desc ==> cs.0 == seq!["("@ + col + " > ? OR ("@ + col + " = ? AND abs_path > ?))"@]
            &&& desc ==> cs.0 == seq!["("@ + col + " < ? OR ("@ + col + " = ? AND abs_path > ?))"@]
            &&& cs.1 == seq![ParamView::Text(value), ParamView::Text(value), ParamView::Text(path)]
        }),
{
    reveal_strlit("(");
    reveal_strlit(" > ? OR (");
    reveal_strlit(" < ? OR (");
    reveal_strlit(" ? OR (");
    reveal_strlit(" ASC, abs_path ASC");
    reveal_strlit(" DESC, abs_path ASC");
    reveal_strlit("mtime_asc");
    reveal_strlit("name_asc");
    reveal_strlit("size_asc");
    reveal_strlit("name_desc");
    reveal_strlit("size_desc");
    reveal_strlit("last_modified_time");
    reveal_strlit("name");
    reveal_strlit("file_size");
    reveal_strlit("last_modified_time ASC, abs_path ASC");
    reveal_strlit("last_modified_time DESC, abs_path ASC");
    reveal_strlit("name ASC, abs_path ASC");
    reveal_strlit("name DESC, abs_path ASC");
    reveal_strlit("file_size ASC, abs_path ASC");
    reveal_strlit("file_size DESC, abs_path ASC");
    let (order_by, col, desc) = sort_choice(sort_by);
    let cs = cursor_sql(Some((value, path)), col, desc);
    if desc {
        assert(seq![' '] + seq!['<'] + " ? OR ("@ =~= " < ? OR ("@);
        assert(cs.0[0] =~= "("@ + col + " < ? OR ("@ + col + " = ? AND abs_path > ?))"@);
        assert(cs.0 =~= seq!["("@ + col + " < ? OR ("@ + col + " = ? AND abs_path > ?))"@]);
        assert(order_by =~= col + " DESC, abs_path ASC"@);
    } else {
        assert(seq![' '] + seq!['>'] + " ? OR ("@ =~= " > ? OR ("@);
        assert(cs.0[0] =~= "("@ + col + " > ? OR ("@ + col + " = ? AND abs_path > ?))"@);
        assert(cs.0 =~= seq!["("@ + col + " > ? OR ("@ + col + " = ? AND abs_path > ?))"@]);
        assert(order_by =~= col + " ASC, abs_path ASC"@);
    }
    assert(cs.1 =~= seq![ParamView::Text(value), ParamView::Text(value), ParamView::Text(path)]);
    assert("name_asc"@.len() != "name_desc"@.len());
    assert("name_asc"@.len() != "mtime_asc"@.len());
    assert("size_asc"@.len() != "name_desc"@.len());
    assert("size_asc"@.len() != "size_desc"@.len());
    assert("size_asc"@.len() != "mtime_asc"@.len());
    assert("size_asc"@[0] != "name_asc"@[0]);
    assert((sort_by == "mtime_asc"@ || sort_by == "name_asc"@ || sort_by == "size_asc"@) <==> !desc);
}

/// `item` repeated `k` times with `sep` between: `k` copies of the item and `k - 1` of the
/// separator, so a statement over `k` values has `k` conditions.
pub proof fn lemma_repeat_join_len(item: Seq<char>, sep: Seq<char>, k: nat)
    ensures
        k == 0 ==> repeat_join(item, sep, k).len() == 0,
        k >= 1 ==> repeat_join(item, sep, k).len() == k * item.len() + (k - 1) * sep.len(),
    decreases k,
{
    let a = item.len() as int;
    let b = sep.len() as int;
    if k == 1 {
        assert(k * a + (k - 1) * b == a) by (nonlinear_arith)
            requires
                k == 1,
        ;
    } else if k > 1 {
        lemma_repeat_join_len(item, sep, (k - 1) as nat);
        assert(repeat_join(item, sep, k) == repeat_join(item, sep, (k - 1) as nat) + sep + item);
        assert((k - 1) * a + (k - 2) * b + b + a == k * a + (k - 1) * b) by (nonlinear_arith)
            requires
                k > 1,
        ;
    }
}

/// Every keyword that is not empty is searched for, in order, and no other: the keywords
/// kept are exactly the non-empty ones.
pub proof fn lemma_nonempty_keywords_keep_every_keyword(kws: Seq<Seq<char>>)
    ensures
        forall|j: int|
            0 <= j < nonempty_keywords(kws).len() ==> #[trigger] nonempty_keywords(kws)[j].len() > 0
                && kws.contains(nonempty_keywords(kws)[j]),
        forall|i: int|
            0 <= i < kws.len() && #[trigger] kws[i].len() > 0 ==> nonempty_keywords(kws).contains(
                kws[i],
            ),
    decreases kws.len(),
{
    if kws.len() > 0 {
        let init = kws.drop_last();
        lemma_nonempty_keywords_keep_every_keyword(init);
        let nk = nonempty_keywords(kws);
        let nk0 = nonempty_keywords(init);
        assert forall|j: int| 0 <= j < nk.len() implies #[trigger] nk[j].len() > 0 && kws.contains(nk[j]) by {
            if j < nk0.len() {
                assert(nk[j] == nk0[j]);
                let i = choose|i: int| 0 <= i < init.len() && init[i] == nk0[j];
                assert(kws[i] == init[i]);
            } else {
                assert(nk[j] == kws.last());
                assert(kws[kws.len() - 1] == kws.last());
            }
        }
        assert forall|i: int| 0 <= i < kws.len() && #[trigger] kws[i].len() > 0 implies nk.contains(kws[i]) by {
            if i < kws.len() - 1 {
                assert(init[i] == kws[i]);
                let j = choose|j: int| 0 <= j < nk0.len() && nk0[j] == init[i];
                assert(nk[j] == nk0[j]);
            } else {
                assert(kws[i] == kws.last());
                assert(nk[nk0.len() as int] == kws[i]);
            }
        }
    }
}

/// Each keyword is bound to its own LIKE pattern, in order: one value per keyword.
pub proof fn lemma_keyword_params_one_per_keyword(kws: Seq<Seq<char>>)
    ensures
        keyword_params(kws).len() == kws.len(),
        forall|i: int|
            0 <= i < kws.len() ==> #[trigger] keyword_params(kws)[i] == ParamView::Text(
                keyword_pattern(kws[i]),
            ),
    decreases kws.len(),
{
    if kws.len() > 0 {
        lemma_keyword_params_one_per_keyword(kws.drop_last());
        assert forall|i: int| 0 <= i < kws.len() implies #[trigger] keyword_params(kws)[i]
            == ParamView::Text(keyword_pattern(kws[i])) by {
            if i < kws.len() - 1 {
                assert(kws.drop_last()[i] == kws[i]);
            }
        }
    }
}

/// Each extension of the type filter is bound as `%.` and the extension, in order.
pub proof fn lemma_ext_params_one_per_extension(exts: Seq<Seq<char>>)
    ensures
        ext_params(exts).len() == exts.len(),
        forall|i: int|
            0 <= i < exts.len() ==> #[trigger] ext_params(exts)[i] == ParamView::Text(
                seq!['%', '.'] + exts[i],
            ),
    decreases exts.len(),
{
    if exts.len() > 0 {
        lemma_ext_params_one_per_extension(exts.drop_last());
        assert forall|i: int| 0 <= i < exts.len() implies #[trigger] ext_params(exts)[i]
            == ParamView::Text(seq!['%', '.'] + exts[i]) by {
            if i < exts.len() - 1 {
                assert(exts.drop_last()[i] == exts[i]);
            }
        }
    }
}

/// Each directory of the directory filter is bound as its escaped path and `%`, in order.
pub proof fn lemma_dir_params_one_per_directory(dirs: Seq<Seq<char>>)
    ensures
        dir_params(dirs).len() == dirs.len(),
        forall|i: int|
            0 <= i < dirs.len() ==> #[trigger] dir_params(dirs)[i] == ParamView::Text(
                like_escaped(dirs[i], true) + seq!['%'],
            ),
    decreases dirs.len(),
{
    if dirs.len() > 0 {
        lemma_dir_params_one_per_directory(dirs.drop_last());
        assert forall|i: int| 0 <= i < dirs.len() implies #[trigger] dir_params(dirs)[i]
            == ParamView::Text(like_escaped(dirs[i], true) + seq!['%']) by {
            if i < dirs.len() - 1 {
                assert(dirs.drop_last()[i] == dirs[i]);
            }
        }
    }
}

pub open spec fn cursor_view(c: Option<&SearchCursor>) -> Option<(Seq<char>, Seq<char>)> {
    match c {
        Some(cur) => Some((cur.sort_value@, cur.path@)),
        None => None,
    }
}

/// The text of the search statement, the values it binds and the column its cursor
/// compares; `None` when no keyword is non-empty.
pub open spec fn search_sql(
    kws: Seq<Seq<char>>,
    mode: Seq<char>,
    f: SearchFilters,
    cursor: Option<(Seq<char>, Seq<char>)>,
    sort_by: Seq<char>,
    page_size: nat,
    name_only: bool,
) -> Option<(Seq<char>, Seq<ParamView>, Seq<char>)> {
    match keyword_sql(kws, mode, name_only) {
        Some((kc, kp)) => {
            let (order_by, sort_col, desc) = sort_choice(sort_by);
            let fs = filter_sql(f);
            let cs = cursor_sql(cursor, sort_col, desc);
            let where_clause = join(seq![kc] + fs.0 + cs.0, " AND "@);
            Some(
                (
                    "SELECT abs_path, name, content, last_modified_time, file_size FROM file\n             WHERE "@
                        + where_clause + " ORDER BY "@ + order_by + " LIMIT "@ + nat_decimal(
                        page_size + 1,
                    ),
                    kp + fs.1 + cs.1,
                    sort_col,
                ),
            )
        },
        None => None,
    }
}

/// The text of the counting statement and the values it binds; `None` when no keyword is
/// non-empty (the count is then 0).
pub open spec fn count_sql(kws: Seq<Seq<char>>, mode: Seq<char>, f: SearchFilters, name_only: bool) -> Option<
    (Seq<char>, Seq<ParamView>),
> {
    match keyword_sql(kws, mode, name_only) {
        Some((kc, kp)) => {
            let fs = filter_sql(f);
            Some(("SELECT COUNT(*) FROM file WHERE "@ + join(seq![kc] + fs.0, " AND "@), kp + fs.1))
        },
        None => None,
    }
}

/// A search statement ready to run.
#[derive(Debug)]
pub struct LikeQuery {
    pub sql: String,
    pub params: Vec<SqlParam>,
    pub sort_col: &'static str,
}

fn keyword_sql_exec(keywords: &[String], mode: &str, name_only: bool) -> (r: Option<(Vec<char>, Vec<SqlParam>)>)
    ensures
        match keyword_sql(string_list(keywords@), mode@, name_only) {
            Some((c, p)) => r matches Some((rc, rp)) && rc@ == c && params_view(rp@) == p,
            None => r is None,
        },
{
    let ghost kws = string_list(keywords@);
    let mut params: Vec<SqlParam> = Vec::new();
    let mut count: usize = 0;
    let mut i: usize = 0;
    while i < keywords.len()
        invariant
            i <= keywords.len(),
            count <= i,
            kws == string_list(keywords@),
            count == nonempty_keywords(kws.take(i as int)).len(),
            params_view(params@) == keyword_params(nonempty_keywords(kws.take(i as int))),
        decreases keywords.len() - i,
    {
        assert(kws.take(i as int + 1).drop_last() == kws.take(i as int));
        assert(kws.take(i as int + 1).last() == keywords@[i as int]@);
        let ghost prev = nonempty_keywords(kws.take(i as int));
        let k = chars_of(keywords[i].as_str());
        if k.len() > 0 {
            let pat = keyword_pattern_chars(&k);
            let ghost before = params@;
            params.push(SqlParam::Text(string_of(&pat)));
            count = count + 1;
            assert(params_view(params@) =~= params_view(before).push(ParamView::Text(pat@)));
            assert(nonempty_keywords(kws.take(i as int + 1)) == prev.push(k@));
            assert(prev.push(k@).drop_last() == prev);
        } else {
            assert(nonempty_keywords(kws.take(i as int + 1)) =~= prev);
        }
        i = i + 1;
    }
    assert(kws.take(keywords.len() as int) == kws);
    if count == 0 {
        return None;
    }
    let mut cond = chars_of(if name_only { "name" } else { "content" });
    extend_chars(&mut cond, &chars_of(" LIKE ? ESCAPE '\\'"));
    let mode_chars = chars_of(mode);
    let joiner = if eq_ignore_ascii_case_chars(&mode_chars, &chars_of("AND")) {
        chars_of(" AND ")
    } else {
        chars_of(" OR ")
    };
    let mut acc: Vec<char> = Vec::new();
    let mut j: usize = 0;
    while j < count
        invariant
            j <= count,
            joiner@ == keyword_joiner(mode@),
            cond@ == hit_column(name_only) + " LIKE ? ESCAPE '\\'"@,
            acc@ == repeat_join(cond@, joiner@, j as nat),
        decreases count - j,
    {
        if j > 0 {
            extend_chars(&mut acc, &joiner);
        }
        extend_chars(&mut acc, &cond);
        j = j + 1;
    }
    let mut clause: Vec<char> = Vec::new();
    clause.push('(');
    extend_chars(&mut clause, &acc);
    clause.push(')');
    Some((clause, params))
}

fn cursor_sql_exec(cursor: &SearchCursor, sort_col: &str, desc: bool, clauses: &mut Vec<Vec<char>>, params: &mut Vec<SqlParam>)
    ensures
        views(final(clauses)@) == views(old(clauses)@) + cursor_sql(Some((cursor.sort_value@, cursor.path@)), sort_col@, desc).0,
        params_view(final(params)@) == params_view(old(params)@) + cursor_sql(Some((cursor.sort_value@, cursor.path@)), sort_col@, desc).1,
{
    let col = chars_of(sort_col);
    let mut c: Vec<char> = Vec::new();
    c.push('(');
    extend_chars(&mut c, &col);
    c.push(' ');
    c.push(if desc { '<' } else { '>' });
    extend_chars(&mut c, &chars_of(" ? OR ("));
    extend_chars(&mut c, &col);
    extend_chars(&mut c, &chars_of(" = ? AND abs_path > ?))"));
    let ghost cs = cursor_sql(Some((cursor.sort_value@, cursor.path@)), sort_col@, desc);
    assert(c@ =~= cs.0[0]);
    let ghost c0 = clauses@;
    push_view(clauses, c);
    assert(views(clauses@) =~= views(c0) + cs.0);
    let ghost p0 = params@;
    params.push(SqlParam::Text(cursor.sort_value.clone()));
    params.push(SqlParam::Text(cursor.sort_value.clone()));
    params.push(SqlParam::Text(cursor.path.clone()));
    assert(params_view(params@) =~= params_view(p0) + cs.1);
}

fn push_view(parts: &mut Vec<Vec<char>>, c: Vec<char>)
    ensures
        views(final(parts)@) == views(old(parts)@).push(c@),
{
    let ghost before = parts@;
    parts.push(c);
    assert forall|j: int| 0 <= j < parts@.len() implies views(parts@)[j] == views(before).push(
        c@,
    )[j] by {
        if j < before.len() {
            assert(parts@[j] == before[j]);
        }
    }
    assert(views(parts@) =~= views(before).push(c@));
}

/// Appends the characters of each string to `parts`.
fn push_string_views(parts: &mut Vec<Vec<char>>, v: &Vec<String>)
    ensures
        views(final(parts)@) == views(old(parts)@) + string_list(v@),
{
    let ghost p0 = views(parts@);
    let mut i: usize = 0;
    while i < v.len()
        invariant
            i <= v.len(),
            views(parts@) == p0 + string_list(v@).take(i as int),
        decreases v.len() - i,
    {
        let c = chars_of(v[i].as_str());
        push_view(parts, c);
        i = i + 1;
        assert(string_list(v@).take(i as int) =~= string_list(v@).take(i - 1).push(v@[i - 1]@));
        assert(views(parts@) =~= p0 + string_list(v@).take(i as int));
    }
    assert(string_list(v@).take(v.len() as int) =~= string_list(v@));
}

/// The statement of a keyword search with its filters, ordering and paging: one row more
/// than a page is asked for, to tell whether another page follows. `None` when no keyword
/// is non-empty.
pub fn search_like_query(
    keywords: &[String],
    mode: &str,
    filters: &SearchFilters,
    last_cursor: Option<&SearchCursor>,
    sort_by: &str,
    page_size: usize,
    name_only: bool,
) -> (r: Option<LikeQuery>)
    requires
        page_size < usize::MAX,
    ensures
        match search_sql(string_list(keywords@), mode@, *filters, cursor_view(last_cursor), sort_by@, page_size as nat, name_only) {
            Some((sql, ps, col)) => r matches Some(q) && q.sql@ == sql && params_view(q.params@) == ps && q.sort_col@ == col,
            None => r is None,
        },
{
    let (kc, mut params) = match keyword_sql_exec(keywords, mode, name_only) {
        Some(x) => x,
        None => return None,
    };
    let filter_clauses = build_filter_sql(filters, &mut params);
    let (order_by, sort_col, desc) = parse_sort_by(sort_by);
    let mut parts: Vec<Vec<char>> = Vec::new();
    parts.push(kc);
    push_string_views(&mut parts, &filter_clauses);
    match last_cursor {
        Some(cur) => cursor_sql_exec(cur, sort_col, desc, &mut parts, &mut params),
        None => {},
    }
    let where_clause = join_chars(&parts, &chars_of(" AND "));
    let mut sql = chars_of("SELECT abs_path, name, content, last_modified_time, file_size FROM file\n             WHERE ");
    extend_chars(&mut sql, &where_clause);
    extend_chars(&mut sql, &chars_of(" ORDER BY "));
    extend_chars(&mut sql, &chars_of(order_by.as_str()));
    extend_chars(&mut sql, &chars_of(" LIMIT "));
    extend_chars(&mut sql, &nat_decimal_chars((page_size + 1) as u128));
    let ghost want = search_sql(string_list(keywords@), mode@, *filters, cursor_view(last_cursor), sort_by@, page_size as nat, name_only);
    assert(views(parts@) =~= seq![kc@] + filter_sql(*filters).0 + cursor_sql(cursor_view(last_cursor), sort_col@, desc).0);
    Some(LikeQuery { sql: string_of(&sql), params, sort_col })
}

/// The statement that counts what a keyword search finds; `None` when no keyword is
/// non-empty (nothing is found).
pub fn count_like_query(keywords: &[String], mode: &str, filters: &SearchFilters, name_only: bool) -> (r: Option<(String, Vec<SqlParam>)>)
    ensures
        match count_sql(string_list(keywords@), mode@, *filters, name_only) {
            Some((sql, ps)) => r matches Some((q, qp)) && q@ == sql && params_view(qp@) == ps,
            None => r is None,
        },
{
    let (kc, mut params) = match keyword_sql_exec(keywords, mode, name_only) {
        Some(x) => x,
        None => return None,
    };
    let filter_clauses = build_filter_sql(filters, &mut params);
    let mut parts: Vec<Vec<char>> = Vec::new();
    parts.push(kc);
    push_string_views(&mut parts, &filter_clauses);
    assert(views(parts@) =~= seq![kc@] + filter_sql(*filters).0);
    let where_clause = join_chars(&parts, &chars_of(" AND "));
    let mut sql = chars_of("SELECT COUNT(*) FROM file WHERE ");
    extend_chars(&mut sql, &where_clause);
    Some((string_of(&sql), params))
}


/// A row that the search statement returned.
#[derive(Debug, Clone)]
pub struct HitRow {
    pub abs_path: String,
    pub name: String,
    pub content: Option<String>,
    pub last_modified_time: String,
    pub file_size: i64,
}

/// The text shown for a hit: for a search of names, the beginning of the file's text
/// (twice the context length); otherwise the snippet around the first keyword. Nothing
/// for a file without text.
pub open spec fn hit_context(content: Option<Seq<char>>, kws: Seq<Seq<char>>, context_length: nat, name_only: bool) -> Seq<char> {
    match content {
        Some(c) => if c.len() == 0 {
            seq![]
        } else if name_only {
            prefix_with_ellipsis(c, 2 * context_length)
        } else {
            snippet(c, kws, context_length)
        },
        None => seq![],
    }
}

/// The hit reported for a row.
pub open spec fn hit_of_row(hit: LikeSearchHit, row: HitRow, kws: Seq<Seq<char>>, context_length: nat, name_only: bool) -> bool {
    &&& hit.abs_path@ == row.abs_path@
    &&& hit.name@ == row.name@
    &&& hit.last_modified_time@ == row.last_modified_time@
    &&& hit.file_size == row.file_size
    &&& hit.context@ == hit_context(opt_text(row.content), kws, context_length, name_only)
}

fn hit_from_row(row: &HitRow, keywords: &[String], context_length: usize, name_only: bool) -> (h: LikeSearchHit)
    requires
        name_only ==> 2 * context_length <= usize::MAX,
    ensures
        hit_of_row(h, *row, string_list(keywords@), context_length as nat, name_only),
{
    let context = match &row.content {
        Some(c) => {
            if c.as_str().is_empty() {
                String::new()
            } else if name_only {
                content_prefix(c.as_str(), context_length * 2)
            } else {
                make_snippet(c.as_str(), keywords, context_length)
            }
        },
        None => String::new(),
    };
    LikeSearchHit {
        abs_path: row.abs_path.clone(),
        name: row.name.clone(),
        context,
        last_modified_time: row.last_modified_time.clone(),
        file_size: row.file_size,
    }
}

/// A page of hits from the rows of the search statement: at most `page_size` hits, in row
/// order; the cursor of the last hit; and whether more rows than a page came back.
pub fn collect_like_hits(
    rows: &Vec<HitRow>,
    keywords: &[String],
    page_size: usize,
    context_length: usize,
    name_only: bool,
    sort_col: &str,
) -> (r: (Vec<LikeSearchHit>, Option<SearchCursor>, bool))
    requires
        name_only ==> 2 * context_length <= usize::MAX,
    ensures
        r.2 == (rows.len() > page_size),
        r.0.len() == if rows.len() > page_size {
            page_size as int
        } else {
            rows.len() as int
        },
        forall|i: int|
            0 <= i < r.0.len() ==> hit_of_row(
                #[trigger] r.0@[i],
                rows@[i],
                string_list(keywords@),
                context_length as nat,
                name_only,
            ),
        match r.1 {
            Some(c) => r.0.len() > 0 && c.path@ == r.0@.last().abs_path@ && c.sort_value@
                == sort_value_of(
                r.0@.last().name@,
                r.0@.last().file_size,
                r.0@.last().last_modified_time@,
                sort_col@,
            ),
            None => r.0.len() == 0,
        },
{
    let n: usize = if rows.len() > page_size {
        page_size
    } else {
        rows.len()
    };
    let mut hits: Vec<LikeSearchHit> = Vec::new();
    let mut i: usize = 0;
    while i < n
        invariant
            i <= n <= rows.len(),
            name_only ==> 2 * context_length <= usize::MAX,
            hits.len() == i,
            forall|j: int|
                0 <= j < i ==> hit_of_row(
                    #[trigger] hits@[j],
                    rows@[j],
                    string_list(keywords@),
                    context_length as nat,
                    name_only,
                ),
        decreases n - i,
    {
        let h = hit_from_row(&rows[i], keywords, context_length, name_only);
        hits.push(h);
        i = i + 1;
    }
    let cursor = if n == 0 {
        None
    } else {
        let last = &hits[n - 1];
        Some(SearchCursor { sort_value: get_sort_value(last, sort_col), path: last.abs_path.clone() })
    };
    (hits, cursor, rows.len() > page_size)
}


// ---------------------------------------------------------------------------
// File types.

/// The type of an indexed file, from its name: what follows the last `.`, lowercased.
/// Office lock files (`~$...`) and names without a non-empty part after a `.` have none.
pub open spec fn name_type(name: Seq<char>) -> Option<Seq<char>> {
    if starts_with(name, seq!['~', '$']) {
        None
    } else {
        let d = last_index_before(name, '.', name.len() as int);
        if d < 0 || d + 1 == name.len() {
            None
        } else {
            Some(spec_to_lowercase(name.skip(d + 1)))
        }
    }
}

/// Every element comes before the next in `String`'s order: sorted, without repeats.
pub open spec fn strictly_sorted(v: Seq<Seq<char>>) -> bool {
    forall|i: int, j: int| 0 <= i < j < v.len() ==> lex_lt(#[trigger] v[i], #[trigger] v[j])
}

/// `x` is the type of one of the names.
pub open spec fn is_type_of_some(names: Seq<Seq<char>>, x: Seq<char>) -> bool {
    exists|j: int| 0 <= j < names.len() && name_type(#[trigger] names[j]) == Some(x)
}

fn name_type_exec(name: &str) -> (r: Option<Vec<char>>)
    ensures
        match name_type(name@) {
            Some(t) => r matches Some(v) && v@ == t,
            None => r is None,
        },
{
    let c = chars_of(name);
    let mut tilde: Vec<char> = Vec::new();
    tilde.push('~');
    tilde.push('$');
    assert(tilde@ == seq!['~', '$']);
    if starts_with_chars(&c, &tilde) {
        return None;
    }
    proof {
        lemma_last_index_before(c@, '.', c@.len() as int);
    }
    match last_index_before_exec(&c, '.', c.len()) {
        Some(d) => {
            if d + 1 == c.len() {
                None
            } else {
                let ext = range_chars(&c, d + 1, c.len());
                Some(chars_of(&to_lowercase(string_of(&ext).as_str())))
            }
        },
        None => None,
    }
}

/// Inserts `x` into a strictly sorted list unless it is there already.
fn insert_sorted(v: &mut Vec<Vec<char>>, x: Vec<char>)
    requires
        strictly_sorted(views(old(v)@)),
    ensures
        strictly_sorted(views(final(v)@)),
        forall|y: Seq<char>|
            views(final(v)@).contains(y) <==> (views(old(v)@).contains(y) || y == x@),
{
    let ghost vs = views(v@);
    let mut k: usize = 0;
    while k < v.len() && lex_lt_chars(&v[k], &x)
        invariant
            k <= v.len(),
            vs == views(v@),
            forall|i: int| 0 <= i < k ==> lex_lt(#[trigger] vs[i], x@),
        decreases v.len() - k,
    {
        k = k + 1;
    }
    if k < v.len() && same_chars(&v[k], &x) {
        assert(vs[k as int] == x@);
        return;
    }
    proof {
        if k < v.len() {
            lemma_lex_lt_total(vs[k as int], x@);
            assert(lex_lt(x@, vs[k as int]));
            assert forall|i: int| k <= i < vs.len() implies lex_lt(x@, #[trigger] vs[i]) by {
                if i > k {
                    lemma_lex_lt_transitive(x@, vs[k as int], vs[i]);
                }
            }
        }
    }
    let ghost xv = x@;
    v.insert(k, x);
    let ghost ws = views(v@);
    assert(ws =~= vs.insert(k as int, xv)) by {
        assert forall|i: int| 0 <= i < ws.len() implies ws[i] == vs.insert(k as int, xv)[i] by {
            assert(v@[i]@ == ws[i]);
        }
    }
    assert forall|i: int, j: int| 0 <= i < j < ws.len() implies lex_lt(
        #[trigger] ws[i],
        #[trigger] ws[j],
    ) by {
        if j < k {
            assert(ws[j] == vs[j]);
            assert(ws[i] == vs[i]);
        } else if i < k && j == k {
        } else if i < k && j > k {
            assert(ws[j] == vs[j - 1]);
            assert(ws[i] == vs[i]);
        } else if i == k {
            assert(ws[j] == vs[j - 1]);
        } else {
            assert(ws[j] == vs[j - 1]);
            assert(ws[i] == vs[i - 1]);
        }
    }
    assert forall|y: Seq<char>| ws.contains(y) <==> (vs.contains(y) || y == xv) by {
        if ws.contains(y) {
            let i = choose|i: int| 0 <= i < ws.len() && ws[i] == y;
            if i < k {
                assert(vs[i] == y);
            } else if i > k {
                assert(vs[i - 1] == y);
            }
        }
        if vs.contains(y) {
            let i = choose|i: int| 0 <= i < vs.len() && vs[i] == y;
            if i < k {
                assert(ws[i] == y);
            } else {
                assert(ws[i + 1] == y);
            }
        }
        if y == xv {
            assert(ws[k as int] == y);
        }
    }
}

/// The types of the indexed files, from their names: each type once, in ascending order.
pub fn file_types(names: &Vec<String>) -> (r: Vec<String>)
    ensures
        strictly_sorted(string_list(r@)),
        forall|x: Seq<char>|
            string_list(r@).contains(x) <==> is_type_of_some(string_list(names@), x),
{
    let ghost ns = string_list(names@);
    let mut set: Vec<Vec<char>> = Vec::new();
    let mut i: usize = 0;
    while i < names.len()
        invariant
            i <= names.len(),
            ns == string_list(names@),
            strictly_sorted(views(set@)),
            forall|x: Seq<char>|
                views(set@).contains(x) <==> is_type_of_some(ns.take(i as int), x),
        decreases names.len() - i,
    {
        let t = name_type_exec(names[i].as_str());
        let ghost before = views(set@);
        match t {
            Some(x) => {
                insert_sorted(&mut set, x);
            },
            None => {},
        }
        proof {
            assert forall|x: Seq<char>|
                views(set@).contains(x) <==> is_type_of_some(ns.take(i + 1), x) by {
                if is_type_of_some(ns.take(i + 1), x) {
                    let j = choose|j: int|
                        0 <= j < ns.take(i + 1).len() && name_type(#[trigger] ns.take(i + 1)[j])
                            == Some(x);
                    if j < i {
                        assert(ns.take(i as int)[j] == ns.take(i + 1)[j]);
                    }
                }
                if is_type_of_some(ns.take(i as int), x) {
                    let j = choose|j: int|
                        0 <= j < ns.take(i as int).len() && name_type(#[trigger] ns.take(
                            i as int,
                        )[j]) == Some(x);
                    assert(ns.take(i + 1)[j] == ns.take(i as int)[j]);
                }
                if name_type(ns[i as int]) == Some(x) {
                    assert(ns.take(i + 1)[i as int] == ns[i as int]);
                }
            }
        }
        i = i + 1;
    }
    assert(ns.take(names.len() as int) == ns);
    let mut out: Vec<String> = Vec::new();
    let mut k: usize = 0;
    while k < set.len()
        invariant
            k <= set.len(),
            string_list(out@) == views(set@).take(k as int),
        decreases set.len() - k,
    {
        let ghost before = out@;
        out.push(string_of(&set[k]));
        assert(out@ == before.push(out@.last()));
        assert(out@.last()@ == set@[k as int]@);
        assert(string_list(out@) =~= string_list(before).push(set@[k as int]@));
        assert(views(set@).take(k + 1) =~= views(set@).take(k as int).push(set@[k as int]@));
        k = k + 1;
    }
    assert(views(set@).take(set.len() as int) == views(set@));
    out
}


// ---------------------------------------------------------------------------
// File preview.

/// The preview of a file's text: at most `limit` characters, and whether it was cut.
pub open spec fn preview_of(content: Option<Seq<char>>, limit: nat) -> (Seq<char>, bool) {
    match content {
        Some(c) => if c.len() > limit {
            (c.take(limit as int), true)
        } else {
            (c, false)
        },
        None => (seq![], false),
    }
}

/// The text shown in a file preview, and whether it was cut.
pub fn content_preview(content: Option<String>, limit: usize) -> (r: (String, bool))
    ensures
        (r.0@, r.1) == preview_of(opt_text(content), limit as nat),
{
    match content {
        Some(c) => {
            let chars = chars_of(c.as_str());
            if chars.len() > limit {
                (string_of(&take_chars(&chars, limit)), true)
            } else {
                (c, false)
            }
        },
        None => (String::new(), false),
    }
}

// ---------------------------------------------------------------------------
// Settings kept in the index.

pub open spec fn entry_views(v: Seq<(String, String)>) -> Seq<(Seq<char>, Seq<char>)> {
    v.map_values(|e: (String, String)| (e.0@, e.1@))
}

/// The value stored last under `key`.
pub open spec fn config_lookup(entries: Seq<(Seq<char>, Seq<char>)>, key: Seq<char>) -> Option<Seq<char>>
    decreases entries.len(),
{
    if entries.len() == 0 {
        None
    } else if entries.last().0 == key {
        Some(entries.last().1)
    } else {
        config_lookup(entries.drop_last(), key)
    }
}

/// The value stored under `key`, the last one where the key repeats.
pub fn config_value(entries: &Vec<(String, String)>, key: &str) -> (r: Option<String>)
    ensures
        opt_text(r) == config_lookup(entry_views(entries@), key@),
{
    let ghost es = entry_views(entries@);
    let mut i: usize = entries.len();
    assert(es.take(i as int) == es);
    while i > 0
        invariant
            i <= entries.len(),
            es == entry_views(entries@),
            config_lookup(es, key@) == config_lookup(es.take(i as int), key@),
        decreases i,
    {
        assert(es.take(i as int).drop_last() == es.take(i - 1));
        assert(es.take(i as int).last() == (entries@[i - 1].0@, entries@[i - 1].1@));
        if str_equals(entries[i - 1].0.as_str(), key) {
            return Some(entries[i - 1].1.clone());
        }
        i = i - 1;
    }
    None
}

/// A number setting: the stored text read as a `usize`, or the default when it is missing
/// or is not such a number.
pub open spec fn usize_setting(value: Option<Seq<char>>, default: usize) -> usize {
    match value {
        Some(t) => match parse_usize(t) {
            Some(n) => n,
            None => default,
        },
        None => default,
    }
}

/// Reads a number setting.
pub fn setting_usize(value: Option<String>, default: usize) -> (r: usize)
    ensures
        r == usize_setting(opt_text(value), default),
{
    match value {
        Some(t) => match parse_usize_chars(&chars_of(t.as_str())) {
            Some(n) => n,
            None => default,
        },
        None => default,
    }
}

/// The settings read from the stored entries, given what the JSON of the watched paths
/// and of the file patterns parsed to (`None` where missing or malformed); `None` when
/// nothing is stored.
pub fn db_config_from_entries(
    entries: &Vec<(String, String)>,
    watch_paths: Option<Vec<WatchPath>>,
    file_patterns: Option<Vec<String>>,
) -> (r: Option<DbConfig>)
    ensures
        r is None <==> entries.len() == 0,
        r matches Some(c) ==> {
            &&& c.watch_paths@ == match watch_paths {
                Some(w) => w@,
                None => Seq::<WatchPath>::empty(),
            }
            &&& string_list(c.file_patterns@) == match file_patterns {
                Some(p) => string_list(p@),
                None => default_file_patterns(),
            }
            &&& c.context_length == usize_setting(config_lookup(entry_views(entries@), "context_length"@), 50)
            &&& c.page_size == usize_setting(config_lookup(entry_views(entries@), "page_size"@), 20)
            &&& c.preview_length == usize_setting(config_lookup(entry_views(entries@), "preview_length"@), 2000)
        },
{
    if entries.len() == 0 {
        return None;
    }
    let wp = match watch_paths {
        Some(w) => w,
        None => Vec::new(),
    };
    let fp = match file_patterns {
        Some(p) => p,
        None => {
            let d = Config::default();
            assert(string_list(d.file_patterns@) == string_views(d.file_patterns@));
            d.file_patterns
        },
    };
    let context_length = setting_usize(config_value(entries, "context_length"), 50);
    let page_size = setting_usize(config_value(entries, "page_size"), 20);
    let preview_length = setting_usize(config_value(entries, "preview_length"), 2000);
    Some(DbConfig { watch_paths: wp, file_patterns: fp, context_length, page_size, preview_length })
}

/// The entries stored for the settings, in order, given the JSON of the watched paths and
/// of the file patterns.
pub open spec fn saved_entries(
    watch_paths_json: Seq<char>,
    file_patterns_json: Seq<char>,
    context_length: usize,
    page_size: usize,
    preview_length: usize,
) -> Seq<(Seq<char>, Seq<char>)> {
    seq![
        ("watch_paths"@, watch_paths_json),
        ("file_patterns"@, file_patterns_json),
        ("context_length"@, nat_decimal(context_length as nat)),
        ("page_size"@, nat_decimal(page_size as nat)),
        ("preview_length"@, nat_decimal(preview_length as nat)),
    ]
}

fn entry(key: &str, value: String) -> (r: (String, String))
    ensures
        r.0@ == key@,
        r.1@ == value@,
{
    (string_of(&chars_of(key)), value)
}

/// The entries to store for the settings.
pub fn config_entries(config: &DbConfig, watch_paths_json: String, file_patterns_json: String) -> (r: Vec<(String, String)>)
    ensures
        entry_views(r@) == saved_entries(
            watch_paths_json@,
            file_patterns_json@,
            config.context_length,
            config.page_size,
            config.preview_length,
        ),
{
    let ghost wj = watch_paths_json@;
    let ghost fj = file_patterns_json@;
    let mut v: Vec<(String, String)> = Vec::new();
    v.push(entry("watch_paths", watch_paths_json));
    v.push(entry("file_patterns", file_patterns_json));
    v.push(entry("context_length", usize_decimal(config.context_length)));
    v.push(entry("page_size", usize_decimal(config.page_size)));
    v.push(entry("preview_length", usize_decimal(config.preview_length)));
    assert(entry_views(v@) =~= saved_entries(
        wj,
        fj,
        config.context_length,
        config.page_size,
        config.preview_length,
    ));
    v
}

// ---------------------------------------------------------------------------
// Reclaiming free pages.

/// Below this many free pages the index is not vacuumed.
pub const INCREMENTAL_VACUUM_MIN_FREE_PAGES: i64 = 64;

/// The most pages one step of vacuuming reclaims.
pub const INCREMENTAL_VACUUM_MAX_PAGES: i64 = 4096;

/// Whether the index has enough free pages to be worth vacuuming.
pub fn needs_incremental_vacuum(free_pages: i64) -> (r: bool)
    ensures
        r == (free_pages >= INCREMENTAL_VACUUM_MIN_FREE_PAGES),
{
    free_pages >= INCREMENTAL_VACUUM_MIN_FREE_PAGES
}

/// Whether a step of vacuuming reclaimed pages, so that another step may follow.
pub fn vacuum_made_progress(previous: i64, remaining: i64) -> (r: bool)
    ensures
        r == (remaining < previous),
{
    remaining < previous
}

/// The statement of one step of vacuuming, bounded or not.
pub open spec fn incremental_vacuum_text(max_pages: Option<i64>) -> Seq<char> {
    match max_pages {
        Some(p) => "PRAGMA incremental_vacuum("@ + int_decimal(p as int) + ");"@,
        None => "PRAGMA incremental_vacuum;"@,
    }
}

pub fn incremental_vacuum_sql(max_pages: Option<i64>) -> (r: String)
    ensures
        r@ == incremental_vacuum_text(max_pages),
{
    match max_pages {
        Some(p) => {
            let mut v = chars_of("PRAGMA incremental_vacuum(");
            extend_chars(&mut v, &chars_of(i64_decimal(p).as_str()));
            extend_chars(&mut v, &chars_of(");"));
            string_of(&v)
        },
        None => string_of(&chars_of("PRAGMA incremental_vacuum;")),
    }
}

// ---------------------------------------------------------------------------
// Results of custom SQL.

/// A value that a custom query returned; a real number comes already written as text.
#[derive(Debug, Clone)]
pub enum CellValue {
    Null,
    Integer(i64),
    Real(String),
    Text(Vec<u8>),
    Blob(usize),
}

/// How a value is shown.
pub open spec fn cell_text(v: CellValue) -> Seq<char> {
    match v {
        CellValue::Null => "NULL"@,
        CellValue::Integer(n) => int_decimal(n as int),
        CellValue::Real(s) => s@,
        CellValue::Text(b) => spec_utf8_lossy(b@),
        CellValue::Blob(n) => "[BLOB "@ + nat_decimal(n as nat) + " bytes]"@,
    }
}

/// The text shown for a value.
pub fn format_cell(v: &CellValue) -> (r: String)
    ensures
        r@ == cell_text(*v),
{
    match v {
        CellValue::Null => string_of(&chars_of("NULL")),
        CellValue::Integer(n) => i64_decimal(*n),
        CellValue::Real(s) => s.clone(),
        CellValue::Text(b) => utf8_lossy(b.as_slice()),
        CellValue::Blob(n) => {
            let mut c = chars_of("[BLOB ");
            extend_chars(&mut c, &chars_of(usize_decimal(*n).as_str()));
            extend_chars(&mut c, &chars_of(" bytes]"));
            string_of(&c)
        },
    }
}

fn clone_strings(v: &Vec<String>) -> (r: Vec<String>)
    ensures
        string_list(r@) == string_list(v@),
{
    let mut out: Vec<String> = Vec::new();
    let mut i: usize = 0;
    while i < v.len()
        invariant
            i <= v.len(),
            string_list(out@) == string_list(v@).take(i as int),
        decreases v.len() - i,
    {
        let ghost before = out@;
        out.push(v[i].clone());
        assert(string_list(out@) =~= string_list(before).push(v@[i as int]@));
        i = i + 1;
        assert(string_list(out@) =~= string_list(v@).take(i as int));
    }
    assert(string_list(v@).take(v.len() as int) =~= string_list(v@));
    out
}

/// The result of a custom query: its column names, and each row with the column names
/// and its values as text.
pub fn rows_to_result(columns: &Vec<String>, rows: &Vec<Vec<CellValue>>) -> (r: SqlResult)
    ensures
        string_list(r.columns@) == string_list(columns@),
        r.rows.len() == rows.len(),
        forall|i: int|
            0 <= i < rows.len() ==> {
                &&& string_list((#[trigger] r.rows@[i]).columns@) == string_list(columns@)
                &&& r.rows@[i].values.len() == rows@[i].len()
                &&& forall|j: int|
                    0 <= j < rows@[i].len() ==> (#[trigger] r.rows@[i].values@[j])@ == cell_text(
                        rows@[i][j],
                    )
            },
{
    let mut out: Vec<CustomResult> = Vec::new();
    let mut i: usize = 0;
    while i < rows.len()
        invariant
            i <= rows.len(),
            out.len() == i,
            forall|k: int|
                0 <= k < i ==> {
                    &&& string_list((#[trigger] out@[k]).columns@) == string_list(columns@)
                    &&& out@[k].values.len() == rows@[k].len()
                    &&& forall|j: int|
                        0 <= j < rows@[k].len() ==> (#[trigger] out@[k].values@[j])@ == cell_text(
                            rows@[k][j],
                        )
                },
        decreases rows.len() - i,
    {
        let row = &rows[i];
        let mut values: Vec<String> = Vec::new();
        let mut j: usize = 0;
        while j < row.len()
            invariant
                j <= row.len(),
                values.len() == j,
                forall|m: int| 0 <= m < j ==> (#[trigger] values@[m])@ == cell_text(row@[m]),
            decreases row.len() - j,
        {
            values.push(format_cell(&row[j]));
            j = j + 1;
        }
        out.push(CustomResult { columns: clone_strings(columns), values });
        i = i + 1;
    }
    SqlResult { columns: clone_strings(columns), rows: out }
}


/// What the settings load as from the entries stored for them: the three numbers are read
/// back as they were written (the watched paths and file patterns come back as their JSON
/// text parses).
pub proof fn lemma_settings_round_trip(
    watch_paths_json: Seq<char>,
    file_patterns_json: Seq<char>,
    context_length: usize,
    page_size: usize,
    preview_length: usize,
)
    ensures
        ({
            let e = saved_entries(
                watch_paths_json,
                file_patterns_json,
                context_length,
                page_size,
                preview_length,
            );
            &&& config_lookup(e, "watch_paths"@) == Some(watch_paths_json)
            &&& config_lookup(e, "file_patterns"@) == Some(file_patterns_json)
            &&& usize_setting(config_lookup(e, "context_length"@), 50) == context_length
            &&& usize_setting(config_lookup(e, "page_size"@), 20) == page_size
            &&& usize_setting(config_lookup(e, "preview_length"@), 2000) == preview_length
        }),
{
    reveal_strlit("watch_paths");
    reveal_strlit("file_patterns");
    reveal_strlit("context_length");
    reveal_strlit("page_size");
    reveal_strlit("preview_length");
    let e = saved_entries(watch_paths_json, file_patterns_json, context_length, page_size, preview_length);
    reveal_with_fuel(config_lookup, 6);
    lemma_parse_usize_decimal(context_length);
    lemma_parse_usize_decimal(page_size);
    lemma_parse_usize_decimal(preview_length);
    assert(e.drop_last().last() == e[3]);
    assert(e.drop_last().drop_last().last() == e[2]);
    assert(e.drop_last().drop_last().drop_last().last() == e[1]);
    assert(e.drop_last().drop_last().drop_last().drop_last().last() == e[0]);
    assert("context_length"@[0] != "preview_length"@[0]);
    assert("context_length"@[0] != "page_size"@[0]);
    assert("page_size"@[1] != "preview_length"@[1]);
    assert("file_patterns"@ != "preview_length"@);
    assert("file_patterns"@ != "page_size"@);
    assert("file_patterns"@ != "context_length"@);
    assert("watch_paths"@ != "preview_length"@);
    assert("watch_paths"@ != "page_size"@);
    assert("watch_paths"@ != "context_length"@);
    assert("watch_paths"@[0] != "file_patterns"@[0]);
}

} // verus!
