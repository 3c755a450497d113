//! Character-level text transformations shared by the document parsers:
//! literal replacement, markup removal, whitespace collapsing and trimming.

use vstd::prelude::*;

verus! {

/// `String::push` appends one character.
pub assume_specification[ String::push ](s: &mut String, ch: char)
    ensures
        final(s)@ == old(s)@.push(ch),
;

/// Whether the character has Unicode's `White_Space` property (what `char::is_whitespace`,
/// `str::trim` and the regex class `\s` test).
pub open spec fn is_white_space(c: char) -> bool {
    ||| ('\u{9}' <= c && c <= '\u{d}')
    ||| c == ' '
    ||| c == '\u{85}'
    ||| c == '\u{a0}'
    ||| c == '\u{1680}'
    ||| ('\u{2000}' <= c && c <= '\u{200a}')
    ||| c == '\u{2028}'
    ||| c == '\u{2029}'
    ||| c == '\u{202f}'
    ||| c == '\u{205f}'
    ||| c == '\u{3000}'
}

pub fn char_is_white_space(c: char) -> (r: bool)
    ensures
        r == is_white_space(c),
{
    ('\u{9}' <= c && c <= '\u{d}') || c == ' ' || c == '\u{85}' || c == '\u{a0}' || c
        == '\u{1680}' || ('\u{2000}' <= c && c <= '\u{200a}') || c == '\u{2028}' || c == '\u{2029}'
        || c == '\u{202f}' || c == '\u{205f}' || c == '\u{3000}'
}

/// The characters of a string.
pub fn chars_of(s: &str) -> (v: Vec<char>)
    ensures
        v@ == s@,
{
    let mut v: Vec<char> = Vec::new();
    for c in it: s.chars()
        invariant
            v@ == it.seq().take(it.index() as int),
            it.seq() == s@,
    {
        v.push(c);
        assert(v@ == it.seq().take(it.index() as int + 1));
    }
    v
}

/// The string made of the given characters.
pub fn string_of(v: &Vec<char>) -> (s: String)
    ensures
        s@ == v@,
{
    let mut s = String::new();
    let mut i: usize = 0;
    while i < v.len()
        invariant
            i <= v.len(),
            s@ == v@.take(i as int),
        decreases v.len() - i,
    {
        s.push(v[i]);
        i = i + 1;
        assert(s@ == v@.take(i as int));
    }
    assert(v@.take(v.len() as int) == v@);
    s
}

/// Appends all of `src` to `dst`.
pub fn extend_chars(dst: &mut Vec<char>, src: &Vec<char>)
    ensures
        final(dst)@ == old(dst)@ + src@,
{
    let mut i: usize = 0;
    while i < src.len()
        invariant
            i <= src.len(),
            dst@ == old(dst)@ + src@.take(i as int),
        decreases src.len() - i,
    {
        dst.push(src[i]);
        i = i + 1;
        assert(dst@ == old(dst)@ + src@.take(i as int));
    }
    assert(src@.take(src.len() as int) == src@);
}

/// `p` occurs in `s` at position `i`.
pub open spec fn occurs_at(s: Seq<char>, p: Seq<char>, i: int) -> bool {
    0 <= i && i + p.len() <= s.len() && s.subrange(i, i + p.len()) == p
}

/// `s` begins with `p`.
pub open spec fn starts_with(s: Seq<char>, p: Seq<char>) -> bool {
    occurs_at(s, p, 0)
}

/// `s` ends with `p`.
pub open spec fn ends_with(s: Seq<char>, p: Seq<char>) -> bool {
    occurs_at(s, p, s.len() - p.len())
}

/// `p` occurs somewhere in `s`.
pub open spec fn contains(s: Seq<char>, p: Seq<char>) -> bool {
    exists|i: int| occurs_at(s, p, i)
}

/// The first position at or after `from` where `p` occurs in `s`, or -1.
pub open spec fn find_from(s: Seq<char>, p: Seq<char>, from: int) -> int
    decreases s.len() + 1 - from,
{
    if from < 0 || from > s.len() {
        -1
    } else if occurs_at(s, p, from) {
        from
    } else {
        find_from(s, p, from + 1)
    }
}

/// The first position at or after `from` holding `c`, or -1.
pub open spec fn index_of_from(s: Seq<char>, c: char, from: int) -> int
    decreases s.len() - from,
{
    if from < 0 || from >= s.len() {
        -1
    } else if s[from] == c {
        from
    } else {
        index_of_from(s, c, from + 1)
    }
}

pub proof fn lemma_find_from(s: Seq<char>, p: Seq<char>, from: int)
    requires
        0 <= from,
    ensures
        find_from(s, p, from) == -1 || (from <= find_from(s, p, from) <= s.len() && occurs_at(
            s,
            p,
            find_from(s, p, from),
        )),
        find_from(s, p, from) == -1 ==> forall|j: int| from <= j ==> !occurs_at(s, p, j),
        forall|j: int| from <= j < find_from(s, p, from) ==> !occurs_at(s, p, j),
    decreases s.len() + 1 - from,
{
    if from > s.len() {
    } else if occurs_at(s, p, from) {
    } else {
        lemma_find_from(s, p, from + 1);
    }
}

pub proof fn lemma_index_of_from(s: Seq<char>, c: char, from: int)
    requires
        0 <= from,
    ensures
        index_of_from(s, c, from) == -1 || (from <= index_of_from(s, c, from) < s.len()
            && s[index_of_from(s, c, from)] == c),
        index_of_from(s, c, from) == -1 ==> forall|j: int| from <= j < s.len() ==> s[j] != c,
        forall|j: int| from <= j < index_of_from(s, c, from) ==> s[j] != c,
    decreases s.len() - from,
{
    if from >= s.len() {
    } else if s[from] == c {
    } else {
        lemma_index_of_from(s, c, from + 1);
    }
}

/// Whether `p` occurs in `s` at position `i` (exec).
pub fn occurs_at_exec(s: &Vec<char>, p: &Vec<char>, i: usize) -> (r: bool)
    ensures
        r == occurs_at(s@, p@, i as int),
{
    if i > s.len() || p.len() > s.len() - i {
        return false;
    }
    let mut j: usize = 0;
    while j < p.len()
        invariant
            i + p.len() <= s.len(),
            j <= p.len(),
            forall|k: int| 0 <= k < j ==> s@[i + k] == p@[k],
        decreases p.len() - j,
    {
        if s[i + j] != p[j] {
            assert(s@.subrange(i as int, i + p.len())[j as int] != p@[j as int]);
            return false;
        }
        j = j + 1;
    }
    assert(s@.subrange(i as int, i + p.len()) =~= p@);
    true
}

/// The first position at or after `from` holding `c` (exec).
pub fn index_of_from_exec(s: &Vec<char>, c: char, from: usize) -> (r: Option<usize>)
    ensures
        match r {
            Some(j) => index_of_from(s@, c, from as int) == j,
            None => index_of_from(s@, c, from as int) == -1,
        },
{
    let mut j = from;
    while j < s.len()
        invariant
            from <= j,
            index_of_from(s@, c, from as int) == index_of_from(s@, c, j as int),
        decreases s.len() - j,
    {
        if s[j] == c {
            return Some(j);
        }
        j = j + 1;
    }
    None
}

/// The first position at or after `from` where `p` occurs (exec).
pub fn find_from_exec(s: &Vec<char>, p: &Vec<char>, from: usize) -> (r: Option<usize>)
    ensures
        match r {
            Some(j) => find_from(s@, p@, from as int) == j,
            None => find_from(s@, p@, from as int) == -1,
        },
{
    if from > s.len() {
        return None;
    }
    let mut j = from;
    while j < s.len()
        invariant
            from <= j <= s.len(),
            find_from(s@, p@, from as int) == find_from(s@, p@, j as int),
        decreases s.len() - j,
    {
        if occurs_at_exec(s, p, j) {
            return Some(j);
        }
        j = j + 1;
    }
    if occurs_at_exec(s, p, j) {
        return Some(j);
    }
    assert(find_from(s@, p@, j as int + 1) == -1);
    None
}

// ---------------------------------------------------------------------------
// Literal replacement (`str::replace` with a non-empty pattern).

/// Replacement of every occurrence of `pat` in `s` from position `i` on, scanning left to
/// right without overlaps.
pub open spec fn replace_from(s: Seq<char>, pat: Seq<char>, rep: Seq<char>, i: int) -> Seq<char>
    decreases s.len() - i,
{
    if i < 0 || i >= s.len() {
        seq![]
    } else if pat.len() > 0 && occurs_at(s, pat, i) {
        rep + replace_from(s, pat, rep, i + pat.len())
    } else {
        seq![s[i]] + replace_from(s, pat, rep, i + 1)
    }
}

/// `s` with every occurrence of `pat` replaced by `rep`.
pub open spec fn replace_all(s: Seq<char>, pat: Seq<char>, rep: Seq<char>) -> Seq<char> {
    replace_from(s, pat, rep, 0)
}

/// Replaces every occurrence of `pat` by `rep`, left to right, without overlaps.
pub fn replace_chars(s: &Vec<char>, pat: &Vec<char>, rep: &Vec<char>) -> (r: Vec<char>)
    requires
        pat@.len() > 0,
    ensures
        r@ == replace_all(s@, pat@, rep@),
{
    let mut out: Vec<char> = Vec::new();
    let mut i: usize = 0;
    while i < s.len()
        invariant
            i <= s.len(),
            pat@.len() > 0,
            replace_all(s@, pat@, rep@) == out@ + replace_from(s@, pat@, rep@, i as int),
        decreases s.len() - i,
    {
        if occurs_at_exec(s, pat, i) {
            extend_chars(&mut out, rep);
            i = i + pat.len();
        } else {
            out.push(s[i]);
            i = i + 1;
        }
    }
    out
}

/// Applies the replacements of `pairs` one after the other.
pub open spec fn replace_each(s: Seq<char>, pairs: Seq<(Seq<char>, Seq<char>)>) -> Seq<char>
    decreases pairs.len(),
{
    if pairs.len() == 0 {
        s
    } else {
        replace_all(replace_each(s, pairs.drop_last()), pairs.last().0, pairs.last().1)
    }
}

/// A list of literal replacements.
pub struct Replacements {
    pub pairs: Vec<(Vec<char>, Vec<char>)>,
}

impl Replacements {
    pub open spec fn view(&self) -> Seq<(Seq<char>, Seq<char>)> {
        self.pairs@.map_values(|p: (Vec<char>, Vec<char>)| (p.0@, p.1@))
    }

    pub open spec fn wf(&self) -> bool {
        forall|k: int| 0 <= k < self.pairs@.len() ==> #[trigger] self.pairs@[k].0@.len() > 0
    }

    /// Applies the replacements in order.
    pub fn apply(&self, s: &Vec<char>) -> (r: Vec<char>)
        requires
            self.wf(),
        ensures
            r@ == replace_each(s@, self.view()),
    {
        let mut cur = s.clone();
        let mut k: usize = 0;
        while k < self.pairs.len()
            invariant
                k <= self.pairs.len(),
                self.wf(),
                cur@ == replace_each(s@, self.view().take(k as int)),
            decreases self.pairs.len() - k,
        {
            let ghost before = self.view().take(k as int);
            assert(self.view().take(k as int + 1).drop_last() == before);
            assert(self.pairs@[k as int].0@.len() > 0);
            cur = replace_chars(&cur, &self.pairs[k].0, &self.pairs[k].1);
            k = k + 1;
        }
        assert(self.view().take(self.pairs.len() as int) == self.view());
        cur
    }
}

// ---------------------------------------------------------------------------
// Markup removal: the tag forms of the XML and HTML document formats, whose leftmost,
// non-overlapping occurrences are deleted from a document's text.

/// A form of markup of the document formats, deleted from their text.
pub enum Markup {
    /// `<` followed by at least one character other than `>`, then `>` (the regex `<[^>]+>`).
    AnyTag,
    /// A braced GUID such as `{5C22544A-7EE6-4342-B048-85BDC9FD1C3A}`, hex digits of either case.
    Guid,
    /// `open`, then anything up to the first `>`, then the shortest run up to and including
    /// `close` (the regex `open[^>]*>.*?close` with `.` matching newlines).
    Element { open: Vec<char>, close: Vec<char> },
    /// `open`, then anything up to and including the first `>` (the regex `open[^>]*/?>`).
    OpenTag { open: Vec<char> },
}

pub open spec fn is_hex_digit(c: char) -> bool {
    ('0' <= c && c <= '9') || ('a' <= c && c <= 'f') || ('A' <= c && c <= 'F')
}

/// The length of a braced GUID: `{` 8-4-4-4-12 hex digits `}`.
pub open spec fn guid_len() -> int {
    38
}

/// Whether position `k` of a braced GUID is a dash.
pub open spec fn guid_dash(k: int) -> bool {
    k == 9 || k == 14 || k == 19 || k == 24
}

/// A braced GUID begins at position `i` of `s`.
pub open spec fn guid_at(s: Seq<char>, i: int) -> bool {
    &&& 0 <= i && i + guid_len() <= s.len()
    &&& s[i] == '{'
    &&& s[i + 37] == '}'
    &&& forall|k: int|
        1 <= k < 37 ==> (if guid_dash(k) {
            s[i + k] == '-'
        } else {
            is_hex_digit(#[trigger] s[i + k])
        })
}

/// The mathematical form of a [`Markup`] pattern.
pub enum MarkupSpec {
    AnyTag,
    Guid,
    Element { open: Seq<char>, close: Seq<char> },
    OpenTag { open: Seq<char> },
}

impl Markup {
    pub open spec fn view(&self) -> MarkupSpec {
        match self {
            Markup::AnyTag => MarkupSpec::AnyTag,
            Markup::Guid => MarkupSpec::Guid,
            Markup::Element { open, close } => MarkupSpec::Element { open: open@, close: close@ },
            Markup::OpenTag { open } => MarkupSpec::OpenTag { open: open@ },
        }
    }
}

impl MarkupSpec {
    /// The length of the match of this pattern that begins at position `i` of `s`,
    /// or 0 when none begins there.
    pub open spec fn match_len_at(self, s: Seq<char>, i: int) -> int {
        match self {
            MarkupSpec::AnyTag => {
                let j = index_of_from(s, '>', i + 1);
                if 0 <= i < s.len() && s[i] == '<' && j >= i + 2 {
                    j + 1 - i
                } else {
                    0
                }
            },
            MarkupSpec::Guid => if guid_at(s, i) {
                guid_len()
            } else {
                0
            },
            MarkupSpec::Element { open, close } => {
                let g = index_of_from(s, '>', i + open.len());
                let c = find_from(s, close, g + 1);
                if open.len() > 0 && occurs_at(s, open, i) && g >= 0 && c >= 0 {
                    c + close.len() - i
                } else {
                    0
                }
            },
            MarkupSpec::OpenTag { open } => {
                let g = index_of_from(s, '>', i + open.len());
                if open.len() > 0 && occurs_at(s, open, i) && g >= 0 {
                    g + 1 - i
                } else {
                    0
                }
            },
        }
    }
}

/// `s` from position `i` on, with the matches of `m` deleted.
pub open spec fn remove_from(s: Seq<char>, m: MarkupSpec, i: int) -> Seq<char>
    decreases s.len() - i,
{
    if i < 0 || i >= s.len() {
        seq![]
    } else if m.match_len_at(s, i) > 0 && i + m.match_len_at(s, i) <= s.len() {
        remove_from(s, m, i + m.match_len_at(s, i))
    } else {
        seq![s[i]] + remove_from(s, m, i + 1)
    }
}

/// `s` with every leftmost, non-overlapping match of `m` deleted.
pub open spec fn remove_markup(s: Seq<char>, m: MarkupSpec) -> Seq<char> {
    remove_from(s, m, 0)
}

fn is_hex_digit_exec(c: char) -> (r: bool)
    ensures
        r == is_hex_digit(c),
{
    ('0' <= c && c <= '9') || ('a' <= c && c <= 'f') || ('A' <= c && c <= 'F')
}

fn guid_at_exec(s: &Vec<char>, i: usize) -> (r: bool)
    ensures
        r == guid_at(s@, i as int),
{
    if i > s.len() || s.len() - i < 38 {
        return false;
    }
    if s[i] != '{' || s[i + 37] != '}' {
        return false;
    }
    let mut k: usize = 1;
    while k < 37
        invariant
            1 <= k <= 37,
            i + 38 <= s.len(),
            forall|q: int|
                1 <= q < k ==> (if guid_dash(q) {
                    s@[i + q] == '-'
                } else {
                    is_hex_digit(#[trigger] s@[i + q])
                }),
        decreases 37 - k,
    {
        let c = s[i + k];
        if k == 9 || k == 14 || k == 19 || k == 24 {
            if c != '-' {
                return false;
            }
        } else if !is_hex_digit_exec(c) {
            return false;
        }
        k = k + 1;
    }
    true
}

impl Markup {
    /// The length of the match beginning at position `i` (exec).
    pub fn match_len_at_exec(&self, s: &Vec<char>, i: usize) -> (r: usize)
        requires
            i < s.len(),
        ensures
            r == self@.match_len_at(s@, i as int),
            r <= s.len() - i,
    {
        match self {
            Markup::AnyTag => {
                if s[i] != '<' {
                    return 0;
                }
                proof {
                    lemma_index_of_from(s@, '>', i + 1);
                }
                match index_of_from_exec(s, '>', i + 1) {
                    Some(j) => if j >= i + 2 {
                        j + 1 - i
                    } else {
                        0
                    },
                    None => 0,
                }
            },
            Markup::Guid => if guid_at_exec(s, i) {
                38
            } else {
                0
            },
            Markup::Element { open, close } => {
                if open.len() == 0 || !occurs_at_exec(s, open, i) {
                    return 0;
                }
                proof {
                    lemma_index_of_from(s@, '>', i + open@.len());
                }
                match index_of_from_exec(s, '>', i + open.len()) {
                    Some(g) => {
                        proof {
                            lemma_find_from(s@, close@, g + 1);
                        }
                        match find_from_exec(s, close, g + 1) {
                            Some(c) => c + close.len() - i,
                            None => 0,
                        }
                    },
                    None => 0,
                }
            },
            Markup::OpenTag { open } => {
                if open.len() == 0 || !occurs_at_exec(s, open, i) {
                    return 0;
                }
                proof {
                    lemma_index_of_from(s@, '>', i + open@.len());
                }
                match index_of_from_exec(s, '>', i + open.len()) {
                    Some(g) => g + 1 - i,
                    None => 0,
                }
            },
        }
    }
}

/// Deletes every leftmost, non-overlapping match of `m` from `s`.
pub fn remove_markup_chars(s: &Vec<char>, m: &Markup) -> (r: Vec<char>)
    ensures
        r@ == remove_markup(s@, m@),
{
    let mut out: Vec<char> = Vec::new();
    let mut i: usize = 0;
    while i < s.len()
        invariant
            i <= s.len(),
            remove_markup(s@, m@) == out@ + remove_from(s@, m@, i as int),
        decreases s.len() - i,
    {
        let k = m.match_len_at_exec(s, i);
        if k > 0 {
            i = i + k;
        } else {
            out.push(s[i]);
            i = i + 1;
        }
    }
    out
}

// ---------------------------------------------------------------------------
// Whitespace.

/// `s` from position `i` on, with every maximal run of white space replaced by one space;
/// `in_run` says whether the character before `i` was white space that began a run.
pub open spec fn collapse_from(s: Seq<char>, i: int, in_run: bool) -> Seq<char>
    decreases s.len() - i,
{
    if i < 0 || i >= s.len() {
        seq![]
    } else if is_white_space(s[i]) {
        if in_run {
            collapse_from(s, i + 1, true)
        } else {
            seq![' '] + collapse_from(s, i + 1, true)
        }
    } else {
        seq![s[i]] + collapse_from(s, i + 1, false)
    }
}

/// `s` with every maximal run of white space replaced by a single space
/// (the regex replacement of `\s+` by `" "`).
pub open spec fn collapse_white_space(s: Seq<char>) -> Seq<char> {
    collapse_from(s, 0, false)
}

/// Replaces every maximal run of white space by a single space.
pub fn collapse_white_space_chars(s: &Vec<char>) -> (r: Vec<char>)
    ensures
        r@ == collapse_white_space(s@),
{
    let mut out: Vec<char> = Vec::new();
    let mut in_run = false;
    let mut i: usize = 0;
    while i < s.len()
        invariant
            i <= s.len(),
            collapse_white_space(s@) == out@ + collapse_from(s@, i as int, in_run),
        decreases s.len() - i,
    {
        let c = s[i];
        if char_is_white_space(c) {
            if !in_run {
                out.push(' ');
            }
            in_run = true;
        } else {
            out.push(c);
            in_run = false;
        }
        i = i + 1;
    }
    out
}

/// `s` without its leading white space.
pub open spec fn trim_start(s: Seq<char>) -> Seq<char>
    decreases s.len(),
{
    if s.len() > 0 && is_white_space(s[0]) {
        trim_start(s.drop_first())
    } else {
        s
    }
}

/// `s` without its trailing white space.
pub open spec fn trim_end(s: Seq<char>) -> Seq<char>
    decreases s.len(),
{
    if s.len() > 0 && is_white_space(s.last()) {
        trim_end(s.drop_last())
    } else {
        s
    }
}

/// `s` without leading and trailing white space (`str::trim`).
pub open spec fn trim(s: Seq<char>) -> Seq<char> {
    trim_end(trim_start(s))
}

proof fn lemma_trim_start_skip(s: Seq<char>, a: int)
    requires
        0 <= a <= s.len(),
        forall|j: int| 0 <= j < a ==> is_white_space(s[j]),
        a == s.len() || !is_white_space(s[a]),
    ensures
        trim_start(s) == s.skip(a),
    decreases a,
{
    if a > 0 {
        assert(s.drop_first().skip(a - 1) == s.skip(a));
        lemma_trim_start_skip(s.drop_first(), a - 1);
    } else {
        assert(s.skip(0) == s);
    }
}

proof fn lemma_trim_end_take(s: Seq<char>, b: int)
    requires
        0 <= b <= s.len(),
        forall|j: int| b <= j < s.len() ==> is_white_space(s[j]),
        b == 0 || !is_white_space(s[b - 1]),
    ensures
        trim_end(s) == s.take(b),
    decreases s.len() - b,
{
    if b < s.len() {
        assert(s.drop_last().take(b) == s.take(b));
        lemma_trim_end_take(s.drop_last(), b);
    } else {
        assert(s.take(b) == s);
    }
}

/// Removes leading and trailing white space.
pub fn trim_chars(s: &Vec<char>) -> (r: Vec<char>)
    ensures
        r@ == trim(s@),
{
    let mut a: usize = 0;
    while a < s.len() && char_is_white_space(s[a])
        invariant
            a <= s.len(),
            forall|j: int| 0 <= j < a ==> is_white_space(s@[j]),
        decreases s.len() - a,
    {
        a = a + 1;
    }
    proof {
        lemma_trim_start_skip(s@, a as int);
    }
    let mut b: usize = s.len();
    while b > a && char_is_white_space(s[b - 1])
        invariant
            a <= b <= s.len(),
            forall|j: int| b <= j < s.len() ==> is_white_space(s@[j]),
        decreases b,
    {
        b = b - 1;
    }
    let ghost t = s@.skip(a as int);
    proof {
        assert forall|j: int| (b - a) <= j < t.len() implies is_white_space(t[j]) by {
            assert(t[j] == s@[a + j]);
        }
        if b > a {
            assert(t[b - a - 1] == s@[b - 1]);
        }
        lemma_trim_end_take(t, b - a);
        assert(t.take(b - a) == s@.subrange(a as int, b as int));
    }
    let mut out: Vec<char> = Vec::new();
    let mut k = a;
    while k < b
        invariant
            a <= k <= b <= s.len(),
            out@ == s@.subrange(a as int, k as int),
        decreases b - k,
    {
        out.push(s[k]);
        k = k + 1;
        assert(out@ == s@.subrange(a as int, k as int));
    }
    out
}

/// Collapses white space runs to single spaces, then trims.
pub open spec fn normalize_white_space(s: Seq<char>) -> Seq<char> {
    trim(collapse_white_space(s))
}

pub fn normalize_white_space_chars(s: &Vec<char>) -> (r: Vec<char>)
    ensures
        r@ == normalize_white_space(s@),
{
    let c = collapse_white_space_chars(s);
    trim_chars(&c)
}

/// Whether `p` occurs somewhere in `s` (exec).
pub fn contains_chars(s: &Vec<char>, p: &Vec<char>) -> (r: bool)
    ensures
        r == contains(s@, p@),
{
    proof {
        lemma_find_from(s@, p@, 0);
    }
    match find_from_exec(s, p, 0) {
        Some(j) => {
            assert(occurs_at(s@, p@, j as int));
            true
        },
        None => {
            assert forall|i: int| !occurs_at(s@, p@, i) by {
                if i >= 0 {
                } else {
                }
            }
            false
        },
    }
}

/// The parts joined with `sep` between consecutive parts.
pub open spec fn join(parts: Seq<Seq<char>>, sep: Seq<char>) -> Seq<char>
    decreases parts.len(),
{
    if parts.len() == 0 {
        seq![]
    } else if parts.len() == 1 {
        parts[0]
    } else {
        join(parts.drop_last(), sep) + sep + parts.last()
    }
}

pub open spec fn views(v: Seq<Vec<char>>) -> Seq<Seq<char>> {
    v.map_values(|x: Vec<char>| x@)
}

/// Joins the parts with `sep` between consecutive parts.
pub fn join_chars(parts: &Vec<Vec<char>>, sep: &Vec<char>) -> (r: Vec<char>)
    ensures
        r@ == join(views(parts@), sep@),
{
    let mut out: Vec<char> = Vec::new();
    let mut k: usize = 0;
    while k < parts.len()
        invariant
            k <= parts.len(),
            out@ == join(views(parts@).take(k as int), sep@),
        decreases parts.len() - k,
    {
        let ghost before = views(parts@).take(k as int);
        assert(views(parts@).take(k as int + 1).drop_last() == before);
        if k > 0 {
            extend_chars(&mut out, sep);
        }
        extend_chars(&mut out, &parts[k]);
        k = k + 1;
        proof {
            let now = views(parts@).take(k as int);
            assert(now.last() == parts@[k - 1]@);
            if k == 1 {
                assert(now.len() == 1);
                assert(before.len() == 0);
            }
        }
    }
    assert(views(parts@).take(parts.len() as int) == views(parts@));
    out
}

/// `acc` followed by `piece`, with `sep` between them when `acc` is not empty.
pub open spec fn append_piece(acc: Seq<char>, piece: Seq<char>, sep: Seq<char>) -> Seq<char> {
    if acc.len() > 0 {
        acc + sep + piece
    } else {
        acc + piece
    }
}

/// Whether every part is non-empty.
pub open spec fn all_nonempty(parts: Seq<Seq<char>>) -> bool {
    forall|i: int| 0 <= i < parts.len() ==> #[trigger] parts[i].len() > 0
}

/// The joining of non-empty parts is empty only when there are none.
pub proof fn lemma_join_nonempty(parts: Seq<Seq<char>>, sep: Seq<char>)
    requires
        all_nonempty(parts),
        parts.len() > 0,
    ensures
        join(parts, sep).len() > 0,
{
    assert(parts[parts.len() - 1].len() > 0);
    if parts.len() > 1 {
        assert(parts.last() == parts[parts.len() - 1]);
    }
}

/// Appending a non-empty piece after non-empty parts, with the separator when something is
/// there already, is joining the parts with that piece added.
pub proof fn lemma_append_piece_join(parts: Seq<Seq<char>>, piece: Seq<char>, sep: Seq<char>)
    requires
        all_nonempty(parts),
        piece.len() > 0,
    ensures
        append_piece(join(parts, sep), piece, sep) == join(parts.push(piece), sep),
        all_nonempty(parts.push(piece)),
{
    let ps = parts.push(piece);
    assert(ps.drop_last() == parts);
    if parts.len() == 0 {
        assert(join(parts, sep) == Seq::<char>::empty());
        assert(ps.len() == 1);
        assert(ps[0] == piece);
        assert(join(ps, sep) == piece);
        assert(append_piece(join(parts, sep), piece, sep) =~= piece);
    } else {
        lemma_join_nonempty(parts, sep);
    }
    assert forall|i: int| 0 <= i < ps.len() implies #[trigger] ps[i].len() > 0 by {
        if i < parts.len() {
            assert(ps[i] == parts[i]);
        }
    }
}

/// Each part occurs in the joining of the parts.
pub proof fn lemma_join_contains(parts: Seq<Seq<char>>, sep: Seq<char>, i: int)
    requires
        0 <= i < parts.len(),
    ensures
        contains(join(parts, sep), parts[i]),
    decreases parts.len(),
{
    let j = join(parts, sep);
    if parts.len() == 1 {
        assert(j.subrange(0, parts[i].len() as int) =~= parts[i]);
        assert(occurs_at(j, parts[i], 0));
    } else {
        let pre = join(parts.drop_last(), sep);
        assert(j == pre + sep + parts.last());
        if i == parts.len() - 1 {
            let k: int = (pre.len() + sep.len()) as int;
            assert(j.subrange(k, k + parts[i].len()) =~= parts[i]);
            assert(occurs_at(j, parts[i], k));
        } else {
            lemma_join_contains(parts.drop_last(), sep, i);
            assert(parts.drop_last()[i] == parts[i]);
            let k = choose|k: int| occurs_at(pre, parts[i], k);
            assert(j.subrange(k, k + parts[i].len()) =~= pre.subrange(k, k + parts[i].len()));
            assert(occurs_at(j, parts[i], k));
        }
    }
}

/// Appends `piece` to `acc`, with `sep` between them when `acc` is not empty.
pub fn append_piece_chars(acc: &mut Vec<char>, piece: &Vec<char>, sep: &Vec<char>)
    ensures
        final(acc)@ == append_piece(old(acc)@, piece@, sep@),
{
    if acc.len() > 0 {
        extend_chars(acc, sep);
    }
    extend_chars(acc, piece);
}

/// Whether `s` begins with `p` (exec).
pub fn starts_with_chars(s: &Vec<char>, p: &Vec<char>) -> (r: bool)
    ensures
        r == starts_with(s@, p@),
{
    occurs_at_exec(s, p, 0)
}

/// Whether `s` ends with `p` (exec).
pub fn ends_with_chars(s: &Vec<char>, p: &Vec<char>) -> (r: bool)
    ensures
        r == ends_with(s@, p@),
{
    if p.len() > s.len() {
        false
    } else {
        occurs_at_exec(s, p, s.len() - p.len())
    }
}


/// Whether two character sequences are equal (exec).
pub fn same_chars(a: &Vec<char>, b: &Vec<char>) -> (r: bool)
    ensures
        r == (a@ == b@),
{
    if a.len() != b.len() {
        return false;
    }
    let mut i: usize = 0;
    while i < a.len()
        invariant
            a.len() == b.len(),
            i <= a.len(),
            forall|k: int| 0 <= k < i ==> a@[k] == b@[k],
        decreases a.len() - i,
    {
        if a[i] != b[i] {
            return false;
        }
        i = i + 1;
    }
    assert(a@ =~= b@);
    true
}

/// Whether two strings hold the same characters.
pub fn str_equals(a: &str, b: &str) -> (r: bool)
    ensures
        r == (a@ == b@),
{
    same_chars(&chars_of(a), &chars_of(b))
}

/// The character sequences of a list of strings.
pub open spec fn string_views(v: Seq<String>) -> Seq<Seq<char>> {
    v.map_values(|s: String| s@)
}

/// The characters of `s` mapped by Unicode's lowercase mapping, as `str::to_lowercase`
/// returns them.
pub uninterp spec fn spec_to_lowercase(s: Seq<char>) -> Seq<char>;

/// Calls `str::to_lowercase`.
/// Claimed: the result is a function of the characters of `s` alone, and each character
/// becomes one or more (as `char::to_lowercase` documents), so the result is no shorter.
#[verifier::external_body]
pub(crate) fn to_lowercase(s: &str) -> (r: String)
    ensures
        r@ == spec_to_lowercase(s@),
        r@.len() >= s@.len(),
        s@.len() == 0 ==> r@.len() == 0,
{
    s.to_lowercase()
}

/// The characters of `s` mapped by Unicode's uppercase mapping, as `str::to_uppercase`
/// returns them.
pub uninterp spec fn spec_to_uppercase(s: Seq<char>) -> Seq<char>;

/// Calls `str::to_uppercase`.
/// Claimed: the result is a function of the characters of `s` alone, and each character
/// becomes one or more (as `char::to_uppercase` documents), so the result is no shorter.
#[verifier::external_body]
pub(crate) fn to_uppercase(s: &str) -> (r: String)
    ensures
        r@ == spec_to_uppercase(s@),
        r@.len() >= s@.len(),
        s@.len() == 0 ==> r@.len() == 0,
{
    s.to_uppercase()
}


/// `s` without all the copies of `c` it begins with (`str::trim_start_matches` with a
/// character).
pub open spec fn strip_leading(s: Seq<char>, c: char) -> Seq<char>
    decreases s.len(),
{
    if s.len() > 0 && s[0] == c {
        strip_leading(s.drop_first(), c)
    } else {
        s
    }
}

/// Removes the copies of `c` that `s` begins with.
pub fn strip_leading_chars(s: &Vec<char>, c: char) -> (r: Vec<char>)
    ensures
        r@ == strip_leading(s@, c),
{
    let mut a: usize = 0;
    assert(s@.skip(0) == s@);
    while a < s.len() && s[a] == c
        invariant
            a <= s.len(),
            strip_leading(s@, c) == strip_leading(s@.skip(a as int), c),
        decreases s.len() - a,
    {
        assert(s@.skip(a as int).drop_first() == s@.skip(a as int + 1));
        a = a + 1;
    }
    let mut out: Vec<char> = Vec::new();
    let mut k = a;
    while k < s.len()
        invariant
            a <= k <= s.len(),
            out@ == s@.subrange(a as int, k as int),
        decreases s.len() - k,
    {
        out.push(s[k]);
        k = k + 1;
        assert(out@ == s@.subrange(a as int, k as int));
    }
    assert(out@ == s@.skip(a as int));
    out
}


/// `a` comes before `b` in the order of `String`'s `Ord`: by character codes, a proper
/// prefix first.
pub open spec fn lex_lt(a: Seq<char>, b: Seq<char>) -> bool
    decreases a.len(),
{
    if a.len() == 0 {
        b.len() > 0
    } else if b.len() == 0 {
        false
    } else if a[0] != b[0] {
        a[0] < b[0]
    } else {
        lex_lt(a.drop_first(), b.drop_first())
    }
}

pub proof fn lemma_lex_lt_irreflexive(a: Seq<char>)
    ensures
        !lex_lt(a, a),
    decreases a.len(),
{
    if a.len() > 0 {
        lemma_lex_lt_irreflexive(a.drop_first());
    }
}

pub proof fn lemma_lex_lt_transitive(a: Seq<char>, b: Seq<char>, c: Seq<char>)
    requires
        lex_lt(a, b),
        lex_lt(b, c),
    ensures
        lex_lt(a, c),
    decreases a.len(),
{
    if a.len() > 0 && b.len() > 0 && c.len() > 0 && a[0] == b[0] && b[0] == c[0] {
        lemma_lex_lt_transitive(a.drop_first(), b.drop_first(), c.drop_first());
    }
}

pub proof fn lemma_lex_lt_total(a: Seq<char>, b: Seq<char>)
    ensures
        a == b || lex_lt(a, b) || lex_lt(b, a),
    decreases a.len(),
{
    if a.len() > 0 && b.len() > 0 && a[0] == b[0] {
        lemma_lex_lt_total(a.drop_first(), b.drop_first());
        if a.drop_first() == b.drop_first() {
            assert(a == seq![a[0]] + a.drop_first());
            assert(b == seq![b[0]] + b.drop_first());
        }
    } else if a.len() == 0 && b.len() == 0 {
        assert(a =~= b);
    }
}

/// Whether `a` comes before `b` (exec).
pub fn lex_lt_chars(a: &Vec<char>, b: &Vec<char>) -> (r: bool)
    ensures
        r == lex_lt(a@, b@),
{
    let mut i: usize = 0;
    assert(a@.skip(0) == a@ && b@.skip(0) == b@);
    while i < a.len() && i < b.len() && a[i] == b[i]
        invariant
            i <= a.len(),
            i <= b.len(),
            lex_lt(a@, b@) == lex_lt(a@.skip(i as int), b@.skip(i as int)),
        decreases a.len() - i,
    {
        assert(a@.skip(i as int).drop_first() == a@.skip(i as int + 1));
        assert(b@.skip(i as int).drop_first() == b@.skip(i as int + 1));
        i = i + 1;
    }
    if i == a.len() {
        i < b.len()
    } else if i == b.len() {
        false
    } else {
        a[i] < b[i]
    }
}

} // verus!
