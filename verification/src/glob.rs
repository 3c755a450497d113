//! File name patterns such as `*.docx`: each is turned into an anchored regular
//! expression (`.` literal, `*` any run, `?` any one character) and matched, case aside,
//! against the file name of a path.

use vstd::prelude::*;
use crate::paths::{file_name, file_name_chars};
use crate::text::{chars_of, string_of, spec_to_lowercase, to_lowercase, starts_with,
    starts_with_chars};
use crate::database::string_list;

verus! {

/// How one character of a pattern is written in the regular expression.
pub open spec fn glob_char(c: char) -> Seq<char> {
    if c == '.' {
        seq!['\\', '.']
    } else if c == '*' {
        seq!['.', '*']
    } else if c == '?' {
        seq!['.']
    } else {
        seq![c]
    }
}

/// The characters of a pattern written as `glob_char` writes them.
pub open spec fn glob_body(p: Seq<char>) -> Seq<char>
    decreases p.len(),
{
    if p.len() == 0 {
        seq![]
    } else {
        glob_body(p.drop_last()) + glob_char(p.last())
    }
}

/// A pattern is written piece by piece: the expression of two patterns one after the other
/// is the expression of the first followed by that of the second.
pub proof fn lemma_glob_body_concat(a: Seq<char>, b: Seq<char>)
    ensures
        glob_body(a + b) == glob_body(a) + glob_body(b),
    decreases b.len(),
{
    if b.len() == 0 {
        assert(a + b =~= a);
    } else {
        lemma_glob_body_concat(a, b.drop_last());
        assert((a + b).drop_last() =~= a + b.drop_last());
        assert((a + b).last() == b.last());
    }
}

/// A pattern without `.`, `*` or `?` stands for itself: its expression is its characters.
pub proof fn lemma_glob_plain_is_itself(p: Seq<char>)
    requires
        forall|i: int| 0 <= i < p.len() ==> #[trigger] p[i] != '.' && p[i] != '*' && p[i] != '?',
    ensures
        glob_body(p) == p,
    decreases p.len(),
{
    if p.len() > 0 {
        assert(p.last() == p[p.len() - 1]);
        lemma_glob_plain_is_itself(p.drop_last());
        assert(p.drop_last() + seq![p.last()] =~= p);
    }
}

/// `*` stands for any run of characters, `?` for any one, and `.` for itself.
pub proof fn lemma_glob_wildcards(c: char)
    ensures
        c == '*' ==> glob_body(seq![c]) == seq!['.', '*'],
        c == '?' ==> glob_body(seq![c]) == seq!['.'],
        c == '.' ==> glob_body(seq![c]) == seq!['\\', '.'],
{
    assert(seq![c].drop_last() =~= Seq::<char>::empty());
    assert(seq![c].last() == c);
    assert(glob_body(seq![c]) =~= glob_body(Seq::<char>::empty()) + glob_char(c));
    assert(glob_body(seq![c]) =~= glob_char(c));
}

/// The regular expression of a pattern, anchored at both ends.
pub open spec fn glob_regex(p: Seq<char>) -> Seq<char> {
    seq!['^'] + glob_body(p) + seq!['$']
}

/// The regular expression of a pattern.
pub fn glob_to_regex(pattern: &str) -> (r: String)
    ensures
        r@ == glob_regex(pattern@),
{
    let p = chars_of(pattern);
    let mut out: Vec<char> = Vec::new();
    out.push('^');
    let mut i: usize = 0;
    while i < p.len()
        invariant
            i <= p.len(),
            out@ == seq!['^'] + glob_body(p@.take(i as int)),
        decreases p.len() - i,
    {
        let c = p[i];
        assert(p@.take(i as int + 1).drop_last() == p@.take(i as int));
        assert(p@.take(i as int + 1).last() == c);
        if c == '.' {
            out.push('\\');
            out.push('.');
        } else if c == '*' {
            out.push('.');
            out.push('*');
        } else if c == '?' {
            out.push('.');
        } else {
            out.push(c);
        }
        i = i + 1;
        assert(out@ =~= seq!['^'] + glob_body(p@.take(i as int)));
    }
    assert(p@.take(p.len() as int) == p@);
    out.push('$');
    string_of(&out)
}

/// Whether `regex::Regex::new` accepts the pattern.
pub uninterp spec fn spec_regex_valid(pattern: Seq<char>) -> bool;

/// What `regex::Regex::is_match` says of `text` for the expression compiled from `pattern`.
pub uninterp spec fn spec_regex_is_match(pattern: Seq<char>, text: Seq<char>) -> bool;

/// Whether the text matches the regular expression; `None` when the expression does not
/// compile.
pub open spec fn spec_regex_match(pattern: Seq<char>, text: Seq<char>) -> Option<bool> {
    if spec_regex_valid(pattern) {
        Some(spec_regex_is_match(pattern, text))
    } else {
        None
    }
}

/// `regex::Regex`, a compiled regular expression.
#[verifier::external_type_specification]
#[verifier::external_body]
pub struct ExRegex(regex::Regex);

/// A compiled regular expression, with the pattern it was compiled from.
pub struct CompiledRegex {
    re: regex::Regex,
    pattern: Ghost<Seq<char>>,
}

impl CompiledRegex {
    /// The pattern the expression was compiled from.
    pub closed spec fn pattern(&self) -> Seq<char> {
        self.pattern@
    }
}

/// `regex::Regex::new`.
/// Claimed: whether it succeeds is a function of `pattern`.
#[verifier::external_body]
fn regex_compile(pattern: &str) -> (r: Option<CompiledRegex>)
    ensures
        match r {
            Some(c) => spec_regex_valid(pattern@) && c.pattern() == pattern@,
            None => !spec_regex_valid(pattern@),
        },
{
    match regex::Regex::new(pattern) {
        Ok(re) => Some(CompiledRegex { re, pattern: Ghost(pattern@) }),
        Err(_) => None,
    }
}

/// `regex::Regex::is_match`.
/// Claimed: the answer is a function of the pattern and `text`.
#[verifier::external_body]
fn regex_is_match(re: &CompiledRegex, text: &str) -> (r: bool)
    ensures
        r == spec_regex_is_match(re.pattern(), text@),
{
    re.re.is_match(text)
}

/// Compiles `pattern` and tests `text` against it; `None` when it does not compile.
fn regex_match(pattern: &str, text: &str) -> (r: Option<bool>)
    ensures
        r == spec_regex_match(pattern@, text@),
{
    match regex_compile(pattern) {
        Some(re) => Some(regex_is_match(&re, text)),
        None => None,
    }
}

/// The name a pattern is matched against: the file name of the path, or nothing.
pub open spec fn name_of(path: Seq<char>) -> Seq<char> {
    match file_name(path) {
        Some(n) => n,
        None => seq![],
    }
}

/// The file name matches the pattern, both lowercased.
pub open spec fn pattern_matches(name: Seq<char>, pattern: Seq<char>) -> bool {
    spec_regex_match(glob_regex(spec_to_lowercase(pattern)), spec_to_lowercase(name)) == Some(true)
}

/// The file name of the path matches one of the patterns.
pub open spec fn matches_any(path: Seq<char>, patterns: Seq<Seq<char>>) -> bool {
    exists|i: int| 0 <= i < patterns.len() && pattern_matches(name_of(path), #[trigger] patterns[i])
}

fn name_of_exec(path: &str) -> (r: Vec<char>)
    ensures
        r@ == name_of(path@),
{
    match file_name_chars(&chars_of(path)) {
        Some(n) => n,
        None => Vec::new(),
    }
}

fn matches_name(name: &Vec<char>, patterns: &[String]) -> (r: bool)
    ensures
        r == exists|i: int|
            0 <= i < patterns@.len() && pattern_matches(name@, #[trigger] string_list(patterns@)[i]),
{
    let lower_name = to_lowercase(string_of(name).as_str());
    let mut i: usize = 0;
    while i < patterns.len()
        invariant
            i <= patterns.len(),
            lower_name@ == spec_to_lowercase(name@),
            forall|k: int|
                0 <= k < i ==> !pattern_matches(name@, #[trigger] string_list(patterns@)[k]),
        decreases patterns.len() - i,
    {
        let lower_pattern = to_lowercase(patterns[i].as_str());
        let re = glob_to_regex(lower_pattern.as_str());
        assert(string_list(patterns@)[i as int] == patterns@[i as int]@);
        match regex_match(re.as_str(), lower_name.as_str()) {
            Some(true) => {
                return true;
            },
            _ => {},
        }
        i = i + 1;
    }
    false
}

/// Whether the file name of `path` matches one of the patterns.
pub fn matches_pattern(path: &str, patterns: &[String]) -> (r: bool)
    ensures
        r == matches_any(path@, string_list(patterns@)),
{
    let name = name_of_exec(path);
    matches_name(&name, patterns)
}

/// Whether a file is one the index takes: not an Office lock file (`~$...`), and with a
/// name that matches one of the patterns.
pub open spec fn indexable(path: Seq<char>, patterns: Seq<Seq<char>>) -> bool {
    !starts_with(name_of(path), seq!['~', '$']) && matches_any(path, patterns)
}

/// Whether the indexer takes the file at `path`.
pub fn is_indexable(path: &str, patterns: &[String]) -> (r: bool)
    ensures
        r == indexable(path@, string_list(patterns@)),
{
    let name = name_of_exec(path);
    let mut lock: Vec<char> = Vec::new();
    lock.push('~');
    lock.push('$');
    assert(lock@ == seq!['~', '$']);
    if starts_with_chars(&name, &lock) {
        return false;
    }
    matches_name(&name, patterns)
}

} // verus!
