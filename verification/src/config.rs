//! The settings of the index: which directories are watched, which file names are indexed,
//! and how much context a search result shows.

use vstd::prelude::*;
use crate::text::{chars_of, string_of, string_views};

verus! {

/// A directory (or file) whose documents are indexed, and whether its subdirectories are.
#[derive(Debug, Clone)]
pub struct WatchPath {
    pub path: String,
    pub recursive: bool,
}

/// The settings of the index.
#[derive(Debug, Clone)]
pub struct Config {
    pub watch_paths: Vec<WatchPath>,
    pub file_patterns: Vec<String>,
    pub context_length: usize,
}

/// The `recursive` flag of a watch path whose settings leave it out.
pub fn default_recursive() -> (r: bool)
    ensures
        r,
{
    true
}

/// The file patterns indexed by default, one per supported document format.
pub open spec fn default_file_patterns() -> Seq<Seq<char>> {
    seq![
        "*.docx"@,
        "*.pptx"@,
        "*.xlsx"@,
        "*.xls"@,
        "*.pdf"@,
        "*.txt"@,
        "*.csv"@,
        "*.md"@,
        "*.rtf"@,
        "*.odt"@,
        "*.ods"@,
        "*.odp"@,
    ]
}

/// The context length of the default settings.
pub open spec fn default_context_length() -> nat {
    50
}

fn push_pattern(v: &mut Vec<String>, p: &str)
    ensures
        string_views(final(v)@) == string_views(old(v)@).push(p@),
{
    let s = string_of(&chars_of(p));
    v.push(s);
    assert(string_views(v@) =~= string_views(old(v)@).push(p@));
}

impl Default for Config {
    /// No watched path, every supported document format, a context of 50 characters.
    fn default() -> (c: Self)
        ensures
            c.watch_paths@.len() == 0,
            string_views(c.file_patterns@) == default_file_patterns(),
            c.context_length == default_context_length(),
    {
        let mut pats: Vec<String> = Vec::new();
        push_pattern(&mut pats, "*.docx");
        push_pattern(&mut pats, "*.pptx");
        push_pattern(&mut pats, "*.xlsx");
        push_pattern(&mut pats, "*.xls");
        push_pattern(&mut pats, "*.pdf");
        push_pattern(&mut pats, "*.txt");
        push_pattern(&mut pats, "*.csv");
        push_pattern(&mut pats, "*.md");
        push_pattern(&mut pats, "*.rtf");
        push_pattern(&mut pats, "*.odt");
        push_pattern(&mut pats, "*.ods");
        push_pattern(&mut pats, "*.odp");
        assert(string_views(pats@) =~= default_file_patterns());
        Config { watch_paths: Vec::new(), file_patterns: pats, context_length: 50 }
    }
}

} // verus!
