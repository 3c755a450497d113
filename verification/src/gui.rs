//! What the desktop window shows: the rows of the result table, the status line and the
//! SQL shown for a search. Drawing the window belongs to the program around the library.

use vstd::prelude::*;
use crate::database::{SearchResult, string_list};
use crate::numbers::nat_decimal;
use crate::paths::{extension, extension_chars};
use crate::text::{chars_of, string_of, extend_chars, spec_to_uppercase, to_uppercase, trim,
    trim_chars};

verus! {

/// A search result as the window lists it.
#[derive(Debug, Clone)]
pub struct SearchResultItem {
    pub name: String,
    pub path: String,
    pub context: String,
    pub is_start: bool,
    pub is_end: bool,
}

impl SearchResultItem {
    /// The item of a result of the index: the same name, path, context and flags.
    pub fn from_database_result(result: SearchResult) -> (r: Self)
        ensures
            r.name == result.name,
            r.path == result.path,
            r.context == result.context,
            r.is_start == result.is_start,
            r.is_end == result.is_end,
    {
        SearchResultItem {
            name: result.name,
            path: result.path,
            context: result.context,
            is_start: result.is_start,
            is_end: result.is_end,
        }
    }
}

/// The keyword a search asks for: the typed text trimmed; `None` (no search) when blank.
pub fn search_keyword(typed: &str) -> (r: Option<String>)
    ensures
        match r {
            Some(k) => trim(typed@).len() > 0 && k@ == trim(typed@),
            None => trim(typed@).len() == 0,
        },
{
    let t = trim_chars(&chars_of(typed));
    if t.len() == 0 {
        None
    } else {
        Some(string_of(&t))
    }
}

/// The type shown for a file: its extension in capitals, `-` when it has none.
pub open spec fn type_display(name: Seq<char>) -> Seq<char> {
    let upper = spec_to_uppercase(
        match extension(name) {
            Some(e) => e,
            None => seq![],
        },
    );
    if upper.len() == 0 {
        "-"@
    } else {
        upper
    }
}

/// The context shown for a result: `...` before it when it does not begin the file,
/// otherwise `...` after it when it does not end the file.
pub open spec fn context_display(context: Seq<char>, is_start: bool, is_end: bool) -> Seq<char> {
    if !is_start {
        "..."@ + context
    } else if !is_end {
        context + "..."@
    } else {
        context
    }
}

/// The row of the result table for the result at `idx`: its number (from 1), its name, its
/// type and its context.
pub fn result_row(idx: usize, result: &SearchResult) -> (r: Vec<String>)
    requires
        idx < usize::MAX,
    ensures
        string_list(r@) == seq![
            nat_decimal(idx as nat + 1),
            result.name@,
            type_display(result.name@),
            context_display(result.context@, result.is_start, result.is_end),
        ],
{
    let number = crate::numbers::usize_decimal(idx + 1);
    let ext = match extension_chars(&chars_of(result.name.as_str())) {
        Some(e) => e,
        None => Vec::new(),
    };
    let upper = chars_of(to_uppercase(string_of(&ext).as_str()).as_str());
    let type_text = if upper.len() == 0 {
        string_of(&chars_of("-"))
    } else {
        string_of(&upper)
    };
    let context = if !result.is_start {
        let mut c = chars_of("...");
        extend_chars(&mut c, &chars_of(result.context.as_str()));
        string_of(&c)
    } else if !result.is_end {
        let mut c = chars_of(result.context.as_str());
        extend_chars(&mut c, &chars_of("..."));
        string_of(&c)
    } else {
        result.context.clone()
    };
    let mut v: Vec<String> = Vec::new();
    v.push(number);
    v.push(result.name.clone());
    v.push(type_text);
    v.push(context);
    assert(string_list(v@) =~= seq![
        nat_decimal(idx as nat + 1),
        result.name@,
        type_display(result.name@),
        context_display(result.context@, result.is_start, result.is_end),
    ]);
    v
}

/// The status line after a search: `No results found`, or `Found <n> result(s)`.
pub fn results_status(count: usize) -> (r: String)
    ensures
        r@ == if count == 0 {
            "No results found"@
        } else {
            "Found "@ + nat_decimal(count as nat) + " result(s)"@
        },
{
    if count == 0 {
        return string_of(&chars_of("No results found"));
    }
    let mut m = chars_of("Found ");
    extend_chars(&mut m, &chars_of(crate::numbers::usize_decimal(count).as_str()));
    extend_chars(&mut m, &chars_of(" result(s)"));
    string_of(&m)
}

/// The status line while searching.
pub fn searching_status(keyword: &str) -> (r: String)
    ensures
        r@ == "Searching for: "@ + keyword@ + "..."@,
{
    let mut m = chars_of("Searching for: ");
    extend_chars(&mut m, &chars_of(keyword));
    extend_chars(&mut m, &chars_of("..."));
    string_of(&m)
}

/// The SQL shown for a search of `keyword`.
pub fn search_sql_display(keyword: &str) -> (r: String)
    ensures
        r@ == "SELECT name, abs_path, content FROM file WHERE content LIKE '%"@ + keyword@ + "%'"@,
{
    let mut m = chars_of("SELECT name, abs_path, content FROM file WHERE content LIKE '%");
    extend_chars(&mut m, &chars_of(keyword));
    extend_chars(&mut m, &chars_of("%'"));
    string_of(&m)
}

/// The status line after saving the settings.
pub fn save_status(saved: bool) -> (r: &'static str)
    ensures
        r@ == if saved {
            "Settings saved successfully"@
        } else {
            "Failed to save config"@
        },
{
    if saved {
        "Settings saved successfully"
    } else {
        "Failed to save config"
    }
}

/// The status line when a file of the results is opened.
pub fn open_file_status(path: &str) -> (r: String)
    ensures
        r@ == "File: "@ + path@,
{
    let mut m = chars_of("File: ");
    extend_chars(&mut m, &chars_of(path));
    string_of(&m)
}

} // verus!
