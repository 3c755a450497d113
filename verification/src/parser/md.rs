//! Markdown files.

use vstd::prelude::*;
use super::{parse_view, FileParser, ParseError};
use crate::encoding::{decode_text, read_text};
use crate::extract::{html_text, strip_html_tags};
use crate::formats::{markdown_to_html, spec_markdown_html};
use crate::paths::{has_extension, path_has_extension};

verus! {

/// Extracts the text of `.md` and `.markdown` files.
pub struct MdParser;

/// A Markdown file's text: its content decoded, rendered to HTML, and the HTML's text.
pub open spec fn md_parse(data: Seq<u8>) -> Result<Seq<char>, Seq<char>> {
    Ok(html_text(spec_markdown_html(decode_text(data))))
}

impl FileParser for MdParser {
    fn can_parse(&self, path: &str) -> (r: bool)
        ensures
            r == (has_extension(path@, "md"@) || has_extension(path@, "markdown"@)),
    {
        path_has_extension(path, "md") || path_has_extension(path, "markdown")
    }

    fn parse(&self, path: &str, data: &[u8]) -> (r: Result<String, ParseError>)
        ensures
            parse_view(r) == md_parse(data@),
    {
        let content = read_text(data);
        let html = markdown_to_html(content.as_str());
        Ok(strip_html_tags(html.as_str()))
    }
}

} // verus!
