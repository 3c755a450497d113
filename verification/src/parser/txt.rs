//! Plain text files.

use vstd::prelude::*;
use super::{parse_view, FileParser, ParseError};
use crate::encoding::{decode_text, read_text};
use crate::paths::{has_extension, path_has_extension};

verus! {

/// Extracts the text of `.txt` files.
pub struct TxtParser;

/// A text file's text is its content decoded.
pub open spec fn txt_parse(data: Seq<u8>) -> Result<Seq<char>, Seq<char>> {
    Ok(decode_text(data))
}

impl FileParser for TxtParser {
    fn can_parse(&self, path: &str) -> (r: bool)
        ensures
            r == has_extension(path@, "txt"@),
    {
        path_has_extension(path, "txt")
    }

    fn parse(&self, path: &str, data: &[u8]) -> (r: Result<String, ParseError>)
        ensures
            parse_view(r) == txt_parse(data@),
    {
        Ok(read_text(data))
    }
}

} // verus!
