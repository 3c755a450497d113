//! Comma-separated value files.

use vstd::prelude::*;
use vstd::utf8::{decode_utf8, valid_utf8};
use super::{fail, parse_view, FileParser, ParseError};
use crate::encoding::utf8_text;
use crate::paths::{has_extension, path_has_extension};
use crate::text::{chars_of, replace_all, replace_chars, string_of};

verus! {

/// Extracts the text of `.csv` files.
pub struct CsvParser;

/// A CSV file's text is its UTF-8 content without carriage returns; other content is an error.
pub open spec fn csv_parse(data: Seq<u8>) -> Result<Seq<char>, Seq<char>> {
    if valid_utf8(data) {
        Ok(replace_all(decode_utf8(data), "\r"@, ""@))
    } else {
        Err("Failed to read csv file"@)
    }
}

impl FileParser for CsvParser {
    fn can_parse(&self, path: &str) -> (r: bool)
        ensures
            r == has_extension(path@, "csv"@),
    {
        path_has_extension(path, "csv")
    }

    fn parse(&self, path: &str, data: &[u8]) -> (r: Result<String, ParseError>)
        ensures
            parse_view(r) == csv_parse(data@),
    {
        match utf8_text(data) {
            Some(s) => {
                proof {
                    reveal_strlit("\r");
                }
                let cs = chars_of(s);
                let cr = chars_of("\r");
                let none = chars_of("");
                Ok(string_of(&replace_chars(&cs, &cr, &none)))
            },
            None => fail("Failed to read csv file"),
        }
    }
}

} // verus!
