//! Rich Text Format files.

use vstd::prelude::*;
use vstd::utf8::{decode_utf8, valid_utf8};
use super::{fail, parse_view, FileParser, ParseError};
use crate::encoding::utf8_text;
use crate::formats::{rtf_text, spec_rtf_text};
use crate::rtf_scan::{rtf_reader_hazard, rtf_reader_hazard_chars};
use crate::text::chars_of;
use crate::paths::{has_extension, path_has_extension};

verus! {

/// Extracts the text of `.rtf` files.
pub struct RtfParser;

/// An RTF file's text: the UTF-8 content parsed as RTF. Content that is not UTF-8, that the
/// RTF reader could panic on, or that does not parse, is an error.
pub open spec fn rtf_parse(data: Seq<u8>) -> Result<Seq<char>, Seq<char>> {
    if !valid_utf8(data) {
        Err("Failed to parse RTF file: stream did not contain valid UTF-8"@)
    } else if rtf_reader_hazard(decode_utf8(data)) {
        Err("Failed to parse RTF file: unsupported content"@)
    } else {
        match spec_rtf_text(decode_utf8(data)) {
            Ok(t) => Ok(t),
            Err(m) => Err("Failed to parse RTF file: "@ + m),
        }
    }
}

impl FileParser for RtfParser {
    fn can_parse(&self, path: &str) -> (r: bool)
        ensures
            r == has_extension(path@, "rtf"@),
    {
        path_has_extension(path, "rtf")
    }

    fn parse(&self, path: &str, data: &[u8]) -> (r: Result<String, ParseError>)
        ensures
            parse_view(r) == rtf_parse(data@),
    {
        match utf8_text(data) {
            None => fail("Failed to parse RTF file: stream did not contain valid UTF-8"),
            Some(s) => if rtf_reader_hazard_chars(&chars_of(s)) {
                fail("Failed to parse RTF file: unsupported content")
            } else {
                match rtf_text(s) {
                    Ok(t) => Ok(t),
                    Err(m) => {
                        let mut message = "Failed to parse RTF file: ".to_string();
                        message.append(m.as_str());
                        Err(ParseError { message })
                    },
                }
            },
        }
    }
}

} // verus!
