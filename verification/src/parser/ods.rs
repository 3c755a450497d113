//! OpenDocument spreadsheets.

use vstd::prelude::*;
use super::{fail, parse_view, FileParser, ParseError};
use crate::archive::{spec_zip_named_text, zip_named_text, ZipReadError};
use crate::extract::{ods_text, ods_text_of_events};
use crate::paths::{has_extension, path_has_extension};
use crate::xml::{spec_xml_events, xml_events};

verus! {

/// Extracts the text of `.ods` files.
pub struct OdsParser;

/// An OpenDocument spreadsheet's text: that of the XML events of its `content.xml` entry.
pub open spec fn ods_parse(data: Seq<u8>) -> Result<Seq<char>, Seq<char>> {
    match spec_zip_named_text(data, "content.xml"@) {
        Ok(xml) => Ok(ods_text(spec_xml_events(xml))),
        Err(ZipReadError::Archive) => Err("Failed to open zip archive"@),
        Err(ZipReadError::Missing) => Err("content.xml not found in ods"@),
        Err(ZipReadError::Read) => Err("Failed to read content.xml"@),
    }
}

impl FileParser for OdsParser {
    fn can_parse(&self, path: &str) -> (r: bool)
        ensures
            r == has_extension(path@, "ods"@),
    {
        path_has_extension(path, "ods")
    }

    fn parse(&self, path: &str, data: &[u8]) -> (r: Result<String, ParseError>)
        ensures
            parse_view(r) == ods_parse(data@),
    {
        match zip_named_text(data, "content.xml") {
            Ok(xml) => {
                let events = xml_events(xml.as_str());
                Ok(ods_text_of_events(&events))
            },
            Err(ZipReadError::Archive) => fail("Failed to open zip archive"),
            Err(ZipReadError::Missing) => fail("content.xml not found in ods"),
            Err(ZipReadError::Read) => fail("Failed to read content.xml"),
        }
    }
}

} // verus!
