//! OpenDocument texts.

use vstd::prelude::*;
use super::{fail, parse_view, FileParser, ParseError};
use crate::archive::{spec_zip_named_text, zip_named_text, ZipReadError};
use crate::extract::{odp_text, odp_text_of_events};
use crate::paths::{has_extension, path_has_extension};
use crate::xml::{spec_xml_events, xml_events};

verus! {

/// Extracts the text of `.odt` files.
pub struct OdtParser;

/// An OpenDocument text's text: that of the XML events of its `content.xml` entry.
pub open spec fn odt_parse(data: Seq<u8>) -> Result<Seq<char>, Seq<char>> {
    match spec_zip_named_text(data, "content.xml"@) {
        Ok(xml) => Ok(odp_text(spec_xml_events(xml))),
        Err(ZipReadError::Archive) => Err("Failed to open zip archive"@),
        Err(ZipReadError::Missing) => Err("content.xml not found in odt"@),
        Err(ZipReadError::Read) => Err("Failed to read content.xml"@),
    }
}

impl FileParser for OdtParser {
    fn can_parse(&self, path: &str) -> (r: bool)
        ensures
            r == has_extension(path@, "odt"@),
    {
        path_has_extension(path, "odt")
    }

    fn parse(&self, path: &str, data: &[u8]) -> (r: Result<String, ParseError>)
        ensures
            parse_view(r) == odt_parse(data@),
    {
        match zip_named_text(data, "content.xml") {
            Ok(xml) => {
                let events = xml_events(xml.as_str());
                Ok(odp_text_of_events(&events))
            },
            Err(ZipReadError::Archive) => fail("Failed to open zip archive"),
            Err(ZipReadError::Missing) => fail("content.xml not found in odt"),
            Err(ZipReadError::Read) => fail("Failed to read content.xml"),
        }
    }
}

} // verus!
