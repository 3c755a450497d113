//! Word documents.

use vstd::prelude::*;
use super::{fail, parse_view, FileParser, ParseError};
use crate::archive::{spec_zip_named_text, zip_named_text, ZipReadError};
use crate::extract::{docx_text, docx_text_of_xml};
use crate::paths::{has_extension, path_has_extension};

verus! {

/// Extracts the text of `.docx` files.
pub struct DocxParser;

/// A Word document's text: that of its `word/document.xml` entry.
pub open spec fn docx_parse(data: Seq<u8>) -> Result<Seq<char>, Seq<char>> {
    match spec_zip_named_text(data, "word/document.xml"@) {
        Ok(xml) => Ok(docx_text(xml)),
        Err(ZipReadError::Archive) => Err("Failed to open zip archive"@),
        Err(ZipReadError::Missing) => Err("word/document.xml not found in docx"@),
        Err(ZipReadError::Read) => Err("Failed to read document.xml"@),
    }
}

impl FileParser for DocxParser {
    fn can_parse(&self, path: &str) -> (r: bool)
        ensures
            r == has_extension(path@, "docx"@),
    {
        path_has_extension(path, "docx")
    }

    fn parse(&self, path: &str, data: &[u8]) -> (r: Result<String, ParseError>)
        ensures
            parse_view(r) == docx_parse(data@),
    {
        match zip_named_text(data, "word/document.xml") {
            Ok(xml) => Ok(docx_text_of_xml(xml.as_str())),
            Err(ZipReadError::Archive) => fail("Failed to open zip archive"),
            Err(ZipReadError::Missing) => fail("word/document.xml not found in docx"),
            Err(ZipReadError::Read) => fail("Failed to read document.xml"),
        }
    }
}

} // verus!
