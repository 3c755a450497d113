//! PDF documents.

use vstd::prelude::*;
use super::{fail, parse_view, FileParser, ParseError};
use crate::formats::{option_strings_view, pdf_page_texts, spec_pdf_page_texts};
use crate::paths::{has_extension, path_has_extension};
use crate::text::{
    all_nonempty, append_piece, append_piece_chars, chars_of, contains, join,
    lemma_append_piece_join, lemma_join_contains, string_of,
};

verus! {

/// Extracts the text of `.pdf` files.
pub struct PdfParser;

/// The pages' texts in order, pages with text separated by a blank line; pages whose text
/// could not be extracted are left out.
pub open spec fn pages_text(pages: Seq<Option<Seq<char>>>) -> Seq<char>
    decreases pages.len(),
{
    if pages.len() == 0 {
        seq![]
    } else {
        let acc = pages_text(pages.drop_last());
        match pages.last() {
            Some(t) => if t.len() > 0 {
                append_piece(acc, t, "\n\n"@)
            } else {
                acc
            },
            None => acc,
        }
    }
}

/// The texts of the pages that have text, in page order.
pub open spec fn page_pieces(pages: Seq<Option<Seq<char>>>) -> Seq<Seq<char>>
    decreases pages.len(),
{
    if pages.len() == 0 {
        seq![]
    } else {
        let rest = page_pieces(pages.drop_last());
        match pages.last() {
            Some(t) => if t.len() > 0 {
                rest.push(t)
            } else {
                rest
            },
            None => rest,
        }
    }
}

proof fn lemma_page_pieces(pages: Seq<Option<Seq<char>>>)
    ensures
        all_nonempty(page_pieces(pages)),
        pages_text(pages) == join(page_pieces(pages), "\n\n"@),
        forall|i: int|
            0 <= i < pages.len() && (#[trigger] pages[i] matches Some(t) && t.len() > 0)
                ==> exists|j: int|
                0 <= j < page_pieces(pages).len() && page_pieces(pages)[j] == pages[i]->0,
    decreases pages.len(),
{
    if pages.len() > 0 {
        let init = pages.drop_last();
        lemma_page_pieces(init);
        let rest = page_pieces(init);
        match pages.last() {
            Some(t) => if t.len() > 0 {
                lemma_append_piece_join(rest, t, "\n\n"@);
            },
            None => {},
        }
        let pp = page_pieces(pages);
        assert forall|i: int|
            0 <= i < pages.len() && (#[trigger] pages[i] matches Some(t) && t.len() > 0)
                implies exists|j: int| 0 <= j < pp.len() && pp[j] == pages[i]->0 by {
            if i < pages.len() - 1 {
                assert(init[i] == pages[i]);
                let j = choose|j: int| 0 <= j < rest.len() && rest[j] == init[i]->0;
                assert(pp[j] == rest[j]);
            } else {
                assert(pages[i] == pages.last());
                assert(pp[rest.len() as int] == pages[i]->0);
            }
        }
    }
}

/// The text of a document is the texts of the pages that have text, in page order, joined
/// by a blank line; so the text of every page that has text occurs in it.
pub proof fn lemma_pdf_text_keeps_every_page(pages: Seq<Option<Seq<char>>>)
    ensures
        pages_text(pages) == join(page_pieces(pages), "\n\n"@),
        forall|i: int|
            0 <= i < pages.len() && (#[trigger] pages[i] matches Some(t) && t.len() > 0)
                ==> contains(pages_text(pages), pages[i]->0),
{
    lemma_page_pieces(pages);
    let pp = page_pieces(pages);
    assert forall|i: int|
        0 <= i < pages.len() && (#[trigger] pages[i] matches Some(t) && t.len() > 0)
            implies contains(pages_text(pages), pages[i]->0) by {
        let j = choose|j: int| 0 <= j < pp.len() && pp[j] == pages[i]->0;
        lemma_join_contains(pp, "\n\n"@, j);
    }
}

/// A PDF document's text: that of its pages.
pub open spec fn pdf_parse(data: Seq<u8>) -> Result<Seq<char>, Seq<char>> {
    match spec_pdf_page_texts(data) {
        None => Err("Failed to open PDF file"@),
        Some(pages) => Ok(pages_text(pages)),
    }
}

/// Joins the texts of a document's pages, as [`pages_text`] says.
pub fn join_page_texts(pages: &Vec<Option<String>>) -> (r: String)
    ensures
        r@ == pages_text(option_strings_view(pages@)),
{
    let ghost pv = option_strings_view(pages@);
    let sep = chars_of("\n\n");
    let mut acc: Vec<char> = Vec::new();
    let mut i: usize = 0;
    while i < pages.len()
        invariant
            i <= pages.len(),
            pv == option_strings_view(pages@),
            sep@ == "\n\n"@,
            acc@ == pages_text(pv.take(i as int)),
        decreases pages.len() - i,
    {
        assert(pv.take(i as int + 1).drop_last() == pv.take(i as int));
        match &pages[i] {
            Some(t) => {
                let tc = chars_of(t.as_str());
                if tc.len() > 0 {
                    append_piece_chars(&mut acc, &tc, &sep);
                }
            },
            None => {},
        }
        i = i + 1;
    }
    assert(pv.take(pages.len() as int) == pv);
    string_of(&acc)
}

impl FileParser for PdfParser {
    fn can_parse(&self, path: &str) -> (r: bool)
        ensures
            r == has_extension(path@, "pdf"@),
    {
        path_has_extension(path, "pdf")
    }

    fn parse(&self, path: &str, data: &[u8]) -> (r: Result<String, ParseError>)
        ensures
            parse_view(r) == pdf_parse(data@),
    {
        match pdf_page_texts(data) {
            None => fail("Failed to open PDF file"),
            Some(pages) => Ok(join_page_texts(&pages)),
        }
    }
}

} // verus!
