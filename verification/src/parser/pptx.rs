//! PowerPoint presentations.

use vstd::prelude::*;
use super::{fail, parse_view, FileParser, ParseError};
use crate::archive::{
    spec_zip_entry_name, spec_zip_entry_text, spec_zip_len, spec_zip_opens, zip_len,
    zip_name_at, zip_open, zip_text_at,
};
use crate::extract::{pptx_text, pptx_text_of_xml};
use crate::paths::{has_extension, path_has_extension};
use crate::text::{
    all_nonempty, contains, join, lemma_append_piece_join, lemma_join_contains,
    append_piece, append_piece_chars, chars_of, ends_with, ends_with_chars, starts_with,
    starts_with_chars, string_of,
};

verus! {

/// Extracts the text of `.pptx` files.
pub struct PptxParser;

/// Whether an archive entry is a slide: `ppt/slides/slide*.xml`.
pub open spec fn is_slide_entry(name: Seq<char>) -> bool {
    starts_with(name, "ppt/slides/slide"@) && ends_with(name, ".xml"@)
}

/// The text of the slides among the first `n` entries, slides with text separated by a blank
/// line; an entry that cannot be read stops with an error (the archive's own message where
/// the entry cannot be had at all).
pub open spec fn pptx_fold(data: Seq<u8>, n: int) -> Result<Seq<char>, Seq<char>>
    decreases n,
{
    if n <= 0 {
        Ok(seq![])
    } else {
        match pptx_fold(data, n - 1) {
            Err(m) => Err(m),
            Ok(acc) => match spec_zip_entry_name(data, (n - 1) as nat) {
                Err(m) => Err(m),
                Ok(name) => if is_slide_entry(name) {
                    match spec_zip_entry_text(data, (n - 1) as nat) {
                        None => Err("Failed to read slide XML"@),
                        Some(xml) => if pptx_text(xml).len() > 0 {
                            Ok(append_piece(acc, pptx_text(xml), "\n\n"@))
                        } else {
                            Ok(acc)
                        },
                    }
                } else {
                    Ok(acc)
                },
            },
        }
    }
}

/// The texts of the slides among the first `n` entries that have text, in archive order.
pub open spec fn slide_texts(data: Seq<u8>, n: int) -> Seq<Seq<char>>
    decreases n,
{
    if n <= 0 {
        seq![]
    } else {
        let rest = slide_texts(data, n - 1);
        match spec_zip_entry_name(data, (n - 1) as nat) {
            Ok(name) => if is_slide_entry(name) {
                match spec_zip_entry_text(data, (n - 1) as nat) {
                    Some(xml) => if pptx_text(xml).len() > 0 {
                        rest.push(pptx_text(xml))
                    } else {
                        rest
                    },
                    None => rest,
                }
            } else {
                rest
            },
            Err(_) => rest,
        }
    }
}

proof fn lemma_slide_texts(data: Seq<u8>, n: int)
    requires
        pptx_fold(data, n) is Ok,
    ensures
        all_nonempty(slide_texts(data, n)),
        pptx_fold(data, n) == Ok::<Seq<char>, Seq<char>>(join(slide_texts(data, n), "\n\n"@)),
    decreases n,
{
    if n > 0 {
        lemma_slide_texts(data, n - 1);
        let rest = slide_texts(data, n - 1);
        match spec_zip_entry_name(data, (n - 1) as nat) {
            Ok(name) => if is_slide_entry(name) {
                match spec_zip_entry_text(data, (n - 1) as nat) {
                    Some(xml) => if pptx_text(xml).len() > 0 {
                        lemma_append_piece_join(rest, pptx_text(xml), "\n\n"@);
                    },
                    None => {},
                }
            },
            Err(_) => {},
        }
    }
}

/// When a presentation is read, its text is the texts of all its slide entries that have
/// text, in archive order, joined by a blank line; so the text of every such slide occurs
/// in it.
pub proof fn lemma_pptx_text_keeps_every_slide(data: Seq<u8>)
    requires
        pptx_parse(data) is Ok,
    ensures
        pptx_parse(data) == Ok::<Seq<char>, Seq<char>>(
            join(slide_texts(data, spec_zip_len(data) as int), "\n\n"@),
        ),
        forall|i: int|
            0 <= i < slide_texts(data, spec_zip_len(data) as int).len() ==> contains(
                pptx_parse(data)->Ok_0,
                #[trigger] slide_texts(data, spec_zip_len(data) as int)[i],
            ),
{
    let n = spec_zip_len(data) as int;
    lemma_slide_texts(data, n);
    let st = slide_texts(data, n);
    assert forall|i: int| 0 <= i < st.len() implies contains(pptx_parse(data)->Ok_0, #[trigger] st[i]) by {
        lemma_join_contains(st, "\n\n"@, i);
    }
}

/// A presentation's text: that of its slides in archive order.
pub open spec fn pptx_parse(data: Seq<u8>) -> Result<Seq<char>, Seq<char>> {
    if spec_zip_opens(data) {
        pptx_fold(data, spec_zip_len(data) as int)
    } else {
        Err("Failed to open zip archive"@)
    }
}

proof fn lemma_pptx_error_stays(data: Seq<u8>, k: int, n: int)
    requires
        0 <= k <= n,
        pptx_fold(data, k) is Err,
    ensures
        pptx_fold(data, n) == pptx_fold(data, k),
    decreases n - k,
{
    if n > k {
        lemma_pptx_error_stays(data, k, n - 1);
    }
}

impl FileParser for PptxParser {
    fn can_parse(&self, path: &str) -> (r: bool)
        ensures
            r == has_extension(path@, "pptx"@),
    {
        path_has_extension(path, "pptx")
    }

    fn parse(&self, path: &str, data: &[u8]) -> (r: Result<String, ParseError>)
        ensures
            parse_view(r) == pptx_parse(data@),
    {
        let mut book = match zip_open(data) {
            None => {
                return fail("Failed to open zip archive");
            },
            Some(b) => b,
        };
        let count = zip_len(&book);
        let prefix = chars_of("ppt/slides/slide");
        let suffix = chars_of(".xml");
        let sep = chars_of("\n\n");
        let mut acc: Vec<char> = Vec::new();
        let mut i: usize = 0;
        while i < count
            invariant
                i <= count,
                book.data() == data@,
                spec_zip_opens(data@),
                count == spec_zip_len(data@),
                prefix@ == "ppt/slides/slide"@,
                suffix@ == ".xml"@,
                sep@ == "\n\n"@,
                pptx_fold(data@, i as int) == Ok::<Seq<char>, Seq<char>>(acc@),
            decreases count - i,
        {
            let name = match zip_name_at(&mut book, i) {
                Err(m) => {
                    proof {
                        lemma_pptx_error_stays(data@, i + 1, count as int);
                    }
                    return Err(ParseError { message: m });
                },
                Ok(n) => n,
            };
            let nc = chars_of(name.as_str());
            if starts_with_chars(&nc, &prefix) && ends_with_chars(&nc, &suffix) {
                match zip_text_at(&mut book, i) {
                    None => {
                        proof {
                            lemma_pptx_error_stays(data@, i + 1, count as int);
                        }
                        return fail("Failed to read slide XML");
                    },
                    Some(xml) => {
                        let t = chars_of(pptx_text_of_xml(xml.as_str()).as_str());
                        if t.len() > 0 {
                            append_piece_chars(&mut acc, &t, &sep);
                        }
                    },
                }
            }
            i = i + 1;
        }
        Ok(string_of(&acc))
    }
}

} // verus!
