//! Text extraction from the indexed file formats. A parser is chosen by the file's
//! extension and turns the file's bytes into its plain text.

pub mod csv;
pub mod docx;
pub mod excel;
pub mod md;
pub mod odp;
pub mod ods;
pub mod odt;
pub mod pdf;
pub mod pptx;
pub mod rtf;
pub mod txt;

use vstd::prelude::*;
use crate::paths::has_extension;

verus! {

/// Why a file's text could not be extracted.
#[derive(Debug)]
pub struct ParseError {
    pub message: String,
}

impl ParseError {
    /// The error's message.
    pub fn message(&self) -> (r: String)
        ensures
            r@ == self.message@,
    {
        self.message.clone()
    }
}

/// The outcome of a parse as text or error message.
pub open spec fn parse_view(r: Result<String, ParseError>) -> Result<Seq<char>, Seq<char>> {
    match r {
        Ok(t) => Ok(t@),
        Err(e) => Err(e.message@),
    }
}

pub fn fail(message: &str) -> (r: Result<String, ParseError>)
    ensures
        parse_view(r) == Err::<Seq<char>, Seq<char>>(message@),
{
    Err(ParseError { message: message.to_string() })
}

/// Text extraction for one file format.
pub trait FileParser {
    /// Whether the file at `path` is of this parser's format, judged by its extension.
    fn can_parse(&self, path: &str) -> bool;

    /// The plain text of the file at `path` whose content is `data`.
    fn parse(&self, path: &str, data: &[u8]) -> Result<String, ParseError>;
}

/// The formats that text can be extracted from.
#[derive(PartialEq, Eq, Structural, Clone, Copy, Debug)]
pub enum ParserKind {
    Docx,
    Pptx,
    Excel,
    Pdf,
    Csv,
    Txt,
    Md,
    Rtf,
    Odt,
    Ods,
    Odp,
}

/// Whether a parser of this kind accepts the path.
pub open spec fn kind_can_parse(k: ParserKind, path: Seq<char>) -> bool {
    match k {
        ParserKind::Docx => has_extension(path, "docx"@),
        ParserKind::Pptx => has_extension(path, "pptx"@),
        ParserKind::Excel => has_extension(path, "xlsx"@) || has_extension(path, "xls"@),
        ParserKind::Pdf => has_extension(path, "pdf"@),
        ParserKind::Csv => has_extension(path, "csv"@),
        ParserKind::Txt => has_extension(path, "txt"@),
        ParserKind::Md => has_extension(path, "md"@) || has_extension(path, "markdown"@),
        ParserKind::Rtf => has_extension(path, "rtf"@),
        ParserKind::Odt => has_extension(path, "odt"@),
        ParserKind::Ods => has_extension(path, "ods"@),
        ParserKind::Odp => has_extension(path, "odp"@),
    }
}

/// What a parser of this kind extracts from the file.
pub open spec fn kind_parse(k: ParserKind, path: Seq<char>, data: Seq<u8>) -> Result<
    Seq<char>,
    Seq<char>,
> {
    match k {
        ParserKind::Docx => docx::docx_parse(data),
        ParserKind::Pptx => pptx::pptx_parse(data),
        ParserKind::Excel => excel::excel_parse(path, data),
        ParserKind::Pdf => pdf::pdf_parse(data),
        ParserKind::Csv => csv::csv_parse(data),
        ParserKind::Txt => txt::txt_parse(data),
        ParserKind::Md => md::md_parse(data),
        ParserKind::Rtf => rtf::rtf_parse(data),
        ParserKind::Odt => odt::odt_parse(data),
        ParserKind::Ods => ods::ods_parse(data),
        ParserKind::Odp => odp::odp_parse(data),
    }
}

impl ParserKind {
    pub fn can_parse(&self, path: &str) -> (r: bool)
        ensures
            r == kind_can_parse(*self, path@),
    {
        match self {
            ParserKind::Docx => docx::DocxParser.can_parse(path),
            ParserKind::Pptx => pptx::PptxParser.can_parse(path),
            ParserKind::Excel => excel::ExcelParser.can_parse(path),
            ParserKind::Pdf => pdf::PdfParser.can_parse(path),
            ParserKind::Csv => csv::CsvParser.can_parse(path),
            ParserKind::Txt => txt::TxtParser.can_parse(path),
            ParserKind::Md => md::MdParser.can_parse(path),
            ParserKind::Rtf => rtf::RtfParser.can_parse(path),
            ParserKind::Odt => odt::OdtParser.can_parse(path),
            ParserKind::Ods => ods::OdsParser.can_parse(path),
            ParserKind::Odp => odp::OdpParser.can_parse(path),
        }
    }

    pub fn parse(&self, path: &str, data: &[u8]) -> (r: Result<String, ParseError>)
        ensures
            parse_view(r) == kind_parse(*self, path@, data@),
    {
        match self {
            ParserKind::Docx => docx::DocxParser.parse(path, data),
            ParserKind::Pptx => pptx::PptxParser.parse(path, data),
            ParserKind::Excel => excel::ExcelParser.parse(path, data),
            ParserKind::Pdf => pdf::PdfParser.parse(path, data),
            ParserKind::Csv => csv::CsvParser.parse(path, data),
            ParserKind::Txt => txt::TxtParser.parse(path, data),
            ParserKind::Md => md::MdParser.parse(path, data),
            ParserKind::Rtf => rtf::RtfParser.parse(path, data),
            ParserKind::Odt => odt::OdtParser.parse(path, data),
            ParserKind::Ods => ods::OdsParser.parse(path, data),
            ParserKind::Odp => odp::OdpParser.parse(path, data),
        }
    }
}

/// The parsers in the order they are tried.
pub open spec fn standard_parsers() -> Seq<ParserKind> {
    seq![
        ParserKind::Docx,
        ParserKind::Pptx,
        ParserKind::Excel,
        ParserKind::Pdf,
        ParserKind::Csv,
        ParserKind::Txt,
        ParserKind::Md,
        ParserKind::Rtf,
        ParserKind::Odt,
        ParserKind::Ods,
        ParserKind::Odp,
    ]
}

/// The text that `{:?}` writes for the `std::path::Path` with these characters: the path in
/// double quotes, with backslashes, quotes and characters that are not printable escaped.
pub uninterp spec fn spec_path_debug(path: Seq<char>) -> Seq<char>;

/// Formats `std::path::Path::new(path)` with `{:?}`.
/// Claimed: the text is a function of the path's characters.
#[verifier::external_body]
fn path_debug(path: &str) -> (r: String)
    ensures
        r@ == spec_path_debug(path@),
{
    format!("{:?}", std::path::Path::new(path))
}

/// The message given when no parser accepts a path.
pub open spec fn no_parser_message(path: Seq<char>) -> Seq<char> {
    "No parser found for file: "@ + spec_path_debug(path)
}

/// The outcome of trying `parsers` from position `i` on: the first that accepts the path
/// extracts the text.
pub open spec fn first_parse(parsers: Seq<ParserKind>, i: int, path: Seq<char>, data: Seq<u8>) -> Result<
    Seq<char>,
    Seq<char>,
>
    decreases parsers.len() - i,
{
    if i < 0 || i >= parsers.len() {
        Err(no_parser_message(path))
    } else if kind_can_parse(parsers[i], path) {
        kind_parse(parsers[i], path, data)
    } else {
        first_parse(parsers, i + 1, path, data)
    }
}

/// Chooses the parser for a file by its extension.
pub struct ParserManager {
    pub parsers: Vec<ParserKind>,
}

impl ParserManager {
    /// A manager with every parser.
    pub fn new() -> (r: Self)
        ensures
            r.parsers@ == standard_parsers(),
    {
        let parsers = vec![
            ParserKind::Docx,
            ParserKind::Pptx,
            ParserKind::Excel,
            ParserKind::Pdf,
            ParserKind::Csv,
            ParserKind::Txt,
            ParserKind::Md,
            ParserKind::Rtf,
            ParserKind::Odt,
            ParserKind::Ods,
            ParserKind::Odp,
        ];
        assert(parsers@ == standard_parsers());
        ParserManager { parsers }
    }

    /// The text of a file, extracted by the first parser that accepts its path; an error when
    /// none does.
    pub fn parse(&self, path: &str, data: &[u8]) -> (r: Result<String, ParseError>)
        ensures
            parse_view(r) == first_parse(self.parsers@, 0, path@, data@),
    {
        let mut i: usize = 0;
        while i < self.parsers.len()
            invariant
                i <= self.parsers.len(),
                first_parse(self.parsers@, 0, path@, data@) == first_parse(
                    self.parsers@,
                    i as int,
                    path@,
                    data@,
                ),
            decreases self.parsers.len() - i,
        {
            let k = self.parsers[i];
            if k.can_parse(path) {
                return k.parse(path, data);
            }
            i = i + 1;
        }
        let mut m = "No parser found for file: ".to_string();
        m.append(path_debug(path).as_str());
        Err(ParseError { message: m })
    }
}

impl Default for ParserManager {
    fn default() -> (r: Self)
        ensures
            r.parsers@ == standard_parsers(),
    {
        Self::new()
    }
}


/// Two extensions that are equal to the same one, ASCII case aside, are equal to each other
/// that way.
proof fn lemma_same_extension(e: Seq<char>, x: Seq<char>, y: Seq<char>)
    requires
        crate::paths::eq_ignore_ascii_case(e, x),
        crate::paths::eq_ignore_ascii_case(e, y),
    ensures
        x.len() == y.len(),
        x.len() > 0 ==> crate::paths::ascii_lower(x[0]) == crate::paths::ascii_lower(y[0]),
        x.len() > 1 ==> crate::paths::ascii_lower(x[1]) == crate::paths::ascii_lower(y[1]),
        x.len() > 2 ==> crate::paths::ascii_lower(x[2]) == crate::paths::ascii_lower(y[2]),
{
    if x.len() > 0 {
        assert(crate::paths::ascii_lower(e[0]) == crate::paths::ascii_lower(x[0]));
        assert(crate::paths::ascii_lower(e[0]) == crate::paths::ascii_lower(y[0]));
    }
    if x.len() > 1 {
        assert(crate::paths::ascii_lower(e[1]) == crate::paths::ascii_lower(x[1]));
        assert(crate::paths::ascii_lower(e[1]) == crate::paths::ascii_lower(y[1]));
    }
    if x.len() > 2 {
        assert(crate::paths::ascii_lower(e[2]) == crate::paths::ascii_lower(x[2]));
        assert(crate::paths::ascii_lower(e[2]) == crate::paths::ascii_lower(y[2]));
    }
}

/// The extensions that the parsers accept.
pub open spec fn accepted_extensions(k: ParserKind) -> Seq<Seq<char>> {
    match k {
        ParserKind::Docx => seq!["docx"@],
        ParserKind::Pptx => seq!["pptx"@],
        ParserKind::Excel => seq!["xlsx"@, "xls"@],
        ParserKind::Pdf => seq!["pdf"@],
        ParserKind::Csv => seq!["csv"@],
        ParserKind::Txt => seq!["txt"@],
        ParserKind::Md => seq!["md"@, "markdown"@],
        ParserKind::Rtf => seq!["rtf"@],
        ParserKind::Odt => seq!["odt"@],
        ParserKind::Ods => seq!["ods"@],
        ParserKind::Odp => seq!["odp"@],
    }
}

proof fn lemma_can_parse_extension(k: ParserKind, path: Seq<char>)
    requires
        kind_can_parse(k, path),
    ensures
        exists|i: int|
            0 <= i < accepted_extensions(k).len() && has_extension(path, #[trigger] accepted_extensions(k)[i]),
{
    match k {
        ParserKind::Excel => {
            if has_extension(path, "xlsx"@) {
                assert(has_extension(path, accepted_extensions(k)[0]));
            } else {
                assert(has_extension(path, accepted_extensions(k)[1]));
            }
        },
        ParserKind::Md => {
            if has_extension(path, "md"@) {
                assert(has_extension(path, accepted_extensions(k)[0]));
            } else {
                assert(has_extension(path, accepted_extensions(k)[1]));
            }
        },
        _ => {
            assert(has_extension(path, accepted_extensions(k)[0]));
        },
    }
}

/// Each format has extensions of its own: no path is accepted by two parsers.
pub proof fn lemma_parsers_exclusive(a: ParserKind, b: ParserKind, path: Seq<char>)
    ensures
        kind_can_parse(a, path) && kind_can_parse(b, path) ==> a == b,
{
    if kind_can_parse(a, path) && kind_can_parse(b, path) && a != b {
        reveal_strlit("docx");
        reveal_strlit("pptx");
        reveal_strlit("xlsx");
        reveal_strlit("xls");
        reveal_strlit("pdf");
        reveal_strlit("csv");
        reveal_strlit("txt");
        reveal_strlit("md");
        reveal_strlit("markdown");
        reveal_strlit("rtf");
        reveal_strlit("odt");
        reveal_strlit("ods");
        reveal_strlit("odp");
        lemma_can_parse_extension(a, path);
        lemma_can_parse_extension(b, path);
        let i = choose|i: int|
            0 <= i < accepted_extensions(a).len() && has_extension(path, #[trigger] accepted_extensions(a)[i]);
        let j = choose|j: int|
            0 <= j < accepted_extensions(b).len() && has_extension(path, #[trigger] accepted_extensions(b)[j]);
        let e = crate::paths::extension(path)->0;
        lemma_same_extension(e, accepted_extensions(a)[i], accepted_extensions(b)[j]);
    }
}

/// A file goes to the parser of its format: trying the parsers in order gives what the
/// parser that accepts its path extracts.
pub proof fn lemma_parser_for_format(k: ParserKind, path: Seq<char>, data: Seq<u8>)
    requires
        kind_can_parse(k, path),
    ensures
        first_parse(standard_parsers(), 0, path, data) == kind_parse(k, path, data),
{
    let ps = standard_parsers();
    assert forall|i: int| 0 <= i < ps.len() && kind_can_parse(#[trigger] ps[i], path) implies ps[i] == k by {
        lemma_parsers_exclusive(ps[i], k, path);
    }
    reveal_with_fuel(first_parse, 12);
}

} // verus!
