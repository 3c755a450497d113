//! Readers of document formats from outside crates: Markdown rendering, RTF, PDF and Excel
//! workbooks. Each is called on bytes or text held in memory.

use vstd::prelude::*;
use crate::rtf_scan::rtf_reader_hazard;

verus! {

/// The HTML that `pulldown_cmark` renders from Markdown, with strikethrough and tables on.
pub uninterp spec fn spec_markdown_html(text: Seq<char>) -> Seq<char>;

/// `pulldown_cmark::Parser::new_ext` with `ENABLE_STRIKETHROUGH` and `ENABLE_TABLES`, then
/// `pulldown_cmark::html::push_html` into an empty string.
/// Claimed: the result is a function of `text` alone.
#[verifier::external_body]
pub(crate) fn markdown_to_html(text: &str) -> (r: String)
    ensures
        r@ == spec_markdown_html(text@),
{
    let mut options = pulldown_cmark::Options::empty();
    options.insert(pulldown_cmark::Options::ENABLE_STRIKETHROUGH);
    options.insert(pulldown_cmark::Options::ENABLE_TABLES);
    let mut html = String::new();
    pulldown_cmark::html::push_html(&mut html, pulldown_cmark::Parser::new_ext(text, options));
    html
}

/// The plain text of an RTF document, or the message of the error that parsing it gave.
pub uninterp spec fn spec_rtf_text(text: Seq<char>) -> Result<Seq<char>, Seq<char>>;

/// `rtf_parser::document::RtfDocument::try_from` then `RtfDocument::get_text`; an error is
/// returned as its message. `requires` leaves out every text on which the reader can panic;
/// `rtf_reader_hazard` lists those places in its source.
/// Claimed: the result is a function of `text` alone.
#[verifier::external_body]
pub(crate) fn rtf_text(text: &str) -> (r: Result<String, String>)
    requires
        !rtf_reader_hazard(text@),
    ensures
        match r {
            Ok(t) => spec_rtf_text(text@) == Ok::<Seq<char>, Seq<char>>(t@),
            Err(m) => spec_rtf_text(text@) == Err::<Seq<char>, Seq<char>>(m@),
        },
{
    rtf_parser::document::RtfDocument::try_from(text).map(|d| d.get_text()).map_err(|e| e.to_string())
}

pub open spec fn option_string_view(o: Option<String>) -> Option<Seq<char>> {
    match o {
        Some(s) => Some(s@),
        None => None,
    }
}

pub open spec fn option_strings_view(v: Seq<Option<String>>) -> Seq<Option<Seq<char>>> {
    v.map_values(|o: Option<String>| option_string_view(o))
}

/// Whether `lopdf_parang::Document::load_mem` loads the bytes as a PDF document.
pub uninterp spec fn spec_pdf_loads(data: Seq<u8>) -> bool;

/// The page numbers, the keys of what `Document::get_pages` gives for the document in `data`.
pub uninterp spec fn spec_pdf_pages(data: Seq<u8>) -> Seq<u32>;

/// What `Document::extract_text` gives for one page of the document in `data`, or `None` when
/// it fails.
pub uninterp spec fn spec_pdf_page_text(data: Seq<u8>, page: u32) -> Option<Seq<char>>;

/// For a PDF document, the text of each page in page order (`None` for a page whose text
/// could not be extracted); `None` when the bytes do not load as a PDF document.
pub open spec fn spec_pdf_page_texts(data: Seq<u8>) -> Option<Seq<Option<Seq<char>>>> {
    if spec_pdf_loads(data) {
        Some(spec_pdf_pages(data).map_values(|p: u32| spec_pdf_page_text(data, p)))
    } else {
        None
    }
}

/// `lopdf_parang::Document`, a loaded PDF document.
#[verifier::external_type_specification]
#[verifier::external_body]
pub struct ExPdfDocument(lopdf_parang::Document);

/// A PDF document loaded from bytes in memory, with those bytes.
pub struct PdfDoc {
    doc: lopdf_parang::Document,
    data: Ghost<Seq<u8>>,
}

impl PdfDoc {
    /// The bytes the document was loaded from.
    pub closed spec fn data(&self) -> Seq<u8> {
        self.data@
    }
}

/// `lopdf_parang::Document::load_mem`.
/// Claimed: whether it succeeds is a function of `data`.
/// Left open: whether `lopdf_parang` panics on some malformed document. Its source does not
/// settle it either way, so no input is excluded and no clause speaks of it.
#[verifier::external_body]
fn pdf_load(data: &[u8]) -> (r: Option<PdfDoc>)
    ensures
        match r {
            Some(d) => spec_pdf_loads(data@) && d.data() == data@,
            None => !spec_pdf_loads(data@),
        },
{
    match lopdf_parang::Document::load_mem(data) {
        Ok(doc) => Some(PdfDoc { doc, data: Ghost(data@) }),
        Err(_) => None,
    }
}

/// The keys of `lopdf_parang::Document::get_pages`, a `BTreeMap`, in the map's order.
/// Claimed: they are a function of the document's bytes, in ascending order. (The crate is
/// built without its `rayon` feature, so `load_mem` reads the object streams one after the
/// other, and which copy of an object that two streams hold is kept does not vary.)
/// Left open: whether `lopdf_parang` panics on some malformed document. Its source does not
/// settle it either way, so no input is excluded and no clause speaks of it.
#[verifier::external_body]
fn pdf_page_numbers(d: &PdfDoc) -> (r: Vec<u32>)
    ensures
        r@ == spec_pdf_pages(d.data()),
        forall|i: int, j: int| 0 <= i < j < r.len() ==> r[i] < r[j],
{
    d.doc.get_pages().into_keys().collect()
}

/// `lopdf_parang::Document::extract_text` on one page; `None` when it fails.
/// Claimed: the result is a function of the document's bytes and `page` (the objects are
/// read without `rayon`, as `pdf_page_numbers` says).
/// Left open: whether `lopdf_parang` panics on some malformed document. Its source does not
/// settle it either way, so no input is excluded and no clause speaks of it.
#[verifier::external_body]
fn pdf_page_text(d: &PdfDoc, page: u32) -> (r: Option<String>)
    ensures
        match r {
            Some(t) => spec_pdf_page_text(d.data(), page) == Some(t@),
            None => spec_pdf_page_text(d.data(), page) is None,
        },
{
    d.doc.extract_text(&[page]).ok()
}

/// Loads a PDF document and extracts the text of each of its pages in page order.
pub fn pdf_page_texts(data: &[u8]) -> (r: Option<Vec<Option<String>>>)
    ensures
        match r {
            Some(v) => spec_pdf_page_texts(data@) == Some(option_strings_view(v@)),
            None => spec_pdf_page_texts(data@) is None,
        },
{
    let doc = match pdf_load(data) {
        None => {
            return None;
        },
        Some(d) => d,
    };
    let pages = pdf_page_numbers(&doc);
    let ghost want = spec_pdf_pages(data@).map_values(|p: u32| spec_pdf_page_text(data@, p));
    let mut out: Vec<Option<String>> = Vec::new();
    let mut i: usize = 0;
    while i < pages.len()
        invariant
            i <= pages.len(),
            doc.data() == data@,
            pages@ == spec_pdf_pages(data@),
            want == spec_pdf_pages(data@).map_values(|p: u32| spec_pdf_page_text(data@, p)),
            option_strings_view(out@) == want.take(i as int),
        decreases pages.len() - i,
    {
        let t = pdf_page_text(&doc, pages[i]);
        proof {
            let tv = option_string_view(t);
            assert(option_strings_view(out@.push(t)) =~= option_strings_view(out@).push(tv));
            assert(want.take(i as int + 1) =~= want.take(i as int).push(tv));
        }
        out.push(t);
        i = i + 1;
    }
    assert(want.take(pages.len() as int) =~= want);
    Some(out)
}

pub open spec fn rows_view(rows: Seq<Vec<String>>) -> Seq<Seq<Seq<char>>> {
    rows.map_values(|r: Vec<String>| r@.map_values(|c: String| c@))
}

pub open spec fn sheets_view(v: Seq<Option<Vec<Vec<String>>>>) -> Seq<
    Option<Seq<Seq<Seq<char>>>>,
> {
    v.map_values(
        |o: Option<Vec<Vec<String>>>|
            match o {
                Some(rows) => Some(rows_view(rows@)),
                None => None,
            },
    )
}

pub open spec fn option_rows_view(o: Option<Vec<Vec<String>>>) -> Option<Seq<Seq<Seq<char>>>> {
    match o {
        Some(rows) => Some(rows_view(rows@)),
        None => None,
    }
}

pub open spec fn strings_view(v: Seq<String>) -> Seq<Seq<char>> {
    v.map_values(|s: String| s@)
}

/// Whether `calamine::Reader::new` opens the bytes as an Excel 2007+ workbook.
pub uninterp spec fn spec_xlsx_opens(data: Seq<u8>) -> bool;

/// What `calamine::Reader::sheet_names` gives for the Excel 2007+ workbook in `data`.
pub uninterp spec fn spec_xlsx_sheet_names(data: Seq<u8>) -> Seq<Seq<char>>;

/// The rows of cell texts (each cell by its `Display`) of the range that
/// `calamine::Reader::worksheet_range` reads for sheet `name` of the Excel 2007+ workbook in
/// `data`, or `None` when it fails.
pub uninterp spec fn spec_xlsx_sheet_rows(data: Seq<u8>, name: Seq<char>) -> Option<
    Seq<Seq<Seq<char>>>,
>;

/// Whether `calamine::Reader::new` opens the bytes as an Excel 97-2003 workbook.
pub uninterp spec fn spec_xls_opens(data: Seq<u8>) -> bool;

/// What `calamine::Reader::sheet_names` gives for the Excel 97-2003 workbook in `data`.
pub uninterp spec fn spec_xls_sheet_names(data: Seq<u8>) -> Seq<Seq<char>>;

/// The rows of cell texts of sheet `name` of the Excel 97-2003 workbook in `data`, as
/// [`spec_xlsx_sheet_rows`] says.
pub uninterp spec fn spec_xls_sheet_rows(data: Seq<u8>, name: Seq<char>) -> Option<
    Seq<Seq<Seq<char>>>,
>;

/// For an Excel 2007+ workbook, each sheet in sheet order as its rows of cell texts
/// (`None` for a sheet whose range could not be read); `None` when the workbook does not open.
pub open spec fn spec_xlsx_sheets(data: Seq<u8>) -> Option<Seq<Option<Seq<Seq<Seq<char>>>>>> {
    if spec_xlsx_opens(data) {
        Some(spec_xlsx_sheet_names(data).map_values(|n: Seq<char>| spec_xlsx_sheet_rows(data, n)))
    } else {
        None
    }
}

/// The same for an Excel 97-2003 workbook.
pub open spec fn spec_xls_sheets(data: Seq<u8>) -> Option<Seq<Option<Seq<Seq<Seq<char>>>>>> {
    if spec_xls_opens(data) {
        Some(spec_xls_sheet_names(data).map_values(|n: Seq<char>| spec_xls_sheet_rows(data, n)))
    } else {
        None
    }
}

/// `calamine::Xlsx`, an Excel 2007+ workbook.
#[verifier::external_type_specification]
#[verifier::external_body]
#[verifier::reject_recursive_types(RS)]
pub struct ExXlsx<RS>(calamine::Xlsx<RS>);

/// `calamine::Xls`, an Excel 97-2003 workbook.
#[verifier::external_type_specification]
#[verifier::external_body]
#[verifier::reject_recursive_types(RS)]
pub struct ExXls<RS>(calamine::Xls<RS>);

/// An Excel 2007+ workbook opened on bytes in memory, with those bytes.
pub struct XlsxBook<'a> {
    wb: calamine::Xlsx<std::io::Cursor<&'a [u8]>>,
    data: Ghost<Seq<u8>>,
}

/// An Excel 97-2003 workbook opened on bytes in memory, with those bytes.
pub struct XlsBook<'a> {
    wb: calamine::Xls<std::io::Cursor<&'a [u8]>>,
    data: Ghost<Seq<u8>>,
}

impl<'a> XlsxBook<'a> {
    /// The bytes the workbook was opened on.
    pub closed spec fn data(&self) -> Seq<u8> {
        self.data@
    }
}

impl<'a> XlsBook<'a> {
    /// The bytes the workbook was opened on.
    pub closed spec fn data(&self) -> Seq<u8> {
        self.data@
    }
}

/// `calamine::Reader::new` for `calamine::Xlsx` on a `std::io::Cursor` over `data`.
/// Claimed: whether it succeeds is a function of `data`.
/// Left open: whether `calamine` panics on some malformed document. Its source does not
/// settle it either way, so no input is excluded and no clause speaks of it.
#[verifier::external_body]
fn xlsx_open<'a>(data: &'a [u8]) -> (r: Option<XlsxBook<'a>>)
    ensures
        match r {
            Some(b) => spec_xlsx_opens(data@) && b.data() == data@,
            None => !spec_xlsx_opens(data@),
        },
{
    match calamine::Reader::new(std::io::Cursor::new(data)) {
        Ok(wb) => Some(XlsxBook { wb, data: Ghost(data@) }),
        Err(_) => None,
    }
}

/// `calamine::Reader::sheet_names` of an Excel 2007+ workbook.
/// Claimed: the names are a function of the workbook's bytes.
/// Left open: whether `calamine` panics on some malformed document. Its source does not
/// settle it either way, so no input is excluded and no clause speaks of it.
#[verifier::external_body]
fn xlsx_sheet_names(b: &XlsxBook) -> (r: Vec<String>)
    ensures
        strings_view(r@) == spec_xlsx_sheet_names(b.data()),
{
    calamine::Reader::sheet_names(&b.wb)
}

/// `calamine::Reader::worksheet_range` of an Excel 2007+ workbook, its rows handed out as
/// the `Display` texts of their cells; `None` when it fails.
/// Claimed: the result is a function of the workbook's bytes and `name`.
/// Left open: whether `calamine` panics on some malformed document. Its source does not
/// settle it either way, so no input is excluded and no clause speaks of it.
#[verifier::external_body]
fn xlsx_sheet_rows(b: &mut XlsxBook, name: &str) -> (r: Option<Vec<Vec<String>>>)
    ensures
        final(b).data() == old(b).data(),
        option_rows_view(r) == spec_xlsx_sheet_rows(old(b).data(), name@),
{
    let range = calamine::Reader::worksheet_range(&mut b.wb, name).ok()?;
    Some(range.rows().map(|row| row.iter().map(|c| c.to_string()).collect()).collect())
}

/// `calamine::Reader::new` for `calamine::Xls` on a `std::io::Cursor` over `data`.
/// Claimed: whether it succeeds is a function of `data`.
/// Left open: whether `calamine` panics on some malformed document. Its source does not
/// settle it either way, so no input is excluded and no clause speaks of it.
#[verifier::external_body]
fn xls_open<'a>(data: &'a [u8]) -> (r: Option<XlsBook<'a>>)
    ensures
        match r {
            Some(b) => spec_xls_opens(data@) && b.data() == data@,
            None => !spec_xls_opens(data@),
        },
{
    match calamine::Reader::new(std::io::Cursor::new(data)) {
        Ok(wb) => Some(XlsBook { wb, data: Ghost(data@) }),
        Err(_) => None,
    }
}

/// `calamine::Reader::sheet_names` of an Excel 97-2003 workbook.
/// Claimed: the names are a function of the workbook's bytes.
/// Left open: whether `calamine` panics on some malformed document. Its source does not
/// settle it either way, so no input is excluded and no clause speaks of it.
#[verifier::external_body]
fn xls_sheet_names(b: &XlsBook) -> (r: Vec<String>)
    ensures
        strings_view(r@) == spec_xls_sheet_names(b.data()),
{
    calamine::Reader::sheet_names(&b.wb)
}

/// `calamine::Reader::worksheet_range` of an Excel 97-2003 workbook, its rows handed out as
/// the `Display` texts of their cells; `None` when it fails.
/// Claimed: the result is a function of the workbook's bytes and `name`.
/// Left open: whether `calamine` panics on some malformed document. Its source does not
/// settle it either way, so no input is excluded and no clause speaks of it.
#[verifier::external_body]
fn xls_sheet_rows(b: &mut XlsBook, name: &str) -> (r: Option<Vec<Vec<String>>>)
    ensures
        final(b).data() == old(b).data(),
        option_rows_view(r) == spec_xls_sheet_rows(old(b).data(), name@),
{
    let range = calamine::Reader::worksheet_range(&mut b.wb, name).ok()?;
    Some(range.rows().map(|row| row.iter().map(|c| c.to_string()).collect()).collect())
}

/// Opens an Excel 2007+ workbook and reads each of its sheets in sheet order.
pub fn xlsx_sheets(data: &[u8]) -> (r: Option<Vec<Option<Vec<Vec<String>>>>>)
    ensures
        match r {
            Some(v) => spec_xlsx_sheets(data@) == Some(sheets_view(v@)),
            None => spec_xlsx_sheets(data@) is None,
        },
{
    let mut book = match xlsx_open(data) {
        None => {
            return None;
        },
        Some(b) => b,
    };
    let names = xlsx_sheet_names(&book);
    let ghost want = spec_xlsx_sheet_names(data@).map_values(
        |n: Seq<char>| spec_xlsx_sheet_rows(data@, n),
    );
    let mut out: Vec<Option<Vec<Vec<String>>>> = Vec::new();
    let mut i: usize = 0;
    while i < names.len()
        invariant
            i <= names.len(),
            book.data() == data@,
            strings_view(names@) == spec_xlsx_sheet_names(data@),
            want == spec_xlsx_sheet_names(data@).map_values(
                |n: Seq<char>| spec_xlsx_sheet_rows(data@, n),
            ),
            sheets_view(out@) == want.take(i as int),
        decreases names.len() - i,
    {
        let rows = xlsx_sheet_rows(&mut book, names[i].as_str());
        proof {
            assert(strings_view(names@)[i as int] == names@[i as int]@);
            assert(sheets_view(out@.push(rows)) =~= sheets_view(out@).push(option_rows_view(rows)));
            assert(want.take(i as int + 1) =~= want.take(i as int).push(option_rows_view(rows)));
        }
        out.push(rows);
        i = i + 1;
    }
    assert(want.take(names.len() as int) =~= want);
    Some(out)
}

/// Opens an Excel 97-2003 workbook and reads each of its sheets in sheet order.
pub fn xls_sheets(data: &[u8]) -> (r: Option<Vec<Option<Vec<Vec<String>>>>>)
    ensures
        match r {
            Some(v) => spec_xls_sheets(data@) == Some(sheets_view(v@)),
            None => spec_xls_sheets(data@) is None,
        },
{
    let mut book = match xls_open(data) {
        None => {
            return None;
        },
        Some(b) => b,
    };
    let names = xls_sheet_names(&book);
    let ghost want = spec_xls_sheet_names(data@).map_values(
        |n: Seq<char>| spec_xls_sheet_rows(data@, n),
    );
    let mut out: Vec<Option<Vec<Vec<String>>>> = Vec::new();
    let mut i: usize = 0;
    while i < names.len()
        invariant
            i <= names.len(),
            book.data() == data@,
            strings_view(names@) == spec_xls_sheet_names(data@),
            want == spec_xls_sheet_names(data@).map_values(
                |n: Seq<char>| spec_xls_sheet_rows(data@, n),
            ),
            sheets_view(out@) == want.take(i as int),
        decreases names.len() - i,
    {
        let rows = xls_sheet_rows(&mut book, names[i].as_str());
        proof {
            assert(strings_view(names@)[i as int] == names@[i as int]@);
            assert(sheets_view(out@.push(rows)) =~= sheets_view(out@).push(option_rows_view(rows)));
            assert(want.take(i as int + 1) =~= want.take(i as int).push(option_rows_view(rows)));
        }
        out.push(rows);
        i = i + 1;
    }
    assert(want.take(names.len() as int) =~= want);
    Some(out)
}

} // verus!
