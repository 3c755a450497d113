//! Extraction of plain text from the markup inside documents: Word and PowerPoint XML,
//! HTML rendered from Markdown, and OpenDocument XML events.

use vstd::prelude::*;
use crate::text::{
    chars_of, contains, contains_chars, extend_chars, join, join_chars, normalize_white_space, occurs_at,
    normalize_white_space_chars, remove_markup, remove_markup_chars, replace_each, string_of, trim,
    trim_chars, views, Markup, MarkupSpec, Replacements,
};
use crate::xml::{XmlEvent, XmlEventView, events_view};

verus! {

/// The entity replacements applied to Office XML text, in order.
pub open spec fn office_entities() -> Seq<(Seq<char>, Seq<char>)> {
    seq![
        ("&lt;"@, "<"@),
        ("&gt;"@, ">"@),
        ("&amp;"@, "&"@),
        ("&quot;"@, "\""@),
        ("&apos;"@, "'"@),
        ("&nbsp;"@, " "@),
        ("&apos;"@, "'"@),
        ("&#x27;"@, "'"@),
        ("&#39;"@, "'"@),
        ("&ndash;"@, "\u{2013}"@),
        ("&mdash;"@, "\u{2014}"@),
        ("&hellip;"@, "\u{2026}"@),
    ]
}

/// The entity replacements applied to HTML rendered from Markdown, in order.
pub open spec fn html_entities() -> Seq<(Seq<char>, Seq<char>)> {
    seq![
        ("&lt;"@, "<"@),
        ("&gt;"@, ">"@),
        ("&amp;"@, "&"@),
        ("&quot;"@, "\""@),
        ("&apos;"@, "'"@),
        ("&nbsp;"@, " "@),
        ("&#39;"@, "'"@),
        ("&#x27;"@, "'"@),
    ]
}

/// The entity replacements applied to OpenDocument text, in order.
pub open spec fn odf_entities() -> Seq<(Seq<char>, Seq<char>)> {
    seq![
        ("&lt;"@, "<"@),
        ("&gt;"@, ">"@),
        ("&amp;"@, "&"@),
        ("&quot;"@, "\""@),
        ("&apos;"@, "'"@),
        ("&nbsp;"@, " "@),
    ]
}

fn push_pair(r: &mut Replacements, a: &str, b: &str)
    requires
        old(r).wf(),
        a@.len() > 0,
    ensures
        final(r).wf(),
        final(r).view() == old(r).view().push((a@, b@)),
{
    let pa = chars_of(a);
    let pb = chars_of(b);
    r.pairs.push((pa, pb));
    assert(r.view() =~= old(r).view().push((a@, b@)));
}

fn common_entities() -> (r: Replacements)
    ensures
        r.wf(),
        r.view() == seq![
            ("&lt;"@, "<"@),
            ("&gt;"@, ">"@),
            ("&amp;"@, "&"@),
            ("&quot;"@, "\""@),
            ("&apos;"@, "'"@),
            ("&nbsp;"@, " "@),
        ],
{
    proof {
        reveal_strlit("&lt;");
        reveal_strlit("&gt;");
        reveal_strlit("&amp;");
        reveal_strlit("&quot;");
        reveal_strlit("&apos;");
        reveal_strlit("&nbsp;");
    }
    let mut r = Replacements { pairs: Vec::new() };
    assert(r.view() =~= seq![]);
    push_pair(&mut r, "&lt;", "<");
    push_pair(&mut r, "&gt;", ">");
    push_pair(&mut r, "&amp;", "&");
    push_pair(&mut r, "&quot;", "\"");
    push_pair(&mut r, "&apos;", "'");
    push_pair(&mut r, "&nbsp;", " ");
    r
}

/// The Office entity table.
pub fn office_entity_table() -> (r: Replacements)
    ensures
        r.wf(),
        r.view() == office_entities(),
{
    proof {
        reveal_strlit("&apos;");
        reveal_strlit("&#x27;");
        reveal_strlit("&#39;");
        reveal_strlit("&ndash;");
        reveal_strlit("&mdash;");
        reveal_strlit("&hellip;");
    }
    let mut r = common_entities();
    push_pair(&mut r, "&apos;", "'");
    push_pair(&mut r, "&#x27;", "'");
    push_pair(&mut r, "&#39;", "'");
    push_pair(&mut r, "&ndash;", "\u{2013}");
    push_pair(&mut r, "&mdash;", "\u{2014}");
    push_pair(&mut r, "&hellip;", "\u{2026}");
    assert(r.view() =~= office_entities());
    r
}

/// The HTML entity table.
pub fn html_entity_table() -> (r: Replacements)
    ensures
        r.wf(),
        r.view() == html_entities(),
{
    proof {
        reveal_strlit("&#39;");
        reveal_strlit("&#x27;");
    }
    let mut r = common_entities();
    push_pair(&mut r, "&#39;", "'");
    push_pair(&mut r, "&#x27;", "'");
    assert(r.view() =~= html_entities());
    r
}

/// The OpenDocument entity table.
pub fn odf_entity_table() -> (r: Replacements)
    ensures
        r.wf(),
        r.view() == odf_entities(),
{
    let r = common_entities();
    assert(r.view() =~= odf_entities());
    r
}

// ---------------------------------------------------------------------------
// Word.

/// Field instructions (`<w:instrText ...>...</w:instrText>`).
pub open spec fn instr_text_markup() -> MarkupSpec {
    MarkupSpec::Element { open: "<w:instrText"@, close: "</w:instrText>"@ }
}

/// Field characters (`<w:fldChar .../>`).
pub open spec fn fld_char_markup() -> MarkupSpec {
    MarkupSpec::OpenTag { open: "<w:fldChar"@ }
}

/// Deleted revision text (`<w:delText ...>...</w:delText>`).
pub open spec fn del_text_markup() -> MarkupSpec {
    MarkupSpec::Element { open: "<w:delText"@, close: "</w:delText>"@ }
}

/// The text of a Word `document.xml`: field instructions, field characters and deleted
/// revisions go first, then every tag; entities are decoded; white space runs become single
/// spaces and the ends are trimmed.
pub open spec fn docx_text(xml: Seq<char>) -> Seq<char> {
    let a = remove_markup(xml, instr_text_markup());
    let b = remove_markup(a, fld_char_markup());
    let c = remove_markup(b, del_text_markup());
    let d = remove_markup(c, MarkupSpec::AnyTag);
    normalize_white_space(replace_each(d, office_entities()))
}

/// Extracts the body text of a Word `document.xml`.
pub fn docx_text_of_xml(xml: &str) -> (r: String)
    ensures
        r@ == docx_text(xml@),
{
    let s = chars_of(xml);
    let instr = Markup::Element { open: chars_of("<w:instrText"), close: chars_of("</w:instrText>") };
    let fld = Markup::OpenTag { open: chars_of("<w:fldChar") };
    let del = Markup::Element { open: chars_of("<w:delText"), close: chars_of("</w:delText>") };
    let a = remove_markup_chars(&s, &instr);
    let b = remove_markup_chars(&a, &fld);
    let c = remove_markup_chars(&b, &del);
    let d = remove_markup_chars(&c, &Markup::AnyTag);
    let e = office_entity_table().apply(&d);
    string_of(&normalize_white_space_chars(&e))
}

// ---------------------------------------------------------------------------
// PowerPoint.

/// The text of a PowerPoint slide XML: every tag goes, entities are decoded, braced GUIDs
/// go, white space runs become single spaces and the ends are trimmed.
pub open spec fn pptx_text(xml: Seq<char>) -> Seq<char> {
    let a = remove_markup(xml, MarkupSpec::AnyTag);
    let b = replace_each(a, office_entities());
    normalize_white_space(remove_markup(b, MarkupSpec::Guid))
}

/// Extracts the text of a PowerPoint slide XML.
pub fn pptx_text_of_xml(xml: &str) -> (r: String)
    ensures
        r@ == pptx_text(xml@),
{
    let s = chars_of(xml);
    let a = remove_markup_chars(&s, &Markup::AnyTag);
    let b = office_entity_table().apply(&a);
    let c = remove_markup_chars(&b, &Markup::Guid);
    string_of(&normalize_white_space_chars(&c))
}

// ---------------------------------------------------------------------------
// HTML.

/// The text of HTML: every tag goes, entities are decoded, white space runs become single
/// spaces and the ends are trimmed.
pub open spec fn html_text(html: Seq<char>) -> Seq<char> {
    let a = remove_markup(html, MarkupSpec::AnyTag);
    normalize_white_space(replace_each(a, html_entities()))
}

/// Strips the tags of HTML and decodes its common entities.
pub fn strip_html_tags(html: &str) -> (r: String)
    ensures
        r@ == html_text(html@),
{
    let s = chars_of(html);
    let a = remove_markup_chars(&s, &Markup::AnyTag);
    let b = html_entity_table().apply(&a);
    string_of(&normalize_white_space_chars(&b))
}

// ---------------------------------------------------------------------------
// OpenDocument spreadsheets.

/// The state of the spreadsheet extraction after some events.
pub struct OdsState {
    pub in_cell: bool,
    pub cell: Seq<char>,
    pub row: Seq<Seq<char>>,
    pub out: Seq<char>,
    pub done: bool,
}

pub open spec fn ods_initial() -> OdsState {
    OdsState { in_cell: false, cell: seq![], row: seq![], out: seq![], done: false }
}

/// One event of a spreadsheet: a cell start begins a cell; a cell end keeps the cell's
/// trimmed text when it is not empty; a row end writes the row's cells joined by tabs and a
/// newline when it has any; text inside a cell is appended to it; reading stops at the end
/// of the document or an error.
pub open spec fn ods_step(st: OdsState, e: XmlEventView) -> OdsState {
    if st.done {
        st
    } else {
        match e {
            XmlEventView::Start(name) => if contains(name, "table:table-cell"@) {
                OdsState { in_cell: true, cell: seq![], ..st }
            } else {
                st
            },
            XmlEventView::End(name) => if contains(name, "table:table-cell"@) {
                OdsState {
                    in_cell: false,
                    row: if trim(st.cell).len() > 0 {
                        st.row.push(trim(st.cell))
                    } else {
                        st.row
                    },
                    ..st
                }
            } else if contains(name, "table:table-row"@) {
                OdsState {
                    out: if st.row.len() > 0 {
                        st.out + join(st.row, "\t"@) + "\n"@
                    } else {
                        st.out
                    },
                    row: seq![],
                    ..st
                }
            } else {
                st
            },
            XmlEventView::Text(t) => if st.in_cell {
                OdsState { cell: st.cell + t, ..st }
            } else {
                st
            },
            XmlEventView::Eof => OdsState { done: true, ..st },
            XmlEventView::Error => OdsState { done: true, ..st },
            XmlEventView::Other => st,
        }
    }
}

/// The state after the first `n` events.
pub open spec fn ods_fold(evs: Seq<XmlEventView>, n: int) -> OdsState
    decreases n,
{
    if n <= 0 || n > evs.len() {
        ods_initial()
    } else {
        ods_step(ods_fold(evs, n - 1), evs[n - 1])
    }
}

/// A step never takes back text already written: it keeps the text and may add to it.
proof fn lemma_ods_step_grows(st: OdsState, e: XmlEventView)
    ensures
        st.out.len() <= ods_step(st, e).out.len(),
        ods_step(st, e).out.subrange(0, st.out.len() as int) == st.out,
{
    let o = ods_step(st, e).out;
    assert(o.subrange(0, st.out.len() as int) =~= st.out);
}

/// The text written for a spreadsheet only grows: what is written after some events is the
/// start of what is written after more of them.
pub proof fn lemma_ods_text_only_grows(evs: Seq<XmlEventView>, n: int, m: int)
    requires
        0 <= n <= m <= evs.len(),
    ensures
        ods_fold(evs, n).out.len() <= ods_fold(evs, m).out.len(),
        ods_fold(evs, m).out.subrange(0, ods_fold(evs, n).out.len() as int) == ods_fold(evs, n).out,
    decreases m - n,
{
    if n < m {
        lemma_ods_text_only_grows(evs, n, m - 1);
        lemma_ods_step_grows(ods_fold(evs, m - 1), evs[m - 1]);
        let a = ods_fold(evs, n).out;
        let b = ods_fold(evs, m - 1).out;
        let c = ods_fold(evs, m).out;
        assert(c.subrange(0, a.len() as int) =~= b.subrange(0, a.len() as int));
    }
}

/// At the end of a row that has cells, the row's cells, joined by tabs, and a line feed are
/// written after the text so far.
pub proof fn lemma_ods_row_end_appends_row(evs: Seq<XmlEventView>, n: int, name: Seq<char>)
    requires
        0 <= n < evs.len(),
        evs[n] == XmlEventView::End(name),
        contains(name, "table:table-row"@),
        !contains(name, "table:table-cell"@),
        !ods_fold(evs, n).done,
        ods_fold(evs, n).row.len() > 0,
    ensures
        ods_fold(evs, n + 1).out == ods_fold(evs, n).out + join(ods_fold(evs, n).row, "\t"@)
            + "\n"@,
{
}

/// Inside a cell, text is added after the cell's text so far; at the cell's end, a cell
/// whose trimmed text is not blank is added after the row's cells so far.
pub proof fn lemma_ods_cells_accumulate(evs: Seq<XmlEventView>, n: int)
    requires
        0 <= n < evs.len(),
        !ods_fold(evs, n).done,
    ensures
        (evs[n] matches XmlEventView::Text(t) && ods_fold(evs, n).in_cell) ==> ods_fold(
            evs,
            n + 1,
        ).cell == ods_fold(evs, n).cell + evs[n]->Text_0,
        (evs[n] matches XmlEventView::End(name) && contains(name, "table:table-cell"@) && trim(
            ods_fold(evs, n).cell,
        ).len() > 0) ==> ods_fold(evs, n + 1).row == ods_fold(evs, n).row.push(
            trim(ods_fold(evs, n).cell),
        ),
{
}

/// Every row that has cells ends up in the text written for the whole spreadsheet, its
/// cells joined by tabs and followed by a line feed.
pub proof fn lemma_ods_keeps_every_row(evs: Seq<XmlEventView>, n: int, name: Seq<char>)
    requires
        0 <= n < evs.len(),
        evs[n] == XmlEventView::End(name),
        contains(name, "table:table-row"@),
        !contains(name, "table:table-cell"@),
        !ods_fold(evs, n).done,
        ods_fold(evs, n).row.len() > 0,
    ensures
        contains(
            ods_fold(evs, evs.len() as int).out,
            join(ods_fold(evs, n).row, "\t"@) + "\n"@,
        ),
{
    let before = ods_fold(evs, n).out;
    let line = join(ods_fold(evs, n).row, "\t"@) + "\n"@;
    lemma_ods_row_end_appends_row(evs, n, name);
    lemma_ods_text_only_grows(evs, n + 1, evs.len() as int);
    let after = ods_fold(evs, n + 1).out;
    let fin = ods_fold(evs, evs.len() as int).out;
    let k = before.len() as int;
    assert(after.subrange(k, k + line.len()) =~= line);
    assert(fin.subrange(k, k + line.len()) =~= after.subrange(k, k + line.len()));
    assert(occurs_at(fin, line, k));
}

/// The text of a spreadsheet's events: one line per non-empty row, cells separated by tabs,
/// then entities decoded, white space runs collapsed and the ends trimmed.
pub open spec fn ods_text(evs: Seq<XmlEventView>) -> Seq<char> {
    normalize_white_space(replace_each(ods_fold(evs, evs.len() as int).out, odf_entities()))
}

/// Extracts the text of a spreadsheet from its XML events.
pub fn ods_text_of_events(events: &Vec<XmlEvent>) -> (r: String)
    ensures
        r@ == ods_text(events_view(events@)),
{
    let ghost evs = events_view(events@);
    let cell_tag = chars_of("table:table-cell");
    let row_tag = chars_of("table:table-row");
    let tab = chars_of("\t");
    let mut in_cell = false;
    let mut cell: Vec<char> = Vec::new();
    let mut row: Vec<Vec<char>> = Vec::new();
    let mut out: Vec<char> = Vec::new();
    let mut done = false;
    let mut i: usize = 0;
    assert(views(row@) =~= seq![]);
    while i < events.len()
        invariant
            i <= events.len(),
            evs == events_view(events@),
            cell_tag@ == "table:table-cell"@,
            row_tag@ == "table:table-row"@,
            tab@ == "\t"@,
            ods_fold(evs, i as int) == (OdsState {
                in_cell,
                cell: cell@,
                row: views(row@),
                out: out@,
                done,
            }),
        decreases events.len() - i,
    {
        assert(evs[i as int] == events@[i as int]@);
        if !done {
            match &events[i] {
                XmlEvent::Start(name) => {
                    let n = chars_of(name.as_str());
                    if contains_chars(&n, &cell_tag) {
                        in_cell = true;
                        cell = Vec::new();
                    }
                },
                XmlEvent::End(name) => {
                    let n = chars_of(name.as_str());
                    if contains_chars(&n, &cell_tag) {
                        let t = trim_chars(&cell);
                        if t.len() > 0 {
                            let ghost old_row = views(row@);
                            row.push(t);
                            assert(views(row@) =~= old_row.push(trim(cell@)));
                        }
                        in_cell = false;
                    } else if contains_chars(&n, &row_tag) {
                        if row.len() > 0 {
                            let ghost old_out = out@;
                            let line = join_chars(&row, &tab);
                            extend_chars(&mut out, &line);
                            out.push('\n');
                            proof {
                                reveal_strlit("\n");
                                assert(out@ =~= old_out + join(views(row@), "\t"@) + "\n"@);
                            }
                        }
                        row = Vec::new();
                        assert(views(row@) =~= seq![]);
                    }
                },
                XmlEvent::Text(t) => {
                    if in_cell {
                        let tc = chars_of(t.as_str());
                        extend_chars(&mut cell, &tc);
                    }
                },
                XmlEvent::Eof => {
                    done = true;
                },
                XmlEvent::Error => {
                    done = true;
                },
                XmlEvent::Other => {},
            }
        }
        i = i + 1;
    }
    let e = odf_entity_table().apply(&out);
    string_of(&normalize_white_space_chars(&e))
}

// ---------------------------------------------------------------------------
// OpenDocument presentations and text documents.

/// Whether an element with this name holds presentation text: its name contains `text:p`,
/// `draw:text`, `text:h` or `svg:title`.
pub open spec fn is_text_element(name: Seq<char>) -> bool {
    contains(name, "text:p"@) || contains(name, "draw:text"@) || contains(name, "text:h"@)
        || contains(name, "svg:title"@)
}

/// The state of the presentation extraction after some events.
pub struct OdpState {
    pub in_text: bool,
    pub current: Seq<char>,
    pub out: Seq<char>,
    pub done: bool,
}

pub open spec fn odp_initial() -> OdpState {
    OdpState { in_text: false, current: seq![], out: seq![], done: false }
}

/// One event of a presentation: a text element's start begins a paragraph; its end writes
/// the paragraph and a newline when the paragraph is not blank; text inside is appended;
/// reading stops at the end of the document or an error.
pub open spec fn odp_step(st: OdpState, e: XmlEventView) -> OdpState {
    if st.done {
        st
    } else {
        match e {
            XmlEventView::Start(name) => if is_text_element(name) {
                OdpState { in_text: true, current: seq![], ..st }
            } else {
                st
            },
            XmlEventView::End(name) => if is_text_element(name) {
                OdpState {
                    out: if trim(st.current).len() > 0 {
                        st.out + st.current + "\n"@
                    } else {
                        st.out
                    },
                    current: seq![],
                    in_text: false,
                    ..st
                }
            } else {
                st
            },
            XmlEventView::Text(t) => if st.in_text {
                OdpState { current: st.current + t, ..st }
            } else {
                st
            },
            XmlEventView::Eof => OdpState { done: true, ..st },
            XmlEventView::Error => OdpState { done: true, ..st },
            XmlEventView::Other => st,
        }
    }
}

/// The state after the first `n` events.
pub open spec fn odp_fold(evs: Seq<XmlEventView>, n: int) -> OdpState
    decreases n,
{
    if n <= 0 || n > evs.len() {
        odp_initial()
    } else {
        odp_step(odp_fold(evs, n - 1), evs[n - 1])
    }
}

proof fn lemma_odp_step_grows(st: OdpState, e: XmlEventView)
    ensures
        st.out.len() <= odp_step(st, e).out.len(),
        odp_step(st, e).out.subrange(0, st.out.len() as int) == st.out,
{
    let o = odp_step(st, e).out;
    assert(o.subrange(0, st.out.len() as int) =~= st.out);
}

/// The text written for a presentation or text document only grows: what is written after
/// some events is the start of what is written after more of them.
pub proof fn lemma_odp_text_only_grows(evs: Seq<XmlEventView>, n: int, m: int)
    requires
        0 <= n <= m <= evs.len(),
    ensures
        odp_fold(evs, n).out.len() <= odp_fold(evs, m).out.len(),
        odp_fold(evs, m).out.subrange(0, odp_fold(evs, n).out.len() as int) == odp_fold(evs, n).out,
    decreases m - n,
{
    if n < m {
        lemma_odp_text_only_grows(evs, n, m - 1);
        lemma_odp_step_grows(odp_fold(evs, m - 1), evs[m - 1]);
        let a = odp_fold(evs, n).out;
        let b = odp_fold(evs, m - 1).out;
        let c = odp_fold(evs, m).out;
        assert(c.subrange(0, a.len() as int) =~= b.subrange(0, a.len() as int));
    }
}

/// Inside a text element, text is added after the paragraph's text so far.
pub proof fn lemma_odp_paragraph_accumulates(evs: Seq<XmlEventView>, n: int)
    requires
        0 <= n < evs.len(),
        !odp_fold(evs, n).done,
        odp_fold(evs, n).in_text,
        evs[n] is Text,
    ensures
        odp_fold(evs, n + 1).current == odp_fold(evs, n).current + evs[n]->Text_0,
{
}

/// Every paragraph that is not blank ends up in the text written for the whole document,
/// followed by a line feed.
pub proof fn lemma_odp_keeps_every_paragraph(evs: Seq<XmlEventView>, n: int, name: Seq<char>)
    requires
        0 <= n < evs.len(),
        evs[n] == XmlEventView::End(name),
        is_text_element(name),
        !odp_fold(evs, n).done,
        trim(odp_fold(evs, n).current).len() > 0,
    ensures
        odp_fold(evs, n + 1).out == odp_fold(evs, n).out + odp_fold(evs, n).current + "\n"@,
        contains(odp_fold(evs, evs.len() as int).out, odp_fold(evs, n).current + "\n"@),
{
    let before = odp_fold(evs, n).out;
    let line = odp_fold(evs, n).current + "\n"@;
    lemma_odp_text_only_grows(evs, n + 1, evs.len() as int);
    let after = odp_fold(evs, n + 1).out;
    let fin = odp_fold(evs, evs.len() as int).out;
    let k = before.len() as int;
    assert(after =~= before + line);
    assert(after.subrange(k, k + line.len()) =~= line);
    assert(fin.subrange(k, k + line.len()) =~= after.subrange(k, k + line.len()));
    assert(occurs_at(fin, line, k));
}

/// The text of a presentation's events: its non-blank paragraphs, then entities decoded,
/// white space runs collapsed and the ends trimmed.
pub open spec fn odp_text(evs: Seq<XmlEventView>) -> Seq<char> {
    normalize_white_space(replace_each(odp_fold(evs, evs.len() as int).out, odf_entities()))
}

struct TextElementNames {
    p: Vec<char>,
    draw: Vec<char>,
    h: Vec<char>,
    title: Vec<char>,
}

impl TextElementNames {
    spec fn wf(&self) -> bool {
        &&& self.p@ == "text:p"@
        &&& self.draw@ == "draw:text"@
        &&& self.h@ == "text:h"@
        &&& self.title@ == "svg:title"@
    }

    fn new() -> (r: Self)
        ensures
            r.wf(),
    {
        TextElementNames {
            p: chars_of("text:p"),
            draw: chars_of("draw:text"),
            h: chars_of("text:h"),
            title: chars_of("svg:title"),
        }
    }

    fn matches(&self, name: &str) -> (r: bool)
        requires
            self.wf(),
        ensures
            r == is_text_element(name@),
    {
        let n = chars_of(name);
        contains_chars(&n, &self.p) || contains_chars(&n, &self.draw) || contains_chars(
            &n,
            &self.h,
        ) || contains_chars(&n, &self.title)
    }
}

/// Extracts the text of a presentation (or text document) from its XML events.
pub fn odp_text_of_events(events: &Vec<XmlEvent>) -> (r: String)
    ensures
        r@ == odp_text(events_view(events@)),
{
    let ghost evs = events_view(events@);
    let names = TextElementNames::new();
    let mut in_text = false;
    let mut current: Vec<char> = Vec::new();
    let mut out: Vec<char> = Vec::new();
    let mut done = false;
    let mut i: usize = 0;
    while i < events.len()
        invariant
            i <= events.len(),
            evs == events_view(events@),
            names.wf(),
            odp_fold(evs, i as int) == (OdpState { in_text, current: current@, out: out@, done }),
        decreases events.len() - i,
    {
        assert(evs[i as int] == events@[i as int]@);
        if !done {
            match &events[i] {
                XmlEvent::Start(name) => {
                    if names.matches(name.as_str()) {
                        in_text = true;
                        current = Vec::new();
                    }
                },
                XmlEvent::End(name) => {
                    if names.matches(name.as_str()) {
                        let t = trim_chars(&current);
                        if t.len() > 0 {
                            let ghost old_out = out@;
                            extend_chars(&mut out, &current);
                            out.push('\n');
                            proof {
                                reveal_strlit("\n");
                                assert(out@ =~= old_out + current@ + "\n"@);
                            }
                        }
                        current = Vec::new();
                        in_text = false;
                    }
                },
                XmlEvent::Text(t) => {
                    if in_text {
                        let tc = chars_of(t.as_str());
                        extend_chars(&mut current, &tc);
                    }
                },
                XmlEvent::Eof => {
                    done = true;
                },
                XmlEvent::Error => {
                    done = true;
                },
                XmlEvent::Other => {},
            }
        }
        i = i + 1;
    }
    let e = odf_entity_table().apply(&out);
    string_of(&normalize_white_space_chars(&e))
}

} // verus!
