//! Excel workbooks.

use vstd::prelude::*;
use super::{fail, parse_view, FileParser, ParseError};
use crate::formats::{
    rows_view, sheets_view, spec_xls_sheets, spec_xlsx_sheets, xls_sheets, xlsx_sheets,
};
use crate::paths::{has_extension, path_has_extension};
use crate::text::{
    all_nonempty, append_piece, append_piece_chars, chars_of, contains, join, join_chars,
    lemma_append_piece_join, lemma_join_contains, replace_all, replace_chars, string_of, trim,
    trim_chars, trim_end, trim_start, views,
};

verus! {

/// Extracts the text of `.xlsx` and `.xls` files.
pub struct ExcelParser;

/// A cell's text with line feeds turned to spaces and carriage returns dropped.
pub open spec fn cell_text(c: Seq<char>) -> Seq<char> {
    replace_all(replace_all(c, "\n"@, " "@), "\r"@, ""@)
}

/// The non-empty texts, in order.
pub open spec fn nonempty_texts(cells: Seq<Seq<char>>) -> Seq<Seq<char>>
    decreases cells.len(),
{
    if cells.len() == 0 {
        seq![]
    } else {
        let r = nonempty_texts(cells.drop_last());
        if cells.last().len() > 0 {
            r.push(cells.last())
        } else {
            r
        }
    }
}

/// A row's text: its non-empty cell texts separated by tabs.
pub open spec fn row_text(row: Seq<Seq<char>>) -> Seq<char> {
    join(nonempty_texts(row.map_values(|c: Seq<char>| cell_text(c))), "\t"@)
}

/// The rows of the sheets that could be read, sheet after sheet.
pub open spec fn sheet_rows(sheets: Seq<Option<Seq<Seq<Seq<char>>>>>) -> Seq<Seq<Seq<char>>>
    decreases sheets.len(),
{
    if sheets.len() == 0 {
        seq![]
    } else {
        sheet_rows(sheets.drop_last()) + match sheets.last() {
            Some(rows) => rows,
            None => seq![],
        }
    }
}

/// The rows' texts, one per line, leaving out rows whose text is blank.
pub open spec fn rows_text(rows: Seq<Seq<Seq<char>>>) -> Seq<char>
    decreases rows.len(),
{
    if rows.len() == 0 {
        seq![]
    } else {
        let acc = rows_text(rows.drop_last());
        let t = row_text(rows.last());
        if trim(t).len() > 0 {
            append_piece(acc, t, "\n"@)
        } else {
            acc
        }
    }
}

/// The text of a workbook's sheets.
pub open spec fn workbook_text(sheets: Seq<Option<Seq<Seq<Seq<char>>>>>) -> Seq<char> {
    rows_text(sheet_rows(sheets))
}

proof fn lemma_nonempty_texts(cells: Seq<Seq<char>>)
    ensures
        forall|i: int|
            0 <= i < cells.len() && #[trigger] cells[i].len() > 0 ==> nonempty_texts(cells).contains(
                cells[i],
            ),
    decreases cells.len(),
{
    if cells.len() > 0 {
        let init = cells.drop_last();
        lemma_nonempty_texts(init);
        let nt = nonempty_texts(cells);
        let nt0 = nonempty_texts(init);
        assert forall|i: int| 0 <= i < cells.len() && #[trigger] cells[i].len() > 0 implies nt.contains(cells[i]) by {
            if i < cells.len() - 1 {
                assert(init[i] == cells[i]);
                let j = choose|j: int| 0 <= j < nt0.len() && nt0[j] == init[i];
                assert(nt[j] == nt0[j]);
            } else {
                assert(cells[i] == cells.last());
                assert(nt[nt0.len() as int] == cells[i]);
            }
        }
    }
}

/// A row's text holds the text of every cell that is not empty (line feeds turned to
/// spaces, carriage returns dropped).
pub proof fn lemma_row_text_keeps_every_cell(row: Seq<Seq<char>>, i: int)
    requires
        0 <= i < row.len(),
        cell_text(row[i]).len() > 0,
    ensures
        contains(row_text(row), cell_text(row[i])),
{
    let cells = row.map_values(|c: Seq<char>| cell_text(c));
    assert(cells[i] == cell_text(row[i]));
    lemma_nonempty_texts(cells);
    let nt = nonempty_texts(cells);
    let j = choose|j: int| 0 <= j < nt.len() && nt[j] == cells[i];
    lemma_join_contains(nt, "\t"@, j);
}

/// The texts of the rows whose text is not blank, in order.
pub open spec fn row_pieces(rows: Seq<Seq<Seq<char>>>) -> Seq<Seq<char>>
    decreases rows.len(),
{
    if rows.len() == 0 {
        seq![]
    } else {
        let rest = row_pieces(rows.drop_last());
        if trim(row_text(rows.last())).len() > 0 {
            rest.push(row_text(rows.last()))
        } else {
            rest
        }
    }
}

proof fn lemma_trim_start_len(s: Seq<char>)
    ensures
        trim_start(s).len() <= s.len(),
    decreases s.len(),
{
    if s.len() > 0 {
        lemma_trim_start_len(s.drop_first());
    }
}

proof fn lemma_trim_end_len(s: Seq<char>)
    ensures
        trim_end(s).len() <= s.len(),
    decreases s.len(),
{
    if s.len() > 0 {
        lemma_trim_end_len(s.drop_last());
    }
}

proof fn lemma_row_pieces(rows: Seq<Seq<Seq<char>>>)
    ensures
        all_nonempty(row_pieces(rows)),
        rows_text(rows) == join(row_pieces(rows), "\n"@),
        forall|i: int|
            0 <= i < rows.len() && trim(#[trigger] row_text(rows[i])).len() > 0 ==> exists|j: int|
                0 <= j < row_pieces(rows).len() && row_pieces(rows)[j] == row_text(rows[i]),
    decreases rows.len(),
{
    if rows.len() > 0 {
        let init = rows.drop_last();
        lemma_row_pieces(init);
        let rest = row_pieces(init);
        let t = row_text(rows.last());
        if trim(t).len() > 0 {
            lemma_trim_start_len(t);
            lemma_trim_end_len(trim_start(t));
            lemma_append_piece_join(rest, t, "\n"@);
        }
        let rp = row_pieces(rows);
        assert forall|i: int|
            0 <= i < rows.len() && trim(#[trigger] row_text(rows[i])).len() > 0 implies exists|j: int|
                0 <= j < rp.len() && rp[j] == row_text(rows[i]) by {
            if i < rows.len() - 1 {
                assert(init[i] == rows[i]);
                let j = choose|j: int| 0 <= j < rest.len() && rest[j] == row_text(init[i]);
                assert(rp[j] == rest[j]);
            } else {
                assert(rows[i] == rows.last());
                assert(rp[rest.len() as int] == row_text(rows[i]));
            }
        }
    }
}

/// The text of a workbook is the texts of all its rows that are not blank, sheet after
/// sheet and row after row, joined by line feeds; so every such row's text occurs in it.
pub proof fn lemma_workbook_text_keeps_every_row(sheets: Seq<Option<Seq<Seq<Seq<char>>>>>)
    ensures
        workbook_text(sheets) == join(row_pieces(sheet_rows(sheets)), "\n"@),
        forall|i: int|
            0 <= i < sheet_rows(sheets).len() && trim(#[trigger] row_text(sheet_rows(sheets)[i])).len()
                > 0 ==> contains(workbook_text(sheets), row_text(sheet_rows(sheets)[i])),
{
    let rows = sheet_rows(sheets);
    lemma_row_pieces(rows);
    let rp = row_pieces(rows);
    assert forall|i: int|
        0 <= i < rows.len() && trim(#[trigger] row_text(rows[i])).len() > 0 implies contains(
            workbook_text(sheets),
            row_text(rows[i]),
        ) by {
        let j = choose|j: int| 0 <= j < rp.len() && rp[j] == row_text(rows[i]);
        lemma_join_contains(rp, "\n"@, j);
    }
}

/// A workbook's text, read as Excel 2007+ or 97-2003 by the path's extension.
pub open spec fn excel_parse(path: Seq<char>, data: Seq<u8>) -> Result<Seq<char>, Seq<char>> {
    if has_extension(path, "xlsx"@) {
        match spec_xlsx_sheets(data) {
            None => Err("Failed to open xlsx file"@),
            Some(s) => Ok(workbook_text(s)),
        }
    } else if has_extension(path, "xls"@) {
        match spec_xls_sheets(data) {
            None => Err("Failed to open xls file"@),
            Some(s) => Ok(workbook_text(s)),
        }
    } else {
        Err("Unsupported Excel format"@)
    }
}

struct RowSeparators {
    lf: Vec<char>,
    space: Vec<char>,
    cr: Vec<char>,
    none: Vec<char>,
    tab: Vec<char>,
}

impl RowSeparators {
    spec fn wf(&self) -> bool {
        &&& self.lf@ == "\n"@
        &&& self.space@ == " "@
        &&& self.cr@ == "\r"@
        &&& self.none@ == ""@
        &&& self.tab@ == "\t"@
        &&& self.lf@.len() > 0
        &&& self.cr@.len() > 0
    }

    fn new() -> (r: Self)
        ensures
            r.wf(),
    {
        proof {
            reveal_strlit("\n");
            reveal_strlit("\r");
        }
        RowSeparators {
            lf: chars_of("\n"),
            space: chars_of(" "),
            cr: chars_of("\r"),
            none: chars_of(""),
            tab: chars_of("\t"),
        }
    }

    fn row_text(&self, row: &Vec<String>) -> (r: Vec<char>)
        requires
            self.wf(),
        ensures
            r@ == row_text(row@.map_values(|c: String| c@)),
    {
        let ghost rv = row@.map_values(|c: String| c@);
        let ghost texts = rv.map_values(|c: Seq<char>| cell_text(c));
        let mut kept: Vec<Vec<char>> = Vec::new();
        let mut k: usize = 0;
        while k < row.len()
            invariant
                k <= row.len(),
                self.wf(),
                rv == row@.map_values(|c: String| c@),
                texts == rv.map_values(|c: Seq<char>| cell_text(c)),
                views(kept@) == nonempty_texts(texts.take(k as int)),
            decreases row.len() - k,
        {
            assert(texts.take(k as int + 1).drop_last() == texts.take(k as int));
            let c = chars_of(row[k].as_str());
            let a = replace_chars(&c, &self.lf, &self.space);
            let t = replace_chars(&a, &self.cr, &self.none);
            assert(t@ == texts[k as int]);
            if t.len() > 0 {
                let ghost before = views(kept@);
                kept.push(t);
                assert(views(kept@) =~= before.push(texts[k as int]));
            }
            k = k + 1;
        }
        assert(texts.take(row.len() as int) == texts);
        join_chars(&kept, &self.tab)
    }
}

/// Joins the text of a workbook's sheets, as [`workbook_text`] says.
pub fn workbook_text_of(sheets: &Vec<Option<Vec<Vec<String>>>>) -> (r: String)
    ensures
        r@ == workbook_text(sheets_view(sheets@)),
{
    let ghost sv = sheets_view(sheets@);
    let seps = RowSeparators::new();
    let mut acc: Vec<char> = Vec::new();
    let mut i: usize = 0;
    while i < sheets.len()
        invariant
            i <= sheets.len(),
            seps.wf(),
            sv == sheets_view(sheets@),
            acc@ == rows_text(sheet_rows(sv.take(i as int))),
        decreases sheets.len() - i,
    {
        assert(sv.take(i as int + 1).drop_last() == sv.take(i as int));
        let ghost prefix = sheet_rows(sv.take(i as int));
        match &sheets[i] {
            Some(rows) => {
                let ghost rv = rows_view(rows@);
                assert(sv[i as int] == Some(rv));
                let mut j: usize = 0;
                assert(prefix + rv.take(0) == prefix);
                while j < rows.len()
                    invariant
                        j <= rows.len(),
                        seps.wf(),
                        rv == rows_view(rows@),
                        acc@ == rows_text(prefix + rv.take(j as int)),
                    decreases rows.len() - j,
                {
                    assert((prefix + rv.take(j as int + 1)).drop_last() == prefix + rv.take(
                        j as int,
                    ));
                    assert((prefix + rv.take(j as int + 1)).last() == rv[j as int]);
                    assert(rv[j as int] == rows@[j as int]@.map_values(|c: String| c@));
                    let t = seps.row_text(&rows[j]);
                    let tt = trim_chars(&t);
                    if tt.len() > 0 {
                        append_piece_chars(&mut acc, &t, &seps.lf);
                    }
                    j = j + 1;
                }
                assert(rv.take(rows.len() as int) == rv);
                assert(sheet_rows(sv.take(i as int + 1)) == prefix + rv);
            },
            None => {
                assert(sheet_rows(sv.take(i as int + 1)) =~= prefix);
            },
        }
        i = i + 1;
    }
    assert(sv.take(sheets.len() as int) == sv);
    string_of(&acc)
}

impl FileParser for ExcelParser {
    fn can_parse(&self, path: &str) -> (r: bool)
        ensures
            r == (has_extension(path@, "xlsx"@) || has_extension(path@, "xls"@)),
    {
        path_has_extension(path, "xlsx") || path_has_extension(path, "xls")
    }

    fn parse(&self, path: &str, data: &[u8]) -> (r: Result<String, ParseError>)
        ensures
            parse_view(r) == excel_parse(path@, data@),
    {
        if path_has_extension(path, "xlsx") {
            match xlsx_sheets(data) {
                None => fail("Failed to open xlsx file"),
                Some(s) => Ok(workbook_text_of(&s)),
            }
        } else if path_has_extension(path, "xls") {
            match xls_sheets(data) {
                None => fail("Failed to open xls file"),
                Some(s) => Ok(workbook_text_of(&s)),
            }
        } else {
            fail("Unsupported Excel format")
        }
    }
}

} // verus!
