//! Excel workbooks (`.xlsx`, `.xls`): the first sheet holds a header row
//! naming a key column, a value column and perhaps a comment column, and an
//! entry per row. Opening workbooks and reading cells is done by `calamine`;
//! the library reads the header and the rows.
use vstd::prelude::*;
use indexmap::IndexMap;
use calamine::{DataType, Reader};
use crate::collections::{
    entry_map_pairs, entry_map_new, entry_map_insert, entry_map_len, entry_map_get_index, map_insert, pairs_model,
    lemma_pairs_model_insert,
};
use crate::ir::{
    I18nResource, I18nEntry, ResourceMetadata, FormatId, EntryValue, FormatCapabilities, FormatExtension, ExcelExt, Comment,
};
use crate::text::{
    str_eq, str_chars, trim, trim_chars, string_of, lowercase, to_lowercase, split_char, string_views, join, join_strings,
};
use super::json_structured::{struct_text, struct_text_exec};
use super::{Confidence, ParseError, WriteError, general_comment, general_comments, opt_view, clone_opt};

verus! {

pub struct Parser;

pub open spec fn spec_capabilities() -> FormatCapabilities {
    FormatCapabilities { comments: true, nested_keys: true, ..FormatCapabilities::spec_none() }
}

// ---------------------------------------------------------------------------
// Workbooks, by `calamine`
// ---------------------------------------------------------------------------

/// The names of the sheets of the workbook that the bytes hold, in order, or
/// none when `calamine` cannot open them as a workbook.
pub uninterp spec fn xls_sheets(b: Seq<u8>) -> Option<Seq<Seq<char>>>;

/// The cells of the named sheet of the workbook that the bytes hold, row by
/// row, each as whether it is empty and its text as `calamine` gives it (a
/// string, or the text of a number; none for another kind of value); none
/// when the sheet cannot be read.
pub uninterp spec fn xls_cells(b: Seq<u8>, sheet: Seq<char>) -> Option<Seq<Seq<(bool, Option<Seq<char>>)>>>;

/// A cell's text as the library reads it: none for an empty cell.
pub open spec fn cell_value(c: (bool, Option<Seq<char>>)) -> Option<Seq<char>> {
    if c.0 {
        None
    } else {
        c.1
    }
}

/// The cells of the named sheet, row by row, each as its text or none.
pub open spec fn xls_rows(b: Seq<u8>, sheet: Seq<char>) -> Option<Seq<Seq<Option<Seq<char>>>>> {
    match xls_cells(b, sheet) {
        Some(rows) => Some(rows.map_values(|r: Seq<(bool, Option<Seq<char>>)>| r.map_values(|c: (bool, Option<Seq<char>>)| cell_value(c)))),
        None => None,
    }
}

/// `calamine::Data`, a cell's value, held opaquely while converting.
#[verifier::external_type_specification]
#[verifier::external_body]
pub struct ExCellData(calamine::Data);

/// `DataType::is_empty` and `DataType::as_string` of a cell. Called only by
/// `sheet_cells`, whose contract covers it.
#[verifier::external_body]
fn cell_parts(c: &calamine::Data) -> (bool, Option<String>) {
    (c.is_empty(), c.as_string())
}

/// `calamine::open_workbook_auto_from_rs` over the bytes, then
/// `Reader::sheet_names` of the workbook; the message of a failure to open
/// is not stated, nor whether `calamine` panics on some malformed bytes:
/// its source here does not show that it cannot.
#[verifier::external_body]
fn sheet_names(content: &[u8]) -> (r: Result<Vec<String>, String>)
    ensures
        r is Ok <==> xls_sheets(content@) is Some,
        r matches Ok(v) ==> xls_sheets(content@) == Some(string_views(v@)),
{
    match calamine::open_workbook_auto_from_rs(std::io::Cursor::new(content.to_vec())) {
        Ok(wb) => Ok(wb.sheet_names().to_vec()),
        Err(e) => Err(e.to_string()),
    }
}

/// `Reader::worksheet_range` of the named sheet of the workbook the bytes
/// open, its rows and, of each cell, whether it is empty and its text. The
/// message of a failure is not stated, nor whether `calamine` panics on some
/// malformed bytes: its source here does not show that it cannot.
#[verifier::external_body]
fn sheet_cells(content: &[u8], sheet: &str) -> (r: Result<Vec<Vec<(bool, Option<String>)>>, String>)
    ensures
        r is Ok <==> xls_cells(content@, sheet@) is Some,
        r matches Ok(v) ==> xls_cells(content@, sheet@) == Some(raw_rows_view(v@)),
{
    match calamine::open_workbook_auto_from_rs(std::io::Cursor::new(content.to_vec())) {
        Ok(mut wb) => match wb.worksheet_range(sheet) {
            Ok(range) => Ok(range.rows().map(|row| row.iter().map(cell_parts).collect()).collect()),
            Err(e) => Err(e.to_string()),
        },
        Err(e) => Err(e.to_string()),
    }
}

pub open spec fn raw_cell_view(c: (bool, Option<String>)) -> (bool, Option<Seq<char>>) {
    (c.0, opt_view(c.1))
}

pub open spec fn raw_rows_view(v: Seq<Vec<(bool, Option<String>)>>) -> Seq<Seq<(bool, Option<Seq<char>>)>> {
    v.map_values(|r: Vec<(bool, Option<String>)>| r@.map_values(|c: (bool, Option<String>)| raw_cell_view(c)))
}

/// The cells of the named sheet, row by row, each as its text or none for
/// an empty cell.
fn sheet_rows(content: &[u8], sheet: &str) -> (r: Result<Vec<Vec<Option<String>>>, String>)
    ensures
        r is Ok <==> xls_rows(content@, sheet@) is Some,
        r matches Ok(v) ==> xls_rows(content@, sheet@) == Some(rows_view(v@)),
{
    let raw = sheet_cells(content, sheet)?;
    let ghost rv = raw_rows_view(raw@);
    let mut rows: Vec<Vec<Option<String>>> = Vec::new();
    let mut i: usize = 0;
    while i < raw.len()
        invariant
            i <= raw@.len(),
            rv == raw_rows_view(raw@),
            rows@.len() == i,
            forall|k: int| 0 <= k < i ==> #[trigger] cells_view(rows@[k]@) == rv[k].map_values(|c: (bool, Option<Seq<char>>)| cell_value(c)),
        decreases raw@.len() - i,
    {
        let row = &raw[i];
        let ghost rrow = rv[i as int];
        assert(rrow == row@.map_values(|c: (bool, Option<String>)| raw_cell_view(c)));
        let mut cells: Vec<Option<String>> = Vec::new();
        let mut j: usize = 0;
        while j < row.len()
            invariant
                j <= row@.len(),
                rrow == row@.map_values(|c: (bool, Option<String>)| raw_cell_view(c)),
                cells@.len() == j,
                forall|m: int| 0 <= m < j ==> #[trigger] opt_view(cells@[m]) == cell_value(rrow[m]),
            decreases row@.len() - j,
        {
            let c = &row[j];
            assert(rrow[j as int] == raw_cell_view(*c));
            let t = if c.0 {
                None
            } else {
                clone_opt(&c.1)
            };
            cells.push(t);
            j = j + 1;
        }
        assert(cells_view(cells@) =~= rrow.map_values(|c: (bool, Option<Seq<char>>)| cell_value(c)));
        rows.push(cells);
        i = i + 1;
    }
    proof {
        let want = rv.map_values(|r: Seq<(bool, Option<Seq<char>>)>| r.map_values(|c: (bool, Option<Seq<char>>)| cell_value(c)));
        assert forall|k: int| 0 <= k < rows@.len() implies rows_view(rows@)[k] == want[k] by {
            assert(rows_view(rows@)[k] == cells_view(rows@[k]@));
        }
        assert(rows_view(rows@) =~= want);
    }
    Ok(rows)
}

pub open spec fn cells_view(r: Seq<Option<String>>) -> Seq<Option<Seq<char>>> {
    r.map_values(|c: Option<String>| opt_view(c))
}

pub open spec fn rows_view(v: Seq<Vec<Option<String>>>) -> Seq<Seq<Option<Seq<char>>>> {
    v.map_values(|r: Vec<Option<String>>| cells_view(r@))
}

// ---------------------------------------------------------------------------
// The header
// ---------------------------------------------------------------------------

/// What a column holds.
#[derive(Debug, Clone, Copy, PartialEq, Eq, Structural)]
pub enum ColumnRole {
    Key,
    Value,
    Comment,
}

pub open spec fn is_ascii_lower(c: char) -> bool {
    'a' <= c && c <= 'z'
}

pub open spec fn is_ascii_alnum(c: char) -> bool {
    ('a' <= c && c <= 'z') || ('A' <= c && c <= 'Z') || ('0' <= c && c <= '9')
}

/// A locale code: two lower-case ASCII letters, perhaps followed by `-` and
/// a region of two or four ASCII letters or digits.
pub open spec fn spec_is_locale(s: Seq<char>) -> bool {
    let parts = split_char(s, '-');
    if parts.len() == 1 {
        parts[0].len() == 2 && forall|i: int| 0 <= i < 2 ==> is_ascii_lower(#[trigger] parts[0][i])
    } else if parts.len() == 2 {
        &&& parts[0].len() == 2
        &&& forall|i: int| 0 <= i < 2 ==> is_ascii_lower(#[trigger] parts[0][i])
        &&& (parts[1].len() == 2 || parts[1].len() == 4)
        &&& forall|i: int| 0 <= i < parts[1].len() ==> is_ascii_alnum(#[trigger] parts[1][i])
    } else {
        false
    }
}

/// The role a header names (compared trimmed and in lower case): key, value
/// (a value name or a locale code) or comment.
pub open spec fn spec_role(header: Seq<char>) -> Option<ColumnRole> {
    let l = lowercase(trim(header));
    if l == "key"@ || l == "id"@ || l == "name"@ || l == "identifier"@ || l == "string_key"@ {
        Some(ColumnRole::Key)
    } else if l == "value"@ || l == "text"@ || l == "translation"@ || l == "message"@ || l == "string"@ {
        Some(ColumnRole::Value)
    } else if l == "comment"@ || l == "note"@ || l == "description"@ || l == "notes"@ || l == "comments"@ {
        Some(ColumnRole::Comment)
    } else if spec_is_locale(l) {
        Some(ColumnRole::Value)
    } else {
        None
    }
}

/// Whether a locale code is shown.
pub fn is_locale_code(s: &str) -> (b: bool)
    ensures
        b == spec_is_locale(s@),
{
    let c = str_chars(s);
    let parts = crate::text::split_at_char(c.as_slice(), '-');
    let ghost pv = parts@.map_values(|l: Vec<char>| l@);
    assert(pv == split_char(s@, '-'));
    if parts.len() == 1 {
        let p = &parts[0];
        assert(pv[0] == p@);
        p.len() == 2 && 'a' <= p[0] && p[0] <= 'z' && 'a' <= p[1] && p[1] <= 'z'
    } else if parts.len() == 2 {
        let lang = &parts[0];
        let region = &parts[1];
        assert(pv[0] == lang@ && pv[1] == region@);
        if !(lang.len() == 2 && 'a' <= lang[0] && lang[0] <= 'z' && 'a' <= lang[1] && lang[1] <= 'z') {
            return false;
        }
        if !(region.len() == 2 || region.len() == 4) {
            return false;
        }
        let mut i: usize = 0;
        while i < region.len()
            invariant
                i <= region@.len(),
                pv == split_char(s@, '-'),
                pv.len() == 2,
                pv[1] == region@,
                forall|j: int| 0 <= j < i ==> is_ascii_alnum(#[trigger] region@[j]),
            decreases region@.len() - i,
        {
            let ch = region[i];
            if !(('a' <= ch && ch <= 'z') || ('A' <= ch && ch <= 'Z') || ('0' <= ch && ch <= '9')) {
                assert(!is_ascii_alnum(pv[1][i as int]));
                return false;
            }
            i = i + 1;
        }
        true
    } else {
        false
    }
}

/// The role a header names.
pub fn detect_column_role(header: &str) -> (r: Option<ColumnRole>)
    ensures
        r == spec_role(header@),
{
    let c = str_chars(header);
    let t = string_of(trim_chars(c.as_slice()).as_slice());
    let l = to_lowercase(t.as_str());
    let s = l.as_str();
    if str_eq(s, "key") || str_eq(s, "id") || str_eq(s, "name") || str_eq(s, "identifier") || str_eq(s, "string_key") {
        Some(ColumnRole::Key)
    } else if str_eq(s, "value") || str_eq(s, "text") || str_eq(s, "translation") || str_eq(s, "message") || str_eq(s, "string") {
        Some(ColumnRole::Value)
    } else if str_eq(s, "comment") || str_eq(s, "note") || str_eq(s, "description") || str_eq(s, "notes") || str_eq(s, "comments") {
        Some(ColumnRole::Comment)
    } else if is_locale_code(s) {
        Some(ColumnRole::Value)
    } else {
        None
    }
}

/// The first column of each role among the first `n` header cells.
pub open spec fn columns_upto(h: Seq<Option<Seq<char>>>, n: int) -> (Option<int>, Option<int>, Option<int>)
    decreases n,
{
    if n <= 0 || n > h.len() {
        (None, None, None)
    } else {
        let c = columns_upto(h, n - 1);
        match h[n - 1] {
            Some(t) => match spec_role(t) {
                Some(ColumnRole::Key) if c.0 is None => (Some(n - 1), c.1, c.2),
                Some(ColumnRole::Value) if c.1 is None => (c.0, Some(n - 1), c.2),
                Some(ColumnRole::Comment) if c.2 is None => (c.0, c.1, Some(n - 1)),
                _ => c,
            },
            None => c,
        }
    }
}

// ---------------------------------------------------------------------------
// The rows
// ---------------------------------------------------------------------------

/// The cell at `i` of a row, when there is one with text.
pub open spec fn cell_at(r: Seq<Option<Seq<char>>>, i: int) -> Option<Seq<char>> {
    if 0 <= i < r.len() { r[i] } else { None }
}

/// An entry read from a row: key, value and comment texts.
pub open spec fn row_entries_upto(rows: Seq<Seq<Option<Seq<char>>>>, n: int, kc: int, vc: int, cc: Option<int>) -> Seq<(Seq<char>, (Seq<char>, Seq<Seq<char>>))>
    decreases n,
{
    if n <= 1 || n > rows.len() {
        Seq::empty()
    } else {
        let acc = row_entries_upto(rows, n - 1, kc, vc, cc);
        let r = rows[n - 1];
        match cell_at(r, kc) {
            Some(k) if k.len() > 0 => {
                let v = match cell_at(r, vc) {
                    Some(t) => t,
                    None => Seq::empty(),
                };
                let cs = match cc {
                    Some(c) => match cell_at(r, c) {
                        Some(t) if t.len() > 0 => seq![t],
                        _ => Seq::empty(),
                    },
                    None => Seq::empty(),
                };
                map_insert(acc, k, (v, cs))
            },
            _ => acc,
        }
    }
}

pub open spec fn excel_rel() -> spec_fn(I18nEntry, (Seq<char>, Seq<Seq<char>>)) -> bool {
    |e: I18nEntry, x: (Seq<char>, Seq<Seq<char>>)| {
        &&& e.value matches EntryValue::Simple(s) && s@ == x.0
        &&& general_comments(e.comments@, x.1)
        &&& e.format_ext is None
        &&& I18nEntry::spec_bare(e)
    }
}

/// What reading workbook bytes gives: the first sheet's header must name a
/// key and a value column.
pub open spec fn parse_ok(r: Result<I18nResource, ParseError>, content: Seq<u8>) -> bool {
    match xls_sheets(content) {
        None => r matches Err(ParseError::InvalidFormat(_)),
        Some(names) => if names.len() == 0 {
            r matches Err(ParseError::InvalidFormat(_))
        } else {
            match xls_rows(content, names[0]) {
                None => r matches Err(ParseError::InvalidFormat(_)),
                Some(rows) => if rows.len() == 0 {
                    r matches Err(ParseError::InvalidFormat(_))
                } else {
                    let c = columns_upto(rows[0], rows[0].len() as int);
                    match (c.0, c.1) {
                        (Some(kc), Some(vc)) => r matches Ok(res) && {
                            &&& ResourceMetadata::spec_plain_except_ext(res.metadata, FormatId::Excel)
                            &&& (res.metadata.format_ext matches Some(FormatExtension::Excel(x)) && {
                                &&& opt_view(x.sheet_name) == Some(names[0])
                                &&& x.key_column == Some(kc as u32)
                                &&& x.value_column == Some(vc as u32)
                            })
                            &&& pairs_model(entry_map_pairs(res.entries), row_entries_upto(rows, rows.len() as int, kc, vc, c.2), excel_rel())
                        },
                        _ => r matches Err(ParseError::InvalidFormat(_)),
                    }
                },
            }
        }
    }
}

/// How sure this format is: `.xlsx` and `.xls` (in any case) are certain;
/// other bytes (more than four) that open as a workbook are likely.
pub open spec fn spec_detect(extension: Seq<char>, content: Seq<u8>) -> Confidence {
    let e = lowercase(extension);
    if e == ".xlsx"@ || e == ".xls"@ {
        Confidence::Definite
    } else if content.len() > 4 && xls_sheets(content) is Some {
        Confidence::High
    } else {
        Confidence::NoMatch
    }
}

fn cell_exec(r: &Vec<Option<String>>, i: usize) -> (c: Option<String>)
    ensures
        opt_view(c) == cell_at(cells_view(r@), i as int),
{
    if i < r.len() {
        match &r[i] {
            Some(t) => Some(t.clone()),
            None => None,
        }
    } else {
        None
    }
}

impl Parser {
    pub fn detect(&self, extension: &str, content: &[u8]) -> (c: Confidence)
        ensures
            c == spec_detect(extension@, content@),
    {
        let e = to_lowercase(extension);
        if str_eq(e.as_str(), ".xlsx") || str_eq(e.as_str(), ".xls") {
            return Confidence::Definite;
        }
        if content.len() > 4 && sheet_names(content).is_ok() {
            return Confidence::High;
        }
        Confidence::NoMatch
    }

    /// Reads the first sheet: its header row finds the key, value and
    /// comment columns (the first of each); each later row with a key gives
    /// an entry (a later row with the same key replaces it).
    pub fn parse(&self, content: &[u8]) -> (r: Result<I18nResource, ParseError>)
        ensures
            parse_ok(r, content@),
    {
        let names = match sheet_names(content) {
            Ok(n) => n,
            Err(e) => {
                let mut msg = "Failed to open Excel workbook: ".to_owned();
                msg.append(e.as_str());
                return Err(ParseError::InvalidFormat(msg));
            },
        };
        if names.len() == 0 {
            return Err(ParseError::InvalidFormat("No sheets found in workbook".to_owned()));
        }
        let sheet = names[0].clone();
        assert(string_views(names@)[0] == sheet@);
        let rows = match sheet_rows(content, sheet.as_str()) {
            Ok(r) => r,
            Err(e) => {
                let mut msg = "Failed to read sheet: ".to_owned();
                msg.append(e.as_str());
                return Err(ParseError::InvalidFormat(msg));
            },
        };
        let ghost rv = rows_view(rows@);
        if rows.len() == 0 {
            return Err(ParseError::InvalidFormat("Sheet is empty — no header row".to_owned()));
        }
        let header = &rows[0];
        assert(rv[0] == cells_view(header@));
        let ghost hv = cells_view(header@);
        let mut key_col: Option<usize> = None;
        let mut value_col: Option<usize> = None;
        let mut comment_col: Option<usize> = None;
        let mut i: usize = 0;
        while i < header.len()
            invariant
                i <= header@.len(),
                hv == cells_view(header@),
                columns_upto(hv, i as int) == (opt_int(key_col), opt_int(value_col), opt_int(comment_col)),
            decreases header@.len() - i,
        {
            assert(hv[i as int] == opt_view(header@[i as int]));
            match &header[i] {
                Some(text) => {
                    match detect_column_role(text.as_str()) {
                        Some(ColumnRole::Key) => if key_col.is_none() {
                            key_col = Some(i);
                        },
                        Some(ColumnRole::Value) => if value_col.is_none() {
                            value_col = Some(i);
                        },
                        Some(ColumnRole::Comment) => if comment_col.is_none() {
                            comment_col = Some(i);
                        },
                        None => {},
                    }
                },
                None => {},
            }
            i = i + 1;
        }
        let kc = match key_col {
            Some(k) => k,
            None => return Err(ParseError::InvalidFormat("No key column found in header row (expected: key, id, name)".to_owned())),
        };
        let vc = match value_col {
            Some(v) => v,
            None => return Err(ParseError::InvalidFormat(
                "No value column found in header row (expected: value, text, translation, or locale code)".to_owned(),
            )),
        };
        let mut entries = entry_map_new();
        let mut j: usize = 1;
        while j < rows.len()
            invariant
                1 <= j <= rows@.len(),
                rv == rows_view(rows@),
                pairs_model(entry_map_pairs(entries), row_entries_upto(rv, j as int, kc as int, vc as int, opt_int(comment_col)), excel_rel()),
            decreases rows@.len() - j,
        {
            let ghost acc = row_entries_upto(rv, j as int, kc as int, vc as int, opt_int(comment_col));
            let row = &rows[j];
            assert(rv[j as int] == cells_view(row@));
            match cell_exec(row, kc) {
                Some(key) => {
                    if !key.as_str().is_empty() {
                        let value = match cell_exec(row, vc) {
                            Some(t) => t,
                            None => String::new(),
                        };
                        let comment = match comment_col {
                            Some(c) => cell_exec(row, c),
                            None => None,
                        };
                        let ghost vv = value@;
                        let ghost cv = opt_view(comment);
                        let ghost csq: Seq<Seq<char>> = match cv {
                            Some(t) => if t.len() > 0 { seq![t] } else { Seq::empty() },
                            None => Seq::empty(),
                        };
                        let mut e = I18nEntry::with_value(key.clone(), EntryValue::Simple(value));
                        match comment {
                            Some(t) => {
                                if !t.as_str().is_empty() {
                                    e.comments.push(general_comment(t));
                                }
                            },
                            None => {},
                        }
                        assert(general_comments(e.comments@, csq));
                        assert(excel_rel()(e, (vv, csq)));
                        assert(row_entries_upto(rv, j + 1, kc as int, vc as int, opt_int(comment_col)) == map_insert(acc, key@, (vv, csq)));
                        proof {
                            lemma_pairs_model_insert(entry_map_pairs(entries), acc, excel_rel(), key@, e, (vv, csq));
                        }
                        entry_map_insert(&mut entries, key, e);
                    }
                },
                None => {},
            }
            j = j + 1;
        }
        let mut metadata = ResourceMetadata::for_format(FormatId::Excel);
        metadata.format_ext = Some(FormatExtension::Excel(ExcelExt {
            sheet_name: Some(sheet),
            key_column: Some(kc as u32),
            value_column: Some(vc as u32),
        }));
        Ok(I18nResource { metadata, entries })
    }

    pub fn capabilities(&self) -> (c: FormatCapabilities)
        ensures
            c == spec_capabilities(),
    {
        FormatCapabilities { comments: true, nested_keys: true, ..FormatCapabilities::default() }
    }
}

pub open spec fn opt_int(o: Option<usize>) -> Option<int> {
    match o {
        Some(x) => Some(x as int),
        None => None,
    }
}

// ---------------------------------------------------------------------------
// Writing, by `rust_xlsxwriter`
// ---------------------------------------------------------------------------

pub struct Writer;

/// `rust_xlsxwriter::Worksheet`, held opaquely while cells are written.
#[verifier::external_type_specification]
#[verifier::external_body]
pub struct ExWorksheet(rust_xlsxwriter::Worksheet);

/// `Worksheet::new`: an empty worksheet.
#[verifier::external_body]
fn ws_new() -> rust_xlsxwriter::Worksheet {
    rust_xlsxwriter::Worksheet::new()
}

/// `Worksheet::write_string`: writes a string cell. It succeeds for an empty
/// string (which writes nothing) and for a cell inside Excel's grid (row
/// below 1,048,576, column below 16,384) whose text has at most 32,767
/// UTF-16 units, which at most 16,383 characters always have; the message
/// of a failure is not stated.
#[verifier::external_body]
fn ws_write_string(ws: &mut rust_xlsxwriter::Worksheet, row: u32, col: u16, s: &str) -> (r: Result<(), String>)
    ensures
        (s@.len() == 0 || (row < 1_048_576 && col < 16_384 && s@.len() <= 16_383)) ==> r is Ok,
{
    match ws.write_string(row, col, s) {
        Ok(_) => Ok(()),
        Err(e) => Err(e.to_string()),
    }
}

/// `Worksheet::set_name`: names the worksheet; which names Excel refuses is
/// not stated.
#[verifier::external_body]
fn ws_set_name(ws: &mut rust_xlsxwriter::Worksheet, name: &str) -> (r: Result<(), String>) {
    match ws.set_name(name) {
        Ok(_) => Ok(()),
        Err(e) => Err(e.to_string()),
    }
}

/// `Workbook::new`, `Workbook::push_worksheet` and
/// `Workbook::save_to_buffer`: the bytes of a workbook holding the worksheet.
/// Nothing is stated of them: they hold the time of saving.
#[verifier::external_body]
fn save_workbook(ws: rust_xlsxwriter::Worksheet) -> (r: Result<Vec<u8>, String>) {
    let mut wb = rust_xlsxwriter::Workbook::new();
    wb.push_worksheet(ws);
    wb.save_to_buffer().map_err(|e| e.to_string())
}

/// Whether some entry has comments.
pub open spec fn has_comments(ps: Seq<(Seq<char>, I18nEntry)>) -> bool {
    exists|i: int| 0 <= i < ps.len() && (#[trigger] ps[i]).1.comments@.len() > 0
}

/// The comment texts of an entry joined by `; `.
pub open spec fn comment_join(e: I18nEntry) -> Seq<char> {
    join(e.comments@.map_values(|c: Comment| c.text@), "; "@)
}

/// The cells of the row of entry `i`: its key, its value's text and, when
/// comments are written, its comments when there are any.
pub open spec fn row_cells(i: int, e: I18nEntry, hc: bool) -> Seq<(u32, u16, Seq<char>)> {
    let row = (i + 1) as u32;
    seq![(row, 0u16, e.key@), (row, 1u16, struct_text(e.value))]
        + if hc && comment_join(e).len() > 0 { seq![(row, 2u16, comment_join(e))] } else { Seq::empty() }
}

/// The cells of the first `n` entries' rows.
pub open spec fn rows_cells(ps: Seq<(Seq<char>, I18nEntry)>, n: int, hc: bool) -> Seq<(u32, u16, Seq<char>)>
    decreases n,
{
    if n <= 0 || n > ps.len() {
        Seq::empty()
    } else {
        rows_cells(ps, n - 1, hc) + row_cells(n - 1, ps[n - 1].1, hc)
    }
}

/// The cells written for a resource, in order: the header (`key`, `value`,
/// and `comment` when some entry has comments), then a row per entry.
pub open spec fn spec_cells(res: I18nResource) -> Seq<(u32, u16, Seq<char>)> {
    let ps = entry_map_pairs(res.entries);
    let hc = has_comments(ps);
    seq![(0u32, 0u16, "key"@), (0u32, 1u16, "value"@)]
        + (if hc { seq![(0u32, 2u16, "comment"@)] } else { Seq::empty() })
        + rows_cells(ps, ps.len() as int, hc)
}

pub open spec fn cells_of(v: Seq<(u32, u16, String)>) -> Seq<(u32, u16, Seq<char>)> {
    v.map_values(|c: (u32, u16, String)| (c.0, c.1, c.2@))
}

fn comment_join_exec(e: &I18nEntry) -> (r: String)
    ensures
        r@ == comment_join(*e),
{
    let mut texts: Vec<String> = Vec::new();
    let mut i: usize = 0;
    while i < e.comments.len()
        invariant
            i <= e.comments@.len(),
            string_views(texts@) == e.comments@.take(i as int).map_values(|c: Comment| c.text@),
        decreases e.comments@.len() - i,
    {
        let ghost before = texts@;
        texts.push(e.comments[i].text.clone());
        assert(string_views(texts@) =~= string_views(before).push(e.comments@[i as int].text@));
        assert(e.comments@.take(i + 1).map_values(|c: Comment| c.text@) =~= e.comments@.take(i as int).map_values(|c: Comment| c.text@).push(e.comments@[i as int].text@));
        i = i + 1;
    }
    assert(e.comments@.take(e.comments@.len() as int) =~= e.comments@);
    join_strings(&texts, "; ")
}

/// The cells written for a resource, in the order they are written.
pub fn excel_cells(resource: &I18nResource) -> (r: Vec<(u32, u16, String)>)
    ensures
        cells_of(r@) == spec_cells(*resource),
{
    let ghost ps = entry_map_pairs(resource.entries);
    let n = entry_map_len(&resource.entries);
    let mut hc = false;
    let mut k: usize = 0;
    while k < n
        invariant
            k <= n,
            n == ps.len(),
            ps == entry_map_pairs(resource.entries),
            hc <==> exists|i: int| 0 <= i < k && (#[trigger] ps[i]).1.comments@.len() > 0,
        decreases n - k,
    {
        match entry_map_get_index(&resource.entries, k) {
            Some((_key, e)) => {
                if e.comments.len() > 0 {
                    hc = true;
                }
            },
            None => {},
        }
        k = k + 1;
    }
    let mut cells: Vec<(u32, u16, String)> = Vec::new();
    cells.push((0, 0, "key".to_owned()));
    cells.push((0, 1, "value".to_owned()));
    if hc {
        cells.push((0, 2, "comment".to_owned()));
    }
    let ghost head = cells_of(cells@);
    assert(head =~= seq![(0u32, 0u16, "key"@), (0u32, 1u16, "value"@)] + (if hc { seq![(0u32, 2u16, "comment"@)] } else { Seq::empty() }));
    let mut i: usize = 0;
    while i < n
        invariant
            i <= n,
            n == ps.len(),
            ps == entry_map_pairs(resource.entries),
            hc == has_comments(ps),
            cells_of(cells@) == head + rows_cells(ps, i as int, hc),
        decreases n - i,
    {
        match entry_map_get_index(&resource.entries, i) {
            Some((_key, e)) => {
                let ghost before = cells@;
                #[verifier::truncate]
                let row = (i + 1) as u32;
                assert(row == ((i + 1) as int) as u32);
                cells.push((row, 0, e.key.clone()));
                cells.push((row, 1, struct_text_exec(&e.value)));
                let c = if hc { comment_join_exec(e) } else { String::new() };
                if hc && !c.as_str().is_empty() {
                    cells.push((row, 2, c));
                }
                assert(cells_of(cells@) =~= cells_of(before) + row_cells(i as int, ps[i as int].1, hc));
            },
            None => {},
        }
        i = i + 1;
    }
    cells
}

impl Writer {
    /// Writes the cells of `excel_cells` into a worksheet, names it after
    /// the sheet name the resource recorded, and saves the workbook. A
    /// failure of `rust_xlsxwriter` is a serialization error.
    pub fn write(&self, resource: &I18nResource) -> (r: Result<Vec<u8>, WriteError>)
        ensures
            r matches Err(e) ==> e is Serialization,
    {
        let cells = excel_cells(resource);
        let mut ws = ws_new();
        let mut i: usize = 0;
        while i < cells.len()
            decreases cells@.len() - i,
        {
            match ws_write_string(&mut ws, cells[i].0, cells[i].1, cells[i].2.as_str()) {
                Ok(()) => {},
                Err(e) => {
                    let mut msg = "Failed to write cell: ".to_owned();
                    msg.append(e.as_str());
                    return Err(WriteError::Serialization(msg));
                },
            }
            i = i + 1;
        }
        match &resource.metadata.format_ext {
            Some(FormatExtension::Excel(ext)) => match &ext.sheet_name {
                Some(name) => match ws_set_name(&mut ws, name.as_str()) {
                    Ok(()) => {},
                    Err(e) => {
                        let mut msg = "Failed to set sheet name: ".to_owned();
                        msg.append(e.as_str());
                        return Err(WriteError::Serialization(msg));
                    },
                },
                None => {},
            },
            _ => {},
        }
        match save_workbook(ws) {
            Ok(b) => Ok(b),
            Err(e) => {
                let mut msg = "Failed to save workbook: ".to_owned();
                msg.append(e.as_str());
                Err(WriteError::Serialization(msg))
            },
        }
    }

    pub fn capabilities(&self) -> (c: FormatCapabilities)
        ensures
            c == spec_capabilities(),
    {
        Parser.capabilities()
    }
}

impl super::FormatParser for Parser {
    fn detect(&self, extension: &str, content: &[u8]) -> (c: Confidence)
        ensures
            c == spec_detect(extension@, content@),
    {
        Parser::detect(self, extension, content)
    }

    fn parse(&self, content: &[u8]) -> (r: Result<I18nResource, ParseError>)
        ensures
            parse_ok(r, content@),
    {
        Parser::parse(self, content)
    }

    fn capabilities(&self) -> (c: FormatCapabilities)
        ensures
            c == spec_capabilities(),
    {
        Parser::capabilities(self)
    }
}

impl super::FormatWriter for Writer {
    fn write(&self, resource: &I18nResource) -> (r: Result<Vec<u8>, WriteError>)
        ensures
            r matches Err(e) ==> e is Serialization,
    {
        Writer::write(self, resource)
    }

    fn capabilities(&self) -> (c: FormatCapabilities)
        ensures
            c == spec_capabilities(),
    {
        Writer::capabilities(self)
    }
}

} // verus!
