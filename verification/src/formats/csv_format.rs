//! CSV and TSV tables: a header row naming a key column, a value column
//! (a locale or a generic value name) and perhaps a comment column.
//! Splitting rows into fields, and quoting them, is done by `csv`.
use vstd::prelude::*;
use crate::collections::{entry_map_pairs, entry_map_new, entry_map_insert, entry_map_len, entry_map_get_index, map_insert, pairs_model, lemma_pairs_model_insert, str_map_pairs, str_map_len, str_map_get_index};
use crate::ir::{I18nResource, I18nEntry, ResourceMetadata, FormatId, EntryValue, FormatCapabilities, FormatExtension, CsvExt, Comment};
use crate::text::{
    str_chars, str_eq, string_of, trim, trim_chars, lowercase, to_lowercase, lines, split_lines, contains, chars_contain,
    utf8_error_message, join, string_views, join_strings,
};
use vstd::utf8::{valid_utf8, decode_utf8};
use super::{Confidence, ParseError, WriteError, opt_view, general_comment, general_comments};

verus! {

pub struct Parser;

pub struct Writer;

// ---------------------------------------------------------------------------
// Reading and writing records with `csv`
// ---------------------------------------------------------------------------

/// The records `csv`'s flexible reader gives for the bytes with the
/// delimiter, the header row first, each as its fields; none when the
/// reader reports an error.
pub uninterp spec fn csv_read(b: Seq<u8>, delimiter: u8) -> Option<Seq<Seq<Seq<char>>>>;

/// The bytes `csv`'s writer gives for the records with the delimiter.
pub uninterp spec fn csv_written(records: Seq<Seq<Seq<char>>>, delimiter: u8) -> Seq<u8>;

pub open spec fn records_view(v: Seq<Vec<String>>) -> Seq<Seq<Seq<char>>> {
    v.map_values(|r: Vec<String>| r@.map_values(|f: String| f@))
}

/// `csv::Reader::headers` and then `records`, flexible, with the
/// delimiter: the header row and the records, or the reader's message (and
/// whether the header row failed). The message's text is not stated.
#[verifier::external_body]
fn read_records(b: &[u8], delimiter: u8) -> (r: Result<Vec<Vec<String>>, (bool, String)>)
    ensures
        match csv_read(b@, delimiter) {
            Some(rs) => r matches Ok(v) && records_view(v@) == rs,
            None => r is Err,
        },
{
    let mut rdr = csv::ReaderBuilder::new().delimiter(delimiter).flexible(true).has_headers(true).from_reader(b);
    let h = rdr.headers().map_err(|e| (true, e.to_string()))?;
    let mut out = vec![h.iter().map(|f| f.to_string()).collect::<Vec<String>>()];
    for rec in rdr.records() {
        out.push(rec.map_err(|e| (false, e.to_string()))?.iter().map(|f| f.to_string()).collect());
    }
    Ok(out)
}

/// All records have the same number of fields.
pub open spec fn uniform(rs: Seq<Seq<Seq<char>>>) -> bool {
    forall|i: int, j: int| 0 <= i < rs.len() && 0 <= j < rs.len() ==> #[trigger] rs[i].len() == #[trigger] rs[j].len()
}

/// `csv::Writer::write_record` for each record, then `into_inner`: the
/// bytes written, or the writer's message (whose text is not stated). The
/// writer, not flexible, fails only on records of unequal length; writing
/// into a `Vec` never fails otherwise.
#[verifier::external_body]
fn write_records(records: &Vec<Vec<String>>, delimiter: u8) -> (r: Result<Vec<u8>, String>)
    ensures
        uniform(records_view(records@)) ==> r is Ok,
        r matches Ok(b) ==> b@ == csv_written(records_view(records@), delimiter),
{
    let mut wtr = csv::WriterBuilder::new().delimiter(delimiter).from_writer(Vec::new());
    for rec in records.iter() {
        wtr.write_record(rec).map_err(|e| e.to_string())?;
    }
    wtr.into_inner().map_err(|e| e.to_string())
}

// ---------------------------------------------------------------------------
// Columns
// ---------------------------------------------------------------------------

pub open spec fn key_names() -> Seq<Seq<char>> {
    seq!["key"@, "id"@, "name"@, "identifier"@, "msgid"@, "string_id"@]
}

pub open spec fn comment_names() -> Seq<Seq<char>> {
    seq!["comment"@, "comments"@, "note"@, "notes"@, "description"@]
}

/// Locale codes that name a value column.
pub open spec fn locale_patterns() -> Seq<Seq<char>> {
    seq![
        "en"@, "de"@, "fr"@, "es"@, "it"@, "pt"@, "ja"@, "ko"@, "zh"@, "ru"@, "ar"@, "nl"@, "pl"@, "sv"@, "da"@,
        "fi"@, "nb"@, "tr"@, "th"@, "vi"@, "id"@, "ms"@, "hi"@, "bn"@, "uk"@, "cs"@, "ro"@, "hu"@, "el"@, "he"@,
        "ca"@, "hr"@, "sk"@, "sl"@, "bg"@, "sr"@, "lt"@, "lv"@, "et"@,
        "en-us"@, "en-gb"@, "en-au"@, "pt-br"@, "zh-cn"@, "zh-tw"@, "zh-hans"@, "zh-hant"@,
        "es-mx"@, "es-ar"@, "fr-ca"@, "fr-fr"@, "de-de"@, "de-at"@, "de-ch"@,
        "en_us"@, "en_gb"@, "pt_br"@, "zh_cn"@, "zh_tw"@,
    ]
}

fn key_names_exec() -> (v: Vec<&'static str>)
    ensures
        v@.map_values(|s: &'static str| s@) == key_names(),
{
    let v = vec!["key", "id", "name", "identifier", "msgid", "string_id"];
    assert(v@.map_values(|s: &'static str| s@) =~= key_names());
    v
}

fn comment_names_exec() -> (v: Vec<&'static str>)
    ensures
        v@.map_values(|s: &'static str| s@) == comment_names(),
{
    let v = vec!["comment", "comments", "note", "notes", "description"];
    assert(v@.map_values(|s: &'static str| s@) =~= comment_names());
    v
}

fn locale_patterns_exec() -> (v: Vec<&'static str>)
    ensures
        v@.map_values(|s: &'static str| s@) == locale_patterns(),
{
    let v = vec![
        "en", "de", "fr", "es", "it", "pt", "ja", "ko", "zh", "ru", "ar", "nl", "pl", "sv", "da",
        "fi", "nb", "tr", "th", "vi", "id", "ms", "hi", "bn", "uk", "cs", "ro", "hu", "el", "he",
        "ca", "hr", "sk", "sl", "bg", "sr", "lt", "lv", "et",
        "en-us", "en-gb", "en-au", "pt-br", "zh-cn", "zh-tw", "zh-hans", "zh-hant",
        "es-mx", "es-ar", "fr-ca", "fr-fr", "de-de", "de-at", "de-ch",
        "en_us", "en_gb", "pt_br", "zh_cn", "zh_tw",
    ];
    assert(v@.map_values(|s: &'static str| s@) =~= locale_patterns());
    v
}

/// Whether one of the names is `s`.
fn in_names(names: &Vec<&'static str>, s: &str) -> (b: bool)
    ensures
        b == names@.map_values(|x: &'static str| x@).contains(s@),
{
    let ghost nv = names@.map_values(|x: &'static str| x@);
    let mut i: usize = 0;
    while i < names.len()
        invariant
            i <= names@.len(),
            nv == names@.map_values(|x: &'static str| x@),
            forall|j: int| 0 <= j < i ==> nv[j] != s@,
        decreases names@.len() - i,
    {
        if str_eq(names[i], s) {
            assert(nv[i as int] == s@);
            return true;
        }
        i = i + 1;
    }
    false
}

/// Whether a column name is a locale code or a generic value name.
pub open spec fn spec_is_locale_column(name: Seq<char>) -> bool {
    let l = lowercase(name);
    locale_patterns().contains(l) || l == "value"@ || l == "text"@ || l == "translation"@ || l == "target"@
}

/// Check if a column name looks like a locale code.
pub fn is_locale_column(name: &str) -> (b: bool)
    ensures
        b == spec_is_locale_column(name@),
{
    let lower = to_lowercase(name);
    let l = lower.as_str();
    in_names(&locale_patterns_exec(), l) || str_eq(l, "value") || str_eq(l, "text") || str_eq(l, "translation") || str_eq(l, "target")
}

/// The first column from `i` whose lowercased, trimmed name is one of
/// `names`.
pub open spec fn find_named(hs: Seq<Seq<char>>, i: int, names: Seq<Seq<char>>) -> Option<int>
    decreases hs.len() - i,
{
    if i < 0 || i >= hs.len() {
        None
    } else if names.contains(trim(lowercase(hs[i]))) {
        Some(i)
    } else {
        find_named(hs, i + 1, names)
    }
}

/// The first column from `i` that is neither the key nor the comment column
/// and, when `locale_only`, is named by a locale or generic value name.
pub open spec fn find_value(hs: Seq<Seq<char>>, i: int, k: Option<int>, c: Option<int>, locale_only: bool) -> Option<int>
    decreases hs.len() - i,
{
    if i < 0 || i >= hs.len() {
        None
    } else if Some(i) != k && Some(i) != c && (!locale_only || spec_is_locale_column(trim(hs[i]))) {
        Some(i)
    } else {
        find_value(hs, i + 1, k, c, locale_only)
    }
}

/// The key, comment and value columns: a named key column (else the
/// first), a named comment column, and the first value column that looks
/// like one (else the first that is neither key nor comment).
pub open spec fn columns(hs: Seq<Seq<char>>) -> (int, Option<int>, Option<int>) {
    let k0 = find_named(hs, 0, key_names());
    let c = find_named(hs, 0, comment_names());
    let v0 = find_value(hs, 0, k0, c, true);
    let k = match k0 {
        Some(k) => k,
        None => 0,
    };
    let v = match v0 {
        Some(v) => Some(v),
        None => find_value(hs, 0, Some(k), c, false),
    };
    (k, c, v)
}

proof fn lemma_find_named(hs: Seq<Seq<char>>, i: int, names: Seq<Seq<char>>)
    requires
        0 <= i,
    ensures
        find_named(hs, i, names) matches Some(j) ==> i <= j < hs.len(),
    decreases hs.len() - i,
{
    if i < hs.len() && !names.contains(trim(lowercase(hs[i]))) {
        lemma_find_named(hs, i + 1, names);
    }
}

proof fn lemma_find_value(hs: Seq<Seq<char>>, i: int, k: Option<int>, c: Option<int>, locale_only: bool)
    requires
        0 <= i,
    ensures
        find_value(hs, i, k, c, locale_only) matches Some(j) ==> i <= j < hs.len(),
    decreases hs.len() - i,
{
    if i < hs.len() && !(Some(i) != k && Some(i) != c && (!locale_only || spec_is_locale_column(trim(hs[i])))) {
        lemma_find_value(hs, i + 1, k, c, locale_only);
    }
}

fn trimmed(s: &str) -> (r: String)
    ensures
        r@ == trim(s@),
{
    let c = str_chars(s);
    let t = trim_chars(c.as_slice());
    string_of(t.as_slice())
}

pub open spec fn strings_view(v: Seq<String>) -> Seq<Seq<char>> {
    v.map_values(|s: String| s@)
}

fn find_named_exec(hs: &Vec<String>, names: &Vec<&'static str>) -> (r: Option<usize>)
    ensures
        match find_named(strings_view(hs@), 0, names@.map_values(|x: &'static str| x@)) {
            Some(j) => r == Some(j as usize),
            None => r is None,
        },
{
    let ghost hv = strings_view(hs@);
    let ghost nv = names@.map_values(|x: &'static str| x@);
    let mut i: usize = 0;
    while i < hs.len()
        invariant
            i <= hs@.len(),
            hv == strings_view(hs@),
            nv == names@.map_values(|x: &'static str| x@),
            find_named(hv, 0, nv) == find_named(hv, i as int, nv),
        decreases hs@.len() - i,
    {
        let l = to_lowercase(hs[i].as_str());
        let t = trimmed(l.as_str());
        if in_names(names, t.as_str()) {
            return Some(i);
        }
        i = i + 1;
    }
    None
}

fn find_value_exec(hs: &Vec<String>, k: Option<usize>, c: Option<usize>, locale_only: bool) -> (r: Option<usize>)
    ensures
        match find_value(
            strings_view(hs@),
            0,
            match k {
                Some(x) => Some(x as int),
                None => None,
            },
            match c {
                Some(x) => Some(x as int),
                None => None,
            },
            locale_only,
        ) {
            Some(j) => r == Some(j as usize),
            None => r is None,
        },
{
    let ghost hv = strings_view(hs@);
    let ghost ki = match k {
        Some(x) => Some(x as int),
        None => None,
    };
    let ghost ci = match c {
        Some(x) => Some(x as int),
        None => None,
    };
    let mut i: usize = 0;
    while i < hs.len()
        invariant
            i <= hs@.len(),
            hv == strings_view(hs@),
            ki == (match k {
                Some(x) => Some(x as int),
                None => None,
            }),
            ci == (match c {
                Some(x) => Some(x as int),
                None => None,
            }),
            find_value(hv, 0, ki, ci, locale_only) == find_value(hv, i as int, ki, ci, locale_only),
        decreases hs@.len() - i,
    {
        let not_k = match k {
            Some(x) => x != i,
            None => true,
        };
        let not_c = match c {
            Some(x) => x != i,
            None => true,
        };
        if not_k && not_c {
            if !locale_only {
                return Some(i);
            }
            let t = trimmed(hs[i].as_str());
            if is_locale_column(t.as_str()) {
                return Some(i);
            }
        }
        i = i + 1;
    }
    None
}

// ---------------------------------------------------------------------------
// Reading
// ---------------------------------------------------------------------------

pub open spec fn has_bom_spec(b: Seq<u8>) -> bool {
    b.len() >= 3 && b[0] == 0xEFu8 && b[1] == 0xBBu8 && b[2] == 0xBFu8
}

pub open spec fn strip_bom_spec(b: Seq<u8>) -> Seq<u8> {
    if has_bom_spec(b) {
        b.skip(3)
    } else {
        b
    }
}

/// Check if content starts with a UTF-8 BOM.
pub fn has_bom(content: &[u8]) -> (b: bool)
    ensures
        b == has_bom_spec(content@),
{
    content.len() >= 3 && content[0] == 0xEFu8 && content[1] == 0xBBu8 && content[2] == 0xBFu8
}

/// Strip the UTF-8 BOM if present.
pub fn strip_bom(content: &[u8]) -> (r: &[u8])
    ensures
        r@ == strip_bom_spec(content@),
{
    if has_bom(content) {
        let r = vstd::slice::slice_subrange(content, 3, content.len());
        assert(r@ =~= content@.skip(3));
        r
    } else {
        content
    }
}

pub open spec fn count_char(s: Seq<char>, c: char) -> nat
    decreases s.len(),
{
    if s.len() == 0 {
        0
    } else {
        count_char(s.drop_last(), c) + if s.last() == c {
            1nat
        } else {
            0nat
        }
    }
}

/// Whether the first line has tabs and no commas.
pub open spec fn tab_delimited(s: Seq<char>) -> bool {
    lines(s).len() > 0 && count_char(lines(s)[0], '\t') > 0 && count_char(lines(s)[0], ',') == 0
}

/// Whether the line has a character `c`.
fn has_char(l: &Vec<char>, c: char) -> (b: bool)
    ensures
        b == (count_char(l@, c) > 0),
{
    let mut i: usize = 0;
    while i < l.len()
        invariant
            i <= l@.len(),
            count_char(l@.take(i as int), c) == 0,
        decreases l@.len() - i,
    {
        assert(l@.take(i + 1).drop_last() == l@.take(i as int));
        if l[i] == c {
            proof {
                lemma_count_char_pos(l@, i as int, c);
            }
            return true;
        }
        i = i + 1;
    }
    assert(l@.take(l@.len() as int) == l@);
    false
}

proof fn lemma_count_char_pos(s: Seq<char>, i: int, c: char)
    requires
        0 <= i < s.len(),
        s[i] == c,
    ensures
        count_char(s, c) > 0,
    decreases s.len(),
{
    if i < s.len() - 1 {
        lemma_count_char_pos(s.drop_last(), i, c);
    }
}

/// Detect the delimiter: a tab for `.tsv` or a first line with tabs and no
/// commas, else a comma.
pub fn detect_delimiter(content: &str, extension: &str) -> (d: u8)
    ensures
        d == (if extension@ == ".tsv"@ || tab_delimited(content@) {
            9u8
        } else {
            44u8
        }),
{
    if str_eq(extension, ".tsv") {
        return 9u8;
    }
    let c = str_chars(content);
    let ls = split_lines(c.as_slice());
    if ls.len() > 0 {
        assert(ls@[0]@ == lines(content@)[0]);
        if has_char(&ls[0], '\t') && !has_char(&ls[0], ',') {
            return 9u8;
        }
    }
    44u8
}

/// The field at `i` of a record, or the empty text past its end.
pub open spec fn field(r: Seq<Seq<char>>, i: int) -> Seq<char> {
    if 0 <= i < r.len() {
        r[i]
    } else {
        Seq::empty()
    }
}

/// The comment of a record: the trimmed comment field when it is not
/// empty.
pub open spec fn row_comment(r: Seq<Seq<char>>, c: Option<int>) -> Option<Seq<char>> {
    match c {
        Some(cc) => if 0 <= cc < r.len() && trim(r[cc]).len() > 0 {
            Some(trim(r[cc]))
        } else {
            None
        },
        None => None,
    }
}

/// The entries of the records: each with a non-empty trimmed key, under
/// that key, with its value and comment.
pub open spec fn rows(rs: Seq<Seq<Seq<char>>>, k: int, v: int, c: Option<int>) -> Seq<(Seq<char>, (Seq<char>, Option<Seq<char>>))>
    decreases rs.len(),
{
    if rs.len() == 0 {
        Seq::empty()
    } else {
        let prev = rows(rs.drop_last(), k, v, c);
        let r = rs.last();
        let key = trim(field(r, k));
        if key.len() == 0 {
            prev
        } else {
            map_insert(prev, key, (field(r, v), row_comment(r, c)))
        }
    }
}

pub open spec fn opt_texts(c: Option<Seq<char>>) -> Seq<Seq<char>> {
    match c {
        Some(t) => seq![t],
        None => Seq::empty(),
    }
}

pub open spec fn csv_entry(e: I18nEntry, x: (Seq<char>, Option<Seq<char>>)) -> bool {
    &&& e.value matches EntryValue::Simple(t) && t@ == x.0
    &&& general_comments(e.comments@, opt_texts(x.1))
    &&& I18nEntry::spec_bare(e)
    &&& e.format_ext is None
}

pub open spec fn csv_rel() -> spec_fn(I18nEntry, (Seq<char>, Option<Seq<char>>)) -> bool {
    |e: I18nEntry, x: (Seq<char>, Option<Seq<char>>)| csv_entry(e, x)
}

/// What reading a table gives, once its records are read.
pub open spec fn table_ok(r: Result<I18nResource, ParseError>, rs: Seq<Seq<Seq<char>>>, delimiter: u8, bom: bool) -> bool {
    let hs = if rs.len() > 0 {
        rs[0]
    } else {
        Seq::empty()
    };
    let (k, c, v) = columns(hs);
    if hs.len() == 0 {
        r matches Err(ParseError::InvalidFormat(m)) && m@ == "CSV file has no headers"@
    } else {
        match v {
            None => r matches Err(ParseError::InvalidFormat(m)) && m@ == "Could not determine value column"@,
            Some(v) => r matches Ok(res) && {
                let md = res.metadata;
                let vname = trim(hs[v]);
                &&& ResourceMetadata::spec_plain_except_ext(
                    ResourceMetadata { locale: None, ..md },
                    FormatId::Csv,
                )
                &&& opt_view(md.locale) == (if locale_patterns().contains(lowercase(vname)) {
                    Some(vname)
                } else {
                    None
                })
                &&& md.format_ext matches Some(FormatExtension::Csv(x)) && x.delimiter == Some(
                    if delimiter == 9u8 {
                        '\t'
                    } else {
                        ','
                    },
                ) && opt_view(x.key_column) == Some(trim(hs[k])) && opt_view(x.value_column) == Some(vname) && x.has_bom
                    == Some(bom)
                &&& pairs_model(entry_map_pairs(res.entries), rows(rs.skip(1), k, v, c), csv_rel())
            },
        }
    }
}

/// What reading bytes gives: an invalid-format error for text that is not
/// UTF-8 (after a byte order mark) or that `csv` cannot read, else the
/// table of the records, split at tabs when the first line has tabs and no
/// commas, else at commas.
pub open spec fn parse_ok(r: Result<I18nResource, ParseError>, content: Seq<u8>, extension: Seq<char>) -> bool {
    let clean = strip_bom_spec(content);
    if !valid_utf8(clean) {
        r matches Err(ParseError::InvalidFormat(_))
    } else {
        let d = if extension == ".tsv"@ || tab_delimited(decode_utf8(clean)) {
            9u8
        } else {
            44u8
        };
        match csv_read(clean, d) {
            None => r matches Err(ParseError::InvalidFormat(_)),
            Some(rs) => table_ok(r, rs, d, has_bom_spec(content)),
        }
    }
}

fn build_row_entry(key: String, value: String, comment: Option<String>) -> (e: I18nEntry)
    ensures
        csv_entry(e, (value@, opt_view(comment))),
        e.key == key,
{
    let mut e = I18nEntry::with_value(key, EntryValue::Simple(value));
    match comment {
        Some(t) => e.comments.push(general_comment(t)),
        None => {},
    }
    e
}

fn record_field(r: &Vec<String>, i: usize) -> (f: String)
    ensures
        f@ == field(strings_view(r@), i as int),
{
    if i < r.len() {
        r[i].clone()
    } else {
        String::new()
    }
}

/// Reads a table from its records.
pub fn parse_table(rs: &Vec<Vec<String>>, delimiter: u8, bom: bool) -> (r: Result<I18nResource, ParseError>)
    ensures
        table_ok(r, records_view(rs@), delimiter, bom),
{
    let ghost rv = records_view(rs@);
    if rs.len() == 0 || rs[0].len() == 0 {
        return Err(ParseError::InvalidFormat("CSV file has no headers".to_owned()));
    }
    let hs = &rs[0];
    let ghost hv = strings_view(hs@);
    assert(rv[0] == hv);
    let k0 = find_named_exec(hs, &key_names_exec());
    let c = find_named_exec(hs, &comment_names_exec());
    let v0 = find_value_exec(hs, k0, c, true);
    proof {
        lemma_find_named(hv, 0, key_names());
        lemma_find_named(hv, 0, comment_names());
    }
    let k = match k0 {
        Some(k) => k,
        None => 0,
    };
    let v = match v0 {
        Some(v) => v,
        None => match find_value_exec(hs, Some(k), c, false) {
            Some(v) => v,
            None => return Err(ParseError::InvalidFormat("Could not determine value column".to_owned())),
        },
    };
    proof {
        lemma_find_value(hv, 0, match k0 { Some(x) => Some(x as int), None => None }, match c { Some(x) => Some(x as int), None => None }, true);
        lemma_find_value(hv, 0, Some(k as int), match c { Some(x) => Some(x as int), None => None }, false);
    }
    let key_name = trimmed(hs[k].as_str());
    let value_name = trimmed(hs[v].as_str());
    let lower = to_lowercase(value_name.as_str());
    let locale = if in_names(&locale_patterns_exec(), lower.as_str()) {
        Some(value_name.clone())
    } else {
        None
    };
    let ghost ci = match c {
        Some(x) => Some(x as int),
        None => None,
    };
    let mut entries = entry_map_new();
    let mut i: usize = 1;
    assert(rv.skip(1).take(0) =~= Seq::<Seq<Seq<char>>>::empty());
    while i < rs.len()
        invariant
            1 <= i <= rs@.len(),
            rv == records_view(rs@),
            ci == (match c {
                Some(x) => Some(x as int),
                None => None,
            }),
            pairs_model(entry_map_pairs(entries), rows(rv.skip(1).take(i - 1), k as int, v as int, ci), csv_rel()),
        decreases rs@.len() - i,
    {
        let ghost before = rows(rv.skip(1).take(i - 1), k as int, v as int, ci);
        assert(rv.skip(1).take(i as int).drop_last() =~= rv.skip(1).take(i - 1));
        let row = &rs[i];
        assert(rv.skip(1).take(i as int).last() == strings_view(row@));
        let kf = record_field(row, k);
        let key = trimmed(kf.as_str());
        if !key.as_str().is_empty() {
            let value = record_field(row, v);
            let comment = match c {
                Some(cc) => {
                    if cc < row.len() {
                        let t = trimmed(row[cc].as_str());
                        if t.as_str().is_empty() {
                            None
                        } else {
                            Some(t)
                        }
                    } else {
                        None
                    }
                },
                None => None,
            };
            let ghost x = (value@, opt_view(comment));
            assert(x == (field(strings_view(row@), v as int), row_comment(strings_view(row@), ci)));
            let e = build_row_entry(key.clone(), value, comment);
            proof {
                lemma_pairs_model_insert(entry_map_pairs(entries), before, csv_rel(), key@, e, x);
            }
            entry_map_insert(&mut entries, key, e);
        }
        i = i + 1;
    }
    assert(rv.skip(1).take(rs@.len() - 1) =~= rv.skip(1));
    let mut metadata = ResourceMetadata::for_format(FormatId::Csv);
    metadata.locale = locale;
    metadata.format_ext = Some(FormatExtension::Csv(CsvExt {
        delimiter: Some(if delimiter == 9u8 { '\t' } else { ',' }),
        key_column: Some(key_name),
        value_column: Some(value_name),
        has_bom: Some(bom),
    }));
    Ok(I18nResource { metadata, entries })
}

/// Parses CSV content, the delimiter chosen by the extension and the first
/// line.
pub fn parse_csv(content: &[u8], extension: &str) -> (r: Result<I18nResource, ParseError>)
    ensures
        parse_ok(r, content@, extension@),
{
    let bom = has_bom(content);
    let clean = strip_bom(content);
    let text = match std::str::from_utf8(clean) {
        Ok(t) => t,
        Err(e) => return Err(ParseError::InvalidFormat(utf8_error_message(&e))),
    };
    let delimiter = detect_delimiter(text, extension);
    match read_records(clean, delimiter) {
        Ok(rs) => parse_table(&rs, delimiter, bom),
        Err((in_headers, m)) => {
            let mut msg = if in_headers {
                "Failed to read CSV headers: ".to_owned()
            } else {
                "CSV parse error: ".to_owned()
            };
            msg.append(m.as_str());
            Err(ParseError::InvalidFormat(msg))
        },
    }
}


// ---------------------------------------------------------------------------
// Writing
// ---------------------------------------------------------------------------

/// The single text written for a value: a simple text, the `other` form,
/// the items joined by `, `, the first case of a select, the pattern of a
/// multi-variable plural.
pub open spec fn csv_value(v: EntryValue) -> Seq<char> {
    match v {
        EntryValue::Simple(s) => s@,
        EntryValue::Plural(ps) => ps.other@,
        EntryValue::Array(a) => join(string_views(a@), ", "@),
        EntryValue::Select(ss) => if str_map_pairs(ss.cases).len() > 0 {
            str_map_pairs(ss.cases)[0].1
        } else {
            Seq::empty()
        },
        EntryValue::MultiVariablePlural(m) => m.pattern@,
    }
}

pub open spec fn or_default(o: Option<String>, d: Seq<char>) -> Seq<char> {
    match o {
        Some(s) => s@,
        None => d,
    }
}

/// The key and value column names and the delimiter: from the extension,
/// else `key`, the locale (or `value`) and a comma.
pub open spec fn write_columns(res: I18nResource) -> (Seq<char>, Seq<char>, u8) {
    match res.metadata.format_ext {
        Some(FormatExtension::Csv(x)) => (
            or_default(x.key_column, "key"@),
            or_default(x.value_column, "value"@),
            if x.delimiter == Some('\t') {
                9u8
            } else {
                44u8
            },
        ),
        _ => ("key"@, or_default(res.metadata.locale, "value"@), 44u8),
    }
}

pub open spec fn any_comments(ps: Seq<(Seq<char>, I18nEntry)>) -> bool
    decreases ps.len(),
{
    if ps.len() == 0 {
        false
    } else {
        any_comments(ps.drop_last()) || ps.last().1.comments@.len() > 0
    }
}

/// The record of an entry: its key, value and, with a comment column, its
/// first comment.
pub open spec fn entry_record(e: I18nEntry, with_comment: bool) -> Seq<Seq<char>> {
    if with_comment {
        seq![
            e.key@,
            csv_value(e.value),
            if e.comments@.len() > 0 {
                e.comments@[0].text@
            } else {
                Seq::empty()
            },
        ]
    } else {
        seq![e.key@, csv_value(e.value)]
    }
}

/// All records: the header row, then one per entry in order.
pub open spec fn table_records(res: I18nResource) -> Seq<Seq<Seq<char>>> {
    let ps = entry_map_pairs(res.entries);
    let (k, v, _d) = write_columns(res);
    let wc = any_comments(ps);
    seq![if wc {
        seq![k, v, "comment"@]
    } else {
        seq![k, v]
    }] + ps.map_values(|p: (Seq<char>, I18nEntry)| entry_record(p.1, wc))
}

fn csv_value_exec(v: &EntryValue) -> (r: String)
    ensures
        r@ == csv_value(*v),
{
    match v {
        EntryValue::Simple(s) => s.clone(),
        EntryValue::Plural(ps) => ps.other.clone(),
        EntryValue::Array(a) => join_strings(a, ", "),
        EntryValue::Select(ss) => match str_map_get_index(&ss.cases, 0) {
            Some((_k, val)) => val.clone(),
            None => String::new(),
        },
        EntryValue::MultiVariablePlural(m) => m.pattern.clone(),
    }
}

fn or_default_exec(o: &Option<String>, d: &str) -> (r: String)
    ensures
        r@ == or_default(*o, d@),
{
    match o {
        Some(s) => s.clone(),
        None => d.to_owned(),
    }
}

/// The records of the table of a resource.
pub fn records_of(resource: &I18nResource) -> (r: (Vec<Vec<String>>, u8))
    ensures
        records_view(r.0@) == table_records(*resource),
        r.1 == write_columns(*resource).2,
{
    let (k, v, d) = match &resource.metadata.format_ext {
        Some(FormatExtension::Csv(x)) => (
            or_default_exec(&x.key_column, "key"),
            or_default_exec(&x.value_column, "value"),
            match x.delimiter {
                Some(c) => if c == '\t' {
                    9u8
                } else {
                    44u8
                },
                None => 44u8,
            },
        ),
        _ => ("key".to_owned(), or_default_exec(&resource.metadata.locale, "value"), 44u8),
    };
    let ghost ps = entry_map_pairs(resource.entries);
    let n = entry_map_len(&resource.entries);
    let mut wc = false;
    let mut i: usize = 0;
    while i < n
        invariant
            i <= n,
            n == ps.len(),
            ps == entry_map_pairs(resource.entries),
            wc == any_comments(ps.take(i as int)),
        decreases n - i,
    {
        assert(ps.take(i + 1).drop_last() =~= ps.take(i as int));
        match entry_map_get_index(&resource.entries, i) {
            Some((_key, e)) => {
                wc = wc || e.comments.len() > 0;
            },
            None => {},
        }
        i = i + 1;
    }
    assert(ps.take(n as int) =~= ps);
    let mut header: Vec<String> = Vec::new();
    header.push(k);
    header.push(v);
    if wc {
        header.push("comment".to_owned());
    }
    let ghost hv = header@.map_values(|f: String| f@);
    assert((k@, v@, d) == write_columns(*resource));
    assert(hv =~= (if wc {
        seq![k@, v@, "comment"@]
    } else {
        seq![k@, v@]
    }));
    let mut recs: Vec<Vec<String>> = Vec::new();
    recs.push(header);
    let ghost f = |p: (Seq<char>, I18nEntry)| entry_record(p.1, wc);
    assert(records_view(recs@) =~= seq![hv] + ps.take(0).map_values(f));
    let mut j: usize = 0;
    while j < n
        invariant
            j <= n,
            n == ps.len(),
            ps == entry_map_pairs(resource.entries),
            f == (|p: (Seq<char>, I18nEntry)| entry_record(p.1, wc)),
            records_view(recs@) == seq![hv] + ps.take(j as int).map_values(f),
        decreases n - j,
    {
        match entry_map_get_index(&resource.entries, j) {
            Some((_key, e)) => {
                let mut rec: Vec<String> = Vec::new();
                rec.push(e.key.clone());
                rec.push(csv_value_exec(&e.value));
                if wc {
                    let c = if e.comments.len() > 0 {
                        e.comments[0].text.clone()
                    } else {
                        String::new()
                    };
                    rec.push(c);
                }
                assert(rec@.map_values(|x: String| x@) =~= entry_record(*e, wc));
                let ghost before = recs@;
                recs.push(rec);
                assert(records_view(recs@) =~= records_view(before).push(entry_record(*e, wc)));
                assert(ps.take(j + 1).map_values(f) =~= ps.take(j as int).map_values(f).push(f(ps[j as int])));
            },
            None => {},
        }
        j = j + 1;
    }
    assert(ps.take(n as int) =~= ps);
    (recs, d)
}

/// Writes the resource as a table with `csv`.
pub fn write_csv(resource: &I18nResource) -> (r: Result<Vec<u8>, WriteError>)
    ensures
        r matches Ok(b) ==> b@ == csv_written(table_records(*resource), write_columns(*resource).2),
        r is Ok,
        r matches Err(e) ==> e is Serialization,
{
    let (recs, d) = records_of(resource);
    proof {
        let rs = table_records(*resource);
        let ps = entry_map_pairs(resource.entries);
        let w: int = if any_comments(ps) { 3 } else { 2 };
        assert forall|i: int| 0 <= i < rs.len() implies (#[trigger] rs[i]).len() == w by {
            if i > 0 {
                assert(rs[i] == entry_record(ps[i - 1].1, any_comments(ps)));
            }
        }
        assert(uniform(rs));
    }
    match write_records(&recs, d) {
        Ok(b) => Ok(b),
        Err(m) => {
            let mut msg = "CSV write error: ".to_owned();
            msg.append(m.as_str());
            Err(WriteError::Serialization(msg))
        },
    }
}

// ---------------------------------------------------------------------------
// The format
// ---------------------------------------------------------------------------

pub open spec fn any_contains(l: Seq<char>, names: Seq<Seq<char>>) -> bool {
    exists|i: int| 0 <= i < names.len() && contains(l, #[trigger] names[i])
}

/// `.csv` and `.tsv` are likely; other text whose first line, lowercased,
/// holds a key column name is possible.
pub open spec fn spec_detect(extension: Seq<char>, content: Seq<u8>) -> Confidence {
    let clean = strip_bom_spec(content);
    if extension == ".csv"@ || extension == ".tsv"@ {
        Confidence::High
    } else if valid_utf8(clean) && lines(decode_utf8(clean)).len() > 0 && any_contains(
        lowercase(lines(decode_utf8(clean))[0]),
        key_names(),
    ) {
        Confidence::Low
    } else {
        Confidence::NoMatch
    }
}

pub open spec fn capabilities_spec() -> FormatCapabilities {
    FormatCapabilities {
        plurals: false,
        arrays: false,
        comments: true,
        context: false,
        source_string: false,
        translatable_flag: false,
        translation_state: false,
        max_width: false,
        device_variants: false,
        select_gender: false,
        nested_keys: true,
        inline_markup: false,
        alternatives: false,
        source_references: false,
        custom_properties: false,
    }
}

impl Parser {
    pub fn detect(&self, extension: &str, content: &[u8]) -> (c: Confidence)
        ensures
            c == spec_detect(extension@, content@),
    {
        if str_eq(extension, ".csv") || str_eq(extension, ".tsv") {
            return Confidence::High;
        }
        match std::str::from_utf8(strip_bom(content)) {
            Ok(s) => {
                let c = str_chars(s);
                let ls = split_lines(c.as_slice());
                if ls.len() > 0 {
                    assert(ls@[0]@ == lines(s@)[0]);
                    let first = string_of(ls[0].as_slice());
                    let lower = to_lowercase(first.as_str());
                    let lc = str_chars(lower.as_str());
                    let names = key_names_exec();
                    let ghost nv = names@.map_values(|x: &'static str| x@);
                    let mut i: usize = 0;
                    while i < names.len()
                        invariant
                            i <= names@.len(),
                            nv == names@.map_values(|x: &'static str| x@),
                            nv == key_names(),
                            lines(s@).len() > 0,
                            valid_utf8(strip_bom_spec(content@)),
                            s@ == decode_utf8(strip_bom_spec(content@)),
                            !(extension@ == ".csv"@ || extension@ == ".tsv"@),
                            lc@ == lowercase(lines(s@)[0]),
                            forall|j: int| 0 <= j < i ==> !contains(lc@, #[trigger] nv[j]),
                        decreases names@.len() - i,
                    {
                        let nc = str_chars(names[i]);
                        if chars_contain(lc.as_slice(), nc.as_slice()) {
                            assert(contains(lowercase(lines(s@)[0]), key_names()[i as int]));
                            return Confidence::Low;
                        }
                        i = i + 1;
                    }
                    assert(!any_contains(lowercase(lines(s@)[0]), key_names()));
                }
                Confidence::NoMatch
            },
            Err(_) => Confidence::NoMatch,
        }
    }

    /// Parses a table, split at tabs when the first line has tabs and no
    /// commas, else at commas.
    pub fn parse(&self, content: &[u8]) -> (r: Result<I18nResource, ParseError>)
        ensures
            parse_ok(r, content@, ".csv"@),
    {
        let extension = match std::str::from_utf8(strip_bom(content)) {
            Ok(s) => {
                if detect_delimiter(s, ".csv") == 9u8 {
                    ".tsv"
                } else {
                    ".csv"
                }
            },
            Err(_) => ".csv",
        };
        proof {
            reveal_strlit(".csv");
            reveal_strlit(".tsv");
        }
        parse_csv(content, extension)
    }

    pub fn capabilities(&self) -> (c: FormatCapabilities)
        ensures
            c == capabilities_spec(),
    {
        FormatCapabilities {
            plurals: false,
            arrays: false,
            comments: true,
            context: false,
            source_string: false,
            translatable_flag: false,
            translation_state: false,
            max_width: false,
            device_variants: false,
            select_gender: false,
            nested_keys: true,
            inline_markup: false,
            alternatives: false,
            source_references: false,
            custom_properties: false,
        }
    }
}

impl Writer {
    pub fn write(&self, resource: &I18nResource) -> (r: Result<Vec<u8>, WriteError>)
        ensures
            r matches Ok(b) ==> b@ == csv_written(table_records(*resource), write_columns(*resource).2),
            r is Ok,
        r matches Err(e) ==> e is Serialization,
    {
        write_csv(resource)
    }

    pub fn capabilities(&self) -> (c: FormatCapabilities)
        ensures
            c == capabilities_spec(),
    {
        Parser.capabilities()
    }
}

impl super::FormatParser for Parser {
    fn detect(&self, extension: &str, content: &[u8]) -> (c: Confidence)
        ensures
            c == spec_detect(extension@, content@),
    {
        Parser::detect(self, extension, content)
    }

    fn parse(&self, content: &[u8]) -> (r: Result<I18nResource, ParseError>)
        ensures
            parse_ok(r, content@, ".csv"@),
    {
        Parser::parse(self, content)
    }

    fn capabilities(&self) -> (c: FormatCapabilities)
        ensures
            c == capabilities_spec(),
    {
        Parser::capabilities(self)
    }
}

impl super::FormatWriter for Writer {
    fn write(&self, resource: &I18nResource) -> (r: Result<Vec<u8>, WriteError>)
        ensures
            r matches Ok(b) ==> b@ == csv_written(table_records(*resource), write_columns(*resource).2),
            r is Ok,
        r matches Err(e) ==> e is Serialization,
    {
        Writer::write(self, resource)
    }

    fn capabilities(&self) -> (c: FormatCapabilities)
        ensures
            c == capabilities_spec(),
    {
        Writer::capabilities(self)
    }
}

} // verus!
