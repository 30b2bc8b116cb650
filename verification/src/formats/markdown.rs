//! Markdown documents: each heading opens an entry keyed by the path of
//! headings above it, whose value is the text below it.
use vstd::prelude::*;
use indexmap::IndexMap;
use crate::collections::{
    entry_map_pairs, entry_map_new, entry_map_insert, map_insert, pairs_model, lemma_pairs_model_insert,
    entry_map_len, entry_map_get_index, str_map_pairs,
};
use crate::ir::{
    I18nResource, I18nEntry, ResourceMetadata, FormatId, EntryValue, FormatCapabilities, FormatExtension, MarkdownExt,
};
use crate::text::{
    str_chars, string_of, trim, trim_start, trim_end, trim_chars, trim_start_chars, lines, split_lines,
    utf8_error_message, str_eq, chars_range, string_views, join, join_strings, starts_with, chars_start_with,
    find_pat, find_pat_from, lemma_find_pat, index_of, find_char, lemma_index_of, split_char, split_at_char,
    is_whitespace, is_ws, contains, chars_contain, alphanumeric, is_alphanumeric, lower_first, char_lower_first,
    upper, char_upper, lowercase, to_lowercase, push_chars,
};
use vstd::utf8::{valid_utf8, decode_utf8, encode_utf8};
use super::srt::is_blank;
use super::plain_text::trim_nl_end;
use super::{Confidence, ParseError, WriteError, opt_view, text_entry, text_rel, text_entry_exec, other_text, other_text_exec};

verus! {

pub struct Parser;

pub struct Writer;

// ---------------------------------------------------------------------------
// Headings
// ---------------------------------------------------------------------------

/// Building a key from heading text: the key so far and whether a
/// separator came since its last character.
pub open spec fn key_fold(s: Seq<char>) -> (Seq<char>, bool)
    decreases s.len(),
{
    if s.len() == 0 {
        (Seq::empty(), false)
    } else {
        let (r, sep) = key_fold(s.drop_last());
        let c = s.last();
        if alphanumeric(c) {
            ((if sep && r.len() > 0 { r.push('-') } else { r }).push(lower_first(c)), false)
        } else if c == ' ' || c == '_' || c == '-' {
            (r, true)
        } else {
            (r, sep)
        }
    }
}

/// The key of a heading: its letters and digits in lowercase, a `-` where
/// spaces, `_` or `-` separated them; other characters dropped.
pub open spec fn heading_key(text: Seq<char>) -> Seq<char> {
    key_fold(text).0
}

/// Converts heading text to a kebab-case key segment.
pub fn heading_to_key(text: &str) -> (r: String)
    ensures
        r@ == heading_key(text@),
{
    let c = str_chars(text);
    let mut out = String::new();
    let mut sep = false;
    let mut i: usize = 0;
    while i < c.len()
        invariant
            i <= c@.len(),
            c@ == text@,
            key_fold(c@.take(i as int)) == (out@, sep),
        decreases c@.len() - i,
    {
        assert(c@.take(i + 1).drop_last() == c@.take(i as int));
        let ch = c[i];
        if is_alphanumeric(ch) {
            if sep && !out.as_str().is_empty() {
                out.push('-');
            }
            out.push(char_lower_first(ch));
            sep = false;
        } else if ch == ' ' || ch == '_' || ch == '-' {
            sep = true;
        }
        i = i + 1;
    }
    assert(c@.take(c@.len() as int) == c@);
    out
}

/// How many `c` characters `s` holds from index `i` on without a break.
pub open spec fn run_from(s: Seq<char>, c: char, i: int) -> nat
    decreases s.len() - i,
{
    if 0 <= i < s.len() && s[i] == c {
        1 + run_from(s, c, i + 1)
    } else {
        0
    }
}

fn count_run(s: &[char], c: char) -> (n: usize)
    ensures
        n == run_from(s@, c, 0),
        n <= s@.len(),
{
    let mut i: usize = 0;
    while i < s.len() && s[i] == c
        invariant
            i <= s@.len(),
            run_from(s@, c, 0) == i + run_from(s@, c, i as int),
        decreases s@.len() - i,
    {
        i = i + 1;
    }
    i
}

/// A heading line: after leading white space one to six `#`, then nothing
/// or a space; its level and its text trimmed.
pub open spec fn spec_heading(line: Seq<char>) -> Option<(nat, Seq<char>)> {
    let t = trim_start(line);
    let n = run_from(t, '#', 0);
    if n == 0 || n > 6 {
        None
    } else {
        let rest = t.skip(n as int);
        if rest.len() > 0 && rest[0] != ' ' {
            None
        } else {
            Some((n, trim(rest)))
        }
    }
}

/// Reads a heading line: its level and text.
fn parse_heading_line(line: &[char]) -> (r: Option<(usize, Vec<char>)>)
    ensures
        match spec_heading(line@) {
            Some((n, t)) => r matches Some((rn, rt)) && rn == n && rt@ == t,
            None => r is None,
        },
{
    let t = trim_start_chars(line);
    let n = count_run(t.as_slice(), '#');
    if n == 0 || n > 6 {
        return None;
    }
    let rest = chars_range(t.as_slice(), n, t.len());
    assert(rest@ == t@.skip(n as int));
    if rest.len() > 0 && rest[0] != ' ' {
        return None;
    }
    Some((n, trim_chars(rest.as_slice())))
}

// ---------------------------------------------------------------------------
// Front matter
// ---------------------------------------------------------------------------

/// `s` without its leading `c` characters.
pub open spec fn skip_run(s: Seq<char>, c: char) -> Seq<char> {
    s.skip(run_from(s, c, 0) as int)
}

proof fn lemma_run_bound(s: Seq<char>, c: char, i: int)
    requires
        0 <= i <= s.len(),
    ensures
        i + run_from(s, c, i) <= s.len(),
    decreases s.len() - i,
{
    if i < s.len() && s[i] == c {
        lemma_run_bound(s, c, i + 1);
    }
}

/// The front matter of a document and the text after it. A document whose
/// text, after leading white space, starts with `---` has front matter when
/// a later line starts with `---`: the text between the two (the dashes of
/// the first line and the new lines after them left out, trailing white
/// space trimmed); the text after it starts on the line after the closing
/// one. Any other document has none, and all of it is the text.
pub open spec fn spec_front_matter(content: Seq<char>) -> (Option<Seq<char>>, Seq<char>) {
    let t = trim_start(content);
    if !starts_with(t, "---"@) {
        (None, content)
    } else {
        let a = skip_run(t.skip(3), '-');
        match find_pat(a, "\n---"@, 0) {
            None => (None, content),
            Some(p) => {
                let fm = trim_end(skip_run(a.take(p), '\n'));
                let after = a.skip(p + 1);
                let rest = match index_of(after, '\n') {
                    Some(q) => after.skip(q + 1),
                    None => Seq::empty(),
                };
                (Some(fm), rest)
            },
        }
    }
}

fn trim_end_chars(s: &[char]) -> (r: Vec<char>)
    ensures
        r@ == trim_end(s@),
{
    let mut n: usize = s.len();
    assert(s@.take(n as int) == s@);
    while n > 0 && is_whitespace(s[n - 1])
        invariant
            n <= s@.len(),
            trim_end(s@.take(n as int)) == trim_end(s@),
        decreases n,
    {
        assert(s@.take(n as int).drop_last() == s@.take(n - 1));
        n = n - 1;
    }
    let r = chars_range(s, 0, n);
    assert(r@ == s@.take(n as int));
    r
}

fn skip_run_chars(s: &[char], c: char) -> (r: Vec<char>)
    ensures
        r@ == skip_run(s@, c),
{
    let n = count_run(s, c);
    let r = chars_range(s, n, s.len());
    assert(r@ == s@.skip(n as int));
    r
}

/// Splits off the front matter delimited by `---` lines.
fn extract_front_matter(content: &[char]) -> (r: (Option<String>, Vec<char>))
    ensures
        opt_view(r.0) == spec_front_matter(content@).0,
        r.1@ == spec_front_matter(content@).1,
{
    let t = trim_start_chars(content);
    let dashes = str_chars("---");
    proof {
        reveal_strlit("---");
    }
    if !chars_start_with(t.as_slice(), dashes.as_slice()) {
        return (None, chars_range(content, 0, content.len()));
    }
    let t3 = chars_range(t.as_slice(), 3, t.len());
    assert(t3@ == t@.skip(3));
    let a = skip_run_chars(t3.as_slice(), '-');
    let close = str_chars("\n---");
    proof {
        reveal_strlit("\n---");
        lemma_find_pat(a@, close@, 0);
        assert(close@.len() == 4);
    }
    match find_pat_from(a.as_slice(), close.as_slice(), 0) {
        None => (None, chars_range(content, 0, content.len())),
        Some(p) => {
            assert(p + close@.len() <= a@.len());
            assert(p + 1 <= a.len());
            let head = chars_range(a.as_slice(), 0, p);
            assert(head@ == a@.take(p as int));
            let fm = trim_end_chars(skip_run_chars(head.as_slice(), '\n').as_slice());
            let after = chars_range(a.as_slice(), p + 1, a.len());
            assert(after@ == a@.skip(p + 1));
            proof {
                lemma_index_of(after@, '\n');
            }
            let rest = match find_char(after.as_slice(), '\n') {
                Some(q) => {
                    let r = chars_range(after.as_slice(), q + 1, after.len());
                    assert(r@ == after@.skip(q + 1));
                    r
                },
                None => Vec::new(),
            };
            (Some(string_of(fm.as_slice())), rest)
        },
    }
}

/// The locale named in front matter: the first line that, trimmed, starts
/// with `locale:`, and what follows, trimmed.
pub open spec fn locale_in(ls: Seq<Seq<char>>) -> Option<Seq<char>>
    decreases ls.len(),
{
    if ls.len() == 0 {
        None
    } else if starts_with(trim(ls[0]), "locale:"@) {
        Some(trim(trim(ls[0]).skip(7)))
    } else {
        locale_in(ls.drop_first())
    }
}

fn front_matter_locale(fm: &String) -> (r: Option<String>)
    ensures
        opt_view(r) == locale_in(lines(fm@)),
{
    let c = str_chars(fm.as_str());
    let ls = split_lines(c.as_slice());
    let ghost lv = ls@.map_values(|l: Vec<char>| l@);
    let key = str_chars("locale:");
    proof {
        reveal_strlit("locale:");
    }
    let mut i: usize = 0;
    assert(lv.skip(0) == lv);
    while i < ls.len()
        invariant
            i <= ls@.len(),
            lv == ls@.map_values(|l: Vec<char>| l@),
            lv == lines(fm@),
            key@ == "locale:"@,
            key@.len() == 7,
            locale_in(lv) == locale_in(lv.skip(i as int)),
        decreases ls@.len() - i,
    {
        assert(lv.skip(i as int)[0] == ls@[i as int]@);
        assert(lv.skip(i as int).drop_first() == lv.skip(i + 1));
        let t = trim_chars(ls[i].as_slice());
        if chars_start_with(t.as_slice(), key.as_slice()) {
            let r = chars_range(t.as_slice(), 7, t.len());
            assert(r@ == t@.skip(7));
            return Some(string_of(trim_chars(r.as_slice()).as_slice()));
        }
        i = i + 1;
    }
    None
}

// ---------------------------------------------------------------------------
// Section text
// ---------------------------------------------------------------------------

/// The index of the first line from `i` on that is not blank.
pub open spec fn first_text(ls: Seq<Seq<char>>, i: int) -> int
    decreases ls.len() - i,
{
    if 0 <= i < ls.len() && is_blank(ls[i]) {
        first_text(ls, i + 1)
    } else {
        i
    }
}

/// The end of the lines from `s` to `e` without their trailing blank lines.
pub open spec fn text_end(ls: Seq<Seq<char>>, s: int, e: int) -> int
    decreases e,
{
    if e > s && 0 < e <= ls.len() && is_blank(ls[e - 1]) {
        text_end(ls, s, e - 1)
    } else {
        e
    }
}

/// Joining lines into paragraphs: the text so far and whether a blank line
/// came since its last line. Lines follow each other after a new line,
/// paragraphs after a blank line.
pub open spec fn para_fold(ls: Seq<Seq<char>>) -> (Seq<char>, bool)
    decreases ls.len(),
{
    if ls.len() == 0 {
        (Seq::empty(), false)
    } else {
        let (r, blank) = para_fold(ls.drop_last());
        let l = ls.last();
        if is_blank(l) {
            (r, true)
        } else {
            let sep = if ls.len() > 1 {
                if blank { "\n\n"@ } else { "\n"@ }
            } else {
                Seq::empty()
            };
            (r + sep + l, false)
        }
    }
}

/// The text of a section: its lines without leading and trailing blank
/// lines, each run of blank lines inside made one empty line.
pub open spec fn section_text(ls: Seq<Seq<char>>) -> Seq<char> {
    let s = first_text(ls, 0);
    let e = text_end(ls, s, ls.len() as int);
    if s >= e {
        Seq::empty()
    } else {
        para_fold(ls.subrange(s, e)).0
    }
}

proof fn lemma_first_text(ls: Seq<Seq<char>>, i: int)
    requires
        0 <= i <= ls.len(),
    ensures
        i <= first_text(ls, i) <= ls.len(),
    decreases ls.len() - i,
{
    if i < ls.len() && is_blank(ls[i]) {
        lemma_first_text(ls, i + 1);
    }
}

proof fn lemma_text_end(ls: Seq<Seq<char>>, s: int, e: int)
    requires
        0 <= s <= e <= ls.len(),
    ensures
        s <= text_end(ls, s, e) <= e,
    decreases e,
{
    if e > s && 0 < e && is_blank(ls[e - 1]) {
        lemma_text_end(ls, s, e - 1);
    }
}

fn is_blank_str(l: &String) -> (r: bool)
    ensures
        r == is_blank(l@),
{
    let c = str_chars(l.as_str());
    trim_chars(c.as_slice()).len() == 0
}

/// Joins a section's lines into its value.
fn finalize_content(ls: &Vec<String>) -> (r: String)
    ensures
        r@ == section_text(string_views(ls@)),
{
    let ghost lv = string_views(ls@);
    let mut start: usize = 0;
    while start < ls.len() && is_blank_str(&ls[start])
        invariant
            start <= ls@.len(),
            lv == string_views(ls@),
            first_text(lv, 0) == first_text(lv, start as int),
        decreases ls@.len() - start,
    {
        assert(lv[start as int] == ls@[start as int]@);
        start = start + 1;
    }
    proof {
        if start < ls.len() {
            assert(lv[start as int] == ls@[start as int]@);
        }
    }
    let mut end: usize = ls.len();
    while end > start && is_blank_str(&ls[end - 1])
        invariant
            start <= end <= ls@.len(),
            lv == string_views(ls@),
            first_text(lv, 0) == start,
            text_end(lv, start as int, ls@.len() as int) == text_end(lv, start as int, end as int),
        decreases end,
    {
        assert(lv[end - 1] == ls@[end - 1]@);
        end = end - 1;
    }
    proof {
        if end > start {
            assert(lv[end - 1] == ls@[end - 1]@);
        }
    }
    if start >= end {
        return String::new();
    }
    let ghost sub = lv.subrange(start as int, end as int);
    let mut out = String::new();
    let mut blank = false;
    let mut i: usize = start;
    assert(sub.take(0) == Seq::<Seq<char>>::empty());
    while i < end
        invariant
            start <= i <= end <= ls@.len(),
            lv == string_views(ls@),
            sub == lv.subrange(start as int, end as int),
            para_fold(sub.take(i - start)) == (out@, blank),
        decreases end - i,
    {
        assert(sub.take(i - start + 1).drop_last() == sub.take(i - start));
        assert(sub.take(i - start + 1).last() == ls@[i as int]@);
        if is_blank_str(&ls[i]) {
            blank = true;
        } else {
            if i > start {
                if blank {
                    out.append("\n\n");
                } else {
                    out.append("\n");
                }
            }
            out.append(ls[i].as_str());
            blank = false;
        }
        proof {
            reveal_strlit("\n\n");
            reveal_strlit("\n");
        }
        i = i + 1;
    }
    assert(sub.take(end - start) == sub);
    out
}

// ---------------------------------------------------------------------------
// Reading
// ---------------------------------------------------------------------------

/// The entries read so far: each key with its key and text.
pub type MdEntries = Seq<(Seq<char>, (Seq<char>, Seq<char>))>;

/// Closing the section under `key` with the lines `cur`: its entry is
/// added when its text is not empty.
pub open spec fn flush(es: MdEntries, cur: Seq<Seq<char>>, key: Option<Seq<char>>) -> MdEntries {
    match key {
        Some(k) => if section_text(cur).len() > 0 {
            map_insert(es, k, (k, section_text(cur)))
        } else {
            es
        },
        None => es,
    }
}

/// The open headings without those at `level` or deeper.
pub open spec fn pop_levels(stack: Seq<(nat, Seq<char>)>, level: nat) -> Seq<(nat, Seq<char>)>
    decreases stack.len(),
{
    if stack.len() > 0 && stack.last().0 >= level {
        pop_levels(stack.drop_last(), level)
    } else {
        stack
    }
}

/// The keys of the open headings above `level`, outermost first, up to the
/// first that is not above it.
pub open spec fn parent_keys(stack: Seq<(nat, Seq<char>)>, level: nat) -> Seq<Seq<char>>
    decreases stack.len(),
{
    if stack.len() == 0 || stack[0].0 >= level {
        Seq::empty()
    } else {
        seq![stack[0].1] + parent_keys(stack.drop_first(), level)
    }
}

/// Reading a document: the entries, the open headings with their levels
/// and keys, the lines of the current section and its key.
pub type MdState = (MdEntries, Seq<(nat, Seq<char>)>, Seq<Seq<char>>, Option<Seq<char>>);

/// A heading closes the current section and opens one keyed by the keys of
/// the open headings above it and its own, joined by dots; any other line
/// belongs to the current section (lines before the first heading are kept
/// for it).
pub open spec fn md_step(st: MdState, line: Seq<char>) -> MdState {
    match spec_heading(line) {
        Some((level, text)) => {
            let stack = pop_levels(st.1, level);
            let seg = heading_key(text);
            (
                flush(st.0, st.2, st.3),
                stack.push((level, seg)),
                if st.3 is Some { Seq::empty() } else { st.2 },
                Some(join(parent_keys(stack, level).push(seg), "."@)),
            )
        },
        None => (st.0, st.1, st.2.push(line), st.3),
    }
}

pub open spec fn md_fold(ls: Seq<Seq<char>>) -> MdState
    decreases ls.len(),
{
    if ls.len() == 0 {
        (Seq::empty(), Seq::empty(), Seq::empty(), None)
    } else {
        md_step(md_fold(ls.drop_last()), ls.last())
    }
}

/// The entries of a document body.
pub open spec fn md_entries(body: Seq<char>) -> MdEntries {
    let st = md_fold(lines(body));
    flush(st.0, st.2, st.3)
}

/// What a resource read from Markdown holds: the front matter and the
/// locale it names, and the entries of the body.
pub open spec fn parsed_resource(res: I18nResource, text: Seq<char>) -> bool {
    let (fm, body) = spec_front_matter(text);
    &&& ResourceMetadata::spec_plain_but_locale(res.metadata, FormatId::Markdown)
    &&& opt_view(res.metadata.locale) == (match fm {
        Some(f) => locale_in(lines(f)),
        None => None,
    })
    &&& res.metadata.format_ext matches Some(FormatExtension::Markdown(x)) && opt_view(x.front_matter) == fm
    &&& pairs_model(entry_map_pairs(res.entries), md_entries(body), text_rel())
}

pub open spec fn stack_view(v: Seq<(usize, String)>) -> Seq<(nat, Seq<char>)> {
    v.map_values(|p: (usize, String)| (p.0 as nat, p.1@))
}

fn flush_section(
    entries: &mut IndexMap<String, I18nEntry>,
    cur: &Vec<String>,
    key: &Option<String>,
    Ghost(m): Ghost<MdEntries>,
)
    requires
        pairs_model(entry_map_pairs(*old(entries)), m, text_rel()),
    ensures
        pairs_model(entry_map_pairs(*final(entries)), flush(m, string_views(cur@), opt_view(*key)), text_rel()),
{
    match key {
        Some(k) => {
            let v = finalize_content(cur);
            if !v.as_str().is_empty() {
                let e = text_entry_exec(k.clone(), v.clone());
                proof {
                    lemma_pairs_model_insert(entry_map_pairs(*entries), m, text_rel(), k@, e, (k@, v@));
                }
                entry_map_insert(entries, k.clone(), e);
            }
        },
        None => {},
    }
}

fn pop_levels_exec(stack: &mut Vec<(usize, String)>, level: usize)
    ensures
        stack_view(final(stack)@) == pop_levels(stack_view(old(stack)@), level as nat),
{
    let ghost orig = stack_view(stack@);
    while stack.len() > 0 && stack[stack.len() - 1].0 >= level
        invariant
            pop_levels(stack_view(stack@), level as nat) == pop_levels(orig, level as nat),
        decreases stack@.len(),
    {
        let ghost before = stack_view(stack@);
        assert(before.last() == (stack@.last().0 as nat, stack@.last().1@));
        stack.pop();
        assert(stack_view(stack@) == before.drop_last());
    }
}

fn section_key(stack: &Vec<(usize, String)>, level: usize, seg: &String) -> (r: String)
    ensures
        r@ == join(parent_keys(stack_view(stack@), level as nat).push(seg@), "."@),
{
    let ghost sv = stack_view(stack@);
    let mut parts: Vec<String> = Vec::new();
    let mut i: usize = 0;
    assert(sv.skip(0) == sv);
    while i < stack.len() && stack[i].0 < level
        invariant
            i <= stack@.len(),
            sv == stack_view(stack@),
            parent_keys(sv, level as nat) == string_views(parts@) + parent_keys(sv.skip(i as int), level as nat),
        decreases stack@.len() - i,
    {
        assert(sv.skip(i as int)[0] == sv[i as int]);
        assert(sv.skip(i as int).drop_first() == sv.skip(i + 1));
        let ghost before = string_views(parts@);
        parts.push(stack[i].1.clone());
        assert(string_views(parts@) == before.push(sv[i as int].1));
        assert(before.push(sv[i as int].1) + parent_keys(sv.skip(i + 1), level as nat) == before + (seq![sv[i as int].1]
            + parent_keys(sv.skip(i + 1), level as nat)));
        i = i + 1;
    }
    proof {
        if i < stack.len() {
            assert(sv.skip(i as int)[0] == sv[i as int]);
        }
        assert(string_views(parts@) + parent_keys(sv.skip(i as int), level as nat) == string_views(parts@));
    }
    let ghost before = string_views(parts@);
    parts.push(seg.clone());
    assert(string_views(parts@) == before.push(seg@));
    let dot = ".";
    proof {
        reveal_strlit(".");
    }
    join_strings(&parts, dot)
}

/// Parses a Markdown document.
pub fn parse_markdown(text: &str) -> (res: I18nResource)
    ensures
        parsed_resource(res, text@),
{
    let c = str_chars(text);
    let (front_matter, body) = extract_front_matter(c.as_slice());
    let locale = match &front_matter {
        Some(fm) => front_matter_locale(fm),
        None => None,
    };
    let ls = split_lines(body.as_slice());
    let ghost lv = ls@.map_values(|l: Vec<char>| l@);
    let mut entries = entry_map_new();
    let mut stack: Vec<(usize, String)> = Vec::new();
    let mut cur: Vec<String> = Vec::new();
    let mut key: Option<String> = None;
    let mut i: usize = 0;
    assert(lv.take(0) == Seq::<Seq<char>>::empty());
    while i < ls.len()
        invariant
            i <= ls@.len(),
            lv == ls@.map_values(|l: Vec<char>| l@),
            lv == lines(body@),
            md_fold(lv.take(i as int)).1 == stack_view(stack@),
            md_fold(lv.take(i as int)).2 == string_views(cur@),
            md_fold(lv.take(i as int)).3 == opt_view(key),
            pairs_model(entry_map_pairs(entries), md_fold(lv.take(i as int)).0, text_rel()),
        decreases ls@.len() - i,
    {
        assert(lv.take(i + 1).drop_last() == lv.take(i as int));
        assert(lv.take(i + 1).last() == ls@[i as int]@);
        let ghost st = md_fold(lv.take(i as int));
        match parse_heading_line(ls[i].as_slice()) {
            Some((level, htext)) => {
                flush_section(&mut entries, &cur, &key, Ghost(st.0));
                if key.is_some() {
                    cur = Vec::new();
                    assert(string_views(cur@) == Seq::<Seq<char>>::empty());
                }
                pop_levels_exec(&mut stack, level);
                let seg = heading_to_key(string_of(htext.as_slice()).as_str());
                let full = section_key(&stack, level, &seg);
                let ghost before = stack_view(stack@);
                stack.push((level, seg));
                assert(stack_view(stack@) == before.push((level as nat, seg@)));
                key = Some(full);
            },
            None => {
                let ghost before = string_views(cur@);
                let l = string_of(ls[i].as_slice());
                cur.push(l);
                assert(string_views(cur@) == before.push(l@));
            },
        }
        i = i + 1;
    }
    assert(lv.take(ls@.len() as int) == lv);
    let ghost st = md_fold(lv);
    flush_section(&mut entries, &cur, &key, Ghost(st.0));
    let mut metadata = ResourceMetadata::for_format(FormatId::Markdown);
    metadata.locale = locale;
    metadata.format_ext = Some(FormatExtension::Markdown(MarkdownExt { front_matter }));
    I18nResource { metadata, entries }
}

pub open spec fn spec_capabilities() -> FormatCapabilities {
    FormatCapabilities {
        nested_keys: true,
        inline_markup: true,
        custom_properties: true,
        ..FormatCapabilities::spec_none()
    }
}

/// Headings or front matter at the start of a text, or a heading line
/// inside it.
pub open spec fn looks_like_markdown(t: Seq<char>) -> bool {
    contains(t, "\n# "@) || starts_with(t, "# "@) || starts_with(t, "---"@)
}

/// `.md` and `.markdown`, in any case, are likely when the content looks
/// like Markdown and possible otherwise; nothing else is recognised.
pub open spec fn spec_detect(ext: Seq<char>, content: Seq<u8>) -> Confidence {
    let l = lowercase(ext);
    if l == ".md"@ || l == ".markdown"@ {
        if valid_utf8(content) && looks_like_markdown(decode_utf8(content)) {
            Confidence::High
        } else {
            Confidence::Low
        }
    } else {
        Confidence::NoMatch
    }
}

impl Parser {
    pub fn detect(&self, extension: &str, content: &[u8]) -> (c: Confidence)
        ensures
            c == spec_detect(extension@, content@),
    {
        let l = to_lowercase(extension);
        if str_eq(l.as_str(), ".md") || str_eq(l.as_str(), ".markdown") {
            match std::str::from_utf8(content) {
                Ok(s) => {
                    let c = str_chars(s);
                    let h1 = str_chars("\n# ");
                    let h2 = str_chars("# ");
                    let fm = str_chars("---");
                    if chars_contain(c.as_slice(), h1.as_slice()) || chars_start_with(c.as_slice(), h2.as_slice())
                        || chars_start_with(c.as_slice(), fm.as_slice()) {
                        return Confidence::High;
                    }
                    Confidence::Low
                },
                Err(_) => Confidence::Low,
            }
        } else {
            Confidence::NoMatch
        }
    }

    /// Parses a UTF-8 Markdown document.
    pub fn parse(&self, content: &[u8]) -> (r: Result<I18nResource, ParseError>)
        ensures
            !valid_utf8(content@) ==> r matches Err(ParseError::InvalidFormat(_)),
            valid_utf8(content@) ==> (r matches Ok(res) && parsed_resource(res, decode_utf8(content@))),
    {
        match std::str::from_utf8(content) {
            Ok(text) => Ok(parse_markdown(text)),
            Err(e) => Err(ParseError::InvalidFormat(utf8_error_message(&e))),
        }
    }

    pub fn capabilities(&self) -> (c: FormatCapabilities)
        ensures
            c == spec_capabilities(),
    {
        FormatCapabilities {
            nested_keys: true,
            inline_markup: true,
            custom_properties: true,
            ..FormatCapabilities::default()
        }
    }
}

// ---------------------------------------------------------------------------
// Writing
// ---------------------------------------------------------------------------

/// `n` hash signs, at most six.
pub open spec fn hashes(n: nat) -> Seq<char> {
    Seq::new(if n > 6 { 6 } else { n }, |i: int| '#')
}

/// A word with its first character in uppercase.
pub open spec fn cap_word(w: Seq<char>) -> Seq<char> {
    if w.len() == 0 {
        Seq::empty()
    } else {
        upper(w[0]) + w.drop_first()
    }
}

pub open spec fn cap_words(ws: Seq<Seq<char>>) -> Seq<Seq<char>> {
    ws.map_values(|w: Seq<char>| cap_word(w))
}

/// The heading of a key segment: its `-`-separated words capitalized,
/// joined by spaces.
pub open spec fn key_heading(k: Seq<char>) -> Seq<char> {
    join(cap_words(split_char(k, '-')), " "@)
}

/// A heading line at `level` for a key segment, and the blank line after.
pub open spec fn heading_line(level: nat, seg: Seq<char>) -> Seq<char> {
    hashes(level) + " "@ + key_heading(seg) + "\n\n"@
}

/// Writing: the key paths headed so far, and the text.
pub type WState = (Seq<Seq<char>>, Seq<char>);

/// The headings for the paths above a key that were not headed yet, the
/// outermost first.
pub open spec fn prefix_fold(st: WState, parts: Seq<Seq<char>>, n: int) -> WState
    decreases n,
{
    if n <= 1 {
        st
    } else {
        let s1 = prefix_fold(st, parts, n - 1);
        let p = join(parts.take(n - 1), "."@);
        if s1.0.contains(p) {
            s1
        } else {
            (s1.0.push(p), s1.1 + heading_line((n - 1) as nat, parts[n - 2]))
        }
    }
}

/// An entry: the missing headings above it, its own heading at the depth of
/// its dotted key, and its text with a blank line when it has one.
pub open spec fn entry_step(st: WState, e: I18nEntry) -> WState {
    let parts = split_char(e.key@, '.');
    let s1 = prefix_fold(st, parts, parts.len() as int);
    let out = s1.1 + heading_line(parts.len(), parts.last());
    let v = other_text(e.value);
    (s1.0.push(e.key@), if v.len() > 0 { out + v + "\n\n"@ } else { out })
}

pub open spec fn write_fold(ps: Seq<(Seq<char>, I18nEntry)>, start: Seq<char>) -> WState
    decreases ps.len(),
{
    if ps.len() == 0 {
        (Seq::empty(), start)
    } else {
        entry_step(write_fold(ps.drop_last(), start), ps.last().1)
    }
}

/// The front matter block, when the resource has front matter.
pub open spec fn front_block(res: I18nResource) -> Seq<char> {
    match res.metadata.format_ext {
        Some(FormatExtension::Markdown(x)) => match x.front_matter {
            Some(f) => "---\n"@ + f@ + "\n---\n\n"@,
            None => Seq::empty(),
        },
        _ => Seq::empty(),
    }
}

/// The Markdown text of a resource, ended by exactly one new line.
pub open spec fn spec_write(res: I18nResource) -> Seq<char> {
    trim_nl_end(write_fold(entry_map_pairs(res.entries), front_block(res)).1) + "\n"@
}

/// Converts a kebab-case key segment back to a heading.
fn key_to_heading(key: &[char]) -> (r: String)
    ensures
        r@ == key_heading(key@),
{
    let words = split_at_char(key, '-');
    let ghost wv = words@.map_values(|l: Vec<char>| l@);
    let mut caps: Vec<String> = Vec::new();
    let mut i: usize = 0;
    while i < words.len()
        invariant
            i <= words@.len(),
            wv == words@.map_values(|l: Vec<char>| l@),
            wv == split_char(key@, '-'),
            string_views(caps@) == cap_words(wv.take(i as int)),
        decreases words@.len() - i,
    {
        let w = &words[i];
        assert(wv[i as int] == w@);
        let mut c = String::new();
        if w.len() > 0 {
            c = char_upper(w[0]);
            let rest = chars_range(w.as_slice(), 1, w.len());
            assert(rest@ == w@.drop_first());
            push_chars(&mut c, rest.as_slice());
        }
        assert(c@ == cap_word(w@));
        let ghost before = string_views(caps@);
        caps.push(c);
        assert(string_views(caps@) == before.push(c@));
        assert(cap_words(wv.take(i + 1)) == cap_words(wv.take(i as int)).push(cap_word(wv[i as int])));
        i = i + 1;
    }
    assert(wv.take(words@.len() as int) == wv);
    let sp = " ";
    proof {
        reveal_strlit(" ");
    }
    join_strings(&caps, sp)
}

fn push_heading(out: &mut String, level: usize, seg: &[char])
    ensures
        final(out)@ == old(out)@ + heading_line(level as nat, seg@),
{
    let ghost start = out@;
    let n: usize = if level > 6 { 6 } else { level };
    let mut i: usize = 0;
    while i < n
        invariant
            i <= n <= 6,
            out@ == start + Seq::new(i as nat, |j: int| '#'),
        decreases n - i,
    {
        out.push('#');
        i = i + 1;
        assert(out@ =~= start + Seq::new(i as nat, |j: int| '#'));
    }
    out.push(' ');
    let h = key_to_heading(seg);
    out.append(h.as_str());
    out.append("\n\n");
    proof {
        reveal_strlit("\n\n");
        reveal_strlit(" ");
    }
    assert(out@ =~= start + heading_line(level as nat, seg@));
}

fn contains_string(v: &Vec<String>, s: &String) -> (r: bool)
    ensures
        r == string_views(v@).contains(s@),
{
    let mut i: usize = 0;
    while i < v.len()
        invariant
            i <= v@.len(),
            forall|j: int| 0 <= j < i ==> v@[j]@ != s@,
        decreases v@.len() - i,
    {
        if str_eq(v[i].as_str(), s.as_str()) {
            assert(string_views(v@)[i as int] == s@);
            return true;
        }
        i = i + 1;
    }
    proof {
        if string_views(v@).contains(s@) {
            let j = choose|j: int| 0 <= j < string_views(v@).len() && string_views(v@)[j] == s@;
            assert(v@[j]@ == s@);
        }
    }
    false
}

fn write_entry(emitted: &mut Vec<String>, out: &mut String, e: &I18nEntry)
    ensures
        (string_views(final(emitted)@), final(out)@) == entry_step((string_views(old(emitted)@), old(out)@), *e),
{
    let kc = str_chars(e.key.as_str());
    let parts = split_at_char(kc.as_slice(), '.');
    let ghost pv = parts@.map_values(|l: Vec<char>| l@);
    let ghost st0 = (string_views(emitted@), out@);
    proof {
        crate::text::lemma_split_char_len(kc@, '.');
    }
    let mut i: usize = 1;
    while i < parts.len()
        invariant
            1 <= i <= parts@.len(),
            pv == parts@.map_values(|l: Vec<char>| l@),
            pv == split_char(e.key@, '.'),
            (string_views(emitted@), out@) == prefix_fold(st0, pv, i as int),
        decreases parts@.len() - i,
    {
        let mut prefix_parts: Vec<String> = Vec::new();
        let mut j: usize = 0;
        while j < i
            invariant
                j <= i < parts@.len(),
                pv == parts@.map_values(|l: Vec<char>| l@),
                string_views(prefix_parts@) == pv.take(j as int),
            decreases i - j,
        {
            let ghost before = string_views(prefix_parts@);
            let p = string_of(parts[j].as_slice());
            prefix_parts.push(p);
            assert(string_views(prefix_parts@) == before.push(p@));
            assert(pv.take(j + 1) == pv.take(j as int).push(pv[j as int]));
            j = j + 1;
        }
        let dot = ".";
        proof {
            reveal_strlit(".");
        }
        let prefix = join_strings(&prefix_parts, dot);
        if !contains_string(emitted, &prefix) {
            assert(pv[i - 1] == parts@[i - 1]@);
            push_heading(out, i, parts[i - 1].as_slice());
            let ghost before = string_views(emitted@);
            emitted.push(prefix);
            assert(string_views(emitted@) == before.push(prefix@));
        }
        i = i + 1;
    }
    let n = parts.len();
    assert(pv[n - 1] == parts@[n - 1]@);
    push_heading(out, n, parts[n - 1].as_slice());
    let ghost before = string_views(emitted@);
    emitted.push(e.key.clone());
    assert(string_views(emitted@) == before.push(e.key@));
    let v = other_text_exec(&e.value);
    if !v.as_str().is_empty() {
        out.append(v.as_str());
        out.append("\n\n");
        proof {
            reveal_strlit("\n\n");
        }
    }
}

fn finish(out: &String) -> (r: String)
    ensures
        r@ == trim_nl_end(out@) + "\n"@,
{
    let c = str_chars(out.as_str());
    let mut n: usize = c.len();
    assert(c@.take(n as int) == c@);
    while n > 0 && c[n - 1] == '\n'
        invariant
            n <= c@.len(),
            c@ == out@,
            trim_nl_end(c@.take(n as int)) == trim_nl_end(out@),
        decreases n,
    {
        assert(c@.take(n as int).drop_last() == c@.take(n - 1));
        n = n - 1;
    }
    let mut r = String::new();
    push_chars(&mut r, chars_range(c.as_slice(), 0, n).as_slice());
    r.push('\n');
    assert(c@.subrange(0, n as int) == c@.take(n as int));
    proof {
        reveal_strlit("\n");
    }
    assert(r@ =~= trim_nl_end(out@) + "\n"@);
    r
}

impl Writer {
    /// Writes each entry under a heading at the depth of its dotted key,
    /// after any front matter.
    pub fn write(&self, res: &I18nResource) -> (r: Result<Vec<u8>, WriteError>)
        ensures
            r matches Ok(b) && b@ == encode_utf8(spec_write(*res)),
    {
        let mut out = String::new();
        match &res.metadata.format_ext {
            Some(FormatExtension::Markdown(x)) => match &x.front_matter {
                Some(f) => {
                    out.append("---\n");
                    out.append(f.as_str());
                    out.append("\n---\n\n");
                },
                None => {},
            },
            _ => {},
        }
        assert(out@ =~= front_block(*res));
        let ghost ps = entry_map_pairs(res.entries);
        let ghost start = out@;
        let n = entry_map_len(&res.entries);
        let mut emitted: Vec<String> = Vec::new();
        let mut i: usize = 0;
        assert(ps.take(0) == Seq::<(Seq<char>, I18nEntry)>::empty());
        while i < n
            invariant
                n == ps.len(),
                ps == entry_map_pairs(res.entries),
                i <= n,
                write_fold(ps.take(i as int), start) == (string_views(emitted@), out@),
            decreases n - i,
        {
            assert(ps.take(i + 1).drop_last() == ps.take(i as int));
            let (_, e) = entry_map_get_index(&res.entries, i).unwrap();
            assert(ps.take(i + 1).last().1 == *e);
            write_entry(&mut emitted, &mut out, e);
            i = i + 1;
        }
        assert(ps.take(n as int) == ps);
        let r = finish(&out);
        Ok(crate::text::string_bytes(&r))
    }

    pub fn capabilities(&self) -> (c: FormatCapabilities)
        ensures
            c == spec_capabilities(),
    {
        Parser.capabilities()
    }
}

impl super::FormatParser for Parser {
    fn detect(&self, extension: &str, content: &[u8]) -> (c: Confidence)
        ensures
            c == spec_detect(extension@, content@),
    {
        Parser::detect(self, extension, content)
    }

    fn parse(&self, content: &[u8]) -> (r: Result<I18nResource, ParseError>)
        ensures
            !valid_utf8(content@) ==> r matches Err(ParseError::InvalidFormat(_)),
            valid_utf8(content@) ==> (r matches Ok(res) && parsed_resource(res, decode_utf8(content@))),
    {
        Parser::parse(self, content)
    }

    fn capabilities(&self) -> (c: FormatCapabilities)
        ensures
            c == spec_capabilities(),
    {
        Parser::capabilities(self)
    }
}

impl super::FormatWriter for Writer {
    fn write(&self, res: &I18nResource) -> (r: Result<Vec<u8>, WriteError>)
        ensures
            r matches Ok(b) && b@ == encode_utf8(spec_write(*res)),
    {
        Writer::write(self, res)
    }

    fn capabilities(&self) -> (c: FormatCapabilities)
        ensures
            c == spec_capabilities(),
    {
        Writer::capabilities(self)
    }
}

} // verus!
