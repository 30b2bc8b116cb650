//! Plain text files: the whole text as one entry, or sections split at
//! `---` lines, one entry each.
use vstd::prelude::*;
use crate::collections::{
    entry_map_pairs, entry_map_new, entry_map_insert, map_insert, pairs_model, lemma_pairs_model_insert,
    entry_map_len, entry_map_get_index,
};
use crate::ir::{
    I18nResource, I18nEntry, ResourceMetadata, FormatId, EntryValue, FormatCapabilities, FormatExtension, PlainTextExt,
};
use crate::text::{
    str_chars, string_of, trim, trim_chars, lines, split_lines, utf8_error_message, str_eq, contains, str_contains,
    chars_range, string_views, join, concat_map, lemma_concat_map_step, lemma_concat_map_front, starts_with, chars_start_with, decimal,
    push_decimal, parse_usize_spec, parse_usize, string_bytes, index_of, strip_cr,
};
use vstd::utf8::{valid_utf8, decode_utf8, encode_utf8};
use super::{Confidence, ParseError, WriteError, opt_view, text_entry, text_rel, text_entry_exec};

verus! {

pub struct Parser;

pub struct Writer;

// ---------------------------------------------------------------------------
// Line endings
// ---------------------------------------------------------------------------

/// `\r\n` when the text has one, `\n` otherwise.
pub open spec fn spec_line_ending(s: Seq<char>) -> Seq<char> {
    if contains(s, "\r\n"@) {
        "\r\n"@
    } else {
        "\n"@
    }
}

/// Detects the line ending used in the content: `\r\n` when Windows-style
/// endings are found, `\n` otherwise.
pub fn detect_line_ending(content: &str) -> (r: String)
    ensures
        r@ == spec_line_ending(content@),
{
    if str_contains(content, "\r\n") {
        "\r\n".to_owned()
    } else {
        "\n".to_owned()
    }
}

/// The text with every `\r\n` made `\n`.
pub open spec fn normalize(s: Seq<char>) -> Seq<char>
    decreases s.len(),
{
    if s.len() == 0 {
        Seq::empty()
    } else if s.len() >= 2 && s[0] == '\r' && s[1] == '\n' {
        seq!['\n'] + normalize(s.skip(2))
    } else {
        seq![s[0]] + normalize(s.drop_first())
    }
}

/// Normalizes line endings to `\n`.
pub fn normalize_line_endings(content: &str) -> (r: String)
    ensures
        r@ == normalize(content@),
{
    let s = str_chars(content);
    let mut out = String::new();
    let mut i: usize = 0;
    assert(s@.skip(0) == s@);
    while i < s.len()
        invariant
            i <= s@.len(),
            normalize(s@) == out@ + normalize(s@.skip(i as int)),
            s@ == content@,
        decreases s@.len() - i,
    {
        let ghost rest = s@.skip(i as int);
        if i + 1 < s.len() && s[i] == '\r' && s[i + 1] == '\n' {
            assert(rest.skip(2) == s@.skip(i + 2));
            out.push('\n');
            i = i + 2;
        } else {
            assert(rest.drop_first() == s@.skip(i + 1));
            out.push(s[i]);
            i = i + 1;
        }
    }
    out
}

pub open spec fn crlf_char(c: char) -> Seq<char> {
    if c == '\n' {
        seq!['\r', '\n']
    } else {
        seq![c]
    }
}

pub open spec fn crlf_fn() -> spec_fn(char) -> Seq<char> {
    |c: char| crlf_char(c)
}

/// The text with its line endings made `le`: `\n` made `\r\n` when `le` is
/// `\r\n`, unchanged otherwise.
pub open spec fn restore(s: Seq<char>, le: Seq<char>) -> Seq<char> {
    if le == "\r\n"@ {
        concat_map(s, crlf_fn())
    } else {
        s
    }
}

/// Converts `\n` line endings back to the detected line ending.
pub fn restore_line_endings(content: &str, line_ending: &str) -> (r: String)
    ensures
        r@ == restore(content@, line_ending@),
{
    if str_eq(line_ending, "\r\n") {
        let s = str_chars(content);
        let mut out = String::new();
        let mut i: usize = 0;
        while i < s.len()
            invariant
                i <= s@.len(),
                s@ == content@,
                out@ == concat_map(s@.take(i as int), crlf_fn()),
            decreases s@.len() - i,
        {
            proof {
                lemma_concat_map_step(s@, i as int, crlf_fn());
            }
            if s[i] == '\n' {
                out.push('\r');
                out.push('\n');
            } else {
                out.push(s[i]);
            }
            i = i + 1;
        }
        assert(s@.take(s@.len() as int) == s@);
        out
    } else {
        content.to_owned()
    }
}

// ---------------------------------------------------------------------------
// Reading
// ---------------------------------------------------------------------------

/// A `---` line, which separates sections.
pub open spec fn is_delim(l: Seq<char>) -> bool {
    trim(l) == "---"@
}

/// The text without its trailing new lines.
pub open spec fn trim_nl_end(s: Seq<char>) -> Seq<char>
    decreases s.len(),
{
    if s.len() > 0 && s.last() == '\n' {
        trim_nl_end(s.drop_last())
    } else {
        s
    }
}

/// The finished sections and the section being read.
pub type SecState = (Seq<Seq<char>>, Seq<char>);

pub open spec fn sec_step(st: SecState, l: Seq<char>) -> SecState {
    if is_delim(l) {
        (st.0.push(trim_nl_end(st.1)), Seq::empty())
    } else if st.1.len() > 0 {
        (st.0, st.1 + seq!['\n'] + l)
    } else {
        (st.0, st.1 + l)
    }
}

pub open spec fn sec_fold(ls: Seq<Seq<char>>) -> SecState
    decreases ls.len(),
{
    if ls.len() == 0 {
        (Seq::empty(), Seq::empty())
    } else {
        sec_step(sec_fold(ls.drop_last()), ls.last())
    }
}

/// The sections of a text with `---` lines.
pub open spec fn spec_sections(norm: Seq<char>) -> Seq<Seq<char>> {
    let st = sec_fold(lines(norm));
    st.0.push(trim_nl_end(st.1))
}

/// The text without one trailing new line.
pub open spec fn strip_one_nl(s: Seq<char>) -> Seq<char> {
    if s.len() > 0 && s.last() == '\n' {
        s.drop_last()
    } else {
        s
    }
}

pub open spec fn has_delims(norm: Seq<char>) -> bool {
    exists|i: int| 0 <= i < lines(norm).len() && is_delim(#[trigger] lines(norm)[i])
}

/// The entries of a text: none for an empty text; `content.0`,
/// `content.1`, ... for the sections of a text with `---` lines; `content`
/// with the whole text otherwise.
pub open spec fn entries_model(norm: Seq<char>) -> Seq<(Seq<char>, (Seq<char>, Seq<char>))> {
    if norm.len() == 0 {
        Seq::empty()
    } else if has_delims(norm) {
        sections_model(spec_sections(norm), spec_sections(norm).len() as int)
    } else {
        seq![("content"@, ("content"@, strip_one_nl(norm)))]
    }
}

pub open spec fn section_key(i: nat) -> Seq<char> {
    "content."@ + decimal(i)
}

pub open spec fn sections_model(secs: Seq<Seq<char>>, n: int) -> Seq<(Seq<char>, (Seq<char>, Seq<char>))>
    decreases n,
{
    if n <= 0 {
        Seq::empty()
    } else {
        map_insert(
            sections_model(secs, n - 1),
            section_key((n - 1) as nat),
            (section_key((n - 1) as nat), secs[n - 1]),
        )
    }
}

/// What a resource read from text holds: the detected line ending and the
/// entries of the normalized text.
pub open spec fn parsed_resource(res: I18nResource, text: Seq<char>) -> bool {
    &&& ResourceMetadata::spec_plain_except_ext(res.metadata, FormatId::PlainText)
    &&& res.metadata.format_ext matches Some(FormatExtension::PlainText(x)) && opt_view(x.line_ending) == Some(
        spec_line_ending(text),
    )
    &&& pairs_model(entry_map_pairs(res.entries), entries_model(normalize(text)), text_rel())
}

fn is_delim_exec(l: &[char]) -> (r: bool)
    ensures
        r == is_delim(l@),
{
    let t = trim_chars(l);
    let d = str_chars("---");
    crate::text::chars_eq(t.as_slice(), d.as_slice())
}

fn trim_nl_end_exec(s: &String) -> (r: String)
    ensures
        r@ == trim_nl_end(s@),
{
    let c = str_chars(s.as_str());
    let mut n: usize = c.len();
    assert(c@.take(n as int) == c@);
    while n > 0 && c[n - 1] == '\n'
        invariant
            n <= c@.len(),
            trim_nl_end(c@.take(n as int)) == trim_nl_end(s@),
            c@ == s@,
        decreases n,
    {
        assert(c@.take(n as int).drop_last() == c@.take(n - 1));
        n = n - 1;
    }
    let r = chars_range(c.as_slice(), 0, n);
    assert(r@ == c@.take(n as int));
    string_of(r.as_slice())
}

fn sections_of(norm: &str) -> (r: (Vec<String>, bool))
    ensures
        string_views(r.0@) == spec_sections(norm@),
        r.1 == has_delims(norm@),
{
    let chars = str_chars(norm);
    let ls = split_lines(chars.as_slice());
    let ghost lv = ls@.map_values(|l: Vec<char>| l@);
    let mut secs: Vec<String> = Vec::new();
    let mut cur = String::new();
    let mut any = false;
    let mut i: usize = 0;
    while i < ls.len()
        invariant
            i <= ls@.len(),
            lv == ls@.map_values(|l: Vec<char>| l@),
            lv == lines(norm@),
            sec_fold(lv.take(i as int)) == (string_views(secs@), cur@),
            any == exists|j: int| 0 <= j < i && is_delim(#[trigger] lv[j]),
        decreases ls@.len() - i,
    {
        assert(lv.take(i + 1).drop_last() == lv.take(i as int));
        assert(lv.take(i + 1).last() == ls@[i as int]@);
        assert(lv[i as int] == ls@[i as int]@);
        if is_delim_exec(ls[i].as_slice()) {
            any = true;
            let ghost before = string_views(secs@);
            let t = trim_nl_end_exec(&cur);
            secs.push(t);
            assert(string_views(secs@) == before.push(t@));
            cur = String::new();
        } else {
            if !cur.as_str().is_empty() {
                cur.push('\n');
            }
            push_line(&mut cur, ls[i].as_slice());
        }
        i = i + 1;
    }
    assert(lv.take(ls@.len() as int) == lv);
    let ghost before = string_views(secs@);
    let t = trim_nl_end_exec(&cur);
    secs.push(t);
    assert(string_views(secs@) == before.push(t@));
    (secs, any)
}

fn push_line(out: &mut String, l: &[char])
    ensures
        final(out)@ == old(out)@ + l@,
{
    crate::text::push_chars(out, l);
}

/// Parses plain text content.
pub fn parse_text(text: &str) -> (res: I18nResource)
    ensures
        parsed_resource(res, text@),
{
    let line_ending = detect_line_ending(text);
    let normalized = normalize_line_endings(text);
    let mut entries = entry_map_new();
    let mut metadata = ResourceMetadata::for_format(FormatId::PlainText);
    metadata.format_ext = Some(FormatExtension::PlainText(PlainTextExt { line_ending: Some(line_ending) }));
    if normalized.as_str().is_empty() {
        return I18nResource { metadata, entries };
    }
    let (secs, any) = sections_of(normalized.as_str());
    if any {
        let ghost sv = string_views(secs@);
        let mut i: usize = 0;
        while i < secs.len()
            invariant
                i <= secs@.len(),
                sv == string_views(secs@),
                sv == spec_sections(normalized@),
                pairs_model(entry_map_pairs(entries), sections_model(sv, i as int), text_rel()),
            decreases secs@.len() - i,
        {
            let mut key = "content.".to_owned();
            push_decimal(&mut key, i as u64);
            let e = text_entry_exec(key.clone(), secs[i].clone());
            assert(sv[i as int] == secs@[i as int]@);
            proof {
                lemma_pairs_model_insert(
                    entry_map_pairs(entries),
                    sections_model(sv, i as int),
                    text_rel(),
                    key@,
                    e,
                    (section_key(i as nat), sv[i as int]),
                );
            }
            entry_map_insert(&mut entries, key, e);
            i = i + 1;
        }
    } else {
        let c = str_chars(normalized.as_str());
        let n = c.len();
        let body = if n > 0 && c[n - 1] == '\n' {
            chars_range(c.as_slice(), 0, n - 1)
        } else {
            chars_range(c.as_slice(), 0, n)
        };
        assert(body@ == strip_one_nl(normalized@));
        let e = text_entry_exec("content".to_owned(), string_of(body.as_slice()));
        let ghost model: Seq<(Seq<char>, (Seq<char>, Seq<char>))> = Seq::empty();
        proof {
            lemma_pairs_model_insert(entry_map_pairs(entries), model, text_rel(), "content"@, e, ("content"@, strip_one_nl(normalized@)));
        }
        entry_map_insert(&mut entries, "content".to_owned(), e);
        assert(map_insert(model, "content"@, ("content"@, strip_one_nl(normalized@))) =~= seq![("content"@, ("content"@, strip_one_nl(normalized@)))]);
    }
    I18nResource { metadata, entries }
}


// ---------------------------------------------------------------------------
// Writing
// ---------------------------------------------------------------------------

/// The line ending to write: that of the plain text extension, else `\n`.
pub open spec fn le_of(res: I18nResource) -> Seq<char> {
    match res.metadata.format_ext {
        Some(FormatExtension::PlainText(x)) => match x.line_ending {
            Some(l) => l@,
            None => "\n"@,
        },
        _ => "\n"@,
    }
}

pub open spec fn simple_text(v: EntryValue) -> Seq<char> {
    match v {
        EntryValue::Simple(s) => s@,
        _ => Seq::empty(),
    }
}

/// The sections to write: each entry keyed `content.N`, with `N` a number,
/// whose value is simple, with its number, in entry order.
pub open spec fn collect_sections(ps: Seq<(Seq<char>, I18nEntry)>) -> Seq<(usize, Seq<char>)>
    decreases ps.len(),
{
    if ps.len() == 0 {
        Seq::empty()
    } else {
        let acc = collect_sections(ps.drop_last());
        let k = ps.last().0;
        let e = ps.last().1;
        if starts_with(k, "content."@) && parse_usize_spec(k.skip(8)) is Some && e.value is Simple {
            acc.push((parse_usize_spec(k.skip(8)).unwrap(), simple_text(e.value)))
        } else {
            acc
        }
    }
}

/// Where a section numbered `k` goes in sections sorted so far: after
/// every section numbered `k` or less.
pub open spec fn sort_pos(s: Seq<(usize, Seq<char>)>, k: usize) -> int
    decreases s.len(),
{
    if s.len() == 0 {
        0
    } else if s.last().0 <= k {
        s.len() as int
    } else {
        sort_pos(s.drop_last(), k)
    }
}

/// The sections sorted by number, those with equal numbers in their order.
pub open spec fn sort_sections(s: Seq<(usize, Seq<char>)>) -> Seq<(usize, Seq<char>)>
    decreases s.len(),
{
    if s.len() == 0 {
        Seq::empty()
    } else {
        let t = sort_sections(s.drop_last());
        t.insert(sort_pos(t, s.last().0), s.last())
    }
}

pub proof fn lemma_sort_pos(s: Seq<(usize, Seq<char>)>, k: usize)
    ensures
        0 <= sort_pos(s, k) <= s.len(),
    decreases s.len(),
{
    if s.len() > 0 && s.last().0 > k {
        lemma_sort_pos(s.drop_last(), k);
    }
}

pub proof fn lemma_sort_len(s: Seq<(usize, Seq<char>)>)
    ensures
        sort_sections(s).len() == s.len(),
    decreases s.len(),
{
    if s.len() > 0 {
        lemma_sort_len(s.drop_last());
        lemma_sort_pos(sort_sections(s.drop_last()), s.last().0);
    }
}

pub open spec fn section_texts(s: Seq<(usize, Seq<char>)>) -> Seq<Seq<char>> {
    s.map_values(|p: (usize, Seq<char>)| p.1)
}

pub open spec fn has_sections(ps: Seq<(Seq<char>, I18nEntry)>) -> bool {
    exists|i: int| 0 <= i < ps.len() && starts_with(#[trigger] ps[i].0, "content."@)
}

/// The text written before the final line ending: the sections in order of
/// their numbers, joined by `---` lines, or the value of the first entry.
pub open spec fn write_text(res: I18nResource) -> Seq<char> {
    let ps = entry_map_pairs(res.entries);
    if has_sections(ps) {
        restore(join(section_texts(sort_sections(collect_sections(ps))), "\n---\n"@), le_of(res))
    } else {
        restore(if ps.len() > 0 { simple_text(ps[0].1.value) } else { Seq::empty() }, le_of(res))
    }
}

pub open spec fn ends_with_bytes(b: Seq<u8>, l: Seq<u8>) -> bool {
    l.len() <= b.len() && b.skip(b.len() - l.len()) == l
}

/// The bytes written: nothing for no entries; otherwise the text, ended by
/// the line ending unless it already ends with it.
pub open spec fn spec_write(res: I18nResource) -> Seq<u8> {
    if entry_map_pairs(res.entries).len() == 0 {
        Seq::empty()
    } else {
        let b = encode_utf8(write_text(res));
        let l = encode_utf8(le_of(res));
        if ends_with_bytes(b, l) {
            b
        } else {
            b + l
        }
    }
}

fn insert_sorted(v: &mut Vec<(usize, String)>, x: (usize, String))
    ensures
        sec_view(final(v)@) == sec_view(old(v)@).insert(sort_pos(sec_view(old(v)@), x.0), (x.0, x.1@)),
{
    let ghost sv = sec_view(v@);
    let mut p: usize = v.len();
    assert(sv.take(p as int) == sv);
    while p > 0 && v[p - 1].0 > x.0
        invariant
            p <= v@.len(),
            sv == sec_view(v@),
            sort_pos(sv.take(p as int), x.0) == sort_pos(sv, x.0),
        decreases p,
    {
        assert(sv.take(p as int).drop_last() == sv.take(p - 1));
        p = p - 1;
    }
    proof {
        lemma_sort_pos(sv, x.0);
    }
    let ghost xv = (x.0, x.1@);
    v.insert(p, x);
    assert(sec_view(v@) =~= sv.insert(p as int, xv));
}

pub open spec fn sec_view(v: Seq<(usize, String)>) -> Seq<(usize, Seq<char>)> {
    v.map_values(|p: (usize, String)| (p.0, p.1@))
}

fn collect_exec(resource: &I18nResource) -> (r: (Vec<(usize, String)>, bool))
    ensures
        sec_view(r.0@) == collect_sections(entry_map_pairs(resource.entries)),
        r.1 == has_sections(entry_map_pairs(resource.entries)),
{
    let ghost ps = entry_map_pairs(resource.entries);
    let n = entry_map_len(&resource.entries);
    let prefix = str_chars("content.");
    proof {
        reveal_strlit("content.");
    }
    let mut out: Vec<(usize, String)> = Vec::new();
    let mut any = false;
    let mut i: usize = 0;
    while i < n
        invariant
            i <= n,
            n == ps.len(),
            ps == entry_map_pairs(resource.entries),
            prefix@ == "content."@,
            "content."@.len() == 8,
            sec_view(out@) == collect_sections(ps.take(i as int)),
            any == exists|j: int| 0 <= j < i && starts_with(#[trigger] ps[j].0, "content."@),
        decreases n - i,
    {
        assert(ps.take(i + 1).drop_last() == ps.take(i as int));
        assert(ps.take(i + 1).last() == ps[i as int]);
        match entry_map_get_index(&resource.entries, i) {
            Some((k, e)) => {
                let kc = str_chars(k.as_str());
                if chars_start_with(kc.as_slice(), prefix.as_slice()) {
                    any = true;
                    let rest = chars_range(kc.as_slice(), 8, kc.len());
                    assert(rest@ == k@.skip(8));
                    match (parse_usize(rest.as_slice()), &e.value) {
                        (Some(idx), EntryValue::Simple(s)) => {
                            let ghost before = sec_view(out@);
                            out.push((idx, s.clone()));
                            assert(sec_view(out@) == before.push((idx, s@)));
                        },
                        _ => {},
                    }
                }
            },
            None => {},
        }
        i = i + 1;
    }
    assert(ps.take(n as int) == ps);
    (out, any)
}

/// Writes a resource as plain text.
pub fn write_plain(resource: &I18nResource) -> (b: Vec<u8>)
    ensures
        b@ == spec_write(*resource),
{
    let le: String = match &resource.metadata.format_ext {
        Some(FormatExtension::PlainText(x)) => match &x.line_ending {
            Some(l) => l.clone(),
            None => "\n".to_owned(),
        },
        _ => "\n".to_owned(),
    };
    if entry_map_len(&resource.entries) == 0 {
        return Vec::new();
    }
    let (collected, any) = collect_exec(resource);
    let text = if any {
        let mut sorted: Vec<(usize, String)> = Vec::new();
        let ghost cv = sec_view(collected@);
        let mut i: usize = 0;
        while i < collected.len()
            invariant
                i <= collected@.len(),
                cv == sec_view(collected@),
                sec_view(sorted@) == sort_sections(cv.take(i as int)),
            decreases collected@.len() - i,
        {
            assert(cv.take(i + 1).drop_last() == cv.take(i as int));
            assert(cv.take(i + 1).last() == cv[i as int]);
            insert_sorted(&mut sorted, (collected[i].0, collected[i].1.clone()));
            i = i + 1;
        }
        assert(cv.take(collected@.len() as int) == cv);
        let mut texts: Vec<String> = Vec::new();
        let ghost srt = sec_view(sorted@);
        let mut j: usize = 0;
        while j < sorted.len()
            invariant
                j <= sorted@.len(),
                srt == sec_view(sorted@),
                string_views(texts@) == section_texts(srt).take(j as int),
            decreases sorted@.len() - j,
        {
            let ghost before = string_views(texts@);
            texts.push(sorted[j].1.clone());
            assert(string_views(texts@) == before.push(sorted@[j as int].1@));
            assert(section_texts(srt).take(j + 1) == section_texts(srt).take(j as int).push(section_texts(srt)[j as int]));
            j = j + 1;
        }
        assert(section_texts(srt).take(sorted@.len() as int) == section_texts(srt));
        let joined = crate::text::join_strings(&texts, "\n---\n");
        restore_line_endings(joined.as_str(), le.as_str())
    } else {
        let first = match entry_map_get_index(&resource.entries, 0) {
            Some((_, e)) => match &e.value {
                EntryValue::Simple(s) => s.clone(),
                _ => String::new(),
            },
            None => String::new(),
        };
        restore_line_endings(first.as_str(), le.as_str())
    };
    let mut bytes = string_bytes(&text);
    let lb = string_bytes(&le);
    let ghost b0 = bytes@;
    let ends = if lb.len() <= bytes.len() {
        let off = bytes.len() - lb.len();
        let mut k: usize = 0;
        let mut same = true;
        while k < lb.len()
            invariant
                k <= lb@.len(),
                off + lb@.len() == bytes@.len(),
                off + lb.len() == bytes.len(),
                same == (forall|j: int| 0 <= j < k ==> bytes@[off + j] == lb@[j]),
            decreases lb@.len() - k,
        {
            if bytes[off + k] != lb[k] {
                same = false;
            }
            k = k + 1;
        }
        proof {
            if same {
                assert(bytes@.skip(off as int) =~= lb@);
            } else {
                if bytes@.skip(off as int) == lb@ {
                    assert forall|j: int| 0 <= j < lb@.len() implies bytes@[off + j] == lb@[j] by {
                        assert(bytes@.skip(off as int)[j] == bytes@[off + j]);
                    }
                }
            }
        }
        same
    } else {
        false
    };
    if !ends {
        let mut k: usize = 0;
        while k < lb.len()
            invariant
                k <= lb@.len(),
                bytes@ == b0 + lb@.take(k as int),
            decreases lb@.len() - k,
        {
            bytes.push(lb[k]);
            assert(lb@.take(k + 1) == lb@.take(k as int).push(lb@[k as int]));
            k = k + 1;
        }
        assert(lb@.take(lb@.len() as int) == lb@);
    }
    bytes
}

/// How sure this format is that it can read a file with the extension and
/// content.
pub open spec fn spec_detect(extension: Seq<char>, content: Seq<u8>) -> Confidence {
    if extension == ".txt"@ { Confidence::Definite } else { Confidence::NoMatch }
}

impl Parser {
    /// `.txt` is certain; nothing else is recognised.
    pub fn detect(&self, extension: &str, content: &[u8]) -> (c: Confidence)
        ensures
            c == spec_detect(extension@, content@),
    {
        if str_eq(extension, ".txt") {
            Confidence::Definite
        } else {
            Confidence::NoMatch
        }
    }

    /// Parses UTF-8 text.
    pub fn parse(&self, content: &[u8]) -> (r: Result<I18nResource, ParseError>)
        ensures
            !valid_utf8(content@) ==> r matches Err(ParseError::InvalidFormat(_)),
            valid_utf8(content@) ==> (r matches Ok(res) && parsed_resource(res, decode_utf8(content@))),
    {
        match std::str::from_utf8(content) {
            Ok(text) => Ok(parse_text(text)),
            Err(e) => Err(ParseError::InvalidFormat(utf8_error_message(&e))),
        }
    }

    pub fn capabilities(&self) -> (c: FormatCapabilities)
        ensures
            c == FormatCapabilities::spec_none(),
    {
        FormatCapabilities::default()
    }
}

impl Writer {
    /// Writes the resource as text.
    pub fn write(&self, resource: &I18nResource) -> (r: Result<Vec<u8>, WriteError>)
        ensures
            r matches Ok(b) && b@ == spec_write(*resource),
    {
        Ok(write_plain(resource))
    }

    pub fn capabilities(&self) -> (c: FormatCapabilities)
        ensures
            c == FormatCapabilities::spec_none(),
    {
        Parser.capabilities()
    }
}

impl super::FormatParser for Parser {
    fn detect(&self, extension: &str, content: &[u8]) -> (c: Confidence)
        ensures
            c == spec_detect(extension@, content@),
    {
        Parser::detect(self, extension, content)
    }

    fn parse(&self, content: &[u8]) -> (r: Result<I18nResource, ParseError>)
        ensures
            !valid_utf8(content@) ==> r matches Err(ParseError::InvalidFormat(_)),
            valid_utf8(content@) ==> (r matches Ok(res) && parsed_resource(res, decode_utf8(content@))),
    {
        Parser::parse(self, content)
    }

    fn capabilities(&self) -> (c: FormatCapabilities)
        ensures
            c == FormatCapabilities::spec_none(),
    {
        Parser::capabilities(self)
    }
}

impl super::FormatWriter for Writer {
    fn write(&self, resource: &I18nResource) -> (r: Result<Vec<u8>, WriteError>)
        ensures
            r matches Ok(b) && b@ == spec_write(*resource),
    {
        Writer::write(self, resource)
    }

    fn capabilities(&self) -> (c: FormatCapabilities)
        ensures
            c == FormatCapabilities::spec_none(),
    {
        Writer::capabilities(self)
    }
}

// ---------------------------------------------------------------------------
// Round trip
// ---------------------------------------------------------------------------

pub proof fn lemma_encode_concat(a: Seq<char>, b: Seq<char>)
    ensures
        vstd::utf8::encode_utf8(a + b) == vstd::utf8::encode_utf8(a) + vstd::utf8::encode_utf8(b),
    decreases a.len(),
{
    if a.len() > 0 {
        lemma_encode_concat(a.drop_first(), b);
        assert((a + b).drop_first() =~= a.drop_first() + b);
        assert((a + b)[0] == a[0]);
        assert(vstd::utf8::encode_utf8(a + b) =~= vstd::utf8::encode_scalar(a[0] as u32) + vstd::utf8::encode_utf8(a.drop_first() + b));
    } else {
        assert(a + b =~= b);
    }
}

pub proof fn lemma_normalize_plain(s: Seq<char>)
    requires
        !s.contains('\r'),
    ensures
        normalize(s) == s,
    decreases s.len(),
{
    if s.len() > 0 {
        assert(s[0] != '\r');
        assert(!s.drop_first().contains('\r')) by {
            if s.drop_first().contains('\r') {
                let k = choose|k: int| 0 <= k < s.drop_first().len() && s.drop_first()[k] == '\r';
                assert(s[k + 1] == '\r');
            }
        }
        lemma_normalize_plain(s.drop_first());
        assert(s =~= seq![s[0]] + s.drop_first());
    }
}

/// A line break after a text without `\r` that does not end with one adds
/// no line.
pub proof fn lemma_lines_newline(s: Seq<char>)
    requires
        s.len() > 0,
        !s.contains('\r'),
        s.last() != '\n',
    ensures
        lines(s + seq!['\n']) == lines(s),
    decreases s.len(),
{
    let t = s + seq!['\n'];
    crate::text::lemma_index_of(s, '\n');
    crate::text::lemma_index_of(t, '\n');
    match index_of(s, '\n') {
        Some(k) => {
            assert(index_of(t, '\n') == Some(k)) by {
                assert(t[k] == '\n');
                assert forall|j: int| 0 <= j < k implies t[j] != '\n' by {
                    assert(t[j] == s[j]);
                }
            }
            assert(t.take(k) =~= s.take(k));
            let rest = s.skip(k + 1);
            assert(rest.len() > 0) by {
                if rest.len() == 0 {
                    assert(k == s.len() - 1);
                }
            }
            assert(t.skip(k + 1) =~= rest + seq!['\n']);
            assert(!rest.contains('\r')) by {
                if rest.contains('\r') {
                    let j = choose|j: int| 0 <= j < rest.len() && rest[j] == '\r';
                    assert(s[k + 1 + j] == '\r');
                }
            }
            assert(rest.last() == s.last());
            lemma_lines_newline(rest);
        },
        None => {
            assert(t[s.len() as int] == '\n');
            assert(index_of(t, '\n') == Some(s.len() as int)) by {
                assert forall|j: int| 0 <= j < s.len() implies t[j] != '\n' by {
                    assert(t[j] == s[j]);
                }
            }
            assert(t.take(s.len() as int) =~= s);
            assert(t.skip(s.len() as int + 1) =~= Seq::<char>::empty());
            assert(strip_cr(s) == s) by {
                assert(s.contains(s.last()));
            }
            assert(lines(Seq::<char>::empty()) =~= Seq::<Seq<char>>::empty());
            assert(lines(t) == seq![strip_cr(t.take(s.len() as int))] + lines(t.skip(s.len() as int + 1)));
            assert(lines(t) =~= seq![s]);
        },
    }
}

/// Text written with `\r\n` line endings normalizes back to itself.
pub proof fn lemma_normalize_crlf(t: Seq<char>, tail: Seq<char>)
    requires
        !t.contains('\r'),
    ensures
        normalize(concat_map(t, crlf_fn()) + tail) == t + normalize(tail),
    decreases t.len(),
{
    if t.len() == 0 {
        assert(concat_map(t, crlf_fn()) + tail =~= tail);
        assert(t + normalize(tail) =~= normalize(tail));
    } else {
        let r = t.drop_first();
        assert(!r.contains('\r')) by {
            if r.contains('\r') {
                let k = choose|k: int| 0 <= k < r.len() && r[k] == '\r';
                assert(t[k + 1] == '\r');
            }
        }
        assert(t.contains(t[0]));
        lemma_normalize_crlf(r, tail);
        lemma_concat_map_front(t, crlf_fn());
        let rest = concat_map(r, crlf_fn()) + tail;
        let w = concat_map(t, crlf_fn()) + tail;
        if t[0] == '\n' {
            assert(w =~= seq!['\r', '\n'] + rest);
            assert(w.skip(2) =~= rest);
            assert(normalize(w) == seq!['\n'] + normalize(rest));
        } else {
            assert(w =~= seq![t[0]] + rest);
            assert(w.drop_first() =~= rest);
            assert(w[0] != '\r');
            assert(normalize(w) == seq![t[0]] + normalize(rest));
        }
        assert(t =~= seq![t[0]] + r);
    }
}

/// Plain text reads back what it writes: a resource whose only entry is
/// keyed `content`, with a simple text that is not empty, holds no `\r`,
/// does not end with a new line and has no `---` line, written with `\n`
/// or `\r\n` line endings, reads back as one entry keyed `content` with the
/// same text.
pub proof fn lemma_plain_text_roundtrip(res: I18nResource, t: Seq<char>, back: I18nResource)
    requires
        entry_map_pairs(res.entries).len() == 1,
        entry_map_pairs(res.entries)[0].0 == "content"@,
        entry_map_pairs(res.entries)[0].1.value matches EntryValue::Simple(s) && s@ == t,
        le_of(res) == "\n"@ || le_of(res) == "\r\n"@,
        t.len() > 0,
        !t.contains('\r'),
        t.last() != '\n',
        forall|i: int| 0 <= i < lines(t).len() ==> !is_delim(#[trigger] lines(t)[i]),
        parsed_resource(back, decode_utf8(spec_write(res))),
    ensures
        valid_utf8(spec_write(res)),
        entry_map_pairs(back.entries).len() == 1,
        entry_map_pairs(back.entries)[0].0 == "content"@,
        entry_map_pairs(back.entries)[0].1.key@ == "content"@,
        entry_map_pairs(back.entries)[0].1.value matches EntryValue::Simple(s) && s@ == t,
{
    reveal_strlit("content");
    reveal_strlit("content.");
    reveal_strlit("\n");
    reveal_strlit("\r\n");
    let ps = entry_map_pairs(res.entries);
    assert(!has_sections(ps)) by {
        if has_sections(ps) {
            let i = choose|i: int| 0 <= i < ps.len() && starts_with(#[trigger] ps[i].0, "content."@);
            assert(i == 0);
        }
    }
    let le = le_of(res);
    let nl: Seq<char> = seq!['\n'];
    let crlf: Seq<char> = seq!['\r', '\n'];
    assert("\n"@ == nl);
    assert("\r\n"@ == crlf);
    let w = write_text(res);
    assert(w == restore(t, le));
    lemma_encode_concat(w, le);
    vstd::utf8::encode_utf8_valid_utf8(w);
    vstd::utf8::encode_utf8_valid_utf8(w + le);
    vstd::utf8::encode_utf8_decode_utf8(w);
    vstd::utf8::encode_utf8_decode_utf8(w + le);
    let text = decode_utf8(spec_write(res));
    assert(text == w || text == w + le);
    let norm = normalize(text);
    assert(!(t + nl).contains('\r')) by {
        if (t + nl).contains('\r') {
            let j = choose|j: int| 0 <= j < (t + nl).len() && (t + nl)[j] == '\r';
            if j < t.len() {
                assert(t[j] == '\r');
            }
        }
    }
    if le == nl {
        assert(w == t);
        lemma_normalize_plain(text);
    } else {
        assert(le == crlf);
        assert(w == concat_map(t, crlf_fn()));
        let e = Seq::<char>::empty();
        lemma_normalize_crlf(t, e);
        lemma_normalize_crlf(t, crlf);
        assert(w + e =~= w);
        assert(normalize(e) =~= e);
        assert(t + e =~= t);
        assert(crlf.skip(2) =~= e);
        assert(normalize(crlf) == nl + normalize(e));
        assert(normalize(crlf) =~= nl);
    }
    assert(norm == t || norm == t + nl);
    lemma_lines_newline(t);
    assert(!has_delims(norm));
    assert(norm.len() > 0);
    assert(strip_one_nl(norm) == t) by {
        if norm == t + nl {
            assert((t + nl).drop_last() =~= t);
        }
    }
    assert(entries_model(norm) == seq![("content"@, ("content"@, t))]);
    assert(entry_map_pairs(back.entries)[0].1.key@ == "content"@);
}

} // verus!
