//! Gettext PO files: blocks of comments and `msgctxt`, `msgid`,
//! `msgid_plural` and `msgstr` keywords, separated by blank lines.
use vstd::prelude::*;
use indexmap::IndexMap;
use crate::collections::{
    entry_map_pairs, entry_map_new, entry_map_insert, entry_map_len, entry_map_get_index, map_insert, map_get,
    pairs_model, lemma_pairs_model_insert, str_map_pairs, str_map_new, str_map_insert, str_map_len,
    str_map_get_index, str_map_get, index_map_pairs, index_map_new, index_map_insert, index_map_append,
    index_map_len, index_map_get_index, count_map_pairs,
};
use crate::ir::{
    I18nResource, I18nEntry, ResourceMetadata, FormatId, EntryValue, Comment, CommentRole,
    FormatCapabilities, FormatExtension, PoExt, PluralSet, SourceRef, TranslationState, ContextEntry,
    ContextType,
};
use crate::text::{
    str_chars, string_of, lemma_concat_map_front, push_chars, chars_range, string_bytes, str_eq, trim, trim_chars, trim_start,
    trim_start_chars, lines, split_lines, utf8_error_message, str_contains, contains, starts_with,
    chars_start_with, split_char, split_at_char, find_pat, split_pat_from, split_at_pat, parse_u32_spec,
    parse_u32, words_from, split_words, last_index_of, rfind_char, index_of, find_char, concat_map,
    lemma_concat_map_step, decimal, push_decimal, occurs_at, find_pat_from, lemma_find_pat, chars_eq,
    lemma_index_of, concat_all, lemma_concat_all_step, lemma_concat_all_full, join, join_strings, string_views,
};
use vstd::utf8::{valid_utf8, decode_utf8, encode_utf8};
use super::{clone_opt, Confidence, ParseError, WriteError, opt_view, strings_view, PluralView, plural_put, plural_set_view, put_plural};

verus! {

pub struct Parser;

pub struct Writer;

// ---------------------------------------------------------------------------
// Escapes and quoted strings
// ---------------------------------------------------------------------------

/// What the escape or character at the start of `s` stands for, and how
/// many characters it takes.
pub open spec fn unescape_step(s: Seq<char>) -> (Seq<char>, int) {
    if s[0] != '\\' {
        (seq![s[0]], 1)
    } else if s.len() == 1 {
        (seq!['\\'], 1)
    } else if s[1] == 'n' {
        (seq!['\n'], 2)
    } else if s[1] == 't' {
        (seq!['\t'], 2)
    } else if s[1] == '\\' || s[1] == '"' {
        (seq![s[1]], 2)
    } else {
        (seq!['\\', s[1]], 2)
    }
}

/// A PO string with `\n`, `\t`, `\\` and `\"` resolved; any other escape is
/// kept as written.
pub open spec fn spec_unescape(s: Seq<char>) -> Seq<char>
    decreases s.len(),
{
    if s.len() == 0 {
        Seq::empty()
    } else {
        proof {
            lemma_unescape_step(s);
        }
        unescape_step(s).0 + spec_unescape(s.skip(unescape_step(s).1))
    }
}

pub proof fn lemma_unescape_step(s: Seq<char>)
    requires
        s.len() > 0,
    ensures
        1 <= unescape_step(s).1 <= s.len(),
{
}

/// Unescapes PO string escapes: \n, \t, \\, \"
pub fn po_unescape(s: &str) -> (r: String)
    ensures
        r@ == spec_unescape(s@),
{
    let v = str_chars(s);
    let mut out = String::new();
    let mut i: usize = 0;
    assert(v@.skip(0) == v@);
    while i < v.len()
        invariant
            i <= v@.len(),
            v@ == s@,
            spec_unescape(v@) == out@ + spec_unescape(v@.skip(i as int)),
        decreases v@.len() - i,
    {
        let ghost t = v@.skip(i as int);
        let c = v[i];
        assert(t[0] == c);
        let k: usize;
        if c != '\\' {
            out.push(c);
            k = 1;
        } else if i >= v.len() - 1 {
            out.push('\\');
            k = 1;
        } else {
            let n = v[i + 1];
            assert(t[1] == n);
            if n == 'n' {
                out.push('\n');
            } else if n == 't' {
                out.push('\t');
            } else if n == '\\' || n == '"' {
                out.push(n);
            } else {
                out.push('\\');
                out.push(n);
            }
            k = 2;
        }
        assert(t.skip(k as int) == v@.skip(i + k));
        i = i + k;
    }
    assert(v@.skip(v@.len() as int).len() == 0);
    out
}

/// How one character is written inside a quoted PO string.
pub open spec fn escape_char(c: char) -> Seq<char> {
    if c == '\\' {
        seq!['\\', '\\']
    } else if c == '"' {
        seq!['\\', '"']
    } else if c == '\n' {
        seq!['\\', 'n']
    } else if c == '\t' {
        seq!['\\', 't']
    } else {
        seq![c]
    }
}

/// `s` with `\`, `"`, new lines and tabs escaped.
pub open spec fn spec_escape(s: Seq<char>) -> Seq<char> {
    concat_map(s, |c: char| escape_char(c))
}

/// A string written into a PO file reads back as itself: unescaping what
/// escaping gave is the identity.
pub proof fn lemma_po_string_roundtrip(s: Seq<char>)
    ensures
        spec_unescape(spec_escape(s)) == s,
    decreases s.len(),
{
    if s.len() > 0 {
        let c = s[0];
        let rest = s.drop_first();
        lemma_po_string_roundtrip(rest);
        let f = |x: char| escape_char(x);
        lemma_concat_map_front(s, f);
        let e = spec_escape(s);
        assert(e == escape_char(c) + spec_escape(rest));
        let n: int = escape_char(c).len() as int;
        assert(e.skip(n) =~= spec_escape(rest));
        assert(e.len() > 0);
        assert(e[0] == escape_char(c)[0]);
        if n == 2 {
            assert(e[1] == escape_char(c)[1]);
        }
        assert(unescape_step(e) == (seq![c], n));
        assert(spec_unescape(e) == seq![c] + spec_unescape(e.skip(n)));
        assert(s =~= seq![c] + rest);
    }
}

/// Escapes a string for PO output.
pub fn po_escape(s: &str) -> (r: String)
    ensures
        r@ == spec_escape(s@),
{
    let v = str_chars(s);
    let mut out = String::new();
    let mut i: usize = 0;
    while i < v.len()
        invariant
            i <= v@.len(),
            v@ == s@,
            out@ == spec_escape(v@.take(i as int)),
        decreases v@.len() - i,
    {
        let c = v[i];
        proof {
            lemma_concat_map_step(v@, i as int, |c: char| escape_char(c));
        }
        if c == '\\' {
            out.push('\\');
            out.push('\\');
        } else if c == '"' {
            out.push('\\');
            out.push('"');
        } else if c == '\n' {
            out.push('\\');
            out.push('n');
        } else if c == '\t' {
            out.push('\\');
            out.push('t');
        } else {
            out.push(c);
        }
        i = i + 1;
    }
    assert(v@.take(v@.len() as int) == v@);
    out
}

/// The unescaped content of a line that is a quoted string (after trimming);
/// `None` for any other line.
pub open spec fn spec_extract_quoted(line: Seq<char>) -> Option<Seq<char>> {
    let t = trim(line);
    if t.len() >= 2 && t[0] == '"' && t.last() == '"' {
        Some(spec_unescape(t.subrange(1, t.len() - 1)))
    } else {
        None
    }
}

fn extract_quoted_chars(line: &[char]) -> (r: Option<Vec<char>>)
    ensures
        match spec_extract_quoted(line@) {
            Some(v) => r matches Some(x) && x@ == v,
            None => r is None,
        },
{
    let t = trim_chars(line);
    if t.len() >= 2 && t[0] == '"' && t[t.len() - 1] == '"' {
        let inner = string_of(chars_range(t.as_slice(), 1, t.len() - 1).as_slice());
        let u = po_unescape(inner.as_str());
        Some(str_chars(u.as_str()))
    } else {
        None
    }
}

/// Extracts the quoted string content from a line like `"some text"`.
/// Gives `None` if the line doesn't start and end with a quote.
pub fn extract_quoted(line: &str) -> (r: Option<String>)
    ensures
        match spec_extract_quoted(line@) {
            Some(v) => r matches Some(x) && x@ == v,
            None => r is None,
        },
{
    let v = str_chars(line);
    match extract_quoted_chars(v.as_slice()) {
        Some(x) => Some(string_of(x.as_slice())),
        None => None,
    }
}

/// The value of a line `keyword "text"` (after trimming); `None` when the
/// line does not start with the keyword or no quoted string follows it.
pub open spec fn spec_keyword_value(line: Seq<char>, keyword: Seq<char>) -> Option<Seq<char>> {
    let t = trim(line);
    if !starts_with(t, keyword) {
        None
    } else {
        spec_extract_quoted(trim_start(t.skip(keyword.len() as int)))
    }
}

fn keyword_value_chars(line: &[char], keyword: &[char]) -> (r: Option<Vec<char>>)
    ensures
        match spec_keyword_value(line@, keyword@) {
            Some(v) => r matches Some(x) && x@ == v,
            None => r is None,
        },
{
    let t = trim_chars(line);
    if !chars_start_with(t.as_slice(), keyword) {
        return None;
    }
    let after = chars_range(t.as_slice(), keyword.len(), t.len());
    assert(after@ == t@.skip(keyword@.len() as int));
    let after = trim_start_chars(after.as_slice());
    extract_quoted_chars(after.as_slice())
}

/// Parses the keyword value from a line like `msgid "hello"` or
/// `msgstr[0] "text"`, unescaped.
pub fn extract_keyword_value(line: &str, keyword: &str) -> (r: Option<String>)
    ensures
        match spec_keyword_value(line@, keyword@) {
            Some(v) => r matches Some(x) && x@ == v,
            None => r is None,
        },
{
    let l = str_chars(line);
    let k = str_chars(keyword);
    match keyword_value_chars(l.as_slice(), k.as_slice()) {
        Some(x) => Some(string_of(x.as_slice())),
        None => None,
    }
}

// ---------------------------------------------------------------------------
// Plural forms
// ---------------------------------------------------------------------------

/// The CLDR plural category of plural index `index` for a language with
/// `nplurals` forms (a simplified mapping for common languages).
pub open spec fn category_of(index: u32, nplurals: u32) -> Seq<char> {
    if nplurals == 2 {
        if index == 0 { "one"@ } else { "other"@ }
    } else if nplurals == 3 {
        if index == 0 { "one"@ } else if index == 1 { "few"@ } else { "other"@ }
    } else if nplurals == 4 {
        if index == 0 { "one"@ } else if index == 1 { "few"@ } else if index == 2 { "many"@ } else { "other"@ }
    } else if nplurals == 5 {
        if index == 0 {
            "one"@
        } else if index == 1 {
            "two"@
        } else if index == 2 {
            "few"@
        } else if index == 3 {
            "many"@
        } else {
            "other"@
        }
    } else if nplurals == 6 {
        if index == 0 {
            "zero"@
        } else if index == 1 {
            "one"@
        } else if index == 2 {
            "two"@
        } else if index == 3 {
            "few"@
        } else if index == 4 {
            "many"@
        } else {
            "other"@
        }
    } else {
        "other"@
    }
}

/// Maps a plural index to a CLDR plural category based on nplurals.
pub fn plural_index_to_category(index: u32, nplurals: u32) -> (r: &'static str)
    ensures
        r@ == category_of(index, nplurals),
{
    if nplurals == 2 {
        if index == 0 { "one" } else { "other" }
    } else if nplurals == 3 {
        if index == 0 { "one" } else if index == 1 { "few" } else { "other" }
    } else if nplurals == 4 {
        if index == 0 { "one" } else if index == 1 { "few" } else if index == 2 { "many" } else { "other" }
    } else if nplurals == 5 {
        if index == 0 {
            "one"
        } else if index == 1 {
            "two"
        } else if index == 2 {
            "few"
        } else if index == 3 {
            "many"
        } else {
            "other"
        }
    } else if nplurals == 6 {
        if index == 0 {
            "zero"
        } else if index == 1 {
            "one"
        } else if index == 2 {
            "two"
        } else if index == 3 {
            "few"
        } else if index == 4 {
            "many"
        } else {
            "other"
        }
    } else {
        "other"
    }
}

/// The plural index of a CLDR category for a language with `nplurals`
/// forms, where the category is one of its forms.
pub open spec fn index_of_category(category: Seq<char>, nplurals: u32) -> Option<u32> {
    if nplurals == 1 {
        if category == "other"@ { Some(0) } else { None }
    } else if nplurals == 2 {
        if category == "one"@ { Some(0) } else if category == "other"@ { Some(1) } else { None }
    } else if nplurals == 3 {
        if category == "one"@ {
            Some(0)
        } else if category == "few"@ {
            Some(1)
        } else if category == "other"@ {
            Some(2)
        } else {
            None
        }
    } else if nplurals == 4 {
        if category == "one"@ {
            Some(0)
        } else if category == "few"@ {
            Some(1)
        } else if category == "many"@ {
            Some(2)
        } else if category == "other"@ {
            Some(3)
        } else {
            None
        }
    } else if nplurals == 5 {
        if category == "one"@ {
            Some(0)
        } else if category == "two"@ {
            Some(1)
        } else if category == "few"@ {
            Some(2)
        } else if category == "many"@ {
            Some(3)
        } else if category == "other"@ {
            Some(4)
        } else {
            None
        }
    } else if nplurals == 6 {
        if category == "zero"@ {
            Some(0)
        } else if category == "one"@ {
            Some(1)
        } else if category == "two"@ {
            Some(2)
        } else if category == "few"@ {
            Some(3)
        } else if category == "many"@ {
            Some(4)
        } else if category == "other"@ {
            Some(5)
        } else {
            None
        }
    } else {
        None
    }
}

/// Maps a CLDR category back to its plural index for a given nplurals count.
pub fn category_to_plural_index(category: &str, nplurals: u32) -> (r: Option<u32>)
    ensures
        r == index_of_category(category@, nplurals),
{
    let is_zero = str_eq(category, "zero");
    let is_one = str_eq(category, "one");
    let is_two = str_eq(category, "two");
    let is_few = str_eq(category, "few");
    let is_many = str_eq(category, "many");
    let is_other = str_eq(category, "other");
    if nplurals == 1 {
        if is_other { Some(0) } else { None }
    } else if nplurals == 2 {
        if is_one { Some(0) } else if is_other { Some(1) } else { None }
    } else if nplurals == 3 {
        if is_one {
            Some(0)
        } else if is_few {
            Some(1)
        } else if is_other {
            Some(2)
        } else {
            None
        }
    } else if nplurals == 4 {
        if is_one {
            Some(0)
        } else if is_few {
            Some(1)
        } else if is_many {
            Some(2)
        } else if is_other {
            Some(3)
        } else {
            None
        }
    } else if nplurals == 5 {
        if is_one {
            Some(0)
        } else if is_two {
            Some(1)
        } else if is_few {
            Some(2)
        } else if is_many {
            Some(3)
        } else if is_other {
            Some(4)
        } else {
            None
        }
    } else if nplurals == 6 {
        if is_zero {
            Some(0)
        } else if is_one {
            Some(1)
        } else if is_two {
            Some(2)
        } else if is_few {
            Some(3)
        } else if is_many {
            Some(4)
        } else if is_other {
            Some(5)
        } else {
            None
        }
    } else {
        None
    }
}

/// The number of plural forms that a `Plural-Forms` header names: the
/// first `;`-separated part that reads `nplurals=N` with `N` a `u32`; 2
/// when there is none.
pub open spec fn nplurals_of_parts(parts: Seq<Seq<char>>) -> u32
    decreases parts.len(),
{
    if parts.len() == 0 {
        2
    } else {
        let p = trim(parts[0]);
        if starts_with(p, "nplurals="@) && parse_u32_spec(trim(p.skip(9))) is Some {
            parse_u32_spec(trim(p.skip(9))).unwrap()
        } else {
            nplurals_of_parts(parts.drop_first())
        }
    }
}

/// The number of plural forms of a `Plural-Forms` header.
pub open spec fn spec_nplurals(plural_forms: Seq<char>) -> u32 {
    nplurals_of_parts(split_char(plural_forms, ';'))
}

/// Parses nplurals from the Plural-Forms header (2 when absent).
pub fn parse_nplurals(plural_forms: &str) -> (n: u32)
    ensures
        n == spec_nplurals(plural_forms@),
{
    let v = str_chars(plural_forms);
    let parts = split_at_char(v.as_slice(), ';');
    let ghost pv = parts@.map_values(|l: Vec<char>| l@);
    let prefix = str_chars("nplurals=");
    proof {
        reveal_strlit("nplurals=");
        assert(prefix@.len() == 9);
    }
    let mut i: usize = 0;
    assert(pv.skip(0) == pv);
    while i < parts.len()
        invariant
            i <= parts@.len(),
            pv == parts@.map_values(|l: Vec<char>| l@),
            pv == split_char(v@, ';'),
            v@ == plural_forms@,
            prefix@ == "nplurals="@,
            prefix@.len() == 9,
            nplurals_of_parts(pv) == nplurals_of_parts(pv.skip(i as int)),
        decreases parts@.len() - i,
    {
        let ghost rest = pv.skip(i as int);
        assert(rest[0] == parts@[i as int]@);
        assert(rest.drop_first() == pv.skip(i + 1));
        let p = trim_chars(parts[i].as_slice());
        if chars_start_with(p.as_slice(), prefix.as_slice()) {
            let after = chars_range(p.as_slice(), 9, p.len());
            assert(after@ == p@.skip(9));
            let t = trim_chars(after.as_slice());
            match parse_u32(t.as_slice()) {
                Some(n) => {
                    return n;
                },
                None => {},
            }
        }
        i = i + 1;
    }
    2
}

/// The key of an entry: `msgctxt`, the character 0x04 and `msgid` when there
/// is a context, `msgid` otherwise.
pub open spec fn spec_entry_key(msgctxt: Option<Seq<char>>, msgid: Seq<char>) -> Seq<char> {
    match msgctxt {
        Some(c) => c + seq!['\u{4}'] + msgid,
        None => msgid,
    }
}

/// Builds the entry key from msgctxt and msgid.
/// If msgctxt is present, the key is "msgctxt\x04msgid" (standard PO convention).
pub fn make_entry_key(msgctxt: &Option<String>, msgid: &str) -> (r: String)
    ensures
        r@ == spec_entry_key(
            match msgctxt {
                Some(c) => Some(c@),
                None => None,
            },
            msgid@,
        ),
{
    match msgctxt {
        Some(ctx) => {
            let mut r = ctx.clone();
            r.push('\u{4}');
            r.append(msgid);
            r
        },
        None => msgid.to_owned(),
    }
}

// ---------------------------------------------------------------------------
// Source references
// ---------------------------------------------------------------------------

/// The reference that one `file:line` word stands for: split at its last
/// `:` when what follows is a line number, the whole word as the file
/// otherwise.
pub open spec fn spec_source_ref(word: Seq<char>) -> (Seq<char>, Option<u32>) {
    match last_index_of(word, ':') {
        Some(k) => match parse_u32_spec(word.skip(k + 1)) {
            Some(n) => (word.take(k), Some(n)),
            None => (word, None),
        },
        None => (word, None),
    }
}

/// The references of all words of `refs`, in order.
pub open spec fn spec_source_refs(refs: Seq<Seq<char>>) -> Seq<(Seq<char>, Option<u32>)>
    decreases refs.len(),
{
    if refs.len() == 0 {
        Seq::empty()
    } else {
        spec_source_refs(refs.drop_last()) + words_from(refs.last(), 0).map_values(
            |w: Seq<char>| spec_source_ref(w),
        )
    }
}

pub open spec fn refs_view(v: Seq<SourceRef>) -> Seq<(Seq<char>, Option<u32>)> {
    v.map_values(|r: SourceRef| (r.file@, r.line))
}

pub proof fn lemma_last_index_of(s: Seq<char>, c: char)
    ensures
        last_index_of(s, c) matches Some(k) ==> 0 <= k < s.len(),
    decreases s.len(),
{
    if s.len() > 0 && s.last() != c {
        lemma_last_index_of(s.drop_last(), c);
    }
}

fn source_ref_of(word: &[char]) -> (r: SourceRef)
    ensures
        (r.file@, r.line) == spec_source_ref(word@),
{
    proof {
        lemma_last_index_of(word@, ':');
    }
    match rfind_char(word, ':') {
        Some(k) => {
            assert(k < word@.len());
            assert(word@.len() == word.len());
            let after = chars_range(word, k + 1, word.len());
            assert(after@ == word@.skip(k + 1));
            match parse_u32(after.as_slice()) {
                Some(n) => {
                    let file = chars_range(word, 0, k);
                    assert(file@ == word@.take(k as int));
                    SourceRef { file: string_of(file.as_slice()), line: Some(n) }
                },
                None => SourceRef { file: string_of(word), line: None },
            }
        },
        None => SourceRef { file: string_of(word), line: None },
    }
}

/// Parses source references from "#: file:line" strings; each line may hold
/// several references separated by white space.
pub fn parse_source_refs(refs: &[String]) -> (r: Vec<SourceRef>)
    ensures
        refs_view(r@) == spec_source_refs(refs@.map_values(|s: String| s@)),
{
    let ghost rv = refs@.map_values(|s: String| s@);
    let mut result: Vec<SourceRef> = Vec::new();
    let mut i: usize = 0;
    while i < refs.len()
        invariant
            i <= refs@.len(),
            rv == refs@.map_values(|s: String| s@),
            refs_view(result@) == spec_source_refs(rv.take(i as int)),
        decreases refs@.len() - i,
    {
        assert(rv.take(i + 1).drop_last() == rv.take(i as int));
        assert(rv.take(i + 1).last() == refs@[i as int]@);
        let chars = str_chars(refs[i].as_str());
        let words = split_words(chars.as_slice());
        let ghost wv = words@.map_values(|l: Vec<char>| l@);
        let ghost base = refs_view(result@);
        let mut j: usize = 0;
        while j < words.len()
            invariant
                j <= words@.len(),
                wv == words@.map_values(|l: Vec<char>| l@),
                refs_view(result@) == base + wv.take(j as int).map_values(|w: Seq<char>| spec_source_ref(w)),
            decreases words@.len() - j,
        {
            let sr = source_ref_of(words[j].as_slice());
            let ghost before = refs_view(result@);
            result.push(sr);
            assert(refs_view(result@) == before.push(spec_source_ref(wv[j as int])));
            assert(wv.take(j + 1).map_values(|w: Seq<char>| spec_source_ref(w))
                == wv.take(j as int).map_values(|w: Seq<char>| spec_source_ref(w)).push(spec_source_ref(wv[j as int])));
            j = j + 1;
        }
        assert(wv.take(words@.len() as int) == wv);
        i = i + 1;
    }
    assert(rv.take(refs@.len() as int) == rv);
    result
}

// ---------------------------------------------------------------------------
// Quoted output strings
// ---------------------------------------------------------------------------

/// The lines of one piece of a split string: each but the last ends with
/// `\n` inside its quotes; an empty last piece writes no line.
pub open spec fn piece_lines(parts: Seq<Seq<char>>) -> Seq<Seq<char>>
    decreases parts.len(),
{
    if parts.len() == 0 {
        Seq::empty()
    } else if parts.len() == 1 {
        if parts[0].len() > 0 { seq![seq!['"'] + parts[0] + seq!['"']] } else { Seq::empty() }
    } else {
        seq![seq!['"'] + parts[0] + seq!['\\', 'n', '"']] + piece_lines(parts.drop_first())
    }
}

/// The quoted lines that write `s`: one line `"escaped"`, or, when the
/// escaped text has an escaped new line with more after it and is not just
/// `\n`, an empty `""` line and then one line per new line.
pub open spec fn spec_po_lines(s: Seq<char>) -> Seq<Seq<char>> {
    let e = spec_escape(s);
    let nl = seq!['\\', 'n'];
    match find_pat(e, nl, 0) {
        Some(k) if e != nl && e.len() > k + 2 => seq![seq!['"', '"']] + piece_lines(split_pat_from(e, nl, 0)),
        _ => seq![seq!['"'] + e + seq!['"']],
    }
}

pub open spec fn lines_view(v: Seq<String>) -> Seq<Seq<char>> {
    v.map_values(|s: String| s@)
}

fn quoted_line(part: &[char], newline: bool) -> (r: String)
    ensures
        r@ == seq!['"'] + part@ + if newline { seq!['\\', 'n', '"'] } else { seq!['"'] },
{
    let mut r = String::new();
    r.push('"');
    push_chars(&mut r, part);
    if newline {
        r.push('\\');
        r.push('n');
    }
    r.push('"');
    r
}

/// Formats a PO string, as multiline if it holds new lines: the lines
/// `"text"`, or `""` then `"line1\n"`, `"line2"`.
pub fn format_po_string(s: &str) -> (r: Vec<String>)
    ensures
        lines_view(r@) == spec_po_lines(s@),
        r@.len() > 0,
{
    let escaped = po_escape(s);
    let e = str_chars(escaped.as_str());
    let nl = str_chars("\\n");
    proof {
        reveal_strlit("\\n");
        assert(nl@ =~= seq!['\\', 'n']);
        lemma_find_pat(e@, nl@, 0);
    }
    let multi = match find_pat_from(e.as_slice(), nl.as_slice(), 0) {
        Some(k) => !(e.len() == 2 && e[0] == '\\' && e[1] == 'n') && e.len() > k + 2,
        None => false,
    };
    proof {
        if e@.len() == 2 && e@[0] == '\\' && e@[1] == 'n' {
            assert(e@ =~= nl@);
        } else {
            assert(e@ != nl@);
        }
    }
    if multi {
        let mut lines: Vec<String> = Vec::new();
        lines.push(quoted_line(Vec::<char>::new().as_slice(), false));
        assert(lines@[0]@ =~= seq!['"', '"']);
        let parts = split_at_pat(e.as_slice(), nl.as_slice());
        let ghost pv = parts@.map_values(|l: Vec<char>| l@);
        assert(pv.len() > 0);
        let mut i: usize = 0;
        assert(pv.skip(0) == pv);
        while i < parts.len()
            invariant
                i <= parts@.len(),
                pv == parts@.map_values(|l: Vec<char>| l@),
                pv.len() > 0,
                seq![seq!['"', '"']] + piece_lines(pv) == lines_view(lines@) + piece_lines(pv.skip(i as int)),
            decreases parts@.len() - i,
        {
            let ghost rest = pv.skip(i as int);
            assert(rest[0] == parts@[i as int]@);
            assert(rest.drop_first() == pv.skip(i + 1));
            let ghost before = lines_view(lines@);
            if i + 1 < parts.len() {
                lines.push(quoted_line(parts[i].as_slice(), true));
                assert(lines_view(lines@) == before.push(seq!['"'] + rest[0] + seq!['\\', 'n', '"']));
            } else if parts[i].len() > 0 {
                lines.push(quoted_line(parts[i].as_slice(), false));
                assert(lines_view(lines@) == before.push(seq!['"'] + rest[0] + seq!['"']));
            }
            i = i + 1;
        }
        assert(pv.skip(parts@.len() as int).len() == 0);
        lines
    } else {
        let mut lines: Vec<String> = Vec::new();
        lines.push(quoted_line(e.as_slice(), false));
        lines
    }
}


// ---------------------------------------------------------------------------
// Blocks
// ---------------------------------------------------------------------------

/// One raw PO block before conversion to the representation.
pub struct PoBlock {
    pub translator_comments: Vec<String>,
    pub extracted_comments: Vec<String>,
    pub references: Vec<String>,
    pub flags: Vec<String>,
    pub previous_msgid: Option<String>,
    pub msgctxt: Option<String>,
    pub msgid: String,
    pub msgid_plural: Option<String>,
    pub msgstr: Option<String>,
    pub msgstr_plural: IndexMap<u32, String>,
    pub obsolete: bool,
}

/// The contents of a block as plain text.
pub struct BlockView {
    pub translator_comments: Seq<Seq<char>>,
    pub extracted_comments: Seq<Seq<char>>,
    pub references: Seq<Seq<char>>,
    pub flags: Seq<Seq<char>>,
    pub previous_msgid: Option<Seq<char>>,
    pub msgctxt: Option<Seq<char>>,
    pub msgid: Seq<char>,
    pub msgid_plural: Option<Seq<char>>,
    pub msgstr: Option<Seq<char>>,
    pub msgstr_plural: Seq<(u32, Seq<char>)>,
    pub obsolete: bool,
}

pub open spec fn block_view(b: PoBlock) -> BlockView {
    BlockView {
        translator_comments: strings_view(b.translator_comments@),
        extracted_comments: strings_view(b.extracted_comments@),
        references: strings_view(b.references@),
        flags: strings_view(b.flags@),
        previous_msgid: opt_view(b.previous_msgid),
        msgctxt: opt_view(b.msgctxt),
        msgid: b.msgid@,
        msgid_plural: opt_view(b.msgid_plural),
        msgstr: opt_view(b.msgstr),
        msgstr_plural: index_map_pairs(b.msgstr_plural),
        obsolete: b.obsolete,
    }
}

pub open spec fn empty_block() -> BlockView {
    BlockView {
        translator_comments: Seq::empty(),
        extracted_comments: Seq::empty(),
        references: Seq::empty(),
        flags: Seq::empty(),
        previous_msgid: None,
        msgctxt: None,
        msgid: Seq::empty(),
        msgid_plural: None,
        msgstr: None,
        msgstr_plural: Seq::empty(),
        obsolete: false,
    }
}

impl PoBlock {
    pub fn new() -> (b: PoBlock)
        ensures
            block_view(b) == empty_block(),
    {
        let b = PoBlock {
            translator_comments: Vec::new(),
            extracted_comments: Vec::new(),
            references: Vec::new(),
            flags: Vec::new(),
            previous_msgid: None,
            msgctxt: None,
            msgid: String::new(),
            msgid_plural: None,
            msgstr: None,
            msgstr_plural: index_map_new(),
            obsolete: false,
        };
        assert(strings_view(b.flags@) =~= Seq::<Seq<char>>::empty());
        assert(strings_view(b.references@) =~= Seq::<Seq<char>>::empty());
        assert(strings_view(b.translator_comments@) =~= Seq::<Seq<char>>::empty());
        assert(strings_view(b.extracted_comments@) =~= Seq::<Seq<char>>::empty());
        b
    }
}

/// The field that continuation lines append to.
#[derive(Clone, Copy, PartialEq, Eq, Structural)]
pub enum CurrentField {
    Msgctxt,
    Msgid,
    MsgidPlural,
    Msgstr,
    MsgstrPlural(u32),
}

/// `v` appended to the field that continuation lines go to, when that
/// field has a value.
pub open spec fn spec_append(b: BlockView, field: Option<CurrentField>, v: Seq<char>) -> BlockView {
    match field {
        Some(CurrentField::Msgctxt) => match b.msgctxt {
            Some(c) => BlockView { msgctxt: Some(c + v), ..b },
            None => b,
        },
        Some(CurrentField::Msgid) => BlockView { msgid: b.msgid + v, ..b },
        Some(CurrentField::MsgidPlural) => match b.msgid_plural {
            Some(c) => BlockView { msgid_plural: Some(c + v), ..b },
            None => b,
        },
        Some(CurrentField::Msgstr) => match b.msgstr {
            Some(c) => BlockView { msgstr: Some(c + v), ..b },
            None => b,
        },
        Some(CurrentField::MsgstrPlural(idx)) => match map_get(b.msgstr_plural, idx) {
            Some(x) => BlockView { msgstr_plural: map_insert(b.msgstr_plural, idx, x + v), ..b },
            None => b,
        },
        None => b,
    }
}

/// Appends a continuation line's value to the current field.
pub fn append_to_field(block: &mut PoBlock, field: &Option<CurrentField>, value: &str)
    ensures
        block_view(*final(block)) == spec_append(block_view(*old(block)), *field, value@),
{
    match field {
        Some(CurrentField::Msgctxt) => {
            match &mut block.msgctxt {
                Some(ctx) => ctx.append(value),
                None => {},
            }
        },
        Some(CurrentField::Msgid) => {
            block.msgid.append(value);
        },
        Some(CurrentField::MsgidPlural) => {
            match &mut block.msgid_plural {
                Some(p) => p.append(value),
                None => {},
            }
        },
        Some(CurrentField::Msgstr) => {
            match &mut block.msgstr {
                Some(s) => s.append(value),
                None => {},
            }
        },
        Some(CurrentField::MsgstrPlural(idx)) => {
            index_map_append(&mut block.msgstr_plural, *idx, value);
        },
        None => {},
    }
}

/// The flags of a `#,` line: its comma-separated parts, trimmed, without
/// empty ones.
pub open spec fn flags_of(parts: Seq<Seq<char>>) -> Seq<Seq<char>>
    decreases parts.len(),
{
    if parts.len() == 0 {
        Seq::empty()
    } else if trim(parts.last()).len() > 0 {
        flags_of(parts.drop_last()).push(trim(parts.last()))
    } else {
        flags_of(parts.drop_last())
    }
}

/// A comment line (`#` but not `#~`) applied to the block: `#.` extracted
/// comments, `#:` references, `#,` flags, `#|` previous msgid, `# ` and a
/// lone `#` translator comments; other comment lines are ignored.
pub open spec fn spec_comment_line(b: BlockView, t: Seq<char>) -> BlockView {
    if starts_with(t, "#."@) {
        BlockView { extracted_comments: b.extracted_comments.push(trim(t.skip(2))), ..b }
    } else if starts_with(t, "#:"@) {
        BlockView { references: b.references.push(trim(t.skip(2))), ..b }
    } else if starts_with(t, "#,"@) {
        BlockView { flags: b.flags + flags_of(split_char(trim(t.skip(2)), ',')), ..b }
    } else if starts_with(t, "#|"@) {
        let rest = trim(t.skip(2));
        match spec_keyword_value(rest, "msgid"@) {
            Some(v) => BlockView { previous_msgid: Some(v), ..b },
            None => match (b.previous_msgid, spec_extract_quoted(rest)) {
                (Some(p), Some(v)) => BlockView { previous_msgid: Some(p + v), ..b },
                _ => b,
            },
        }
    } else if starts_with(t, "# "@) || t == "#"@ {
        BlockView {
            translator_comments: b.translator_comments.push(if t.len() > 2 { t.skip(2) } else { Seq::empty() }),
            ..b
        }
    } else {
        b
    }
}

/// The parse state: the finished blocks, the current block, whether the
/// current block has begun, and the field that continuation lines go to.
pub type BlockState = (Seq<BlockView>, BlockView, bool, Option<CurrentField>);

/// A `msgstr[N] "text"` line: the form it stores and the field it opens,
/// when its index and quoted text read.
pub open spec fn spec_plural_line(b: BlockView, t: Seq<char>) -> Option<(BlockView, u32)> {
    match index_of(t, ']') {
        Some(be) => match parse_u32_spec(t.subrange(7, be)) {
            Some(idx) => match spec_extract_quoted(trim(t.skip(be + 1))) {
                Some(v) => Some((BlockView { msgstr_plural: map_insert(b.msgstr_plural, idx, v), ..b }, idx)),
                None => None,
            },
            None => None,
        },
        None => None,
    }
}

/// One line into the parse state.
pub open spec fn block_step(st: BlockState, line: Seq<char>) -> BlockState {
    let t = trim(line);
    let blocks = st.0;
    let cur = st.1;
    let field = st.3;
    if t.len() == 0 {
        if st.2 { (blocks.push(cur), empty_block(), false, None) } else { st }
    } else if starts_with(t, "#~"@) {
        let rest = trim(t.skip(2));
        let c1 = BlockView { obsolete: true, ..cur };
        match spec_keyword_value(rest, "msgid"@) {
            Some(v) => (blocks, BlockView { msgid: v, ..c1 }, true, Some(CurrentField::Msgid)),
            None => match spec_keyword_value(rest, "msgstr"@) {
                Some(v) => (blocks, BlockView { msgstr: Some(v), ..c1 }, true, Some(CurrentField::Msgstr)),
                None => match spec_extract_quoted(rest) {
                    Some(v) => (blocks, spec_append(c1, field, v), true, field),
                    None => (blocks, c1, true, field),
                },
            },
        }
    } else if t[0] == '#' {
        (blocks, spec_comment_line(cur, t), true, None)
    } else {
        match spec_keyword_value(t, "msgctxt"@) {
            Some(v) => (blocks, BlockView { msgctxt: Some(v), ..cur }, true, Some(CurrentField::Msgctxt)),
            None => match spec_keyword_value(t, "msgid_plural"@) {
                Some(v) => (blocks, BlockView { msgid_plural: Some(v), ..cur }, true, Some(CurrentField::MsgidPlural)),
                None => if starts_with(t, "msgstr["@) {
                    match spec_plural_line(cur, t) {
                        Some((c1, idx)) => (blocks, c1, true, Some(CurrentField::MsgstrPlural(idx))),
                        None => (blocks, cur, true, field),
                    }
                } else {
                    match spec_keyword_value(t, "msgstr"@) {
                        Some(v) => (blocks, BlockView { msgstr: Some(v), ..cur }, true, Some(CurrentField::Msgstr)),
                        None => match spec_keyword_value(t, "msgid"@) {
                            Some(v) => (blocks, BlockView { msgid: v, ..cur }, true, Some(CurrentField::Msgid)),
                            None => match spec_extract_quoted(t) {
                                Some(v) => (blocks, spec_append(cur, field, v), st.2, field),
                                None => st,
                            },
                        },
                    }
                },
            },
        }
    }
}

pub open spec fn block_fold(ls: Seq<Seq<char>>) -> BlockState
    decreases ls.len(),
{
    if ls.len() == 0 {
        (Seq::empty(), empty_block(), false, None)
    } else {
        block_step(block_fold(ls.drop_last()), ls.last())
    }
}

/// The blocks of a PO text: lines grouped into blocks at blank lines.
pub open spec fn spec_blocks(content: Seq<char>) -> Seq<BlockView> {
    let st = block_fold(lines(content));
    if st.2 { st.0.push(st.1) } else { st.0 }
}


fn push_view(v: &mut Vec<String>, x: String)
    ensures
        strings_view(final(v)@) == strings_view(old(v)@).push(x@),
{
    v.push(x);
    assert(strings_view(v@) =~= strings_view(old(v)@).push(x@));
}

fn flags_from(text: &[char]) -> (r: Vec<String>)
    ensures
        strings_view(r@) == flags_of(split_char(text@, ',')),
{
    let parts = split_at_char(text, ',');
    let ghost pv = parts@.map_values(|l: Vec<char>| l@);
    let mut r: Vec<String> = Vec::new();
    let mut i: usize = 0;
    while i < parts.len()
        invariant
            i <= parts@.len(),
            pv == parts@.map_values(|l: Vec<char>| l@),
            strings_view(r@) == flags_of(pv.take(i as int)),
        decreases parts@.len() - i,
    {
        assert(pv.take(i + 1).drop_last() == pv.take(i as int));
        assert(pv.take(i + 1).last() == parts@[i as int]@);
        let f = trim_chars(parts[i].as_slice());
        if f.len() > 0 {
            push_view(&mut r, string_of(f.as_slice()));
        }
        i = i + 1;
    }
    assert(pv.take(parts@.len() as int) == pv);
    r
}

/// Applies a comment line (`#` but not `#~`) to the block.
fn apply_comment_line(b: &mut PoBlock, t: &[char])
    ensures
        block_view(*final(b)) == spec_comment_line(block_view(*old(b)), t@),
{
    let dot = str_chars("#.");
    let colon = str_chars("#:");
    let comma = str_chars("#,");
    let bar = str_chars("#|");
    let hash_space = str_chars("# ");
    let hash = str_chars("#");
    let msgid = str_chars("msgid");
    proof {
        reveal_strlit("#.");
        reveal_strlit("#:");
        reveal_strlit("#,");
        reveal_strlit("#|");
    }
    if chars_start_with(t, dot.as_slice()) {
        let x = chars_range(t, 2, t.len());
        assert(x@ == t@.skip(2));
        push_view(&mut b.extracted_comments, string_of(trim_chars(x.as_slice()).as_slice()));
    } else if chars_start_with(t, colon.as_slice()) {
        let x = chars_range(t, 2, t.len());
        assert(x@ == t@.skip(2));
        push_view(&mut b.references, string_of(trim_chars(x.as_slice()).as_slice()));
    } else if chars_start_with(t, comma.as_slice()) {
        let x = chars_range(t, 2, t.len());
        assert(x@ == t@.skip(2));
        let text = trim_chars(x.as_slice());
        let fl = flags_from(text.as_slice());
        let mut flags: Vec<String> = Vec::new();
        std::mem::swap(&mut flags, &mut b.flags);
        let ghost f0 = strings_view(flags@);
        let mut k: usize = 0;
        while k < fl.len()
            invariant
                k <= fl@.len(),
                strings_view(flags@) == f0 + strings_view(fl@).take(k as int),
            decreases fl@.len() - k,
        {
            push_view(&mut flags, fl[k].clone());
            assert(strings_view(fl@).take(k + 1) == strings_view(fl@).take(k as int).push(fl@[k as int]@));
            k = k + 1;
        }
        assert(strings_view(fl@).take(fl@.len() as int) == strings_view(fl@));
        b.flags = flags;
    } else if chars_start_with(t, bar.as_slice()) {
        let x = chars_range(t, 2, t.len());
        assert(x@ == t@.skip(2));
        let rest = trim_chars(x.as_slice());
        match keyword_value_chars(rest.as_slice(), msgid.as_slice()) {
            Some(v) => {
                b.previous_msgid = Some(string_of(v.as_slice()));
            },
            None => {
                let q = extract_quoted_chars(rest.as_slice());
                match q {
                    Some(v) => match &b.previous_msgid {
                        Some(p) => {
                            let mut np = p.clone();
                            push_chars(&mut np, v.as_slice());
                            b.previous_msgid = Some(np);
                        },
                        None => {},
                    },
                    None => {},
                }
            },
        }
    } else if chars_start_with(t, hash_space.as_slice()) || chars_eq(t, hash.as_slice()) {
        if t.len() > 2 {
            let x = chars_range(t, 2, t.len());
            assert(x@ == t@.skip(2));
            push_view(&mut b.translator_comments, string_of(x.as_slice()));
        } else {
            push_view(&mut b.translator_comments, String::new());
        }
    }
}

/// Applies a `msgstr[N] "text"` line to the block; gives the index it stored.
fn apply_plural_line(b: &mut PoBlock, t: &[char]) -> (r: Option<u32>)
    requires
        starts_with(t@, "msgstr["@),
    ensures
        match spec_plural_line(block_view(*old(b)), t@) {
            Some((c1, idx)) => r == Some(idx) && block_view(*final(b)) == c1,
            None => r is None && block_view(*final(b)) == block_view(*old(b)),
        },
{
    proof {
        reveal_strlit("msgstr[");
        assert forall|j: int| 0 <= j < 7 implies t@[j] != ']' by {
            assert(t@.take(7)[j] == "msgstr["@[j]);
        }
        lemma_index_of(t@, ']');
    }
    match find_char(t, ']') {
        Some(be) => {
            assert(be < t@.len());
            assert(t@.len() == t.len());
            let idx_str = chars_range(t, 7, be);
            match parse_u32(idx_str.as_slice()) {
                Some(idx) => {
                    let x = chars_range(t, be + 1, t.len());
                    assert(x@ == t@.skip(be + 1));
                    let rest = trim_chars(x.as_slice());
                    match extract_quoted_chars(rest.as_slice()) {
                        Some(v) => {
                            index_map_insert(&mut b.msgstr_plural, idx, string_of(v.as_slice()));
                            Some(idx)
                        },
                        None => None,
                    }
                },
                None => None,
            }
        },
        None => None,
    }
}

pub open spec fn blocks_view(v: Seq<PoBlock>) -> Seq<BlockView> {
    v.map_values(|b: PoBlock| block_view(b))
}

fn block_step_exec(
    blocks: &mut Vec<PoBlock>,
    cur: &mut PoBlock,
    in_block: &mut bool,
    field: &mut Option<CurrentField>,
    line: &[char],
)
    ensures
        (blocks_view(final(blocks)@), block_view(*final(cur)), *final(in_block), *final(field)) == block_step(
            (blocks_view(old(blocks)@), block_view(*old(cur)), *old(in_block), *old(field)),
            line@,
        ),
{
    let t = trim_chars(line);
    let obs = str_chars("#~");
    let msgid = str_chars("msgid");
    let msgstr = str_chars("msgstr");
    let msgctxt = str_chars("msgctxt");
    let msgid_plural = str_chars("msgid_plural");
    let msgstr_bracket = str_chars("msgstr[");
    proof {
        reveal_strlit("#~");
    }
    if t.len() == 0 {
        if *in_block {
            let mut done = PoBlock::new();
            std::mem::swap(cur, &mut done);
            let ghost before = blocks_view(blocks@);
            blocks.push(done);
            assert(blocks_view(blocks@) == before.push(block_view(done)));
            *in_block = false;
            *field = None;
        }
    } else if chars_start_with(t.as_slice(), obs.as_slice()) {
        let x = chars_range(t.as_slice(), 2, t.len());
        assert(x@ == t@.skip(2));
        let rest = trim_chars(x.as_slice());
        *in_block = true;
        cur.obsolete = true;
        match keyword_value_chars(rest.as_slice(), msgid.as_slice()) {
            Some(v) => {
                cur.msgid = string_of(v.as_slice());
                *field = Some(CurrentField::Msgid);
            },
            None => match keyword_value_chars(rest.as_slice(), msgstr.as_slice()) {
                Some(v) => {
                    cur.msgstr = Some(string_of(v.as_slice()));
                    *field = Some(CurrentField::Msgstr);
                },
                None => match extract_quoted_chars(rest.as_slice()) {
                    Some(v) => {
                        let vs = string_of(v.as_slice());
                        append_to_field(cur, field, vs.as_str());
                    },
                    None => {},
                },
            },
        }
    } else if t[0] == '#' {
        *in_block = true;
        *field = None;
        apply_comment_line(cur, t.as_slice());
    } else {
        match keyword_value_chars(t.as_slice(), msgctxt.as_slice()) {
            Some(v) => {
                *in_block = true;
                cur.msgctxt = Some(string_of(v.as_slice()));
                *field = Some(CurrentField::Msgctxt);
            },
            None => match keyword_value_chars(t.as_slice(), msgid_plural.as_slice()) {
                Some(v) => {
                    *in_block = true;
                    cur.msgid_plural = Some(string_of(v.as_slice()));
                    *field = Some(CurrentField::MsgidPlural);
                },
                None => if chars_start_with(t.as_slice(), msgstr_bracket.as_slice()) {
                    *in_block = true;
                    match apply_plural_line(cur, t.as_slice()) {
                        Some(idx) => {
                            *field = Some(CurrentField::MsgstrPlural(idx));
                        },
                        None => {},
                    }
                } else {
                    match keyword_value_chars(t.as_slice(), msgstr.as_slice()) {
                        Some(v) => {
                            *in_block = true;
                            cur.msgstr = Some(string_of(v.as_slice()));
                            *field = Some(CurrentField::Msgstr);
                        },
                        None => match keyword_value_chars(t.as_slice(), msgid.as_slice()) {
                            Some(v) => {
                                *in_block = true;
                                cur.msgid = string_of(v.as_slice());
                                *field = Some(CurrentField::Msgid);
                            },
                            None => match extract_quoted_chars(t.as_slice()) {
                                Some(v) => {
                                    let vs = string_of(v.as_slice());
                                    append_to_field(cur, field, vs.as_str());
                                },
                                None => {},
                            },
                        },
                    }
                },
            },
        }
    }
}

/// Parses all PO blocks from the content: blank lines end blocks; comment,
/// keyword and continuation lines fill the current block.
pub fn parse_blocks(content: &str) -> (r: Vec<PoBlock>)
    ensures
        blocks_view(r@) == spec_blocks(content@),
{
    let chars = str_chars(content);
    let ls = split_lines(chars.as_slice());
    let ghost lv = ls@.map_values(|l: Vec<char>| l@);
    let mut blocks: Vec<PoBlock> = Vec::new();
    let mut current = PoBlock::new();
    let mut in_block = false;
    let mut field: Option<CurrentField> = None;
    let mut i: usize = 0;
    assert(blocks_view(blocks@) =~= Seq::<BlockView>::empty());
    while i < ls.len()
        invariant
            i <= ls@.len(),
            lv == ls@.map_values(|l: Vec<char>| l@),
            lv == lines(content@),
            block_fold(lv.take(i as int)) == (blocks_view(blocks@), block_view(current), in_block, field),
        decreases ls@.len() - i,
    {
        assert(lv.take(i + 1).drop_last() == lv.take(i as int));
        assert(lv.take(i + 1).last() == ls@[i as int]@);
        block_step_exec(&mut blocks, &mut current, &mut in_block, &mut field, ls[i].as_slice());
        i = i + 1;
    }
    assert(lv.take(ls@.len() as int) == lv);
    if in_block {
        let ghost before = blocks_view(blocks@);
        blocks.push(current);
        assert(blocks_view(blocks@) == before.push(block_view(current)));
    }
    blocks
}


// ---------------------------------------------------------------------------
// Reading a resource
// ---------------------------------------------------------------------------

/// The header fields read so far: the language, the headers in order, the
/// `Plural-Forms` header and the number of plural forms it gives.
pub type HeaderState = (Option<Seq<char>>, Seq<(Seq<char>, Seq<char>)>, Option<Seq<char>>, u32);

/// One line of a header block's `msgstr`: `Key: value`, both trimmed; a line
/// without `:` is passed over.
pub open spec fn header_step(st: HeaderState, line: Seq<char>) -> HeaderState {
    let l = trim(line);
    match index_of(l, ':') {
        Some(c) => {
            let key = trim(l.take(c));
            let val = trim(l.skip(c + 1));
            (
                if key == "Language"@ { Some(val) } else { st.0 },
                map_insert(st.1, key, val),
                if key == "Plural-Forms"@ { Some(val) } else { st.2 },
                if key == "Plural-Forms"@ { spec_nplurals(val) } else { st.3 },
            )
        },
        None => st,
    }
}

pub open spec fn header_fold(st: HeaderState, ls: Seq<Seq<char>>) -> HeaderState
    decreases ls.len(),
{
    if ls.len() == 0 {
        st
    } else {
        header_step(header_fold(st, ls.drop_last()), ls.last())
    }
}

/// The state of reading blocks: the header fields, the extension of the last
/// header block (its `Plural-Forms` and translator comments), and each
/// entry's block with the number of plural forms in force when it was read.
pub type PoState = (HeaderState, Option<(Option<Seq<char>>, Seq<Seq<char>>)>, Seq<(Seq<char>, (BlockView, u32))>);

/// A header block: empty `msgid`, no `msgctxt`, not obsolete.
pub open spec fn is_header(b: BlockView) -> bool {
    b.msgid.len() == 0 && b.msgctxt is None && !b.obsolete
}

pub open spec fn po_step(st: PoState, b: BlockView) -> PoState {
    if is_header(b) {
        let h = match b.msgstr {
            Some(m) => header_fold(st.0, split_char(m, '\n')),
            None => st.0,
        };
        (h, Some((h.2, b.translator_comments)), st.2)
    } else {
        (st.0, st.1, map_insert(st.2, spec_entry_key(b.msgctxt, b.msgid), (b, st.0.3)))
    }
}

pub open spec fn po_fold(bs: Seq<BlockView>) -> PoState
    decreases bs.len(),
{
    if bs.len() == 0 {
        ((None, Seq::empty(), None, 2), None, Seq::empty())
    } else {
        po_step(po_fold(bs.drop_last()), bs.last())
    }
}

/// What reading a PO text gives.
pub open spec fn spec_parse(content: Seq<char>) -> PoState {
    po_fold(spec_blocks(content))
}

/// The plural forms that the indexed `msgstr[N]` texts fill, in order, each
/// under the category of its index.
pub open spec fn plural_fold(pairs: Seq<(u32, Seq<char>)>, np: u32) -> PluralView
    decreases pairs.len(),
{
    if pairs.len() == 0 {
        (None, None, None, None, None, Seq::empty())
    } else {
        plural_put(plural_fold(pairs.drop_last(), np), category_of(pairs.last().0, np), pairs.last().1)
    }
}

pub open spec fn comment_is(c: Comment, text: Seq<char>, role: CommentRole) -> bool {
    c.text@ == text && c.role == role && c.priority is None && c.annotates is None
}

/// Translator comments, then extracted comments.
pub open spec fn po_comments(cs: Seq<Comment>, tc: Seq<Seq<char>>, ec: Seq<Seq<char>>) -> bool {
    &&& cs.len() == tc.len() + ec.len()
    &&& forall|i: int| 0 <= i < tc.len() ==> comment_is(#[trigger] cs[i], tc[i], CommentRole::Translator)
    &&& forall|j: int| 0 <= j < ec.len() ==> comment_is(#[trigger] cs[tc.len() + j], ec[j], CommentRole::Extracted)
}

/// The entry read from a block, with the number of plural forms in force.
pub open spec fn entry_of_block(e: I18nEntry, x: (BlockView, u32)) -> bool {
    let b = x.0;
    &&& e.key@ == spec_entry_key(b.msgctxt, b.msgid)
    &&& match b.msgid_plural {
        Some(_) => e.value matches EntryValue::Plural(ps) && plural_set_view(ps) == plural_fold(b.msgstr_plural, x.1)
            && count_map_pairs(ps.exact_matches).len() == 0 && ps.range_matches@.len() == 0 && !ps.ordinal,
        None => e.value matches EntryValue::Simple(s) && s@ == match b.msgstr {
            Some(m) => m,
            None => Seq::empty(),
        },
    }
    &&& str_map_pairs(e.properties) == match b.msgid_plural {
        Some(p) => seq![("msgid_plural"@, p)],
        None => Seq::empty(),
    }
    &&& po_comments(e.comments@, b.translator_comments, b.extracted_comments)
    &&& match b.msgctxt {
        Some(c) => e.contexts@.len() == 1 && e.contexts@[0].context_type == ContextType::Disambiguation
            && e.contexts@[0].value@ == c && e.contexts@[0].purpose is None,
        None => e.contexts@.len() == 0,
    }
    &&& opt_view(e.source) == Some(b.msgid)
    &&& opt_view(e.previous_source) == b.previous_msgid
    &&& e.state == if b.flags.contains("fuzzy"@) { Some(TranslationState::NeedsReview) } else { None }
    &&& e.obsolete == b.obsolete
    &&& refs_view(e.source_references@) == spec_source_refs(b.references)
    &&& strings_view(e.flags@) == b.flags
    &&& e.previous_comment is None
    &&& e.placeholders@.len() == 0
    &&& e.translatable is None
    &&& e.state_qualifier is None
    &&& e.approved is None
    &&& e.max_width is None
    &&& e.min_width is None
    &&& e.max_height is None
    &&& e.min_height is None
    &&& e.size_unit is None
    &&& e.max_bytes is None
    &&& e.min_bytes is None
    &&& e.device_variants is None
    &&& e.alternatives@.len() == 0
    &&& e.resource_type is None
    &&& e.resource_name is None
    &&& e.format_ext is None
}

pub open spec fn po_rel() -> spec_fn(I18nEntry, (BlockView, u32)) -> bool {
    |e: I18nEntry, x: (BlockView, u32)| entry_of_block(e, x)
}

/// What a resource read from PO text holds: the language and headers of the
/// header blocks, the PO extension (always present), and the entries.
pub open spec fn parsed_resource(res: I18nResource, st: PoState) -> bool {
    &&& res.metadata.source_format == FormatId::Po
    &&& opt_view(res.metadata.locale) == st.0.0
    &&& str_map_pairs(res.metadata.headers) == st.0.1
    &&& res.metadata.source_locale is None
    &&& str_map_pairs(res.metadata.properties).len() == 0
    &&& res.metadata.encoding is None
    &&& res.metadata.direction is None
    &&& res.metadata.created_at is None
    &&& res.metadata.modified_at is None
    &&& res.metadata.created_by is None
    &&& res.metadata.modified_by is None
    &&& res.metadata.tool_name is None
    &&& res.metadata.tool_version is None
    &&& res.metadata.format_ext matches Some(FormatExtension::Po(x)) && match st.1 {
        Some(h) => opt_view(x.plural_forms_header) == h.0 && strings_view(x.translator_comments@) == h.1,
        None => x.plural_forms_header is None && x.translator_comments@.len() == 0,
    }
    &&& pairs_model(entry_map_pairs(res.entries), st.2, po_rel())
}


fn copy_strings(v: &Vec<String>) -> (r: Vec<String>)
    ensures
        strings_view(r@) == strings_view(v@),
{
    let mut r: Vec<String> = Vec::new();
    let mut i: usize = 0;
    while i < v.len()
        invariant
            i <= v@.len(),
            strings_view(r@) == strings_view(v@).take(i as int),
        decreases v@.len() - i,
    {
        push_view(&mut r, v[i].clone());
        assert(strings_view(v@).take(i + 1) == strings_view(v@).take(i as int).push(v@[i as int]@));
        i = i + 1;
    }
    assert(strings_view(v@).take(v@.len() as int) == strings_view(v@));
    r
}

fn has_fuzzy(flags: &Vec<String>) -> (r: bool)
    ensures
        r == strings_view(flags@).contains("fuzzy"@),
{
    let mut i: usize = 0;
    while i < flags.len()
        invariant
            i <= flags@.len(),
            forall|j: int| 0 <= j < i ==> strings_view(flags@)[j] != "fuzzy"@,
        decreases flags@.len() - i,
    {
        if str_eq(flags[i].as_str(), "fuzzy") {
            assert(strings_view(flags@)[i as int] == "fuzzy"@);
            return true;
        }
        i = i + 1;
    }
    false
}

fn comments_from(tc: &Vec<String>, ec: &Vec<String>) -> (cs: Vec<Comment>)
    ensures
        po_comments(cs@, strings_view(tc@), strings_view(ec@)),
{
    let mut cs: Vec<Comment> = Vec::new();
    let mut i: usize = 0;
    while i < tc.len()
        invariant
            i <= tc@.len(),
            cs@.len() == i,
            forall|k: int| 0 <= k < i ==> comment_is(#[trigger] cs@[k], tc@[k]@, CommentRole::Translator),
        decreases tc@.len() - i,
    {
        cs.push(Comment { text: tc[i].clone(), role: CommentRole::Translator, priority: None, annotates: None });
        i = i + 1;
    }
    let mut j: usize = 0;
    while j < ec.len()
        invariant
            j <= ec@.len(),
            cs@.len() == tc@.len() + j,
            forall|k: int| 0 <= k < tc@.len() ==> comment_is(#[trigger] cs@[k], tc@[k]@, CommentRole::Translator),
            forall|k: int| 0 <= k < j ==> comment_is(#[trigger] cs@[tc@.len() + k], ec@[k]@, CommentRole::Extracted),
        decreases ec@.len() - j,
    {
        cs.push(Comment { text: ec[j].clone(), role: CommentRole::Extracted, priority: None, annotates: None });
        j = j + 1;
    }
    cs
}

fn plural_from(m: &IndexMap<u32, String>, np: u32) -> (ps: PluralSet)
    ensures
        plural_set_view(ps) == plural_fold(index_map_pairs(*m), np),
        count_map_pairs(ps.exact_matches).len() == 0,
        ps.range_matches@.len() == 0,
        !ps.ordinal,
{
    let mut ps = PluralSet::default();
    let n = index_map_len(m);
    let ghost pairs = index_map_pairs(*m);
    let mut i: usize = 0;
    assert(plural_set_view(ps) == plural_fold(pairs.take(0), np));
    while i < n
        invariant
            i <= n,
            n == pairs.len(),
            pairs == index_map_pairs(*m),
            plural_set_view(ps) == plural_fold(pairs.take(i as int), np),
            count_map_pairs(ps.exact_matches).len() == 0,
            ps.range_matches@.len() == 0,
            !ps.ordinal,
        decreases n - i,
    {
        assert(pairs.take(i + 1).drop_last() == pairs.take(i as int));
        assert(pairs.take(i + 1).last() == pairs[i as int]);
        match index_map_get_index(m, i) {
            Some((idx, val)) => {
                let cat = plural_index_to_category(*idx, np);
                put_plural(&mut ps, cat, val.clone());
            },
            None => {},
        }
        i = i + 1;
    }
    assert(pairs.take(n as int) == pairs);
    ps
}

/// The entry that a (non-header) block gives.
fn entry_from_block(b: &PoBlock, np: u32) -> (e: I18nEntry)
    ensures
        entry_of_block(e, (block_view(*b), np)),
{
    let key = make_entry_key(&b.msgctxt, b.msgid.as_str());
    let value = match &b.msgid_plural {
        Some(_) => EntryValue::Plural(plural_from(&b.msgstr_plural, np)),
        None => match &b.msgstr {
            Some(m) => EntryValue::Simple(m.clone()),
            None => EntryValue::Simple(String::new()),
        },
    };
    let mut properties = str_map_new();
    match &b.msgid_plural {
        Some(p) => {
            str_map_insert(&mut properties, "msgid_plural".to_string(), p.clone());
            proof {
                reveal_strlit("msgid_plural");
            }
        },
        None => {},
    }
    let comments = comments_from(&b.translator_comments, &b.extracted_comments);
    let state = if has_fuzzy(&b.flags) { Some(TranslationState::NeedsReview) } else { None };
    let mut contexts: Vec<ContextEntry> = Vec::new();
    match &b.msgctxt {
        Some(ctx) => {
            contexts.push(ContextEntry { context_type: ContextType::Disambiguation, value: ctx.clone(), purpose: None });
        },
        None => {},
    }
    I18nEntry {
        key,
        value,
        comments,
        contexts,
        source: Some(b.msgid.clone()),
        previous_source: clone_opt(&b.previous_msgid),
        previous_comment: None,
        placeholders: Vec::new(),
        translatable: None,
        state,
        state_qualifier: None,
        approved: None,
        obsolete: b.obsolete,
        max_width: None,
        min_width: None,
        max_height: None,
        min_height: None,
        size_unit: None,
        max_bytes: None,
        min_bytes: None,
        source_references: parse_source_refs(b.references.as_slice()),
        flags: copy_strings(&b.flags),
        device_variants: None,
        alternatives: Vec::new(),
        properties,
        resource_type: None,
        resource_name: None,
        format_ext: None,
    }
}


/// Reads the `Key: value` lines of a header block's `msgstr`.
fn read_headers(
    msgstr: &String,
    locale: &mut Option<String>,
    headers: &mut IndexMap<String, String>,
    pf: &mut Option<String>,
    np: &mut u32,
)
    ensures
        (opt_view(*final(locale)), str_map_pairs(*final(headers)), opt_view(*final(pf)), *final(np)) == header_fold(
            (opt_view(*old(locale)), str_map_pairs(*old(headers)), opt_view(*old(pf)), *old(np)),
            split_char(msgstr@, '\n'),
        ),
{
    let chars = str_chars(msgstr.as_str());
    let parts = split_at_char(chars.as_slice(), '\n');
    let ghost pv = parts@.map_values(|l: Vec<char>| l@);
    let ghost st0 = (opt_view(*locale), str_map_pairs(*headers), opt_view(*pf), *np);
    let mut i: usize = 0;
    while i < parts.len()
        invariant
            i <= parts@.len(),
            pv == parts@.map_values(|l: Vec<char>| l@),
            pv == split_char(msgstr@, '\n'),
            (opt_view(*locale), str_map_pairs(*headers), opt_view(*pf), *np) == header_fold(st0, pv.take(i as int)),
        decreases parts@.len() - i,
    {
        assert(pv.take(i + 1).drop_last() == pv.take(i as int));
        assert(pv.take(i + 1).last() == parts@[i as int]@);
        let l = trim_chars(parts[i].as_slice());
        proof {
            lemma_index_of(l@, ':');
        }
        match find_char(l.as_slice(), ':') {
            Some(c) => {
                assert(l@.len() == l.len());
                let before = chars_range(l.as_slice(), 0, c);
                let after = chars_range(l.as_slice(), c + 1, l.len());
                assert(before@ == l@.take(c as int));
                assert(after@ == l@.skip(c + 1));
                let key = string_of(trim_chars(before.as_slice()).as_slice());
                let val = string_of(trim_chars(after.as_slice()).as_slice());
                if str_eq(key.as_str(), "Language") {
                    *locale = Some(val.clone());
                }
                if str_eq(key.as_str(), "Plural-Forms") {
                    *pf = Some(val.clone());
                    *np = parse_nplurals(val.as_str());
                }
                str_map_insert(headers, key, val);
            },
            None => {},
        }
        i = i + 1;
    }
    assert(pv.take(parts@.len() as int) == pv);
}

pub open spec fn ext_view(x: Option<PoExt>) -> Option<(Option<Seq<char>>, Seq<Seq<char>>)> {
    match x {
        Some(e) => Some((opt_view(e.plural_forms_header), strings_view(e.translator_comments@))),
        None => None,
    }
}

/// Reads PO text: header blocks give the language, the headers and the PO
/// extension; every other block gives an entry.
pub fn parse_po(text: &str) -> (res: I18nResource)
    ensures
        parsed_resource(res, spec_parse(text@)),
{
    let blocks = parse_blocks(text);
    let ghost bv = blocks_view(blocks@);
    let mut locale: Option<String> = None;
    let mut headers = str_map_new();
    let mut pf: Option<String> = None;
    let mut np: u32 = 2;
    let mut ext: Option<PoExt> = None;
    let mut entries = entry_map_new();
    let ghost mut model: Seq<(Seq<char>, (BlockView, u32))> = Seq::empty();
    proof {
        reveal_strlit("");
    }
    let mut i: usize = 0;
    while i < blocks.len()
        invariant
            i <= blocks@.len(),
            bv == blocks_view(blocks@),
            bv == spec_blocks(text@),
            po_fold(bv.take(i as int)) == ((opt_view(locale), str_map_pairs(headers), opt_view(pf), np), ext_view(ext), model),
            pairs_model(entry_map_pairs(entries), model, po_rel()),
            ""@ == Seq::<char>::empty(),
        decreases blocks@.len() - i,
    {
        assert(bv.take(i + 1).drop_last() == bv.take(i as int));
        assert(bv.take(i + 1).last() == block_view(blocks@[i as int]));
        let b = &blocks[i];
        assert(b.msgid@.len() == 0 ==> b.msgid@ =~= ""@);
        if str_eq(b.msgid.as_str(), "") && b.msgctxt.is_none() && !b.obsolete {
            match &b.msgstr {
                Some(m) => read_headers(m, &mut locale, &mut headers, &mut pf, &mut np),
                None => {},
            }
            ext = Some(PoExt { plural_forms_header: clone_opt(&pf), translator_comments: copy_strings(&b.translator_comments) });
        } else {
            let e = entry_from_block(b, np);
            let key = e.key.clone();
            proof {
                lemma_pairs_model_insert(entry_map_pairs(entries), model, po_rel(), key@, e, (block_view(*b), np));
            }
            entry_map_insert(&mut entries, key, e);
            proof {
                model = map_insert(model, key@, (block_view(*b), np));
            }
        }
        i = i + 1;
    }
    assert(bv.take(blocks@.len() as int) == bv);
    let ext_final = match ext {
        Some(x) => x,
        None => PoExt { plural_forms_header: None, translator_comments: Vec::new() },
    };
    let metadata = ResourceMetadata {
        source_format: FormatId::Po,
        locale,
        source_locale: None,
        headers,
        properties: str_map_new(),
        encoding: None,
        direction: None,
        created_at: None,
        modified_at: None,
        created_by: None,
        modified_by: None,
        tool_name: None,
        tool_version: None,
        format_ext: Some(FormatExtension::Po(ext_final)),
    };
    I18nResource { metadata, entries }
}

pub open spec fn spec_capabilities() -> FormatCapabilities {
    FormatCapabilities {
        plurals: true,
        comments: true,
        context: true,
        source_string: true,
        translation_state: true,
        source_references: true,
        ..FormatCapabilities::spec_none()
    }
}

/// Content that holds both `msgid` and `msgstr`.
pub open spec fn looks_like_po(s: Seq<char>) -> bool {
    contains(s, "msgid"@) && contains(s, "msgstr"@)
}

/// How sure this format is that it can read a file with the extension and
/// content.
pub open spec fn spec_detect(extension: Seq<char>, content: Seq<u8>) -> Confidence {
    if extension == ".po"@ || extension == ".pot"@ {
        Confidence::Definite
    } else if valid_utf8(content) && looks_like_po(decode_utf8(content)) {
        Confidence::Definite
    } else {
        Confidence::NoMatch
    }
}

impl Parser {
    /// `.po` and `.pot` are certain; so is UTF-8 text with `msgid` and `msgstr`.
    pub fn detect(&self, extension: &str, content: &[u8]) -> (c: Confidence)
        ensures
            c == spec_detect(extension@, content@),
    {
        if str_eq(extension, ".po") || str_eq(extension, ".pot") {
            return Confidence::Definite;
        }
        match std::str::from_utf8(content) {
            Ok(s) => {
                if str_contains(s, "msgid") && str_contains(s, "msgstr") {
                    Confidence::Definite
                } else {
                    Confidence::NoMatch
                }
            },
            Err(_) => Confidence::NoMatch,
        }
    }

    /// Parses UTF-8 PO content.
    pub fn parse(&self, content: &[u8]) -> (r: Result<I18nResource, ParseError>)
        ensures
            !valid_utf8(content@) ==> r matches Err(ParseError::InvalidFormat(_)),
            valid_utf8(content@) ==> (r matches Ok(res) && parsed_resource(res, spec_parse(decode_utf8(content@)))),
    {
        match std::str::from_utf8(content) {
            Ok(text) => Ok(parse_po(text)),
            Err(e) => Err(ParseError::InvalidFormat(utf8_error_message(&e))),
        }
    }

    pub fn capabilities(&self) -> (c: FormatCapabilities)
        ensures
            c == spec_capabilities(),
    {
        FormatCapabilities {
            plurals: true,
            comments: true,
            context: true,
            source_string: true,
            translation_state: true,
            source_references: true,
            ..FormatCapabilities::default()
        }
    }
}


// ---------------------------------------------------------------------------
// Writing a resource
// ---------------------------------------------------------------------------

pub open spec fn line_nl() -> spec_fn(Seq<char>) -> Seq<char> {
    |l: Seq<char>| l + "\n"@
}

/// A keyword line with the quoted lines of `s`: `kw "first"` and then each
/// further line on its own.
pub open spec fn kw_text(kw: Seq<char>, s: Seq<char>) -> Seq<char> {
    let ls = spec_po_lines(s);
    kw + " "@ + ls[0] + "\n"@ + concat_all(ls.skip(1), line_nl())
}

/// Writes `kw` and the quoted lines of `s`.
fn write_keyword(out: &mut String, kw: &str, s: &str)
    ensures
        final(out)@ == old(out)@ + kw_text(kw@, s@),
{
    let lines = format_po_string(s);
    let ghost lv = lines_view(lines@);
    let ghost rest = lv.skip(1);
    out.append(kw);
    out.append(" ");
    out.append(lines[0].as_str());
    out.append("\n");
    let ghost start = out@;
    let mut i: usize = 1;
    while i < lines.len()
        invariant
            1 <= i <= lines@.len(),
            lv == lines_view(lines@),
            rest == lv.skip(1),
            out@ == start + concat_all(rest.take(i - 1), line_nl()),
        decreases lines@.len() - i,
    {
        proof {
            lemma_concat_all_step(rest, i - 1, line_nl());
            assert(rest[i - 1] == lines@[i as int]@);
        }
        out.append(lines[i].as_str());
        out.append("\n");
        i = i + 1;
    }
    proof {
        lemma_concat_all_full(rest, line_nl());
    }
}

/// The number of plural forms to write: from the PO extension's
/// `Plural-Forms`, else from the `Plural-Forms` header, else 2.
pub open spec fn spec_get_nplurals(res: I18nResource) -> u32 {
    match res.metadata.format_ext {
        Some(FormatExtension::Po(x)) if x.plural_forms_header is Some => spec_nplurals(x.plural_forms_header.unwrap()@),
        _ => match map_get(str_map_pairs(res.metadata.headers), "Plural-Forms"@) {
            Some(pf) => spec_nplurals(pf),
            None => 2,
        },
    }
}

/// Gets the number of plural forms from a resource's PO extension or headers.
pub fn get_nplurals(resource: &I18nResource) -> (n: u32)
    ensures
        n == spec_get_nplurals(*resource),
{
    match &resource.metadata.format_ext {
        Some(FormatExtension::Po(x)) => match &x.plural_forms_header {
            Some(pf) => {
                return parse_nplurals(pf.as_str());
            },
            None => {},
        },
        _ => {},
    }
    match str_map_get(&resource.metadata.headers, "Plural-Forms") {
        Some(pf) => parse_nplurals(pf.as_str()),
        None => 2,
    }
}

pub open spec fn hash_comment() -> spec_fn(Seq<char>) -> Seq<char> {
    |c: Seq<char>| "# "@ + c + "\n"@
}

pub open spec fn header_line_text() -> spec_fn((Seq<char>, Seq<char>)) -> Seq<char> {
    |p: (Seq<char>, Seq<char>)| "\""@ + spec_escape(p.0) + ": "@ + spec_escape(p.1) + "\\n\"\n"@
}

/// The header block: the PO extension's translator comments, the empty
/// `msgid` and `msgstr`, and one quoted `Key: value\n` line per header.
pub open spec fn header_text(res: I18nResource) -> Seq<char> {
    (match res.metadata.format_ext {
        Some(FormatExtension::Po(x)) => concat_all(strings_view(x.translator_comments@), hash_comment()),
        _ => Seq::empty(),
    }) + "msgid \"\"\n"@ + "msgstr \"\"\n"@ + concat_all(str_map_pairs(res.metadata.headers), header_line_text())
}

fn write_header(out: &mut String, resource: &I18nResource)
    ensures
        final(out)@ == old(out)@ + header_text(*resource),
{
    let ghost start = out@;
    match &resource.metadata.format_ext {
        Some(FormatExtension::Po(x)) => {
            let ghost cs = strings_view(x.translator_comments@);
            let mut i: usize = 0;
            while i < x.translator_comments.len()
                invariant
                    i <= cs.len(),
                    cs == strings_view(x.translator_comments@),
                    out@ == start + concat_all(cs.take(i as int), hash_comment()),
                decreases cs.len() - i,
            {
                proof {
                    lemma_concat_all_step(cs, i as int, hash_comment());
                }
                out.append("# ");
                out.append(x.translator_comments[i].as_str());
                out.append("\n");
                i = i + 1;
            }
            proof {
                lemma_concat_all_full(cs, hash_comment());
            }
        },
        _ => {},
    }
    out.append("msgid \"\"\n");
    out.append("msgstr \"\"\n");
    let ghost mid = out@;
    let ghost hs = str_map_pairs(resource.metadata.headers);
    let n = str_map_len(&resource.metadata.headers);
    let mut i: usize = 0;
    while i < n
        invariant
            i <= n,
            n == hs.len(),
            hs == str_map_pairs(resource.metadata.headers),
            out@ == mid + concat_all(hs.take(i as int), header_line_text()),
        decreases n - i,
    {
        proof {
            lemma_concat_all_step(hs, i as int, header_line_text());
        }
        match str_map_get_index(&resource.metadata.headers, i) {
            Some((k, v)) => {
                out.append("\"");
                out.append(po_escape(k.as_str()).as_str());
                out.append(": ");
                out.append(po_escape(v.as_str()).as_str());
                out.append("\\n\"\n");
            },
            None => {},
        }
        i = i + 1;
    }
    proof {
        lemma_concat_all_full(hs, header_line_text());
    }
}


pub open spec fn comment_text() -> spec_fn(Comment) -> Seq<char> {
    |c: Comment|
        if c.role == CommentRole::Extracted {
            "#. "@ + c.text@ + "\n"@
        } else {
            "# "@ + c.text@ + "\n"@
        }
}

pub open spec fn ref_text() -> spec_fn(SourceRef) -> Seq<char> {
    |r: SourceRef|
        "#: "@ + r.file@ + match r.line {
            Some(n) => ":"@ + decimal(n as nat),
            None => Seq::empty(),
        } + "\n"@
}

/// The flags line: the flags joined with `, `, or `fuzzy` for an entry that
/// needs review and has no flags.
pub open spec fn flags_text(e: I18nEntry) -> Seq<char> {
    if e.flags@.len() > 0 {
        "#, "@ + join(string_views(e.flags@), ", "@) + "\n"@
    } else if e.state == Some(TranslationState::NeedsReview) {
        "#, fuzzy\n"@
    } else {
        Seq::empty()
    }
}

pub open spec fn prev_text(e: I18nEntry) -> Seq<char> {
    match e.previous_source {
        Some(p) => "#| msgid \""@ + spec_escape(p@) + "\"\n"@,
        None => Seq::empty(),
    }
}

/// An obsolete entry: its `msgid` and `msgstr` behind `#~`.
pub open spec fn obsolete_text(e: I18nEntry) -> Seq<char> {
    (match e.source {
        Some(s) => "#~ msgid \""@ + spec_escape(s@) + "\"\n"@,
        None => Seq::empty(),
    }) + match e.value {
        EntryValue::Simple(v) => "#~ msgstr \""@ + spec_escape(v@) + "\"\n"@,
        _ => "#~ msgstr \"\"\n"@,
    }
}

pub open spec fn ctx_text() -> spec_fn(ContextEntry) -> Seq<char> {
    |c: ContextEntry|
        if c.context_type == ContextType::Disambiguation {
            kw_text("msgctxt"@, c.value@)
        } else {
            Seq::empty()
        }
}

/// The `msgid` written: the source text, or the key when there is none.
pub open spec fn msgid_of(e: I18nEntry) -> Seq<char> {
    match e.source {
        Some(s) => s@,
        None => e.key@,
    }
}

pub open spec fn opt_or_empty(o: Option<String>) -> Seq<char> {
    match o {
        Some(s) => s@,
        None => Seq::empty(),
    }
}

/// The plural form of a category; an absent form is empty.
pub open spec fn plural_value(ps: PluralSet, cat: Seq<char>) -> Seq<char> {
    if cat == "zero"@ {
        opt_or_empty(ps.zero)
    } else if cat == "one"@ {
        opt_or_empty(ps.one)
    } else if cat == "two"@ {
        opt_or_empty(ps.two)
    } else if cat == "few"@ {
        opt_or_empty(ps.few)
    } else if cat == "many"@ {
        opt_or_empty(ps.many)
    } else if cat == "other"@ {
        ps.other@
    } else {
        Seq::empty()
    }
}

/// `msgstr[i]` for each index below `n`, with the form of its category.
pub open spec fn plural_forms_text(ps: PluralSet, np: u32, n: nat) -> Seq<char>
    decreases n,
{
    if n == 0 {
        Seq::empty()
    } else {
        plural_forms_text(ps, np, (n - 1) as nat) + kw_text(
            "msgstr["@ + decimal((n - 1) as nat) + "]"@,
            plural_value(ps, category_of((n - 1) as u32, np)),
        )
    }
}

/// The translation: `msgid_plural` (from the properties, else the msgid
/// with `s`) and one `msgstr[i]` per plural form, or `msgstr`; a value PO
/// cannot hold is written as an empty `msgstr`.
pub open spec fn value_text(e: I18nEntry, np: u32) -> Seq<char> {
    match e.value {
        EntryValue::Plural(ps) => kw_text(
            "msgid_plural"@,
            match map_get(str_map_pairs(e.properties), "msgid_plural"@) {
                Some(p) => p,
                None => msgid_of(e) + "s"@,
            },
        ) + plural_forms_text(ps, np, np as nat),
        EntryValue::Simple(v) => kw_text("msgstr"@, v@),
        _ => "msgstr \"\"\n"@,
    }
}

/// The block written for one entry.
#[verifier::opaque]
pub open spec fn spec_entry_text(e: I18nEntry, np: u32) -> Seq<char> {
    concat_all(e.comments@, comment_text()) + concat_all(e.source_references@, ref_text()) + flags_text(e)
        + prev_text(e) + if e.obsolete {
        obsolete_text(e)
    } else {
        concat_all(e.contexts@, ctx_text()) + kw_text("msgid"@, msgid_of(e)) + value_text(e, np)
    }
}

fn write_comments(out: &mut String, cs: &Vec<Comment>)
    ensures
        final(out)@ == old(out)@ + concat_all(cs@, comment_text()),
{
    let ghost start = out@;
    let mut i: usize = 0;
    while i < cs.len()
        invariant
            i <= cs@.len(),
            out@ == start + concat_all(cs@.take(i as int), comment_text()),
        decreases cs@.len() - i,
    {
        proof {
            lemma_concat_all_step(cs@, i as int, comment_text());
        }
        match cs[i].role {
            CommentRole::Extracted => out.append("#. "),
            _ => out.append("# "),
        }
        out.append(cs[i].text.as_str());
        out.append("\n");
        i = i + 1;
    }
    proof {
        lemma_concat_all_full(cs@, comment_text());
    }
}

fn write_refs(out: &mut String, rs: &Vec<SourceRef>)
    ensures
        final(out)@ == old(out)@ + concat_all(rs@, ref_text()),
{
    let ghost start = out@;
    let mut i: usize = 0;
    while i < rs.len()
        invariant
            i <= rs@.len(),
            out@ == start + concat_all(rs@.take(i as int), ref_text()),
        decreases rs@.len() - i,
    {
        proof {
            lemma_concat_all_step(rs@, i as int, ref_text());
        }
        out.append("#: ");
        out.append(rs[i].file.as_str());
        match rs[i].line {
            Some(n) => {
                out.append(":");
                push_decimal(out, n as u64);
            },
            None => {},
        }
        out.append("\n");
        i = i + 1;
    }
    proof {
        lemma_concat_all_full(rs@, ref_text());
    }
}

fn write_contexts(out: &mut String, cs: &Vec<ContextEntry>)
    ensures
        final(out)@ == old(out)@ + concat_all(cs@, ctx_text()),
{
    let ghost start = out@;
    let mut i: usize = 0;
    while i < cs.len()
        invariant
            i <= cs@.len(),
            out@ == start + concat_all(cs@.take(i as int), ctx_text()),
        decreases cs@.len() - i,
    {
        proof {
            lemma_concat_all_step(cs@, i as int, ctx_text());
        }
        match cs[i].context_type {
            ContextType::Disambiguation => write_keyword(out, "msgctxt", cs[i].value.as_str()),
            _ => {},
        }
        i = i + 1;
    }
    proof {
        lemma_concat_all_full(cs@, ctx_text());
    }
}

fn plural_value_of(ps: &PluralSet, cat: &str) -> (r: String)
    requires
        cat@ == "zero"@ || cat@ == "one"@ || cat@ == "two"@ || cat@ == "few"@ || cat@ == "many"@ || cat@ == "other"@,
    ensures
        r@ == plural_value(*ps, cat@),
{
    proof {
        reveal_strlit("zero");
        reveal_strlit("one");
        reveal_strlit("two");
        reveal_strlit("few");
        reveal_strlit("many");
        reveal_strlit("other");
    }
    let o = if str_eq(cat, "zero") {
        &ps.zero
    } else if str_eq(cat, "one") {
        &ps.one
    } else if str_eq(cat, "two") {
        &ps.two
    } else if str_eq(cat, "few") {
        &ps.few
    } else if str_eq(cat, "many") {
        &ps.many
    } else {
        return ps.other.clone();
    };
    match o {
        Some(v) => v.clone(),
        None => String::new(),
    }
}

fn write_plural_forms(out: &mut String, ps: &PluralSet, np: u32)
    ensures
        final(out)@ == old(out)@ + plural_forms_text(*ps, np, np as nat),
{
    let ghost start = out@;
    let mut i: u32 = 0;
    while i < np
        invariant
            i <= np,
            out@ == start + plural_forms_text(*ps, np, i as nat),
        decreases np - i,
    {
        let cat = plural_index_to_category(i, np);
        let mut kw = String::new();
        kw.append("msgstr[");
        push_decimal(&mut kw, i as u64);
        kw.append("]");
        write_keyword(out, kw.as_str(), plural_value_of(ps, cat).as_str());
        i = i + 1;
    }
}


fn write_flags(out: &mut String, entry: &I18nEntry)
    ensures
        final(out)@ == old(out)@ + flags_text(*entry),
{
    let ghost start = out@;
    if entry.flags.len() > 0 {
        out.append("#, ");
        out.append(join_strings(&entry.flags, ", ").as_str());
        out.append("\n");
    } else {
        match entry.state {
            Some(TranslationState::NeedsReview) => out.append("#, fuzzy\n"),
            _ => {},
        }
    }
    assert(out@ =~= start + flags_text(*entry));
}

fn write_prev(out: &mut String, entry: &I18nEntry)
    ensures
        final(out)@ == old(out)@ + prev_text(*entry),
{
    let ghost start = out@;
    match &entry.previous_source {
        Some(p) => {
            out.append("#| msgid \"");
            out.append(po_escape(p.as_str()).as_str());
            out.append("\"\n");
        },
        None => {},
    }
    assert(out@ =~= start + prev_text(*entry));
}

fn write_obsolete(out: &mut String, entry: &I18nEntry)
    ensures
        final(out)@ == old(out)@ + obsolete_text(*entry),
{
    let ghost start = out@;
    match &entry.source {
        Some(src) => {
            out.append("#~ msgid \"");
            out.append(po_escape(src.as_str()).as_str());
            out.append("\"\n");
        },
        None => {},
    }
    match &entry.value {
        EntryValue::Simple(v) => {
            out.append("#~ msgstr \"");
            out.append(po_escape(v.as_str()).as_str());
            out.append("\"\n");
        },
        _ => out.append("#~ msgstr \"\"\n"),
    }
    assert(out@ =~= start + obsolete_text(*entry));
}

fn write_value(out: &mut String, entry: &I18nEntry, msgid: &String, nplurals: u32)
    requires
        msgid@ == msgid_of(*entry),
    ensures
        final(out)@ == old(out)@ + value_text(*entry, nplurals),
{
    let ghost start = out@;
    match &entry.value {
        EntryValue::Plural(ps) => {
            let mp = match str_map_get(&entry.properties, "msgid_plural") {
                Some(p) => p.clone(),
                None => {
                    let mut m = msgid.clone();
                    m.append("s");
                    m
                },
            };
            write_keyword(out, "msgid_plural", mp.as_str());
            write_plural_forms(out, ps, nplurals);
        },
        EntryValue::Simple(v) => write_keyword(out, "msgstr", v.as_str()),
        _ => out.append("msgstr \"\"\n"),
    }
    assert(out@ =~= start + value_text(*entry, nplurals));
}

/// Writes one entry's block.
pub fn write_entry(out: &mut String, entry: &I18nEntry, nplurals: u32)
    ensures
        final(out)@ == old(out)@ + spec_entry_text(*entry, nplurals),
{
    proof {
        reveal(spec_entry_text);
    }
    let ghost start = out@;
    write_comments(out, &entry.comments);
    write_refs(out, &entry.source_references);
    write_flags(out, entry);
    write_prev(out, entry);
    let ghost head = out@;
    if entry.obsolete {
        write_obsolete(out, entry);
        assert(out@ =~= start + spec_entry_text(*entry, nplurals));
        return;
    }
    write_contexts(out, &entry.contexts);
    let msgid: &String = match &entry.source {
        Some(src) => src,
        None => &entry.key,
    };
    write_keyword(out, "msgid", msgid.as_str());
    write_value(out, entry, msgid, nplurals);
    assert(out@ =~= start + spec_entry_text(*entry, nplurals));
}

pub open spec fn entry_block_text(np: u32) -> spec_fn((Seq<char>, I18nEntry)) -> Seq<char> {
    |p: (Seq<char>, I18nEntry)| "\n"@ + spec_entry_text(p.1, np)
}

/// The PO text of a resource: the header block, then a blank line and the
/// block of each entry, in order.
pub open spec fn spec_write(res: I18nResource) -> Seq<char> {
    header_text(res) + concat_all(entry_map_pairs(res.entries), entry_block_text(spec_get_nplurals(res)))
}

/// Writes a resource as PO text.
pub fn write_po(resource: &I18nResource) -> (s: String)
    ensures
        s@ == spec_write(*resource),
{
    let mut out = String::new();
    let np = get_nplurals(resource);
    write_header(&mut out, resource);
    let ghost start = out@;
    let ghost es = entry_map_pairs(resource.entries);
    let n = entry_map_len(&resource.entries);
    let mut i: usize = 0;
    while i < n
        invariant
            i <= n,
            n == es.len(),
            es == entry_map_pairs(resource.entries),
            np == spec_get_nplurals(*resource),
            out@ == start + concat_all(es.take(i as int), entry_block_text(np)),
        decreases n - i,
    {
        proof {
            lemma_concat_all_step(es, i as int, entry_block_text(np));
        }
        match entry_map_get_index(&resource.entries, i) {
            Some((_k, e)) => {
                out.append("\n");
                write_entry(&mut out, e, np);
            },
            None => {},
        }
        i = i + 1;
    }
    proof {
        lemma_concat_all_full(es, entry_block_text(np));
    }
    out
}

impl Writer {
    /// Writes the resource as UTF-8 PO text.
    pub fn write(&self, resource: &I18nResource) -> (r: Result<Vec<u8>, WriteError>)
        ensures
            r matches Ok(b) && b@ == encode_utf8(spec_write(*resource)),
    {
        let out = write_po(resource);
        Ok(string_bytes(&out))
    }

    pub fn capabilities(&self) -> (c: FormatCapabilities)
        ensures
            c == spec_capabilities(),
    {
        Parser.capabilities()
    }
}

impl super::FormatParser for Parser {
    fn detect(&self, extension: &str, content: &[u8]) -> (c: Confidence)
        ensures
            c == spec_detect(extension@, content@),
    {
        Parser::detect(self, extension, content)
    }

    fn parse(&self, content: &[u8]) -> (r: Result<I18nResource, ParseError>)
        ensures
            !valid_utf8(content@) ==> r matches Err(ParseError::InvalidFormat(_)),
            valid_utf8(content@) ==> (r matches Ok(res) && parsed_resource(res, spec_parse(decode_utf8(content@)))),
    {
        Parser::parse(self, content)
    }

    fn capabilities(&self) -> (c: FormatCapabilities)
        ensures
            c == spec_capabilities(),
    {
        Parser::capabilities(self)
    }
}

impl super::FormatWriter for Writer {
    fn write(&self, resource: &I18nResource) -> (r: Result<Vec<u8>, WriteError>)
        ensures
            r matches Ok(b) && b@ == encode_utf8(spec_write(*resource)),
    {
        Writer::write(self, resource)
    }

    fn capabilities(&self) -> (c: FormatCapabilities)
        ensures
            c == spec_capabilities(),
    {
        Writer::capabilities(self)
    }
}

} // verus!
