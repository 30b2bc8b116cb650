//! Laravel PHP language files: a file that returns a (nested) PHP array of
//! quoted keys and strings, `//` and `/* */` comments between them.
use vstd::prelude::*;
use indexmap::IndexMap;
use crate::collections::{
    entry_map_pairs, entry_map_new, entry_map_insert, map_insert, map_get, key_index, pairs_model,
    lemma_pairs_model_insert, entry_map_len, entry_map_get_index, entry_map_get, str_map_pairs,
};
use crate::ir::{
    I18nResource, I18nEntry, ResourceMetadata, FormatId, EntryValue, FormatCapabilities, FormatExtension,
    PhpLaravelExt, Comment,
};
use crate::text::{
    str_chars, string_of, trim, trim_chars, utf8_error_message, str_eq, chars_range, string_views, join, is_ws,
    is_whitespace, index_of, find_char, lemma_index_of, find_pat, find_pat_from, lemma_find_pat, split_char,
    contains, chars_contain, push_chars, starts_with, chars_start_with, str_contains,
};
use vstd::utf8::{valid_utf8, decode_utf8, encode_utf8};
use super::{
    Confidence, ParseError, WriteError, opt_view, general_comments, general_comment, fallback_text, value_text,
};

verus! {

pub struct Parser;

pub struct Writer;

// ---------------------------------------------------------------------------
// Strings
// ---------------------------------------------------------------------------

/// The text of a single-quoted PHP string: `\'` and `\\` are escapes, any
/// other backslash is itself.
pub open spec fn unescape_single(s: Seq<char>) -> Seq<char>
    decreases s.len(),
{
    if s.len() == 0 {
        Seq::empty()
    } else if s[0] == '\\' && s.len() > 1 && (s[1] == '\'' || s[1] == '\\') {
        seq![s[1]] + unescape_single(s.skip(2))
    } else {
        seq![s[0]] + unescape_single(s.drop_first())
    }
}

/// The character a double-quoted escape `\c` stands for, if `c` makes one.
pub open spec fn double_escape(c: char) -> Option<char> {
    if c == '"' {
        Some('"')
    } else if c == '\\' {
        Some('\\')
    } else if c == 'n' {
        Some('\n')
    } else if c == 't' {
        Some('\t')
    } else if c == 'r' {
        Some('\r')
    } else if c == '$' {
        Some('$')
    } else {
        None
    }
}

/// The text of a double-quoted PHP string: `\"`, `\\`, `\n`, `\t`, `\r` and
/// `\$` are escapes, any other backslash is itself.
pub open spec fn unescape_double(s: Seq<char>) -> Seq<char>
    decreases s.len(),
{
    if s.len() == 0 {
        Seq::empty()
    } else if s[0] == '\\' && s.len() > 1 && double_escape(s[1]) is Some {
        seq![double_escape(s[1]).unwrap()] + unescape_double(s.skip(2))
    } else {
        seq![s[0]] + unescape_double(s.drop_first())
    }
}

/// The text of a PHP string between quotes `q`.
pub open spec fn php_unescape(q: char, raw: Seq<char>) -> Seq<char> {
    if q == '\'' {
        unescape_single(raw)
    } else {
        unescape_double(raw)
    }
}

fn unescape_exec(q: char, raw: &[char]) -> (r: String)
    ensures
        r@ == php_unescape(q, raw@),
{
    let mut out = String::new();
    let mut i: usize = 0;
    assert(raw@.skip(0) == raw@);
    while i < raw.len()
        invariant
            i <= raw@.len(),
            php_unescape(q, raw@) == out@ + php_unescape(q, raw@.skip(i as int)),
        decreases raw@.len() - i,
    {
        let ghost rest = raw@.skip(i as int);
        assert(rest[0] == raw@[i as int]);
        if raw[i] == '\\' && i + 1 < raw.len() {
            assert(rest[1] == raw@[i + 1]);
            let c = raw[i + 1];
            let esc: Option<char> = if q == '\'' {
                if c == '\'' || c == '\\' {
                    Some(c)
                } else {
                    None
                }
            } else if c == '"' {
                Some('"')
            } else if c == '\\' {
                Some('\\')
            } else if c == 'n' {
                Some('\n')
            } else if c == 't' {
                Some('\t')
            } else if c == 'r' {
                Some('\r')
            } else if c == '$' {
                Some('$')
            } else {
                None
            };
            match esc {
                Some(e) => {
                    assert(rest.skip(2) == raw@.skip(i + 2));
                    out.push(e);
                    i = i + 2;
                },
                None => {
                    assert(rest.drop_first() == raw@.skip(i + 1));
                    out.push('\\');
                    i = i + 1;
                },
            }
        } else {
            assert(rest.drop_first() == raw@.skip(i + 1));
            out.push(raw[i]);
            i = i + 1;
        }
    }
    out
}

/// The text escaped for a single-quoted PHP string: `'` and `\` get a
/// backslash.
pub open spec fn escape_single(s: Seq<char>) -> Seq<char>
    decreases s.len(),
{
    if s.len() == 0 {
        Seq::empty()
    } else {
        let c = s.last();
        escape_single(s.drop_last()) + if c == '\'' || c == '\\' {
            seq!['\\', c]
        } else {
            seq![c]
        }
    }
}

/// The text escaped for a double-quoted PHP string: `"`, `\` and `$` get a
/// backslash.
pub open spec fn escape_double(s: Seq<char>) -> Seq<char>
    decreases s.len(),
{
    if s.len() == 0 {
        Seq::empty()
    } else {
        let c = s.last();
        escape_double(s.drop_last()) + if c == '"' || c == '\\' || c == '$' {
            seq!['\\', c]
        } else {
            seq![c]
        }
    }
}

proof fn lemma_escape_concat(a: Seq<char>, b: Seq<char>, double: bool)
    ensures
        (if double { escape_double(a + b) } else { escape_single(a + b) }) == (if double {
            escape_double(a) + escape_double(b)
        } else {
            escape_single(a) + escape_single(b)
        }),
    decreases b.len(),
{
    if b.len() == 0 {
        assert(a + b =~= a);
    } else {
        lemma_escape_concat(a, b.drop_last(), double);
        assert((a + b).drop_last() =~= a + b.drop_last());
        assert((a + b).last() == b.last());
        if double {
            assert(escape_double(a) + escape_double(b) =~= escape_double(a) + escape_double(b.drop_last()) + (if b.last()
                == '"' || b.last() == '\\' || b.last() == '$' {
                seq!['\\', b.last()]
            } else {
                seq![b.last()]
            }));
        } else {
            assert(escape_single(a) + escape_single(b) =~= escape_single(a) + escape_single(b.drop_last()) + (if b.last()
                == '\'' || b.last() == '\\' {
                seq!['\\', b.last()]
            } else {
                seq![b.last()]
            }));
        }
    }
}

/// A string written in either quote style reads back as itself: unescaping
/// what escaping gave is the identity.
pub proof fn lemma_php_string_roundtrip(s: Seq<char>)
    ensures
        unescape_single(escape_single(s)) == s,
        unescape_double(escape_double(s)) == s,
    decreases s.len(),
{
    if s.len() > 0 {
        let c = s[0];
        let rest = s.drop_first();
        lemma_php_string_roundtrip(rest);
        assert(s =~= seq![c] + rest);
        lemma_escape_concat(seq![c], rest, false);
        lemma_escape_concat(seq![c], rest, true);
        assert(seq![c].drop_last() =~= Seq::<char>::empty());
        assert(seq![c].last() == c);
        assert(escape_single(Seq::<char>::empty()) == Seq::<char>::empty());
        assert(escape_single(seq![c]) =~= (if c == '\'' || c == '\\' {
            seq!['\\', c]
        } else {
            seq![c]
        }));
        assert(escape_double(Seq::<char>::empty()) == Seq::<char>::empty());
        assert(escape_double(seq![c]) =~= (if c == '"' || c == '\\' || c == '$' {
            seq!['\\', c]
        } else {
            seq![c]
        }));
        let es = escape_single(s);
        let ed = escape_double(s);
        if c == '\'' || c == '\\' {
            assert(es =~= seq!['\\', c] + escape_single(rest));
            assert(es.skip(2) =~= escape_single(rest));
        } else {
            assert(es =~= seq![c] + escape_single(rest));
            assert(es.drop_first() =~= escape_single(rest));
        }
        if c == '"' || c == '\\' || c == '$' {
            assert(ed =~= seq!['\\', c] + escape_double(rest));
            assert(ed.skip(2) =~= escape_double(rest));
        } else {
            assert(ed =~= seq![c] + escape_double(rest));
            assert(ed.drop_first() =~= escape_double(rest));
        }
    }
}

fn escape_exec(s: &str, double: bool) -> (r: String)
    ensures
        r@ == (if double { escape_double(s@) } else { escape_single(s@) }),
{
    let c = str_chars(s);
    let mut out = String::new();
    let mut i: usize = 0;
    while i < c.len()
        invariant
            i <= c@.len(),
            c@ == s@,
            out@ == (if double { escape_double(c@.take(i as int)) } else { escape_single(c@.take(i as int)) }),
        decreases c@.len() - i,
    {
        assert(c@.take(i + 1).drop_last() == c@.take(i as int));
        let ch = c[i];
        let special = if double {
            ch == '"' || ch == '\\' || ch == '$'
        } else {
            ch == '\'' || ch == '\\'
        };
        if special {
            out.push('\\');
        }
        out.push(ch);
        i = i + 1;
    }
    assert(c@.take(c@.len() as int) == c@);
    out
}

// ---------------------------------------------------------------------------
// Scanning
// ---------------------------------------------------------------------------

/// The index of the first character at or after `i` that is not white space.
pub open spec fn ws_end(s: Seq<char>, i: int) -> int
    decreases s.len() - i,
{
    if 0 <= i < s.len() && is_ws(s[i]) {
        ws_end(s, i + 1)
    } else {
        i
    }
}

fn skip_ws(s: &[char], i: usize) -> (j: usize)
    requires
        i <= s@.len(),
    ensures
        j == ws_end(s@, i as int),
        i <= j <= s@.len(),
{
    let mut j = i;
    while j < s.len() && is_whitespace(s[j])
        invariant
            i <= j <= s@.len(),
            ws_end(s@, i as int) == ws_end(s@, j as int),
        decreases s@.len() - j,
    {
        j = j + 1;
    }
    j
}

/// The index of the quote `q` that closes a string whose text starts at
/// `i`; a backslash takes the character after it along. `None` when the
/// text ends first.
pub open spec fn str_close(s: Seq<char>, i: int, q: char) -> Option<int>
    decreases s.len() - i,
{
    if i < 0 || i >= s.len() {
        None
    } else if s[i] == '\\' {
        if i + 1 < s.len() {
            str_close(s, i + 2, q)
        } else {
            None
        }
    } else if s[i] == q {
        Some(i)
    } else {
        str_close(s, i + 1, q)
    }
}

/// Reads a quoted string whose text starts at `start`: its text and the
/// index after the closing quote.
fn read_string(s: &[char], start: usize, q: char) -> (r: Result<(String, usize), ParseError>)
    requires
        start <= s@.len(),
    ensures
        match str_close(s@, start as int, q) {
            None => r matches Err(ParseError::InvalidFormat(_)),
            Some(k) => r matches Ok((v, j)) && v@ == php_unescape(q, s@.subrange(start as int, k)) && j == k + 1
                && start < j <= s@.len(),
        },
{
    let mut i = start;
    loop
        invariant
            start <= i,
            str_close(s@, start as int, q) == str_close(s@, i as int, q),
        decreases s@.len() + 2 - i,
    {
        if i >= s.len() {
            return Err(ParseError::InvalidFormat("Unterminated string literal".to_owned()));
        }
        if s[i] == '\\' {
            if i + 1 < s.len() {
                i = i + 2;
            } else {
                return Err(ParseError::InvalidFormat("Unexpected end of input in escape sequence".to_owned()));
            }
        } else if s[i] == q {
            let raw = chars_range(s, start, i);
            let v = unescape_exec(q, raw.as_slice());
            return Ok((v, i + 1));
        } else {
            i = i + 1;
        }
    }
}

/// What a `/` starts.
pub enum CommentScan {
    /// Not a comment.
    NotComment,
    /// A block comment that is never closed.
    Unterminated,
    /// A comment: its text trimmed, and the index after it.
    Found(Seq<char>, int),
}

/// The comment at `p`, where a `/` stands: `//` runs to the end of the
/// line, `/*` to the next `*/`.
pub open spec fn scan_comment(s: Seq<char>, p: int) -> CommentScan {
    if p + 1 < s.len() && s[p + 1] == '/' {
        match index_of(s.skip(p + 2), '\n') {
            Some(k) => CommentScan::Found(trim(s.subrange(p + 2, p + 2 + k)), p + 3 + k),
            None => CommentScan::Found(trim(s.skip(p + 2)), s.len() as int),
        }
    } else if p + 1 < s.len() && s[p + 1] == '*' {
        match find_pat(s, "*/"@, p + 2) {
            Some(k) => CommentScan::Found(trim(s.subrange(p + 2, k)), k + 2),
            None => CommentScan::Unterminated,
        }
    } else {
        CommentScan::NotComment
    }
}

/// Reads the comment at `p`: its text and the index after it, or `None`
/// when no comment starts there.
fn read_comment(s: &[char], p: usize) -> (r: Result<Option<(String, usize)>, ParseError>)
    requires
        p < s@.len(),
    ensures
        match scan_comment(s@, p as int) {
            CommentScan::NotComment => r matches Ok(None),
            CommentScan::Unterminated => r matches Err(ParseError::InvalidFormat(_)),
            CommentScan::Found(t, j) => r matches Ok(Some((rt, rj))) && rt@ == t && rj == j && p < rj <= s@.len(),
        },
{
    assert(p < s.len());
    if p + 1 < s.len() && s[p + 1] == '/' {
        let rest = chars_range(s, p + 2, s.len());
        assert(rest@ == s@.skip(p + 2));
        proof {
            lemma_index_of(rest@, '\n');
        }
        match find_char(rest.as_slice(), '\n') {
            Some(k) => {
                let body = chars_range(s, p + 2, p + 2 + k);
                Ok(Some((string_of(trim_chars(body.as_slice()).as_slice()), p + 3 + k)))
            },
            None => Ok(Some((string_of(trim_chars(rest.as_slice()).as_slice()), s.len()))),
        }
    } else if p + 1 < s.len() && s[p + 1] == '*' {
        let close = str_chars("*/");
        proof {
            reveal_strlit("*/");
            lemma_find_pat(s@, close@, p + 2);
            assert(close@.len() == 2);
        }
        match find_pat_from(s, close.as_slice(), p + 2) {
            Some(k) => {
                assert(k + 2 <= s.len());
                let body = chars_range(s, p + 2, k);
                Ok(Some((string_of(trim_chars(body.as_slice()).as_slice()), k + 2)))
            },
            None => Err(ParseError::InvalidFormat("Unterminated block comment".to_owned())),
        }
    } else {
        Ok(None)
    }
}

// ---------------------------------------------------------------------------
// Arrays
// ---------------------------------------------------------------------------

/// The entries read so far: each dotted key with its key, its text and the
/// comment before it.
pub type PhpEntries = Seq<(Seq<char>, (Seq<char>, Seq<char>, Option<Seq<char>>))>;

/// The key of an item inside the array at `prefix`.
pub open spec fn child_key(prefix: Seq<char>, key: Seq<char>) -> Seq<char> {
    if prefix.len() == 0 {
        key
    } else {
        prefix + "."@ + key
    }
}

/// What follows `=>` at `v`: a nested array `[...]` or `array(...)` read
/// with the dotted key `fk` as its prefix, or a string, added under `fk`
/// with the pending comment `pc`. The entries after it and the index after
/// it; `None` when it does not read.
pub open spec fn php_value(
    s: Seq<char>,
    v: int,
    fk: Seq<char>,
    pc: Option<Seq<char>>,
    acc: PhpEntries,
    guard: int,
) -> Option<(PhpEntries, int)>
    decreases s.len() - guard, 0int,
{
    if !(0 <= v < s.len()) || v < guard {
        None
    } else if s[v] == '[' {
        php_items(s, v + 1, ']', fk, None, acc)
    } else if s[v] == 'a' {
        if starts_with(s.skip(v), "array"@) && ws_end(s, v + 5) < s.len() && s[ws_end(s, v + 5)] == '(' && ws_end(
            s,
            v + 5,
        ) >= v {
            php_items(s, ws_end(s, v + 5) + 1, ')', fk, None, acc)
        } else {
            None
        }
    } else if s[v] == '\'' || s[v] == '"' {
        match str_close(s, v + 1, s[v]) {
            Some(k) => Some((map_insert(acc, fk, (fk, php_unescape(s[v], s.subrange(v + 1, k)), pc)), k + 1)),
            None => None,
        }
    } else {
        None
    }
}

/// The items of an array from index `i` up to its closing character
/// `close`: comments (the last one before an item goes with it), and
/// quoted keys with `=>` and a value, each followed by an optional comma.
/// Items are added to `acc` under their keys joined to `prefix` by dots.
/// The entries and the index after the closing character; `None` when the
/// text does not read (positions only move forward).
pub open spec fn php_items(
    s: Seq<char>,
    i: int,
    close: char,
    prefix: Seq<char>,
    pc: Option<Seq<char>>,
    acc: PhpEntries,
) -> Option<(PhpEntries, int)>
    decreases s.len() - i, 1int,
{
    if i < 0 || i > s.len() {
        None
    } else {
        let p = ws_end(s, i);
        if !(i <= p < s.len()) {
            None
        } else if s[p] == close {
            Some((acc, p + 1))
        } else if s[p] == '/' {
            match scan_comment(s, p) {
                CommentScan::Found(t, j) => if i < j <= s.len() {
                    php_items(s, j, close, prefix, Some(t), acc)
                } else {
                    None
                },
                _ => None,
            }
        } else if s[p] == '\'' || s[p] == '"' {
            match str_close(s, p + 1, s[p]) {
                None => None,
                Some(k) => {
                    let key = php_unescape(s[p], s.subrange(p + 1, k));
                    let a = ws_end(s, k + 1);
                    if !(a + 1 < s.len() && s[a] == '=' && s[a + 1] == '>') {
                        None
                    } else {
                        let v = ws_end(s, a + 2);
                        match php_value(s, v, child_key(prefix, key), pc, acc, i + 1) {
                            None => None,
                            Some((acc2, e)) => {
                                let f = ws_end(s, e);
                                let g = if 0 <= f < s.len() && s[f] == ',' { f + 1 } else { f };
                                if i < g <= s.len() {
                                    php_items(s, g, close, prefix, None, acc2)
                                } else {
                                    None
                                }
                            },
                        }
                    }
                },
            }
        } else {
            None
        }
    }
}

/// The entry of an item: its dotted key, its text, and its comment when
/// that is not empty.
pub open spec fn php_entry(e: I18nEntry, x: (Seq<char>, Seq<char>, Option<Seq<char>>)) -> bool {
    &&& e.key@ == x.0
    &&& e.value matches EntryValue::Simple(t) && t@ == x.1
    &&& general_comments(
        e.comments@,
        match x.2 {
            Some(c) => if c.len() > 0 { seq![c] } else { Seq::empty() },
            None => Seq::empty(),
        },
    )
    &&& e.format_ext is None
    &&& I18nEntry::spec_bare(e)
}

pub open spec fn php_rel() -> spec_fn(I18nEntry, (Seq<char>, Seq<char>, Option<Seq<char>>)) -> bool {
    |e: I18nEntry, x: (Seq<char>, Seq<char>, Option<Seq<char>>)| php_entry(e, x)
}

fn child_key_exec(prefix: &String, key: &String) -> (r: String)
    ensures
        r@ == child_key(prefix@, key@),
{
    if prefix.as_str().is_empty() {
        key.clone()
    } else {
        let mut r = prefix.clone();
        r.append(".");
        r.append(key.as_str());
        proof {
            reveal_strlit(".");
        }
        r
    }
}

fn php_entry_exec(key: String, value: String, comment: &Option<String>) -> (e: I18nEntry)
    ensures
        php_entry(e, (key@, value@, opt_view(*comment))),
{
    let mut e = I18nEntry::with_value(key, EntryValue::Simple(value));
    match comment {
        Some(c) => {
            if !c.as_str().is_empty() {
                e.comments.push(general_comment(c.clone()));
            }
        },
        None => {},
    }
    e
}

fn parse_value(
    s: &[char],
    v: usize,
    fk: &String,
    pc: &Option<String>,
    entries: &mut IndexMap<String, I18nEntry>,
    guard: usize,
    Ghost(acc): Ghost<PhpEntries>,
) -> (r: Result<usize, ParseError>)
    requires
        v <= s@.len(),
        guard <= v,
        pairs_model(entry_map_pairs(*old(entries)), acc, php_rel()),
    ensures
        match php_value(s@, v as int, fk@, opt_view(*pc), acc, guard as int) {
            None => r matches Err(ParseError::InvalidFormat(_)),
            Some((acc2, e)) => r matches Ok(j) && j == e && v < j <= s@.len() && pairs_model(
                entry_map_pairs(*final(entries)),
                acc2,
                php_rel(),
            ),
        },
    decreases s@.len() - guard, 0int,
{
    if v >= s.len() {
        return Err(ParseError::InvalidFormat("Unexpected end of input after '=>'".to_owned()));
    }
    if s[v] == '[' {
        parse_items(s, v + 1, ']', fk, None, entries, Ghost(acc))
    } else if s[v] == 'a' {
        let rest = chars_range(s, v, s.len());
        assert(rest@ == s@.skip(v as int));
        let word = str_chars("array");
        proof {
            reveal_strlit("array");
        }
        if chars_start_with(rest.as_slice(), word.as_slice()) {
            assert(word@.len() == 5);
            let w = skip_ws(s, v + 5);
            if w < s.len() && s[w] == '(' {
                parse_items(s, w + 1, ')', fk, None, entries, Ghost(acc))
            } else {
                Err(ParseError::InvalidFormat("Expected '(' after 'array'".to_owned()))
            }
        } else {
            Err(ParseError::InvalidFormat("Unexpected token after '=>'".to_owned()))
        }
    } else if s[v] == '\'' || s[v] == '"' {
        let (value, j) = read_string(s, v + 1, s[v])?;
        let e = php_entry_exec(fk.clone(), value, pc);
        proof {
            lemma_pairs_model_insert(entry_map_pairs(*entries), acc, php_rel(), fk@, e, (fk@, e.value->Simple_0@, opt_view(*pc)));
        }
        entry_map_insert(entries, fk.clone(), e);
        Ok(j)
    } else {
        Err(ParseError::InvalidFormat("Unexpected character after '=>'".to_owned()))
    }
}

/// Reads the items of an array from index `i` to its closing character,
/// adding them to `entries`; the index after the closing character.
fn parse_items(
    s: &[char],
    i: usize,
    close: char,
    prefix: &String,
    pc: Option<String>,
    entries: &mut IndexMap<String, I18nEntry>,
    Ghost(acc): Ghost<PhpEntries>,
) -> (r: Result<usize, ParseError>)
    requires
        i <= s@.len(),
        pairs_model(entry_map_pairs(*old(entries)), acc, php_rel()),
    ensures
        match php_items(s@, i as int, close, prefix@, opt_view(pc), acc) {
            None => r matches Err(ParseError::InvalidFormat(_)),
            Some((acc2, e)) => r matches Ok(j) && j == e && i < j <= s@.len() && pairs_model(
                entry_map_pairs(*final(entries)),
                acc2,
                php_rel(),
            ),
        },
    decreases s@.len() - i, 1int,
{
    let ghost goal = php_items(s@, i as int, close, prefix@, opt_view(pc), acc);
    let ghost mut cur_acc = acc;
    let mut pos = i;
    let mut pend = pc;
    loop
        invariant
            i <= pos <= s@.len(),
            goal == php_items(s@, i as int, close, prefix@, opt_view(pc), acc),
            goal == php_items(s@, pos as int, close, prefix@, opt_view(pend), cur_acc),
            pairs_model(entry_map_pairs(*entries), cur_acc, php_rel()),
        decreases s@.len() - pos,
    {
        let p = skip_ws(s, pos);
        if p >= s.len() {
            assert(ws_end(s@, pos as int) == p);
            assert(php_items(s@, pos as int, close, prefix@, opt_view(pend), cur_acc) is None);
            return Err(ParseError::InvalidFormat("Unexpected end of input in PHP array".to_owned()));
        }
        let c = s[p];
        if c == close {
            return Ok(p + 1);
        }
        if c == '/' {
            match read_comment(s, p)? {
                Some((t, j)) => {
                    pend = Some(t);
                    pos = j;
                },
                None => {
                    return Err(ParseError::InvalidFormat("Unexpected '/' in array".to_owned()));
                },
            }
        } else if c == '\'' || c == '"' {
            let (key, k1) = read_string(s, p + 1, c)?;
            let a = skip_ws(s, k1);
            if !(a < s.len() && a + 1 < s.len() && s[a] == '=' && s[a + 1] == '>') {
                return Err(ParseError::InvalidFormat("Expected '=>' after key".to_owned()));
            }
            let v = skip_ws(s, a + 2);
            let fk = child_key_exec(prefix, &key);
            let e = parse_value(s, v, &fk, &pend, entries, pos + 1, Ghost(cur_acc))?;
            proof {
                cur_acc = php_value(s@, v as int, fk@, opt_view(pend), cur_acc, pos + 1).unwrap().0;
            }
            let f = skip_ws(s, e);
            let g = if f < s.len() && s[f] == ',' { f + 1 } else { f };
            pos = g;
            pend = None;
        } else {
            return Err(ParseError::InvalidFormat("Unexpected character in PHP array".to_owned()));
        }
    }
}

// ---------------------------------------------------------------------------
// Files
// ---------------------------------------------------------------------------

/// The entries of a PHP file: the array after the first `return [` (or,
/// without one, the first `return array(`) in the trimmed text.
pub open spec fn spec_parse_php(content: Seq<char>) -> Option<PhpEntries> {
    let t = trim(content);
    match find_pat(t, "return ["@, 0) {
        Some(p) => match php_items(t, p + 8, ']', Seq::empty(), None, Seq::empty()) {
            Some((m, _)) => Some(m),
            None => None,
        },
        None => match find_pat(t, "return array("@, 0) {
            Some(p) => match php_items(t, p + 13, ')', Seq::empty(), None, Seq::empty()) {
                Some((m, _)) => Some(m),
                None => None,
            },
            None => None,
        },
    }
}

/// The quote before an `=>` at `j`, past spaces and tabs.
pub open spec fn quote_before(s: Seq<char>, j: int) -> Option<Seq<char>>
    decreases j,
{
    if j <= 0 || j > s.len() {
        None
    } else if s[j - 1] == '\'' {
        Some("single"@)
    } else if s[j - 1] == '"' {
        Some("double"@)
    } else if s[j - 1] == ' ' || s[j - 1] == '\t' {
        quote_before(s, j - 1)
    } else {
        None
    }
}

/// The quote style of the keys: that of the first `=>` with a quote before
/// it, from index `i` on; `single` when there is none.
pub open spec fn quote_style_from(s: Seq<char>, i: int) -> Seq<char>
    decreases s.len() - i,
{
    if i < 0 || i + 1 >= s.len() {
        "single"@
    } else if s[i] == '=' && s[i + 1] == '>' && quote_before(s, i) is Some {
        quote_before(s, i).unwrap()
    } else {
        quote_style_from(s, i + 1)
    }
}

fn quote_before_exec(s: &[char], i: usize) -> (r: Option<String>)
    requires
        i <= s@.len(),
    ensures
        opt_view(r) == quote_before(s@, i as int),
{
    let mut j = i;
    while j > 0
        invariant
            j <= i <= s@.len(),
            quote_before(s@, i as int) == quote_before(s@, j as int),
        decreases j,
    {
        let c = s[j - 1];
        if c == '\'' {
            return Some("single".to_owned());
        } else if c == '"' {
            return Some("double".to_owned());
        } else if c == ' ' || c == '\t' {
            j = j - 1;
        } else {
            return None;
        }
    }
    None
}

fn quote_style_exec(s: &[char]) -> (r: String)
    ensures
        r@ == quote_style_from(s@, 0),
{
    let mut i: usize = 0;
    while i < s.len() && i + 1 < s.len()
        invariant
            i <= s@.len(),
            quote_style_from(s@, 0) == quote_style_from(s@, i as int),
        decreases s@.len() - i,
    {
        if s[i] == '=' && s[i + 1] == '>' {
            match quote_before_exec(s, i) {
                Some(q) => {
                    return q;
                },
                None => {},
            }
        }
        i = i + 1;
    }
    "single".to_owned()
}

/// What a resource read from a PHP file holds: its entries, and the quote
/// style of its keys.
pub open spec fn parsed_resource(res: I18nResource, text: Seq<char>, m: PhpEntries) -> bool {
    &&& ResourceMetadata::spec_plain_except_ext(res.metadata, FormatId::PhpLaravel)
    &&& res.metadata.format_ext matches Some(FormatExtension::PhpLaravel(x)) && opt_view(x.quote_style) == Some(
        quote_style_from(text, 0),
    )
    &&& pairs_model(entry_map_pairs(res.entries), m, php_rel())
}

/// Parses the content of a Laravel PHP language file.
pub fn parse_php(content: &str) -> (r: Result<I18nResource, ParseError>)
    ensures
        match spec_parse_php(content@) {
            None => r matches Err(ParseError::InvalidFormat(_)),
            Some(m) => r matches Ok(res) && parsed_resource(res, content@, m),
        },
{
    let c = str_chars(content);
    let t = trim_chars(c.as_slice());
    let pat1 = str_chars("return [");
    let pat2 = str_chars("return array(");
    proof {
        reveal_strlit("return [");
        reveal_strlit("return array(");
        lemma_find_pat(t@, pat1@, 0);
        lemma_find_pat(t@, pat2@, 0);
        assert(pat1@.len() == 8 && pat2@.len() == 13);
    }
    let mut entries = entry_map_new();
    let empty = String::new();
    let ghost acc: PhpEntries = Seq::empty();
    match find_pat_from(t.as_slice(), pat1.as_slice(), 0) {
        Some(p) => {
            parse_items(t.as_slice(), p + 8, ']', &empty, None, &mut entries, Ghost(acc))?;
        },
        None => match find_pat_from(t.as_slice(), pat2.as_slice(), 0) {
            Some(p) => {
                parse_items(t.as_slice(), p + 13, ')', &empty, None, &mut entries, Ghost(acc))?;
            },
            None => {
                return Err(ParseError::InvalidFormat("PHP file must contain 'return [' or 'return array('".to_owned()));
            },
        },
    }
    let style = quote_style_exec(c.as_slice());
    let mut metadata = ResourceMetadata::for_format(FormatId::PhpLaravel);
    metadata.format_ext = Some(FormatExtension::PhpLaravel(PhpLaravelExt { quote_style: Some(style) }));
    Ok(I18nResource { metadata, entries })
}

pub open spec fn spec_capabilities() -> FormatCapabilities {
    FormatCapabilities { comments: true, nested_keys: true, ..FormatCapabilities::spec_none() }
}

/// A `return [` or `return array(` in the text.
pub open spec fn has_return(t: Seq<char>) -> bool {
    contains(t, "return ["@) || contains(t, "return array("@)
}

/// `.php` is certain with a `return` of an array and possible otherwise;
/// other UTF-8 content is likely with `<?php` and such a `return`.
pub open spec fn spec_detect(ext: Seq<char>, content: Seq<u8>) -> Confidence {
    if ext == ".php"@ {
        if valid_utf8(content) && has_return(decode_utf8(content)) {
            Confidence::Definite
        } else {
            Confidence::Low
        }
    } else if valid_utf8(content) && contains(decode_utf8(content), "<?php"@) && has_return(decode_utf8(content)) {
        Confidence::High
    } else {
        Confidence::NoMatch
    }
}

impl Parser {
    pub fn detect(&self, extension: &str, content: &[u8]) -> (c: Confidence)
        ensures
            c == spec_detect(extension@, content@),
    {
        match std::str::from_utf8(content) {
            Ok(s) => {
                let ret = str_contains(s, "return [") || str_contains(s, "return array(");
                if str_eq(extension, ".php") {
                    if ret {
                        Confidence::Definite
                    } else {
                        Confidence::Low
                    }
                } else if str_contains(s, "<?php") && ret {
                    Confidence::High
                } else {
                    Confidence::NoMatch
                }
            },
            Err(_) => if str_eq(extension, ".php") {
                Confidence::Low
            } else {
                Confidence::NoMatch
            },
        }
    }

    /// Parses a UTF-8 Laravel PHP language file.
    pub fn parse(&self, content: &[u8]) -> (r: Result<I18nResource, ParseError>)
        ensures
            !valid_utf8(content@) ==> r matches Err(ParseError::InvalidFormat(_)),
            valid_utf8(content@) ==> match spec_parse_php(decode_utf8(content@)) {
                None => r matches Err(ParseError::InvalidFormat(_)),
                Some(m) => r matches Ok(res) && parsed_resource(res, decode_utf8(content@), m),
            },
    {
        match std::str::from_utf8(content) {
            Ok(text) => parse_php(text),
            Err(e) => Err(ParseError::InvalidFormat(utf8_error_message(&e))),
        }
    }

    pub fn capabilities(&self) -> (c: FormatCapabilities)
        ensures
            c == spec_capabilities(),
    {
        FormatCapabilities { comments: true, nested_keys: true, ..FormatCapabilities::default() }
    }
}

// ---------------------------------------------------------------------------
// Writing
// ---------------------------------------------------------------------------

/// The nested key tree that a PHP array is written from: a leaf names the
/// entry written there by its full key.
pub enum PhpNode {
    Leaf(String),
    Branch(Vec<(String, PhpNode)>),
}

/// What a tree node stands for.
pub enum NodeView {
    Leaf(Seq<char>),
    Branch(Seq<(Seq<char>, NodeView)>),
}

pub open spec fn node_view(n: PhpNode) -> NodeView
    decreases n,
{
    match n {
        PhpNode::Leaf(f) => NodeView::Leaf(f@),
        PhpNode::Branch(ch) => NodeView::Branch(children_upto(ch@, ch@.len() as int)),
    }
}

pub open spec fn children_upto(ch: Seq<(String, PhpNode)>, n: int) -> Seq<(Seq<char>, NodeView)>
    decreases ch, n,
{
    if n <= 0 || n > ch.len() {
        Seq::empty()
    } else {
        proof {
            assert(decreases_to!(ch => ch[n - 1]));
        }
        children_upto(ch, n - 1).push((ch[n - 1].0@, node_view(ch[n - 1].1)))
    }
}

pub open spec fn children_view(ch: Seq<(String, PhpNode)>) -> Seq<(Seq<char>, NodeView)> {
    children_upto(ch, ch.len() as int)
}

pub proof fn lemma_children_upto(ch: Seq<(String, PhpNode)>, n: int)
    requires
        0 <= n <= ch.len(),
    ensures
        children_upto(ch, n).len() == n,
        forall|i: int| 0 <= i < n ==> #[trigger] children_upto(ch, n)[i] == (ch[i].0@, node_view(ch[i].1)),
    decreases n,
{
    if n > 0 {
        lemma_children_upto(ch, n - 1);
    }
}

pub proof fn lemma_children_view(ch: Seq<(String, PhpNode)>)
    ensures
        children_view(ch).len() == ch.len(),
        forall|i: int| 0 <= i < ch.len() ==> #[trigger] children_view(ch)[i] == (ch[i].0@, node_view(ch[i].1)),
{
    lemma_children_upto(ch, ch.len() as int);
}

/// Inserting a full key, split into `parts`, into a tree: the last part
/// becomes a leaf (replacing what was there); each part before it descends
/// into its branch, made at the end when missing. A leaf in the way stops
/// the insertion.
pub open spec fn tree_insert(t: Seq<(Seq<char>, NodeView)>, parts: Seq<Seq<char>>, full: Seq<char>) -> Seq<
    (Seq<char>, NodeView),
>
    decreases parts.len(),
{
    if parts.len() <= 1 {
        map_insert(t, parts[0], NodeView::Leaf(full))
    } else {
        let k = key_index(t, parts[0]);
        if k < 0 {
            t.push((parts[0], NodeView::Branch(tree_insert(Seq::empty(), parts.drop_first(), full))))
        } else {
            match t[k].1 {
                NodeView::Branch(ch) => t.update(k, (parts[0], NodeView::Branch(tree_insert(ch, parts.drop_first(), full)))),
                NodeView::Leaf(_) => t,
            }
        }
    }
}

/// The tree of the keys of the entries, in order.
pub open spec fn build_tree(ps: Seq<(Seq<char>, I18nEntry)>) -> Seq<(Seq<char>, NodeView)>
    decreases ps.len(),
{
    if ps.len() == 0 {
        Seq::empty()
    } else {
        tree_insert(build_tree(ps.drop_last()), split_char(ps.last().0, '.'), ps.last().0)
    }
}

fn find_child(t: &Vec<(String, PhpNode)>, k: &String) -> (r: Option<usize>)
    ensures
        match r {
            Some(i) => i == key_index(children_view(t@), k@),
            None => key_index(children_view(t@), k@) < 0,
        },
{
    proof {
        lemma_children_view(t@);
        crate::collections::lemma_key_index(children_view(t@), k@);
    }
    let mut i: usize = 0;
    while i < t.len()
        invariant
            i <= t@.len(),
            children_view(t@).len() == t@.len(),
            forall|j: int| 0 <= j < t@.len() ==> #[trigger] children_view(t@)[j] == (t@[j].0@, node_view(t@[j].1)),
            forall|j: int| 0 <= j < i ==> t@[j].0@ != k@,
        decreases t@.len() - i,
    {
        if str_eq(t[i].0.as_str(), k.as_str()) {
            proof {
                crate::collections::lemma_key_index(children_view(t@), k@);
                assert(children_view(t@)[i as int].0 == k@);
            }
            return Some(i);
        }
        i = i + 1;
    }
    proof {
        crate::collections::lemma_key_index(children_view(t@), k@);
        if key_index(children_view(t@), k@) >= 0 {
            let x = key_index(children_view(t@), k@);
            assert(children_view(t@)[x].0 == k@);
        }
    }
    None
}

fn tree_insert_exec(t: &mut Vec<(String, PhpNode)>, parts: &Vec<String>, start: usize, full: &String)
    requires
        start < parts@.len(),
    ensures
        children_view(final(t)@) == tree_insert(children_view(old(t)@), string_views(parts@).skip(start as int), full@),
    decreases parts@.len() - start,
{
    let ghost pv = string_views(parts@).skip(start as int);
    let ghost tv = children_view(t@);
    assert(pv[0] == parts@[start as int]@);
    proof {
        lemma_children_view(t@);
    }
    let key = parts[start].clone();
    let found = find_child(t, &key);
    proof {
        crate::collections::lemma_key_index(tv, key@);
    }
    assert(start < parts.len());
    if start + 1 >= parts.len() {
        match found {
            Some(i) => {
                t.set(i, (key, PhpNode::Leaf(full.clone())));
            },
            None => {
                t.push((key, PhpNode::Leaf(full.clone())));
            },
        }
        proof {
            lemma_children_view(t@);
        }
        assert(children_view(t@) =~= tree_insert(tv, pv, full@));
        return;
    }
    assert(pv.drop_first() == string_views(parts@).skip(start + 1));
    match found {
        None => {
            let mut ch: Vec<(String, PhpNode)> = Vec::new();
            proof {
                lemma_children_view(ch@);
            }
            assert(children_view(ch@) =~= Seq::<(Seq<char>, NodeView)>::empty());
            tree_insert_exec(&mut ch, parts, start + 1, full);
            t.push((key, PhpNode::Branch(ch)));
            proof {
                lemma_children_view(t@);
            }
            assert(children_view(t@) =~= tree_insert(tv, pv, full@));
        },
        Some(i) => {
            let ghost before = t@;
            let (k, node) = t.remove(i);
            assert(k == before[i as int].0 && node == before[i as int].1);
            match node {
                PhpNode::Branch(ch) => {
                    let mut ch = ch;
                    proof {
                        lemma_children_view(ch@);
                    }
                    assert(tv[i as int].1 == NodeView::Branch(children_view(ch@)));
                    tree_insert_exec(&mut ch, parts, start + 1, full);
                    t.insert(i, (k, PhpNode::Branch(ch)));
                    proof {
                        lemma_children_view(t@);
                    }
                    assert(t@ =~= before.update(i as int, (k, PhpNode::Branch(ch))));
                    assert(children_view(t@) =~= tree_insert(tv, pv, full@));
                },
                PhpNode::Leaf(f) => {
                    t.insert(i, (k, PhpNode::Leaf(f)));
                    assert(t@ =~= before);
                },
            }
        },
    }
}

fn build_tree_exec(entries: &IndexMap<String, I18nEntry>) -> (r: Vec<(String, PhpNode)>)
    ensures
        children_view(r@) == build_tree(entry_map_pairs(*entries)),
{
    let ghost ps = entry_map_pairs(*entries);
    let n = entry_map_len(entries);
    let mut root: Vec<(String, PhpNode)> = Vec::new();
    let mut i: usize = 0;
    proof {
        lemma_children_view(root@);
    }
    assert(ps.take(0) == Seq::<(Seq<char>, I18nEntry)>::empty());
    assert(children_view(root@) =~= Seq::<(Seq<char>, NodeView)>::empty());
    while i < n
        invariant
            n == ps.len(),
            ps == entry_map_pairs(*entries),
            i <= n,
            children_view(root@) == build_tree(ps.take(i as int)),
        decreases n - i,
    {
        assert(ps.take(i + 1).drop_last() == ps.take(i as int));
        let (k, _) = entry_map_get_index(entries, i).unwrap();
        assert(ps.take(i + 1).last().0 == k@);
        let parts = super::json_structured::key_parts(k);
        proof {
            crate::text::lemma_split_char_len(k@, '.');
        }
        assert(string_views(parts@).skip(0) == string_views(parts@));
        tree_insert_exec(&mut root, &parts, 0, k);
        i = i + 1;
    }
    assert(ps.take(n as int) == ps);
    root
}

/// Four spaces per level.
pub open spec fn indent(n: nat) -> Seq<char> {
    Seq::new(4 * n, |i: int| ' ')
}

/// The text written for a value: a simple value, the `other` form of a
/// plural, the items of an array joined by `, `, the first case of a
/// select, the pattern of a multi-variable plural.
pub open spec fn php_text(v: EntryValue) -> Seq<char> {
    match v {
        EntryValue::Array(a) => join(string_views(a@), ", "@),
        _ => fallback_text(v),
    }
}

/// A quoted string in the file's quote style.
pub open spec fn quoted(t: Seq<char>, dq: bool) -> Seq<char> {
    if dq {
        seq!['"'] + escape_double(t) + seq!['"']
    } else {
        seq!['\''] + escape_single(t) + seq!['\'']
    }
}

pub open spec fn comment_lines(cs: Seq<Comment>, ind: nat) -> Seq<char>
    decreases cs.len(),
{
    if cs.len() == 0 {
        Seq::empty()
    } else {
        comment_lines(cs.drop_last(), ind) + indent(ind) + "// "@ + cs.last().text@ + "\n"@
    }
}

/// A leaf: the entry under its full key, if any, as its comments and a
/// `key => value,` line.
pub open spec fn leaf_text(ps: Seq<(Seq<char>, I18nEntry)>, key: Seq<char>, full: Seq<char>, ind: nat, dq: bool) -> Seq<
    char,
> {
    match map_get(ps, full) {
        Some(e) => comment_lines(e.comments@, ind) + indent(ind) + quoted(key, dq) + " => "@ + quoted(
            php_text(e.value),
            dq,
        ) + ",\n"@,
        None => Seq::empty(),
    }
}

/// The lines of a tree at an indentation level: leaves as `key => value`
/// lines, branches as `key => [` ... `],` around their children one level
/// deeper.
pub open spec fn render(t: Seq<(Seq<char>, NodeView)>, ps: Seq<(Seq<char>, I18nEntry)>, ind: nat, dq: bool) -> Seq<char>
    decreases t,
{
    if t.len() == 0 {
        Seq::empty()
    } else {
        let last = t[t.len() - 1];
        proof {
            assert(decreases_to!(t => t[t.len() - 1]));
        }
        render(t.subrange(0, t.len() - 1), ps, ind, dq) + match last.1 {
            NodeView::Leaf(full) => leaf_text(ps, last.0, full, ind, dq),
            NodeView::Branch(ch) => {
                proof {
                    assert(decreases_to!(t[t.len() - 1] => t[t.len() - 1].1));
                }
                indent(ind) + quoted(last.0, dq) + " => [\n"@ + render(ch, ps, ind + 1, dq) + indent(ind) + "],\n"@
            },
        }
    }
}

/// Whether the keys are written in double quotes: the resource's quote
/// style is `double`.
pub open spec fn use_double(res: I18nResource) -> bool {
    res.metadata.format_ext matches Some(FormatExtension::PhpLaravel(x)) && opt_view(x.quote_style) == Some("double"@)
}

/// The PHP file of a resource: the array of its key tree.
pub open spec fn spec_write(res: I18nResource) -> Seq<char> {
    let ps = entry_map_pairs(res.entries);
    "<?php\n\nreturn [\n"@ + render(build_tree(ps), ps, 1, use_double(res)) + "];\n"@
}

fn php_text_exec(v: &EntryValue) -> (r: String)
    ensures
        r@ == php_text(*v),
{
    match v {
        EntryValue::Array(a) => {
            let sep = ", ";
            crate::text::join_strings(a, sep)
        },
        _ => value_text(v),
    }
}

fn push_quoted(out: &mut String, t: &str, dq: bool)
    ensures
        final(out)@ == old(out)@ + quoted(t@, dq),
{
    let ghost start = out@;
    let q = if dq { '"' } else { '\'' };
    out.push(q);
    let e = escape_exec(t, dq);
    out.append(e.as_str());
    out.push(q);
    assert(out@ =~= start + quoted(t@, dq));
}

fn push_comments(out: &mut String, cs: &Vec<Comment>, ind: &String, Ghost(n): Ghost<nat>)
    requires
        ind@ == indent(n),
    ensures
        final(out)@ == old(out)@ + comment_lines(cs@, n),
{
    let ghost start = out@;
    let mut i: usize = 0;
    while i < cs.len()
        invariant
            i <= cs@.len(),
            ind@ == indent(n),
            out@ == start + comment_lines(cs@.take(i as int), n),
        decreases cs@.len() - i,
    {
        assert(cs@.take(i + 1).drop_last() == cs@.take(i as int));
        let ghost before = out@;
        out.append(ind.as_str());
        out.append("// ");
        out.append(cs[i].text.as_str());
        out.append("\n");
        proof {
            reveal_strlit("// ");
            reveal_strlit("\n");
        }
        assert(out@ =~= before + indent(n) + "// "@ + cs@[i as int].text@ + "\n"@);
        i = i + 1;
    }
    assert(cs@.take(cs@.len() as int) == cs@);
}

fn push_leaf(
    out: &mut String,
    entries: &IndexMap<String, I18nEntry>,
    key: &String,
    full: &String,
    ind: &String,
    dq: bool,
    Ghost(n): Ghost<nat>,
)
    requires
        ind@ == indent(n),
    ensures
        final(out)@ == old(out)@ + leaf_text(entry_map_pairs(*entries), key@, full@, n, dq),
{
    let ghost start = out@;
    match entry_map_get(entries, full.as_str()) {
        Some(e) => {
            push_comments(out, &e.comments, ind, Ghost(n));
            let ghost s1 = out@;
            out.append(ind.as_str());
            push_quoted(out, key.as_str(), dq);
            out.append(" => ");
            let v = php_text_exec(&e.value);
            push_quoted(out, v.as_str(), dq);
            out.append(",\n");
            proof {
                reveal_strlit(" => ");
                reveal_strlit(",\n");
            }
            assert(out@ =~= start + leaf_text(entry_map_pairs(*entries), key@, full@, n, dq));
        },
        None => {
            assert(out@ =~= start + leaf_text(entry_map_pairs(*entries), key@, full@, n, dq));
        },
    }
}

fn render_exec(
    t: &Vec<(String, PhpNode)>,
    entries: &IndexMap<String, I18nEntry>,
    ind: &String,
    dq: bool,
    out: &mut String,
    Ghost(n): Ghost<nat>,
)
    requires
        ind@ == indent(n),
    ensures
        final(out)@ == old(out)@ + render(children_view(t@), entry_map_pairs(*entries), n, dq),
    decreases t@,
{
    let ghost start = out@;
    let ghost cv = children_view(t@);
    let ghost ps = entry_map_pairs(*entries);
    proof {
        lemma_children_view(t@);
    }
    let mut i: usize = 0;
    assert(cv.take(0) == Seq::<(Seq<char>, NodeView)>::empty());
    while i < t.len()
        invariant
            i <= t@.len(),
            ind@ == indent(n),
            cv == children_view(t@),
            ps == entry_map_pairs(*entries),
            cv.len() == t@.len(),
            forall|j: int| 0 <= j < t@.len() ==> #[trigger] cv[j] == (t@[j].0@, node_view(t@[j].1)),
            forall|j: int| 0 <= j < t@.len() ==> decreases_to!(t@ => #[trigger] t@[j].1),
            out@ == start + render(cv.take(i as int), ps, n, dq),
        decreases t@.len() - i,
    {
        let ghost sub = cv.take(i + 1);
        assert(sub.subrange(0, sub.len() - 1) == cv.take(i as int));
        assert(sub[sub.len() - 1] == cv[i as int]);
        let ghost before = out@;
        match &t[i].1 {
            PhpNode::Leaf(full) => {
                push_leaf(out, entries, &t[i].0, full, ind, dq, Ghost(n));
            },
            PhpNode::Branch(ch) => {
                proof {
                    assert(decreases_to!(t@ => t@[i as int].1));
                    assert(decreases_to!(t@[i as int].1 => *ch));
                    assert(decreases_to!(*ch => ch@));
                }
                out.append(ind.as_str());
                push_quoted(out, t[i].0.as_str(), dq);
                out.append(" => [\n");
                let mut deeper = ind.clone();
                deeper.append("    ");
                proof {
                    reveal_strlit("    ");
                    assert(deeper@ =~= indent(n + 1));
                }
                render_exec(ch, entries, &deeper, dq, out, Ghost(n + 1));
                out.append(ind.as_str());
                out.append("],\n");
                proof {
                    reveal_strlit(" => [\n");
                    reveal_strlit("],\n");
                }
            },
        }
        assert(out@ =~= start + render(sub, ps, n, dq));
        i = i + 1;
    }
    assert(cv.take(t@.len() as int) == cv);
}

impl Writer {
    /// Writes the entries as a nested PHP array, keys split at dots, in the
    /// resource's quote style.
    pub fn write(&self, res: &I18nResource) -> (r: Result<Vec<u8>, WriteError>)
        ensures
            r matches Ok(b) && b@ == encode_utf8(spec_write(*res)),
    {
        let dq = match &res.metadata.format_ext {
            Some(FormatExtension::PhpLaravel(x)) => match &x.quote_style {
                Some(q) => str_eq(q.as_str(), "double"),
                None => false,
            },
            _ => false,
        };
        let mut out = String::new();
        out.append("<?php\n\nreturn [\n");
        let tree = build_tree_exec(&res.entries);
        let ind = "    ".to_owned();
        proof {
            reveal_strlit("    ");
            assert(ind@ =~= indent(1));
        }
        render_exec(&tree, &res.entries, &ind, dq, &mut out, Ghost(1));
        out.append("];\n");
        Ok(crate::text::string_bytes(&out))
    }

    pub fn capabilities(&self) -> (c: FormatCapabilities)
        ensures
            c == spec_capabilities(),
    {
        Parser.capabilities()
    }
}

impl super::FormatParser for Parser {
    fn detect(&self, extension: &str, content: &[u8]) -> (c: Confidence)
        ensures
            c == spec_detect(extension@, content@),
    {
        Parser::detect(self, extension, content)
    }

    fn parse(&self, content: &[u8]) -> (r: Result<I18nResource, ParseError>)
        ensures
            !valid_utf8(content@) ==> r matches Err(ParseError::InvalidFormat(_)),
            valid_utf8(content@) ==> match spec_parse_php(decode_utf8(content@)) {
                None => r matches Err(ParseError::InvalidFormat(_)),
                Some(m) => r matches Ok(res) && parsed_resource(res, decode_utf8(content@), m),
            },
    {
        Parser::parse(self, content)
    }

    fn capabilities(&self) -> (c: FormatCapabilities)
        ensures
            c == spec_capabilities(),
    {
        Parser::capabilities(self)
    }
}

impl super::FormatWriter for Writer {
    fn write(&self, res: &I18nResource) -> (r: Result<Vec<u8>, WriteError>)
        ensures
            r matches Ok(b) && b@ == encode_utf8(spec_write(*res)),
    {
        Writer::write(self, res)
    }

    fn capabilities(&self) -> (c: FormatCapabilities)
        ensures
            c == spec_capabilities(),
    {
        Writer::capabilities(self)
    }
}

} // verus!
