//! HJSON files: JSON for humans, with comments (`#`, `//`, `/* */`),
//! unquoted keys and values, single-quoted and multi-line (`'''`) strings
//! and optional commas. Read by a parser of the library's own; nested
//! objects give dotted keys. Written as standard JSON, which is HJSON.
use vstd::prelude::*;
use indexmap::IndexMap;
use crate::collections::{
    entry_map_pairs, entry_map_new, entry_map_insert, entry_map_len, entry_map_get_index, map_insert, map_get,
    pairs_model, lemma_pairs_model_insert, str_map_pairs, str_map_get, key_index, lemma_key_index,
};
use crate::ir::{I18nResource, I18nEntry, ResourceMetadata, FormatId, EntryValue, FormatCapabilities, FormatExtension, HjsonExt};
use crate::json::{
    JsonValue, JsonView, json_view, json_read, members_view, lemma_members_view, items_view_upto, lemma_items_view, json_pretty,
    to_pretty, obj_insert, obj_find, take_member,
};
use crate::text::{
    str_chars, string_of, is_ws, is_whitespace, trim_end, trim_start, trim, lemma_trim_end, lemma_trim_start,
    ws_prefix_len, ws_suffix_len, is_hex, hex_run, hex_value, read_hex, is_scalar_value, alphanumeric, is_alphanumeric,
    utf8_error_message, string_bytes, split_char, string_views, join, str_contains, contains, trim_chars,
};
use vstd::utf8::{valid_utf8, decode_utf8, encode_utf8};
use super::{Confidence, ParseError, WriteError};
use super::json_structured::{join_key, key_parts, with_newline};
use super::json5_format::{J5Val, j5_rel};

verus! {

pub struct Parser;

pub struct Writer;

pub open spec fn spec_capabilities() -> FormatCapabilities {
    FormatCapabilities { arrays: true, nested_keys: true, ..FormatCapabilities::spec_none() }
}

// ---------------------------------------------------------------------------
// White space and comments
// ---------------------------------------------------------------------------

/// Where skipping white space and comments from `p` stops. `mode` is 0
/// between tokens, 1 inside a line comment (which ends after a new line) and
/// 2 inside a block comment (which ends after `*/`). A `#` or `//` starts a
/// line comment, `/*` a block comment; a comment left open runs to the end.
pub open spec fn skip_from(s: Seq<char>, p: int, mode: int) -> int
    decreases s.len() - p,
{
    if p < 0 || p >= s.len() {
        p
    } else if mode == 1 {
        if s[p] == '\n' { skip_from(s, p + 1, 0) } else { skip_from(s, p + 1, 1) }
    } else if mode == 2 {
        if s[p] == '*' && p + 1 < s.len() && s[p + 1] == '/' {
            skip_from(s, p + 2, 0)
        } else {
            skip_from(s, p + 1, 2)
        }
    } else if is_ws(s[p]) {
        skip_from(s, p + 1, 0)
    } else if p + 1 < s.len() && s[p] == '/' && s[p + 1] == '/' {
        skip_from(s, p + 2, 1)
    } else if p + 1 < s.len() && s[p] == '/' && s[p + 1] == '*' {
        skip_from(s, p + 2, 2)
    } else if s[p] == '#' {
        skip_from(s, p + 1, 1)
    } else {
        p
    }
}

/// The position of the next token at or after `p`.
pub open spec fn skip(s: Seq<char>, p: int) -> int {
    skip_from(s, p, 0)
}

pub proof fn lemma_skip_from(s: Seq<char>, p: int, mode: int)
    requires
        0 <= p <= s.len(),
    ensures
        p <= skip_from(s, p, mode) <= s.len(),
    decreases s.len() - p,
{
    if p < s.len() {
        if mode == 1 {
            lemma_skip_from(s, p + 1, if s[p] == '\n' { 0 } else { 1 });
        } else if mode == 2 {
            if s[p] == '*' && p + 1 < s.len() && s[p + 1] == '/' {
                lemma_skip_from(s, p + 2, 0);
            } else {
                lemma_skip_from(s, p + 1, 2);
            }
        } else if is_ws(s[p]) {
            lemma_skip_from(s, p + 1, 0);
        } else if p + 1 < s.len() && s[p] == '/' && s[p + 1] == '/' {
            lemma_skip_from(s, p + 2, 1);
        } else if p + 1 < s.len() && s[p] == '/' && s[p + 1] == '*' {
            lemma_skip_from(s, p + 2, 2);
        } else if s[p] == '#' {
            lemma_skip_from(s, p + 1, 1);
        }
    }
}

/// Skips white space and comments from `p`.
fn skip_exec(s: &Vec<char>, p: usize) -> (q: usize)
    requires
        p <= s@.len(),
    ensures
        q == skip(s@, p as int),
        p <= q <= s@.len(),
{
    let mut i = p;
    let mut mode: u8 = 0;
    while i < s.len()
        invariant
            p <= i <= s@.len(),
            mode <= 2,
            skip_from(s@, i as int, mode as int) == skip(s@, p as int),
        decreases s@.len() - i,
    {
        let c = s[i];
        if mode == 1 {
            if c == '\n' {
                mode = 0;
            }
            i = i + 1;
        } else if mode == 2 {
            if c == '*' && i + 1 < s.len() && s[i + 1] == '/' {
                mode = 0;
                i = i + 2;
            } else {
                i = i + 1;
            }
        } else if is_whitespace(c) {
            i = i + 1;
        } else if i + 1 < s.len() && c == '/' && s[i + 1] == '/' {
            mode = 1;
            i = i + 2;
        } else if i + 1 < s.len() && c == '/' && s[i + 1] == '*' {
            mode = 2;
            i = i + 2;
        } else if c == '#' {
            mode = 1;
            i = i + 1;
        } else {
            return i;
        }
    }
    i
}

// ---------------------------------------------------------------------------
// Strings and keys
// ---------------------------------------------------------------------------

/// The character a backslash escape stands for, for the one-letter escapes.
pub open spec fn escape_char(e: char) -> Option<char> {
    if e == '"' {
        Some('"')
    } else if e == '\\' {
        Some('\\')
    } else if e == '/' {
        Some('/')
    } else if e == 'n' {
        Some('\n')
    } else if e == 'r' {
        Some('\r')
    } else if e == 't' {
        Some('\t')
    } else if e == 'b' {
        Some('\u{8}')
    } else if e == 'f' {
        Some('\u{c}')
    } else {
        None
    }
}

/// Reads the rest of a double-quoted string from `p` (after the opening
/// quote), `acc` holding what was read so far. Gives the text and the
/// position after the closing quote. `\uXXXX` needs four hexadecimal digits
/// and a scalar value; an unknown escape is kept with its backslash.
pub open spec fn dq_from(s: Seq<char>, p: int, acc: Seq<char>) -> Option<(Seq<char>, int)>
    decreases s.len() - p,
{
    if p < 0 || p >= s.len() {
        None
    } else if s[p] == '"' {
        Some((acc, p + 1))
    } else if s[p] == '\\' {
        if p + 1 >= s.len() {
            None
        } else if s[p + 1] == 'u' {
            if hex_run(s.skip(p + 2), 4) == 4 && p + 6 <= s.len() {
                let code = hex_value(s.subrange(p + 2, p + 6));
                if is_scalar_value(code as int) {
                    dq_from(s, p + 6, acc.push(code as char))
                } else {
                    None
                }
            } else {
                None
            }
        } else {
            match escape_char(s[p + 1]) {
                Some(c) => dq_from(s, p + 2, acc.push(c)),
                None => dq_from(s, p + 2, acc.push('\\').push(s[p + 1])),
            }
        }
    } else {
        dq_from(s, p + 1, acc.push(s[p]))
    }
}

pub proof fn lemma_dq_from(s: Seq<char>, p: int, acc: Seq<char>)
    requires
        0 <= p,
    ensures
        dq_from(s, p, acc) matches Some((_, q)) ==> p < q <= s.len(),
    decreases s.len() - p,
{
    if p < s.len() && s[p] != '"' {
        if s[p] == '\\' {
            if p + 1 < s.len() {
                if s[p + 1] == 'u' {
                    if hex_run(s.skip(p + 2), 4) == 4 && p + 6 <= s.len() {
                        let code = hex_value(s.subrange(p + 2, p + 6));
                        lemma_dq_from(s, p + 6, acc.push(code as char));
                    }
                } else {
                    match escape_char(s[p + 1]) {
                        Some(c) => lemma_dq_from(s, p + 2, acc.push(c)),
                        None => lemma_dq_from(s, p + 2, acc.push('\\').push(s[p + 1])),
                    }
                }
            }
        } else {
            lemma_dq_from(s, p + 1, acc.push(s[p]));
        }
    }
}

/// The character a one-letter escape stands for.
fn escape_exec(e: char) -> (r: Option<char>)
    ensures
        r == escape_char(e),
{
    if e == '"' {
        Some('"')
    } else if e == '\\' {
        Some('\\')
    } else if e == '/' {
        Some('/')
    } else if e == 'n' {
        Some('\n')
    } else if e == 'r' {
        Some('\r')
    } else if e == 't' {
        Some('\t')
    } else if e == 'b' {
        Some('\u{8}')
    } else if e == 'f' {
        Some('\u{c}')
    } else {
        None
    }
}

/// The view of a string and a position, as the parsing specs give them.
pub open spec fn text_res(r: Result<(String, usize), ParseError>, x: Option<(Seq<char>, int)>) -> bool {
    match r {
        Ok((t, q)) => x == Some((t@, q as int)),
        Err(e) => x is None && e is InvalidFormat,
    }
}

/// Reads a double-quoted string whose opening quote is before `p`.
fn dq_exec(s: &Vec<char>, p: usize) -> (r: Result<(String, usize), ParseError>)
    requires
        p <= s@.len(),
    ensures
        text_res(r, dq_from(s@, p as int, Seq::empty())),
{
    let mut out = String::new();
    let mut i = p;
    while i < s.len()
        invariant
            p <= i <= s@.len(),
            dq_from(s@, i as int, out@) == dq_from(s@, p as int, Seq::empty()),
        decreases s@.len() - i,
    {
        let c = s[i];
        if c == '"' {
            return Ok((out, i + 1));
        } else if c == '\\' {
            if i + 1 >= s.len() {
                return Err(ParseError::InvalidFormat("Unterminated escape sequence".to_owned()));
            }
            let e = s[i + 1];
            if e == 'u' {
                if s.len() - i < 6 {
                    proof {
                        crate::text::lemma_hex_run(s@.skip(i + 2), 4);
                    }
                    return Err(ParseError::InvalidFormat("Invalid unicode escape".to_owned()));
                }
                let (n, code) = read_hex(s.as_slice(), i + 2, i + 2, 4, 0);
                assert(s@.subrange(i + 2, i + 2) =~= Seq::<char>::empty());
                if n < 4 {
                    return Err(ParseError::InvalidFormat("Invalid unicode escape".to_owned()));
                }
                proof {
                    crate::text::lemma_hex_run(s@.skip(i + 2), 4);
                }
                assert(hex_run(s@.skip(i + 2), 4) == 4);
                assert(code == hex_value(s@.subrange(i + 2, i + 6)));
                match char::from_u32(code) {
                    Some(ch) => {
                        out.push(ch);
                        i = i + 6;
                    },
                    None => {
                        return Err(ParseError::InvalidFormat("Invalid unicode code point".to_owned()));
                    },
                }
            } else {
                match escape_exec(e) {
                    Some(ch) => out.push(ch),
                    None => {
                        out.push('\\');
                        out.push(e);
                    },
                }
                i = i + 2;
            }
        } else {
            out.push(c);
            i = i + 1;
        }
    }
    Err(ParseError::InvalidFormat("Unterminated double-quoted string".to_owned()))
}

/// Reads the rest of a single-quoted string from `p`: everything up to the
/// next `'`, without escapes.
pub open spec fn sq_from(s: Seq<char>, p: int, acc: Seq<char>) -> Option<(Seq<char>, int)>
    decreases s.len() - p,
{
    if p < 0 || p >= s.len() {
        None
    } else if s[p] == '\'' {
        Some((acc, p + 1))
    } else {
        sq_from(s, p + 1, acc.push(s[p]))
    }
}

fn sq_exec(s: &Vec<char>, p: usize) -> (r: Result<(String, usize), ParseError>)
    requires
        p <= s@.len(),
    ensures
        text_res(r, sq_from(s@, p as int, Seq::empty())),
{
    let mut out = String::new();
    let mut i = p;
    while i < s.len()
        invariant
            p <= i <= s@.len(),
            sq_from(s@, i as int, out@) == sq_from(s@, p as int, Seq::empty()),
        decreases s@.len() - i,
    {
        if s[i] == '\'' {
            return Ok((out, i + 1));
        }
        out.push(s[i]);
        i = i + 1;
    }
    Err(ParseError::InvalidFormat("Unterminated single-quoted string".to_owned()))
}

/// A character that can start an unquoted key.
pub open spec fn key_start(c: char) -> bool {
    alphanumeric(c) || c == '_' || c == '-' || c == '$'
}

/// A character that can stand in an unquoted key.
pub open spec fn key_char(c: char) -> bool {
    alphanumeric(c) || c == '_' || c == '-' || c == '.' || c == '$'
}

/// The end of the run of key characters from `p`.
pub open spec fn key_run(s: Seq<char>, p: int) -> int
    decreases s.len() - p,
{
    if p < 0 || p >= s.len() || !key_char(s[p]) { p } else { key_run(s, p + 1) }
}

pub proof fn lemma_key_run(s: Seq<char>, p: int)
    requires
        0 <= p <= s.len(),
    ensures
        p <= key_run(s, p) <= s.len(),
    decreases s.len() - p,
{
    if p < s.len() && key_char(s[p]) {
        lemma_key_run(s, p + 1);
    }
}

/// A key at `p`: a double-quoted string, or a run of key characters that
/// starts with a key-start character.
pub open spec fn key_at(s: Seq<char>, p: int) -> Option<(Seq<char>, int)> {
    if 0 <= p < s.len() && s[p] == '"' {
        dq_from(s, p + 1, Seq::empty())
    } else if 0 <= p < s.len() && key_start(s[p]) {
        Some((s.subrange(p, key_run(s, p)), key_run(s, p)))
    } else {
        None
    }
}

pub proof fn lemma_key_at(s: Seq<char>, p: int)
    requires
        0 <= p,
    ensures
        key_at(s, p) matches Some((_, q)) ==> p < q <= s.len(),
{
    if 0 <= p < s.len() && s[p] == '"' {
        lemma_dq_from(s, p + 1, Seq::empty());
    } else if 0 <= p < s.len() && key_start(s[p]) {
        lemma_key_run(s, p + 1);
    }
}

fn key_exec(s: &Vec<char>, p: usize) -> (r: Result<(String, usize), ParseError>)
    requires
        p <= s@.len(),
    ensures
        text_res(r, key_at(s@, p as int)),
{
    if p < s.len() && s[p] == '"' {
        dq_exec(s, p + 1)
    } else if p < s.len() && (is_alphanumeric(s[p]) || s[p] == '_' || s[p] == '-' || s[p] == '$') {
        let mut j = p;
        while j < s.len() && (is_alphanumeric(s[j]) || s[j] == '_' || s[j] == '-' || s[j] == '.' || s[j] == '$')
            invariant
                p <= j <= s@.len(),
                key_run(s@, j as int) == key_run(s@, p as int),
            decreases s@.len() - j,
        {
            j = j + 1;
        }
        let k = crate::text::chars_range(s.as_slice(), p, j);
        Ok((string_of(k.as_slice()), j))
    } else {
        Err(ParseError::InvalidFormat("Expected key".to_owned()))
    }
}

// ---------------------------------------------------------------------------
// Unquoted values
// ---------------------------------------------------------------------------

/// Whether `c` ends an unquoted value: a line end, a closing bracket, and in
/// an array a comma.
pub open spec fn uq_stop(c: char, in_array: bool) -> bool {
    c == '\n' || c == '\r' || c == '}' || c == ']' || (in_array && c == ',')
}

/// Where an unquoted value that starts at `p` ends.
pub open spec fn uq_end(s: Seq<char>, p: int, in_array: bool) -> int
    decreases s.len() - p,
{
    if p < 0 || p >= s.len() || uq_stop(s[p], in_array) { p } else { uq_end(s, p + 1, in_array) }
}

pub proof fn lemma_uq_end(s: Seq<char>, p: int, in_array: bool)
    requires
        0 <= p <= s.len(),
    ensures
        p <= uq_end(s, p, in_array) <= s.len(),
    decreases s.len() - p,
{
    if p < s.len() && !uq_stop(s[p], in_array) {
        lemma_uq_end(s, p + 1, in_array);
    }
}

/// The text of an unquoted value: without trailing white space and, outside
/// arrays, without one trailing comma (and the white space before it).
pub open spec fn uq_text(t: Seq<char>, in_array: bool) -> Seq<char> {
    let a = trim_end(t);
    if !in_array && a.len() > 0 && a.last() == ',' { trim_end(a.drop_last()) } else { a }
}

/// `v` without its trailing white space.
fn trim_end_exec(v: &Vec<char>) -> (r: Vec<char>)
    ensures
        r@ == trim_end(v@),
{
    proof {
        lemma_trim_end(v@);
    }
    let mut b = v.len();
    while b > 0 && is_whitespace(v[b - 1])
        invariant
            b <= v@.len(),
            forall|k: int| b <= k < v@.len() ==> is_ws(#[trigger] v@[k]),
        decreases b,
    {
        b = b - 1;
    }
    proof {
        let n = v@.len() - ws_suffix_len(v@);
        assert(b == n) by {
            if b < n {
                assert(is_ws(v@[n - 1]));
            } else if b > n {
                assert(is_ws(v@[b - 1]));
            }
        }
    }
    crate::text::chars_range(v.as_slice(), 0, b)
}

/// Reads an unquoted value from `p`.
fn uq_exec(s: &Vec<char>, p: usize, in_array: bool) -> (r: (String, usize))
    requires
        p <= s@.len(),
    ensures
        r.0@ == uq_text(s@.subrange(p as int, uq_end(s@, p as int, in_array)), in_array),
        r.1 == uq_end(s@, p as int, in_array),
{
    let mut j = p;
    while j < s.len() && !(s[j] == '\n' || s[j] == '\r' || s[j] == '}' || s[j] == ']' || (in_array && s[j] == ','))
        invariant
            p <= j <= s@.len(),
            uq_end(s@, j as int, in_array) == uq_end(s@, p as int, in_array),
        decreases s@.len() - j,
    {
        j = j + 1;
    }
    let raw = crate::text::chars_range(s.as_slice(), p, j);
    let a = trim_end_exec(&raw);
    let n = a.len();
    if !in_array && n > 0 && a[n - 1] == ',' {
        let b = crate::text::chars_range(a.as_slice(), 0, n - 1);
        assert(b@ == a@.drop_last());
        let c = trim_end_exec(&b);
        (string_of(c.as_slice()), j)
    } else {
        (string_of(a.as_slice()), j)
    }
}

// ---------------------------------------------------------------------------
// Multi-line strings
// ---------------------------------------------------------------------------

/// After the opening `'''`: the rest of its line is skipped when it holds
/// only white space, with its line end.
pub open spec fn ml_open(s: Seq<char>, p: int) -> int
    decreases s.len() - p,
{
    if p < 0 || p >= s.len() {
        p
    } else if s[p] == '\n' {
        p + 1
    } else if s[p] == '\r' {
        if p + 1 < s.len() && s[p + 1] == '\n' { p + 2 } else { p + 1 }
    } else if is_ws(s[p]) {
        ml_open(s, p + 1)
    } else {
        p
    }
}

/// The lines of a multi-line string from `p` up to the closing `'''`, and
/// the position after it. `lines` holds the lines ended so far and `cur` the
/// line being read; the last line counts only when something other than
/// white space remains of it, and then without trailing white space.
pub open spec fn ml_body(s: Seq<char>, p: int, lines: Seq<Seq<char>>, cur: Seq<char>) -> Option<(Seq<Seq<char>>, int)>
    decreases s.len() - p,
{
    if p < 0 || p >= s.len() {
        None
    } else if s[p] == '\'' && p + 2 < s.len() && s[p + 1] == '\'' && s[p + 2] == '\'' {
        let t = trim_end(cur);
        Some((if t.len() > 0 { lines.push(t) } else { lines }, p + 3))
    } else if s[p] == '\n' {
        ml_body(s, p + 1, lines.push(cur), Seq::empty())
    } else if s[p] == '\r' {
        ml_body(s, if p + 1 < s.len() && s[p + 1] == '\n' { p + 2 } else { p + 1 }, lines.push(cur), Seq::empty())
    } else {
        ml_body(s, p + 1, lines, cur.push(s[p]))
    }
}

pub proof fn lemma_ml(s: Seq<char>, p: int, lines: Seq<Seq<char>>, cur: Seq<char>)
    requires
        0 <= p <= s.len(),
    ensures
        p <= ml_open(s, p) <= s.len(),
        ml_body(s, p, lines, cur) matches Some((_, q)) ==> p < q <= s.len(),
    decreases s.len() - p,
{
    if p < s.len() {
        if is_ws(s[p]) && s[p] != '\n' && s[p] != '\r' {
            lemma_ml(s, p + 1, lines, cur);
        }
        if !(s[p] == '\'' && p + 2 < s.len() && s[p + 1] == '\'' && s[p + 2] == '\'') {
            if s[p] == '\n' {
                lemma_ml(s, p + 1, lines.push(cur), Seq::empty());
            } else if s[p] == '\r' {
                lemma_ml(s, if p + 1 < s.len() && s[p + 1] == '\n' { p + 2 } else { p + 1 }, lines.push(cur), Seq::empty());
            } else {
                lemma_ml(s, p + 1, lines, cur.push(s[p]));
            }
        }
    }
}

/// The number of bytes of a character in UTF-8.
pub open spec fn char_bytes(c: char) -> nat {
    if (c as u32) < 0x80 { 1 } else if (c as u32) < 0x800 { 2 } else if (c as u32) < 0x10000 { 3 } else { 4 }
}

/// The number of bytes of a text in UTF-8.
pub open spec fn byte_len(s: Seq<char>) -> nat
    decreases s.len(),
{
    if s.len() == 0 { 0 } else { byte_len(s.drop_last()) + char_bytes(s.last()) }
}

/// The indentation of a line: the bytes of its leading white space.
pub open spec fn indent_of(l: Seq<char>) -> nat {
    byte_len(l.take(ws_prefix_len(l) as int))
}

/// The least indentation among the first `n` lines that are not blank.
pub open spec fn min_indent_upto(lines: Seq<Seq<char>>, n: int) -> Option<nat>
    decreases n,
{
    if n <= 0 {
        None
    } else {
        let m = min_indent_upto(lines, n - 1);
        if trim(lines[n - 1]).len() == 0 {
            m
        } else {
            let d = indent_of(lines[n - 1]);
            match m {
                None => Some(d),
                Some(x) => Some(if d < x { d } else { x }),
            }
        }
    }
}

/// The least indentation of the lines that are not blank, 0 when all are.
pub open spec fn min_indent(lines: Seq<Seq<char>>) -> nat {
    match min_indent_upto(lines, lines.len() as int) {
        Some(x) => x,
        None => 0,
    }
}

/// The index after the characters from `i` on whose bytes make exactly `n`;
/// `None` when the `n`-th byte falls inside a character or past the end.
pub open spec fn byte_cut(l: Seq<char>, i: int, n: int) -> Option<int>
    decreases l.len() - i,
{
    if n <= 0 {
        Some(i)
    } else if i < 0 || i >= l.len() || char_bytes(l[i]) > n {
        None
    } else {
        byte_cut(l, i + 1, n - char_bytes(l[i]))
    }
}

pub proof fn lemma_byte_cut(l: Seq<char>, i: int, n: int)
    requires
        0 <= i <= l.len(),
    ensures
        byte_cut(l, i, n) matches Some(k) ==> i <= k <= l.len(),
    decreases l.len() - i,
{
    if n > 0 && i < l.len() && char_bytes(l[i]) <= n {
        lemma_byte_cut(l, i + 1, n - char_bytes(l[i]));
    }
}

/// A line with `m` bytes of indentation taken off; a line shorter than that
/// is trimmed instead. `None` when the cut falls inside a character.
pub open spec fn dedent_line(l: Seq<char>, m: nat) -> Option<Seq<char>> {
    if byte_len(l) >= m {
        match byte_cut(l, 0, m as int) {
            Some(k) => Some(l.skip(k)),
            None => None,
        }
    } else {
        Some(trim(l))
    }
}

/// The first `n` lines, each with `m` bytes of indentation taken off.
pub open spec fn dedent_upto(lines: Seq<Seq<char>>, n: int, m: nat) -> Option<Seq<Seq<char>>>
    decreases n,
{
    if n <= 0 {
        Some(Seq::empty())
    } else {
        match (dedent_upto(lines, n - 1, m), dedent_line(lines[n - 1], m)) {
            (Some(a), Some(b)) => Some(a.push(b)),
            _ => None,
        }
    }
}

/// The text of a multi-line string: its lines with their common
/// indentation taken off, joined with new lines.
pub open spec fn dedent(lines: Seq<Seq<char>>) -> Option<Seq<char>> {
    match dedent_upto(lines, lines.len() as int, min_indent(lines)) {
        Some(ls) => Some(join(ls, "\n"@)),
        None => None,
    }
}

/// The number of bytes of the first `n` characters.
fn bytes_upto(l: &Vec<char>, n: usize) -> (b: u128)
    requires
        n <= l@.len(),
    ensures
        b == byte_len(l@.take(n as int)),
        b <= 4 * n,
{
    let mut b: u128 = 0;
    let mut i: usize = 0;
    while i < n
        invariant
            i <= n <= l@.len(),
            b == byte_len(l@.take(i as int)),
            b <= 4 * i,
        decreases n - i,
    {
        let c = l[i];
        let k: u128 = if (c as u32) < 0x80 { 1 } else if (c as u32) < 0x800 { 2 } else if (c as u32) < 0x10000 { 3 } else { 4 };
        assert(l@.take(i + 1).drop_last() == l@.take(i as int));
        b = b + k;
        i = i + 1;
    }
    b
}

/// The number of leading white-space characters of a line.
fn ws_prefix_exec(l: &Vec<char>) -> (n: usize)
    ensures
        n == ws_prefix_len(l@),
{
    proof {
        lemma_trim_start(l@);
    }
    let a = crate::text::skip_ws_from(l.as_slice(), 0);
    proof {
        assert(a == ws_prefix_len(l@)) by {
            if a < ws_prefix_len(l@) {
                assert(is_ws(l@[a as int]));
            } else if a > ws_prefix_len(l@) {
                assert(is_ws(l@[ws_prefix_len(l@) as int]));
            }
        }
    }
    a
}

/// The views of lines held as character vectors.
pub open spec fn lines_view(v: Seq<Vec<char>>) -> Seq<Seq<char>> {
    v.map_values(|l: Vec<char>| l@)
}

fn min_indent_exec(lines: &Vec<Vec<char>>) -> (m: u128)
    ensures
        m == min_indent(lines_view(lines@)),
{
    let ghost lv = lines_view(lines@);
    let mut best: Option<u128> = None;
    let mut i: usize = 0;
    while i < lines.len()
        invariant
            i <= lines@.len(),
            lv == lines_view(lines@),
            match best {
                Some(x) => min_indent_upto(lv, i as int) == Some(x as nat),
                None => min_indent_upto(lv, i as int) is None,
            },
        decreases lines@.len() - i,
    {
        let t = trim_chars(lines[i].as_slice());
        assert(lv[i as int] == lines@[i as int]@);
        if t.len() > 0 {
            let w = ws_prefix_exec(&lines[i]);
            proof {
                lemma_trim_start(lines@[i as int]@);
            }
            let d = bytes_upto(&lines[i], w);
            best = match best {
                None => Some(d),
                Some(x) => Some(if d < x { d } else { x }),
            };
        }
        i = i + 1;
    }
    match best {
        Some(x) => x,
        None => 0,
    }
}

/// The number of characters whose bytes make exactly `n`.
fn byte_cut_exec(l: &Vec<char>, n: u128) -> (r: Option<usize>)
    ensures
        match r {
            Some(k) => byte_cut(l@, 0, n as int) == Some(k as int),
            None => byte_cut(l@, 0, n as int) is None,
        },
{
    let mut i: usize = 0;
    let mut rem: u128 = n;
    while rem > 0
        invariant
            i <= l@.len(),
            byte_cut(l@, i as int, rem as int) == byte_cut(l@, 0, n as int),
        decreases l@.len() - i,
    {
        if i >= l.len() {
            return None;
        }
        let c = l[i];
        let k: u128 = if (c as u32) < 0x80 { 1 } else if (c as u32) < 0x800 { 2 } else if (c as u32) < 0x10000 { 3 } else { 4 };
        if k > rem {
            return None;
        }
        rem = rem - k;
        i = i + 1;
    }
    Some(i)
}

pub proof fn lemma_dedent_none(lines: Seq<Seq<char>>, n: int, k: int, m: nat)
    requires
        0 < n <= k,
        dedent_upto(lines, n, m) is None,
    ensures
        dedent_upto(lines, k, m) is None,
    decreases k - n,
{
    if k > n {
        lemma_dedent_none(lines, n, k - 1, m);
    }
}

/// Takes the common indentation off the lines and joins them.
fn dedent_exec(lines: &Vec<Vec<char>>) -> (r: Option<String>)
    ensures
        match r {
            Some(t) => dedent(lines_view(lines@)) == Some(t@),
            None => dedent(lines_view(lines@)) is None,
        },
{
    let ghost lv = lines_view(lines@);
    let m = min_indent_exec(lines);
    let mut parts: Vec<String> = Vec::new();
    let mut i: usize = 0;
    while i < lines.len()
        invariant
            i <= lines@.len(),
            lv == lines_view(lines@),
            m == min_indent(lv),
            dedent_upto(lv, i as int, m as nat) == Some(string_views(parts@)),
            parts@.len() == i,
        decreases lines@.len() - i,
    {
        let l = &lines[i];
        assert(lv[i as int] == l@);
        let total = bytes_upto(l, l.len());
        assert(l@.take(l@.len() as int) == l@);
        let ghost before = parts@;
        if total >= m {
            match byte_cut_exec(l, m) {
                Some(k) => {
                    proof {
                        lemma_byte_cut(l@, 0, m as int);
                    }
                    let rest = crate::text::chars_range(l.as_slice(), k, l.len());
                    parts.push(string_of(rest.as_slice()));
                },
                None => {
                    proof {
                        lemma_dedent_none(lv, i + 1, lv.len() as int, m as nat);
                    }
                    return None;
                },
            }
        } else {
            let t = trim_chars(l.as_slice());
            parts.push(string_of(t.as_slice()));
        }
        assert(parts@ == before.push(parts@[i as int]));
        assert(string_views(parts@) =~= string_views(before).push(parts@[i as int]@));
        i = i + 1;
    }
    Some(crate::text::join_strings(&parts, "\n"))
}

/// What a multi-line string at `p` (its opening `'''`) reads: its text and
/// the position after the closing `'''`.
pub open spec fn ml_value(s: Seq<char>, p: int) -> Option<(Seq<char>, int)> {
    match ml_body(s, ml_open(s, p + 3), Seq::empty(), Seq::empty()) {
        Some((lines, q)) => match dedent(lines) {
            Some(t) => Some((t, q)),
            None => None,
        },
        None => None,
    }
}

/// Reads a multi-line string whose opening `'''` starts at `p`.
fn ml_exec(s: &Vec<char>, p: usize) -> (r: Result<(String, usize), ParseError>)
    requires
        p + 3 <= s@.len(),
    ensures
        text_res(r, ml_value(s@, p as int)),
{
    let n = s.len();
    let mut i = p + 3;
    while i < n
        invariant_except_break
            p + 3 <= i <= n,
            n == s@.len(),
            ml_open(s@, i as int) == ml_open(s@, p + 3),
        ensures
            p + 3 <= i <= n,
            n == s@.len(),
            i == ml_open(s@, p + 3),
        decreases n - i,
    {
        let c = s[i];
        if c == '\n' {
            i = i + 1;
            break;
        } else if c == '\r' {
            i = if n - i > 1 && s[i + 1] == '\n' { i + 2 } else { i + 1 };
            break;
        } else if is_whitespace(c) {
            i = i + 1;
        } else {
            break;
        }
    }
    assert(i == ml_open(s@, p + 3));
    let ghost start = i as int;
    let mut lines: Vec<Vec<char>> = Vec::new();
    let mut cur: Vec<char> = Vec::new();
    assert(lines_view(lines@) =~= Seq::<Seq<char>>::empty());
    while i < s.len()
        invariant
            start <= i <= s@.len(),
            start == ml_open(s@, p + 3),
            ml_body(s@, i as int, lines_view(lines@), cur@) == ml_body(s@, start, Seq::empty(), Seq::empty()),
        decreases s@.len() - i,
    {
        let c = s[i];
        if c == '\'' && s.len() - i > 2 && s[i + 1] == '\'' && s[i + 2] == '\'' {
            let t = trim_end_exec(&cur);
            let ghost lv0 = lines_view(lines@);
            let ghost tv = t@;
            assert(ml_body(s@, i as int, lv0, cur@) == Some((if tv.len() > 0 { lv0.push(tv) } else { lv0 }, i + 3)));
            if t.len() > 0 {
                lines.push(t);
                assert(lines_view(lines@) == lv0.push(tv));
            }
            assert(lines_view(lines@) == (if tv.len() > 0 { lv0.push(tv) } else { lv0 }));
            match dedent_exec(&lines) {
                Some(text) => return Ok((text, i + 3)),
                None => return Err(ParseError::InvalidFormat("Invalid indentation in multi-line string".to_owned())),
            }
        } else if c == '\n' || c == '\r' {
            let ghost lv0 = lines_view(lines@);
            let ghost cv = cur@;
            let line = cur;
            lines.push(line);
            assert(lines_view(lines@) == lv0.push(cv));
            cur = Vec::new();
            if c == '\r' && i + 1 < s.len() && s[i + 1] == '\n' {
                i = i + 2;
            } else {
                i = i + 1;
            }
        } else {
            cur.push(c);
            i = i + 1;
        }
    }
    Err(ParseError::InvalidFormat("Unterminated multi-line string".to_owned()))
}

pub proof fn lemma_sq_from(s: Seq<char>, p: int, acc: Seq<char>)
    requires
        0 <= p,
    ensures
        sq_from(s, p, acc) matches Some((_, q)) ==> p < q <= s.len(),
    decreases s.len() - p,
{
    if p < s.len() && s[p] != '\'' {
        lemma_sq_from(s, p + 1, acc.push(s[p]));
    }
}

// ---------------------------------------------------------------------------
// Values, objects and arrays
// ---------------------------------------------------------------------------

/// A string read, as a value.
pub open spec fn str_res(x: Option<(Seq<char>, int)>) -> Option<(JsonView, int)> {
    match x {
        Some((t, q)) => Some((JsonView::Str(t), q)),
        None => None,
    }
}

/// The value at `p` (after white space and comments) and the position after
/// it: an object, an array, a double-quoted, single-quoted or multi-line
/// string, or else an unquoted value up to the end of its line.
pub open spec fn value_at(s: Seq<char>, p: int, in_array: bool) -> Option<(JsonView, int)>
    decreases s.len() - p, 0int,
{
    if p < 0 || p > s.len() {
        None
    } else {
        let q = skip(s, p);
        proof {
            lemma_skip_from(s, p, 0);
        }
        if q >= s.len() {
            None
        } else if s[q] == '{' {
            members_from(s, q + 1, Seq::empty())
        } else if s[q] == '[' {
            items_from(s, q + 1, Seq::empty())
        } else if s[q] == '"' {
            str_res(dq_from(s, q + 1, Seq::empty()))
        } else if s[q] == '\'' {
            if q + 2 < s.len() && s[q + 1] == '\'' && s[q + 2] == '\'' {
                str_res(ml_value(s, q))
            } else {
                str_res(sq_from(s, q + 1, Seq::empty()))
            }
        } else {
            let e = uq_end(s, q, in_array);
            Some((JsonView::Str(uq_text(s.subrange(q, e), in_array)), e))
        }
    }
}

/// Where reading goes on after a member or item that ended at `t`: past
/// white space, comments and one comma.
pub open spec fn after_item(s: Seq<char>, t: int) -> int {
    let t2 = skip(s, t);
    if t2 < s.len() && s[t2] == ',' { t2 + 1 } else { t2 }
}

/// The members of an object from `p` up to its closing `}`, added to `acc`
/// (a key read again replaces its value in place), and the position after
/// the `}`. A member is a key, `:` and a value, and may be followed by a
/// comma.
pub open spec fn members_from(s: Seq<char>, p: int, acc: Seq<(Seq<char>, JsonView)>) -> Option<(JsonView, int)>
    decreases s.len() - p, 1int,
{
    if p < 0 || p > s.len() {
        None
    } else {
        let q = skip(s, p);
        proof {
            lemma_skip_from(s, p, 0);
        }
        if q >= s.len() {
            None
        } else if s[q] == '}' {
            Some((JsonView::Object(acc), q + 1))
        } else {
            match key_at(s, q) {
                None => None,
                Some((k, r)) => {
                    proof {
                        lemma_key_at(s, q);
                        lemma_skip_from(s, r, 0);
                    }
                    let r2 = skip(s, r);
                    if r2 >= s.len() || s[r2] != ':' {
                        None
                    } else {
                        match value_at(s, r2 + 1, false) {
                            None => None,
                            Some((v, t)) => {
                                if 0 <= t <= s.len() && p < after_item(s, t) <= s.len() {
                                    members_from(s, after_item(s, t), map_insert(acc, k, v))
                                } else {
                                    None
                                }
                            },
                        }
                    }
                },
            }
        }
    }
}

/// The items of an array from `p` up to its closing `]`, after `acc`, and
/// the position after the `]`. An item that leaves the reading where it
/// began (a `}` where an item should start) makes the array unreadable.
pub open spec fn items_from(s: Seq<char>, p: int, acc: Seq<JsonView>) -> Option<(JsonView, int)>
    decreases s.len() - p, 1int,
{
    if p < 0 || p > s.len() {
        None
    } else {
        let q = skip(s, p);
        proof {
            lemma_skip_from(s, p, 0);
        }
        if q >= s.len() {
            None
        } else if s[q] == ']' {
            Some((JsonView::Array(acc), q + 1))
        } else {
            match value_at(s, q, true) {
                None => None,
                Some((v, t)) => {
                    if 0 <= t <= s.len() && p < after_item(s, t) <= s.len() {
                        items_from(s, after_item(s, t), acc.push(v))
                    } else {
                        None
                    }
                },
            }
        }
    }
}

/// The result of reading a value: its view and the position after it.
pub open spec fn val_res(r: Result<(JsonValue, usize), ParseError>, x: Option<(JsonView, int)>, n: int) -> bool {
    match r {
        Ok((v, q)) => x == Some((json_view(v), q as int)) && q <= n,
        Err(e) => x is None && e is InvalidFormat,
    }
}

/// Wraps a string read as a value.
fn str_value(r: Result<(String, usize), ParseError>, Ghost(x): Ghost<Option<(Seq<char>, int)>>, Ghost(n): Ghost<int>) -> (o: Result<(JsonValue, usize), ParseError>)
    requires
        text_res(r, x),
        x matches Some((_, q)) ==> q <= n,
    ensures
        val_res(o, str_res(x), n),
{
    match r {
        Ok((t, q)) => Ok((JsonValue::Str(t), q)),
        Err(e) => Err(e),
    }
}

/// Where reading goes on after a member or item that ended at `t`.
fn after_item_exec(s: &Vec<char>, t: usize) -> (u: usize)
    requires
        t <= s@.len(),
    ensures
        u == after_item(s@, t as int),
        t <= u <= s@.len(),
{
    let t2 = skip_exec(s, t);
    if t2 < s.len() && s[t2] == ',' { t2 + 1 } else { t2 }
}

/// Reads the value at `p`.
fn value_exec(s: &Vec<char>, p: usize, in_array: bool) -> (r: Result<(JsonValue, usize), ParseError>)
    requires
        p <= s@.len(),
    ensures
        val_res(r, value_at(s@, p as int, in_array), s@.len() as int),
    decreases s@.len() - p, 0int,
{
    let q = skip_exec(s, p);
    if q >= s.len() {
        return Err(ParseError::InvalidFormat("Unexpected end of input while parsing value".to_owned()));
    }
    let c = s[q];
    if c == '{' {
        members_exec(s, q + 1)
    } else if c == '[' {
        items_exec(s, q + 1)
    } else if c == '"' {
        proof {
            lemma_dq_from(s@, q + 1, Seq::empty());
        }
        str_value(dq_exec(s, q + 1), Ghost(dq_from(s@, q + 1, Seq::empty())), Ghost(s@.len() as int))
    } else if c == '\'' {
        if s.len() - q > 2 && s[q + 1] == '\'' && s[q + 2] == '\'' {
            proof {
                lemma_ml(s@, q + 3, Seq::empty(), Seq::empty());
                lemma_ml(s@, ml_open(s@, q + 3), Seq::empty(), Seq::empty());
            }
            str_value(ml_exec(s, q), Ghost(ml_value(s@, q as int)), Ghost(s@.len() as int))
        } else {
            proof {
                lemma_sq_from(s@, q + 1, Seq::empty());
            }
            str_value(sq_exec(s, q + 1), Ghost(sq_from(s@, q + 1, Seq::empty())), Ghost(s@.len() as int))
        }
    } else {
        proof {
            lemma_uq_end(s@, q as int, in_array);
        }
        let (t, e) = uq_exec(s, q, in_array);
        Ok((JsonValue::Str(t), e))
    }
}

/// Reads the members of an object from `p` (after its `{`).
fn members_exec(s: &Vec<char>, p: usize) -> (r: Result<(JsonValue, usize), ParseError>)
    requires
        p <= s@.len(),
    ensures
        val_res(r, members_from(s@, p as int, Seq::empty()), s@.len() as int),
    decreases s@.len() - p, 1int,
{
    let mut acc: Vec<(String, JsonValue)> = Vec::new();
    let mut pos = p;
    proof {
        lemma_members_view(acc@, 0);
    }
    assert(members_view(acc@) =~= Seq::<(Seq<char>, JsonView)>::empty());
    loop
        invariant
            p <= pos <= s@.len(),
            members_from(s@, pos as int, members_view(acc@)) == members_from(s@, p as int, Seq::empty()),
        decreases s@.len() - pos,
    {
        let q = skip_exec(s, pos);
        if q >= s.len() {
            return Err(ParseError::InvalidFormat("Unterminated object".to_owned()));
        }
        if s[q] == '}' {
            proof {
                lemma_members_view(acc@, acc@.len() as int);
            }
            return Ok((JsonValue::Object(acc), q + 1));
        }
        proof {
            lemma_key_at(s@, q as int);
        }
        let (k, r) = match key_exec(s, q) {
            Ok(x) => x,
            Err(e) => return Err(e),
        };
        let r2 = skip_exec(s, r);
        if r2 >= s.len() || s[r2] != ':' {
            return Err(ParseError::InvalidFormat("Expected ':' after key".to_owned()));
        }
        let (v, t) = match value_exec(s, r2 + 1, false) {
            Ok(x) => x,
            Err(e) => return Err(e),
        };
        let t3 = after_item_exec(s, t);
        if t3 <= pos {
            return Err(ParseError::InvalidFormat("Object member does not advance".to_owned()));
        }
        obj_insert(&mut acc, k, v);
        pos = t3;
    }
}

/// Reads the items of an array from `p` (after its `[`).
fn items_exec(s: &Vec<char>, p: usize) -> (r: Result<(JsonValue, usize), ParseError>)
    requires
        p <= s@.len(),
    ensures
        val_res(r, items_from(s@, p as int, Seq::empty()), s@.len() as int),
    decreases s@.len() - p, 1int,
{
    let mut acc: Vec<JsonValue> = Vec::new();
    let mut pos = p;
    assert(items_view_upto(acc@, 0) =~= Seq::<JsonView>::empty());
    loop
        invariant
            p <= pos <= s@.len(),
            items_from(s@, pos as int, items_view_upto(acc@, acc@.len() as int)) == items_from(s@, p as int, Seq::empty()),
        decreases s@.len() - pos,
    {
        let q = skip_exec(s, pos);
        if q >= s.len() {
            return Err(ParseError::InvalidFormat("Unterminated array".to_owned()));
        }
        if s[q] == ']' {
            return Ok((JsonValue::Array(acc), q + 1));
        }
        let (v, t) = match value_exec(s, q, true) {
            Ok(x) => x,
            Err(e) => return Err(e),
        };
        let t3 = after_item_exec(s, t);
        if t3 <= pos {
            return Err(ParseError::InvalidFormat("Array item does not advance".to_owned()));
        }
        let ghost before = acc@;
        acc.push(v);
        proof {
            assert(acc@.drop_last() == before);
            lemma_items_view(acc@, acc@.len() as int);
            lemma_items_view(before, before.len() as int);
            assert(items_view_upto(acc@, acc@.len() as int) =~= items_view_upto(before, before.len() as int).push(json_view(v)));
        }
        pos = t3;
    }
}

// ---------------------------------------------------------------------------
// Reading a file
// ---------------------------------------------------------------------------

/// The members of the root object: the first token must be `{`; what
/// follows its closing `}` is not read.
pub open spec fn root_of(s: Seq<char>) -> Option<Seq<(Seq<char>, JsonView)>> {
    let q = skip(s, 0);
    if 0 <= q < s.len() && s[q] == '{' {
        match members_from(s, q + 1, Seq::empty()) {
            Some((JsonView::Object(m), _)) => Some(m),
            _ => None,
        }
    } else {
        None
    }
}

/// The text an array item gives: a string's text, nothing for an object or
/// an array.
pub open spec fn item_text(v: JsonView) -> Seq<char> {
    match v {
        JsonView::Str(t) => t,
        _ => Seq::empty(),
    }
}

/// The entries of the first `n` members under `prefix`, added to `acc`:
/// nested objects by their members with dotted keys, strings as texts and
/// arrays as arrays of the items' texts.
pub open spec fn hj_flatten_upto(
    m: Seq<(Seq<char>, JsonView)>,
    n: int,
    prefix: Seq<char>,
    acc: Seq<(Seq<char>, J5Val)>,
) -> Seq<(Seq<char>, J5Val)>
    decreases m, n,
{
    if n <= 0 || n > m.len() {
        acc
    } else {
        let acc1 = hj_flatten_upto(m, n - 1, prefix, acc);
        let full = join_key(prefix, m[n - 1].0);
        proof {
            assert(decreases_to!(m => m[n - 1]));
        }
        match m[n - 1].1 {
            JsonView::Object(sub) => hj_flatten_upto(sub, sub.len() as int, full, acc1),
            JsonView::Array(items) => map_insert(acc1, full, J5Val::Items(items.map_values(|x: JsonView| item_text(x)))),
            JsonView::Str(t) => map_insert(acc1, full, J5Val::Text(t)),
            _ => acc1,
        }
    }
}

pub open spec fn hj_flatten(m: Seq<(Seq<char>, JsonView)>) -> Seq<(Seq<char>, J5Val)> {
    hj_flatten_upto(m, m.len() as int, Seq::empty(), Seq::empty())
}

/// What reading HJSON bytes gives.
pub open spec fn parse_ok(r: Result<I18nResource, ParseError>, content: Seq<u8>) -> bool {
    if !valid_utf8(content) {
        r matches Err(ParseError::InvalidFormat(_))
    } else {
        match root_of(decode_utf8(content)) {
            None => r matches Err(ParseError::InvalidFormat(_)),
            Some(m) => r matches Ok(res) && {
                &&& ResourceMetadata::spec_plain_except_ext(res.metadata, FormatId::Hjson)
                &&& res.metadata.format_ext matches Some(FormatExtension::Hjson(_))
                &&& pairs_model(entry_map_pairs(res.entries), hj_flatten(m), j5_rel())
            },
        }
    }
}

/// How sure this format is that it can read a file: `.hjson` is certain;
/// otherwise text that is not valid JSON, starts with `{` (after white
/// space) and holds `# ` or `// ` is a low guess.
pub open spec fn spec_detect(extension: Seq<char>, content: Seq<u8>) -> Confidence {
    if extension == ".hjson"@ {
        Confidence::Definite
    } else if valid_utf8(content) && json_read(decode_utf8(content)) is None && {
        let t = trim(decode_utf8(content));
        &&& t.len() > 0
        &&& t[0] == '{'
        &&& (contains(t, "# "@) || contains(t, "// "@))
    } {
        Confidence::Low
    } else {
        Confidence::NoMatch
    }
}

/// Reads the root object of a text.
fn root_exec(s: &Vec<char>) -> (r: Result<Vec<(String, JsonValue)>, ParseError>)
    ensures
        match root_of(s@) {
            Some(m) => r matches Ok(v) && members_view(v@) == m,
            None => r matches Err(e) && e is InvalidFormat,
        },
{
    let q = skip_exec(s, 0);
    if q < s.len() && s[q] == '{' {
        match members_exec(s, q + 1) {
            Ok((JsonValue::Object(m), _)) => {
                proof {
                    lemma_members_view(m@, m@.len() as int);
                }
                Ok(m)
            },
            Ok(_) => Err(ParseError::InvalidFormat("Root must be an object".to_owned())),
            Err(e) => Err(e),
        }
    } else {
        Err(ParseError::InvalidFormat("HJSON root must start with '{'".to_owned()))
    }
}

fn insert_hj_entry(
    entries: &mut IndexMap<String, I18nEntry>,
    key: String,
    value: EntryValue,
    Ghost(acc): Ghost<Seq<(Seq<char>, J5Val)>>,
    Ghost(x): Ghost<J5Val>,
)
    requires
        pairs_model(entry_map_pairs(*old(entries)), acc, j5_rel()),
        match x {
            J5Val::Text(t) => value matches EntryValue::Simple(s) && s@ == t,
            J5Val::Items(t) => value matches EntryValue::Array(a) && string_views(a@) == t,
        },
    ensures
        pairs_model(entry_map_pairs(*final(entries)), map_insert(acc, key@, x), j5_rel()),
{
    let e = I18nEntry::with_value(key.clone(), value);
    proof {
        lemma_pairs_model_insert(entry_map_pairs(*entries), acc, j5_rel(), key@, e, x);
    }
    entry_map_insert(entries, key, e);
}

fn join_key_exec(prefix: &String, key: &String) -> (r: String)
    ensures
        r@ == join_key(prefix@, key@),
{
    if prefix.as_str().is_empty() {
        key.clone()
    } else {
        let mut r = prefix.clone();
        r.push('.');
        r.append(key.as_str());
        assert(r@ =~= prefix@ + seq!['.'] + key@);
        r
    }
}

/// The texts of an array's items.
fn item_texts(a: &Vec<JsonValue>) -> (r: Vec<String>)
    ensures
        string_views(r@) == items_view_upto(a@, a@.len() as int).map_values(|x: JsonView| item_text(x)),
{
    let ghost av = items_view_upto(a@, a@.len() as int);
    proof {
        lemma_items_view(a@, a@.len() as int);
    }
    let mut out: Vec<String> = Vec::new();
    let mut i: usize = 0;
    while i < a.len()
        invariant
            i <= a@.len(),
            av == items_view_upto(a@, a@.len() as int),
            av.len() == a@.len(),
            forall|j: int| 0 <= j < a@.len() ==> #[trigger] av[j] == json_view(a@[j]),
            string_views(out@) == av.take(i as int).map_values(|x: JsonView| item_text(x)),
        decreases a@.len() - i,
    {
        let t = match &a[i] {
            JsonValue::Str(t) => t.clone(),
            _ => String::new(),
        };
        assert(t@ == item_text(av[i as int]));
        let ghost before = out@;
        let ghost tv = t@;
        out.push(t);
        assert(string_views(out@) =~= string_views(before).push(tv));
        assert(av.take(i + 1).map_values(|x: JsonView| item_text(x)) =~= av.take(i as int).map_values(|x: JsonView| item_text(x)).push(item_text(av[i as int])));
        i = i + 1;
    }
    assert(av.take(a@.len() as int) =~= av);
    out
}

/// Adds the entries of an object's members under `prefix`.
fn flatten_exec(
    m: &Vec<(String, JsonValue)>,
    prefix: &String,
    entries: &mut IndexMap<String, I18nEntry>,
    Ghost(acc): Ghost<Seq<(Seq<char>, J5Val)>>,
)
    requires
        pairs_model(entry_map_pairs(*old(entries)), acc, j5_rel()),
    ensures
        pairs_model(entry_map_pairs(*final(entries)), hj_flatten_upto(members_view(m@), m@.len() as int, prefix@, acc), j5_rel()),
    decreases m@,
{
    let ghost mv = members_view(m@);
    proof {
        lemma_members_view(m@, m@.len() as int);
    }
    let mut i: usize = 0;
    while i < m.len()
        invariant
            i <= m@.len(),
            mv == members_view(m@),
            mv.len() == m@.len(),
            forall|j: int| 0 <= j < m@.len() ==> #[trigger] mv[j] == (m@[j].0@, json_view(m@[j].1)),
            pairs_model(entry_map_pairs(*entries), hj_flatten_upto(mv, i as int, prefix@, acc), j5_rel()),
        decreases m@.len() - i,
    {
        let ghost before = hj_flatten_upto(mv, i as int, prefix@, acc);
        let full = join_key_exec(prefix, &m[i].0);
        assert(mv[i as int] == (m@[i as int].0@, json_view(m@[i as int].1)));
        match &m[i].1 {
            JsonValue::Object(sub) => {
                assert(decreases_to!(m@ => m@[i as int]));
                proof {
                    lemma_members_view(sub@, sub@.len() as int);
                }
                flatten_exec(sub, &full, entries, Ghost(before));
            },
            JsonValue::Array(items) => {
                let t = item_texts(items);
                let ghost x = J5Val::Items(string_views(t@));
                insert_hj_entry(entries, full, EntryValue::Array(t), Ghost(before), Ghost(x));
            },
            JsonValue::Str(t) => {
                let ghost x = J5Val::Text(t@);
                insert_hj_entry(entries, full, EntryValue::Simple(t.clone()), Ghost(before), Ghost(x));
            },
            _ => {},
        }
        i = i + 1;
    }
}

impl Parser {
    /// `.hjson` is certain; other text that is not valid JSON, starts with
    /// `{` and holds a `# ` or `// ` comment marker is a low guess.
    pub fn detect(&self, extension: &str, content: &[u8]) -> (c: Confidence)
        ensures
            c == spec_detect(extension@, content@),
    {
        if crate::text::str_eq(extension, ".hjson") {
            return Confidence::Definite;
        }
        match std::str::from_utf8(content) {
            Ok(s) => {
                if crate::json::parse_json(s).is_ok() {
                    return Confidence::NoMatch;
                }
                let chars = str_chars(s);
                let t = trim_chars(chars.as_slice());
                if t.len() > 0 && t[0] == '{' {
                    let hash = str_chars("# ");
                    let slashes = str_chars("// ");
                    if crate::text::chars_contain(t.as_slice(), hash.as_slice())
                        || crate::text::chars_contain(t.as_slice(), slashes.as_slice()) {
                        return Confidence::Low;
                    }
                }
                Confidence::NoMatch
            },
            Err(_) => Confidence::NoMatch,
        }
    }

    /// Parses HJSON: the root must be an object; its members give entries
    /// with dotted keys, arrays giving arrays of texts. A multi-line string
    /// whose common indentation would end inside a character, or an array
    /// item that does not move the reading on, is refused.
    pub fn parse(&self, content: &[u8]) -> (r: Result<I18nResource, ParseError>)
        ensures
            parse_ok(r, content@),
    {
        let s = match std::str::from_utf8(content) {
            Ok(s) => s,
            Err(e) => return Err(ParseError::InvalidFormat(utf8_error_message(&e))),
        };
        let chars = str_chars(s);
        let root = match root_exec(&chars) {
            Ok(m) => m,
            Err(e) => return Err(e),
        };
        let mut entries = entry_map_new();
        let prefix = String::new();
        proof {
            lemma_members_view(root@, root@.len() as int);
        }
        flatten_exec(&root, &prefix, &mut entries, Ghost(Seq::empty()));
        let mut metadata = ResourceMetadata::for_format(FormatId::Hjson);
        metadata.format_ext = Some(FormatExtension::Hjson(HjsonExt {}));
        Ok(I18nResource { metadata, entries })
    }

    pub fn capabilities(&self) -> (c: FormatCapabilities)
        ensures
            c == spec_capabilities(),
    {
        FormatCapabilities { arrays: true, nested_keys: true, ..FormatCapabilities::default() }
    }
}

// ---------------------------------------------------------------------------
// Writing
// ---------------------------------------------------------------------------

/// The JSON value written for an entry's value: a simple text, the `other`
/// form of a plural, the texts of an array, the `other` case of a select,
/// the pattern of a multi-variable plural.
pub open spec fn hj_json(v: EntryValue) -> JsonView {
    match v {
        EntryValue::Simple(s) => JsonView::Str(s@),
        EntryValue::Plural(ps) => JsonView::Str(ps.other@),
        EntryValue::Array(a) => JsonView::Array(string_views(a@).map_values(|t: Seq<char>| JsonView::Str(t))),
        EntryValue::Select(ss) => JsonView::Str(match map_get(str_map_pairs(ss.cases), "other"@) {
            Some(t) => t,
            None => Seq::empty(),
        }),
        EntryValue::MultiVariablePlural(m) => JsonView::Str(m.pattern@),
    }
}

/// Inserts `v` under the path `parts`: each step into the member of that
/// name, made an empty object when missing. `None` when a step meets a
/// member that is no object.
pub open spec fn hj_nest(m: Seq<(Seq<char>, JsonView)>, parts: Seq<Seq<char>>, v: JsonView) -> Option<Seq<(Seq<char>, JsonView)>>
    decreases parts.len(),
{
    if parts.len() <= 1 {
        Some(map_insert(m, parts[0], v))
    } else {
        let child = match map_get(m, parts[0]) {
            Some(JsonView::Object(c)) => Some(c),
            Some(_) => None,
            None => Some(Seq::empty()),
        };
        match child {
            None => None,
            Some(c) => match hj_nest(c, parts.drop_first(), v) {
                Some(c2) => Some(map_insert(m, parts[0], JsonView::Object(c2))),
                None => None,
            },
        }
    }
}

/// The root object built from the entries in order, each under the parts
/// of its dotted key; `None` when a key path meets a value.
pub open spec fn hj_root(ps: Seq<(Seq<char>, I18nEntry)>) -> Option<Seq<(Seq<char>, JsonView)>>
    decreases ps.len(),
{
    if ps.len() == 0 {
        Some(Seq::empty())
    } else {
        match hj_root(ps.drop_last()) {
            Some(r) => hj_nest(r, split_char(ps.last().1.key@, '.'), hj_json(ps.last().1.value)),
            None => None,
        }
    }
}

/// The bytes written for a resource: its root object as pretty JSON with a
/// final new line; `None` when a key path meets a value.
pub open spec fn spec_write(res: I18nResource) -> Option<Seq<u8>> {
    match hj_root(entry_map_pairs(res.entries)) {
        Some(root) => Some(with_newline(encode_utf8(json_pretty(JsonView::Object(root))))),
        None => None,
    }
}

pub fn hj_json_exec(v: &EntryValue) -> (r: JsonValue)
    ensures
        json_view(r) == hj_json(*v),
{
    match v {
        EntryValue::Simple(s) => JsonValue::Str(s.clone()),
        EntryValue::Plural(ps) => JsonValue::Str(ps.other.clone()),
        EntryValue::Array(a) => {
            let ghost target = string_views(a@).map_values(|t: Seq<char>| JsonView::Str(t));
            let mut items: Vec<JsonValue> = Vec::new();
            let mut i: usize = 0;
            while i < a.len()
                invariant
                    i <= a@.len(),
                    target == string_views(a@).map_values(|t: Seq<char>| JsonView::Str(t)),
                    items@.len() == i,
                    forall|j: int| 0 <= j < i ==> #[trigger] json_view(items@[j]) == target[j],
                decreases a@.len() - i,
            {
                items.push(JsonValue::Str(a[i].clone()));
                i = i + 1;
            }
            proof {
                lemma_items_view(items@, items@.len() as int);
                assert(items_view_upto(items@, items@.len() as int) =~= target);
            }
            JsonValue::Array(items)
        },
        EntryValue::Select(ss) => match str_map_get(&ss.cases, "other") {
            Some(t) => JsonValue::Str(t.clone()),
            None => JsonValue::Str(String::new()),
        },
        EntryValue::MultiVariablePlural(m) => JsonValue::Str(m.pattern.clone()),
    }
}

/// Inserts `v` under `parts[start..]`; `false` when a step meets a member
/// that is no object.
fn hj_nest_exec(m: &mut Vec<(String, JsonValue)>, parts: &Vec<String>, start: usize, v: JsonValue) -> (ok: bool)
    requires
        start < parts@.len(),
    ensures
        match hj_nest(members_view(old(m)@), string_views(parts@).skip(start as int), json_view(v)) {
            Some(x) => ok && members_view(final(m)@) == x,
            None => !ok,
        },
    decreases parts@.len() - start,
{
    let ghost pv = string_views(parts@).skip(start as int);
    assert(pv[0] == parts@[start as int]@);
    if start >= parts.len() - 1 {
        obj_insert(m, parts[start].clone(), v);
        return true;
    }
    assert(pv.drop_first() == string_views(parts@).skip(start + 1));
    let key = parts[start].clone();
    let ghost mv = members_view(m@);
    proof {
        lemma_members_view(m@, m@.len() as int);
        lemma_key_index(mv, key@);
    }
    let mut child: Vec<(String, JsonValue)> = match obj_find(m, key.as_str()) {
        Some(i) => {
            assert(mv[i as int] == (m@[i as int].0@, json_view(m@[i as int].1)));
            let is_obj = match &m[i].1 {
                JsonValue::Object(_) => true,
                _ => false,
            };
            if !is_obj {
                return false;
            }
            let ghost before = m@;
            let x = take_member(m, i);
            proof {
                crate::json::lemma_members_view_update(before, i as int, (before[i as int].0, JsonValue::Null));
                super::json_structured::lemma_key_index_update(mv, i as int, JsonView::Null, key@);
                assert(mv.update(i as int, (mv[i as int].0, JsonView::Null)) == members_view(m@));
            }
            match x {
                JsonValue::Object(c) => c,
                _ => Vec::new(),
            }
        },
        None => {
            let c: Vec<(String, JsonValue)> = Vec::new();
            proof {
                lemma_members_view(c@, 0);
            }
            assert(members_view(c@) =~= Seq::<(Seq<char>, JsonView)>::empty());
            c
        },
    };
    let ok = hj_nest_exec(&mut child, parts, start + 1, v);
    if !ok {
        return false;
    }
    obj_insert(m, key, JsonValue::Object(child));
    proof {
        lemma_members_view(child@, child@.len() as int);
    }
    true
}

/// Builds the root object of a resource; `None` when a key path meets a
/// value.
fn hj_root_exec(resource: &I18nResource) -> (r: Option<Vec<(String, JsonValue)>>)
    ensures
        match hj_root(entry_map_pairs(resource.entries)) {
            Some(x) => r matches Some(v) && members_view(v@) == x,
            None => r is None,
        },
{
    let ghost ps = entry_map_pairs(resource.entries);
    let n = entry_map_len(&resource.entries);
    let mut root: Vec<(String, JsonValue)> = Vec::new();
    proof {
        lemma_members_view(root@, 0);
    }
    assert(members_view(root@) =~= Seq::<(Seq<char>, JsonView)>::empty());
    let mut i: usize = 0;
    while i < n
        invariant
            i <= n,
            n == ps.len(),
            ps == entry_map_pairs(resource.entries),
            hj_root(ps.take(i as int)) == Some(members_view(root@)),
        decreases n - i,
    {
        assert(ps.take(i + 1).drop_last() == ps.take(i as int));
        assert(ps.take(i + 1).last() == ps[i as int]);
        match entry_map_get_index(&resource.entries, i) {
            Some((_k, e)) => {
                let v = hj_json_exec(&e.value);
                let parts = key_parts(&e.key);
                proof {
                    crate::text::lemma_split_char_len(e.key@, '.');
                }
                assert(string_views(parts@).skip(0) == string_views(parts@));
                let ok = hj_nest_exec(&mut root, &parts, 0, v);
                if !ok {
                    proof {
                        lemma_hj_root_none(ps, i + 1, n as int);
                    }
                    assert(ps.take(n as int) == ps);
                    return None;
                }
            },
            None => {},
        }
        i = i + 1;
    }
    assert(ps.take(n as int) == ps);
    Some(root)
}

pub proof fn lemma_hj_root_none(ps: Seq<(Seq<char>, I18nEntry)>, n: int, k: int)
    requires
        0 < n <= k <= ps.len(),
        hj_root(ps.take(n)) is None,
    ensures
        hj_root(ps.take(k)) is None,
    decreases k - n,
{
    if k > n {
        lemma_hj_root_none(ps, n, k - 1);
        assert(ps.take(k).drop_last() == ps.take(k - 1));
    }
}

impl Writer {
    /// Writes the resource as pretty JSON with a final new line. Fails with
    /// a serialization error when a dotted key runs through a key that holds
    /// a value (`a` and `a.b`), and only then.
    pub fn write(&self, resource: &I18nResource) -> (r: Result<Vec<u8>, WriteError>)
        ensures
            match spec_write(*resource) {
                Some(b) => r matches Ok(x) && x@ == b,
                None => r matches Err(e) && e is Serialization,
            },
    {
        let root = match hj_root_exec(resource) {
            Some(root) => root,
            None => return Err(WriteError::Serialization("Key path conflict: a key is both a value and an object".to_owned())),
        };
        let v = JsonValue::Object(root);
        match to_pretty(&v) {
            Ok(text) => {
                let mut out = string_bytes(&text);
                let n = out.len();
                if !(n > 0 && out[n - 1] == 10u8) {
                    out.push(10u8);
                }
                Ok(out)
            },
            Err(e) => Err(WriteError::Serialization(e)),
        }
    }

    pub fn capabilities(&self) -> (c: FormatCapabilities)
        ensures
            c == spec_capabilities(),
    {
        Parser.capabilities()
    }
}

impl super::FormatParser for Parser {
    fn detect(&self, extension: &str, content: &[u8]) -> (c: Confidence)
        ensures
            c == spec_detect(extension@, content@),
    {
        Parser::detect(self, extension, content)
    }

    fn parse(&self, content: &[u8]) -> (r: Result<I18nResource, ParseError>)
        ensures
            parse_ok(r, content@),
    {
        Parser::parse(self, content)
    }

    fn capabilities(&self) -> (c: FormatCapabilities)
        ensures
            c == spec_capabilities(),
    {
        Parser::capabilities(self)
    }
}

impl super::FormatWriter for Writer {
    fn write(&self, resource: &I18nResource) -> (r: Result<Vec<u8>, WriteError>)
        ensures
            match spec_write(*resource) {
                Some(b) => r matches Ok(x) && x@ == b,
                None => r matches Err(e) && e is Serialization,
            },
    {
        Writer::write(self, resource)
    }

    fn capabilities(&self) -> (c: FormatCapabilities)
        ensures
            c == spec_capabilities(),
    {
        Writer::capabilities(self)
    }
}

} // verus!
