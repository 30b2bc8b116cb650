//! iOS `.strings` files: `"key" = "value";` pairs with `/* */` and `//` comments.
use vstd::prelude::*;
use crate::collections::{
    entry_map_pairs, entry_map_new, entry_map_insert, entry_map_len, entry_map_get_index, map_insert,
    pairs_model, lemma_pairs_model_insert,
};
use crate::ir::{
    I18nResource, I18nEntry, ResourceMetadata, FormatId, EntryValue, Comment, CommentRole,
    FormatCapabilities,
};
use crate::text::{
    str_chars, opt_chars, string_of, push_chars, push_range, chars_range, is_ws, is_whitespace, trim, trim_chars, concat_map,
    lemma_concat_map_step, lemma_concat_map_front, is_hex, hex_run, hex_value, read_hex, is_scalar_value, lemma_hex_run,
    string_bytes, skip_blank, str_eq, str_contains, chars_contain_char, contains, utf8_error_message,
};
use vstd::utf8::{valid_utf8, decode_utf8, encode_utf8};
use super::{Confidence, ParseError, WriteError, fallback_text, value_text};

verus! {

pub struct Parser;

pub struct Writer;

// ---------------------------------------------------------------------------
// Escapes
// ---------------------------------------------------------------------------

/// How one character is written inside a quoted `.strings` string.
pub open spec fn escape_char(c: char) -> Seq<char> {
    if c == '"' {
        seq!['\\', '"']
    } else if c == '\\' {
        seq!['\\', '\\']
    } else if c == '\n' {
        seq!['\\', 'n']
    } else if c == '\t' {
        seq!['\\', 't']
    } else {
        seq![c]
    }
}

/// `s` with `"`, `\`, new lines and tabs escaped.
pub open spec fn spec_escape(s: Seq<char>) -> Seq<char> {
    concat_map(s, |c: char| escape_char(c))
}

/// Escapes a string for iOS .strings output: escapes ", \, newlines, tabs.
pub fn escape_strings_value(s: &str) -> (r: String)
    ensures
        r@ == spec_escape(s@),
{
    let v = str_chars(s);
    let mut out = String::new();
    let mut i: usize = 0;
    while i < v.len()
        invariant
            i <= v@.len(),
            v@ == s@,
            out@ == spec_escape(v@.take(i as int)),
        decreases v@.len() - i,
    {
        let ch = v[i];
        proof {
            lemma_concat_map_step(v@, i as int, |c: char| escape_char(c));
        }
        if ch == '"' {
            out.push('\\');
            out.push('"');
        } else if ch == '\\' {
            out.push('\\');
            out.push('\\');
        } else if ch == '\n' {
            out.push('\\');
            out.push('n');
        } else if ch == '\t' {
            out.push('\\');
            out.push('t');
        } else {
            out.push(ch);
        }
        i = i + 1;
    }
    assert(v@.take(v@.len() as int) == v@);
    out
}

/// A value written into a `.strings` file reads back as itself: unescaping
/// what escaping gave is the identity.
pub proof fn lemma_strings_value_roundtrip(s: Seq<char>)
    ensures
        spec_unescape(spec_escape(s)) == s,
    decreases s.len(),
{
    if s.len() > 0 {
        let c = s[0];
        let rest = s.drop_first();
        lemma_strings_value_roundtrip(rest);
        let f = |x: char| escape_char(x);
        lemma_concat_map_front(s, f);
        let e = spec_escape(s);
        assert(e == escape_char(c) + spec_escape(rest));
        let n: int = escape_char(c).len() as int;
        assert(e.skip(n) =~= spec_escape(rest));
        assert(e.len() > 0);
        assert(e[0] == escape_char(c)[0]);
        if n == 2 {
            assert(e[1] == escape_char(c)[1]);
        }
        assert(unescape_step(e) == (seq![c], n));
        assert(spec_unescape(e) == seq![c] + spec_unescape(e.skip(n)));
        assert(s =~= seq![c] + rest);
    }
}

/// The digits of a `\U` or `\u` escape whose body starts `t`: four hex
/// digits, or up to eight when the first four read 0000 to 001F.
pub open spec fn unicode_digits(t: Seq<char>) -> Seq<char> {
    let h = hex_run(t, 4);
    if h == 4 && hex_value(t.take(4)) <= 0x1f {
        t.take(4 + hex_run(t.skip(4), 4) as int)
    } else {
        t.take(h as int)
    }
}

/// What a `\U`/`\u` escape with the letter `u` and the digits `d` stands for.
pub open spec fn unicode_escape_text(u: char, d: Seq<char>) -> Seq<char> {
    if d.len() > 0 && is_scalar_value(hex_value(d) as int) {
        seq![(hex_value(d) as u32) as char]
    } else {
        seq!['\\', u] + d
    }
}

/// What the escape or character at the start of `s` stands for, and how
/// many characters it takes.
pub open spec fn unescape_step(s: Seq<char>) -> (Seq<char>, int) {
    if s[0] != '\\' {
        (seq![s[0]], 1)
    } else if s.len() == 1 {
        (seq!['\\'], 1)
    } else if s[1] == '"' {
        (seq!['"'], 2)
    } else if s[1] == '\\' {
        (seq!['\\'], 2)
    } else if s[1] == 'n' {
        (seq!['\n'], 2)
    } else if s[1] == 't' {
        (seq!['\t'], 2)
    } else if s[1] == 'U' || s[1] == 'u' {
        let d = unicode_digits(s.skip(2));
        (unicode_escape_text(s[1], d), 2 + d.len() as int)
    } else {
        (seq!['\\', s[1]], 2)
    }
}

pub proof fn lemma_unescape_step(s: Seq<char>)
    requires
        s.len() > 0,
    ensures
        1 <= unescape_step(s).1 <= s.len(),
{
    if s.len() > 1 {
        lemma_unicode_digits(s.skip(2));
    }
}

/// The text of a `.strings` value with its escapes resolved: `\"`, `\\`,
/// `\n`, `\t` and `\UXXXX` (eight digits where the first four are at most
/// 001F); any other escape is kept as written.
pub open spec fn spec_unescape(s: Seq<char>) -> Seq<char>
    decreases s.len(),
{
    if s.len() == 0 {
        Seq::empty()
    } else {
        proof {
            lemma_unescape_step(s);
        }
        unescape_step(s).0 + spec_unescape(s.skip(unescape_step(s).1))
    }
}

pub proof fn lemma_unicode_digits(t: Seq<char>)
    ensures
        unicode_digits(t).len() <= t.len(),
        unicode_digits(t).len() <= 8,
        unicode_digits(t) == t.take(unicode_digits(t).len() as int),
{
    lemma_hex_run(t, 4);
    lemma_hex_run(t.skip(4), 4);
}

/// Resolves the escape or character at `i`, appending what it stands for to
/// `out`; gives how many characters it took.
fn unescape_one(v: &Vec<char>, i: usize, out: &mut String) -> (k: usize)
    requires
        i < v@.len(),
    ensures
        final(out)@ == old(out)@ + unescape_step(v@.skip(i as int)).0,
        k == unescape_step(v@.skip(i as int)).1,
{
    let ghost t = v@.skip(i as int);
    let ch = v[i];
    assert(t[0] == ch);
    if ch != '\\' {
        out.push(ch);
        1
    } else if i >= v.len() - 1 {
        out.push('\\');
        1
    } else {
        let next = v[i + 1];
        assert(t[1] == next);
        if next == '"' {
            out.push('"');
            2
        } else if next == '\\' {
            out.push('\\');
            2
        } else if next == 'n' {
            out.push('\n');
            2
        } else if next == 't' {
            out.push('\t');
            2
        } else if next == 'U' || next == 'u' {
            let start = i + 2;
            let ghost body = v@.skip(start as int);
            assert(body == t.skip(2));
            assert(v@.subrange(start as int, start as int) =~= Seq::<char>::empty());
            let (n1, val1) = read_hex(v.as_slice(), start, start, 4, 0);
            let mut n = n1;
            let mut val = val1;
            assert(v@.subrange(start as int, start + n1) == body.take(n1 as int));
            if n1 == 4 && val1 <= 0x1f {
                let (n2, val2) = read_hex(v.as_slice(), start, start + 4, 4, val1);
                n = 4 + n2;
                val = val2;
                assert(body.skip(4) == v@.skip(start + 4));
                assert(v@.subrange(start as int, start + n) == body.take(n as int));
            }
            let ghost d = v@.subrange(start as int, start + n);
            assert(d == unicode_digits(body));
            if n > 0 {
                match char::from_u32(val) {
                    Some(c) => {
                        out.push(c);
                    },
                    None => {
                        out.push('\\');
                        out.push(next);
                        push_range(out, v.as_slice(), start, start + n);
                    },
                }
            } else {
                out.push('\\');
                out.push(next);
            }
            2 + n
        } else {
            out.push('\\');
            out.push(next);
            2
        }
    }
}

/// Unescapes an iOS .strings value: handles \", \\, \n, \t, and \UXXXX.
pub fn unescape_strings_value(s: &str) -> (r: String)
    ensures
        r@ == spec_unescape(s@),
{
    let v = str_chars(s);
    let mut out = String::new();
    let mut i: usize = 0;
    assert(v@.skip(0) == v@);
    while i < v.len()
        invariant
            i <= v@.len(),
            v@ == s@,
            spec_unescape(v@) == out@ + spec_unescape(v@.skip(i as int)),
        decreases v@.len() - i,
    {
        let ghost t = v@.skip(i as int);
        let k = unescape_one(&v, i, &mut out);
        proof {
            lemma_unescape_step(t);
            assert(t.skip(k as int) == v@.skip(i + k));
        }
        i = i + k;
    }
    assert(v@.skip(v@.len() as int).len() == 0);
    out
}


// ---------------------------------------------------------------------------
// Parser
// ---------------------------------------------------------------------------

/// First index at or after `i` that does not hold white space.
pub open spec fn skip_ws(s: Seq<char>, i: int) -> int
    decreases s.len() - i,
{
    if 0 <= i < s.len() && is_ws(s[i]) {
        skip_ws(s, i + 1)
    } else {
        i
    }
}

/// The text of a block comment whose body starts at `i`, and the index
/// after its closing `*/`; `None` when it is not closed.
pub open spec fn block_comment(s: Seq<char>, i: int) -> Option<(Seq<char>, int)>
    decreases s.len() - i,
{
    if i < 0 || i >= s.len() {
        None
    } else if s[i] == '*' && i + 1 < s.len() && s[i + 1] == '/' {
        Some((Seq::empty(), i + 2))
    } else {
        match block_comment(s, i + 1) {
            Some((t, k)) => Some((seq![s[i]] + t, k)),
            None => None,
        }
    }
}

/// The text of a line comment whose body starts at `i`, and the index after
/// the new line that ends it (or the end of the input).
pub open spec fn line_comment(s: Seq<char>, i: int) -> (Seq<char>, int)
    decreases s.len() - i,
{
    if i < 0 || i >= s.len() {
        (Seq::empty(), i)
    } else if s[i] == '\n' {
        (Seq::empty(), i + 1)
    } else {
        let (t, k) = line_comment(s, i + 1);
        (seq![s[i]] + t, k)
    }
}

/// The raw content of a quoted string whose body starts at `i` (escapes
/// kept as written), and the index after its closing quote; `None` when the
/// input ends first.
pub open spec fn scan_quoted(s: Seq<char>, i: int) -> Option<(Seq<char>, int)>
    decreases s.len() - i,
{
    if i < 0 || i >= s.len() {
        None
    } else if s[i] == '\\' {
        if i + 1 >= s.len() {
            None
        } else {
            match scan_quoted(s, i + 2) {
                Some((t, k)) => Some((seq![s[i], s[i + 1]] + t, k)),
                None => None,
            }
        }
    } else if s[i] == '"' {
        Some((Seq::empty(), i + 1))
    } else {
        match scan_quoted(s, i + 1) {
            Some((t, k)) => Some((seq![s[i]] + t, k)),
            None => None,
        }
    }
}

/// The raw key and raw value of a `"key" = "value";` pair that starts at
/// `j`, and the index after its `;`.
pub open spec fn parse_pair(s: Seq<char>, j: int) -> Option<(Seq<char>, Seq<char>, int)> {
    match scan_quoted(s, j + 1) {
        None => None,
        Some((key, a)) => {
            let b = skip_blank(s, a);
            if !(0 <= b < s.len() && s[b] == '=') {
                None
            } else {
                let c = skip_blank(s, b + 1);
                if !(0 <= c < s.len() && s[c] == '"') {
                    None
                } else {
                    match scan_quoted(s, c + 1) {
                        None => None,
                        Some((raw, d)) => {
                            let e = skip_blank(s, d);
                            if !(0 <= e < s.len() && s[e] == ';') {
                                None
                            } else {
                                Some((key, raw, e + 1))
                            }
                        },
                    }
                }
            }
        },
    }
}

pub proof fn lemma_skips(s: Seq<char>, i: int)
    requires
        0 <= i,
    ensures
        i <= skip_ws(s, i),
        i <= skip_blank(s, i),
        skip_ws(s, i) <= s.len() || skip_ws(s, i) == i,
        skip_blank(s, i) <= s.len() || skip_blank(s, i) == i,
    decreases s.len() - i,
{
    if i < s.len() {
        lemma_skips(s, i + 1);
    }
}

pub proof fn lemma_scans(s: Seq<char>, i: int)
    requires
        0 <= i,
    ensures
        block_comment(s, i) matches Some((_, k)) ==> i < k <= s.len(),
        i <= line_comment(s, i).1,
        i < s.len() ==> line_comment(s, i).1 <= s.len(),
        scan_quoted(s, i) matches Some((_, k)) ==> i < k <= s.len(),
    decreases s.len() - i,
{
    if i < s.len() {
        lemma_scans(s, i + 1);
        if i + 1 < s.len() {
            lemma_scans(s, i + 2);
        }
    }
}

pub proof fn lemma_parse_pair(s: Seq<char>, j: int)
    requires
        0 <= j,
    ensures
        parse_pair(s, j) matches Some((_, _, k)) ==> j < k <= s.len(),
{
    lemma_scans(s, j + 1);
    if let Some((key, a)) = scan_quoted(s, j + 1) {
        lemma_skips(s, a);
        let b = skip_blank(s, a);
        if 0 <= b < s.len() {
            lemma_skips(s, b + 1);
            let c = skip_blank(s, b + 1);
            if 0 <= c < s.len() {
                lemma_scans(s, c + 1);
                if let Some((raw, d)) = scan_quoted(s, c + 1) {
                    lemma_skips(s, d);
                }
            }
        }
    }
}

/// A parsed pair: its raw key, its unescaped value and the comment before it.
pub type StringsItem = (Seq<char>, Seq<char>, Option<Seq<char>>);

/// The pairs of a `.strings` text from index `i` on, given the comment that
/// waits for the next pair and the pairs read so far; `None` when the text
/// is malformed. A later comment replaces a waiting one; a pair takes the
/// waiting comment; a key that occurs again keeps its place and takes the
/// later value.
pub open spec fn parse_from(
    s: Seq<char>,
    i: int,
    pending: Option<Seq<char>>,
    acc: Seq<(Seq<char>, StringsItem)>,
) -> Option<Seq<(Seq<char>, StringsItem)>>
    decreases s.len() - i,
{
    if i < 0 {
        None
    } else {
        let j = skip_ws(s, i);
        proof {
            lemma_skips(s, i);
        }
        if j >= s.len() {
            Some(acc)
        } else if s[j] == '/' {
            if j + 1 < s.len() && s[j + 1] == '*' {
                proof {
                    lemma_scans(s, j + 2);
                }
                match block_comment(s, j + 2) {
                    Some((text, k)) => parse_from(s, k, Some(trim(text)), acc),
                    None => None,
                }
            } else if j + 1 < s.len() && s[j + 1] == '/' {
                proof {
                    lemma_scans(s, j + 2);
                }
                let (text, k) = line_comment(s, j + 2);
                parse_from(s, k, Some(trim(text)), acc)
            } else {
                None
            }
        } else if s[j] == '"' {
            proof {
                lemma_parse_pair(s, j);
            }
            match parse_pair(s, j) {
                None => None,
                Some((key, raw, k)) => parse_from(
                    s,
                    k,
                    None,
                    map_insert(acc, key, (key, spec_unescape(raw), pending)),
                ),
            }
        } else {
            None
        }
    }
}

/// The pairs of a `.strings` text, or `None` when it is malformed.
pub open spec fn spec_parse(s: Seq<char>) -> Option<Seq<(Seq<char>, StringsItem)>> {
    parse_from(s, 0, None, Seq::empty())
}

/// The relation between parsed entries and pairs.
pub open spec fn strings_rel() -> spec_fn(I18nEntry, StringsItem) -> bool {
    |e: I18nEntry, it: StringsItem| entry_of_item(e, it)
}

/// The entry parsed from a pair: its key, its value as a simple string, the
/// waiting comment (when not empty) as a general comment, and nothing else.
pub open spec fn entry_of_item(e: I18nEntry, it: StringsItem) -> bool {
    &&& e.key@ == it.0
    &&& e.value matches EntryValue::Simple(v) && v@ == it.1
    &&& match it.2 {
        Some(c) if c.len() > 0 => {
            &&& e.comments@.len() == 1
            &&& e.comments@[0].text@ == c
            &&& e.comments@[0].role == CommentRole::General
            &&& e.comments@[0].priority is None
            &&& e.comments@[0].annotates is None
        },
        _ => e.comments@.len() == 0,
    }
    &&& e.format_ext is None
    &&& I18nEntry::spec_bare(e)
}

fn skip_ws_exec(s: &Vec<char>, i: usize) -> (j: usize)
    requires
        i <= s@.len(),
    ensures
        j == skip_ws(s@, i as int),
        i <= j <= s@.len(),
{
    let mut j = i;
    while j < s.len() && is_whitespace(s[j])
        invariant
            i <= j <= s@.len(),
            skip_ws(s@, i as int) == skip_ws(s@, j as int),
        decreases s@.len() - j,
    {
        j = j + 1;
    }
    j
}

/// Skips spaces and tabs from `i` on.
fn skip_whitespace(s: &Vec<char>, i: usize) -> (j: usize)
    requires
        i <= s@.len(),
    ensures
        j == skip_blank(s@, i as int),
        i <= j <= s@.len(),
{
    let mut j = i;
    while j < s.len() && (s[j] == ' ' || s[j] == '\t')
        invariant
            i <= j <= s@.len(),
            skip_blank(s@, i as int) == skip_blank(s@, j as int),
        decreases s@.len() - j,
    {
        j = j + 1;
    }
    j
}

fn read_block_comment(s: &Vec<char>, i: usize) -> (r: Option<(Vec<char>, usize)>)
    requires
        i <= s@.len(),
    ensures
        match block_comment(s@, i as int) {
            Some((t, k)) => r matches Some((v, e)) && v@ == t && e == k,
            None => r is None,
        },
{
    let mut text: Vec<char> = Vec::new();
    let mut j = i;
    while j < s.len()
        invariant
            i <= j <= s@.len(),
            block_comment(s@, i as int) == match block_comment(s@, j as int) {
                Some((t, k)) => Some((text@ + t, k)),
                None => None::<(Seq<char>, int)>,
            },
        decreases s@.len() - j,
    {
        if s[j] == '*' && j + 1 < s.len() && s[j + 1] == '/' {
            return Some((text, j + 2));
        }
        let ghost old_text = text@;
        text.push(s[j]);
        proof {
            match block_comment(s@, j + 1) {
                Some((t, k)) => {
                    assert(old_text + (seq![s@[j as int]] + t) == text@ + t);
                },
                None => {},
            }
        }
        j = j + 1;
    }
    None
}

fn read_line_comment(s: &Vec<char>, i: usize) -> (r: (Vec<char>, usize))
    requires
        i <= s@.len(),
    ensures
        r.0@ == line_comment(s@, i as int).0,
        r.1 == line_comment(s@, i as int).1,
        r.1 <= s@.len(),
{
    let mut text: Vec<char> = Vec::new();
    let mut j = i;
    while j < s.len()
        invariant
            i <= j <= s@.len(),
            line_comment(s@, i as int) == (text@ + line_comment(s@, j as int).0, line_comment(s@, j as int).1),
        decreases s@.len() - j,
    {
        if s[j] == '\n' {
            return (text, j + 1);
        }
        let ghost old_text = text@;
        text.push(s[j]);
        assert(old_text + (seq![s@[j as int]] + line_comment(s@, j + 1).0) == text@ + line_comment(s@, j + 1).0);
        j = j + 1;
    }
    assert(text@ + Seq::<char>::empty() == text@);
    (text, j)
}

/// Reads the content of a quoted string whose body starts at `i` (after the
/// opening `"`). Gives the raw content, escapes kept as written, and the
/// index after the closing `"`.
fn parse_quoted_string(s: &Vec<char>, i: usize) -> (r: Result<(Vec<char>, usize), ParseError>)
    requires
        i <= s@.len(),
    ensures
        match scan_quoted(s@, i as int) {
            Some((t, k)) => r matches Ok((v, e)) && v@ == t && e == k,
            None => r matches Err(ParseError::InvalidFormat(_)),
        },
{
    let mut text: Vec<char> = Vec::new();
    let mut j = i;
    while j < s.len()
        invariant
            i <= j <= s@.len(),
            scan_quoted(s@, i as int) == match scan_quoted(s@, j as int) {
                Some((t, k)) => Some((text@ + t, k)),
                None => None::<(Seq<char>, int)>,
            },
        decreases s@.len() - j,
    {
        let c = s[j];
        if c == '\\' {
            if j + 1 >= s.len() {
                return Err(ParseError::InvalidFormat("Unexpected end of input in escape sequence".to_owned()));
            }
            let ghost old_text = text@;
            text.push(c);
            text.push(s[j + 1]);
            proof {
                match scan_quoted(s@, j + 2) {
                    Some((t, k)) => {
                        assert(old_text + (seq![s@[j as int], s@[j + 1]] + t) == text@ + t);
                    },
                    None => {},
                }
            }
            j = j + 2;
        } else if c == '"' {
            assert(text@ + Seq::<char>::empty() == text@);
            return Ok((text, j + 1));
        } else {
            let ghost old_text = text@;
            text.push(c);
            proof {
                match scan_quoted(s@, j + 1) {
                    Some((t, k)) => {
                        assert(old_text + (seq![s@[j as int]] + t) == text@ + t);
                    },
                    None => {},
                }
            }
            j = j + 1;
        }
    }
    Err(ParseError::InvalidFormat("Unterminated quoted string".to_owned()))
}

fn parse_pair_exec(s: &Vec<char>, j: usize) -> (r: Result<(Vec<char>, Vec<char>, usize), ParseError>)
    requires
        j < s.len(),
    ensures
        match parse_pair(s@, j as int) {
            Some((key, raw, k)) => r matches Ok((kv, rv, e)) && kv@ == key && rv@ == raw && e == k,
            None => r matches Err(ParseError::InvalidFormat(_)),
        },
{
    let (key, a) = parse_quoted_string(s, j + 1)?;
    proof {
        lemma_scans(s@, j + 1);
    }
    let b = skip_whitespace(s, a);
    if !(b < s.len() && s[b] == '=') {
        return Err(ParseError::InvalidFormat("Expected '=' after key".to_owned()));
    }
    let c = skip_whitespace(s, b + 1);
    if !(c < s.len() && s[c] == '"') {
        return Err(ParseError::InvalidFormat("Expected '\"' to start value".to_owned()));
    }
    let (raw, d) = parse_quoted_string(s, c + 1)?;
    proof {
        lemma_scans(s@, c + 1);
    }
    let e = skip_whitespace(s, d);
    if !(e < s.len() && s[e] == ';') {
        return Err(ParseError::InvalidFormat("Expected ';' after value".to_owned()));
    }
    Ok((key, raw, e + 1))
}

/// Parses `.strings` content into an I18nResource.
///
/// The format is line-based:
///   /* comment */
///   "key" = "value";
///
/// Block comments /* ... */ may span lines; // comments run to the end of
/// the line; white space between items is skipped.
pub fn parse_strings(content: &str) -> (r: Result<I18nResource, ParseError>)
    ensures
        match spec_parse(content@) {
            Some(m) => r matches Ok(res)
                && ResourceMetadata::spec_plain(res.metadata, FormatId::IosStrings)
                && pairs_model(entry_map_pairs(res.entries), m, strings_rel()),
            None => r matches Err(ParseError::InvalidFormat(_)),
        },
{
    let s = str_chars(content);
    let mut entries = entry_map_new();
    let mut pending: Option<Vec<char>> = None;
    let mut pos: usize = 0;
    let ghost mut model: Seq<(Seq<char>, StringsItem)> = Seq::empty();
    loop
        invariant
            s@ == content@,
            pos <= s@.len(),
            spec_parse(s@) == parse_from(
                s@,
                pos as int,
                opt_chars(pending),
                model,
            ),
            pairs_model(entry_map_pairs(entries), model, strings_rel()),
        decreases s@.len() - pos,
    {
        let ghost pend = opt_chars(pending);
        proof {
            lemma_skips(s@, pos as int);
        }
        let j = skip_ws_exec(&s, pos);
        if j >= s.len() {
            assert(spec_parse(s@) == Some(model));
            return Ok(I18nResource { metadata: ResourceMetadata::for_format(FormatId::IosStrings), entries });
        }
        let ch = s[j];
        if ch == '/' {
            if j + 1 < s.len() && s[j + 1] == '*' {
                proof {
                    lemma_scans(s@, j + 2);
                }
                match read_block_comment(&s, j + 2) {
                    Some((text, k)) => {
                        pending = Some(trim_chars(text.as_slice()));
                        pos = k;
                    },
                    None => {
                        return Err(ParseError::InvalidFormat("Unterminated block comment".to_owned()));
                    },
                }
            } else if j + 1 < s.len() && s[j + 1] == '/' {
                proof {
                    lemma_scans(s@, j + 2);
                }
                let (text, k) = read_line_comment(&s, j + 2);
                pending = Some(trim_chars(text.as_slice()));
                pos = k;
            } else {
                return Err(ParseError::InvalidFormat("Unexpected '/' not followed by '*' or '/'".to_owned()));
            }
        } else if ch == '"' {
            proof {
                lemma_parse_pair(s@, j as int);
            }
            let (key, raw, k) = parse_pair_exec(&s, j)?;
            let key_string = string_of(key.as_slice());
            let raw_string = string_of(raw.as_slice());
            let value = unescape_strings_value(raw_string.as_str());
            let mut entry = I18nEntry::with_value(key_string.clone(), EntryValue::Simple(value));
            match pending {
                Some(text) => {
                    if text.len() > 0 {
                        entry.comments.push(Comment {
                            text: string_of(text.as_slice()),
                            role: CommentRole::General,
                            priority: None,
                            annotates: None,
                        });
                    }
                },
                None => {},
            }
            pending = None;
            let ghost item: StringsItem = (key@, spec_unescape(raw@), pend);
            proof {
                assert(entry_of_item(entry, item));
                assert(strings_rel()(entry, item));
                lemma_pairs_model_insert(entry_map_pairs(entries), model, strings_rel(), key@, entry, item);
            }
            entry_map_insert(&mut entries, key_string, entry);
            proof {
                model = map_insert(model, key@, item);
            }
            pos = k;
        } else {
            return Err(ParseError::InvalidFormat("Unexpected character".to_owned()));
        }
    }
}


// ---------------------------------------------------------------------------
// Writer
// ---------------------------------------------------------------------------

/// `/* text */` and a new line for each comment.
pub open spec fn comment_lines(cs: Seq<Comment>) -> Seq<char>
    decreases cs.len(),
{
    if cs.len() == 0 {
        Seq::empty()
    } else {
        comment_lines(cs.drop_last()) + seq!['/', '*', ' '] + cs.last().text@ + seq![' ', '*', '/', '\n']
    }
}

/// The lines written for one entry: its comments, then
/// `"key" = "value";` with both sides escaped.
pub open spec fn entry_lines(e: I18nEntry) -> Seq<char> {
    comment_lines(e.comments@) + seq!['"'] + spec_escape(e.key@) + seq!['"', ' ', '=', ' ', '"']
        + spec_escape(fallback_text(e.value)) + seq!['"', ';', '\n']
}

/// The `.strings` text of entries in order, an empty line between each two.
pub open spec fn spec_write(p: Seq<(Seq<char>, I18nEntry)>) -> Seq<char>
    decreases p.len(),
{
    if p.len() == 0 {
        Seq::empty()
    } else if p.len() == 1 {
        entry_lines(p[0].1)
    } else {
        spec_write(p.drop_last()) + seq!['\n'] + entry_lines(p.last().1)
    }
}

fn write_comments(out: &mut String, cs: &Vec<Comment>)
    ensures
        final(out)@ == old(out)@ + comment_lines(cs@),
{
    let mut i: usize = 0;
    while i < cs.len()
        invariant
            i <= cs@.len(),
            out@ == old(out)@ + comment_lines(cs@.take(i as int)),
        decreases cs@.len() - i,
    {
        assert(cs@.take(i + 1).drop_last() == cs@.take(i as int));
        out.push('/');
        out.push('*');
        out.push(' ');
        out.append(cs[i].text.as_str());
        out.push(' ');
        out.push('*');
        out.push('/');
        out.push('\n');
        i = i + 1;
    }
    assert(cs@.take(cs@.len() as int) == cs@);
}

fn write_entry(out: &mut String, e: &I18nEntry)
    ensures
        final(out)@ == old(out)@ + entry_lines(*e),
{
    write_comments(out, &e.comments);
    out.push('"');
    let k = escape_strings_value(e.key.as_str());
    out.append(k.as_str());
    out.push('"');
    out.push(' ');
    out.push('=');
    out.push(' ');
    out.push('"');
    let text = value_text(&e.value);
    let v = escape_strings_value(text.as_str());
    out.append(v.as_str());
    out.push('"');
    out.push(';');
    out.push('\n');
}

/// Writes entries as `.strings` text: for each, its comments as `/* */`
/// lines and then `"key" = "value";`, with an empty line between entries.
pub fn write_strings(resource: &I18nResource) -> (r: String)
    ensures
        r@ == spec_write(entry_map_pairs(resource.entries)),
{
    let mut out = String::new();
    let n = entry_map_len(&resource.entries);
    let ghost p = entry_map_pairs(resource.entries);
    let mut i: usize = 0;
    while i < n
        invariant
            n == p.len(),
            p == entry_map_pairs(resource.entries),
            i <= n,
            out@ == spec_write(p.take(i as int)),
        decreases n - i,
    {
        assert(p.take(i + 1).drop_last() == p.take(i as int));
        match entry_map_get_index(&resource.entries, i) {
            Some((_, entry)) => {
                if i > 0 {
                    out.push('\n');
                }
                write_entry(&mut out, entry);
            },
            None => {},
        }
        i = i + 1;
    }
    assert(p.take(n as int) == p);
    out
}

// ---------------------------------------------------------------------------
// Format entry points
// ---------------------------------------------------------------------------

/// The capabilities of `.strings` files: comments only.
pub open spec fn spec_capabilities() -> FormatCapabilities {
    FormatCapabilities { comments: true, ..FormatCapabilities::spec_none() }
}

/// `"key" = "value"` with a `;` somewhere: the shape of a `.strings` text.
pub open spec fn looks_like_strings(s: Seq<char>) -> bool {
    contains(s, seq!['"', ' ', '=', ' ', '"']) && s.contains(';')
}

/// How sure this format is that it can read a file with the extension and
/// content.
pub open spec fn spec_detect(extension: Seq<char>, content: Seq<u8>) -> Confidence {
    if extension == ".strings"@ {
        Confidence::Definite
    } else if valid_utf8(content) && looks_like_strings(decode_utf8(content)) {
        Confidence::High
    } else {
        Confidence::NoMatch
    }
}

impl Parser {
    /// `.strings` is certain; otherwise a UTF-8 text with `" = "` and `;` is likely.
    pub fn detect(&self, extension: &str, content: &[u8]) -> (c: Confidence)
        ensures
            c == spec_detect(extension@, content@),
    {
        if str_eq(extension, ".strings") {
            return Confidence::Definite;
        }
        match std::str::from_utf8(content) {
            Ok(s) => {
                let pat = "\" = \"";
                proof {
                    reveal_strlit("\" = \"");
                    assert(pat@ =~= seq!['"', ' ', '=', ' ', '"']);
                }
                let v = str_chars(s);
                if str_contains(s, pat) && chars_contain_char(v.as_slice(), ';') {
                    return Confidence::High;
                }
                Confidence::NoMatch
            },
            Err(_) => Confidence::NoMatch,
        }
    }

    /// Parses UTF-8 `.strings` content.
    pub fn parse(&self, content: &[u8]) -> (r: Result<I18nResource, ParseError>)
        ensures
            !valid_utf8(content@) ==> r matches Err(ParseError::InvalidFormat(_)),
            valid_utf8(content@) ==> match spec_parse(decode_utf8(content@)) {
                Some(m) => r matches Ok(res)
                    && ResourceMetadata::spec_plain(res.metadata, FormatId::IosStrings)
                    && pairs_model(entry_map_pairs(res.entries), m, strings_rel()),
                None => r matches Err(ParseError::InvalidFormat(_)),
            },
    {
        match std::str::from_utf8(content) {
            Ok(text) => parse_strings(text),
            Err(e) => Err(ParseError::InvalidFormat(utf8_error_message(&e))),
        }
    }

    pub fn capabilities(&self) -> (c: FormatCapabilities)
        ensures
            c == spec_capabilities(),
    {
        FormatCapabilities { comments: true, ..FormatCapabilities::default() }
    }
}

impl Writer {
    /// Writes the resource as UTF-8 `.strings` text.
    pub fn write(&self, resource: &I18nResource) -> (r: Result<Vec<u8>, WriteError>)
        ensures
            r matches Ok(b) && b@ == encode_utf8(spec_write(entry_map_pairs(resource.entries))),
    {
        let out = write_strings(resource);
        Ok(string_bytes(&out))
    }

    pub fn capabilities(&self) -> (c: FormatCapabilities)
        ensures
            c == spec_capabilities(),
    {
        Parser.capabilities()
    }
}

impl super::FormatParser for Parser {
    fn detect(&self, extension: &str, content: &[u8]) -> (c: Confidence)
        ensures
            c == spec_detect(extension@, content@),
    {
        Parser::detect(self, extension, content)
    }

    fn parse(&self, content: &[u8]) -> (r: Result<I18nResource, ParseError>)
        ensures
            !valid_utf8(content@) ==> r matches Err(ParseError::InvalidFormat(_)),
            valid_utf8(content@) ==> match spec_parse(decode_utf8(content@)) {
                Some(m) => r matches Ok(res)
                    && ResourceMetadata::spec_plain(res.metadata, FormatId::IosStrings)
                    && pairs_model(entry_map_pairs(res.entries), m, strings_rel()),
                None => r matches Err(ParseError::InvalidFormat(_)),
            },
    {
        Parser::parse(self, content)
    }

    fn capabilities(&self) -> (c: FormatCapabilities)
        ensures
            c == spec_capabilities(),
    {
        Parser::capabilities(self)
    }
}

impl super::FormatWriter for Writer {
    fn write(&self, resource: &I18nResource) -> (r: Result<Vec<u8>, WriteError>)
        ensures
            r matches Ok(b) && b@ == encode_utf8(spec_write(entry_map_pairs(resource.entries))),
    {
        Writer::write(self, resource)
    }

    fn capabilities(&self) -> (c: FormatCapabilities)
        ensures
            c == spec_capabilities(),
    {
        Writer::capabilities(self)
    }
}

} // verus!
