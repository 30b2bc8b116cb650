//! Java `.properties` files: `key = value` lines with `#`/`!` comments and
//! backslash continuation lines.
use vstd::prelude::*;
use crate::collections::{
    entry_map_pairs, entry_map_new, entry_map_insert, entry_map_len, entry_map_get_index, map_insert,
    pairs_model, lemma_pairs_model_insert,
};
use crate::ir::{
    I18nResource, I18nEntry, ResourceMetadata, FormatId, EntryValue, Comment, CommentRole,
    FormatCapabilities, FormatExtension, JavaPropertiesExt,
};
use crate::text::{
    str_chars, string_of, push_range, chars_range, is_hex, hex_run, hex_value, read_hex,
    is_scalar_value, lemma_hex_run, string_bytes, str_eq, trim_start, trim_start_chars, trim,
    trim_chars, lines, split_lines, utf8_error_message, chars_contain_char, skip_blank,
    skip_blank_from, trailing_count, count_trailing,
};
use vstd::utf8::{valid_utf8, decode_utf8, encode_utf8};
use super::{Confidence, ParseError, WriteError, fallback_text, value_text, general_comments, general_comment};

verus! {

pub struct Parser;

pub struct Writer;

// ---------------------------------------------------------------------------
// Escapes
// ---------------------------------------------------------------------------

/// What the escape or character at the start of `s` stands for, and how
/// many characters it takes.
pub open spec fn unescape_step(s: Seq<char>) -> (Seq<char>, int) {
    if s[0] != '\\' {
        (seq![s[0]], 1)
    } else if s.len() == 1 {
        (seq!['\\'], 1)
    } else if s[1] == 'n' {
        (seq!['\n'], 2)
    } else if s[1] == 't' {
        (seq!['\t'], 2)
    } else if s[1] == '\\' || s[1] == '=' || s[1] == ':' || s[1] == '#' || s[1] == '!' || s[1] == ' ' {
        (seq![s[1]], 2)
    } else if s[1] == 'u' {
        let h = hex_run(s.skip(2), 4);
        let d = s.skip(2).take(h as int);
        if h == 4 && is_scalar_value(hex_value(d) as int) {
            (seq![(hex_value(d) as u32) as char], 6)
        } else {
            (seq!['\\', 'u'] + d, 2 + h as int)
        }
    } else {
        (seq!['\\', s[1]], 2)
    }
}

pub proof fn lemma_unescape_step(s: Seq<char>)
    requires
        s.len() > 0,
    ensures
        1 <= unescape_step(s).1 <= s.len(),
{
    if s.len() > 1 {
        lemma_hex_run(s.skip(2), 4);
    }
}

/// The text of a `.properties` key or value with its escapes resolved:
/// `\n`, `\t`, `\\`, `\=`, `\:`, `\#`, `\!`, `\ ` and `\uXXXX`; any other
/// escape, and a `\u` without four hex digits, is kept as written.
pub open spec fn spec_unescape(s: Seq<char>) -> Seq<char>
    decreases s.len(),
{
    if s.len() == 0 {
        Seq::empty()
    } else {
        proof {
            lemma_unescape_step(s);
        }
        unescape_step(s).0 + spec_unescape(s.skip(unescape_step(s).1))
    }
}

fn unescape_one(v: &Vec<char>, i: usize, out: &mut String) -> (k: usize)
    requires
        i < v@.len(),
    ensures
        final(out)@ == old(out)@ + unescape_step(v@.skip(i as int)).0,
        k == unescape_step(v@.skip(i as int)).1,
{
    let ghost t = v@.skip(i as int);
    let ch = v[i];
    assert(t[0] == ch);
    if ch != '\\' {
        out.push(ch);
        1
    } else if i >= v.len() - 1 {
        out.push('\\');
        1
    } else {
        let next = v[i + 1];
        assert(t[1] == next);
        if next == 'n' {
            out.push('\n');
            2
        } else if next == 't' {
            out.push('\t');
            2
        } else if next == '\\' || next == '=' || next == ':' || next == '#' || next == '!' || next == ' ' {
            out.push(next);
            2
        } else if next == 'u' {
            let start = i + 2;
            let ghost body = v@.skip(start as int);
            assert(body == t.skip(2));
            assert(v@.subrange(start as int, start as int) =~= Seq::<char>::empty());
            let (n, val) = read_hex(v.as_slice(), start, start, 4, 0);
            assert(v@.subrange(start as int, start + n) == body.take(n as int));
            if n == 4 {
                match char::from_u32(val) {
                    Some(c) => {
                        out.push(c);
                    },
                    None => {
                        out.push('\\');
                        out.push('u');
                        push_range(out, v.as_slice(), start, start + n);
                    },
                }
            } else {
                out.push('\\');
                out.push('u');
                push_range(out, v.as_slice(), start, start + n);
            }
            2 + n
        } else {
            out.push('\\');
            out.push(next);
            2
        }
    }
}

/// Unescapes a Java .properties value/key.
/// Handles \n, \t, \\, \=, \:, \#, \!, \<space>, and \uXXXX.
pub fn properties_unescape(s: &str) -> (r: String)
    ensures
        r@ == spec_unescape(s@),
{
    let v = str_chars(s);
    let mut out = String::new();
    let mut i: usize = 0;
    assert(v@.skip(0) == v@);
    while i < v.len()
        invariant
            i <= v@.len(),
            v@ == s@,
            spec_unescape(v@) == out@ + spec_unescape(v@.skip(i as int)),
        decreases v@.len() - i,
    {
        let ghost t = v@.skip(i as int);
        let k = unescape_one(&v, i, &mut out);
        proof {
            lemma_unescape_step(t);
            assert(t.skip(k as int) == v@.skip(i + k));
        }
        i = i + k;
    }
    assert(v@.skip(v@.len() as int).len() == 0);
    out
}

/// How one character of a key is written.
pub open spec fn escape_key_char(c: char) -> Seq<char> {
    if c == ' ' || c == '=' || c == ':' || c == '#' || c == '!' || c == '\\' {
        seq!['\\', c]
    } else if c == '\n' {
        seq!['\\', 'n']
    } else if c == '\t' {
        seq!['\\', 't']
    } else {
        seq![c]
    }
}

/// A key with spaces, `=`, `:`, `#`, `!`, `\`, new lines and tabs escaped.
pub open spec fn spec_escape_key(s: Seq<char>) -> Seq<char>
    decreases s.len(),
{
    if s.len() == 0 {
        Seq::empty()
    } else {
        escape_key_char(s[0]) + spec_escape_key(s.drop_first())
    }
}

/// Escapes a key for Java .properties output.
/// Escapes spaces, =, :, #, !, \, newlines, tabs.
pub fn escape_key(s: &str) -> (r: String)
    ensures
        r@ == spec_escape_key(s@),
{
    let v = str_chars(s);
    let mut out = String::new();
    let mut i: usize = 0;
    assert(v@.skip(0) == v@);
    while i < v.len()
        invariant
            i <= v@.len(),
            v@ == s@,
            spec_escape_key(v@) == out@ + spec_escape_key(v@.skip(i as int)),
        decreases v@.len() - i,
    {
        let ch = v[i];
        assert(v@.skip(i as int)[0] == ch);
        assert(v@.skip(i as int).drop_first() == v@.skip(i + 1));
        if ch == ' ' || ch == '=' || ch == ':' || ch == '#' || ch == '!' || ch == '\\' {
            out.push('\\');
            out.push(ch);
        } else if ch == '\n' {
            out.push('\\');
            out.push('n');
        } else if ch == '\t' {
            out.push('\\');
            out.push('t');
        } else {
            out.push(ch);
        }
        i = i + 1;
    }
    assert(v@.skip(v@.len() as int).len() == 0);
    out
}

/// A value with `\`, new lines and tabs escaped, and the spaces it starts
/// with escaped so that they are kept (`at_start`: no other character came
/// before).
pub open spec fn spec_escape_value(s: Seq<char>, at_start: bool) -> Seq<char>
    decreases s.len(),
{
    if s.len() == 0 {
        Seq::empty()
    } else if s[0] == '\\' {
        seq!['\\', '\\'] + spec_escape_value(s.drop_first(), false)
    } else if s[0] == '\n' {
        seq!['\\', 'n'] + spec_escape_value(s.drop_first(), false)
    } else if s[0] == '\t' {
        seq!['\\', 't'] + spec_escape_value(s.drop_first(), false)
    } else if s[0] == ' ' && at_start {
        seq!['\\', ' '] + spec_escape_value(s.drop_first(), true)
    } else {
        seq![s[0]] + spec_escape_value(s.drop_first(), false)
    }
}

/// A key written into a `.properties` file reads back as itself:
/// unescaping what key escaping gave is the identity.
pub proof fn lemma_properties_key_roundtrip(s: Seq<char>)
    ensures
        spec_unescape(spec_escape_key(s)) == s,
    decreases s.len(),
{
    if s.len() > 0 {
        let c = s[0];
        let rest = s.drop_first();
        lemma_properties_key_roundtrip(rest);
        let e = spec_escape_key(s);
        let head = escape_key_char(c);
        assert(e == head + spec_escape_key(rest));
        let n: int = head.len() as int;
        assert(e.skip(n) =~= spec_escape_key(rest));
        assert(e[0] == head[0]);
        if n == 2 {
            assert(e[1] == head[1]);
        }
        assert(unescape_step(e) == (seq![c], n));
        assert(spec_unescape(e) == seq![c] + spec_unescape(e.skip(n)));
        assert(s =~= seq![c] + rest);
    }
}

/// A value written into a `.properties` file reads back as itself:
/// unescaping what value escaping gave is the identity, leading spaces
/// included.
pub proof fn lemma_properties_value_roundtrip(s: Seq<char>, at_start: bool)
    ensures
        spec_unescape(spec_escape_value(s, at_start)) == s,
    decreases s.len(),
{
    if s.len() > 0 {
        let c = s[0];
        let rest = s.drop_first();
        let next = c == ' ' && at_start;
        lemma_properties_value_roundtrip(rest, next);
        let e = spec_escape_value(s, at_start);
        let head: Seq<char> = if c == '\\' {
            seq!['\\', '\\']
        } else if c == '\n' {
            seq!['\\', 'n']
        } else if c == '\t' {
            seq!['\\', 't']
        } else if c == ' ' && at_start {
            seq!['\\', ' ']
        } else {
            seq![c]
        };
        assert(e == head + spec_escape_value(rest, next));
        let n: int = head.len() as int;
        assert(e.skip(n) =~= spec_escape_value(rest, next));
        assert(e[0] == head[0]);
        if n == 2 {
            assert(e[1] == head[1]);
        }
        assert(unescape_step(e) == (seq![c], n));
        assert(spec_unescape(e) == seq![c] + spec_unescape(e.skip(n)));
        assert(s =~= seq![c] + rest);
    }
}

/// Escapes a value for Java .properties output.
/// Escapes \, newlines, tabs.  Leading spaces on the first line are escaped.
pub fn escape_value(s: &str) -> (r: String)
    ensures
        r@ == spec_escape_value(s@, true),
{
    let v = str_chars(s);
    let mut out = String::new();
    let mut at_start = true;
    let mut i: usize = 0;
    assert(v@.skip(0) == v@);
    while i < v.len()
        invariant
            i <= v@.len(),
            v@ == s@,
            spec_escape_value(v@, true) == out@ + spec_escape_value(v@.skip(i as int), at_start),
        decreases v@.len() - i,
    {
        let ch = v[i];
        assert(v@.skip(i as int)[0] == ch);
        assert(v@.skip(i as int).drop_first() == v@.skip(i + 1));
        if ch == '\\' {
            out.push('\\');
            out.push('\\');
            at_start = false;
        } else if ch == '\n' {
            out.push('\\');
            out.push('n');
            at_start = false;
        } else if ch == '\t' {
            out.push('\\');
            out.push('t');
            at_start = false;
        } else if ch == ' ' && at_start {
            out.push('\\');
            out.push(' ');
        } else {
            out.push(ch);
            at_start = false;
        }
        i = i + 1;
    }
    assert(v@.skip(v@.len() as int).len() == 0);
    out
}


// ---------------------------------------------------------------------------
// Logical lines
// ---------------------------------------------------------------------------

/// Logical lines so far, the line being continued, and whether the last
/// physical line asked for a continuation.
pub type JoinState = (Seq<Seq<char>>, Seq<char>, bool);

/// One physical line into the logical lines: a continuation line loses its
/// leading white space; a line that ends with an odd number of backslashes
/// loses the last one and continues on the next line.
pub open spec fn join_step(st: JoinState, line: Seq<char>) -> JoinState {
    let cur = if st.2 { st.1 + trim_start(line) } else { line };
    if trailing_count(cur, '\\') % 2 == 1 {
        (st.0, cur.drop_last(), true)
    } else {
        (st.0.push(cur), Seq::empty(), false)
    }
}

pub open spec fn join_fold(ls: Seq<Seq<char>>) -> JoinState
    decreases ls.len(),
{
    if ls.len() == 0 {
        (Seq::empty(), Seq::empty(), false)
    } else {
        join_step(join_fold(ls.drop_last()), ls.last())
    }
}

/// The logical lines of a `.properties` text; an unfinished continuation at
/// the end still counts when it holds anything.
pub open spec fn spec_join_lines(content: Seq<char>) -> Seq<Seq<char>> {
    let st = join_fold(lines(content));
    if st.1.len() > 0 { st.0.push(st.1) } else { st.0 }
}

/// The characters of each vector.
pub open spec fn vec_views(v: Seq<Vec<char>>) -> Seq<Seq<char>> {
    v.map_values(|l: Vec<char>| l@)
}

fn join_logical_lines_chars(content: &Vec<char>) -> (r: Vec<Vec<char>>)
    ensures
        vec_views(r@) == spec_join_lines(content@),
{
    let phys = split_lines(content.as_slice());
    let ghost ls = vec_views(phys@);
    let mut logical: Vec<Vec<char>> = Vec::new();
    let mut current: Vec<char> = Vec::new();
    let mut continuing = false;
    let mut i: usize = 0;
    while i < phys.len()
        invariant
            i <= phys@.len(),
            ls == vec_views(phys@),
            ls == lines(content@),
            join_fold(ls.take(i as int)) == (vec_views(logical@), current@, continuing),
        decreases phys@.len() - i,
    {
        assert(ls.take(i + 1).drop_last() == ls.take(i as int));
        assert(ls.take(i + 1).last() == phys@[i as int]@);
        let line = &phys[i];
        if continuing {
            let t = trim_start_chars(line.as_slice());
            let mut k: usize = 0;
            let ghost c0 = current@;
            while k < t.len()
                invariant
                    k <= t@.len(),
                    current@ == c0 + t@.take(k as int),
                decreases t@.len() - k,
            {
                current.push(t[k]);
                k = k + 1;
                assert(current@ == c0 + t@.take(k as int));
            }
            assert(t@.take(t@.len() as int) == t@);
        } else {
            current = chars_range(line.as_slice(), 0, line.len());
            assert(line@.subrange(0, line@.len() as int) == line@);
        }
        let n = count_trailing(current.as_slice(), '\\');
        if n % 2 == 1 {
            current.pop();
            continuing = true;
        } else {
            continuing = false;
            let ghost before = vec_views(logical@);
            logical.push(current);
            assert(vec_views(logical@) == before.push(current@));
            current = Vec::new();
        }
        i = i + 1;
    }
    assert(ls.take(phys@.len() as int) == ls);
    if current.len() > 0 {
        let ghost before = vec_views(logical@);
        logical.push(current);
        assert(vec_views(logical@) == before.push(current@));
    }
    logical
}

/// Joins logical lines: handles continuation lines (trailing backslash).
/// Gives the logical lines with continuation lines joined and the leading
/// whitespace of continuation lines stripped.
pub fn join_logical_lines(content: &str) -> (r: Vec<String>)
    ensures
        r@.map_values(|l: String| l@) == spec_join_lines(content@),
{
    let chars = str_chars(content);
    let ls = join_logical_lines_chars(&chars);
    let mut r: Vec<String> = Vec::new();
    let mut i: usize = 0;
    while i < ls.len()
        invariant
            i <= ls@.len(),
            r@.map_values(|l: String| l@) == vec_views(ls@).take(i as int),
        decreases ls@.len() - i,
    {
        let ghost before = r@.map_values(|l: String| l@);
        r.push(string_of(ls[i].as_slice()));
        assert(r@.map_values(|l: String| l@) == before.push(ls@[i as int]@));
        assert(vec_views(ls@).take(i + 1) == vec_views(ls@).take(i as int).push(ls@[i as int]@));
        i = i + 1;
    }
    assert(vec_views(ls@).take(ls@.len() as int) == vec_views(ls@));
    r
}

// ---------------------------------------------------------------------------
// Key/value lines
// ---------------------------------------------------------------------------

/// The raw key of a line from `i` on (escapes kept), the index where the
/// value may start, and the separator: `=` or `:`, or a space when white
/// space alone ends the key.
pub open spec fn key_scan(t: Seq<char>, i: int, key: Seq<char>) -> (Seq<char>, int, char)
    decreases t.len() - i,
{
    if i < 0 || i >= t.len() {
        (key, i, ' ')
    } else if t[i] == '\\' {
        if i + 1 < t.len() {
            key_scan(t, i + 2, key + seq!['\\', t[i + 1]])
        } else {
            key_scan(t, i + 1, key.push('\\'))
        }
    } else if t[i] == '=' || t[i] == ':' {
        (key, i + 1, t[i])
    } else if t[i] == ' ' || t[i] == '\t' {
        let j = skip_blank(t, i);
        if 0 <= j < t.len() && (t[j] == '=' || t[j] == ':') {
            (key, j + 1, t[j])
        } else {
            (key, j, ' ')
        }
    } else {
        key_scan(t, i + 1, key.push(t[i]))
    }
}

/// The raw key, raw value and separator of a key/value line; `None` for a
/// blank line, a comment, or a line with an empty key.
pub open spec fn spec_split(line: Seq<char>) -> Option<(Seq<char>, Seq<char>, char)> {
    let t = trim_start(line);
    if t.len() == 0 || t[0] == '#' || t[0] == '!' {
        None
    } else {
        let (key, p, sep) = key_scan(t, 0, Seq::empty());
        if key.len() == 0 {
            None
        } else {
            Some((key, t.skip(skip_blank(t, p)), sep))
        }
    }
}

pub proof fn lemma_skip_blank(s: Seq<char>, i: int)
    requires
        0 <= i <= s.len(),
    ensures
        i <= skip_blank(s, i) <= s.len(),
    decreases s.len() - i,
{
    if i < s.len() {
        lemma_skip_blank(s, i + 1);
    }
}

pub proof fn lemma_key_scan(t: Seq<char>, i: int, key: Seq<char>)
    requires
        0 <= i <= t.len(),
    ensures
        0 <= key_scan(t, i, key).1 <= t.len(),
    decreases t.len() - i,
{
    if i < t.len() {
        if t[i] == '\\' {
            if i + 1 < t.len() {
                lemma_key_scan(t, i + 2, key + seq!['\\', t[i + 1]]);
            } else {
                lemma_key_scan(t, i + 1, key.push('\\'));
            }
        } else if t[i] == ' ' || t[i] == '\t' {
            lemma_skip_blank(t, i);
        } else if !(t[i] == '=' || t[i] == ':') {
            lemma_key_scan(t, i + 1, key.push(t[i]));
        }
    }
}

/// Detects the separator character (=, :, or whitespace) of a logical line.
/// Gives (key_raw, value_raw, separator_char), the key and value still
/// escaped; `None` for blank and comment lines and for an empty key.
pub fn split_key_value(line: &str) -> (r: Option<(String, String, char)>)
    ensures
        match spec_split(line@) {
            Some((k, v, sep)) => r matches Some((rk, rv, rs)) && rk@ == k && rv@ == v && rs == sep,
            None => r is None,
        },
{
    let lv = str_chars(line);
    let t = trim_start_chars(lv.as_slice());
    if t.len() == 0 || t[0] == '#' || t[0] == '!' {
        return None;
    }
    let mut key: Vec<char> = Vec::new();
    let mut i: usize = 0;
    let mut sep = ' ';
    let mut pos: usize = 0;
    loop
        invariant_except_break
            i <= t@.len(),
            sep == ' ',
            key_scan(t@, 0, Seq::empty()) == key_scan(t@, i as int, key@),
        ensures
            key_scan(t@, 0, Seq::empty()) == (key@, pos as int, sep),
        decreases t@.len() - i,
    {
        if i >= t.len() {
            pos = i;
            break;
        }
        let ch = t[i];
        if ch == '\\' {
            let ghost k0 = key@;
            key.push(ch);
            if i + 1 < t.len() {
                key.push(t[i + 1]);
                assert(key@ == k0 + seq!['\\', t@[i + 1]]);
                i = i + 2;
            } else {
                i = i + 1;
            }
        } else if ch == '=' || ch == ':' {
            sep = ch;
            pos = i + 1;
            break;
        } else if ch == ' ' || ch == '\t' {
            let j = skip_blank_from(t.as_slice(), i);
            if j < t.len() && (t[j] == '=' || t[j] == ':') {
                sep = t[j];
                pos = j + 1;
            } else {
                sep = ' ';
                pos = j;
            }
            break;
        } else {
            key.push(ch);
            i = i + 1;
        }
    }
    assert(key_scan(t@, 0, Seq::empty()) == (key@, pos as int, sep));
    if key.len() == 0 {
        return None;
    }
    proof {
        lemma_key_scan(t@, 0, Seq::empty());
    }
    let vstart = skip_blank_from(t.as_slice(), pos);
    assert(t@.skip(vstart as int) == t@.subrange(vstart as int, t@.len() as int));
    let value = chars_range(t.as_slice(), vstart, t.len());
    Some((string_of(key.as_slice()), string_of(value.as_slice()), sep))
}


// ---------------------------------------------------------------------------
// Parser
// ---------------------------------------------------------------------------

/// A parsed entry: key, value, the texts of its comments, its separator and
/// the comment character of its first comment.
pub type PropItem = (Seq<char>, Seq<char>, Seq<Seq<char>>, char, Option<char>);

/// Comments waiting for the next entry (text and comment character), the
/// first separator, the first comment character, and the entries so far.
pub type PropState = (Seq<(Seq<char>, char)>, Option<char>, Option<char>, Seq<(Seq<char>, PropItem)>);

/// The text of a comment line: after the comment character and one space.
pub open spec fn comment_text(t: Seq<char>) -> Seq<char> {
    let x = t.skip(1);
    if x.len() > 0 && x[0] == ' ' { x.skip(1) } else { x }
}

/// The texts of waiting comments that are not empty, in order.
pub open spec fn nonempty_texts(ps: Seq<(Seq<char>, char)>) -> Seq<Seq<char>>
    decreases ps.len(),
{
    if ps.len() == 0 {
        Seq::empty()
    } else if ps.last().0.len() > 0 {
        nonempty_texts(ps.drop_last()).push(ps.last().0)
    } else {
        nonempty_texts(ps.drop_last())
    }
}

/// One logical line into the parse state: a blank line drops waiting
/// comments; a comment line waits; a key/value line takes the waiting
/// comments and becomes an entry; any other line changes nothing.
pub open spec fn parse_step(st: PropState, line: Seq<char>) -> PropState {
    let t = trim_start(line);
    if t.len() == 0 {
        (Seq::empty(), st.1, st.2, st.3)
    } else if t[0] == '#' || t[0] == '!' {
        (st.0.push((comment_text(t), t[0])), st.1, if st.2 is None { Some(t[0]) } else { st.2 }, st.3)
    } else {
        match spec_split(t) {
            Some((rk, rv, sep)) => {
                let key = spec_unescape(rk);
                let item = (
                    key,
                    spec_unescape(rv),
                    nonempty_texts(st.0),
                    sep,
                    if st.0.len() > 0 { Some(st.0[0].1) } else { None },
                );
                (Seq::empty(), if st.1 is None { Some(sep) } else { st.1 }, st.2, map_insert(st.3, key, item))
            },
            None => st,
        }
    }
}

pub open spec fn parse_fold(ls: Seq<Seq<char>>) -> PropState
    decreases ls.len(),
{
    if ls.len() == 0 {
        (Seq::empty(), None, None, Seq::empty())
    } else {
        parse_step(parse_fold(ls.drop_last()), ls.last())
    }
}

/// The parse state after every logical line of a `.properties` text.
pub open spec fn spec_parse(content: Seq<char>) -> PropState {
    parse_fold(spec_join_lines(content))
}

/// The entry parsed from a key/value line.
pub open spec fn entry_of_item(e: I18nEntry, it: PropItem) -> bool {
    &&& e.key@ == it.0
    &&& e.value matches EntryValue::Simple(v) && v@ == it.1
    &&& general_comments(e.comments@, it.2)
    &&& e.format_ext == Some(FormatExtension::JavaProperties(JavaPropertiesExt { separator: Some(it.3), comment_char: it.4 }))
    &&& I18nEntry::spec_bare(e)
}

/// The relation between parsed entries and key/value lines.
pub open spec fn properties_rel() -> spec_fn(I18nEntry, PropItem) -> bool {
    |e: I18nEntry, it: PropItem| entry_of_item(e, it)
}

/// What a parsed resource holds: the entries of the parse state, and the
/// first separator and comment character as the resource's extension.
pub open spec fn parsed_resource(res: I18nResource, st: PropState) -> bool {
    &&& ResourceMetadata::spec_plain_except_ext(res.metadata, FormatId::JavaProperties)
    &&& res.metadata.format_ext == Some(FormatExtension::JavaProperties(JavaPropertiesExt { separator: st.1, comment_char: st.2 }))
    &&& pairs_model(entry_map_pairs(res.entries), st.3, properties_rel())
}

pub open spec fn pending_view(p: Seq<(Vec<char>, char)>) -> Seq<(Seq<char>, char)> {
    p.map_values(|x: (Vec<char>, char)| (x.0@, x.1))
}

fn comments_of(pending: &Vec<(Vec<char>, char)>) -> (cs: Vec<Comment>)
    ensures
        general_comments(cs@, nonempty_texts(pending_view(pending@))),
{
    let mut cs: Vec<Comment> = Vec::new();
    let mut i: usize = 0;
    while i < pending.len()
        invariant
            i <= pending@.len(),
            general_comments(cs@, nonempty_texts(pending_view(pending@).take(i as int))),
        decreases pending@.len() - i,
    {
        let ghost pv = pending_view(pending@);
        assert(pv.take(i + 1).drop_last() == pv.take(i as int));
        assert(pv.take(i + 1).last() == pv[i as int]);
        if pending[i].0.len() > 0 {
            cs.push(general_comment(string_of(pending[i].0.as_slice())));
        }
        i = i + 1;
    }
    assert(pending_view(pending@).take(pending@.len() as int) == pending_view(pending@));
    cs
}

/// Parses Java .properties content into an I18nResource.
pub fn parse_properties(content: &str) -> (r: Result<I18nResource, ParseError>)
    ensures
        r matches Ok(res) && parsed_resource(res, spec_parse(content@)),
{
    let chars = str_chars(content);
    let logical = join_logical_lines_chars(&chars);
    let ghost ls = vec_views(logical@);
    let mut entries = entry_map_new();
    let mut pending: Vec<(Vec<char>, char)> = Vec::new();
    let mut first_separator: Option<char> = None;
    let mut first_comment_char: Option<char> = None;
    let ghost mut model: Seq<(Seq<char>, PropItem)> = Seq::empty();
    let mut i: usize = 0;
    while i < logical.len()
        invariant
            i <= logical@.len(),
            ls == vec_views(logical@),
            ls == spec_join_lines(content@),
            parse_fold(ls.take(i as int)) == (pending_view(pending@), first_separator, first_comment_char, model),
            pairs_model(entry_map_pairs(entries), model, properties_rel()),
        decreases logical@.len() - i,
    {
        assert(ls.take(i + 1).drop_last() == ls.take(i as int));
        assert(ls.take(i + 1).last() == logical@[i as int]@);
        let t = trim_start_chars(logical[i].as_slice());
        if t.len() == 0 {
            pending = Vec::new();
            assert(pending_view(pending@) == Seq::<(Seq<char>, char)>::empty());
        } else if t[0] == '#' || t[0] == '!' {
            let ch = t[0];
            if first_comment_char.is_none() {
                first_comment_char = Some(ch);
            }
            let text = if t.len() > 1 && t[1] == ' ' {
                chars_range(t.as_slice(), 2, t.len())
            } else {
                chars_range(t.as_slice(), 1, t.len())
            };
            proof {
                let x = t@.skip(1);
                if x.len() > 0 && x[0] == ' ' {
                    assert(x.skip(1) == t@.subrange(2, t@.len() as int));
                } else {
                    assert(x == t@.subrange(1, t@.len() as int));
                }
            }
            let ghost before = pending_view(pending@);
            pending.push((text, ch));
            assert(pending_view(pending@) == before.push((comment_text(t@), ch)));
        } else {
            let ts = string_of(t.as_slice());
            match split_key_value(ts.as_str()) {
                Some((raw_key, raw_value, sep)) => {
                    if first_separator.is_none() {
                        first_separator = Some(sep);
                    }
                    let key = properties_unescape(raw_key.as_str());
                    let value = properties_unescape(raw_value.as_str());
                    let comment_char = if pending.len() > 0 { Some(pending[0].1) } else { None };
                    let mut entry = I18nEntry::with_value(key.clone(), EntryValue::Simple(value));
                    entry.format_ext = Some(FormatExtension::JavaProperties(JavaPropertiesExt {
                        separator: Some(sep),
                        comment_char,
                    }));
                    entry.comments = comments_of(&pending);
                    let ghost item: PropItem = (
                        key@,
                        spec_unescape(raw_value@),
                        nonempty_texts(pending_view(pending@)),
                        sep,
                        comment_char,
                    );
                    proof {
                        assert(entry_of_item(entry, item));
                        assert(properties_rel()(entry, item));
                        lemma_pairs_model_insert(entry_map_pairs(entries), model, properties_rel(), key@, entry, item);
                    }
                    entry_map_insert(&mut entries, key, entry);
                    proof {
                        model = map_insert(model, item.0, item);
                    }
                    pending = Vec::new();
                    assert(pending_view(pending@) == Seq::<(Seq<char>, char)>::empty());
                },
                None => {},
            }
        }
        i = i + 1;
    }
    assert(ls.take(logical@.len() as int) == ls);
    let mut metadata = ResourceMetadata::for_format(FormatId::JavaProperties);
    metadata.format_ext = Some(FormatExtension::JavaProperties(JavaPropertiesExt {
        separator: first_separator,
        comment_char: first_comment_char,
    }));
    Ok(I18nResource { metadata, entries })
}

// ---------------------------------------------------------------------------
// Writer
// ---------------------------------------------------------------------------

/// The separator recorded for the resource, `=` by default.
pub open spec fn default_separator(ext: Option<FormatExtension>) -> char {
    match ext {
        Some(FormatExtension::JavaProperties(x)) => match x.separator {
            Some(c) => c,
            None => '=',
        },
        _ => '=',
    }
}

/// The separator recorded for an entry, `d` by default.
pub open spec fn entry_separator(ext: Option<FormatExtension>, d: char) -> char {
    match ext {
        Some(FormatExtension::JavaProperties(x)) => match x.separator {
            Some(c) => c,
            None => d,
        },
        _ => d,
    }
}

/// `# text` and a new line for each comment.
pub open spec fn hash_comments(cs: Seq<Comment>) -> Seq<char>
    decreases cs.len(),
{
    if cs.len() == 0 {
        Seq::empty()
    } else {
        hash_comments(cs.drop_last()) + seq!['#', ' '] + cs.last().text@ + seq!['\n']
    }
}

/// A space alone, or the separator with a space on each side.
pub open spec fn separator_text(c: char) -> Seq<char> {
    if c == ' ' { seq![' '] } else { seq![' ', c, ' '] }
}

/// The lines of one entry: its comments, then `key = value`.
pub open spec fn entry_lines(e: I18nEntry, d: char) -> Seq<char> {
    hash_comments(e.comments@) + spec_escape_key(e.key@) + separator_text(entry_separator(e.format_ext, d))
        + spec_escape_value(fallback_text(e.value), true) + seq!['\n']
}

/// The `.properties` text of entries in order, an empty line between each two.
pub open spec fn spec_write(p: Seq<(Seq<char>, I18nEntry)>, d: char) -> Seq<char>
    decreases p.len(),
{
    if p.len() == 0 {
        Seq::empty()
    } else if p.len() == 1 {
        entry_lines(p[0].1, d)
    } else {
        spec_write(p.drop_last(), d) + seq!['\n'] + entry_lines(p.last().1, d)
    }
}

fn write_entry(out: &mut String, e: &I18nEntry, d: char)
    ensures
        final(out)@ == old(out)@ + entry_lines(*e, d),
{
    let sep = match &e.format_ext {
        Some(FormatExtension::JavaProperties(x)) => match x.separator {
            Some(c) => c,
            None => d,
        },
        _ => d,
    };
    let mut i: usize = 0;
    let ghost start = out@;
    while i < e.comments.len()
        invariant
            i <= e.comments@.len(),
            out@ == start + hash_comments(e.comments@.take(i as int)),
        decreases e.comments@.len() - i,
    {
        assert(e.comments@.take(i + 1).drop_last() == e.comments@.take(i as int));
        out.push('#');
        out.push(' ');
        out.append(e.comments[i].text.as_str());
        out.push('\n');
        i = i + 1;
    }
    assert(e.comments@.take(e.comments@.len() as int) == e.comments@);
    let k = escape_key(e.key.as_str());
    out.append(k.as_str());
    if sep == ' ' {
        out.push(' ');
    } else {
        out.push(' ');
        out.push(sep);
        out.push(' ');
    }
    let text = value_text(&e.value);
    let v = escape_value(text.as_str());
    out.append(v.as_str());
    out.push('\n');
}

/// Writes entries as `.properties` text: for each, its comments as `#`
/// lines and then `key = value` with its recorded separator, an empty line
/// between entries.
pub fn write_properties(resource: &I18nResource) -> (r: String)
    ensures
        r@ == spec_write(entry_map_pairs(resource.entries), default_separator(resource.metadata.format_ext)),
{
    let d = match &resource.metadata.format_ext {
        Some(FormatExtension::JavaProperties(x)) => match x.separator {
            Some(c) => c,
            None => '=',
        },
        _ => '=',
    };
    let mut out = String::new();
    let n = entry_map_len(&resource.entries);
    let ghost p = entry_map_pairs(resource.entries);
    let mut i: usize = 0;
    while i < n
        invariant
            n == p.len(),
            p == entry_map_pairs(resource.entries),
            i <= n,
            out@ == spec_write(p.take(i as int), d),
        decreases n - i,
    {
        assert(p.take(i + 1).drop_last() == p.take(i as int));
        match entry_map_get_index(&resource.entries, i) {
            Some((_, entry)) => {
                if i > 0 {
                    out.push('\n');
                }
                write_entry(&mut out, entry, d);
            },
            None => {},
        }
        i = i + 1;
    }
    assert(p.take(n as int) == p);
    out
}

// ---------------------------------------------------------------------------
// Format entry points
// ---------------------------------------------------------------------------

/// A line that looks like `key=value` or `key:value`.
pub open spec fn kv_like(l: Seq<char>) -> bool {
    let t = trim(l);
    t.len() > 0 && t[0] != '#' && t[0] != '!' && (t.contains('=') || t.contains(':'))
}

/// Number of lines that look like key/value pairs.
pub open spec fn count_kv(ls: Seq<Seq<char>>) -> nat
    decreases ls.len(),
{
    if ls.len() == 0 {
        0
    } else {
        count_kv(ls.drop_last()) + if kv_like(ls.last()) { 1nat } else { 0nat }
    }
}

/// The capabilities of `.properties` files: comments and nested keys.
pub open spec fn spec_capabilities() -> FormatCapabilities {
    FormatCapabilities { comments: true, nested_keys: true, ..FormatCapabilities::spec_none() }
}

/// How sure this format is that it can read a file with the extension and
/// content.
pub open spec fn spec_detect(extension: Seq<char>, content: Seq<u8>) -> Confidence {
    if extension == ".properties"@ {
        Confidence::Definite
    } else if valid_utf8(content) && count_kv(lines(decode_utf8(content))) >= 2 {
        Confidence::Low
    } else {
        Confidence::NoMatch
    }
}

impl Parser {
    /// `.properties` is certain; a UTF-8 text with two or more key/value
    /// lines is possible.
    pub fn detect(&self, extension: &str, content: &[u8]) -> (c: Confidence)
        ensures
            c == spec_detect(extension@, content@),
    {
        if str_eq(extension, ".properties") {
            return Confidence::Definite;
        }
        match std::str::from_utf8(content) {
            Ok(s) => {
                let chars = str_chars(s);
                let ls = split_lines(chars.as_slice());
                let ghost lv = ls@.map_values(|l: Vec<char>| l@);
                let mut count: usize = 0;
                let mut i: usize = 0;
                while i < ls.len()
                    invariant
                        i <= ls@.len(),
                        lv == ls@.map_values(|l: Vec<char>| l@),
                        count == count_kv(lv.take(i as int)),
                        count <= i,
                    decreases ls@.len() - i,
                {
                    assert(lv.take(i + 1).drop_last() == lv.take(i as int));
                    assert(lv.take(i + 1).last() == ls@[i as int]@);
                    let t = trim_chars(ls[i].as_slice());
                    if t.len() > 0 && t[0] != '#' && t[0] != '!' && (chars_contain_char(t.as_slice(), '=')
                        || chars_contain_char(t.as_slice(), ':')) {
                        count = count + 1;
                    }
                    i = i + 1;
                }
                assert(lv.take(ls@.len() as int) == lv);
                if count >= 2 {
                    Confidence::Low
                } else {
                    Confidence::NoMatch
                }
            },
            Err(_) => Confidence::NoMatch,
        }
    }

    /// Parses UTF-8 `.properties` content.
    pub fn parse(&self, content: &[u8]) -> (r: Result<I18nResource, ParseError>)
        ensures
            !valid_utf8(content@) ==> r matches Err(ParseError::InvalidFormat(_)),
            valid_utf8(content@) ==> (r matches Ok(res) && parsed_resource(res, spec_parse(decode_utf8(content@)))),
    {
        match std::str::from_utf8(content) {
            Ok(text) => parse_properties(text),
            Err(e) => Err(ParseError::InvalidFormat(utf8_error_message(&e))),
        }
    }

    pub fn capabilities(&self) -> (c: FormatCapabilities)
        ensures
            c == spec_capabilities(),
    {
        FormatCapabilities { comments: true, nested_keys: true, ..FormatCapabilities::default() }
    }
}

impl Writer {
    /// Writes the resource as UTF-8 `.properties` text.
    pub fn write(&self, resource: &I18nResource) -> (r: Result<Vec<u8>, WriteError>)
        ensures
            r matches Ok(b) && b@ == encode_utf8(
                spec_write(entry_map_pairs(resource.entries), default_separator(resource.metadata.format_ext)),
            ),
    {
        let out = write_properties(resource);
        Ok(string_bytes(&out))
    }

    pub fn capabilities(&self) -> (c: FormatCapabilities)
        ensures
            c == spec_capabilities(),
    {
        Parser.capabilities()
    }
}

impl super::FormatParser for Parser {
    fn detect(&self, extension: &str, content: &[u8]) -> (c: Confidence)
        ensures
            c == spec_detect(extension@, content@),
    {
        Parser::detect(self, extension, content)
    }

    fn parse(&self, content: &[u8]) -> (r: Result<I18nResource, ParseError>)
        ensures
            !valid_utf8(content@) ==> r matches Err(ParseError::InvalidFormat(_)),
            valid_utf8(content@) ==> (r matches Ok(res) && parsed_resource(res, spec_parse(decode_utf8(content@)))),
    {
        Parser::parse(self, content)
    }

    fn capabilities(&self) -> (c: FormatCapabilities)
        ensures
            c == spec_capabilities(),
    {
        Parser::capabilities(self)
    }
}

impl super::FormatWriter for Writer {
    fn write(&self, resource: &I18nResource) -> (r: Result<Vec<u8>, WriteError>)
        ensures
            r matches Ok(b) && b@ == encode_utf8(
                spec_write(entry_map_pairs(resource.entries), default_separator(resource.metadata.format_ext)),
            ),
    {
        Writer::write(self, resource)
    }

    fn capabilities(&self) -> (c: FormatCapabilities)
        ensures
            c == spec_capabilities(),
    {
        Writer::capabilities(self)
    }
}

} // verus!
