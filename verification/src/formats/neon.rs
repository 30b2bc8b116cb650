//! NEON files: nested `key: value` lines, indented by tabs or spaces, and
//! `#` comments; plural forms are sibling keys with a category suffix.
use vstd::prelude::*;
use indexmap::IndexMap;
use crate::collections::{
    entry_map_pairs, entry_map_new, entry_map_insert, entry_map_len, entry_map_get_index, map_insert, map_get,
    pairs_model, lemma_pairs_model_insert, count_map_pairs, cat_pairs_view, key_index, lemma_key_index,
    str_map_pairs, str_map_get_index,
};
use crate::ir::{
    I18nResource, I18nEntry, ResourceMetadata, FormatId, EntryValue, Comment, FormatCapabilities, FormatExtension,
    NeonExt, PluralSet,
};
use crate::text::{
    str_chars, string_of, trim, trim_chars, lines, split_lines, utf8_error_message, str_eq, index_of, find_char,
    lemma_index_of, chars_range, string_views, join, concat_map, lemma_concat_map_step, contains, str_contains,
    chars_contain_char, join_strings, split_char,
};
use super::json_structured::key_parts;
use vstd::utf8::{valid_utf8, decode_utf8, encode_utf8};
use super::{Confidence, ParseError, WriteError, opt_view, PluralView, plural_put, plural_set_view, put_plural, general_comments, general_comment};
use super::ini::{comment_body, plan_ok, lemma_plan_ok};
use super::plural_keys::{Group, GroupView, groups_view, spec_plan, plan_groups};
pub use super::plural_keys::strip_plural_suffix;

verus! {

pub struct Parser;

pub struct Writer;


// ---------------------------------------------------------------------------
// Values
// ---------------------------------------------------------------------------

/// A value without its surrounding single or double quotes, trimmed.
pub open spec fn spec_unquote(s: Seq<char>) -> Seq<char> {
    let t = trim(s);
    if t.len() >= 2 && ((t[0] == '"' && t.last() == '"') || (t[0] == '\'' && t.last() == '\'')) {
        t.subrange(1, t.len() - 1)
    } else {
        t
    }
}

/// Unquotes a NEON string value: single-quoted, double-quoted or bare.
pub fn unquote_neon(s: &str) -> (r: String)
    ensures
        r@ == spec_unquote(s@),
{
    let chars = str_chars(s);
    let t = trim_chars(chars.as_slice());
    let n = t.len();
    if n >= 2 && ((t[0] == '"' && t[n - 1] == '"') || (t[0] == '\'' && t[n - 1] == '\'')) {
        let inner = chars_range(t.as_slice(), 1, n - 1);
        string_of(inner.as_slice())
    } else {
        string_of(t.as_slice())
    }
}

/// A value that would read as something else unquoted: empty, holding `#`,
/// `:` or `%`, starting with a quote or a space, ending with a space, or a
/// literal `true`, `false`, `yes`, `no` or `null`.
pub open spec fn needs_quoting(v: Seq<char>) -> bool {
    ||| v.len() == 0
    ||| v.contains('#')
    ||| v.contains(':')
    ||| (v.len() > 0 && (v[0] == '"' || v[0] == '\'' || v[0] == ' '))
    ||| (v.len() > 0 && v.last() == ' ')
    ||| v == "true"@
    ||| v == "false"@
    ||| v == "yes"@
    ||| v == "no"@
    ||| v == "null"@
    ||| v.contains('%')
}

pub open spec fn quote_char(c: char) -> Seq<char> {
    if c == '\\' {
        seq!['\\', '\\']
    } else if c == '"' {
        seq!['\\', '"']
    } else {
        seq![c]
    }
}

pub open spec fn quote_char_fn() -> spec_fn(char) -> Seq<char> {
    |c: char| quote_char(c)
}

/// A value as NEON writes it: in double quotes, with `\` and `"` escaped,
/// when it needs quoting; as it is otherwise.
pub open spec fn spec_format_value(v: Seq<char>) -> Seq<char> {
    if needs_quoting(v) {
        seq!['"'] + concat_map(v, quote_char_fn()) + seq!['"']
    } else {
        v
    }
}

/// Formats a NEON value, quoting it when it needs it.
pub fn format_neon_value(value: &str) -> (r: String)
    ensures
        r@ == spec_format_value(value@),
{
    let v = str_chars(value);
    let n = v.len();
    let needs = n == 0 || chars_contain_char(v.as_slice(), '#') || chars_contain_char(v.as_slice(), ':') || v[0] == '"'
        || v[0] == '\'' || v[0] == ' ' || v[n - 1] == ' ' || str_eq(value, "true") || str_eq(value, "false")
        || str_eq(value, "yes") || str_eq(value, "no") || str_eq(value, "null") || chars_contain_char(v.as_slice(), '%');
    if needs {
        let mut r = String::new();
        r.push('"');
        let ghost start = r@;
        let mut i: usize = 0;
        while i < n
            invariant
                i <= n,
                n == v@.len(),
                r@ == start + concat_map(v@.take(i as int), quote_char_fn()),
            decreases n - i,
        {
            proof {
                lemma_concat_map_step(v@, i as int, quote_char_fn());
            }
            let c = v[i];
            if c == '\\' {
                r.push('\\');
                r.push('\\');
            } else if c == '"' {
                r.push('\\');
                r.push('"');
            } else {
                r.push(c);
            }
            i = i + 1;
        }
        assert(v@.take(n as int) == v@);
        r.push('"');
        assert(r@ =~= seq!['"'] + concat_map(v@, quote_char_fn()) + seq!['"']);
        r
    } else {
        value.to_owned()
    }
}

// ---------------------------------------------------------------------------
// Reading
// ---------------------------------------------------------------------------

/// The number of tabs and spaces a line starts with.
pub open spec fn lead(l: Seq<char>) -> nat
    decreases l.len(),
{
    if l.len() > 0 && (l[0] == ' ' || l[0] == '\t') {
        1 + lead(l.drop_first())
    } else {
        0
    }
}

pub proof fn lemma_lead(l: Seq<char>)
    ensures
        lead(l) <= l.len(),
        forall|i: int| 0 <= i < lead(l) ==> l[i] == ' ' || l[i] == '\t',
        lead(l) < l.len() ==> l[lead(l) as int] != ' ' && l[lead(l) as int] != '\t',
    decreases l.len(),
{
    if l.len() > 0 && (l[0] == ' ' || l[0] == '\t') {
        lemma_lead(l.drop_first());
        assert forall|i: int| 0 <= i < lead(l) implies l[i] == ' ' || l[i] == '\t' by {
            if i > 0 {
                assert(l[i] == l.drop_first()[i - 1]);
            }
        }
    }
}

fn lead_exec(l: &[char]) -> (n: usize)
    ensures
        n == lead(l@),
{
    proof {
        lemma_lead(l@);
    }
    let mut i: usize = 0;
    while i < l.len() && (l[i] == ' ' || l[i] == '\t')
        invariant
            i <= l@.len(),
            i <= lead(l@),
            forall|j: int| 0 <= j < lead(l@) ==> l@[j] == ' ' || l@[j] == '\t',
            lead(l@) < l@.len() ==> l@[lead(l@) as int] != ' ' && l@[lead(l@) as int] != '\t',
        decreases l@.len() - i,
    {
        i = i + 1;
    }
    i
}

/// A line that does not decide the indent: empty, blank or a comment.
pub open spec fn skip_for_indent(l: Seq<char>) -> bool {
    trim(l).len() == 0 || trim(l)[0] == '#'
}

/// The indent unit: from the first indented line that decides it, one for
/// a tab and the number of leading spaces otherwise; one when there is none.
pub open spec fn indent_unit(ls: Seq<Seq<char>>) -> nat
    decreases ls.len(),
{
    if ls.len() == 0 {
        1
    } else if !skip_for_indent(ls[0]) && lead(ls[0]) > 0 {
        if ls[0][0] == '\t' {
            1
        } else {
            lead(ls[0])
        }
    } else {
        indent_unit(ls.drop_first())
    }
}

/// The nesting level of a line: its number of tabs, or of leading spaces
/// divided by the unit.
pub open spec fn level_of(l: Seq<char>, unit: nat) -> nat {
    let n = lead(l);
    if n == 0 {
        0
    } else if l[0] == '\t' {
        n
    } else {
        n / unit
    }
}

/// The open groups without those at `level` or deeper.
pub open spec fn pop_to(stack: Seq<(nat, Seq<char>)>, level: nat) -> Seq<(nat, Seq<char>)>
    decreases stack.len(),
{
    if stack.len() > 0 && stack.last().0 >= level {
        pop_to(stack.drop_last(), level)
    } else {
        stack
    }
}

pub open spec fn stack_keys(stack: Seq<(nat, Seq<char>)>) -> Seq<Seq<char>> {
    stack.map_values(|p: (nat, Seq<char>)| p.1)
}

/// One `key: value` line read: its full key, value and comments.
pub type NeonRaw = (Seq<char>, Seq<char>, Seq<Seq<char>>);

/// The read lines, the waiting comments and the open groups.
pub type NeonState = (Seq<NeonRaw>, Seq<Seq<char>>, Seq<(nat, Seq<char>)>);

/// One line: a blank line drops waiting comments; a comment waits; a
/// `key:` line opens a group; a `key: value` line takes the waiting comments
/// and becomes an entry under the open groups.
pub open spec fn neon_step(st: NeonState, line: Seq<char>, unit: nat) -> NeonState {
    let t = trim(line);
    if t.len() == 0 {
        (st.0, Seq::empty(), st.2)
    } else if t[0] == '#' {
        (st.0, st.1.push(comment_body(t)), st.2)
    } else {
        let level = level_of(line, unit);
        let stack = pop_to(st.2, level);
        match index_of(t, ':') {
            Some(c) => {
                let kp = trim(t.take(c));
                let vp = trim(t.skip(c + 1));
                let prefix = join(stack_keys(stack), seq!['.']);
                let full = if prefix.len() == 0 { kp } else { prefix + seq!['.'] + kp };
                if vp.len() == 0 {
                    (st.0, Seq::empty(), stack.push((level, kp)))
                } else {
                    (st.0.push((full, spec_unquote(vp), st.1)), Seq::empty(), stack)
                }
            },
            None => (st.0, st.1, stack),
        }
    }
}

pub open spec fn neon_fold(ls: Seq<Seq<char>>, unit: nat) -> NeonState
    decreases ls.len(),
{
    if ls.len() == 0 {
        (Seq::empty(), Seq::empty(), Seq::empty())
    } else {
        neon_step(neon_fold(ls.drop_last(), unit), ls.last(), unit)
    }
}

pub open spec fn spec_read(content: Seq<char>) -> Seq<NeonRaw> {
    neon_fold(lines(content), indent_unit(lines(content))).0
}

/// One `key: value` line as read, before grouping.
pub struct RawEntry {
    pub key: String,
    pub value: String,
    pub comments: Vec<String>,
}

pub open spec fn raw_view(r: RawEntry) -> NeonRaw {
    (r.key@, r.value@, string_views(r.comments@))
}

pub open spec fn raws_view(v: Seq<RawEntry>) -> Seq<NeonRaw> {
    v.map_values(|r: RawEntry| raw_view(r))
}

pub open spec fn stack_view(v: Seq<(usize, String)>) -> Seq<(nat, Seq<char>)> {
    v.map_values(|p: (usize, String)| (p.0 as nat, p.1@))
}

fn find_indent_unit(ls: &Vec<Vec<char>>) -> (u: usize)
    ensures
        u == indent_unit(ls@.map_values(|l: Vec<char>| l@)),
        u >= 1,
{
    let ghost lv = ls@.map_values(|l: Vec<char>| l@);
    let mut i: usize = 0;
    assert(lv.skip(0) == lv);
    while i < ls.len()
        invariant
            i <= ls@.len(),
            lv == ls@.map_values(|l: Vec<char>| l@),
            indent_unit(lv) == indent_unit(lv.skip(i as int)),
        decreases ls@.len() - i,
    {
        let ghost rest = lv.skip(i as int);
        assert(rest[0] == ls@[i as int]@);
        assert(rest.drop_first() == lv.skip(i + 1));
        let t = trim_chars(ls[i].as_slice());
        if t.len() > 0 && t[0] != '#' {
            let n = lead_exec(ls[i].as_slice());
            if n > 0 {
                proof {
                    lemma_lead(ls@[i as int]@);
                }
                if ls[i][0] == '\t' {
                    return 1;
                } else {
                    return n;
                }
            }
        }
        i = i + 1;
    }
    1
}

fn join_keys(stack: &Vec<(usize, String)>) -> (r: String)
    ensures
        r@ == join(stack_keys(stack_view(stack@)), seq!['.']),
{
    let ghost ks = stack_keys(stack_view(stack@));
    let mut r = String::new();
    let mut i: usize = 0;
    while i < stack.len()
        invariant
            i <= stack@.len(),
            ks == stack_keys(stack_view(stack@)),
            r@ == join(ks.take(i as int), seq!['.']),
        decreases stack@.len() - i,
    {
        assert(ks.take(i + 1).drop_last() == ks.take(i as int));
        assert(ks.take(i + 1).last() == stack@[i as int].1@);
        if i > 0 {
            r.push('.');
        }
        r.append(stack[i].1.as_str());
        assert(i == 0 ==> ks.take(i + 1) =~= seq![stack@[i as int].1@]);
        i = i + 1;
    }
    assert(ks.take(stack@.len() as int) == ks);
    r
}

fn pop_stack(stack: &mut Vec<(usize, String)>, level: usize)
    ensures
        stack_view(final(stack)@) == pop_to(stack_view(old(stack)@), level as nat),
{
    let ghost target = pop_to(stack_view(stack@), level as nat);
    while stack.len() > 0 && stack[stack.len() - 1].0 >= level
        invariant
            pop_to(stack_view(stack@), level as nat) == target,
        decreases stack@.len(),
    {
        let ghost before = stack_view(stack@);
        stack.pop();
        assert(stack_view(stack@) == before.drop_last());
    }
}

/// Reads the lines of NEON text into raw entries with dotted keys.
pub fn read_lines(content: &str) -> (r: Vec<RawEntry>)
    ensures
        raws_view(r@) == spec_read(content@),
{
    let chars = str_chars(content);
    let ls = split_lines(chars.as_slice());
    let ghost lv = ls@.map_values(|l: Vec<char>| l@);
    let unit = find_indent_unit(&ls);
    let mut raws: Vec<RawEntry> = Vec::new();
    let mut pending: Vec<String> = Vec::new();
    let mut stack: Vec<(usize, String)> = Vec::new();
    let mut i: usize = 0;
    while i < ls.len()
        invariant
            i <= ls@.len(),
            lv == ls@.map_values(|l: Vec<char>| l@),
            lv == lines(content@),
            unit == indent_unit(lv),
            unit >= 1,
            neon_fold(lv.take(i as int), unit as nat) == (raws_view(raws@), string_views(pending@), stack_view(stack@)),
        decreases ls@.len() - i,
    {
        assert(lv.take(i + 1).drop_last() == lv.take(i as int));
        assert(lv.take(i + 1).last() == ls@[i as int]@);
        let line = ls[i].as_slice();
        let t = trim_chars(line);
        if t.len() == 0 {
            pending = Vec::new();
            assert(string_views(pending@) =~= Seq::<Seq<char>>::empty());
        } else if t[0] == '#' {
            let body = if t.len() > 1 && t[1] == ' ' {
                chars_range(t.as_slice(), 2, t.len())
            } else {
                chars_range(t.as_slice(), 1, t.len())
            };
            assert(body@ == comment_body(t@));
            let ghost before = string_views(pending@);
            pending.push(string_of(body.as_slice()));
            assert(string_views(pending@) == before.push(comment_body(t@)));
        } else {
            let n = lead_exec(line);
            proof {
                lemma_lead(line@);
            }
            let level: usize = if n == 0 {
                0
            } else if line[0] == '\t' {
                n
            } else {
                n / unit
            };
            assert(level as nat == level_of(line@, unit as nat));
            pop_stack(&mut stack, level);
            proof {
                lemma_index_of(t@, ':');
            }
            match find_char(t.as_slice(), ':') {
                Some(c) => {
                    assert(t@.len() == t.len());
                    let before = chars_range(t.as_slice(), 0, c);
                    let after = chars_range(t.as_slice(), c + 1, t.len());
                    assert(before@ == t@.take(c as int));
                    assert(after@ == t@.skip(c + 1));
                    let kp = string_of(trim_chars(before.as_slice()).as_slice());
                    let vp = trim_chars(after.as_slice());
                    if vp.len() == 0 {
                        let ghost sb = stack_view(stack@);
                        stack.push((level, kp));
                        assert(stack_view(stack@) == sb.push((level as nat, kp@)));
                        pending = Vec::new();
                        assert(string_views(pending@) =~= Seq::<Seq<char>>::empty());
                    } else {
                        let prefix = join_keys(&stack);
                        let full = if prefix.as_str().is_empty() {
                            kp
                        } else {
                            let mut f = prefix.clone();
                            f.push('.');
                            f.append(kp.as_str());
                            assert(f@ =~= prefix@ + seq!['.'] + kp@);
                            f
                        };
                        let vs = string_of(vp.as_slice());
                        let value = unquote_neon(vs.as_str());
                        let mut comments: Vec<String> = Vec::new();
                        std::mem::swap(&mut comments, &mut pending);
                        let raw = RawEntry { key: full, value, comments };
                        let ghost rb = raws_view(raws@);
                        raws.push(raw);
                        assert(raws_view(raws@) == rb.push(raw_view(raw)));
                        assert(string_views(pending@) =~= Seq::<Seq<char>>::empty());
                    }
                },
                None => {},
            }
        }
        i = i + 1;
    }
    assert(lv.take(ls@.len() as int) == lv);
    raws
}


// ---------------------------------------------------------------------------
// Grouping
// ---------------------------------------------------------------------------

/// The texts that are not empty, in order.
pub open spec fn nonempty(ts: Seq<Seq<char>>) -> Seq<Seq<char>>
    decreases ts.len(),
{
    if ts.len() == 0 {
        Seq::empty()
    } else if ts.last().len() > 0 {
        nonempty(ts.drop_last()).push(ts.last())
    } else {
        nonempty(ts.drop_last())
    }
}

pub open spec fn group_plural(ms: Seq<(Seq<char>, usize)>, raws: Seq<NeonRaw>) -> PluralView
    decreases ms.len(),
{
    if ms.len() == 0 {
        (None, None, None, None, None, Seq::empty())
    } else {
        plural_put(group_plural(ms.drop_last(), raws), ms.last().0, raws[ms.last().1 as int].1)
    }
}

/// The comments of a group: those of its first line that has any.
pub open spec fn group_comments(ms: Seq<(Seq<char>, usize)>, raws: Seq<NeonRaw>) -> Seq<Seq<char>>
    decreases ms.len(),
{
    if ms.len() == 0 {
        Seq::empty()
    } else {
        let acc = group_comments(ms.drop_last(), raws);
        if acc.len() == 0 {
            nonempty(raws[ms.last().1 as int].2)
        } else {
            acc
        }
    }
}

/// The entry built for a planned group.
pub open spec fn neon_entry(e: I18nEntry, g: GroupView, raws: Seq<NeonRaw>) -> bool {
    &&& I18nEntry::spec_bare(e)
    &&& e.format_ext is None
    &&& match g {
        GroupView::Plural(b, ms) => {
            &&& e.key@ == b
            &&& e.value matches EntryValue::Plural(ps) && plural_set_view(ps) == group_plural(ms, raws)
                && count_map_pairs(ps.exact_matches).len() == 0 && ps.range_matches@.len() == 0 && !ps.ordinal
            &&& general_comments(e.comments@, group_comments(ms, raws))
        },
        GroupView::Single(i) => {
            &&& e.key@ == raws[i as int].0
            &&& e.value matches EntryValue::Simple(s) && s@ == raws[i as int].1
            &&& general_comments(e.comments@, nonempty(raws[i as int].2))
        },
    }
}

pub open spec fn neon_rel(raws: Seq<NeonRaw>) -> spec_fn(I18nEntry, GroupView) -> bool {
    |e: I18nEntry, g: GroupView| neon_entry(e, g, raws)
}

pub open spec fn group_key(g: GroupView, raws: Seq<NeonRaw>) -> Seq<char> {
    match g {
        GroupView::Plural(b, _) => b,
        GroupView::Single(i) => raws[i as int].0,
    }
}

pub open spec fn entries_model(plan: Seq<GroupView>, raws: Seq<NeonRaw>) -> Seq<(Seq<char>, GroupView)>
    decreases plan.len(),
{
    if plan.len() == 0 {
        Seq::empty()
    } else {
        map_insert(entries_model(plan.drop_last(), raws), group_key(plan.last(), raws), plan.last())
    }
}

pub open spec fn raw_keys(raws: Seq<NeonRaw>) -> Seq<Seq<char>> {
    raws.map_values(|r: NeonRaw| r.0)
}

fn comments_of(cs: &Vec<String>) -> (r: Vec<Comment>)
    ensures
        general_comments(r@, nonempty(string_views(cs@))),
{
    let ghost cv = string_views(cs@);
    let mut r: Vec<Comment> = Vec::new();
    let mut i: usize = 0;
    while i < cs.len()
        invariant
            i <= cs@.len(),
            cv == string_views(cs@),
            general_comments(r@, nonempty(cv.take(i as int))),
        decreases cs@.len() - i,
    {
        assert(cv.take(i + 1).drop_last() == cv.take(i as int));
        assert(cv.take(i + 1).last() == cv[i as int]);
        if !cs[i].as_str().is_empty() {
            r.push(general_comment(cs[i].clone()));
        }
        i = i + 1;
    }
    assert(cv.take(cs@.len() as int) == cv);
    r
}

fn plural_entry(raws: &Vec<RawEntry>, base: &String, ms: &Vec<(String, usize)>) -> (e: I18nEntry)
    requires
        forall|m: int| 0 <= m < ms@.len() ==> (#[trigger] ms@[m]).1 < raws@.len(),
    ensures
        neon_entry(e, GroupView::Plural(base@, cat_pairs_view(ms@)), raws_view(raws@)),
{
    let ghost rv = raws_view(raws@);
    let ghost mv = cat_pairs_view(ms@);
    let mut ps = PluralSet::default();
    let mut comments: Vec<Comment> = Vec::new();
    let mut j: usize = 0;
    while j < ms.len()
        invariant
            j <= ms@.len(),
            rv == raws_view(raws@),
            mv == cat_pairs_view(ms@),
            forall|m: int| 0 <= m < ms@.len() ==> (#[trigger] ms@[m]).1 < raws@.len(),
            plural_set_view(ps) == group_plural(mv.take(j as int), rv),
            count_map_pairs(ps.exact_matches).len() == 0,
            ps.range_matches@.len() == 0,
            !ps.ordinal,
            general_comments(comments@, group_comments(mv.take(j as int), rv)),
        decreases ms@.len() - j,
    {
        assert(mv.take(j + 1).drop_last() == mv.take(j as int));
        assert(mv.take(j + 1).last() == mv[j as int]);
        let idx = ms[j].1;
        let raw = &raws[idx];
        assert(rv[idx as int] == raw_view(*raw));
        put_plural(&mut ps, ms[j].0.as_str(), raw.value.clone());
        if comments.len() == 0 {
            comments = comments_of(&raw.comments);
        }
        j = j + 1;
    }
    assert(mv.take(ms@.len() as int) == mv);
    let mut e = I18nEntry::with_value(base.clone(), EntryValue::Plural(ps));
    e.comments = comments;
    e
}

fn single_entry(raws: &Vec<RawEntry>, i: usize) -> (e: I18nEntry)
    requires
        i < raws@.len(),
    ensures
        neon_entry(e, GroupView::Single(i), raws_view(raws@)),
{
    let raw = &raws[i];
    assert(raws_view(raws@)[i as int] == raw_view(*raw));
    let mut e = I18nEntry::with_value(raw.key.clone(), EntryValue::Simple(raw.value.clone()));
    e.comments = comments_of(&raw.comments);
    e
}

/// Builds the entries of a plan: each group's entry under its key, in order.
pub fn build_entries(raws: &Vec<RawEntry>, plan: &Vec<Group>) -> (r: IndexMap<String, I18nEntry>)
    requires
        plan_ok(groups_view(plan@), raws@.len()),
    ensures
        pairs_model(entry_map_pairs(r), entries_model(groups_view(plan@), raws_view(raws@)), neon_rel(raws_view(raws@))),
{
    let ghost rv = raws_view(raws@);
    let ghost pv = groups_view(plan@);
    let mut entries = entry_map_new();
    let mut i: usize = 0;
    while i < plan.len()
        invariant
            i <= plan@.len(),
            rv == raws_view(raws@),
            pv == groups_view(plan@),
            plan_ok(pv, raws@.len()),
            pairs_model(entry_map_pairs(entries), entries_model(pv.take(i as int), rv), neon_rel(rv)),
        decreases plan@.len() - i,
    {
        assert(pv.take(i + 1).drop_last() == pv.take(i as int));
        assert(pv.take(i + 1).last() == pv[i as int]);
        let ghost g = pv[i as int];
        let e = match &plan[i] {
            Group::Plural(b, ms) => {
                assert(g == GroupView::Plural(b@, cat_pairs_view(ms@)));
                assert forall|m: int| 0 <= m < ms@.len() implies (#[trigger] ms@[m]).1 < raws@.len() by {
                    assert(cat_pairs_view(ms@)[m].1 == ms@[m].1);
                }
                plural_entry(raws, b, ms)
            },
            Group::Single(k) => single_entry(raws, *k),
        };
        let key = e.key.clone();
        assert(key@ == group_key(g, rv));
        proof {
            lemma_pairs_model_insert(entry_map_pairs(entries), entries_model(pv.take(i as int), rv), neon_rel(rv), key@, e, g);
        }
        entry_map_insert(&mut entries, key, e);
        i = i + 1;
    }
    assert(pv.take(plan@.len() as int) == pv);
    entries
}

/// What a resource read from NEON text holds.
pub open spec fn parsed_resource(res: I18nResource, raws: Seq<NeonRaw>) -> bool {
    &&& ResourceMetadata::spec_plain_except_ext(res.metadata, FormatId::Neon)
    &&& res.metadata.format_ext == Some(FormatExtension::Neon(NeonExt {}))
    &&& pairs_model(entry_map_pairs(res.entries), entries_model(spec_plan(raw_keys(raws)), raws), neon_rel(raws))
}

/// Parses NEON text: reads the lines, then groups suffixed plural keys.
pub fn parse_neon_content(content: &str) -> (r: Result<I18nResource, ParseError>)
    ensures
        r matches Ok(res) && parsed_resource(res, spec_read(content@)),
{
    let raws = read_lines(content);
    let ghost rv = raws_view(raws@);
    let mut keys: Vec<String> = Vec::new();
    let mut i: usize = 0;
    while i < raws.len()
        invariant
            i <= raws@.len(),
            rv == raws_view(raws@),
            string_views(keys@) == raw_keys(rv).take(i as int),
        decreases raws@.len() - i,
    {
        let ghost before = string_views(keys@);
        keys.push(raws[i].key.clone());
        assert(string_views(keys@) == before.push(raws@[i as int].key@));
        assert(raw_keys(rv).take(i + 1) == raw_keys(rv).take(i as int).push(raw_keys(rv)[i as int]));
        i = i + 1;
    }
    assert(raw_keys(rv).take(raws@.len() as int) == raw_keys(rv));
    let plan = plan_groups(&keys);
    proof {
        lemma_plan_ok(raw_keys(rv));
    }
    let entries = build_entries(&raws, &plan);
    let mut metadata = ResourceMetadata::for_format(FormatId::Neon);
    metadata.format_ext = Some(FormatExtension::Neon(NeonExt {}));
    Ok(I18nResource { metadata, entries })
}

pub open spec fn spec_capabilities() -> FormatCapabilities {
    FormatCapabilities { plurals: true, comments: true, nested_keys: true, ..FormatCapabilities::spec_none() }
}

/// How sure this format is that it can read a file with the extension and
/// content.
pub open spec fn spec_detect(extension: Seq<char>, content: Seq<u8>) -> Confidence {
    if extension == ".neon"@ { Confidence::Definite } else { Confidence::NoMatch }
}

impl Parser {
    /// `.neon` is certain; nothing else is recognised.
    pub fn detect(&self, extension: &str, content: &[u8]) -> (c: Confidence)
        ensures
            c == spec_detect(extension@, content@),
    {
        if str_eq(extension, ".neon") {
            Confidence::Definite
        } else {
            Confidence::NoMatch
        }
    }

    /// Parses UTF-8 NEON content.
    pub fn parse(&self, content: &[u8]) -> (r: Result<I18nResource, ParseError>)
        ensures
            !valid_utf8(content@) ==> r matches Err(ParseError::InvalidFormat(_)),
            valid_utf8(content@) ==> (r matches Ok(res) && parsed_resource(res, spec_read(decode_utf8(content@)))),
    {
        match std::str::from_utf8(content) {
            Ok(text) => parse_neon_content(text),
            Err(e) => Err(ParseError::InvalidFormat(utf8_error_message(&e))),
        }
    }

    pub fn capabilities(&self) -> (c: FormatCapabilities)
        ensures
            c == spec_capabilities(),
    {
        FormatCapabilities { plurals: true, comments: true, nested_keys: true, ..FormatCapabilities::default() }
    }
}


// ---------------------------------------------------------------------------
// Writing
// ---------------------------------------------------------------------------

/// The nested key tree that NEON is written from.
pub enum TreeView {
    Leaf(Seq<char>, Seq<Seq<char>>),
    Branch(Seq<(Seq<char>, TreeView)>),
}

/// A node of the nested key tree: a value with the texts of its comments,
/// or a group of named children in order.
pub enum NeonNode {
    Leaf(String, Vec<String>),
    Branch(Vec<(String, NeonNode)>),
}

pub open spec fn comment_texts(cs: Seq<Comment>) -> Seq<Seq<char>> {
    cs.map_values(|c: Comment| c.text@)
}

pub open spec fn node_view(n: NeonNode) -> TreeView
    decreases n,
{
    match n {
        NeonNode::Leaf(v, cs) => TreeView::Leaf(v@, string_views(cs@)),
        NeonNode::Branch(ch) => TreeView::Branch(children_view_upto(ch@, ch@.len() as int)),
    }
}

pub open spec fn children_view_upto(ch: Seq<(String, NeonNode)>, n: int) -> Seq<(Seq<char>, TreeView)>
    decreases ch, n,
{
    if n <= 0 || n > ch.len() {
        Seq::empty()
    } else {
        proof {
            assert(decreases_to!(ch => ch[n - 1]));
        }
        children_view_upto(ch, n - 1).push((ch[n - 1].0@, node_view(ch[n - 1].1)))
    }
}

pub open spec fn children_view(ch: Seq<(String, NeonNode)>) -> Seq<(Seq<char>, TreeView)> {
    children_view_upto(ch, ch.len() as int)
}

pub proof fn lemma_children_view(ch: Seq<(String, NeonNode)>, n: int)
    requires
        0 <= n <= ch.len(),
    ensures
        children_view_upto(ch, n).len() == n,
        forall|i: int| 0 <= i < n ==> #[trigger] children_view_upto(ch, n)[i] == (ch[i].0@, node_view(ch[i].1)),
    decreases n,
{
    if n > 0 {
        lemma_children_view(ch, n - 1);
    }
}

/// One key, value and comment texts for a present optional form.
pub open spec fn opt_item(o: Option<String>, k: Seq<char>, cs: Seq<Seq<char>>) -> Seq<(Seq<char>, Seq<char>, Seq<Seq<char>>)> {
    match o {
        Some(t) => seq![(k, t@, cs)],
        None => Seq::empty(),
    }
}

/// The flat `key: value` items an entry is written as: a plural as one item
/// per present form, its key suffixed with the category (the comments go
/// with the `zero` form, when there is one); an array as its items joined by
/// `, `; a select as its first case; a multi-variable plural as its pattern.
pub open spec fn flat_of(e: I18nEntry) -> Seq<(Seq<char>, Seq<char>, Seq<Seq<char>>)> {
    let k = e.key@;
    let cs = comment_texts(e.comments@);
    match e.value {
        EntryValue::Simple(v) => seq![(k, v@, cs)],
        EntryValue::Plural(ps) => opt_item(ps.zero, k + "_zero"@, cs) + opt_item(ps.one, k + "_one"@, Seq::empty())
            + opt_item(ps.two, k + "_two"@, Seq::empty()) + opt_item(ps.few, k + "_few"@, Seq::empty())
            + opt_item(ps.many, k + "_many"@, Seq::empty()) + seq![(k + "_other"@, ps.other@, Seq::empty())],
        EntryValue::Array(a) => seq![(k, join(string_views(a@), ", "@), cs)],
        EntryValue::Select(ss) => seq![(k, if str_map_pairs(ss.cases).len() > 0 { str_map_pairs(ss.cases)[0].1 } else { Seq::empty() }, cs)],
        EntryValue::MultiVariablePlural(m) => seq![(k, m.pattern@, cs)],
    }
}

/// The flat items of the entries, in order.
pub open spec fn flat_all(ps: Seq<(Seq<char>, I18nEntry)>) -> Seq<(Seq<char>, Seq<char>, Seq<Seq<char>>)>
    decreases ps.len(),
{
    if ps.len() == 0 {
        Seq::empty()
    } else {
        flat_all(ps.drop_last()) + flat_of(ps.last().1)
    }
}

/// Inserts a value under the path `parts`: each step into the group of that
/// name, made when missing; a step that meets a value leaves the tree as it
/// is.
pub open spec fn tree_insert(t: Seq<(Seq<char>, TreeView)>, parts: Seq<Seq<char>>, v: Seq<char>, cs: Seq<Seq<char>>) -> Seq<(Seq<char>, TreeView)>
    decreases parts.len(),
{
    if parts.len() == 0 {
        t
    } else if parts.len() == 1 {
        map_insert(t, parts[0], TreeView::Leaf(v, cs))
    } else {
        match map_get(t, parts[0]) {
            Some(TreeView::Branch(b)) => map_insert(t, parts[0], TreeView::Branch(tree_insert(b, parts.drop_first(), v, cs))),
            Some(_) => t,
            None => map_insert(t, parts[0], TreeView::Branch(tree_insert(Seq::empty(), parts.drop_first(), v, cs))),
        }
    }
}

/// The tree of the flat items, each under the parts of its dotted key.
pub open spec fn tree_of(items: Seq<(Seq<char>, Seq<char>, Seq<Seq<char>>)>) -> Seq<(Seq<char>, TreeView)>
    decreases items.len(),
{
    if items.len() == 0 {
        Seq::empty()
    } else {
        let x = items.last();
        tree_insert(tree_of(items.drop_last()), split_char(x.0, '.'), x.1, x.2)
    }
}

/// The comment lines of a value, at the indentation `ind`.
pub open spec fn comment_lines(cs: Seq<Seq<char>>, ind: Seq<char>) -> Seq<char>
    decreases cs.len(),
{
    if cs.len() == 0 {
        Seq::empty()
    } else {
        comment_lines(cs.drop_last(), ind) + ind + "# "@ + cs.last() + "\n"@
    }
}

/// The text of the first `n` nodes at the indentation `ind`: a value as its
/// comment lines and `key: value`; a group as `key:` and its children, one
/// tab further in.
pub open spec fn tree_text_upto(t: Seq<(Seq<char>, TreeView)>, n: int, ind: Seq<char>) -> Seq<char>
    decreases t, n,
{
    if n <= 0 || n > t.len() {
        Seq::empty()
    } else {
        proof {
            assert(decreases_to!(t => t[n - 1]));
        }
        tree_text_upto(t, n - 1, ind) + match t[n - 1].1 {
            TreeView::Leaf(v, cs) => comment_lines(cs, ind) + ind + t[n - 1].0 + ": "@ + spec_format_value(v) + "\n"@,
            TreeView::Branch(sub) => ind + t[n - 1].0 + ":\n"@ + tree_text_upto(sub, sub.len() as int, ind.push('\t')),
        }
    }
}

/// The text written for a resource.
pub open spec fn spec_write_neon(res: I18nResource) -> Seq<char> {
    let t = tree_of(flat_all(entry_map_pairs(res.entries)));
    tree_text_upto(t, t.len() as int, Seq::empty())
}

/// The views of flat items held as strings.
pub open spec fn flat_view(v: Seq<(String, String, Vec<String>)>) -> Seq<(Seq<char>, Seq<char>, Seq<Seq<char>>)> {
    v.map_values(|x: (String, String, Vec<String>)| (x.0@, x.1@, string_views(x.2@)))
}

fn comment_texts_exec(cs: &Vec<Comment>) -> (r: Vec<String>)
    ensures
        string_views(r@) == comment_texts(cs@),
{
    let mut r: Vec<String> = Vec::new();
    let mut i: usize = 0;
    while i < cs.len()
        invariant
            i <= cs@.len(),
            string_views(r@) == comment_texts(cs@.take(i as int)),
        decreases cs@.len() - i,
    {
        let ghost before = r@;
        r.push(cs[i].text.clone());
        assert(string_views(r@) =~= string_views(before).push(cs@[i as int].text@));
        assert(comment_texts(cs@.take(i + 1)) =~= comment_texts(cs@.take(i as int)).push(cs@[i as int].text@));
        i = i + 1;
    }
    assert(cs@.take(cs@.len() as int) =~= cs@);
    r
}

fn suffixed(k: &String, suffix: &str) -> (r: String)
    ensures
        r@ == k@ + suffix@,
{
    let mut r = k.clone();
    r.append(suffix);
    r
}

fn no_comments() -> (v: Vec<String>)
    ensures
        string_views(v@) == Seq::<Seq<char>>::empty(),
{
    let v: Vec<String> = Vec::new();
    assert(string_views(v@) =~= Seq::<Seq<char>>::empty());
    v
}

/// Appends the item of a present optional form.
fn push_opt(flat: &mut Vec<(String, String, Vec<String>)>, o: &Option<String>, k: String, cs: Vec<String>)
    ensures
        flat_view(final(flat)@) == flat_view(old(flat)@) + opt_item(*o, k@, string_views(cs@)),
{
    let ghost before = flat_view(flat@);
    match o {
        Some(t) => {
            flat.push((k, t.clone(), cs));
        },
        None => {},
    }
    assert(flat_view(flat@) =~= before + opt_item(*o, k@, string_views(cs@)));
}

/// Appends the flat items of an entry.
fn push_flat(flat: &mut Vec<(String, String, Vec<String>)>, e: &I18nEntry)
    ensures
        flat_view(final(flat)@) == flat_view(old(flat)@) + flat_of(*e),
{
    let ghost before = flat_view(flat@);
    let cs = comment_texts_exec(&e.comments);
    let ghost csv = string_views(cs@);
    match &e.value {
        EntryValue::Simple(v) => {
            flat.push((e.key.clone(), v.clone(), cs));
            assert(flat_view(flat@) =~= before + flat_of(*e));
        },
        EntryValue::Plural(ps) => {
            let ghost k = e.key@;
            push_opt(flat, &ps.zero, suffixed(&e.key, "_zero"), cs);
            push_opt(flat, &ps.one, suffixed(&e.key, "_one"), no_comments());
            push_opt(flat, &ps.two, suffixed(&e.key, "_two"), no_comments());
            push_opt(flat, &ps.few, suffixed(&e.key, "_few"), no_comments());
            push_opt(flat, &ps.many, suffixed(&e.key, "_many"), no_comments());
            push_opt(flat, &Some(ps.other.clone()), suffixed(&e.key, "_other"), no_comments());
            assert(flat_view(flat@) =~= before + flat_of(*e));
        },
        EntryValue::Array(a) => {
            flat.push((e.key.clone(), join_strings(a, ", "), cs));
            assert(flat_view(flat@) =~= before + flat_of(*e));
        },
        EntryValue::Select(ss) => {
            let first = match str_map_get_index(&ss.cases, 0) {
                Some((_k, v)) => v.clone(),
                None => String::new(),
            };
            flat.push((e.key.clone(), first, cs));
            assert(flat_view(flat@) =~= before + flat_of(*e));
        },
        EntryValue::MultiVariablePlural(m) => {
            flat.push((e.key.clone(), m.pattern.clone(), cs));
            assert(flat_view(flat@) =~= before + flat_of(*e));
        },
    }
}

/// The index of the child named `k`, as `key_index` gives it.
fn child_find(t: &Vec<(String, NeonNode)>, k: &str) -> (r: Option<usize>)
    ensures
        match r {
            Some(i) => i < t@.len() && key_index(children_view(t@), k@) == i,
            None => key_index(children_view(t@), k@) < 0,
        },
{
    let ghost tv = children_view(t@);
    proof {
        lemma_children_view(t@, t@.len() as int);
        lemma_key_index(tv, k@);
    }
    let mut i: usize = 0;
    while i < t.len()
        invariant
            i <= t@.len(),
            tv == children_view(t@),
            tv.len() == t@.len(),
            forall|j: int| 0 <= j < t@.len() ==> #[trigger] tv[j] == (t@[j].0@, node_view(t@[j].1)),
            forall|j: int| 0 <= j < i ==> tv[j].0 != k@,
            -1 <= key_index(tv, k@) < tv.len(),
            key_index(tv, k@) >= 0 ==> tv[key_index(tv, k@)].0 == k@,
            key_index(tv, k@) >= 0 ==> forall|j: int| 0 <= j < key_index(tv, k@) ==> tv[j].0 != k@,
            key_index(tv, k@) < 0 ==> forall|j: int| 0 <= j < tv.len() ==> tv[j].0 != k@,
        decreases t@.len() - i,
    {
        assert(tv[i as int] == (t@[i as int].0@, node_view(t@[i as int].1)));
        if str_eq(t[i].0.as_str(), k) {
            return Some(i);
        }
        i = i + 1;
    }
    None
}

proof fn lemma_children_update(t: Seq<(String, NeonNode)>, i: int, x: (String, NeonNode))
    requires
        0 <= i < t.len(),
    ensures
        children_view(t.update(i, x)) == children_view(t).update(i, (x.0@, node_view(x.1))),
{
    lemma_children_view(t, t.len() as int);
    lemma_children_view(t.update(i, x), t.len() as int);
    assert(children_view(t.update(i, x)) =~= children_view(t).update(i, (x.0@, node_view(x.1))));
}

proof fn lemma_children_push(t: Seq<(String, NeonNode)>, x: (String, NeonNode))
    ensures
        children_view(t.push(x)) == children_view(t).push((x.0@, node_view(x.1))),
{
    lemma_children_view(t, t.len() as int);
    lemma_children_view(t.push(x), t.len() as int + 1);
    assert(children_view(t.push(x)) =~= children_view(t).push((x.0@, node_view(x.1))));
}

/// Sets the child named `k` to `x`, in place when it exists, last otherwise.
fn child_insert(t: &mut Vec<(String, NeonNode)>, k: String, x: NeonNode)
    ensures
        children_view(final(t)@) == map_insert(children_view(old(t)@), k@, node_view(x)),
{
    match child_find(t, k.as_str()) {
        Some(i) => {
            let ghost before = t@;
            let _ = t.remove(i);
            t.insert(i, (k, x));
            assert(t@ == before.update(i as int, (t@[i as int].0, t@[i as int].1)));
            proof {
                lemma_children_update(before, i as int, t@[i as int]);
            }
        },
        None => {
            let ghost before = t@;
            t.push((k, x));
            proof {
                lemma_children_push(before, (t@[before.len() as int].0, t@[before.len() as int].1));
                assert(t@ == before.push(t@[before.len() as int]));
            }
        },
    }
}

proof fn lemma_key_index_tree_update(mv: Seq<(Seq<char>, TreeView)>, i: int, x: TreeView, k: Seq<char>)
    requires
        0 <= i < mv.len(),
    ensures
        key_index(mv.update(i, (mv[i].0, x)), k) == key_index(mv, k),
{
    let u = mv.update(i, (mv[i].0, x));
    assert forall|j: int| 0 <= j < u.len() implies (#[trigger] u[j]).0 == mv[j].0 by {}
    crate::collections::lemma_key_index_same(u, mv, k);
}

/// Inserts a value under `parts[start..]`.
fn insert_into_tree(t: &mut Vec<(String, NeonNode)>, parts: &Vec<String>, start: usize, v: String, cs: Vec<String>)
    requires
        start <= parts@.len(),
    ensures
        children_view(final(t)@) == tree_insert(children_view(old(t)@), string_views(parts@).skip(start as int), v@, string_views(cs@)),
    decreases parts@.len() - start,
{
    let ghost pv = string_views(parts@).skip(start as int);
    if start >= parts.len() {
        assert(pv.len() == 0);
        return;
    }
    assert(pv[0] == parts@[start as int]@);
    if start == parts.len() - 1 {
        child_insert(t, parts[start].clone(), NeonNode::Leaf(v, cs));
        return;
    }
    assert(pv.drop_first() == string_views(parts@).skip(start + 1));
    let key = parts[start].clone();
    let ghost tv = children_view(t@);
    proof {
        lemma_children_view(t@, t@.len() as int);
        lemma_key_index(tv, key@);
    }
    let mut sub: Vec<(String, NeonNode)> = match child_find(t, key.as_str()) {
        Some(i) => {
            assert(tv[i as int] == (t@[i as int].0@, node_view(t@[i as int].1)));
            let is_branch = match &t[i].1 {
                NeonNode::Branch(_) => true,
                _ => false,
            };
            if !is_branch {
                return;
            }
            let ghost before = t@;
            let (k0, x) = t.remove(i);
            t.insert(i, (k0, NeonNode::Branch(Vec::new())));
            proof {
                let ph = t@[i as int].1;
                assert(t@ == before.update(i as int, (before[i as int].0, ph)));
                lemma_children_update(before, i as int, (before[i as int].0, ph));
                lemma_key_index_tree_update(tv, i as int, node_view(ph), key@);
                assert(tv.update(i as int, (tv[i as int].0, node_view(ph))) == children_view(t@));
            }
            match x {
                NeonNode::Branch(c) => c,
                _ => Vec::new(),
            }
        },
        None => {
            let c: Vec<(String, NeonNode)> = Vec::new();
            assert(children_view(c@) =~= Seq::<(Seq<char>, TreeView)>::empty());
            c
        },
    };
    insert_into_tree(&mut sub, parts, start + 1, v, cs);
    child_insert(t, key, NeonNode::Branch(sub));
    proof {
        lemma_children_view(sub@, sub@.len() as int);
    }
}

/// Builds the nested key tree of the entries: their flat items first, then
/// each item under the parts of its dotted key.
pub fn build_tree(entries: &IndexMap<String, I18nEntry>) -> (t: Vec<(String, NeonNode)>)
    ensures
        children_view(t@) == tree_of(flat_all(entry_map_pairs(*entries))),
{
    let ghost ps = entry_map_pairs(*entries);
    let n = entry_map_len(entries);
    let mut flat: Vec<(String, String, Vec<String>)> = Vec::new();
    assert(flat_view(flat@) =~= flat_all(ps.take(0)));
    let mut i: usize = 0;
    while i < n
        invariant
            i <= n,
            n == ps.len(),
            ps == entry_map_pairs(*entries),
            flat_view(flat@) == flat_all(ps.take(i as int)),
        decreases n - i,
    {
        assert(ps.take(i + 1).drop_last() == ps.take(i as int));
        assert(ps.take(i + 1).last() == ps[i as int]);
        match entry_map_get_index(entries, i) {
            Some((_k, e)) => push_flat(&mut flat, e),
            None => {},
        }
        i = i + 1;
    }
    assert(ps.take(n as int) == ps);
    let ghost fv = flat_view(flat@);
    let mut tree: Vec<(String, NeonNode)> = Vec::new();
    assert(children_view(tree@) =~= Seq::<(Seq<char>, TreeView)>::empty());
    let mut j: usize = 0;
    while j < flat.len()
        invariant
            j <= flat@.len(),
            fv == flat_view(flat@),
            children_view(tree@) == tree_of(fv.take(j as int)),
        decreases flat@.len() - j,
    {
        assert(fv.take(j + 1).drop_last() == fv.take(j as int));
        assert(fv.take(j + 1).last() == fv[j as int]);
        let parts = key_parts(&flat[j].0);
        assert(string_views(parts@).skip(0) == string_views(parts@));
        insert_into_tree(&mut tree, &parts, 0, flat[j].1.clone(), flat[j].2.clone());
        j = j + 1;
    }
    assert(fv.take(flat@.len() as int) == fv);
    tree
}

fn push_comment_lines(out: &mut String, cs: &Vec<String>, ind: &String)
    ensures
        final(out)@ == old(out)@ + comment_lines(string_views(cs@), ind@),
{
    let ghost start = out@;
    let mut i: usize = 0;
    while i < cs.len()
        invariant
            i <= cs@.len(),
            out@ == start + comment_lines(string_views(cs@).take(i as int), ind@),
        decreases cs@.len() - i,
    {
        assert(string_views(cs@).take(i + 1).drop_last() == string_views(cs@).take(i as int));
        out.append(ind.as_str());
        out.append("# ");
        out.append(cs[i].as_str());
        out.append("\n");
        i = i + 1;
    }
    assert(string_views(cs@).take(cs@.len() as int) == string_views(cs@));
}

/// Appends a value's comment lines and its `key: value` line.
fn write_leaf(out: &mut String, key: &String, v: &String, cs: &Vec<String>, ind: &String)
    ensures
        final(out)@ == old(out)@ + (comment_lines(string_views(cs@), ind@) + ind@ + key@ + ": "@ + spec_format_value(v@) + "\n"@),
{
    let ghost start = out@;
    push_comment_lines(out, cs, ind);
    out.append(ind.as_str());
    out.append(key.as_str());
    out.append(": ");
    let f = format_neon_value(v.as_str());
    out.append(f.as_str());
    out.append("\n");
    assert(out@ =~= start + (comment_lines(string_views(cs@), ind@) + ind@ + key@ + ": "@ + spec_format_value(v@) + "\n"@));
}

/// Appends the text of the nodes at the indentation `ind`.
fn write_tree(t: &Vec<(String, NeonNode)>, ind: &String, out: &mut String)
    ensures
        final(out)@ == old(out)@ + tree_text_upto(children_view(t@), t@.len() as int, ind@),
    decreases t@,
{
    let ghost tv = children_view(t@);
    proof {
        lemma_children_view(t@, t@.len() as int);
    }
    let ghost start = out@;
    let mut i: usize = 0;
    while i < t.len()
        invariant
            i <= t@.len(),
            tv == children_view(t@),
            tv.len() == t@.len(),
            forall|j: int| 0 <= j < t@.len() ==> #[trigger] tv[j] == (t@[j].0@, node_view(t@[j].1)),
            out@ == start + tree_text_upto(tv, i as int, ind@),
        decreases t@.len() - i,
    {
        assert(tv[i as int] == (t@[i as int].0@, node_view(t@[i as int].1)));
        let ghost before = out@;
        let ghost piece = match tv[i as int].1 {
            TreeView::Leaf(v, cs) => comment_lines(cs, ind@) + ind@ + tv[i as int].0 + ": "@ + spec_format_value(v) + "\n"@,
            TreeView::Branch(sub) => ind@ + tv[i as int].0 + ":\n"@ + tree_text_upto(sub, sub.len() as int, ind@.push('\t')),
        };
        match &t[i].1 {
            NeonNode::Leaf(v, cs) => {
                write_leaf(out, &t[i].0, v, cs, ind);
            },
            NeonNode::Branch(sub) => {
                out.append(ind.as_str());
                out.append(t[i].0.as_str());
                out.append(":\n");
                let mut inner = ind.clone();
                inner.push('\t');
                assert(decreases_to!(t@ => t@[i as int]));
                proof {
                    lemma_children_view(sub@, sub@.len() as int);
                }
                write_tree(sub, &inner, out);
            },
        }
        assert(out@ =~= before + piece);
        assert(tree_text_upto(tv, i + 1, ind@) == tree_text_upto(tv, i as int, ind@) + piece);
        assert(out@ =~= start + tree_text_upto(tv, i + 1, ind@));
        i = i + 1;
    }
}

/// The NEON text of the entries.
pub fn write_neon(entries: &IndexMap<String, I18nEntry>) -> (r: String)
    ensures
        r@ == ({
            let t = tree_of(flat_all(entry_map_pairs(*entries)));
            tree_text_upto(t, t.len() as int, Seq::empty())
        }),
{
    let tree = build_tree(entries);
    let mut out = String::new();
    let ind = String::new();
    proof {
        lemma_children_view(tree@, tree@.len() as int);
    }
    write_tree(&tree, &ind, &mut out);
    out
}

impl Writer {
    /// Writes the entries as NEON: dotted keys nested under their groups, a
    /// tab per level, plural forms as suffixed keys.
    pub fn write(&self, resource: &I18nResource) -> (r: Result<Vec<u8>, WriteError>)
        ensures
            r matches Ok(b) && b@ == encode_utf8(spec_write_neon(*resource)),
    {
        let text = write_neon(&resource.entries);
        Ok(crate::text::string_bytes(&text))
    }

    pub fn capabilities(&self) -> (c: FormatCapabilities)
        ensures
            c == spec_capabilities(),
    {
        Parser.capabilities()
    }
}

impl super::FormatWriter for Writer {
    fn write(&self, resource: &I18nResource) -> (r: Result<Vec<u8>, WriteError>)
        ensures
            r matches Ok(b) && b@ == encode_utf8(spec_write_neon(*resource)),
    {
        Writer::write(self, resource)
    }

    fn capabilities(&self) -> (c: FormatCapabilities)
        ensures
            c == spec_capabilities(),
    {
        Writer::capabilities(self)
    }
}

impl super::FormatParser for Parser {
    fn detect(&self, extension: &str, content: &[u8]) -> (c: Confidence)
        ensures
            c == spec_detect(extension@, content@),
    {
        Parser::detect(self, extension, content)
    }

    fn parse(&self, content: &[u8]) -> (r: Result<I18nResource, ParseError>)
        ensures
            !valid_utf8(content@) ==> r matches Err(ParseError::InvalidFormat(_)),
            valid_utf8(content@) ==> (r matches Ok(res) && parsed_resource(res, spec_read(decode_utf8(content@)))),
    {
        Parser::parse(self, content)
    }

    fn capabilities(&self) -> (c: FormatCapabilities)
        ensures
            c == spec_capabilities(),
    {
        Parser::capabilities(self)
    }
}

} // verus!
