//! INI files: `[section]` headers, `key = value` or `key: value` lines and
//! `;` or `#` comments; plural forms are sibling keys with a category suffix.
use vstd::prelude::*;
use indexmap::IndexMap;
use crate::collections::{
    entry_map_pairs, entry_map_new, entry_map_insert, map_insert, map_get, pairs_model, lemma_pairs_model_insert,
    count_map_pairs, cat_pairs_view, group_of, key_index, lemma_key_index, sec_map_pairs, sec_push, sec_map_new,
    sec_map_push, sec_map_len, sec_map_get_index, entry_map_len, entry_map_get_index, str_map_pairs, str_map_get_index,
};
use crate::ir::{
    I18nResource, I18nEntry, ResourceMetadata, FormatId, EntryValue, Comment, FormatCapabilities, FormatExtension,
    IniExt, PluralSet,
};
use crate::text::{
    str_chars, string_of, trim, trim_chars, lines, split_lines, utf8_error_message, str_eq, index_of, find_char,
    lemma_index_of, chars_range, string_views, starts_with, chars_start_with, concat_all, lemma_concat_all_step,
    lemma_concat_all_full, join, join_strings, push_chars,
};
use vstd::utf8::{valid_utf8, decode_utf8, encode_utf8};
use super::{clone_opt, Confidence, ParseError, WriteError, opt_view, PluralView, plural_put, plural_set_view, put_plural, general_comments, general_comment};
use super::java_properties::nonempty_texts;
use super::plural_keys::{
    Group, GroupView, groups_view, spec_plan, plan_groups, group_fold, plural_part, single_part, Bases, has_other,
    included,
};
pub use super::plural_keys::strip_plural_suffix;

verus! {

pub struct Parser;

pub struct Writer;

// ---------------------------------------------------------------------------
// Lines
// ---------------------------------------------------------------------------

/// The key, value and delimiter of a line split at the first `d`, when the
/// key is not empty.
pub open spec fn kv_at(l: Seq<char>, d: char) -> Option<(Seq<char>, Seq<char>, char)> {
    match index_of(l, d) {
        Some(p) => if trim(l.take(p)).len() > 0 {
            Some((trim(l.take(p)), trim(l.skip(p + 1)), d))
        } else {
            None
        },
        None => None,
    }
}

/// A key/value line: split at the first `=`, else at the first `:`.
pub open spec fn spec_split_kv(l: Seq<char>) -> Option<(Seq<char>, Seq<char>, char)> {
    if kv_at(l, '=') is Some {
        kv_at(l, '=')
    } else {
        kv_at(l, ':')
    }
}

fn kv_at_chars(l: &[char], d: char) -> (r: Option<(Vec<char>, Vec<char>, char)>)
    ensures
        match r {
            Some(x) => kv_at(l@, d) == Some((x.0@, x.1@, x.2)),
            None => kv_at(l@, d) is None,
        },
{
    proof {
        lemma_index_of(l@, d);
    }
    match find_char(l, d) {
        Some(p) => {
            assert(l@.len() == l.len());
            let before = chars_range(l, 0, p);
            let after = chars_range(l, p + 1, l.len());
            assert(before@ == l@.take(p as int));
            assert(after@ == l@.skip(p + 1));
            let k = trim_chars(before.as_slice());
            if k.len() > 0 {
                Some((k, trim_chars(after.as_slice()), d))
            } else {
                None
            }
        },
        None => None,
    }
}

fn split_kv_chars(l: &[char]) -> (r: Option<(Vec<char>, Vec<char>, char)>)
    ensures
        match r {
            Some(x) => spec_split_kv(l@) == Some((x.0@, x.1@, x.2)),
            None => spec_split_kv(l@) is None,
        },
{
    let r = kv_at_chars(l, '=');
    if r.is_some() {
        return r;
    }
    kv_at_chars(l, ':')
}

/// Splits a line into key, value and delimiter: at the first `=`, else at
/// the first `:`, when the key before it is not empty.
pub fn split_ini_kv(line: &str) -> (r: Option<(String, String, char)>)
    ensures
        match r {
            Some(x) => spec_split_kv(line@) == Some((x.0@, x.1@, x.2)),
            None => spec_split_kv(line@) is None,
        },
{
    let chars = str_chars(line);
    match split_kv_chars(chars.as_slice()) {
        Some((k, v, d)) => Some((string_of(k.as_slice()), string_of(v.as_slice()), d)),
        None => None,
    }
}

/// The full key of a key in a section: `section.key`.
pub open spec fn spec_full_key(section: Option<Seq<char>>, key: Seq<char>) -> Seq<char> {
    match section {
        Some(s) => s + seq!['.'] + key,
        None => key,
    }
}

/// Builds the full key from section and key name.
pub fn make_full_key(section: &Option<String>, key: &str) -> (r: String)
    ensures
        r@ == spec_full_key(opt_view(*section), key@),
{
    match section {
        Some(sec) => {
            let mut r = sec.clone();
            r.push('.');
            r.append(key);
            r
        },
        None => key.to_owned(),
    }
}

// ---------------------------------------------------------------------------
// Reading
// ---------------------------------------------------------------------------

/// One key/value line read: its section, key, value, the comments before
/// it with their comment characters, and its delimiter.
pub type IniRaw = (Option<Seq<char>>, Seq<char>, Seq<char>, Seq<(Seq<char>, char)>, char);

/// The read lines, the current section, the waiting comments, and the first
/// delimiter and comment character seen.
pub type IniState = (Seq<IniRaw>, Option<Seq<char>>, Seq<(Seq<char>, char)>, Option<char>, Option<char>);

/// The text of a comment line: after the comment character and one space.
pub open spec fn comment_body(t: Seq<char>) -> Seq<char> {
    let x = t.skip(1);
    if x.len() > 0 && x[0] == ' ' {
        x.skip(1)
    } else {
        x
    }
}

/// One line: a blank line drops waiting comments; a comment waits; a
/// `[section]` header changes the section and drops waiting comments; a
/// key/value line takes the waiting comments; other lines change nothing.
pub open spec fn ini_step(st: IniState, line: Seq<char>) -> IniState {
    let t = trim(line);
    if t.len() == 0 {
        (st.0, st.1, Seq::empty(), st.3, st.4)
    } else if t[0] == ';' || t[0] == '#' {
        (st.0, st.1, st.2.push((comment_body(t), t[0])), st.3, if st.4 is None { Some(t[0]) } else { st.4 })
    } else if t[0] == '[' && index_of(t, ']') is Some {
        (st.0, Some(trim(t.subrange(1, index_of(t, ']').unwrap()))), Seq::empty(), st.3, st.4)
    } else {
        match spec_split_kv(t) {
            Some((k, v, d)) => (
                st.0.push((st.1, k, v, st.2, d)),
                st.1,
                Seq::empty(),
                if st.3 is None { Some(d) } else { st.3 },
                st.4,
            ),
            None => st,
        }
    }
}

pub open spec fn ini_fold(ls: Seq<Seq<char>>) -> IniState
    decreases ls.len(),
{
    if ls.len() == 0 {
        (Seq::empty(), None, Seq::empty(), None, None)
    } else {
        ini_step(ini_fold(ls.drop_last()), ls.last())
    }
}

pub open spec fn spec_read(content: Seq<char>) -> IniState {
    ini_fold(lines(content))
}

pub open spec fn raw_keys(raws: Seq<IniRaw>) -> Seq<Seq<char>> {
    raws.map_values(|r: IniRaw| spec_full_key(r.0, r.1))
}

/// One key/value line as read, before grouping.
pub struct RawEntry {
    pub section: Option<String>,
    pub key: String,
    pub value: String,
    pub comments: Vec<(String, char)>,
    pub delimiter: char,
}

pub open spec fn pairs_view(v: Seq<(String, char)>) -> Seq<(Seq<char>, char)> {
    v.map_values(|p: (String, char)| (p.0@, p.1))
}

pub open spec fn raw_view(r: RawEntry) -> IniRaw {
    (opt_view(r.section), r.key@, r.value@, pairs_view(r.comments@), r.delimiter)
}

pub open spec fn raws_view(v: Seq<RawEntry>) -> Seq<IniRaw> {
    v.map_values(|r: RawEntry| raw_view(r))
}


/// Reads the lines of INI text into raw entries.
pub fn read_lines(content: &str) -> (r: (Vec<RawEntry>, Option<char>, Option<char>))
    ensures
        raws_view(r.0@) == spec_read(content@).0,
        r.1 == spec_read(content@).3,
        r.2 == spec_read(content@).4,
{
    let chars = str_chars(content);
    let ls = split_lines(chars.as_slice());
    let ghost lv = ls@.map_values(|l: Vec<char>| l@);
    let mut raws: Vec<RawEntry> = Vec::new();
    let mut section: Option<String> = None;
    let mut pending: Vec<(String, char)> = Vec::new();
    let mut first_delim: Option<char> = None;
    let mut first_cc: Option<char> = None;
    let mut i: usize = 0;
    while i < ls.len()
        invariant
            i <= ls@.len(),
            lv == ls@.map_values(|l: Vec<char>| l@),
            lv == lines(content@),
            ini_fold(lv.take(i as int)) == (raws_view(raws@), opt_view(section), pairs_view(pending@), first_delim, first_cc),
        decreases ls@.len() - i,
    {
        assert(lv.take(i + 1).drop_last() == lv.take(i as int));
        assert(lv.take(i + 1).last() == ls@[i as int]@);
        let t = trim_chars(ls[i].as_slice());
        proof {
            lemma_index_of(t@, ']');
        }
        if t.len() == 0 {
            pending = Vec::new();
            assert(pairs_view(pending@) =~= Seq::<(Seq<char>, char)>::empty());
        } else if t[0] == ';' || t[0] == '#' {
            let ch = t[0];
            if first_cc.is_none() {
                first_cc = Some(ch);
            }
            let body = if t.len() > 1 && t[1] == ' ' {
                chars_range(t.as_slice(), 2, t.len())
            } else {
                chars_range(t.as_slice(), 1, t.len())
            };
            assert(body@ == comment_body(t@));
            let ghost before = pairs_view(pending@);
            pending.push((string_of(body.as_slice()), ch));
            assert(pairs_view(pending@) == before.push((comment_body(t@), ch)));
        } else if t[0] == '[' && find_char(t.as_slice(), ']').is_some() {
            let end = find_char(t.as_slice(), ']').unwrap();
            assert(t@.len() == t.len());
            let name = chars_range(t.as_slice(), 1, end);
            section = Some(string_of(trim_chars(name.as_slice()).as_slice()));
            pending = Vec::new();
            assert(pairs_view(pending@) =~= Seq::<(Seq<char>, char)>::empty());
        } else {
            match split_kv_chars(t.as_slice()) {
                Some((k, v, d)) => {
                    if first_delim.is_none() {
                        first_delim = Some(d);
                    }
                    let mut comments: Vec<(String, char)> = Vec::new();
                    std::mem::swap(&mut comments, &mut pending);
                    let raw = RawEntry {
                        section: clone_opt(&section),
                        key: string_of(k.as_slice()),
                        value: string_of(v.as_slice()),
                        comments,
                        delimiter: d,
                    };
                    let ghost before = raws_view(raws@);
                    raws.push(raw);
                    assert(raws_view(raws@) == before.push(raw_view(raw)));
                    assert(pairs_view(pending@) =~= Seq::<(Seq<char>, char)>::empty());
                },
                None => {},
            }
        }
        i = i + 1;
    }
    assert(lv.take(ls@.len() as int) == lv);
    (raws, first_delim, first_cc)
}

// ---------------------------------------------------------------------------
// Grouping
// ---------------------------------------------------------------------------

/// The plural forms of a group, each from the value of its line.
pub open spec fn group_plural(ms: Seq<(Seq<char>, usize)>, raws: Seq<IniRaw>) -> PluralView
    decreases ms.len(),
{
    if ms.len() == 0 {
        (None, None, None, None, None, Seq::empty())
    } else {
        plural_put(group_plural(ms.drop_last(), raws), ms.last().0, raws[ms.last().1 as int].2)
    }
}

/// The comments of a group: those of its first line that has any.
pub open spec fn group_comments(ms: Seq<(Seq<char>, usize)>, raws: Seq<IniRaw>) -> Seq<Seq<char>>
    decreases ms.len(),
{
    if ms.len() == 0 {
        Seq::empty()
    } else {
        let acc = group_comments(ms.drop_last(), raws);
        if acc.len() == 0 {
            nonempty_texts(raws[ms.last().1 as int].3)
        } else {
            acc
        }
    }
}

/// The section of a group: that of its first line that has one.
pub open spec fn group_section(ms: Seq<(Seq<char>, usize)>, raws: Seq<IniRaw>) -> Option<Seq<char>>
    decreases ms.len(),
{
    if ms.len() == 0 {
        None
    } else {
        let acc = group_section(ms.drop_last(), raws);
        if acc is None {
            raws[ms.last().1 as int].0
        } else {
            acc
        }
    }
}

pub open spec fn ini_ext_is(e: I18nEntry, section: Option<Seq<char>>, delimiter: char) -> bool {
    e.format_ext matches Some(FormatExtension::Ini(x)) && opt_view(x.section) == section && x.delimiter == Some(delimiter)
        && x.comment_char is None
}

/// The entry built for a planned group.
pub open spec fn ini_entry(e: I18nEntry, g: GroupView, raws: Seq<IniRaw>) -> bool {
    &&& I18nEntry::spec_bare(e)
    &&& match g {
        GroupView::Plural(b, ms) => {
            &&& e.key@ == b
            &&& e.value matches EntryValue::Plural(ps) && plural_set_view(ps) == group_plural(ms, raws)
                && count_map_pairs(ps.exact_matches).len() == 0 && ps.range_matches@.len() == 0 && !ps.ordinal
            &&& general_comments(e.comments@, group_comments(ms, raws))
            &&& ini_ext_is(e, group_section(ms, raws), raws[ms.last().1 as int].4)
        },
        GroupView::Single(i) => {
            &&& e.key@ == spec_full_key(raws[i as int].0, raws[i as int].1)
            &&& e.value matches EntryValue::Simple(s) && s@ == raws[i as int].2
            &&& general_comments(e.comments@, nonempty_texts(raws[i as int].3))
            &&& ini_ext_is(e, raws[i as int].0, raws[i as int].4)
        },
    }
}

pub open spec fn ini_rel(raws: Seq<IniRaw>) -> spec_fn(I18nEntry, GroupView) -> bool {
    |e: I18nEntry, g: GroupView| ini_entry(e, g, raws)
}

pub open spec fn group_key(g: GroupView, raws: Seq<IniRaw>) -> Seq<char> {
    match g {
        GroupView::Plural(b, _) => b,
        GroupView::Single(i) => spec_full_key(raws[i as int].0, raws[i as int].1),
    }
}

/// The entries of a plan, each inserted under its key in turn.
pub open spec fn entries_model(plan: Seq<GroupView>, raws: Seq<IniRaw>) -> Seq<(Seq<char>, GroupView)>
    decreases plan.len(),
{
    if plan.len() == 0 {
        Seq::empty()
    } else {
        map_insert(entries_model(plan.drop_last(), raws), group_key(plan.last(), raws), plan.last())
    }
}

/// Every index a plan names is a line, and every plural group has a line.
pub open spec fn plan_ok(plan: Seq<GroupView>, n: nat) -> bool {
    forall|j: int| 0 <= j < plan.len() ==> match #[trigger] plan[j] {
        GroupView::Plural(_, ms) => ms.len() > 0 && forall|m: int| 0 <= m < ms.len() ==> (#[trigger] ms[m]).1 < n,
        GroupView::Single(i) => i < n,
    }
}

pub proof fn lemma_map_insert_elems<K, V>(s: Seq<(K, V)>, k: K, v: V)
    ensures
        forall|j: int| 0 <= j < map_insert(s, k, v).len() ==> (#[trigger] map_insert(s, k, v)[j] == (k, v) || (j < s.len() && map_insert(s, k, v)[j] == s[j])),
{
    lemma_key_index(s, k);
}

/// Every index stored in the groups of a list of keys is below its length.
pub open spec fn bases_ok(b: Bases, n: nat) -> bool {
    forall|g: int, m: int| 0 <= g < b.len() && 0 <= m < b[g].1.len() ==> (#[trigger] b[g].1[m]).1 < n
}

pub proof fn lemma_group_fold_ok(keys: Seq<Seq<char>>)
    ensures
        bases_ok(group_fold(keys), keys.len()),
    decreases keys.len(),
{
    if keys.len() > 0 {
        let b = group_fold(keys.drop_last());
        lemma_group_fold_ok(keys.drop_last());
        match crate::formats::plural_keys::spec_strip_plural_suffix(keys.last()) {
            Some((base, cat)) => {
                let inner = map_insert(group_of(b, base), cat, (keys.len() - 1) as usize);
                lemma_map_insert_elems(group_of(b, base), cat, (keys.len() - 1) as usize);
                lemma_map_insert_elems(b, base, inner);
                lemma_key_index(b, base);
                let nb = map_insert(b, base, inner);
                assert forall|g: int, m: int| 0 <= g < nb.len() && 0 <= m < nb[g].1.len() implies (#[trigger] nb[g].1[m]).1 < keys.len() by {
                    if nb[g] == (base, inner) {
                        if inner[m] != (cat, (keys.len() - 1) as usize) {
                            let gi = key_index(b, base);
                            assert(gi >= 0);
                            assert(group_of(b, base) == b[gi].1);
                            assert(inner[m] == b[gi].1[m]);
                        }
                    } else {
                        assert(nb[g] == b[g]);
                    }
                }
            },
            None => {},
        }
    }
}

pub proof fn lemma_plural_part_ok(b: Bases, n: nat)
    requires
        bases_ok(b, n),
    ensures
        plan_ok(plural_part(b), n),
    decreases b.len(),
{
    if b.len() > 0 {
        let last = b.last();
        assert(bases_ok(b.drop_last(), n)) by {
            assert forall|g: int, m: int| 0 <= g < b.drop_last().len() && 0 <= m < b.drop_last()[g].1.len() implies (#[trigger] b.drop_last()[g].1[m]).1 < n by {
                assert(b.drop_last()[g] == b[g]);
            }
        }
        lemma_plural_part_ok(b.drop_last(), n);
        if has_other(last.1) {
            lemma_key_index(last.1, "other"@);
            assert(b[b.len() - 1] == last);
            assert forall|m: int| 0 <= m < last.1.len() implies (#[trigger] last.1[m]).1 < n by {
                assert(b[b.len() - 1].1[m] == last.1[m]);
            }
        }
        let p = plural_part(b);
        assert forall|j: int| 0 <= j < p.len() implies match #[trigger] p[j] {
            GroupView::Plural(_, ms) => ms.len() > 0 && forall|m: int| 0 <= m < ms.len() ==> (#[trigger] ms[m]).1 < n,
            GroupView::Single(i) => i < n,
        } by {
            if j < plural_part(b.drop_last()).len() {
                assert(p[j] == plural_part(b.drop_last())[j]);
            }
        }
    }
}

pub proof fn lemma_single_part_ok(keys: Seq<Seq<char>>, b: Bases, k: int)
    requires
        k <= keys.len(),
    ensures
        plan_ok(single_part(keys, b, k), keys.len()),
    decreases k,
{
    if k > 0 {
        lemma_single_part_ok(keys, b, k - 1);
        let p = single_part(keys, b, k);
        assert forall|j: int| 0 <= j < p.len() implies match #[trigger] p[j] {
            GroupView::Plural(_, ms) => ms.len() > 0 && forall|m: int| 0 <= m < ms.len() ==> (#[trigger] ms[m]).1 < keys.len(),
            GroupView::Single(i) => i < keys.len(),
        } by {
            if j < single_part(keys, b, k - 1).len() {
                assert(p[j] == single_part(keys, b, k - 1)[j]);
            }
        }
    }
}

pub proof fn lemma_plan_ok(keys: Seq<Seq<char>>)
    ensures
        plan_ok(spec_plan(keys), keys.len()),
{
    let b = group_fold(keys);
    lemma_group_fold_ok(keys);
    lemma_plural_part_ok(b, keys.len());
    lemma_single_part_ok(keys, b, keys.len() as int);
    let p1 = plural_part(b);
    let p2 = single_part(keys, b, keys.len() as int);
    let p = p1 + p2;
    assert forall|j: int| 0 <= j < p.len() implies match #[trigger] p[j] {
        GroupView::Plural(_, ms) => ms.len() > 0 && forall|m: int| 0 <= m < ms.len() ==> (#[trigger] ms[m]).1 < keys.len(),
        GroupView::Single(i) => i < keys.len(),
    } by {
        if j < p1.len() {
            assert(p[j] == p1[j]);
        } else {
            assert(p[j] == p2[j - p1.len()]);
        }
    }
}


fn comments_of_pairs(cs: &Vec<(String, char)>) -> (r: Vec<Comment>)
    ensures
        general_comments(r@, nonempty_texts(pairs_view(cs@))),
{
    let ghost cv = pairs_view(cs@);
    let mut r: Vec<Comment> = Vec::new();
    let mut i: usize = 0;
    while i < cs.len()
        invariant
            i <= cs@.len(),
            cv == pairs_view(cs@),
            general_comments(r@, nonempty_texts(cv.take(i as int))),
        decreases cs@.len() - i,
    {
        assert(cv.take(i + 1).drop_last() == cv.take(i as int));
        assert(cv.take(i + 1).last() == cv[i as int]);
        if !cs[i].0.as_str().is_empty() {
            assert(cs@[i as int].0@.len() > 0);
            r.push(general_comment(cs[i].0.clone()));
        } else {
            assert(cs@[i as int].0@.len() == 0);
        }
        i = i + 1;
    }
    assert(cv.take(cs@.len() as int) == cv);
    r
}

fn plural_entry(raws: &Vec<RawEntry>, base: &String, ms: &Vec<(String, usize)>) -> (e: I18nEntry)
    requires
        ms@.len() > 0,
        forall|m: int| 0 <= m < ms@.len() ==> (#[trigger] ms@[m]).1 < raws@.len(),
    ensures
        ini_entry(e, GroupView::Plural(base@, cat_pairs_view(ms@)), raws_view(raws@)),
{
    let ghost rv = raws_view(raws@);
    let ghost mv = cat_pairs_view(ms@);
    let mut ps = PluralSet::default();
    let mut comments: Vec<Comment> = Vec::new();
    let mut section: Option<String> = None;
    let mut delimiter: char = '=';
    let mut j: usize = 0;
    assert(mv.take(0) =~= Seq::<(Seq<char>, usize)>::empty());
    while j < ms.len()
        invariant
            j <= ms@.len(),
            rv == raws_view(raws@),
            mv == cat_pairs_view(ms@),
            forall|m: int| 0 <= m < ms@.len() ==> (#[trigger] ms@[m]).1 < raws@.len(),
            plural_set_view(ps) == group_plural(mv.take(j as int), rv),
            count_map_pairs(ps.exact_matches).len() == 0,
            ps.range_matches@.len() == 0,
            !ps.ordinal,
            general_comments(comments@, group_comments(mv.take(j as int), rv)),
            opt_view(section) == group_section(mv.take(j as int), rv),
            j > 0 ==> delimiter == rv[mv[j - 1].1 as int].4,
        decreases ms@.len() - j,
    {
        assert(mv.take(j + 1).drop_last() == mv.take(j as int));
        assert(mv.take(j + 1).last() == mv[j as int]);
        let idx = ms[j].1;
        assert(idx < raws@.len());
        let raw = &raws[idx];
        assert(rv[idx as int] == raw_view(*raw));
        if section.is_none() {
            section = clone_opt(&raw.section);
        }
        delimiter = raw.delimiter;
        put_plural(&mut ps, ms[j].0.as_str(), raw.value.clone());
        if comments.len() == 0 {
            comments = comments_of_pairs(&raw.comments);
        }
        j = j + 1;
    }
    assert(mv.take(ms@.len() as int) == mv);
    let mut e = I18nEntry::with_value(base.clone(), EntryValue::Plural(ps));
    e.comments = comments;
    e.format_ext = Some(FormatExtension::Ini(IniExt { section, delimiter: Some(delimiter), comment_char: None }));
    e
}

fn single_entry(raws: &Vec<RawEntry>, i: usize) -> (e: I18nEntry)
    requires
        i < raws@.len(),
    ensures
        ini_entry(e, GroupView::Single(i), raws_view(raws@)),
{
    let raw = &raws[i];
    assert(raws_view(raws@)[i as int] == raw_view(*raw));
    let key = make_full_key(&raw.section, raw.key.as_str());
    let mut e = I18nEntry::with_value(key, EntryValue::Simple(raw.value.clone()));
    e.comments = comments_of_pairs(&raw.comments);
    e.format_ext = Some(FormatExtension::Ini(IniExt { section: clone_opt(&raw.section), delimiter: Some(raw.delimiter), comment_char: None }));
    e
}

/// Builds the entries of a plan: each group's entry under its key, in order.
pub fn build_entries(raws: &Vec<RawEntry>, plan: &Vec<Group>) -> (r: IndexMap<String, I18nEntry>)
    requires
        plan_ok(groups_view(plan@), raws@.len()),
    ensures
        pairs_model(entry_map_pairs(r), entries_model(groups_view(plan@), raws_view(raws@)), ini_rel(raws_view(raws@))),
{
    let ghost rv = raws_view(raws@);
    let ghost pv = groups_view(plan@);
    let mut entries = entry_map_new();
    let mut i: usize = 0;
    while i < plan.len()
        invariant
            i <= plan@.len(),
            rv == raws_view(raws@),
            pv == groups_view(plan@),
            plan_ok(pv, raws@.len()),
            pairs_model(entry_map_pairs(entries), entries_model(pv.take(i as int), rv), ini_rel(rv)),
        decreases plan@.len() - i,
    {
        assert(pv.take(i + 1).drop_last() == pv.take(i as int));
        assert(pv.take(i + 1).last() == pv[i as int]);
        let ghost g = pv[i as int];
        let e = match &plan[i] {
            Group::Plural(b, ms) => {
                assert(g == GroupView::Plural(b@, cat_pairs_view(ms@)));
                assert forall|m: int| 0 <= m < ms@.len() implies (#[trigger] ms@[m]).1 < raws@.len() by {
                    assert(cat_pairs_view(ms@)[m].1 == ms@[m].1);
                }
                plural_entry(raws, b, ms)
            },
            Group::Single(k) => single_entry(raws, *k),
        };
        let key = e.key.clone();
        assert(key@ == group_key(g, rv));
        proof {
            lemma_pairs_model_insert(entry_map_pairs(entries), entries_model(pv.take(i as int), rv), ini_rel(rv), key@, e, g);
        }
        entry_map_insert(&mut entries, key, e);
        i = i + 1;
    }
    assert(pv.take(plan@.len() as int) == pv);
    entries
}

/// What a resource read from INI text holds.
pub open spec fn parsed_resource(res: I18nResource, st: IniState) -> bool {
    &&& ResourceMetadata::spec_plain_except_ext(res.metadata, FormatId::Ini)
    &&& res.metadata.format_ext == Some(FormatExtension::Ini(IniExt { section: None, delimiter: st.3, comment_char: st.4 }))
    &&& pairs_model(entry_map_pairs(res.entries), entries_model(spec_plan(raw_keys(st.0)), st.0), ini_rel(st.0))
}

/// Parses INI text: reads the lines, then groups suffixed plural keys.
pub fn parse_ini_content(content: &str) -> (r: Result<I18nResource, ParseError>)
    ensures
        r matches Ok(res) && parsed_resource(res, spec_read(content@)),
{
    let (raws, first_delim, first_cc) = read_lines(content);
    let ghost rv = raws_view(raws@);
    let mut keys: Vec<String> = Vec::new();
    let mut i: usize = 0;
    while i < raws.len()
        invariant
            i <= raws@.len(),
            rv == raws_view(raws@),
            string_views(keys@) == raw_keys(rv).take(i as int),
        decreases raws@.len() - i,
    {
        let k = make_full_key(&raws[i].section, raws[i].key.as_str());
        let ghost before = string_views(keys@);
        keys.push(k);
        assert(string_views(keys@) == before.push(k@));
        assert(raw_keys(rv).take(i + 1) == raw_keys(rv).take(i as int).push(raw_keys(rv)[i as int]));
        i = i + 1;
    }
    assert(raw_keys(rv).take(raws@.len() as int) == raw_keys(rv));
    let plan = plan_groups(&keys);
    proof {
        lemma_plan_ok(raw_keys(rv));
    }
    let entries = build_entries(&raws, &plan);
    let mut metadata = ResourceMetadata::for_format(FormatId::Ini);
    metadata.format_ext = Some(FormatExtension::Ini(IniExt { section: None, delimiter: first_delim, comment_char: first_cc }));
    Ok(I18nResource { metadata, entries })
}


// ---------------------------------------------------------------------------
// Writing
// ---------------------------------------------------------------------------

/// The section an entry is written in: that of its INI extension, else the
/// part of its key before the first `.`, else none.
pub open spec fn entry_section(key: Seq<char>, e: I18nEntry) -> Option<Seq<char>> {
    match e.format_ext {
        Some(FormatExtension::Ini(x)) => opt_view(x.section),
        _ => match index_of(key, '.') {
            Some(d) => Some(key.take(d)),
            None => None,
        },
    }
}

/// The entries grouped by section: each section, in order of its first
/// entry, with the indexes of its entries.
pub open spec fn sec_fold(es: Seq<(Seq<char>, I18nEntry)>) -> Seq<(Option<Seq<char>>, Seq<usize>)>
    decreases es.len(),
{
    if es.len() == 0 {
        Seq::empty()
    } else {
        sec_push(sec_fold(es.drop_last()), entry_section(es.last().0, es.last().1), (es.len() - 1) as usize)
    }
}

pub open spec fn default_delim(res: I18nResource) -> char {
    match res.metadata.format_ext {
        Some(FormatExtension::Ini(x)) => match x.delimiter {
            Some(d) => d,
            None => '=',
        },
        _ => '=',
    }
}

pub open spec fn entry_delim(e: I18nEntry, dd: char) -> char {
    match e.format_ext {
        Some(FormatExtension::Ini(x)) => match x.delimiter {
            Some(d) => d,
            None => dd,
        },
        _ => dd,
    }
}

/// The key within its section: without the `section.` prefix when it has it.
pub open spec fn local_key(sec: Option<Seq<char>>, key: Seq<char>) -> Seq<char> {
    match sec {
        Some(s) => if starts_with(key, s + seq!['.']) {
            key.skip(s.len() + 1 as int)
        } else {
            key
        },
        None => key,
    }
}

/// `key d value` and a new line.
pub open spec fn kv_line(k: Seq<char>, d: char, v: Seq<char>) -> Seq<char> {
    k + seq![' ', d, ' '] + v + seq!['\n']
}

pub open spec fn opt_line(k: Seq<char>, d: char, v: Option<String>) -> Seq<char> {
    match v {
        Some(x) => kv_line(k, d, x@),
        None => Seq::empty(),
    }
}

/// The lines of a value: one line, or one per plural form with the form's
/// suffix on the key.
pub open spec fn value_lines(k: Seq<char>, d: char, v: EntryValue) -> Seq<char> {
    match v {
        EntryValue::Simple(s) => kv_line(k, d, s@),
        EntryValue::Plural(ps) => opt_line(k + "_zero"@, d, ps.zero) + opt_line(k + "_one"@, d, ps.one) + opt_line(
            k + "_two"@,
            d,
            ps.two,
        ) + opt_line(k + "_few"@, d, ps.few) + opt_line(k + "_many"@, d, ps.many) + kv_line(k + "_other"@, d, ps.other@),
        EntryValue::Array(a) => kv_line(k, d, join(string_views(a@), ", "@)),
        EntryValue::Select(ss) => kv_line(
            k,
            d,
            if str_map_pairs(ss.cases).len() > 0 {
                str_map_pairs(ss.cases)[0].1
            } else {
                Seq::empty()
            },
        ),
        EntryValue::MultiVariablePlural(m) => kv_line(k, d, m.pattern@),
    }
}

pub open spec fn ini_comment() -> spec_fn(Comment) -> Seq<char> {
    |c: Comment| "# "@ + c.text@ + "\n"@
}

/// An entry's lines: its comments, then its value.
pub open spec fn entry_lines(sec: Option<Seq<char>>, key: Seq<char>, e: I18nEntry, dd: char) -> Seq<char> {
    concat_all(e.comments@, ini_comment()) + value_lines(local_key(sec, key), entry_delim(e, dd), e.value)
}

pub open spec fn idx_text(es: Seq<(Seq<char>, I18nEntry)>, sec: Option<Seq<char>>, dd: char) -> spec_fn(usize) -> Seq<char> {
    |i: usize| entry_lines(sec, es[i as int].0, es[i as int].1, dd)
}

/// A section: a blank line before all but the first, its `[name]` header
/// when it has a name, and the lines of its entries.
pub open spec fn section_text(es: Seq<(Seq<char>, I18nEntry)>, sec: (Option<Seq<char>>, Seq<usize>), first: bool, dd: char) -> Seq<char> {
    (if first { Seq::empty() } else { "\n"@ }) + (match sec.0 {
        Some(s) => "["@ + s + "]\n"@,
        None => Seq::empty(),
    }) + concat_all(sec.1, idx_text(es, sec.0, dd))
}

pub open spec fn sections_text(es: Seq<(Seq<char>, I18nEntry)>, secs: Seq<(Option<Seq<char>>, Seq<usize>)>, n: int, dd: char) -> Seq<char>
    decreases n,
{
    if n <= 0 {
        Seq::empty()
    } else {
        sections_text(es, secs, n - 1, dd) + section_text(es, secs[n - 1], n - 1 == 0, dd)
    }
}

/// The INI text of a resource.
pub open spec fn spec_write(res: I18nResource) -> Seq<char> {
    let es = entry_map_pairs(res.entries);
    let secs = sec_fold(es);
    sections_text(es, secs, secs.len() as int, default_delim(res))
}

pub open spec fn secs_ok(secs: Seq<(Option<Seq<char>>, Seq<usize>)>, n: nat) -> bool {
    forall|g: int, m: int| 0 <= g < secs.len() && 0 <= m < secs[g].1.len() ==> (#[trigger] secs[g].1[m]) < n
}

pub proof fn lemma_sec_fold_ok(es: Seq<(Seq<char>, I18nEntry)>)
    ensures
        secs_ok(sec_fold(es), es.len()),
    decreases es.len(),
{
    if es.len() > 0 {
        let s = sec_fold(es.drop_last());
        lemma_sec_fold_ok(es.drop_last());
        let k = entry_section(es.last().0, es.last().1);
        lemma_key_index(s, k);
        let ns = sec_fold(es);
        assert forall|g: int, m: int| 0 <= g < ns.len() && 0 <= m < ns[g].1.len() implies (#[trigger] ns[g].1[m]) < es.len() by {
            let j = key_index(s, k);
            if j >= 0 && g == j {
                if m < s[j].1.len() {
                    assert(ns[g].1[m] == s[j].1[m]);
                }
            } else if g < s.len() {
                assert(ns[g] == s[g]);
            }
        }
    }
}

fn entry_section_exec(key: &String, e: &I18nEntry) -> (r: Option<String>)
    ensures
        opt_view(r) == entry_section(key@, *e),
{
    match &e.format_ext {
        Some(FormatExtension::Ini(x)) => clone_opt(&x.section),
        _ => {
            let chars = str_chars(key.as_str());
            proof {
                lemma_index_of(chars@, '.');
            }
            match find_char(chars.as_slice(), '.') {
                Some(d) => {
                    let head = chars_range(chars.as_slice(), 0, d);
                    assert(head@ == chars@.take(d as int));
                    Some(string_of(head.as_slice()))
                },
                None => None,
            }
        },
    }
}

fn local_key_exec(sec: &Option<String>, key: &String) -> (r: String)
    ensures
        r@ == local_key(opt_view(*sec), key@),
{
    match sec {
        Some(s) => {
            let mut prefix = s.clone();
            prefix.push('.');
            assert(prefix@ =~= s@ + seq!['.']);
            let pc = str_chars(prefix.as_str());
            let kc = str_chars(key.as_str());
            if chars_start_with(kc.as_slice(), pc.as_slice()) {
                let rest = chars_range(kc.as_slice(), pc.len(), kc.len());
                assert(rest@ == key@.skip(s@.len() + 1 as int));
                string_of(rest.as_slice())
            } else {
                key.clone()
            }
        },
        None => key.clone(),
    }
}

fn push_kv_line(out: &mut String, k: &str, d: char, v: &str)
    ensures
        final(out)@ == old(out)@ + kv_line(k@, d, v@),
{
    let ghost start = out@;
    out.append(k);
    out.push(' ');
    out.push(d);
    out.push(' ');
    out.append(v);
    out.push('\n');
    assert(out@ =~= start + kv_line(k@, d, v@));
}

fn push_opt_line(out: &mut String, k: &String, suffix: &str, d: char, v: &Option<String>)
    ensures
        final(out)@ == old(out)@ + opt_line(k@ + suffix@, d, *v),
{
    match v {
        Some(x) => {
            let mut key = k.clone();
            key.append(suffix);
            push_kv_line(out, key.as_str(), d, x.as_str());
        },
        None => {},
    }
}

fn write_value_lines(out: &mut String, k: &String, d: char, v: &EntryValue)
    ensures
        final(out)@ == old(out)@ + value_lines(k@, d, *v),
{
    let ghost start = out@;
    match v {
        EntryValue::Simple(s) => push_kv_line(out, k.as_str(), d, s.as_str()),
        EntryValue::Plural(ps) => {
            push_opt_line(out, k, "_zero", d, &ps.zero);
            push_opt_line(out, k, "_one", d, &ps.one);
            push_opt_line(out, k, "_two", d, &ps.two);
            push_opt_line(out, k, "_few", d, &ps.few);
            push_opt_line(out, k, "_many", d, &ps.many);
            let mut key = k.clone();
            key.append("_other");
            push_kv_line(out, key.as_str(), d, ps.other.as_str());
        },
        EntryValue::Array(a) => push_kv_line(out, k.as_str(), d, join_strings(a, ", ").as_str()),
        EntryValue::Select(ss) => match str_map_get_index(&ss.cases, 0) {
            Some((_, c)) => push_kv_line(out, k.as_str(), d, c.as_str()),
            None => push_kv_line(out, k.as_str(), d, String::new().as_str()),
        },
        EntryValue::MultiVariablePlural(m) => push_kv_line(out, k.as_str(), d, m.pattern.as_str()),
    }
    assert(out@ =~= start + value_lines(k@, d, *v));
}

fn write_entry_lines(out: &mut String, sec: &Option<String>, key: &String, e: &I18nEntry, dd: char)
    ensures
        final(out)@ == old(out)@ + entry_lines(opt_view(*sec), key@, *e, dd),
{
    let ghost start = out@;
    let mut i: usize = 0;
    while i < e.comments.len()
        invariant
            i <= e.comments@.len(),
            out@ == start + concat_all(e.comments@.take(i as int), ini_comment()),
        decreases e.comments@.len() - i,
    {
        proof {
            lemma_concat_all_step(e.comments@, i as int, ini_comment());
        }
        out.append("# ");
        out.append(e.comments[i].text.as_str());
        out.append("\n");
        i = i + 1;
    }
    proof {
        lemma_concat_all_full(e.comments@, ini_comment());
    }
    let d = match &e.format_ext {
        Some(FormatExtension::Ini(x)) => match x.delimiter {
            Some(d) => d,
            None => dd,
        },
        _ => dd,
    };
    let local = local_key_exec(sec, key);
    write_value_lines(out, &local, d, &e.value);
}

/// Writes a resource as INI text, its entries grouped by section.
pub fn write_ini(resource: &I18nResource) -> (s: String)
    ensures
        s@ == spec_write(*resource),
{
    let dd = match &resource.metadata.format_ext {
        Some(FormatExtension::Ini(x)) => match x.delimiter {
            Some(d) => d,
            None => '=',
        },
        _ => '=',
    };
    let ghost es = entry_map_pairs(resource.entries);
    let n = entry_map_len(&resource.entries);
    let mut sections = sec_map_new();
    let mut i: usize = 0;
    while i < n
        invariant
            i <= n,
            n == es.len(),
            es == entry_map_pairs(resource.entries),
            sec_map_pairs(sections) == sec_fold(es.take(i as int)),
        decreases n - i,
    {
        assert(es.take(i + 1).drop_last() == es.take(i as int));
        assert(es.take(i + 1).last() == es[i as int]);
        match entry_map_get_index(&resource.entries, i) {
            Some((k, e)) => {
                let sec = entry_section_exec(k, e);
                sec_map_push(&mut sections, sec, i);
            },
            None => {},
        }
        i = i + 1;
    }
    assert(es.take(n as int) == es);
    let ghost secs = sec_map_pairs(sections);
    proof {
        lemma_sec_fold_ok(es);
    }
    let mut out = String::new();
    let m = sec_map_len(&sections);
    let mut j: usize = 0;
    while j < m
        invariant
            j <= m,
            m == secs.len(),
            secs == sec_map_pairs(sections),
            secs_ok(secs, es.len()),
            n == es.len(),
            es == entry_map_pairs(resource.entries),
            dd == default_delim(*resource),
            out@ == sections_text(es, secs, j as int, dd),
        decreases m - j,
    {
        match sec_map_get_index(&sections, j) {
            Some((sec, idxs)) => {
                let ghost start = out@;
                if j > 0 {
                    out.append("\n");
                }
                match &sec {
                    Some(name) => {
                        out.append("[");
                        out.append(name.as_str());
                        out.append("]\n");
                    },
                    None => {},
                }
                let ghost head = out@;
                let mut k: usize = 0;
                while k < idxs.len()
                    invariant
                        k <= idxs@.len(),
                        idxs@ == secs[j as int].1,
                        opt_view(sec) == secs[j as int].0,
                        secs_ok(secs, es.len()),
                        j < secs.len(),
                        n == es.len(),
                        es == entry_map_pairs(resource.entries),
                        out@ == head + concat_all(idxs@.take(k as int), idx_text(es, opt_view(sec), dd)),
                    decreases idxs@.len() - k,
                {
                    proof {
                        lemma_concat_all_step(idxs@, k as int, idx_text(es, opt_view(sec), dd));
                    }
                    let ix = idxs[k];
                    assert(secs[j as int].1[k as int] < es.len());
                    match entry_map_get_index(&resource.entries, ix) {
                        Some((key, e)) => write_entry_lines(&mut out, &sec, key, e, dd),
                        None => {},
                    }
                    k = k + 1;
                }
                proof {
                    lemma_concat_all_full(idxs@, idx_text(es, opt_view(sec), dd));
                }
                assert(out@ =~= start + section_text(es, secs[j as int], j == 0, dd));
            },
            None => {},
        }
        j = j + 1;
    }
    out
}

pub open spec fn spec_capabilities() -> FormatCapabilities {
    FormatCapabilities { plurals: true, comments: true, nested_keys: true, ..FormatCapabilities::spec_none() }
}

/// A line that is a `[section]` header.
pub open spec fn is_section_line(l: Seq<char>) -> bool {
    let t = trim(l);
    t.len() > 0 && t[0] == '[' && t.last() == ']'
}

/// A line that holds `=` and is no comment or header.
pub open spec fn is_kv_line(l: Seq<char>) -> bool {
    let t = trim(l);
    t.len() > 0 && t[0] != '#' && t[0] != ';' && t[0] != '[' && t.contains('=')
}

/// Text with a section header and a key/value line.
pub open spec fn looks_like_ini(s: Seq<char>) -> bool {
    (exists|i: int| 0 <= i < lines(s).len() && is_section_line(#[trigger] lines(s)[i]))
        && (exists|i: int| 0 <= i < lines(s).len() && is_kv_line(#[trigger] lines(s)[i]))
}

fn looks_like_ini_exec(s: &str) -> (r: bool)
    ensures
        r == looks_like_ini(s@),
{
    let chars = str_chars(s);
    let ls = split_lines(chars.as_slice());
    let ghost lv = ls@.map_values(|l: Vec<char>| l@);
    assert(lv == lines(s@));
    let mut has_section = false;
    let mut has_kv = false;
    let mut i: usize = 0;
    while i < ls.len()
        invariant
            i <= ls@.len(),
            lv == ls@.map_values(|l: Vec<char>| l@),
            lv == lines(s@),
            has_section == exists|j: int| 0 <= j < i && is_section_line(#[trigger] lv[j]),
            has_kv == exists|j: int| 0 <= j < i && is_kv_line(#[trigger] lv[j]),
        decreases ls@.len() - i,
    {
        let t = trim_chars(ls[i].as_slice());
        assert(lv[i as int] == ls@[i as int]@);
        let n = t.len();
        if n > 0 && t[0] == '[' && t[n - 1] == ']' {
            has_section = true;
        }
        if n > 0 && t[0] != '#' && t[0] != ';' && t[0] != '[' && crate::text::chars_contain_char(t.as_slice(), '=') {
            has_kv = true;
        }
        i = i + 1;
    }
    has_section && has_kv
}

/// How sure this format is that it can read a file with the extension and
/// content.
pub open spec fn spec_detect(extension: Seq<char>, content: Seq<u8>) -> Confidence {
    if extension == ".ini"@ {
        Confidence::Definite
    } else if valid_utf8(content) && looks_like_ini(decode_utf8(content)) {
        Confidence::High
    } else {
        Confidence::NoMatch
    }
}

impl Parser {
    /// `.ini` is certain; UTF-8 text with a section header and a key/value
    /// line is likely.
    pub fn detect(&self, extension: &str, content: &[u8]) -> (c: Confidence)
        ensures
            c == spec_detect(extension@, content@),
    {
        if str_eq(extension, ".ini") {
            return Confidence::Definite;
        }
        match std::str::from_utf8(content) {
            Ok(s) => if looks_like_ini_exec(s) {
                Confidence::High
            } else {
                Confidence::NoMatch
            },
            Err(_) => Confidence::NoMatch,
        }
    }

    /// Parses UTF-8 INI content.
    pub fn parse(&self, content: &[u8]) -> (r: Result<I18nResource, ParseError>)
        ensures
            !valid_utf8(content@) ==> r matches Err(ParseError::InvalidFormat(_)),
            valid_utf8(content@) ==> (r matches Ok(res) && parsed_resource(res, spec_read(decode_utf8(content@)))),
    {
        match std::str::from_utf8(content) {
            Ok(text) => parse_ini_content(text),
            Err(e) => Err(ParseError::InvalidFormat(utf8_error_message(&e))),
        }
    }

    pub fn capabilities(&self) -> (c: FormatCapabilities)
        ensures
            c == spec_capabilities(),
    {
        FormatCapabilities { plurals: true, comments: true, nested_keys: true, ..FormatCapabilities::default() }
    }
}

impl Writer {
    /// Writes the resource as UTF-8 INI text.
    pub fn write(&self, resource: &I18nResource) -> (r: Result<Vec<u8>, WriteError>)
        ensures
            r matches Ok(b) && b@ == encode_utf8(spec_write(*resource)),
    {
        let out = write_ini(resource);
        Ok(crate::text::string_bytes(&out))
    }

    pub fn capabilities(&self) -> (c: FormatCapabilities)
        ensures
            c == spec_capabilities(),
    {
        Parser.capabilities()
    }
}

impl super::FormatParser for Parser {
    fn detect(&self, extension: &str, content: &[u8]) -> (c: Confidence)
        ensures
            c == spec_detect(extension@, content@),
    {
        Parser::detect(self, extension, content)
    }

    fn parse(&self, content: &[u8]) -> (r: Result<I18nResource, ParseError>)
        ensures
            !valid_utf8(content@) ==> r matches Err(ParseError::InvalidFormat(_)),
            valid_utf8(content@) ==> (r matches Ok(res) && parsed_resource(res, spec_read(decode_utf8(content@)))),
    {
        Parser::parse(self, content)
    }

    fn capabilities(&self) -> (c: FormatCapabilities)
        ensures
            c == spec_capabilities(),
    {
        Parser::capabilities(self)
    }
}

impl super::FormatWriter for Writer {
    fn write(&self, resource: &I18nResource) -> (r: Result<Vec<u8>, WriteError>)
        ensures
            r matches Ok(b) && b@ == encode_utf8(spec_write(*resource)),
    {
        Writer::write(self, resource)
    }

    fn capabilities(&self) -> (c: FormatCapabilities)
        ensures
            c == spec_capabilities(),
    {
        Writer::capabilities(self)
    }
}

} // verus!
