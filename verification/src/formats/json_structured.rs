//! Structured JSON: nested objects whose string, number and boolean leaves
//! are entries under dotted keys.
use vstd::prelude::*;
use indexmap::IndexMap;
use crate::collections::{
    entry_map_pairs, entry_map_new, entry_map_insert, map_insert, map_get, pairs_model, lemma_pairs_model_insert,
    entry_map_len, entry_map_get_index, str_map_pairs, str_map_get, key_index, lemma_key_index,
};
use crate::ir::{I18nResource, I18nEntry, ResourceMetadata, FormatId, EntryValue, FormatCapabilities};
use crate::json::{
    JsonValue, JsonView, json_view, members_view, members_view_upto, lemma_members_view, json_read, parse_json,
    json_pretty, to_pretty, obj_find, obj_insert, take_member, lemma_members_view_update,
};
use crate::text::{
    str_chars, string_of, str_eq, str_contains, contains, trim_start, trim_start_chars, split_char, split_at_char,
    utf8_error_message, string_views, join, join_strings, string_bytes,
};
use vstd::utf8::{valid_utf8, decode_utf8, encode_utf8};
use super::{Confidence, ParseError, WriteError, text_entry, text_rel, text_entry_exec};
use super::plural_keys::ends_with;

verus! {

pub struct Parser;

pub struct Writer;

// ---------------------------------------------------------------------------
// Reading
// ---------------------------------------------------------------------------

/// A key under a prefix: `prefix.key`, or the key alone under no prefix.
pub open spec fn join_key(prefix: Seq<char>, key: Seq<char>) -> Seq<char> {
    if prefix.len() == 0 {
        key
    } else {
        prefix + seq!['.'] + key
    }
}

/// The text of a leaf: a string, a number's text, `true` or `false`; null
/// and arrays have none.
pub open spec fn scalar_text(v: JsonView) -> Option<Seq<char>> {
    match v {
        JsonView::Str(s) => Some(s),
        JsonView::Number(n) => Some(n),
        JsonView::Bool(b) => Some(if b { "true"@ } else { "false"@ }),
        _ => None,
    }
}

/// The entries of the first `n` members under `prefix`, added to `acc`:
/// nested objects by their members, leaves with a text under their dotted key.
pub open spec fn flatten_upto(
    m: Seq<(Seq<char>, JsonView)>,
    n: int,
    prefix: Seq<char>,
    acc: Seq<(Seq<char>, (Seq<char>, Seq<char>))>,
) -> Seq<(Seq<char>, (Seq<char>, Seq<char>))>
    decreases m, n,
{
    if n <= 0 || n > m.len() {
        acc
    } else {
        let acc1 = flatten_upto(m, n - 1, prefix, acc);
        let full = join_key(prefix, m[n - 1].0);
        proof {
            assert(decreases_to!(m => m[n - 1]));
        }
        match m[n - 1].1 {
            JsonView::Object(sub) => flatten_upto(sub, sub.len() as int, full, acc1),
            v => match scalar_text(v) {
                Some(t) => map_insert(acc1, full, (full, t)),
                None => acc1,
            },
        }
    }
}

pub open spec fn flatten(m: Seq<(Seq<char>, JsonView)>) -> Seq<(Seq<char>, (Seq<char>, Seq<char>))> {
    flatten_upto(m, m.len() as int, Seq::empty(), Seq::empty())
}

fn join_key_exec(prefix: &String, key: &String) -> (r: String)
    ensures
        r@ == join_key(prefix@, key@),
{
    if prefix.as_str().is_empty() {
        key.clone()
    } else {
        let mut r = prefix.clone();
        r.push('.');
        r.append(key.as_str());
        assert(r@ =~= prefix@ + seq!['.'] + key@);
        r
    }
}

/// Adds the entries of an object's members under `prefix`.
fn flatten_object(
    m: &Vec<(String, JsonValue)>,
    prefix: &String,
    entries: &mut IndexMap<String, I18nEntry>,
    Ghost(acc): Ghost<Seq<(Seq<char>, (Seq<char>, Seq<char>))>>,
)
    requires
        pairs_model(entry_map_pairs(*old(entries)), acc, text_rel()),
    ensures
        pairs_model(
            entry_map_pairs(*final(entries)),
            flatten_upto(members_view(m@), m@.len() as int, prefix@, acc),
            text_rel(),
        ),
    decreases m@,
{
    let ghost mv = members_view(m@);
    proof {
        lemma_members_view(m@, m@.len() as int);
    }
    let mut i: usize = 0;
    while i < m.len()
        invariant
            i <= m@.len(),
            mv == members_view(m@),
            mv.len() == m@.len(),
            forall|j: int| 0 <= j < m@.len() ==> #[trigger] mv[j] == (m@[j].0@, json_view(m@[j].1)),
            pairs_model(entry_map_pairs(*entries), flatten_upto(mv, i as int, prefix@, acc), text_rel()),
        decreases m@.len() - i,
    {
        let ghost before = flatten_upto(mv, i as int, prefix@, acc);
        let full = join_key_exec(prefix, &m[i].0);
        assert(mv[i as int] == (m@[i as int].0@, json_view(m@[i as int].1)));
        match &m[i].1 {
            JsonValue::Object(sub) => {
                assert(decreases_to!(m@ => m@[i as int]));
                proof {
                    lemma_members_view(sub@, sub@.len() as int);
                }
                flatten_object(sub, &full, entries, Ghost(before));
            },
            JsonValue::Str(s) => {
                let e = text_entry_exec(full.clone(), s.clone());
                proof {
                    lemma_pairs_model_insert(entry_map_pairs(*entries), before, text_rel(), full@, e, (full@, s@));
                }
                entry_map_insert(entries, full, e);
            },
            JsonValue::Number(n) => {
                let e = text_entry_exec(full.clone(), n.clone());
                proof {
                    lemma_pairs_model_insert(entry_map_pairs(*entries), before, text_rel(), full@, e, (full@, n@));
                }
                entry_map_insert(entries, full, e);
            },
            JsonValue::Bool(b) => {
                let t = if *b { "true".to_owned() } else { "false".to_owned() };
                let e = text_entry_exec(full.clone(), t.clone());
                proof {
                    lemma_pairs_model_insert(entry_map_pairs(*entries), before, text_rel(), full@, e, (full@, t@));
                }
                entry_map_insert(entries, full, e);
            },
            _ => {},
        }
        i = i + 1;
    }
}

/// What reading a JSON text gives: the entries of its root object, an
/// error for a text that is not JSON or whose root is no object.
pub open spec fn parse_ok(r: Result<I18nResource, ParseError>, s: Seq<char>) -> bool {
    match json_read(s) {
        None => r matches Err(ParseError::Json(_)),
        Some(JsonView::Object(m)) => r matches Ok(res) && ResourceMetadata::spec_plain(
            res.metadata,
            FormatId::JsonStructured,
        ) && pairs_model(entry_map_pairs(res.entries), flatten(m), text_rel()),
        Some(_) => r matches Err(ParseError::InvalidFormat(_)),
    }
}

/// Parses structured JSON text.
pub fn parse_structured(s: &str) -> (r: Result<I18nResource, ParseError>)
    ensures
        parse_ok(r, s@),
{
    match parse_json(s) {
        Ok(JsonValue::Object(m)) => {
            proof {
                lemma_members_view(m@, m@.len() as int);
            }
            let mut entries = entry_map_new();
            let prefix = String::new();
            assert(prefix@ == Seq::<char>::empty());
            flatten_object(&m, &prefix, &mut entries, Ghost(Seq::empty()));
            Ok(I18nResource { metadata: ResourceMetadata::for_format(FormatId::JsonStructured), entries })
        },
        Ok(_) => Err(ParseError::InvalidFormat("Root must be a JSON object".to_owned())),
        Err(e) => Err(ParseError::Json(e)),
    }
}

// ---------------------------------------------------------------------------
// Detection
// ---------------------------------------------------------------------------

/// A key `base_other` whose object also holds `base_one`, `base_zero`,
/// `base_many`, `base_few` or `base_two`.
pub open spec fn pair_at(keys: Seq<Seq<char>>, k: Seq<char>) -> bool {
    ends_with(k, "_other"@) && {
        let base = k.take(k.len() - 6);
        keys.contains(base + "_one"@) || keys.contains(base + "_zero"@) || keys.contains(base + "_many"@)
            || keys.contains(base + "_few"@) || keys.contains(base + "_two"@)
    }
}

pub open spec fn member_keys(m: Seq<(Seq<char>, JsonView)>) -> Seq<Seq<char>> {
    m.map_values(|p: (Seq<char>, JsonView)| p.0)
}

/// Some object, at any depth among the first `n` members, has a plural
/// key pair.
pub open spec fn has_pairs_upto(m: Seq<(Seq<char>, JsonView)>, n: int) -> bool
    decreases m, n,
{
    if n <= 0 || n > m.len() {
        false
    } else {
        proof {
            assert(decreases_to!(m => m[n - 1]));
        }
        has_pairs_upto(m, n - 1) || pair_at(member_keys(m), m[n - 1].0) || match m[n - 1].1 {
            JsonView::Object(sub) => has_pairs_upto(sub, sub.len() as int),
            _ => false,
        }
    }
}

fn keys_contain(m: &Vec<(String, JsonValue)>, k: &String) -> (r: bool)
    ensures
        r == member_keys(members_view(m@)).contains(k@),
{
    let ghost ks = member_keys(members_view(m@));
    proof {
        lemma_members_view(m@, m@.len() as int);
    }
    let mut i: usize = 0;
    while i < m.len()
        invariant
            i <= m@.len(),
            ks == member_keys(members_view(m@)),
            ks.len() == m@.len(),
            forall|j: int| 0 <= j < m@.len() ==> #[trigger] ks[j] == m@[j].0@,
            forall|j: int| 0 <= j < i ==> ks[j] != k@,
        decreases m@.len() - i,
    {
        if str_eq(m[i].0.as_str(), k.as_str()) {
            assert(ks[i as int] == k@);
            return true;
        }
        i = i + 1;
    }
    false
}

fn sibling(base: &[char], suffix: &str) -> (r: String)
    ensures
        r@ == base@ + suffix@,
{
    let mut r = string_of(base);
    r.append(suffix);
    r
}

fn pair_at_exec(m: &Vec<(String, JsonValue)>, k: &String) -> (r: bool)
    ensures
        r == pair_at(member_keys(members_view(m@)), k@),
{
    let c = str_chars(k.as_str());
    let sfx = str_chars("_other");
    proof {
        reveal_strlit("_other");
    }
    let n = c.len();
    if n >= 6 && crate::text::matches_at(c.as_slice(), sfx.as_slice(), n - 6) {
        assert(k@.skip(n - 6) =~= k@.subrange(n - 6, n as int));
        let base = crate::text::chars_range(c.as_slice(), 0, n - 6);
        assert(base@ == k@.take(n - 6));
        keys_contain(m, &sibling(base.as_slice(), "_one")) || keys_contain(m, &sibling(base.as_slice(), "_zero"))
            || keys_contain(m, &sibling(base.as_slice(), "_many")) || keys_contain(m, &sibling(base.as_slice(), "_few"))
            || keys_contain(m, &sibling(base.as_slice(), "_two"))
    } else {
        proof {
            if ends_with(k@, "_other"@) {
                assert(k@.skip(n - 6) =~= k@.subrange(n - 6, n as int));
            }
        }
        false
    }
}

/// Whether `k` is a plural key with a sibling among the object's keys.
pub fn pair_at_public(m: &Vec<(String, JsonValue)>, k: &String) -> (r: bool)
    ensures
        r == pair_at(member_keys(members_view(m@)), k@),
{
    pair_at_exec(m, k)
}

/// Whether an object, at any depth, has a plural key pair.
fn has_plural_key_pairs(m: &Vec<(String, JsonValue)>) -> (r: bool)
    ensures
        r == has_pairs_upto(members_view(m@), m@.len() as int),
    decreases m@,
{
    let ghost mv = members_view(m@);
    proof {
        lemma_members_view(m@, m@.len() as int);
    }
    let mut found = false;
    let mut i: usize = 0;
    while i < m.len()
        invariant
            i <= m@.len(),
            mv == members_view(m@),
            mv.len() == m@.len(),
            forall|j: int| 0 <= j < m@.len() ==> #[trigger] mv[j] == (m@[j].0@, json_view(m@[j].1)),
            found == has_pairs_upto(mv, i as int),
        decreases m@.len() - i,
    {
        assert(mv[i as int] == (m@[i as int].0@, json_view(m@[i as int].1)));
        let here = pair_at_exec(m, &m[i].0);
        let deeper = match &m[i].1 {
            JsonValue::Object(sub) => {
                assert(decreases_to!(m@ => m@[i as int]));
                proof {
                    lemma_members_view(sub@, sub@.len() as int);
                }
                has_plural_key_pairs(sub)
            },
            _ => false,
        };
        found = found || here || deeper;
        i = i + 1;
    }
    found
}

/// The detection of a structured JSON text.
pub open spec fn spec_detect(extension: Seq<char>, content: Seq<u8>) -> Confidence {
    if extension != ".json"@ || !valid_utf8(content) {
        Confidence::NoMatch
    } else {
        let s = decode_utf8(content);
        if contains(s, "\"@@locale\""@) {
            Confidence::NoMatch
        } else if contains(s, "\"sourceLanguage\""@) && contains(s, "\"strings\""@) {
            Confidence::NoMatch
        } else if json_read(s) matches Some(JsonView::Object(_)) {
            if has_pairs_upto(json_read(s)->Some_0->Object_0, json_read(s)->Some_0->Object_0.len() as int) {
                Confidence::NoMatch
            } else {
                Confidence::High
            }
        } else if trim_start(s).len() > 0 && trim_start(s)[0] == '{' {
            Confidence::Low
        } else {
            Confidence::NoMatch
        }
    }
}

pub open spec fn spec_capabilities() -> FormatCapabilities {
    FormatCapabilities { nested_keys: true, ..FormatCapabilities::spec_none() }
}

impl Parser {
    /// `.json` that is not ARB, not a string catalog and has no i18next
    /// plural pairs: likely when it is a JSON object, a low guess when it
    /// only starts like one.
    pub fn detect(&self, extension: &str, content: &[u8]) -> (c: Confidence)
        ensures
            c == spec_detect(extension@, content@),
    {
        if !str_eq(extension, ".json") {
            return Confidence::NoMatch;
        }
        let s = match std::str::from_utf8(content) {
            Ok(s) => s,
            Err(_) => return Confidence::NoMatch,
        };
        if str_contains(s, "\"@@locale\"") {
            return Confidence::NoMatch;
        }
        if str_contains(s, "\"sourceLanguage\"") && str_contains(s, "\"strings\"") {
            return Confidence::NoMatch;
        }
        match parse_json(s) {
            Ok(JsonValue::Object(m)) => {
                proof {
                    lemma_members_view(m@, m@.len() as int);
                }
                if has_plural_key_pairs(&m) {
                    return Confidence::NoMatch;
                }
                return Confidence::High;
            },
            _ => {},
        }
        let chars = str_chars(s);
        let t = trim_start_chars(chars.as_slice());
        if t.len() > 0 && t[0] == '{' {
            Confidence::Low
        } else {
            Confidence::NoMatch
        }
    }

    /// Parses UTF-8 structured JSON.
    pub fn parse(&self, content: &[u8]) -> (r: Result<I18nResource, ParseError>)
        ensures
            !valid_utf8(content@) ==> r matches Err(ParseError::InvalidFormat(_)),
            valid_utf8(content@) ==> parse_ok(r, decode_utf8(content@)),
    {
        match std::str::from_utf8(content) {
            Ok(text) => parse_structured(text),
            Err(e) => Err(ParseError::InvalidFormat(utf8_error_message(&e))),
        }
    }

    pub fn capabilities(&self) -> (c: FormatCapabilities)
        ensures
            c == spec_capabilities(),
    {
        FormatCapabilities { nested_keys: true, ..FormatCapabilities::default() }
    }
}


// ---------------------------------------------------------------------------
// Writing
// ---------------------------------------------------------------------------

/// The text written for a value: a simple text, the `other` form of a
/// plural, the items of an array joined by `, `, the `other` case of a
/// select, the pattern of a multi-variable plural.
pub open spec fn struct_text(v: EntryValue) -> Seq<char> {
    match v {
        EntryValue::Simple(s) => s@,
        EntryValue::Plural(ps) => ps.other@,
        EntryValue::Array(a) => join(string_views(a@), ", "@),
        EntryValue::Select(ss) => match map_get(str_map_pairs(ss.cases), "other"@) {
            Some(t) => t,
            None => Seq::empty(),
        },
        EntryValue::MultiVariablePlural(m) => m.pattern@,
    }
}

/// Inserts `v` under the path `parts`: each step into the member of that
/// name, made an object when missing, and an object holding the old value as
/// `_content` when it is no object.
pub open spec fn nest_insert(m: Seq<(Seq<char>, JsonView)>, parts: Seq<Seq<char>>, v: JsonView) -> Seq<(Seq<char>, JsonView)>
    decreases parts.len(),
{
    if parts.len() <= 1 {
        map_insert(m, parts[0], v)
    } else {
        let child = match map_get(m, parts[0]) {
            Some(JsonView::Object(c)) => c,
            Some(other) => seq![("_content"@, other)],
            None => Seq::empty(),
        };
        map_insert(m, parts[0], JsonView::Object(nest_insert(child, parts.drop_first(), v)))
    }
}

/// Inserts `v` under a dotted key; a key without dots whose member is an
/// object puts `v` in it as `_content`.
pub open spec fn insert_top(root: Seq<(Seq<char>, JsonView)>, key: Seq<char>, v: JsonView) -> Seq<(Seq<char>, JsonView)> {
    let parts = split_char(key, '.');
    if parts.len() == 1 {
        match map_get(root, key) {
            Some(JsonView::Object(c)) => map_insert(root, key, JsonView::Object(map_insert(c, "_content"@, v))),
            _ => map_insert(root, key, v),
        }
    } else {
        nest_insert(root, parts, v)
    }
}

/// The root object built from the entries, in order.
pub open spec fn build_root(ps: Seq<(Seq<char>, I18nEntry)>) -> Seq<(Seq<char>, JsonView)>
    decreases ps.len(),
{
    if ps.len() == 0 {
        Seq::empty()
    } else {
        insert_top(build_root(ps.drop_last()), ps.last().1.key@, JsonView::Str(struct_text(ps.last().1.value)))
    }
}

/// The bytes with a new line at the end unless they end with one.
pub open spec fn with_newline(b: Seq<u8>) -> Seq<u8> {
    if b.len() > 0 && b.last() == 10u8 {
        b
    } else {
        b.push(10u8)
    }
}

pub proof fn lemma_key_index_update(mv: Seq<(Seq<char>, JsonView)>, i: int, x: JsonView, k: Seq<char>)
    requires
        0 <= i < mv.len(),
    ensures
        key_index(mv.update(i, (mv[i].0, x)), k) == key_index(mv, k),
{
    let u = mv.update(i, (mv[i].0, x));
    assert forall|j: int| 0 <= j < u.len() implies (#[trigger] u[j]).0 == mv[j].0 by {}
    crate::collections::lemma_key_index_same(u, mv, k);
}

/// Takes member `i` out of `m` and gives the object to descend into: its
/// members when it is an object, `_content` holding it otherwise.
fn descend(m: &mut Vec<(String, JsonValue)>, i: usize) -> (c: Vec<(String, JsonValue)>)
    requires
        i < old(m)@.len(),
    ensures
        final(m)@ == old(m)@.update(i as int, (old(m)@[i as int].0, JsonValue::Null)),
        members_view(c@) == match json_view(old(m)@[i as int].1) {
            JsonView::Object(x) => x,
            other => seq![("_content"@, other)],
        },
{
    let x = take_member(m, i);
    match x {
        JsonValue::Object(c) => c,
        other => {
            let c = vec![("_content".to_owned(), other)];
            proof {
                lemma_members_view(c@, 1);
                assert(members_view(c@) =~= seq![("_content"@, json_view(c@[0].1))]);
            }
            c
        },
    }
}

pub fn nest_insert_exec(m: &mut Vec<(String, JsonValue)>, parts: &Vec<String>, start: usize, v: JsonValue)
    requires
        start < parts@.len(),
    ensures
        members_view(final(m)@) == nest_insert(members_view(old(m)@), string_views(parts@).skip(start as int), json_view(v)),
    decreases parts@.len() - start,
{
    let ghost pv = string_views(parts@).skip(start as int);
    assert(pv[0] == parts@[start as int]@);
    if start >= parts.len() - 1 {
        obj_insert(m, parts[start].clone(), v);
        return;
    }
    assert(pv.drop_first() == string_views(parts@).skip(start + 1));
    let key = parts[start].clone();
    let ghost mv = members_view(m@);
    proof {
        lemma_members_view(m@, m@.len() as int);
        lemma_key_index(mv, key@);
    }
    let mut child: Vec<(String, JsonValue)> = match obj_find(m, key.as_str()) {
        Some(i) => {
            assert(mv[i as int] == (m@[i as int].0@, json_view(m@[i as int].1)));
            let ghost before = m@;
            let c = descend(m, i);
            proof {
                lemma_members_view_update(before, i as int, (before[i as int].0, JsonValue::Null));
                lemma_key_index_update(mv, i as int, JsonView::Null, key@);
                assert(mv.update(i as int, (mv[i as int].0, JsonView::Null)) == members_view(m@));
            }
            c
        },
        None => Vec::new(),
    };
    nest_insert_exec(&mut child, parts, start + 1, v);
    obj_insert(m, key, JsonValue::Object(child));
    proof {
        lemma_members_view(child@, child@.len() as int);
    }
    assert(members_view(m@) =~= nest_insert(mv, pv, json_view(v)));
}

/// The parts of a dotted key, split at each `.`.
pub fn key_parts(key: &String) -> (parts: Vec<String>)
    ensures
        string_views(parts@) == split_char(key@, '.'),
{
    let kc = str_chars(key.as_str());
    let pieces = split_at_char(kc.as_slice(), '.');
    let ghost pcv = pieces@.map_values(|l: Vec<char>| l@);
    let mut parts: Vec<String> = Vec::new();
    let mut i: usize = 0;
    while i < pieces.len()
        invariant
            i <= pieces@.len(),
            pcv == pieces@.map_values(|l: Vec<char>| l@),
            string_views(parts@) == pcv.take(i as int),
        decreases pieces@.len() - i,
    {
        let ghost before = string_views(parts@);
        parts.push(string_of(pieces[i].as_slice()));
        assert(string_views(parts@) == before.push(pcv[i as int]));
        assert(pcv.take(i + 1) == pcv.take(i as int).push(pcv[i as int]));
        i = i + 1;
    }
    assert(pcv.take(pieces@.len() as int) == pcv);
    assert(string_views(parts@) == split_char(key@, '.'));
    parts
}

fn insert_top_exec(root: &mut Vec<(String, JsonValue)>, key: &String, v: JsonValue)
    ensures
        members_view(final(root)@) == insert_top(members_view(old(root)@), key@, json_view(v)),
{
    let parts = key_parts(key);
    let ghost mv = members_view(root@);
    proof {
        lemma_members_view(root@, root@.len() as int);
        lemma_key_index(mv, key@);
    }
    if parts.len() == 1 {
        match obj_find(root, key.as_str()) {
            Some(i) => {
                assert(mv[i as int] == (root@[i as int].0@, json_view(root@[i as int].1)));
                let is_obj = match &root[i].1 {
                    JsonValue::Object(_) => true,
                    _ => false,
                };
                if is_obj {
                    let ghost before = root@;
                    let mut c = descend(root, i);
                    proof {
                        lemma_members_view_update(before, i as int, (before[i as int].0, JsonValue::Null));
                        lemma_key_index_update(mv, i as int, JsonView::Null, key@);
                        assert(mv.update(i as int, (mv[i as int].0, JsonView::Null)) == members_view(root@));
                    }
                    obj_insert(&mut c, "_content".to_owned(), v);
                    obj_insert(root, key.clone(), JsonValue::Object(c));
                    proof {
                        lemma_members_view(c@, c@.len() as int);
                    }
                    assert(members_view(root@) =~= insert_top(mv, key@, json_view(v)));
                } else {
                    obj_insert(root, key.clone(), v);
                }
            },
            None => obj_insert(root, key.clone(), v),
        }
    } else {
        assert(string_views(parts@).skip(0) == string_views(parts@));
        nest_insert_exec(root, &parts, 0, v);
    }
}

pub fn struct_text_exec(v: &EntryValue) -> (r: String)
    ensures
        r@ == struct_text(*v),
{
    match v {
        EntryValue::Simple(s) => s.clone(),
        EntryValue::Plural(ps) => ps.other.clone(),
        EntryValue::Array(a) => join_strings(a, ", "),
        EntryValue::Select(ss) => match str_map_get(&ss.cases, "other") {
            Some(t) => t.clone(),
            None => String::new(),
        },
        EntryValue::MultiVariablePlural(m) => m.pattern.clone(),
    }
}

/// The bytes written for a resource when `serde_json` serializes its root
/// object.
pub open spec fn spec_write(res: I18nResource) -> Seq<u8> {
    with_newline(encode_utf8(json_pretty(JsonView::Object(build_root(entry_map_pairs(res.entries))))))
}

/// Builds the root object of a resource.
pub fn build_root_exec(resource: &I18nResource) -> (root: Vec<(String, JsonValue)>)
    ensures
        members_view(root@) == build_root(entry_map_pairs(resource.entries)),
{
    let ghost ps = entry_map_pairs(resource.entries);
    let n = entry_map_len(&resource.entries);
    let mut root: Vec<(String, JsonValue)> = Vec::new();
    proof {
        lemma_members_view(root@, 0);
    }
    assert(members_view(root@) =~= Seq::<(Seq<char>, JsonView)>::empty());
    let mut i: usize = 0;
    while i < n
        invariant
            i <= n,
            n == ps.len(),
            ps == entry_map_pairs(resource.entries),
            members_view(root@) == build_root(ps.take(i as int)),
        decreases n - i,
    {
        assert(ps.take(i + 1).drop_last() == ps.take(i as int));
        assert(ps.take(i + 1).last() == ps[i as int]);
        match entry_map_get_index(&resource.entries, i) {
            Some((_k, e)) => {
                let text = struct_text_exec(&e.value);
                insert_top_exec(&mut root, &e.key, JsonValue::Str(text));
            },
            None => {},
        }
        i = i + 1;
    }
    assert(ps.take(n as int) == ps);
    root
}

impl Writer {
    /// Writes the resource as pretty JSON with a final new line; fails only
    /// when `serde_json` cannot serialize the object.
    pub fn write(&self, resource: &I18nResource) -> (r: Result<Vec<u8>, WriteError>)
        ensures
            r matches Ok(b) ==> b@ == spec_write(*resource),
            r is Ok,
            r matches Err(e) ==> e is Serialization,
    {
        let root = build_root_exec(resource);
        let v = JsonValue::Object(root);
        match to_pretty(&v) {
            Ok(text) => {
                let mut out = string_bytes(&text);
                let n = out.len();
                if !(n > 0 && out[n - 1] == 10u8) {
                    out.push(10u8);
                }
                Ok(out)
            },
            Err(e) => Err(WriteError::Serialization(e)),
        }
    }

    pub fn capabilities(&self) -> (c: FormatCapabilities)
        ensures
            c == spec_capabilities(),
    {
        Parser.capabilities()
    }
}

impl super::FormatParser for Parser {
    fn detect(&self, extension: &str, content: &[u8]) -> (c: Confidence)
        ensures
            c == spec_detect(extension@, content@),
    {
        Parser::detect(self, extension, content)
    }

    fn parse(&self, content: &[u8]) -> (r: Result<I18nResource, ParseError>)
        ensures
            !valid_utf8(content@) ==> r matches Err(ParseError::InvalidFormat(_)),
            valid_utf8(content@) ==> parse_ok(r, decode_utf8(content@)),
    {
        Parser::parse(self, content)
    }

    fn capabilities(&self) -> (c: FormatCapabilities)
        ensures
            c == spec_capabilities(),
    {
        Parser::capabilities(self)
    }
}

impl super::FormatWriter for Writer {
    fn write(&self, resource: &I18nResource) -> (r: Result<Vec<u8>, WriteError>)
        ensures
            r matches Ok(b) ==> b@ == spec_write(*resource),
            r is Ok,
            r matches Err(e) ==> e is Serialization,
    {
        Writer::write(self, resource)
    }

    fn capabilities(&self) -> (c: FormatCapabilities)
        ensures
            c == spec_capabilities(),
    {
        Writer::capabilities(self)
    }
}

} // verus!
