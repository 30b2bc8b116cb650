//! i18next JSON: nested objects of strings whose keys carry plural suffixes
//! (`_one`, `_other`, `_ordinal_one`, ...).
use vstd::prelude::*;
use indexmap::IndexMap;
use crate::collections::{
    entry_map_pairs, entry_map_new, entry_map_insert, map_insert, map_get, pairs_model, lemma_pairs_model_insert,
    entry_map_len, entry_map_get_index, str_map_pairs, str_map_new, str_map_insert, str_map_len, str_map_get_index,
    str_map_get, count_map_pairs, key_index, lemma_key_index,
};
use crate::ir::{
    I18nResource, I18nEntry, ResourceMetadata, FormatId, EntryValue, FormatCapabilities, PluralSet, Placeholder,
    PlaceholderType,
};
use crate::json::{
    JsonValue, JsonView, json_view, members_view, lemma_members_view, json_read, parse_json, json_pretty, json_compact,
    to_pretty, to_compact, obj_find, obj_insert, take_member, lemma_members_view_update, items_view_upto,
    lemma_items_view,
};
use crate::pattern::{regex_split, pieces_view, regex_capture_split};
use crate::text::{
    str_chars, string_of, str_eq, str_contains, contains, trim, trim_chars, split_char, split_at_char,
    utf8_error_message, string_views, string_bytes,
};
use vstd::utf8::{valid_utf8, decode_utf8, encode_utf8};
use super::{Confidence, ParseError, WriteError, opt_view, PluralView, plural_put, plural_set_view, put_plural};
use super::plural_keys::{strip_base, strip_base_exec, opt_str_view, ends_with};
use super::json_structured::{join_key, pair_at, member_keys};

verus! {

pub struct Parser;

pub struct Writer;

/// A CLDR plural category.
#[derive(Debug, Clone, Copy, PartialEq, Eq, Structural)]
pub enum PluralCategory {
    Zero,
    One,
    Two,
    Few,
    Many,
    Other,
}

/// The base key and category of a key with a cardinal plural suffix; the
/// suffixes are tried in the order zero, one, two, few, many, other.
pub open spec fn spec_cardinal(key: Seq<char>) -> Option<(Seq<char>, PluralCategory)> {
    if strip_base(key, "_zero"@) is Some {
        Some((strip_base(key, "_zero"@).unwrap(), PluralCategory::Zero))
    } else if strip_base(key, "_one"@) is Some {
        Some((strip_base(key, "_one"@).unwrap(), PluralCategory::One))
    } else if strip_base(key, "_two"@) is Some {
        Some((strip_base(key, "_two"@).unwrap(), PluralCategory::Two))
    } else if strip_base(key, "_few"@) is Some {
        Some((strip_base(key, "_few"@).unwrap(), PluralCategory::Few))
    } else if strip_base(key, "_many"@) is Some {
        Some((strip_base(key, "_many"@).unwrap(), PluralCategory::Many))
    } else if strip_base(key, "_other"@) is Some {
        Some((strip_base(key, "_other"@).unwrap(), PluralCategory::Other))
    } else {
        None
    }
}

/// The base key of a key with an ordinal plural suffix (`_ordinal_one`, ...).
pub open spec fn spec_ordinal(key: Seq<char>) -> Option<Seq<char>> {
    if strip_base(key, "_ordinal_zero"@) is Some {
        strip_base(key, "_ordinal_zero"@)
    } else if strip_base(key, "_ordinal_one"@) is Some {
        strip_base(key, "_ordinal_one"@)
    } else if strip_base(key, "_ordinal_two"@) is Some {
        strip_base(key, "_ordinal_two"@)
    } else if strip_base(key, "_ordinal_few"@) is Some {
        strip_base(key, "_ordinal_few"@)
    } else if strip_base(key, "_ordinal_many"@) is Some {
        strip_base(key, "_ordinal_many"@)
    } else {
        strip_base(key, "_ordinal_other"@)
    }
}

pub open spec fn cardinal_view(r: Option<(&str, PluralCategory)>) -> Option<(Seq<char>, PluralCategory)> {
    match r {
        Some(p) => Some((p.0@, p.1)),
        None => None,
    }
}

fn with_cat<'a>(b: Option<&'a str>, c: PluralCategory) -> (r: Option<(&'a str, PluralCategory)>)
    ensures
        cardinal_view(r) == match opt_str_view(b) {
            Some(x) => Some((x, c)),
            None => None,
        },
{
    match b {
        Some(x) => Some((x, c)),
        None => None,
    }
}

/// Strips a cardinal plural suffix from a key: the base key and category.
pub fn strip_cardinal_suffix(key: &str) -> (r: Option<(&str, PluralCategory)>)
    ensures
        cardinal_view(r) == spec_cardinal(key@),
{
    let chars = str_chars(key);
    let r = with_cat(strip_base_exec(key, &chars, "_zero"), PluralCategory::Zero);
    if r.is_some() {
        return r;
    }
    let r = with_cat(strip_base_exec(key, &chars, "_one"), PluralCategory::One);
    if r.is_some() {
        return r;
    }
    let r = with_cat(strip_base_exec(key, &chars, "_two"), PluralCategory::Two);
    if r.is_some() {
        return r;
    }
    let r = with_cat(strip_base_exec(key, &chars, "_few"), PluralCategory::Few);
    if r.is_some() {
        return r;
    }
    let r = with_cat(strip_base_exec(key, &chars, "_many"), PluralCategory::Many);
    if r.is_some() {
        return r;
    }
    with_cat(strip_base_exec(key, &chars, "_other"), PluralCategory::Other)
}

/// Strips an ordinal plural suffix from a key: the base key.
pub fn strip_ordinal_suffix(key: &str) -> (r: Option<&str>)
    ensures
        opt_str_view(r) == spec_ordinal(key@),
{
    let chars = str_chars(key);
    let r = strip_base_exec(key, &chars, "_ordinal_zero");
    if r.is_some() {
        return r;
    }
    let r = strip_base_exec(key, &chars, "_ordinal_one");
    if r.is_some() {
        return r;
    }
    let r = strip_base_exec(key, &chars, "_ordinal_two");
    if r.is_some() {
        return r;
    }
    let r = strip_base_exec(key, &chars, "_ordinal_few");
    if r.is_some() {
        return r;
    }
    let r = strip_base_exec(key, &chars, "_ordinal_many");
    if r.is_some() {
        return r;
    }
    strip_base_exec(key, &chars, "_ordinal_other")
}

pub open spec fn spec_capabilities() -> FormatCapabilities {
    FormatCapabilities { plurals: true, context: true, nested_keys: true, ..FormatCapabilities::spec_none() }
}

impl Parser {
    pub fn capabilities(&self) -> (c: FormatCapabilities)
        ensures
            c == spec_capabilities(),
    {
        FormatCapabilities { plurals: true, context: true, nested_keys: true, ..FormatCapabilities::default() }
    }
}

impl Writer {
    pub fn capabilities(&self) -> (c: FormatCapabilities)
        ensures
            c == spec_capabilities(),
    {
        Parser.capabilities()
    }
}


// ---------------------------------------------------------------------------
// Flattening
// ---------------------------------------------------------------------------

/// The text a flattened leaf gets: a string, a number's text, `true` or
/// `false`, empty for null, the compact JSON of an array; objects are
/// descended into.
pub open spec fn leaf_text(v: JsonView) -> Seq<char> {
    match v {
        JsonView::Str(s) => s,
        JsonView::Number(n) => n,
        JsonView::Bool(b) => if b { "true"@ } else { "false"@ },
        JsonView::Null => Seq::empty(),
        _ => json_compact(v),
    }
}

/// The flat key/value pairs of the first `n` members under `prefix`,
/// inserted into `acc`.
pub open spec fn flat_upto(
    m: Seq<(Seq<char>, JsonView)>,
    n: int,
    prefix: Seq<char>,
    acc: Seq<(Seq<char>, Seq<char>)>,
) -> Seq<(Seq<char>, Seq<char>)>
    decreases m, n,
{
    if n <= 0 || n > m.len() {
        acc
    } else {
        let acc1 = flat_upto(m, n - 1, prefix, acc);
        let full = join_key(prefix, m[n - 1].0);
        proof {
            assert(decreases_to!(m => m[n - 1]));
        }
        match m[n - 1].1 {
            JsonView::Object(sub) => flat_upto(sub, sub.len() as int, full, acc1),
            v => map_insert(acc1, full, leaf_text(v)),
        }
    }
}

fn join_key_exec(prefix: &String, key: &String) -> (r: String)
    ensures
        r@ == join_key(prefix@, key@),
{
    if prefix.as_str().is_empty() {
        key.clone()
    } else {
        let mut r = prefix.clone();
        r.push('.');
        r.append(key.as_str());
        assert(r@ =~= prefix@ + seq!['.'] + key@);
        r
    }
}

/// Flattens a nested object into dot-separated keys.
pub fn flatten_json(m: &Vec<(String, JsonValue)>, prefix: &String, out: &mut IndexMap<String, String>)
    ensures
        str_map_pairs(*final(out)) == flat_upto(members_view(m@), m@.len() as int, prefix@, str_map_pairs(*old(out))),
    decreases m@,
{
    let ghost mv = members_view(m@);
    let ghost acc = str_map_pairs(*out);
    proof {
        lemma_members_view(m@, m@.len() as int);
    }
    let mut i: usize = 0;
    while i < m.len()
        invariant
            i <= m@.len(),
            mv == members_view(m@),
            mv.len() == m@.len(),
            forall|j: int| 0 <= j < m@.len() ==> #[trigger] mv[j] == (m@[j].0@, json_view(m@[j].1)),
            str_map_pairs(*out) == flat_upto(mv, i as int, prefix@, acc),
        decreases m@.len() - i,
    {
        let full = join_key_exec(prefix, &m[i].0);
        assert(mv[i as int] == (m@[i as int].0@, json_view(m@[i as int].1)));
        match &m[i].1 {
            JsonValue::Object(sub) => {
                assert(decreases_to!(m@ => m@[i as int]));
                proof {
                    lemma_members_view(sub@, sub@.len() as int);
                }
                flatten_json(sub, &full, out);
            },
            JsonValue::Str(x) => str_map_insert(out, full, x.clone()),
            JsonValue::Number(x) => str_map_insert(out, full, x.clone()),
            JsonValue::Bool(b) => str_map_insert(out, full, if *b { "true".to_owned() } else { "false".to_owned() }),
            JsonValue::Null => str_map_insert(out, full, String::new()),
            JsonValue::Array(_) => str_map_insert(out, full, to_compact(&m[i].1)),
        }
        i = i + 1;
    }
}

// ---------------------------------------------------------------------------
// Placeholders
// ---------------------------------------------------------------------------

/// `{{name}}` or `{{name, format}}`.
pub const RE_PLACEHOLDER: &'static str = "\\{\\{(\\s*\\w+(?:\\s*,\\s*\\w+)?\\s*)\\}\\}";

/// The name of a placeholder: the trimmed part of its trimmed inside before
/// the first comma.
pub open spec fn ph_name(inner: Seq<char>) -> Seq<char> {
    trim(split_char(trim(inner), ',')[0])
}

pub open spec fn ph_names(ps: Seq<(Seq<char>, Seq<char>)>) -> Seq<Seq<char>> {
    ps.map_values(|p: (Seq<char>, Seq<char>)| p.0)
}

/// The placeholders of the matches, as name and original text, the first
/// of each name only.
pub open spec fn ph_fold(ms: Seq<(Seq<char>, Seq<char>, Seq<char>)>) -> Seq<(Seq<char>, Seq<char>)>
    decreases ms.len(),
{
    if ms.len() == 0 {
        Seq::empty()
    } else {
        let acc = ph_fold(ms.drop_last());
        let n = ph_name(ms.last().2);
        if ph_names(acc).contains(n) {
            acc
        } else {
            acc.push((n, ms.last().1))
        }
    }
}

/// The placeholders of a text.
pub open spec fn spec_placeholders(text: Seq<char>) -> Seq<(Seq<char>, Seq<char>)> {
    match regex_split(RE_PLACEHOLDER@, text) {
        Some((ms, _)) => ph_fold(ms),
        None => Seq::empty(),
    }
}

/// A string placeholder with the given name and original text.
pub open spec fn placeholder_is(p: Placeholder, x: (Seq<char>, Seq<char>)) -> bool {
    &&& p.name@ == x.0
    &&& p.original_syntax@ == x.1
    &&& p.placeholder_type == Some(PlaceholderType::String)
    &&& p.position is None
    &&& p.example is None
    &&& p.description is None
    &&& p.format is None
    &&& p.optional_parameters is None
}

pub open spec fn placeholders_are(ps: Seq<Placeholder>, xs: Seq<(Seq<char>, Seq<char>)>) -> bool {
    ps.len() == xs.len() && forall|i: int| 0 <= i < ps.len() ==> placeholder_is(#[trigger] ps[i], xs[i])
}

fn names_contain(ps: &Vec<Placeholder>, n: &String, Ghost(xs): Ghost<Seq<(Seq<char>, Seq<char>)>>) -> (r: bool)
    requires
        placeholders_are(ps@, xs),
    ensures
        r == ph_names(xs).contains(n@),
{
    let mut i: usize = 0;
    while i < ps.len()
        invariant
            i <= ps@.len(),
            placeholders_are(ps@, xs),
            forall|j: int| 0 <= j < i ==> ph_names(xs)[j] != n@,
        decreases ps@.len() - i,
    {
        assert(placeholder_is(ps@[i as int], xs[i as int]));
        if str_eq(ps[i].name.as_str(), n.as_str()) {
            assert(ph_names(xs)[i as int] == n@);
            return true;
        }
        i = i + 1;
    }
    false
}

/// Extracts `{{name}}` style placeholders from a text, each name once.
pub fn extract_placeholders(value: &str) -> (ps: Vec<Placeholder>)
    ensures
        placeholders_are(ps@, spec_placeholders(value@)),
{
    let mut ps: Vec<Placeholder> = Vec::new();
    match regex_capture_split(RE_PLACEHOLDER, value) {
        Some((pieces, _tail)) => {
            let ghost pv = pieces_view(pieces@);
            let mut i: usize = 0;
            while i < pieces.len()
                invariant
                    i <= pieces@.len(),
                    pv == pieces_view(pieces@),
                    placeholders_are(ps@, ph_fold(pv.take(i as int))),
                decreases pieces@.len() - i,
            {
                assert(pv.take(i + 1).drop_last() == pv.take(i as int));
                assert(pv.take(i + 1).last() == pv[i as int]);
                let ghost acc = ph_fold(pv.take(i as int));
                let inner = str_chars(pieces[i].2.as_str());
                let t = trim_chars(inner.as_slice());
                let parts = split_at_char(t.as_slice(), ',');
                proof {
                    crate::text::lemma_split_char_len(t@, ',');
                }
                assert(parts@.map_values(|l: Vec<char>| l@)[0] == parts@[0]@);
                let name = string_of(trim_chars(parts[0].as_slice()).as_slice());
                if !names_contain(&ps, &name, Ghost(acc)) {
                    let p = Placeholder {
                        name,
                        original_syntax: pieces[i].1.clone(),
                        placeholder_type: Some(PlaceholderType::String),
                        position: None,
                        example: None,
                        description: None,
                        format: None,
                        optional_parameters: None,
                    };
                    ps.push(p);
                }
                i = i + 1;
            }
            assert(pv.take(pieces@.len() as int) == pv);
        },
        None => {},
    }
    ps
}


// ---------------------------------------------------------------------------
// Grouping
// ---------------------------------------------------------------------------

pub open spec fn cardinal_suffixes() -> Seq<Seq<char>> {
    seq!["_zero"@, "_one"@, "_two"@, "_few"@, "_many"@, "_other"@]
}

pub open spec fn ordinal_suffixes() -> Seq<Seq<char>> {
    seq!["_ordinal_zero"@, "_ordinal_one"@, "_ordinal_two"@, "_ordinal_few"@, "_ordinal_many"@, "_ordinal_other"@]
}

pub open spec fn categories() -> Seq<Seq<char>> {
    seq!["zero"@, "one"@, "two"@, "few"@, "many"@, "other"@]
}

/// An entry to build: a plural group (its base key, forms and whether it is
/// ordinal) or a simple key and value.
pub enum Item {
    Plural(Seq<char>, PluralView, bool),
    Simple(Seq<char>, Seq<char>),
}

/// The entries built so far, with the keys consumed by plural groups.
pub type GState = (Seq<(Seq<char>, Item)>, Set<Seq<char>>);

/// The forms of `base` among the first `n` suffixes, and the consumed keys.
pub open spec fn collect(
    base: Seq<char>,
    flat: Seq<(Seq<char>, Seq<char>)>,
    consumed: Set<Seq<char>>,
    sfx: Seq<Seq<char>>,
    n: int,
) -> (PluralView, Set<Seq<char>>)
    decreases n,
{
    if n <= 0 {
        ((None, None, None, None, None, Seq::empty()), consumed)
    } else {
        let r = collect(base, flat, consumed, sfx, n - 1);
        match map_get(flat, base + sfx[n - 1]) {
            Some(v) => (plural_put(r.0, categories()[n - 1], v), r.1.insert(base + sfx[n - 1])),
            None => r,
        }
    }
}

pub open spec fn has_sibling(base: Seq<char>, flat: Seq<(Seq<char>, Seq<char>)>) -> bool {
    exists|i: int| 0 <= i < 6 && map_get(flat, base + #[trigger] ordinal_suffixes()[i]) is Some
}

/// The first pass: each unconsumed key with an ordinal suffix makes an
/// ordinal plural group of its base.
pub open spec fn ordinal_step(st: GState, key: Seq<char>, flat: Seq<(Seq<char>, Seq<char>)>) -> GState {
    if st.1.contains(key) {
        st
    } else {
        match spec_ordinal(key) {
            Some(base) => if ends_with(key, "_ordinal_other"@) || has_sibling(base, flat) {
                let c = collect(base, flat, st.1, ordinal_suffixes(), 6);
                (map_insert(st.0, base, Item::Plural(base, c.0, true)), c.1)
            } else {
                st
            },
            None => st,
        }
    }
}

/// The second pass: each unconsumed key with a cardinal suffix whose
/// `_other` sibling exists unconsumed makes a plural group of its base.
pub open spec fn cardinal_step(st: GState, key: Seq<char>, flat: Seq<(Seq<char>, Seq<char>)>) -> GState {
    if st.1.contains(key) {
        st
    } else {
        match spec_cardinal(key) {
            Some((base, _)) => if map_get(flat, base + "_other"@) is Some && !st.1.contains(base + "_other"@) {
                let c = collect(base, flat, st.1, cardinal_suffixes(), 6);
                (map_insert(st.0, base, Item::Plural(base, c.0, false)), c.1)
            } else {
                st
            },
            None => st,
        }
    }
}

/// The third pass: each unconsumed key is a simple entry.
pub open spec fn simple_step(st: GState, kv: (Seq<char>, Seq<char>)) -> GState {
    if st.1.contains(kv.0) {
        st
    } else {
        (map_insert(st.0, kv.0, Item::Simple(kv.0, kv.1)), st.1)
    }
}

pub open spec fn ordinal_fold(init: GState, keys: Seq<Seq<char>>, flat: Seq<(Seq<char>, Seq<char>)>) -> GState
    decreases keys.len(),
{
    if keys.len() == 0 {
        init
    } else {
        ordinal_step(ordinal_fold(init, keys.drop_last(), flat), keys.last(), flat)
    }
}

pub open spec fn cardinal_fold(init: GState, keys: Seq<Seq<char>>, flat: Seq<(Seq<char>, Seq<char>)>) -> GState
    decreases keys.len(),
{
    if keys.len() == 0 {
        init
    } else {
        cardinal_step(cardinal_fold(init, keys.drop_last(), flat), keys.last(), flat)
    }
}

pub open spec fn simple_fold(init: GState, kvs: Seq<(Seq<char>, Seq<char>)>) -> GState
    decreases kvs.len(),
{
    if kvs.len() == 0 {
        init
    } else {
        simple_step(simple_fold(init, kvs.drop_last()), kvs.last())
    }
}

pub open spec fn flat_keys(flat: Seq<(Seq<char>, Seq<char>)>) -> Seq<Seq<char>> {
    flat.map_values(|p: (Seq<char>, Seq<char>)| p.0)
}

/// The entries of the flat pairs: ordinal groups, then cardinal groups, then
/// the remaining keys.
pub open spec fn spec_group(flat: Seq<(Seq<char>, Seq<char>)>) -> Seq<(Seq<char>, Item)> {
    let keys = flat_keys(flat);
    let p1 = ordinal_fold((Seq::empty(), Set::empty()), keys, flat);
    let p2 = cardinal_fold(p1, keys, flat);
    simple_fold(p2, flat).0
}

/// The text of all forms: `other`, then each present form after a space.
pub open spec fn plural_all_text(pv: PluralView) -> Seq<char> {
    pv.5 + spaced(pv.0) + spaced(pv.1) + spaced(pv.2) + spaced(pv.3) + spaced(pv.4)
}

/// A space and the form, or nothing for an absent form.
pub open spec fn spaced(o: Option<Seq<char>>) -> Seq<char> {
    match o {
        Some(v) => seq![' '] + v,
        None => Seq::<char>::empty(),
    }
}

fn push_spaced(r: &mut String, o: &Option<String>)
    ensures
        final(r)@ == old(r)@ + spaced(opt_view(*o)),
{
    match o {
        Some(v) => {
            let ghost start = r@;
            r.push(' ');
            r.append(v.as_str());
            assert(r@ =~= start + spaced(opt_view(*o)));
        },
        None => {
            assert(old(r)@ + spaced(opt_view(*o)) =~= old(r)@);
        },
    }
}

/// Every attribute besides key, value and placeholders is absent or empty.
pub open spec fn rest_default(e: I18nEntry) -> bool {
    &&& e.comments@.len() == 0
    &&& e.contexts@.len() == 0
    &&& e.source is None
    &&& e.previous_source is None
    &&& e.previous_comment is None
    &&& e.translatable is None
    &&& e.state is None
    &&& e.state_qualifier is None
    &&& e.approved is None
    &&& !e.obsolete
    &&& e.max_width is None
    &&& e.min_width is None
    &&& e.max_height is None
    &&& e.min_height is None
    &&& e.size_unit is None
    &&& e.max_bytes is None
    &&& e.min_bytes is None
    &&& e.source_references@.len() == 0
    &&& e.flags@.len() == 0
    &&& e.device_variants is None
    &&& e.alternatives@.len() == 0
    &&& str_map_pairs(e.properties).len() == 0
    &&& e.resource_type is None
    &&& e.resource_name is None
    &&& e.format_ext is None
}

/// The entry built for an item.
pub open spec fn item_entry(e: I18nEntry, it: Item) -> bool {
    &&& rest_default(e)
    &&& match it {
        Item::Plural(base, pv, ord) => {
            &&& e.key@ == base
            &&& e.value matches EntryValue::Plural(ps) && plural_set_view(ps) == pv && ps.ordinal == ord
                && count_map_pairs(ps.exact_matches).len() == 0 && ps.range_matches@.len() == 0
            &&& placeholders_are(e.placeholders@, spec_placeholders(plural_all_text(pv)))
        },
        Item::Simple(k, v) => {
            &&& e.key@ == k
            &&& e.value matches EntryValue::Simple(s) && s@ == v
            &&& placeholders_are(e.placeholders@, spec_placeholders(v))
        },
    }
}

pub open spec fn item_rel() -> spec_fn(I18nEntry, Item) -> bool {
    |e: I18nEntry, it: Item| item_entry(e, it)
}

pub open spec fn consumed_set(v: Seq<String>) -> Set<Seq<char>> {
    Set::new(|s: Seq<char>| exists|i: int| 0 <= i < v.len() && v[i]@ == s)
}

fn consumed_contains(c: &Vec<String>, k: &String) -> (r: bool)
    ensures
        r == consumed_set(c@).contains(k@),
{
    let mut i: usize = 0;
    while i < c.len()
        invariant
            i <= c@.len(),
            forall|j: int| 0 <= j < i ==> c@[j]@ != k@,
        decreases c@.len() - i,
    {
        if str_eq(c[i].as_str(), k.as_str()) {
            assert(c@[i as int]@ == k@);
            return true;
        }
        i = i + 1;
    }
    false
}

fn consume(c: &mut Vec<String>, k: String)
    ensures
        consumed_set(final(c)@) == consumed_set(old(c)@).insert(k@),
{
    let ghost before = c@;
    c.push(k);
    assert(consumed_set(c@) =~= consumed_set(before).insert(c@[before.len() as int]@)) by {
        assert forall|s: Seq<char>| consumed_set(c@).contains(s) implies consumed_set(before).insert(c@[before.len() as int]@).contains(s) by {
            let i = choose|i: int| 0 <= i < c@.len() && c@[i]@ == s;
            if i < before.len() {
                assert(before[i]@ == s);
            }
        }
        assert forall|s: Seq<char>| consumed_set(before).insert(c@[before.len() as int]@).contains(s) implies consumed_set(c@).contains(s) by {
            if s != c@[before.len() as int]@ {
                let i = choose|i: int| 0 <= i < before.len() && before[i]@ == s;
                assert(c@[i]@ == s);
            } else {
                assert(c@[before.len() as int]@ == s);
            }
        }
    }
}

fn suffix_at(i: usize, ordinal: bool) -> (r: &'static str)
    requires
        i < 6,
    ensures
        r@ == (if ordinal { ordinal_suffixes()[i as int] } else { cardinal_suffixes()[i as int] }),
{
    if ordinal {
        if i == 0 { "_ordinal_zero" } else if i == 1 { "_ordinal_one" } else if i == 2 { "_ordinal_two" } else if i == 3 { "_ordinal_few" } else if i == 4 { "_ordinal_many" } else { "_ordinal_other" }
    } else {
        if i == 0 { "_zero" } else if i == 1 { "_one" } else if i == 2 { "_two" } else if i == 3 { "_few" } else if i == 4 { "_many" } else { "_other" }
    }
}

fn category_at(i: usize) -> (r: &'static str)
    requires
        i < 6,
    ensures
        r@ == categories()[i as int],
{
    if i == 0 { "zero" } else if i == 1 { "one" } else if i == 2 { "two" } else if i == 3 { "few" } else if i == 4 { "many" } else { "other" }
}

/// Collects the forms of a base key, consuming their keys.
fn collect_plural(base: &str, flat: &IndexMap<String, String>, consumed: &mut Vec<String>, ordinal: bool) -> (ps: PluralSet)
    ensures
        (plural_set_view(ps), consumed_set(final(consumed)@)) == collect(
            base@,
            str_map_pairs(*flat),
            consumed_set(old(consumed)@),
            if ordinal { ordinal_suffixes() } else { cardinal_suffixes() },
            6,
        ),
        ps.ordinal == ordinal,
        count_map_pairs(ps.exact_matches).len() == 0,
        ps.range_matches@.len() == 0,
{
    let ghost sfx = if ordinal { ordinal_suffixes() } else { cardinal_suffixes() };
    let ghost c0 = consumed_set(consumed@);
    let mut ps = PluralSet::default();
    ps.ordinal = ordinal;
    let mut i: usize = 0;
    while i < 6
        invariant
            i <= 6,
            sfx == (if ordinal { ordinal_suffixes() } else { cardinal_suffixes() }),
            (plural_set_view(ps), consumed_set(consumed@)) == collect(base@, str_map_pairs(*flat), c0, sfx, i as int),
            ps.ordinal == ordinal,
            count_map_pairs(ps.exact_matches).len() == 0,
            ps.range_matches@.len() == 0,
        decreases 6 - i,
    {
        let mut full = base.to_owned();
        full.append(suffix_at(i, ordinal));
        match str_map_get(flat, full.as_str()) {
            Some(v) => {
                put_plural(&mut ps, category_at(i), v.clone());
                consume(consumed, full);
            },
            None => {},
        }
        i = i + 1;
    }
    ps
}

fn has_sibling_exec(base: &str, flat: &IndexMap<String, String>) -> (r: bool)
    ensures
        r == has_sibling(base@, str_map_pairs(*flat)),
{
    let mut i: usize = 0;
    while i < 6
        invariant
            i <= 6,
            forall|j: int| 0 <= j < i ==> map_get(str_map_pairs(*flat), base@ + #[trigger] ordinal_suffixes()[j]) is None,
        decreases 6 - i,
    {
        let mut full = base.to_owned();
        full.append(suffix_at(i, true));
        if str_map_get(flat, full.as_str()).is_some() {
            return true;
        }
        i = i + 1;
    }
    false
}

fn plural_all_text_exec(ps: &PluralSet) -> (r: String)
    ensures
        r@ == plural_all_text(plural_set_view(*ps)),
{
    let mut r = ps.other.clone();
    push_spaced(&mut r, &ps.zero);
    push_spaced(&mut r, &ps.one);
    push_spaced(&mut r, &ps.two);
    push_spaced(&mut r, &ps.few);
    push_spaced(&mut r, &ps.many);
    r
}

fn entry_with(key: String, value: EntryValue, placeholders: Vec<Placeholder>) -> (e: I18nEntry)
    ensures
        e.key == key,
        e.value == value,
        e.placeholders == placeholders,
        rest_default(e),
{
    let mut e = I18nEntry::with_value(key, value);
    e.placeholders = placeholders;
    e
}

/// Groups flat keys into entries: ordinal plural groups, cardinal plural
/// groups with an `_other` form, then the remaining keys as simple entries.
pub fn group_entries(flat: &IndexMap<String, String>) -> (entries: IndexMap<String, I18nEntry>)
    ensures
        pairs_model(entry_map_pairs(entries), spec_group(str_map_pairs(*flat)), item_rel()),
{
    let ghost fv = str_map_pairs(*flat);
    let ghost keys = flat_keys(fv);
    let n = str_map_len(flat);
    let mut all_keys: Vec<String> = Vec::new();
    let mut i: usize = 0;
    while i < n
        invariant
            i <= n,
            n == fv.len(),
            fv == str_map_pairs(*flat),
            keys == flat_keys(fv),
            string_views(all_keys@) == keys.take(i as int),
        decreases n - i,
    {
        match str_map_get_index(flat, i) {
            Some((k, _)) => {
                let ghost before = string_views(all_keys@);
                all_keys.push(k.clone());
                assert(string_views(all_keys@) == before.push(k@));
            },
            None => {},
        }
        assert(keys.take(i + 1) == keys.take(i as int).push(keys[i as int]));
        i = i + 1;
    }
    assert(keys.take(n as int) == keys);
    let mut entries = entry_map_new();
    let mut consumed: Vec<String> = Vec::new();
    let ghost mut model: Seq<(Seq<char>, Item)> = Seq::empty();
    assert(consumed_set(consumed@) =~= Set::<Seq<char>>::empty());
    let mut j: usize = 0;
    while j < all_keys.len()
        invariant
            j <= all_keys@.len(),
            fv == str_map_pairs(*flat),
            string_views(all_keys@) == keys,
            (model, consumed_set(consumed@)) == ordinal_fold((Seq::empty(), Set::empty()), keys.take(j as int), fv),
            pairs_model(entry_map_pairs(entries), model, item_rel()),
        decreases all_keys@.len() - j,
    {
        assert(keys.take(j + 1).drop_last() == keys.take(j as int));
        assert(keys.take(j + 1).last() == all_keys@[j as int]@);
        let key = &all_keys[j];
        if !consumed_contains(&consumed, key) {
            match strip_ordinal_suffix(key.as_str()) {
                Some(base) => {
                    let kc = str_chars(key.as_str());
                    let oc = str_chars("_ordinal_other");
                    let ends = kc.len() >= oc.len() && crate::text::matches_at(kc.as_slice(), oc.as_slice(), kc.len() - oc.len());
                    proof {
                        let n = kc@.len();
                        let m = oc@.len();
                        if m <= n {
                            assert(key@.skip(n - m) =~= key@.subrange(n - m, n as int));
                        }
                    }
                    if ends || has_sibling_exec(base, flat) {
                        let ps = collect_plural(base, flat, &mut consumed, true);
                        let all = plural_all_text_exec(&ps);
                        let phs = extract_placeholders(all.as_str());
                        let ghost it = Item::Plural(base@, plural_set_view(ps), true);
                        let e = entry_with(base.to_owned(), EntryValue::Plural(ps), phs);
                        proof {
                            lemma_pairs_model_insert(entry_map_pairs(entries), model, item_rel(), base@, e, it);
                            model = map_insert(model, base@, it);
                        }
                        entry_map_insert(&mut entries, base.to_owned(), e);
                    }
                },
                None => {},
            }
        }
        j = j + 1;
    }
    assert(keys.take(all_keys@.len() as int) == keys);
    let mut j: usize = 0;
    let ghost p1 = (model, consumed_set(consumed@));
    while j < all_keys.len()
        invariant
            j <= all_keys@.len(),
            fv == str_map_pairs(*flat),
            string_views(all_keys@) == keys,
            (model, consumed_set(consumed@)) == cardinal_fold(p1, keys.take(j as int), fv),
            pairs_model(entry_map_pairs(entries), model, item_rel()),
        decreases all_keys@.len() - j,
    {
        assert(keys.take(j + 1).drop_last() == keys.take(j as int));
        assert(keys.take(j + 1).last() == all_keys@[j as int]@);
        let key = &all_keys[j];
        if !consumed_contains(&consumed, key) {
            match strip_cardinal_suffix(key.as_str()) {
                Some((base, _)) => {
                    let mut other = base.to_owned();
                    other.append("_other");
                    if str_map_get(flat, other.as_str()).is_some() && !consumed_contains(&consumed, &other) {
                        let ps = collect_plural(base, flat, &mut consumed, false);
                        let all = plural_all_text_exec(&ps);
                        let phs = extract_placeholders(all.as_str());
                        let ghost it = Item::Plural(base@, plural_set_view(ps), false);
                        let e = entry_with(base.to_owned(), EntryValue::Plural(ps), phs);
                        proof {
                            lemma_pairs_model_insert(entry_map_pairs(entries), model, item_rel(), base@, e, it);
                            model = map_insert(model, base@, it);
                        }
                        entry_map_insert(&mut entries, base.to_owned(), e);
                    }
                },
                None => {},
            }
        }
        j = j + 1;
    }
    assert(keys.take(all_keys@.len() as int) == keys);
    let ghost p2 = (model, consumed_set(consumed@));
    let mut k: usize = 0;
    while k < n
        invariant
            k <= n,
            n == fv.len(),
            fv == str_map_pairs(*flat),
            (model, consumed_set(consumed@)) == simple_fold(p2, fv.take(k as int)),
            pairs_model(entry_map_pairs(entries), model, item_rel()),
        decreases n - k,
    {
        assert(fv.take(k + 1).drop_last() == fv.take(k as int));
        assert(fv.take(k + 1).last() == fv[k as int]);
        match str_map_get_index(flat, k) {
            Some((key, value)) => {
                if !consumed_contains(&consumed, key) {
                    let phs = extract_placeholders(value.as_str());
                    let ghost it = Item::Simple(key@, value@);
                    let e = entry_with(key.clone(), EntryValue::Simple(value.clone()), phs);
                    proof {
                        lemma_pairs_model_insert(entry_map_pairs(entries), model, item_rel(), key@, e, it);
                        model = map_insert(model, key@, it);
                    }
                    entry_map_insert(&mut entries, key.clone(), e);
                }
            },
            None => {},
        }
        k = k + 1;
    }
    assert(fv.take(n as int) == fv);
    entries
}


// ---------------------------------------------------------------------------
// Reading and detection
// ---------------------------------------------------------------------------

/// What reading an i18next text gives: the grouped entries of its flattened
/// root object; an error for a text that is not JSON or whose root is no
/// object.
pub open spec fn parse_ok(r: Result<I18nResource, ParseError>, s: Seq<char>) -> bool {
    match json_read(s) {
        None => r matches Err(ParseError::Json(_)),
        Some(JsonView::Object(m)) => r matches Ok(res) && ResourceMetadata::spec_plain(res.metadata, FormatId::I18nextJson)
            && pairs_model(
            entry_map_pairs(res.entries),
            spec_group(flat_upto(m, m.len() as int, Seq::empty(), Seq::empty())),
            item_rel(),
        ),
        Some(_) => r matches Err(ParseError::InvalidFormat(_)),
    }
}

/// Parses i18next JSON text.
pub fn parse_i18next(s: &str) -> (r: Result<I18nResource, ParseError>)
    ensures
        parse_ok(r, s@),
{
    match parse_json(s) {
        Ok(JsonValue::Object(m)) => {
            proof {
                lemma_members_view(m@, m@.len() as int);
            }
            let mut flat = str_map_new();
            let prefix = String::new();
            flatten_json(&m, &prefix, &mut flat);
            let entries = group_entries(&flat);
            Ok(I18nResource { metadata: ResourceMetadata::for_format(FormatId::I18nextJson), entries })
        },
        Ok(_) => Err(ParseError::InvalidFormat("Root must be a JSON object".to_owned())),
        Err(e) => Err(ParseError::Json(e)),
    }
}

/// The number of plural key pairs in the first `n` members of an object,
/// at every depth.
pub open spec fn count_pairs_upto(m: Seq<(Seq<char>, JsonView)>, n: int) -> nat
    decreases m, n,
{
    if n <= 0 || n > m.len() {
        0
    } else {
        proof {
            assert(decreases_to!(m => m[n - 1]));
        }
        count_pairs_upto(m, n - 1) + (if pair_at(member_keys(m), m[n - 1].0) { 1nat } else { 0nat }) + match m[n
            - 1].1 {
            JsonView::Object(sub) => count_pairs_upto(sub, sub.len() as int),
            _ => 0nat,
        }
    }
}

pub open spec fn cap2(n: nat) -> nat {
    if n >= 2 {
        2
    } else {
        n
    }
}

/// Counts plural key pairs, up to two.
fn count_plural_pairs(m: &Vec<(String, JsonValue)>) -> (c: u8)
    ensures
        c == cap2(count_pairs_upto(members_view(m@), m@.len() as int)),
    decreases m@,
{
    let ghost mv = members_view(m@);
    proof {
        lemma_members_view(m@, m@.len() as int);
    }
    let mut c: u8 = 0;
    let mut i: usize = 0;
    while i < m.len()
        invariant
            i <= m@.len(),
            mv == members_view(m@),
            mv.len() == m@.len(),
            forall|j: int| 0 <= j < m@.len() ==> #[trigger] mv[j] == (m@[j].0@, json_view(m@[j].1)),
            c == cap2(count_pairs_upto(mv, i as int)),
        decreases m@.len() - i,
    {
        assert(mv[i as int] == (m@[i as int].0@, json_view(m@[i as int].1)));
        let here: u8 = if crate::formats::json_structured::pair_at_public(m, &m[i].0) { 1 } else { 0 };
        let deeper: u8 = match &m[i].1 {
            JsonValue::Object(sub) => {
                assert(decreases_to!(m@ => m@[i as int]));
                proof {
                    lemma_members_view(sub@, sub@.len() as int);
                }
                count_plural_pairs(sub)
            },
            _ => 0,
        };
        let t = c + here + deeper;
        c = if t >= 2 { 2 } else { t };
        i = i + 1;
    }
    c
}

/// The detection of an i18next text.
pub open spec fn spec_detect(extension: Seq<char>, content: Seq<u8>) -> Confidence {
    if extension != ".json"@ || !valid_utf8(content) {
        Confidence::NoMatch
    } else {
        let s = decode_utf8(content);
        let pairs = match json_read(s) {
            Some(JsonView::Object(m)) => count_pairs_upto(m, m.len() as int),
            _ => 0,
        };
        if pairs >= 2 {
            Confidence::Definite
        } else if pairs == 1 {
            Confidence::High
        } else if contains(s, "_one\""@) && contains(s, "_other\""@) {
            Confidence::High
        } else if contains(s, "_other\""@) {
            Confidence::Low
        } else {
            Confidence::NoMatch
        }
    }
}

impl Parser {
    /// `.json` whose object has plural key pairs: certain for two or more,
    /// likely for one; otherwise guessed from the text.
    pub fn detect(&self, extension: &str, content: &[u8]) -> (c: Confidence)
        ensures
            c == spec_detect(extension@, content@),
    {
        if !str_eq(extension, ".json") {
            return Confidence::NoMatch;
        }
        let s = match std::str::from_utf8(content) {
            Ok(s) => s,
            Err(_) => return Confidence::NoMatch,
        };
        match parse_json(s) {
            Ok(JsonValue::Object(m)) => {
                proof {
                    lemma_members_view(m@, m@.len() as int);
                }
                let pairs = count_plural_pairs(&m);
                if pairs >= 2 {
                    return Confidence::Definite;
                }
                if pairs == 1 {
                    return Confidence::High;
                }
            },
            _ => {},
        }
        if str_contains(s, "_one\"") && str_contains(s, "_other\"") {
            return Confidence::High;
        }
        if str_contains(s, "_other\"") {
            return Confidence::Low;
        }
        Confidence::NoMatch
    }

    /// Parses UTF-8 i18next JSON.
    pub fn parse(&self, content: &[u8]) -> (r: Result<I18nResource, ParseError>)
        ensures
            !valid_utf8(content@) ==> r matches Err(ParseError::InvalidFormat(_)),
            valid_utf8(content@) ==> parse_ok(r, decode_utf8(content@)),
    {
        match std::str::from_utf8(content) {
            Ok(text) => parse_i18next(text),
            Err(e) => Err(ParseError::InvalidFormat(utf8_error_message(&e))),
        }
    }
}


// ---------------------------------------------------------------------------
// Writing
// ---------------------------------------------------------------------------

pub open spec fn put_opt(flat: Seq<(Seq<char>, Seq<char>)>, k: Seq<char>, o: Option<String>) -> Seq<(Seq<char>, Seq<char>)> {
    match o {
        Some(v) => map_insert(flat, k, v@),
        None => flat,
    }
}

/// The keys of a plural set: each present form under its suffixed key,
/// `_ordinal_` suffixes for an ordinal set.
pub open spec fn put_plural_keys(flat: Seq<(Seq<char>, Seq<char>)>, key: Seq<char>, ps: PluralSet) -> Seq<(Seq<char>, Seq<char>)> {
    let sfx = if ps.ordinal { ordinal_suffixes() } else { cardinal_suffixes() };
    map_insert(
        put_opt(
            put_opt(put_opt(put_opt(put_opt(flat, key + sfx[0], ps.zero), key + sfx[1], ps.one), key + sfx[2], ps.two), key + sfx[3], ps.few),
            key + sfx[4],
            ps.many,
        ),
        key + sfx[5],
        ps.other@,
    )
}

pub open spec fn strs_json(a: Seq<String>) -> Seq<JsonView> {
    a.map_values(|s: String| JsonView::Str(s@))
}

/// The flat keys of one entry: a simple text, the plural forms, the compact
/// JSON of an array, the `other` case of a select; nothing for a
/// multi-variable plural.
pub open spec fn entry_flat(flat: Seq<(Seq<char>, Seq<char>)>, key: Seq<char>, e: I18nEntry) -> Seq<(Seq<char>, Seq<char>)> {
    match e.value {
        EntryValue::Simple(s) => map_insert(flat, key, s@),
        EntryValue::Plural(ps) => put_plural_keys(flat, key, ps),
        EntryValue::Array(a) => map_insert(flat, key, json_compact(JsonView::Array(strs_json(a@)))),
        EntryValue::Select(ss) => match map_get(str_map_pairs(ss.cases), "other"@) {
            Some(o) => map_insert(flat, key, o),
            None => flat,
        },
        EntryValue::MultiVariablePlural(_) => flat,
    }
}

pub open spec fn build_flat(ps: Seq<(Seq<char>, I18nEntry)>) -> Seq<(Seq<char>, Seq<char>)>
    decreases ps.len(),
{
    if ps.len() == 0 {
        Seq::empty()
    } else {
        entry_flat(build_flat(ps.drop_last()), ps.last().0, ps.last().1)
    }
}

/// Inserts a text under the path `parts`, making missing steps objects; a
/// step that is no object drops the text.
pub open spec fn unflat_insert(m: Seq<(Seq<char>, JsonView)>, parts: Seq<Seq<char>>, v: Seq<char>) -> Seq<(Seq<char>, JsonView)>
    decreases parts.len(),
{
    if parts.len() <= 1 {
        map_insert(m, parts[0], JsonView::Str(v))
    } else {
        match map_get(m, parts[0]) {
            None => map_insert(m, parts[0], JsonView::Object(unflat_insert(Seq::empty(), parts.drop_first(), v))),
            Some(JsonView::Object(c)) => map_insert(m, parts[0], JsonView::Object(unflat_insert(c, parts.drop_first(), v))),
            Some(_) => m,
        }
    }
}

pub open spec fn unflatten(flat: Seq<(Seq<char>, Seq<char>)>) -> Seq<(Seq<char>, JsonView)>
    decreases flat.len(),
{
    if flat.len() == 0 {
        Seq::empty()
    } else {
        unflat_insert(unflatten(flat.drop_last()), split_char(flat.last().0, '.'), flat.last().1)
    }
}

/// The bytes written: the pretty JSON of the nested object and a new line.
pub open spec fn spec_write(res: I18nResource) -> Seq<u8> {
    encode_utf8(json_pretty(JsonView::Object(unflatten(build_flat(entry_map_pairs(res.entries)))))).push(10u8)
}

fn put_opt_exec(flat: &mut IndexMap<String, String>, key: &String, sfx: &str, o: &Option<String>)
    ensures
        str_map_pairs(*final(flat)) == put_opt(str_map_pairs(*old(flat)), key@ + sfx@, *o),
{
    match o {
        Some(v) => {
            let mut k = key.clone();
            k.append(sfx);
            str_map_insert(flat, k, v.clone());
        },
        None => {},
    }
}

fn entry_flat_exec(flat: &mut IndexMap<String, String>, key: &String, e: &I18nEntry)
    ensures
        str_map_pairs(*final(flat)) == entry_flat(str_map_pairs(*old(flat)), key@, *e),
{
    match &e.value {
        EntryValue::Simple(s) => str_map_insert(flat, key.clone(), s.clone()),
        EntryValue::Plural(ps) => {
            let o = ps.ordinal;
            put_opt_exec(flat, key, suffix_at(0, o), &ps.zero);
            put_opt_exec(flat, key, suffix_at(1, o), &ps.one);
            put_opt_exec(flat, key, suffix_at(2, o), &ps.two);
            put_opt_exec(flat, key, suffix_at(3, o), &ps.few);
            put_opt_exec(flat, key, suffix_at(4, o), &ps.many);
            let mut k = key.clone();
            k.append(suffix_at(5, o));
            str_map_insert(flat, k, ps.other.clone());
        },
        EntryValue::Array(a) => {
            let mut items: Vec<JsonValue> = Vec::new();
            let mut i: usize = 0;
            while i < a.len()
                invariant
                    i <= a@.len(),
                    items@.len() == i,
                    forall|j: int| 0 <= j < i ==> json_view(#[trigger] items@[j]) == JsonView::Str(a@[j]@),
                decreases a@.len() - i,
            {
                items.push(JsonValue::Str(a[i].clone()));
                i = i + 1;
            }
            proof {
                lemma_items_view(items@, items@.len() as int);
                assert(items_view_upto(items@, items@.len() as int) =~= strs_json(a@));
            }
            let arr = JsonValue::Array(items);
            str_map_insert(flat, key.clone(), to_compact(&arr));
        },
        EntryValue::Select(ss) => match str_map_get(&ss.cases, "other") {
            Some(o) => str_map_insert(flat, key.clone(), o.clone()),
            None => {},
        },
        EntryValue::MultiVariablePlural(_) => {},
    }
}

pub proof fn lemma_key_index_update(mv: Seq<(Seq<char>, JsonView)>, i: int, x: JsonView, k: Seq<char>)
    requires
        0 <= i < mv.len(),
    ensures
        key_index(mv.update(i, (mv[i].0, x)), k) == key_index(mv, k),
{
    let u = mv.update(i, (mv[i].0, x));
    assert forall|j: int| 0 <= j < u.len() implies (#[trigger] u[j]).0 == mv[j].0 by {}
    crate::collections::lemma_key_index_same(u, mv, k);
}

fn unflat_insert_exec(m: &mut Vec<(String, JsonValue)>, parts: &Vec<String>, start: usize, v: String)
    requires
        start < parts@.len(),
    ensures
        members_view(final(m)@) == unflat_insert(members_view(old(m)@), string_views(parts@).skip(start as int), v@),
    decreases parts@.len() - start,
{
    let ghost pv = string_views(parts@).skip(start as int);
    assert(pv[0] == parts@[start as int]@);
    if start >= parts.len() - 1 {
        obj_insert(m, parts[start].clone(), JsonValue::Str(v));
        return;
    }
    assert(pv.drop_first() == string_views(parts@).skip(start + 1));
    let key = parts[start].clone();
    let ghost mv = members_view(m@);
    proof {
        lemma_members_view(m@, m@.len() as int);
        lemma_key_index(mv, key@);
    }
    match obj_find(m, key.as_str()) {
        Some(i) => {
            assert(mv[i as int] == (m@[i as int].0@, json_view(m@[i as int].1)));
            let is_obj = match &m[i].1 {
                JsonValue::Object(_) => true,
                _ => false,
            };
            if !is_obj {
                return;
            }
            let ghost before = m@;
            let x = take_member(m, i);
            proof {
                lemma_members_view_update(before, i as int, (before[i as int].0, JsonValue::Null));
                lemma_key_index_update(mv, i as int, JsonView::Null, key@);
                assert(mv.update(i as int, (mv[i as int].0, JsonView::Null)) == members_view(m@));
            }
            match x {
                JsonValue::Object(mut c) => {
                    unflat_insert_exec(&mut c, parts, start + 1, v);
                    obj_insert(m, key, JsonValue::Object(c));
                    proof {
                        lemma_members_view(c@, c@.len() as int);
                    }
                    assert(members_view(m@) =~= unflat_insert(mv, pv, v@));
                },
                _ => {},
            }
        },
        None => {
            let mut c: Vec<(String, JsonValue)> = Vec::new();
            proof {
                lemma_members_view(c@, 0);
            }
            assert(members_view(c@) =~= Seq::<(Seq<char>, JsonView)>::empty());
            unflat_insert_exec(&mut c, parts, start + 1, v);
            obj_insert(m, key, JsonValue::Object(c));
            proof {
                lemma_members_view(c@, c@.len() as int);
            }
            assert(members_view(m@) =~= unflat_insert(mv, pv, v@));
        },
    }
}

fn split_key(key: &String) -> (parts: Vec<String>)
    ensures
        string_views(parts@) == split_char(key@, '.'),
        parts@.len() >= 1,
{
    let kc = str_chars(key.as_str());
    let pieces = split_at_char(kc.as_slice(), '.');
    let ghost pcv = pieces@.map_values(|l: Vec<char>| l@);
    let mut parts: Vec<String> = Vec::new();
    let mut i: usize = 0;
    while i < pieces.len()
        invariant
            i <= pieces@.len(),
            pcv == pieces@.map_values(|l: Vec<char>| l@),
            string_views(parts@) == pcv.take(i as int),
        decreases pieces@.len() - i,
    {
        let ghost before = string_views(parts@);
        parts.push(string_of(pieces[i].as_slice()));
        assert(string_views(parts@) == before.push(pcv[i as int]));
        assert(pcv.take(i + 1) == pcv.take(i as int).push(pcv[i as int]));
        i = i + 1;
    }
    assert(pcv.take(pieces@.len() as int) == pcv);
    proof {
        crate::text::lemma_split_char_len(key@, '.');
    }
    parts
}

/// Reconstructs a nested JSON object from dot-separated keys.
pub fn unflatten_to_json(flat: &IndexMap<String, String>) -> (v: JsonValue)
    ensures
        json_view(v) == JsonView::Object(unflatten(str_map_pairs(*flat))),
{
    let ghost fv = str_map_pairs(*flat);
    let m = str_map_len(flat);
    let mut root: Vec<(String, JsonValue)> = Vec::new();
    proof {
        lemma_members_view(root@, 0);
    }
    assert(members_view(root@) =~= Seq::<(Seq<char>, JsonView)>::empty());
    let mut j: usize = 0;
    while j < m
        invariant
            j <= m,
            m == fv.len(),
            fv == str_map_pairs(*flat),
            members_view(root@) == unflatten(fv.take(j as int)),
        decreases m - j,
    {
        assert(fv.take(j + 1).drop_last() == fv.take(j as int));
        assert(fv.take(j + 1).last() == fv[j as int]);
        match str_map_get_index(flat, j) {
            Some((k, v)) => {
                let parts = split_key(k);
                assert(string_views(parts@).skip(0) == string_views(parts@));
                unflat_insert_exec(&mut root, &parts, 0, v.clone());
            },
            None => {},
        }
        j = j + 1;
    }
    assert(fv.take(m as int) == fv);
    JsonValue::Object(root)
}

/// Writes the resource as pretty i18next JSON and a new line; fails only
/// when `serde_json` cannot serialize the object.
pub fn write_i18next(resource: &I18nResource) -> (r: Result<Vec<u8>, WriteError>)
    ensures
        r matches Ok(b) ==> b@ == spec_write(*resource),
        r is Ok,
        r matches Err(e) ==> e is Serialization,
{
    let ghost ps = entry_map_pairs(resource.entries);
    let n = entry_map_len(&resource.entries);
    let mut flat = str_map_new();
    let mut i: usize = 0;
    while i < n
        invariant
            i <= n,
            n == ps.len(),
            ps == entry_map_pairs(resource.entries),
            str_map_pairs(flat) == build_flat(ps.take(i as int)),
        decreases n - i,
    {
        assert(ps.take(i + 1).drop_last() == ps.take(i as int));
        assert(ps.take(i + 1).last() == ps[i as int]);
        match entry_map_get_index(&resource.entries, i) {
            Some((k, e)) => entry_flat_exec(&mut flat, k, e),
            None => {},
        }
        i = i + 1;
    }
    assert(ps.take(n as int) == ps);
    let v = unflatten_to_json(&flat);
    match to_pretty(&v) {
        Ok(text) => {
            let mut out = string_bytes(&text);
            out.push(10u8);
            Ok(out)
        },
        Err(e) => Err(WriteError::Serialization(e)),
    }
}

impl Writer {
    /// Writes the resource as pretty i18next JSON.
    pub fn write(&self, resource: &I18nResource) -> (r: Result<Vec<u8>, WriteError>)
        ensures
            r matches Ok(b) ==> b@ == spec_write(*resource),
            r is Ok,
        r matches Err(e) ==> e is Serialization,
    {
        write_i18next(resource)
    }
}

impl super::FormatParser for Parser {
    fn detect(&self, extension: &str, content: &[u8]) -> (c: Confidence)
        ensures
            c == spec_detect(extension@, content@),
    {
        Parser::detect(self, extension, content)
    }

    fn parse(&self, content: &[u8]) -> (r: Result<I18nResource, ParseError>)
        ensures
            !valid_utf8(content@) ==> r matches Err(ParseError::InvalidFormat(_)),
            valid_utf8(content@) ==> parse_ok(r, decode_utf8(content@)),
    {
        Parser::parse(self, content)
    }

    fn capabilities(&self) -> (c: FormatCapabilities)
        ensures
            c == spec_capabilities(),
    {
        Parser::capabilities(self)
    }
}

impl super::FormatWriter for Writer {
    fn write(&self, resource: &I18nResource) -> (r: Result<Vec<u8>, WriteError>)
        ensures
            r matches Ok(b) ==> b@ == spec_write(*resource),
            r is Ok,
        r matches Err(e) ==> e is Serialization,
    {
        Writer::write(self, resource)
    }

    fn capabilities(&self) -> (c: FormatCapabilities)
        ensures
            c == spec_capabilities(),
    {
        Writer::capabilities(self)
    }
}

} // verus!
