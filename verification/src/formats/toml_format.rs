//! TOML files: tables of keys with string, number and array values.
//! Reading and writing the text is done by `toml`; nested tables give
//! dotted keys.
use vstd::prelude::*;
use indexmap::IndexMap;
use crate::collections::{entry_map_pairs, entry_map_new, entry_map_insert, map_insert, pairs_model, lemma_pairs_model_insert};
use crate::ir::{I18nResource, I18nEntry, ResourceMetadata, FormatId, EntryValue, FormatCapabilities, FormatExtension, TomlExt};
use crate::json::{JsonValue, JsonView, json_view};
use crate::text::{str_eq, string_views, utf8_error_message, string_bytes};
use vstd::utf8::{valid_utf8, decode_utf8, encode_utf8};
use super::{Confidence, ParseError, WriteError};
use super::json_structured::{join_key, with_newline};
use super::json5_format::{j5_root, writable, build_root_exec};

verus! {

pub struct Parser;

pub struct Writer;

/// `toml::Value`, held opaquely while converting.
#[verifier::external_type_specification]
#[verifier::external_body]
pub struct ExTomlValue(toml::Value);

pub open spec fn spec_capabilities() -> FormatCapabilities {
    FormatCapabilities { arrays: true, nested_keys: true, ..FormatCapabilities::spec_none() }
}

// ---------------------------------------------------------------------------
// TOML values
// ---------------------------------------------------------------------------

/// A TOML value as read: numbers and datetimes keep the text `toml` gives
/// them; a table keeps its keys in the order they were read.
pub enum TomlValue {
    Str(String),
    Int(String),
    Float(String),
    Bool(bool),
    Datetime(String),
    Array(Vec<TomlValue>),
    Table(Vec<(String, TomlValue)>),
}

pub enum TomlView {
    Str(Seq<char>),
    Int(Seq<char>),
    Float(Seq<char>),
    Bool(bool),
    Datetime(Seq<char>),
    Array(Seq<TomlView>),
    Table(Seq<(Seq<char>, TomlView)>),
}

pub open spec fn toml_view(v: TomlValue) -> TomlView
    decreases v,
{
    match v {
        TomlValue::Str(s) => TomlView::Str(s@),
        TomlValue::Int(s) => TomlView::Int(s@),
        TomlValue::Float(s) => TomlView::Float(s@),
        TomlValue::Bool(b) => TomlView::Bool(b),
        TomlValue::Datetime(s) => TomlView::Datetime(s@),
        TomlValue::Array(a) => TomlView::Array(titems_upto(a@, a@.len() as int)),
        TomlValue::Table(m) => TomlView::Table(tmembers_upto(m@, m@.len() as int)),
    }
}

pub open spec fn titems_upto(a: Seq<TomlValue>, n: int) -> Seq<TomlView>
    decreases a, n,
{
    if n <= 0 || n > a.len() {
        Seq::empty()
    } else {
        proof {
            assert(decreases_to!(a => a[n - 1]));
        }
        titems_upto(a, n - 1).push(toml_view(a[n - 1]))
    }
}

pub open spec fn tmembers_upto(m: Seq<(String, TomlValue)>, n: int) -> Seq<(Seq<char>, TomlView)>
    decreases m, n,
{
    if n <= 0 || n > m.len() {
        Seq::empty()
    } else {
        proof {
            assert(decreases_to!(m => m[n - 1]));
        }
        tmembers_upto(m, n - 1).push((m[n - 1].0@, toml_view(m[n - 1].1)))
    }
}

pub proof fn lemma_tmembers(m: Seq<(String, TomlValue)>, n: int)
    requires
        0 <= n <= m.len(),
    ensures
        tmembers_upto(m, n).len() == n,
        forall|i: int| 0 <= i < n ==> #[trigger] tmembers_upto(m, n)[i] == (m[i].0@, toml_view(m[i].1)),
    decreases n,
{
    if n > 0 {
        lemma_tmembers(m, n - 1);
    }
}

pub proof fn lemma_titems(a: Seq<TomlValue>, n: int)
    requires
        0 <= n <= a.len(),
    ensures
        titems_upto(a, n).len() == n,
        forall|i: int| 0 <= i < n ==> #[trigger] titems_upto(a, n)[i] == toml_view(a[i]),
    decreases n,
{
    if n > 0 {
        lemma_titems(a, n - 1);
    }
}

/// What `toml::from_str::<toml::Value>` reads from a text: the value, or
/// none when the text is not TOML.
pub uninterp spec fn toml_read(s: Seq<char>) -> Option<TomlView>;

/// The text `toml::to_string_pretty` gives for the `toml` value that holds
/// a value to write: texts as strings, booleans as booleans, arrays as
/// arrays, tables as tables.
pub uninterp spec fn toml_pretty(v: TomlOutView) -> Seq<char>;

/// A value to write as TOML.
pub enum TomlOut {
    Str(String),
    Bool(bool),
    Array(Vec<TomlOut>),
    Table(Vec<(String, TomlOut)>),
}

pub enum TomlOutView {
    Str(Seq<char>),
    Bool(bool),
    Array(Seq<TomlOutView>),
    Table(Seq<(Seq<char>, TomlOutView)>),
}

pub open spec fn out_view(v: TomlOut) -> TomlOutView
    decreases v,
{
    match v {
        TomlOut::Str(s) => TomlOutView::Str(s@),
        TomlOut::Bool(b) => TomlOutView::Bool(b),
        TomlOut::Array(a) => TomlOutView::Array(oitems_upto(a@, a@.len() as int)),
        TomlOut::Table(m) => TomlOutView::Table(omembers_upto(m@, m@.len() as int)),
    }
}

pub open spec fn oitems_upto(a: Seq<TomlOut>, n: int) -> Seq<TomlOutView>
    decreases a, n,
{
    if n <= 0 || n > a.len() {
        Seq::empty()
    } else {
        proof {
            assert(decreases_to!(a => a[n - 1]));
        }
        oitems_upto(a, n - 1).push(out_view(a[n - 1]))
    }
}

pub open spec fn omembers_upto(m: Seq<(String, TomlOut)>, n: int) -> Seq<(Seq<char>, TomlOutView)>
    decreases m, n,
{
    if n <= 0 || n > m.len() {
        Seq::empty()
    } else {
        proof {
            assert(decreases_to!(m => m[n - 1]));
        }
        omembers_upto(m, n - 1).push((m[n - 1].0@, out_view(m[n - 1].1)))
    }
}

pub proof fn lemma_oitems(a: Seq<TomlOut>, n: int)
    requires
        0 <= n <= a.len(),
    ensures
        oitems_upto(a, n).len() == n,
        forall|i: int| 0 <= i < n ==> #[trigger] oitems_upto(a, n)[i] == out_view(a[i]),
    decreases n,
{
    if n > 0 {
        lemma_oitems(a, n - 1);
    }
}

pub proof fn lemma_omembers(m: Seq<(String, TomlOut)>, n: int)
    requires
        0 <= n <= m.len(),
    ensures
        omembers_upto(m, n).len() == n,
        forall|i: int| 0 <= i < n ==> #[trigger] omembers_upto(m, n)[i] == (m[i].0@, out_view(m[i].1)),
    decreases n,
{
    if n > 0 {
        lemma_omembers(m, n - 1);
    }
}

/// The TOML form of a JSON value: null becomes an empty string and a
/// number the string of its text; the rest keep their shape.
pub open spec fn toml_of(v: JsonView) -> TomlOutView
    decreases v,
{
    match v {
        JsonView::Null => TomlOutView::Str(Seq::empty()),
        JsonView::Bool(b) => TomlOutView::Bool(b),
        JsonView::Number(n) => TomlOutView::Str(n),
        JsonView::Str(s) => TomlOutView::Str(s),
        JsonView::Array(a) => TomlOutView::Array(out_items(a, a.len() as int)),
        JsonView::Object(m) => TomlOutView::Table(toml_members(m, m.len() as int)),
    }
}

pub open spec fn out_items(a: Seq<JsonView>, n: int) -> Seq<TomlOutView>
    decreases a, n,
{
    if n <= 0 || n > a.len() {
        Seq::empty()
    } else {
        proof {
            assert(decreases_to!(a => a[n - 1]));
        }
        out_items(a, n - 1).push(toml_of(a[n - 1]))
    }
}

pub open spec fn toml_members(m: Seq<(Seq<char>, JsonView)>, n: int) -> Seq<(Seq<char>, TomlOutView)>
    decreases m, n,
{
    if n <= 0 || n > m.len() {
        Seq::empty()
    } else {
        proof {
            assert(decreases_to!(m => m[n - 1]));
        }
        toml_members(m, n - 1).push((m[n - 1].0, toml_of(m[n - 1].1)))
    }
}

pub proof fn lemma_out_items(a: Seq<JsonView>, n: int)
    requires
        0 <= n <= a.len(),
    ensures
        out_items(a, n).len() == n,
        forall|i: int| 0 <= i < n ==> #[trigger] out_items(a, n)[i] == toml_of(a[i]),
    decreases n,
{
    if n > 0 {
        lemma_out_items(a, n - 1);
    }
}

pub proof fn lemma_toml_members(m: Seq<(Seq<char>, JsonView)>, n: int)
    requires
        0 <= n <= m.len(),
    ensures
        toml_members(m, n).len() == n,
        forall|i: int| 0 <= i < n ==> #[trigger] toml_members(m, n)[i] == (m[i].0, toml_of(m[i].1)),
    decreases n,
{
    if n > 0 {
        lemma_toml_members(m, n - 1);
    }
}

/// Converts a JSON value to the value written as TOML.
pub fn to_toml_out(v: &JsonValue) -> (r: TomlOut)
    ensures
        out_view(r) == toml_of(json_view(*v)),
    decreases v,
{
    match v {
        JsonValue::Null => TomlOut::Str(String::new()),
        JsonValue::Bool(b) => TomlOut::Bool(*b),
        JsonValue::Number(n) => TomlOut::Str(n.clone()),
        JsonValue::Str(t) => TomlOut::Str(t.clone()),
        JsonValue::Array(a) => {
            let mut out: Vec<TomlOut> = Vec::new();
            let mut i: usize = 0;
            proof {
                assert forall|j: int| 0 <= j < a@.len() implies decreases_to!(*v => #[trigger] a@[j]) by {
                    assert(decreases_to!(*v => *a));
                    assert(decreases_to!(*a => a@));
                    assert(decreases_to!(a@ => a@[j]));
                }
                crate::json::lemma_items_view(a@, a@.len() as int);
            }
            while i < a.len()
                invariant
                    forall|j: int| 0 <= j < a@.len() ==> decreases_to!(*v => #[trigger] a@[j]),
                    i <= a@.len(),
                    out@.len() == i,
                    forall|j: int| 0 <= j < i ==> out_view(#[trigger] out@[j]) == toml_of(json_view(a@[j])),
                decreases a@.len() - i,
            {
                let x = to_toml_out(&a[i]);
                out.push(x);
                i = i + 1;
            }
            proof {
                lemma_oitems(out@, out@.len() as int);
                let jv = crate::json::items_view_upto(a@, a@.len() as int);
                crate::json::lemma_items_view(a@, a@.len() as int);
                lemma_out_items(jv, jv.len() as int);
                assert(oitems_upto(out@, out@.len() as int) =~= out_items(jv, jv.len() as int));
            }
            TomlOut::Array(out)
        },
        JsonValue::Object(m) => {
            let mut out: Vec<(String, TomlOut)> = Vec::new();
            let mut i: usize = 0;
            proof {
                assert forall|j: int| 0 <= j < m@.len() implies decreases_to!(*v => #[trigger] m@[j].1) by {
                    assert(decreases_to!(*v => *m));
                    assert(decreases_to!(*m => m@));
                    assert(decreases_to!(m@ => m@[j]));
                    assert(decreases_to!(m@[j] => m@[j].1));
                }
            }
            while i < m.len()
                invariant
                    forall|j: int| 0 <= j < m@.len() ==> decreases_to!(*v => #[trigger] m@[j].1),
                    i <= m@.len(),
                    out@.len() == i,
                    forall|j: int|
                        0 <= j < i ==> (#[trigger] out@[j]).0@ == m@[j].0@ && out_view(out@[j].1) == toml_of(json_view(m@[j].1)),
                decreases m@.len() - i,
            {
                let x = to_toml_out(&m[i].1);
                out.push((m[i].0.clone(), x));
                i = i + 1;
            }
            proof {
                lemma_omembers(out@, out@.len() as int);
                let jv = crate::json::members_view(m@);
                crate::json::lemma_members_view(m@, m@.len() as int);
                lemma_toml_members(jv, jv.len() as int);
                assert(omembers_upto(out@, out@.len() as int) =~= toml_members(jv, jv.len() as int));
            }
            TomlOut::Table(out)
        },
    }
}

/// A `toml` value as a value of this library. Called only by `parse_toml`,
/// whose contract covers it.
#[verifier::external_body]
fn from_toml(v: &toml::Value) -> TomlValue {
    match v {
        toml::Value::String(s) => TomlValue::Str(s.clone()),
        toml::Value::Integer(n) => TomlValue::Int(n.to_string()),
        toml::Value::Float(x) => TomlValue::Float(x.to_string()),
        toml::Value::Boolean(b) => TomlValue::Bool(*b),
        toml::Value::Datetime(d) => TomlValue::Datetime(d.to_string()),
        toml::Value::Array(a) => TomlValue::Array(a.iter().map(from_toml).collect()),
        toml::Value::Table(t) => TomlValue::Table(t.iter().map(|(k, x)| (k.clone(), from_toml(x))).collect()),
    }
}

/// A value to write as a `toml` value, variant for variant. Called only
/// by `to_toml_pretty`.
#[verifier::external_body]
fn to_toml(v: &TomlOut) -> toml::Value {
    match v {
        TomlOut::Str(s) => toml::Value::String(s.clone()),
        TomlOut::Bool(b) => toml::Value::Boolean(*b),
        TomlOut::Array(a) => toml::Value::Array(a.iter().map(to_toml).collect()),
        TomlOut::Table(m) => toml::Value::Table(m.iter().map(|(k, x)| (k.clone(), to_toml(x))).collect()),
    }
}

/// `toml::from_str::<toml::Value>`: the value of a TOML text, or the
/// parser's message. The message's text is not stated.
#[verifier::external_body]
pub fn parse_toml(s: &str) -> (r: Result<TomlValue, String>)
    ensures
        match toml_read(s@) {
            Some(v) => r matches Ok(x) && toml_view(x) == v,
            None => r is Err,
        },
{
    match toml::from_str::<toml::Value>(s) {
        Ok(v) => Ok(from_toml(&v)),
        Err(e) => Err(e.to_string()),
    }
}

/// `toml::to_string_pretty` of a value: its text, or the serializer's
/// message (whose text is not stated). A table at the root always
/// serializes, as every value it holds is one `toml` can write.
#[verifier::external_body]
pub fn to_toml_pretty(v: &TomlOut) -> (r: Result<String, String>)
    ensures
        v is Table ==> r is Ok,
        r matches Ok(s) ==> s@ == toml_pretty(out_view(*v)),
{
    toml::to_string_pretty(&to_toml(v)).map_err(|e| e.to_string())
}

// ---------------------------------------------------------------------------
// Reading
// ---------------------------------------------------------------------------

/// A value read: a text, or the texts of an array of scalars.
pub enum TVal {
    Text(Seq<char>),
    Items(Seq<Seq<char>>),
}

/// The text of a scalar that may stand in an array.
pub open spec fn item_text(v: TomlView) -> Option<Seq<char>> {
    match v {
        TomlView::Str(s) => Some(s),
        TomlView::Int(s) => Some(s),
        TomlView::Float(s) => Some(s),
        TomlView::Bool(b) => Some(if b { "true"@ } else { "false"@ }),
        _ => None,
    }
}

pub open spec fn toml_items(a: Seq<TomlView>) -> Option<Seq<Seq<char>>>
    decreases a.len(),
{
    if a.len() == 0 {
        Some(Seq::empty())
    } else {
        match (toml_items(a.drop_last()), item_text(a.last())) {
            (Some(p), Some(t)) => Some(p.push(t)),
            _ => None,
        }
    }
}

/// The entries of the first `n` keys of a table under `prefix`, added to
/// `acc`: nested tables by their keys, scalars and datetimes as texts,
/// arrays of scalars as arrays.
pub open spec fn flatten_toml_upto(m: Seq<(Seq<char>, TomlView)>, n: int, prefix: Seq<char>, acc: Seq<(Seq<char>, TVal)>) -> Seq<
    (Seq<char>, TVal),
>
    decreases m, n,
{
    if n <= 0 || n > m.len() {
        acc
    } else {
        let acc1 = flatten_toml_upto(m, n - 1, prefix, acc);
        let full = join_key(prefix, m[n - 1].0);
        proof {
            assert(decreases_to!(m => m[n - 1]));
        }
        match m[n - 1].1 {
            TomlView::Table(sub) => flatten_toml_upto(sub, sub.len() as int, full, acc1),
            TomlView::Array(items) => match toml_items(items) {
                Some(t) => map_insert(acc1, full, TVal::Items(t)),
                None => acc1,
            },
            TomlView::Datetime(d) => map_insert(acc1, full, TVal::Text(d)),
            v => match item_text(v) {
                Some(t) => map_insert(acc1, full, TVal::Text(t)),
                None => acc1,
            },
        }
    }
}

pub open spec fn flatten_toml(m: Seq<(Seq<char>, TomlView)>) -> Seq<(Seq<char>, TVal)> {
    flatten_toml_upto(m, m.len() as int, Seq::empty(), Seq::empty())
}

pub open spec fn t_entry(e: I18nEntry, k: Seq<char>, x: TVal) -> bool {
    &&& e.key@ == k
    &&& match x {
        TVal::Text(t) => e.value matches EntryValue::Simple(s) && s@ == t,
        TVal::Items(t) => e.value matches EntryValue::Array(a) && string_views(a@) == t,
    }
    &&& e.comments@.len() == 0
    &&& e.format_ext is None
    &&& I18nEntry::spec_bare(e)
}

pub open spec fn t_rel() -> spec_fn(I18nEntry, TVal) -> bool {
    |e: I18nEntry, x: TVal| t_entry(e, e.key@, x)
}

fn item_exec(v: &TomlValue) -> (r: Option<String>)
    ensures
        match item_text(toml_view(*v)) {
            Some(t) => r matches Some(s) && s@ == t,
            None => r is None,
        },
{
    match v {
        TomlValue::Str(s) => Some(s.clone()),
        TomlValue::Int(s) => Some(s.clone()),
        TomlValue::Float(s) => Some(s.clone()),
        TomlValue::Bool(b) => Some(if *b { "true".to_owned() } else { "false".to_owned() }),
        _ => None,
    }
}

proof fn lemma_toml_items_none(a: Seq<TomlView>, i: int)
    requires
        0 <= i < a.len(),
        item_text(a[i]) is None,
    ensures
        toml_items(a) is None,
    decreases a.len(),
{
    if i < a.len() - 1 {
        lemma_toml_items_none(a.drop_last(), i);
    }
}

fn toml_items_exec(a: &Vec<TomlValue>) -> (r: Option<Vec<String>>)
    ensures
        match toml_items(titems_upto(a@, a@.len() as int)) {
            Some(t) => r matches Some(v) && string_views(v@) == t,
            None => r is None,
        },
{
    let ghost av = titems_upto(a@, a@.len() as int);
    proof {
        lemma_titems(a@, a@.len() as int);
    }
    let mut out: Vec<String> = Vec::new();
    let mut i: usize = 0;
    assert(av.take(0) =~= Seq::<TomlView>::empty());
    while i < a.len()
        invariant
            i <= a@.len(),
            av == titems_upto(a@, a@.len() as int),
            av.len() == a@.len(),
            forall|j: int| 0 <= j < a@.len() ==> #[trigger] av[j] == toml_view(a@[j]),
            toml_items(av.take(i as int)) == Some(string_views(out@)),
        decreases a@.len() - i,
    {
        assert(av.take(i + 1).drop_last() =~= av.take(i as int));
        assert(av.take(i + 1).last() == toml_view(a@[i as int]));
        match item_exec(&a[i]) {
            Some(t) => {
                let ghost before = out@;
                out.push(t);
                assert(string_views(out@) =~= string_views(before).push(t@));
            },
            None => {
                proof {
                    lemma_toml_items_none(av, i as int);
                }
                return None;
            },
        }
        i = i + 1;
    }
    assert(av.take(a@.len() as int) =~= av);
    Some(out)
}

fn insert_entry(entries: &mut IndexMap<String, I18nEntry>, key: String, value: EntryValue, Ghost(acc): Ghost<Seq<(Seq<char>, TVal)>>, Ghost(x): Ghost<TVal>)
    requires
        pairs_model(entry_map_pairs(*old(entries)), acc, t_rel()),
        match x {
            TVal::Text(t) => value matches EntryValue::Simple(s) && s@ == t,
            TVal::Items(t) => value matches EntryValue::Array(a) && string_views(a@) == t,
        },
    ensures
        pairs_model(entry_map_pairs(*final(entries)), map_insert(acc, key@, x), t_rel()),
{
    let e = I18nEntry::with_value(key.clone(), value);
    proof {
        lemma_pairs_model_insert(entry_map_pairs(*entries), acc, t_rel(), key@, e, x);
    }
    entry_map_insert(entries, key, e);
}

fn join_key_exec(prefix: &String, key: &String) -> (r: String)
    ensures
        r@ == join_key(prefix@, key@),
{
    if prefix.as_str().is_empty() {
        key.clone()
    } else {
        let mut r = prefix.clone();
        r.push('.');
        r.append(key.as_str());
        assert(r@ =~= prefix@ + seq!['.'] + key@);
        r
    }
}

/// Adds the entries of a table's keys under `prefix`.
fn flatten_toml_table(
    m: &Vec<(String, TomlValue)>,
    prefix: &String,
    entries: &mut IndexMap<String, I18nEntry>,
    Ghost(acc): Ghost<Seq<(Seq<char>, TVal)>>,
)
    requires
        pairs_model(entry_map_pairs(*old(entries)), acc, t_rel()),
    ensures
        pairs_model(entry_map_pairs(*final(entries)), flatten_toml_upto(tmembers_upto(m@, m@.len() as int), m@.len() as int, prefix@, acc), t_rel()),
    decreases m@,
{
    let ghost mv = tmembers_upto(m@, m@.len() as int);
    proof {
        lemma_tmembers(m@, m@.len() as int);
    }
    let mut i: usize = 0;
    while i < m.len()
        invariant
            i <= m@.len(),
            mv == tmembers_upto(m@, m@.len() as int),
            mv.len() == m@.len(),
            forall|j: int| 0 <= j < m@.len() ==> #[trigger] mv[j] == (m@[j].0@, toml_view(m@[j].1)),
            pairs_model(entry_map_pairs(*entries), flatten_toml_upto(mv, i as int, prefix@, acc), t_rel()),
        decreases m@.len() - i,
    {
        let ghost before = flatten_toml_upto(mv, i as int, prefix@, acc);
        let full = join_key_exec(prefix, &m[i].0);
        assert(mv[i as int] == (m@[i as int].0@, toml_view(m@[i as int].1)));
        match &m[i].1 {
            TomlValue::Table(sub) => {
                assert(decreases_to!(m@ => m@[i as int]));
                proof {
                    lemma_tmembers(sub@, sub@.len() as int);
                }
                flatten_toml_table(sub, &full, entries, Ghost(before));
            },
            TomlValue::Array(items) => {
                match toml_items_exec(items) {
                    Some(t) => {
                        let ghost x = TVal::Items(string_views(t@));
                        insert_entry(entries, full, EntryValue::Array(t), Ghost(before), Ghost(x));
                    },
                    None => {},
                }
            },
            TomlValue::Datetime(d) => {
                let ghost x = TVal::Text(d@);
                insert_entry(entries, full, EntryValue::Simple(d.clone()), Ghost(before), Ghost(x));
            },
            other => {
                match item_exec(other) {
                    Some(t) => {
                        let ghost x = TVal::Text(t@);
                        insert_entry(entries, full, EntryValue::Simple(t), Ghost(before), Ghost(x));
                    },
                    None => {},
                }
            },
        }
        i = i + 1;
    }
}

/// What reading TOML bytes gives.
pub open spec fn parse_ok(r: Result<I18nResource, ParseError>, content: Seq<u8>) -> bool {
    if !valid_utf8(content) {
        r matches Err(ParseError::InvalidFormat(_))
    } else {
        match toml_read(decode_utf8(content)) {
            Some(TomlView::Table(m)) => r matches Ok(res) && {
                &&& ResourceMetadata::spec_plain_except_ext(res.metadata, FormatId::Toml)
                &&& (res.metadata.format_ext matches Some(FormatExtension::Toml(x)) && x.table_path is None)
                &&& pairs_model(entry_map_pairs(res.entries), flatten_toml(m), t_rel())
            },
            _ => r matches Err(ParseError::InvalidFormat(_)),
        }
    }
}

/// How sure this format is that it can read a file.
pub open spec fn spec_detect(extension: Seq<char>, content: Seq<u8>) -> Confidence {
    if extension == ".toml"@ {
        if valid_utf8(content) && toml_read(decode_utf8(content)) is Some {
            Confidence::High
        } else {
            Confidence::Low
        }
    } else {
        Confidence::NoMatch
    }
}

impl Parser {
    /// `.toml` is likely when the text reads as TOML, a low guess when it
    /// does not; other extensions are not recognised.
    pub fn detect(&self, extension: &str, content: &[u8]) -> (c: Confidence)
        ensures
            c == spec_detect(extension@, content@),
    {
        if str_eq(extension, ".toml") {
            match std::str::from_utf8(content) {
                Ok(s) => if parse_toml(s).is_ok() {
                    return Confidence::High;
                },
                Err(_) => {},
            }
            return Confidence::Low;
        }
        Confidence::NoMatch
    }

    /// Parses TOML: the root is a table.
    pub fn parse(&self, content: &[u8]) -> (r: Result<I18nResource, ParseError>)
        ensures
            parse_ok(r, content@),
    {
        let s = match std::str::from_utf8(content) {
            Ok(s) => s,
            Err(e) => return Err(ParseError::InvalidFormat(utf8_error_message(&e))),
        };
        match parse_toml(s) {
            Ok(TomlValue::Table(m)) => {
                proof {
                    lemma_tmembers(m@, m@.len() as int);
                }
                let mut entries = entry_map_new();
                let prefix = String::new();
                flatten_toml_table(&m, &prefix, &mut entries, Ghost(Seq::empty()));
                let mut metadata = ResourceMetadata::for_format(FormatId::Toml);
                metadata.format_ext = Some(FormatExtension::Toml(TomlExt { table_path: None }));
                Ok(I18nResource { metadata, entries })
            },
            Ok(_) => Err(ParseError::InvalidFormat("Root must be a TOML table".to_owned())),
            Err(e) => {
                let mut msg = "TOML parse error: ".to_owned();
                msg.append(e.as_str());
                Err(ParseError::InvalidFormat(msg))
            },
        }
    }

    pub fn capabilities(&self) -> (c: FormatCapabilities)
        ensures
            c == spec_capabilities(),
    {
        FormatCapabilities { arrays: true, nested_keys: true, ..FormatCapabilities::default() }
    }
}

// ---------------------------------------------------------------------------
// Writing
// ---------------------------------------------------------------------------

impl Writer {
    /// Writes the resource as pretty-printed TOML ending with a new line:
    /// the same nested tables as JSON5 builds. Every dotted key must find
    /// tables (or nothing) on its way.
    pub fn write(&self, resource: &I18nResource) -> (r: Result<Vec<u8>, WriteError>)
        requires
            writable(entry_map_pairs(resource.entries)),
        ensures
            r matches Ok(b) ==> b@ == with_newline(
                encode_utf8(toml_pretty(toml_of(JsonView::Object(j5_root(entry_map_pairs(resource.entries)))))),
            ),
            r is Ok,
            r matches Err(e) ==> e is Serialization,
    {
        let root = JsonValue::Object(build_root_exec(resource));
        let out_root = to_toml_out(&root);
        match to_toml_pretty(&out_root) {
            Ok(text) => {
                let mut out = string_bytes(&text);
                if out.len() == 0 || out[out.len() - 1] != 10u8 {
                    out.push(10u8);
                }
                Ok(out)
            },
            Err(e) => Err(WriteError::Serialization(e)),
        }
    }

    pub fn capabilities(&self) -> (c: FormatCapabilities)
        ensures
            c == spec_capabilities(),
    {
        Parser.capabilities()
    }
}

impl super::FormatParser for Parser {
    fn detect(&self, extension: &str, content: &[u8]) -> (c: Confidence)
        ensures
            c == spec_detect(extension@, content@),
    {
        Parser::detect(self, extension, content)
    }

    fn parse(&self, content: &[u8]) -> (r: Result<I18nResource, ParseError>)
        ensures
            parse_ok(r, content@),
    {
        Parser::parse(self, content)
    }

    fn capabilities(&self) -> (c: FormatCapabilities)
        ensures
            c == spec_capabilities(),
    {
        Parser::capabilities(self)
    }
}

impl super::FormatWriter for Writer {
    fn write(&self, resource: &I18nResource) -> (r: Result<Vec<u8>, WriteError>)
        ensures
            !(writable(entry_map_pairs(resource.entries))) ==> (r matches Err(e) && e is Serialization),
            (writable(entry_map_pairs(resource.entries))) ==> (r matches Ok(b) ==> b@ == with_newline(
                encode_utf8(toml_pretty(toml_of(JsonView::Object(j5_root(entry_map_pairs(resource.entries)))))),
            )),
            (writable(entry_map_pairs(resource.entries))) ==> (r is Ok),
            (writable(entry_map_pairs(resource.entries))) ==> (r matches Err(e) ==> e is Serialization),
    {
        if super::json5_format::can_write(resource) {
            Writer::write(self, resource)
        } else {
            Err(WriteError::Serialization("the resource cannot be written in this format".to_owned()))
        }
    }

    fn capabilities(&self) -> (c: FormatCapabilities)
        ensures
            c == spec_capabilities(),
    {
        Writer::capabilities(self)
    }
}

} // verus!
