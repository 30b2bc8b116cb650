//! JSON5 files: JSON with comments, unquoted keys, single quotes and
//! trailing commas. Reading is done by `json5`; nested objects give dotted
//! keys. Written as standard JSON, which is JSON5.
use vstd::prelude::*;
use indexmap::IndexMap;
use crate::collections::{
    entry_map_pairs, entry_map_new, entry_map_insert, entry_map_len, entry_map_get_index, map_insert, map_get, pairs_model,
    lemma_pairs_model_insert, str_map_pairs, str_map_get, key_index, lemma_key_index,
};
use crate::ir::{I18nResource, I18nEntry, ResourceMetadata, FormatId, EntryValue, FormatCapabilities, FormatExtension, Json5Ext};
use crate::json::{
    JsonValue, JsonView, json_view, members_view, lemma_members_view, lemma_items_view, items_view_upto, json5_read,
    parse_json5, json_pretty, to_pretty, obj_find,
};
use crate::text::{str_eq, split_char, lemma_split_char_len, string_views, utf8_error_message, string_bytes};
use vstd::utf8::{valid_utf8, decode_utf8, encode_utf8};
use super::{Confidence, ParseError, WriteError};
use super::json_structured::{join_key, scalar_text, nest_insert, nest_insert_exec, key_parts, with_newline};

verus! {

pub struct Parser;

pub struct Writer;

pub open spec fn spec_capabilities() -> FormatCapabilities {
    FormatCapabilities { arrays: true, nested_keys: true, ..FormatCapabilities::spec_none() }
}

// ---------------------------------------------------------------------------
// Reading
// ---------------------------------------------------------------------------

/// A value read: a text, or the texts of an array of scalars.
pub enum J5Val {
    Text(Seq<char>),
    Items(Seq<Seq<char>>),
}

/// The texts of the items when every item is a scalar.
pub open spec fn scalar_items(a: Seq<JsonView>) -> Option<Seq<Seq<char>>>
    decreases a.len(),
{
    if a.len() == 0 {
        Some(Seq::empty())
    } else {
        match (scalar_items(a.drop_last()), scalar_text(a.last())) {
            (Some(p), Some(t)) => Some(p.push(t)),
            _ => None,
        }
    }
}

/// The entries of the first `n` members under `prefix`, added to `acc`:
/// nested objects by their members, scalars as texts, arrays of scalars as
/// arrays.
pub open spec fn flatten5_upto(
    m: Seq<(Seq<char>, JsonView)>,
    n: int,
    prefix: Seq<char>,
    acc: Seq<(Seq<char>, J5Val)>,
) -> Seq<(Seq<char>, J5Val)>
    decreases m, n,
{
    if n <= 0 || n > m.len() {
        acc
    } else {
        let acc1 = flatten5_upto(m, n - 1, prefix, acc);
        let full = join_key(prefix, m[n - 1].0);
        proof {
            assert(decreases_to!(m => m[n - 1]));
        }
        match m[n - 1].1 {
            JsonView::Object(sub) => flatten5_upto(sub, sub.len() as int, full, acc1),
            JsonView::Array(items) => match scalar_items(items) {
                Some(t) => map_insert(acc1, full, J5Val::Items(t)),
                None => acc1,
            },
            v => match scalar_text(v) {
                Some(t) => map_insert(acc1, full, J5Val::Text(t)),
                None => acc1,
            },
        }
    }
}

pub open spec fn flatten5(m: Seq<(Seq<char>, JsonView)>) -> Seq<(Seq<char>, J5Val)> {
    flatten5_upto(m, m.len() as int, Seq::empty(), Seq::empty())
}

pub open spec fn j5_entry(e: I18nEntry, k: Seq<char>, x: J5Val) -> bool {
    &&& e.key@ == k
    &&& match x {
        J5Val::Text(t) => e.value matches EntryValue::Simple(s) && s@ == t,
        J5Val::Items(t) => e.value matches EntryValue::Array(a) && string_views(a@) == t,
    }
    &&& e.comments@.len() == 0
    &&& e.format_ext is None
    &&& I18nEntry::spec_bare(e)
}

pub open spec fn j5_rel() -> spec_fn(I18nEntry, J5Val) -> bool {
    |e: I18nEntry, x: J5Val| j5_entry(e, e.key@, x)
}

fn scalar_exec(v: &JsonValue) -> (r: Option<String>)
    ensures
        opt_view_s(r) == scalar_text(json_view(*v)),
{
    match v {
        JsonValue::Str(s) => Some(s.clone()),
        JsonValue::Number(n) => Some(n.clone()),
        JsonValue::Bool(b) => Some(if *b { "true".to_owned() } else { "false".to_owned() }),
        _ => None,
    }
}

pub open spec fn opt_view_s(o: Option<String>) -> Option<Seq<char>> {
    match o {
        Some(s) => Some(s@),
        None => None,
    }
}

/// The texts of an array of scalars, or none.
fn scalar_items_exec(a: &Vec<JsonValue>) -> (r: Option<Vec<String>>)
    ensures
        match scalar_items(items_view_upto(a@, a@.len() as int)) {
            Some(t) => r matches Some(v) && string_views(v@) == t,
            None => r is None,
        },
{
    let ghost av = items_view_upto(a@, a@.len() as int);
    proof {
        lemma_items_view(a@, a@.len() as int);
    }
    let mut out: Vec<String> = Vec::new();
    let mut i: usize = 0;
    assert(av.take(0) =~= Seq::<JsonView>::empty());
    while i < a.len()
        invariant
            i <= a@.len(),
            av == items_view_upto(a@, a@.len() as int),
            av.len() == a@.len(),
            forall|j: int| 0 <= j < a@.len() ==> #[trigger] av[j] == json_view(a@[j]),
            scalar_items(av.take(i as int)) == Some(string_views(out@)),
        decreases a@.len() - i,
    {
        assert(av.take(i + 1).drop_last() =~= av.take(i as int));
        assert(av.take(i + 1).last() == json_view(a@[i as int]));
        match scalar_exec(&a[i]) {
            Some(t) => {
                let ghost before = out@;
                out.push(t);
                assert(string_views(out@) =~= string_views(before).push(t@));
            },
            None => {
                proof {
                    lemma_scalar_items_none(av, i as int);
                }
                return None;
            },
        }
        i = i + 1;
    }
    assert(av.take(a@.len() as int) =~= av);
    Some(out)
}

proof fn lemma_scalar_items_none(a: Seq<JsonView>, i: int)
    requires
        0 <= i < a.len(),
        scalar_text(a[i]) is None,
    ensures
        scalar_items(a) is None,
    decreases a.len(),
{
    if i < a.len() - 1 {
        lemma_scalar_items_none(a.drop_last(), i);
    }
}

fn insert_entry(entries: &mut IndexMap<String, I18nEntry>, key: String, value: EntryValue, Ghost(acc): Ghost<Seq<(Seq<char>, J5Val)>>, Ghost(x): Ghost<J5Val>)
    requires
        pairs_model(entry_map_pairs(*old(entries)), acc, j5_rel()),
        match x {
            J5Val::Text(t) => value matches EntryValue::Simple(s) && s@ == t,
            J5Val::Items(t) => value matches EntryValue::Array(a) && string_views(a@) == t,
        },
    ensures
        pairs_model(entry_map_pairs(*final(entries)), map_insert(acc, key@, x), j5_rel()),
{
    let e = I18nEntry::with_value(key.clone(), value);
    proof {
        lemma_pairs_model_insert(entry_map_pairs(*entries), acc, j5_rel(), key@, e, x);
    }
    entry_map_insert(entries, key, e);
}

fn join_key_exec(prefix: &String, key: &String) -> (r: String)
    ensures
        r@ == join_key(prefix@, key@),
{
    if prefix.as_str().is_empty() {
        key.clone()
    } else {
        let mut r = prefix.clone();
        r.push('.');
        r.append(key.as_str());
        assert(r@ =~= prefix@ + seq!['.'] + key@);
        r
    }
}

/// Adds the entries of an object's members under `prefix`.
fn flatten_json5_object(
    m: &Vec<(String, JsonValue)>,
    prefix: &String,
    entries: &mut IndexMap<String, I18nEntry>,
    Ghost(acc): Ghost<Seq<(Seq<char>, J5Val)>>,
)
    requires
        pairs_model(entry_map_pairs(*old(entries)), acc, j5_rel()),
    ensures
        pairs_model(entry_map_pairs(*final(entries)), flatten5_upto(members_view(m@), m@.len() as int, prefix@, acc), j5_rel()),
    decreases m@,
{
    let ghost mv = members_view(m@);
    proof {
        lemma_members_view(m@, m@.len() as int);
    }
    let mut i: usize = 0;
    while i < m.len()
        invariant
            i <= m@.len(),
            mv == members_view(m@),
            mv.len() == m@.len(),
            forall|j: int| 0 <= j < m@.len() ==> #[trigger] mv[j] == (m@[j].0@, json_view(m@[j].1)),
            pairs_model(entry_map_pairs(*entries), flatten5_upto(mv, i as int, prefix@, acc), j5_rel()),
        decreases m@.len() - i,
    {
        let ghost before = flatten5_upto(mv, i as int, prefix@, acc);
        let full = join_key_exec(prefix, &m[i].0);
        assert(mv[i as int] == (m@[i as int].0@, json_view(m@[i as int].1)));
        match &m[i].1 {
            JsonValue::Object(sub) => {
                assert(decreases_to!(m@ => m@[i as int]));
                proof {
                    lemma_members_view(sub@, sub@.len() as int);
                }
                flatten_json5_object(sub, &full, entries, Ghost(before));
            },
            JsonValue::Array(items) => {
                match scalar_items_exec(items) {
                    Some(t) => {
                        let ghost x = J5Val::Items(string_views(t@));
                        insert_entry(entries, full, EntryValue::Array(t), Ghost(before), Ghost(x));
                    },
                    None => {},
                }
            },
            other => {
                match scalar_exec(other) {
                    Some(t) => {
                        let ghost x = J5Val::Text(t@);
                        insert_entry(entries, full, EntryValue::Simple(t), Ghost(before), Ghost(x));
                    },
                    None => {},
                }
            },
        }
        i = i + 1;
    }
}

/// What reading JSON5 bytes gives.
pub open spec fn parse_ok(r: Result<I18nResource, ParseError>, content: Seq<u8>) -> bool {
    if !valid_utf8(content) {
        r matches Err(ParseError::InvalidFormat(_))
    } else {
        match json5_read(decode_utf8(content)) {
            None => r matches Err(ParseError::Json(_)),
            Some(JsonView::Object(m)) => r matches Ok(res) && {
                &&& ResourceMetadata::spec_plain_except_ext(res.metadata, FormatId::Json5)
                &&& (res.metadata.format_ext matches Some(FormatExtension::Json5(x)) && x.trailing_commas is None)
                &&& pairs_model(entry_map_pairs(res.entries), flatten5(m), j5_rel())
            },
            Some(_) => r matches Err(ParseError::InvalidFormat(_)),
        }
    }
}

/// How sure this format is that it can read a file.
pub open spec fn spec_detect(extension: Seq<char>, content: Seq<u8>) -> Confidence {
    if extension == ".json5"@ {
        if valid_utf8(content) && json5_read(decode_utf8(content)) is Some {
            Confidence::Definite
        } else {
            Confidence::Low
        }
    } else {
        Confidence::NoMatch
    }
}

impl Parser {
    /// `.json5` is certain when the text reads as JSON5, a low guess when it
    /// does not; other extensions are not recognised.
    pub fn detect(&self, extension: &str, content: &[u8]) -> (c: Confidence)
        ensures
            c == spec_detect(extension@, content@),
    {
        if str_eq(extension, ".json5") {
            match std::str::from_utf8(content) {
                Ok(s) => if parse_json5(s).is_ok() {
                    return Confidence::Definite;
                },
                Err(_) => {},
            }
            return Confidence::Low;
        }
        Confidence::NoMatch
    }

    /// Parses JSON5: the root must be an object.
    pub fn parse(&self, content: &[u8]) -> (r: Result<I18nResource, ParseError>)
        ensures
            parse_ok(r, content@),
    {
        let s = match std::str::from_utf8(content) {
            Ok(s) => s,
            Err(e) => return Err(ParseError::InvalidFormat(utf8_error_message(&e))),
        };
        match parse_json5(s) {
            Ok(JsonValue::Object(m)) => {
                proof {
                    lemma_members_view(m@, m@.len() as int);
                }
                let mut entries = entry_map_new();
                let prefix = String::new();
                flatten_json5_object(&m, &prefix, &mut entries, Ghost(Seq::empty()));
                let mut metadata = ResourceMetadata::for_format(FormatId::Json5);
                metadata.format_ext = Some(FormatExtension::Json5(Json5Ext { trailing_commas: None }));
                Ok(I18nResource { metadata, entries })
            },
            Ok(_) => Err(ParseError::InvalidFormat("Root must be a JSON5 object".to_owned())),
            Err(e) => {
                let mut msg = "JSON5 parse error: ".to_owned();
                msg.append(e.as_str());
                Err(ParseError::Json(msg))
            },
        }
    }

    pub fn capabilities(&self) -> (c: FormatCapabilities)
        ensures
            c == spec_capabilities(),
    {
        FormatCapabilities { arrays: true, nested_keys: true, ..FormatCapabilities::default() }
    }
}

// ---------------------------------------------------------------------------
// Writing
// ---------------------------------------------------------------------------

/// The JSON value of an entry's value: a text, the `other` form of a
/// plural, the items of an array, the `other` case of a select, the pattern
/// of a multi-variable plural.
pub open spec fn j5_value(v: EntryValue) -> JsonView {
    match v {
        EntryValue::Simple(s) => JsonView::Str(s@),
        EntryValue::Plural(ps) => JsonView::Str(ps.other@),
        EntryValue::Array(items) => JsonView::Array(string_views(items@).map_values(|s: Seq<char>| JsonView::Str(s))),
        EntryValue::Select(ss) => JsonView::Str(
            match map_get(str_map_pairs(ss.cases), "other"@) {
                Some(t) => t,
                None => Seq::empty(),
            },
        ),
        EntryValue::MultiVariablePlural(m) => JsonView::Str(m.pattern@),
    }
}

/// Whether the path can be inserted: every step but the last is absent or
/// an object.
pub open spec fn path_ok(m: Seq<(Seq<char>, JsonView)>, parts: Seq<Seq<char>>) -> bool
    decreases parts.len(),
{
    if parts.len() <= 1 {
        true
    } else {
        match map_get(m, parts[0]) {
            Some(JsonView::Object(c)) => path_ok(c, parts.drop_first()),
            Some(_) => false,
            None => true,
        }
    }
}

/// The root object built from the entries, in order.
pub open spec fn j5_root(ps: Seq<(Seq<char>, I18nEntry)>) -> Seq<(Seq<char>, JsonView)>
    decreases ps.len(),
{
    if ps.len() == 0 {
        Seq::empty()
    } else {
        nest_insert(j5_root(ps.drop_last()), split_char(ps.last().1.key@, '.'), j5_value(ps.last().1.value))
    }
}

/// Whether every entry's dotted key finds objects (or nothing) on its way.
pub open spec fn writable(ps: Seq<(Seq<char>, I18nEntry)>) -> bool
    decreases ps.len(),
{
    if ps.len() == 0 {
        true
    } else {
        writable(ps.drop_last()) && path_ok(j5_root(ps.drop_last()), split_char(ps.last().1.key@, '.'))
    }
}

fn path_ok_exec(m: &Vec<(String, JsonValue)>, parts: &Vec<String>, start: usize) -> (b: bool)
    requires
        start < parts@.len(),
    ensures
        b == path_ok(members_view(m@), string_views(parts@).skip(start as int)),
    decreases parts@.len() - start,
{
    let ghost pv = string_views(parts@).skip(start as int);
    if start >= parts.len() - 1 {
        return true;
    }
    assert(pv[0] == parts@[start as int]@);
    assert(pv.drop_first() == string_views(parts@).skip(start + 1));
    let ghost mv = members_view(m@);
    proof {
        lemma_members_view(m@, m@.len() as int);
        lemma_key_index(mv, parts@[start as int]@);
    }
    match obj_find(m, parts[start].as_str()) {
        Some(i) => {
            assert(mv[i as int] == (m@[i as int].0@, json_view(m@[i as int].1)));
            match &m[i].1 {
                JsonValue::Object(c) => {
                    proof {
                        lemma_members_view(c@, c@.len() as int);
                    }
                    path_ok_exec(c, parts, start + 1)
                },
                _ => false,
            }
        },
        None => true,
    }
}

fn j5_value_exec(v: &EntryValue) -> (r: JsonValue)
    ensures
        json_view(r) == j5_value(*v),
{
    match v {
        EntryValue::Simple(s) => JsonValue::Str(s.clone()),
        EntryValue::Plural(ps) => JsonValue::Str(ps.other.clone()),
        EntryValue::Array(items) => {
            let mut a: Vec<JsonValue> = Vec::new();
            let mut i: usize = 0;
            while i < items.len()
                invariant
                    i <= items@.len(),
                    a@.len() == i,
                    forall|j: int| 0 <= j < i ==> #[trigger] a@[j] == JsonValue::Str(items@[j]),
                decreases items@.len() - i,
            {
                a.push(JsonValue::Str(items[i].clone()));
                i = i + 1;
            }
            proof {
                lemma_items_view(a@, a@.len() as int);
                assert(items_view_upto(a@, a@.len() as int) =~= string_views(items@).map_values(|s: Seq<char>| JsonView::Str(s)));
            }
            JsonValue::Array(a)
        },
        EntryValue::Select(ss) => JsonValue::Str(
            match str_map_get(&ss.cases, "other") {
                Some(t) => t.clone(),
                None => String::new(),
            },
        ),
        EntryValue::MultiVariablePlural(m) => JsonValue::Str(m.pattern.clone()),
    }
}

/// Whether the resource can be written: no dotted key runs through a
/// value that is not an object.
pub fn can_write(resource: &I18nResource) -> (b: bool)
    ensures
        b == writable(entry_map_pairs(resource.entries)),
{
    let ghost ps = entry_map_pairs(resource.entries);
    let n = entry_map_len(&resource.entries);
    let mut root: Vec<(String, JsonValue)> = Vec::new();
    assert(members_view(root@) =~= Seq::<(Seq<char>, JsonView)>::empty());
    let mut i: usize = 0;
    while i < n
        invariant
            i <= n,
            n == ps.len(),
            ps == entry_map_pairs(resource.entries),
            members_view(root@) == j5_root(ps.take(i as int)),
            writable(ps.take(i as int)),
        decreases n - i,
    {
        assert(ps.take(i + 1).drop_last() =~= ps.take(i as int));
        match entry_map_get_index(&resource.entries, i) {
            Some((_k, e)) => {
                let parts = key_parts(&e.key);
                proof {
                    lemma_split_char_len(e.key@, '.');
                    assert(string_views(parts@).skip(0) =~= string_views(parts@));
                }
                if !path_ok_exec(&root, &parts, 0) {
                    proof {
                        lemma_writable_prefix(ps, i as int + 1);
                    }
                    return false;
                }
                nest_insert_exec(&mut root, &parts, 0, j5_value_exec(&e.value));
            },
            None => {},
        }
        i = i + 1;
    }
    assert(ps.take(n as int) =~= ps);
    true
}

proof fn lemma_writable_prefix(ps: Seq<(Seq<char>, I18nEntry)>, n: int)
    requires
        0 <= n <= ps.len(),
        !writable(ps.take(n)),
    ensures
        !writable(ps),
    decreases ps.len() - n,
{
    if n < ps.len() {
        assert(ps.take(n + 1).drop_last() =~= ps.take(n));
        lemma_writable_prefix(ps, n + 1);
    } else {
        assert(ps.take(n) =~= ps);
    }
}

proof fn lemma_writable_take(ps: Seq<(Seq<char>, I18nEntry)>, n: int)
    requires
        0 <= n <= ps.len(),
        writable(ps),
    ensures
        writable(ps.take(n)),
{
    if !writable(ps.take(n)) {
        lemma_writable_prefix(ps, n);
    }
}

/// The root object of the document.
pub fn build_root_exec(resource: &I18nResource) -> (root: Vec<(String, JsonValue)>)
    requires
        writable(entry_map_pairs(resource.entries)),
    ensures
        members_view(root@) == j5_root(entry_map_pairs(resource.entries)),
{
    let ghost ps = entry_map_pairs(resource.entries);
    let n = entry_map_len(&resource.entries);
    let mut root: Vec<(String, JsonValue)> = Vec::new();
    assert(members_view(root@) =~= Seq::<(Seq<char>, JsonView)>::empty());
    let mut i: usize = 0;
    while i < n
        invariant
            i <= n,
            n == ps.len(),
            ps == entry_map_pairs(resource.entries),
            members_view(root@) == j5_root(ps.take(i as int)),
        decreases n - i,
    {
        assert(ps.take(i + 1).drop_last() =~= ps.take(i as int));
        match entry_map_get_index(&resource.entries, i) {
            Some((_k, e)) => {
                let parts = key_parts(&e.key);
                proof {
                    lemma_split_char_len(e.key@, '.');
                    assert(string_views(parts@).skip(0) =~= string_views(parts@));
                }
                nest_insert_exec(&mut root, &parts, 0, j5_value_exec(&e.value));
            },
            None => {},
        }
        i = i + 1;
    }
    assert(ps.take(n as int) =~= ps);
    root
}

impl Writer {
    /// Writes the resource as pretty-printed JSON ending with a new line.
    /// Every dotted key must find objects (or nothing) on its way.
    pub fn write(&self, resource: &I18nResource) -> (r: Result<Vec<u8>, WriteError>)
        requires
            writable(entry_map_pairs(resource.entries)),
        ensures
            r matches Ok(b) ==> b@ == with_newline(encode_utf8(json_pretty(JsonView::Object(j5_root(entry_map_pairs(resource.entries)))))),
            r is Ok,
            r matches Err(e) ==> e is Serialization,
    {
        let root = JsonValue::Object(build_root_exec(resource));
        match to_pretty(&root) {
            Ok(json) => {
                let mut out = string_bytes(&json);
                if out.len() == 0 || out[out.len() - 1] != 10u8 {
                    out.push(10u8);
                }
                Ok(out)
            },
            Err(e) => Err(WriteError::Serialization(e)),
        }
    }

    pub fn capabilities(&self) -> (c: FormatCapabilities)
        ensures
            c == spec_capabilities(),
    {
        Parser.capabilities()
    }
}

impl super::FormatParser for Parser {
    fn detect(&self, extension: &str, content: &[u8]) -> (c: Confidence)
        ensures
            c == spec_detect(extension@, content@),
    {
        Parser::detect(self, extension, content)
    }

    fn parse(&self, content: &[u8]) -> (r: Result<I18nResource, ParseError>)
        ensures
            parse_ok(r, content@),
    {
        Parser::parse(self, content)
    }

    fn capabilities(&self) -> (c: FormatCapabilities)
        ensures
            c == spec_capabilities(),
    {
        Parser::capabilities(self)
    }
}

impl super::FormatWriter for Writer {
    fn write(&self, resource: &I18nResource) -> (r: Result<Vec<u8>, WriteError>)
        ensures
            !(writable(entry_map_pairs(resource.entries))) ==> (r matches Err(e) && e is Serialization),
            (writable(entry_map_pairs(resource.entries))) ==> (r matches Ok(b) ==> b@ == with_newline(encode_utf8(json_pretty(JsonView::Object(j5_root(entry_map_pairs(resource.entries))))))),
            (writable(entry_map_pairs(resource.entries))) ==> (r is Ok),
            (writable(entry_map_pairs(resource.entries))) ==> (r matches Err(e) ==> e is Serialization),
    {
        if super::json5_format::can_write(resource) {
            Writer::write(self, resource)
        } else {
            Err(WriteError::Serialization("the resource cannot be written in this format".to_owned()))
        }
    }

    fn capabilities(&self) -> (c: FormatCapabilities)
        ensures
            c == spec_capabilities(),
    {
        Writer::capabilities(self)
    }
}

} // verus!
