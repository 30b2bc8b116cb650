//! iOS property lists (`.plist`) holding texts: strings, arrays of strings
//! and nested dictionaries, whose keys are joined with dots. Reading and
//! writing the property-list syntax is done by `plist`; the library works on
//! the values, held as `JsonValue`s (strings, objects for dictionaries,
//! arrays).
use vstd::prelude::*;
use indexmap::IndexMap;
use crate::collections::{
    entry_map_pairs, entry_map_new, entry_map_insert, entry_map_len, entry_map_get_index, map_insert, map_get,
    pairs_model, lemma_pairs_model_insert, key_index, lemma_key_index,
};
use crate::ir::{I18nResource, I18nEntry, ResourceMetadata, FormatId, EntryValue, FormatCapabilities, FormatExtension, IosPlistExt};
use crate::json::{
    JsonValue, JsonView, json_view, members_view, lemma_members_view, items_view_upto, lemma_items_view, obj_insert,
    obj_find, take_member,
};
use crate::text::{str_eq, str_chars, chars_contain, contains, string_views, split_char, lossy_utf8, from_utf8_lossy};
use super::{Confidence, ParseError, WriteError};
use super::json_structured::{join_key, key_parts};
use super::json5_format::{J5Val, j5_rel};
use super::hjson::{hj_json, hj_json_exec};

verus! {

pub struct Parser;

pub struct Writer;

pub open spec fn spec_capabilities() -> FormatCapabilities {
    FormatCapabilities { arrays: true, nested_keys: true, ..FormatCapabilities::spec_none() }
}

// ---------------------------------------------------------------------------
// The property-list syntax, by `plist`
// ---------------------------------------------------------------------------

/// `plist::Value`, held opaquely while converting.
#[verifier::external_type_specification]
#[verifier::external_body]
pub struct ExPlistValue(plist::Value);

/// The value that `plist::from_bytes` reads from the bytes, as the library
/// holds it, or none when they are no property list.
pub uninterp spec fn plist_read(b: Seq<u8>) -> Option<JsonView>;

/// The bytes of the XML property list that `plist::to_writer_xml` writes
/// for the value.
pub uninterp spec fn plist_xml(v: JsonView) -> Seq<u8>;

/// A `plist` value as the library holds it: a string as a string, a
/// dictionary as an object with its keys in order, an array as an array, a
/// boolean as a boolean, and every other value (numbers, dates, data, UIDs)
/// as null, which the library reads past.
#[verifier::external_body]
pub(crate) fn from_plist(v: &plist::Value) -> JsonValue {
    match v {
        plist::Value::String(s) => JsonValue::Str(s.clone()),
        plist::Value::Dictionary(d) => JsonValue::Object(d.iter().map(|(k, x)| (k.clone(), from_plist(x))).collect()),
        plist::Value::Array(a) => JsonValue::Array(a.iter().map(from_plist).collect()),
        plist::Value::Boolean(b) => JsonValue::Bool(*b),
        _ => JsonValue::Null,
    }
}

/// A value of the library as a `plist` value: a string as a string, an
/// object as a dictionary, an array as an array, a boolean as a boolean; a
/// number's text and null (which the writer never builds) as strings.
#[verifier::external_body]
pub(crate) fn to_plist(v: &JsonValue) -> plist::Value {
    match v {
        JsonValue::Str(s) => plist::Value::String(s.clone()),
        JsonValue::Object(m) => plist::Value::Dictionary(m.iter().map(|(k, x)| (k.clone(), to_plist(x))).collect()),
        JsonValue::Array(a) => plist::Value::Array(a.iter().map(to_plist).collect()),
        JsonValue::Bool(b) => plist::Value::Boolean(*b),
        JsonValue::Number(n) => plist::Value::String(n.clone()),
        JsonValue::Null => plist::Value::String(String::new()),
    }
}

/// `plist::from_bytes::<plist::Value>`: the value of a property list in any
/// of its encodings, or the reader's message (whose text is not stated).
#[verifier::external_body]
fn parse_plist(content: &[u8]) -> (r: Result<JsonValue, String>)
    ensures
        r is Ok <==> plist_read(content@) is Some,
        r matches Ok(v) ==> plist_read(content@) == Some(json_view(v)),
{
    match plist::from_bytes::<plist::Value>(content) {
        Ok(v) => Ok(from_plist(&v)),
        Err(e) => Err(e.to_string()),
    }
}

/// `plist::to_writer_xml` into a byte vector: the XML property list of the
/// value. Writing into memory a value without UIDs cannot fail: the
/// writer's errors are I/O errors, events out of order and UIDs.
#[verifier::external_body]
fn write_plist_xml(v: &JsonValue) -> (r: Result<Vec<u8>, String>)
    ensures
        r is Ok,
        r matches Ok(b) ==> b@ == plist_xml(json_view(*v)),
{
    let mut buf: Vec<u8> = Vec::new();
    match plist::to_writer_xml(&mut buf, &to_plist(v)) {
        Ok(()) => Ok(buf),
        Err(e) => Err(e.to_string()),
    }
}

// ---------------------------------------------------------------------------
// Reading
// ---------------------------------------------------------------------------

/// The texts of an array whose items are all strings.
pub open spec fn string_items(a: Seq<JsonView>) -> Option<Seq<Seq<char>>>
    decreases a.len(),
{
    if a.len() == 0 {
        Some(Seq::empty())
    } else {
        match (string_items(a.drop_last()), a.last()) {
            (Some(p), JsonView::Str(t)) => Some(p.push(t)),
            _ => None,
        }
    }
}

/// The entries of the first `n` members under `prefix`, added to `acc`:
/// strings as texts, nested dictionaries by their members with dotted keys,
/// arrays that are not empty and hold only strings as arrays; other values
/// give no entry.
pub open spec fn pl_flatten_upto(
    m: Seq<(Seq<char>, JsonView)>,
    n: int,
    prefix: Seq<char>,
    acc: Seq<(Seq<char>, J5Val)>,
) -> Seq<(Seq<char>, J5Val)>
    decreases m, n,
{
    if n <= 0 || n > m.len() {
        acc
    } else {
        let acc1 = pl_flatten_upto(m, n - 1, prefix, acc);
        let full = join_key(prefix, m[n - 1].0);
        proof {
            assert(decreases_to!(m => m[n - 1]));
        }
        match m[n - 1].1 {
            JsonView::Str(t) => map_insert(acc1, full, J5Val::Text(t)),
            JsonView::Object(sub) => pl_flatten_upto(sub, sub.len() as int, full, acc1),
            JsonView::Array(items) => match string_items(items) {
                Some(t) => if items.len() > 0 { map_insert(acc1, full, J5Val::Items(t)) } else { acc1 },
                None => acc1,
            },
            _ => acc1,
        }
    }
}

pub open spec fn pl_flatten(m: Seq<(Seq<char>, JsonView)>) -> Seq<(Seq<char>, J5Val)> {
    pl_flatten_upto(m, m.len() as int, Seq::empty(), Seq::empty())
}

/// What reading property-list bytes gives: the root must be a dictionary.
pub open spec fn parse_ok(r: Result<I18nResource, ParseError>, content: Seq<u8>) -> bool {
    match plist_read(content) {
        None => r matches Err(ParseError::InvalidFormat(_)),
        Some(JsonView::Object(m)) => r matches Ok(res) && {
            &&& ResourceMetadata::spec_plain_except_ext(res.metadata, FormatId::IosPlist)
            &&& (res.metadata.format_ext matches Some(FormatExtension::IosPlist(x))
                && x.plist_format matches Some(f) && f@ == "xml1"@)
            &&& pairs_model(entry_map_pairs(res.entries), pl_flatten(m), j5_rel())
        },
        Some(_) => r matches Err(ParseError::InvalidFormat(_)),
    }
}

/// How sure this format is that it can read a file: never for a string
/// dictionary (text holding `NSStringLocalizedFormatKey`); certain for
/// `.plist`; high for `.xml` holding `<plist` or `<!DOCTYPE plist`.
pub open spec fn spec_detect(extension: Seq<char>, content: Seq<u8>) -> Confidence {
    let t = lossy_utf8(content);
    if contains(t, "NSStringLocalizedFormatKey"@) {
        Confidence::NoMatch
    } else if extension == ".plist"@ {
        Confidence::Definite
    } else if extension == ".xml"@ && (contains(t, "<plist"@) || contains(t, "<!DOCTYPE plist"@)) {
        Confidence::High
    } else {
        Confidence::NoMatch
    }
}

/// The texts of an array whose items are all strings, or none.
fn string_items_exec(a: &Vec<JsonValue>) -> (r: Option<Vec<String>>)
    ensures
        match string_items(items_view_upto(a@, a@.len() as int)) {
            Some(t) => r matches Some(v) && string_views(v@) == t,
            None => r is None,
        },
{
    let ghost av = items_view_upto(a@, a@.len() as int);
    proof {
        lemma_items_view(a@, a@.len() as int);
    }
    let mut out: Vec<String> = Vec::new();
    let mut i: usize = 0;
    assert(av.take(0) =~= Seq::<JsonView>::empty());
    while i < a.len()
        invariant
            i <= a@.len(),
            av == items_view_upto(a@, a@.len() as int),
            av.len() == a@.len(),
            forall|j: int| 0 <= j < a@.len() ==> #[trigger] av[j] == json_view(a@[j]),
            string_items(av.take(i as int)) == Some(string_views(out@)),
        decreases a@.len() - i,
    {
        assert(av.take(i + 1).drop_last() =~= av.take(i as int));
        assert(av.take(i + 1).last() == json_view(a@[i as int]));
        match &a[i] {
            JsonValue::Str(t) => {
                let ghost before = out@;
                out.push(t.clone());
                assert(string_views(out@) =~= string_views(before).push(t@));
            },
            _ => {
                proof {
                    lemma_string_items_none(av, i as int);
                }
                return None;
            },
        }
        i = i + 1;
    }
    assert(av.take(a@.len() as int) =~= av);
    Some(out)
}

proof fn lemma_string_items_none(a: Seq<JsonView>, i: int)
    requires
        0 <= i < a.len(),
        !(a[i] is Str),
    ensures
        string_items(a) is None,
    decreases a.len(),
{
    if i < a.len() - 1 {
        lemma_string_items_none(a.drop_last(), i);
    }
}

fn insert_pl_entry(
    entries: &mut IndexMap<String, I18nEntry>,
    key: String,
    value: EntryValue,
    Ghost(acc): Ghost<Seq<(Seq<char>, J5Val)>>,
    Ghost(x): Ghost<J5Val>,
)
    requires
        pairs_model(entry_map_pairs(*old(entries)), acc, j5_rel()),
        match x {
            J5Val::Text(t) => value matches EntryValue::Simple(s) && s@ == t,
            J5Val::Items(t) => value matches EntryValue::Array(a) && string_views(a@) == t,
        },
    ensures
        pairs_model(entry_map_pairs(*final(entries)), map_insert(acc, key@, x), j5_rel()),
{
    let e = I18nEntry::with_value(key.clone(), value);
    proof {
        lemma_pairs_model_insert(entry_map_pairs(*entries), acc, j5_rel(), key@, e, x);
    }
    entry_map_insert(entries, key, e);
}

fn join_key_exec(prefix: &String, key: &String) -> (r: String)
    ensures
        r@ == join_key(prefix@, key@),
{
    if prefix.as_str().is_empty() {
        key.clone()
    } else {
        let mut r = prefix.clone();
        r.push('.');
        r.append(key.as_str());
        assert(r@ =~= prefix@ + seq!['.'] + key@);
        r
    }
}

/// Adds the entries of a dictionary's members under `prefix`.
pub fn walk_dict(
    m: &Vec<(String, JsonValue)>,
    prefix: &String,
    entries: &mut IndexMap<String, I18nEntry>,
    Ghost(acc): Ghost<Seq<(Seq<char>, J5Val)>>,
)
    requires
        pairs_model(entry_map_pairs(*old(entries)), acc, j5_rel()),
    ensures
        pairs_model(entry_map_pairs(*final(entries)), pl_flatten_upto(members_view(m@), m@.len() as int, prefix@, acc), j5_rel()),
    decreases m@,
{
    let ghost mv = members_view(m@);
    proof {
        lemma_members_view(m@, m@.len() as int);
    }
    let mut i: usize = 0;
    while i < m.len()
        invariant
            i <= m@.len(),
            mv == members_view(m@),
            mv.len() == m@.len(),
            forall|j: int| 0 <= j < m@.len() ==> #[trigger] mv[j] == (m@[j].0@, json_view(m@[j].1)),
            pairs_model(entry_map_pairs(*entries), pl_flatten_upto(mv, i as int, prefix@, acc), j5_rel()),
        decreases m@.len() - i,
    {
        let ghost before = pl_flatten_upto(mv, i as int, prefix@, acc);
        let full = join_key_exec(prefix, &m[i].0);
        assert(mv[i as int] == (m@[i as int].0@, json_view(m@[i as int].1)));
        match &m[i].1 {
            JsonValue::Str(t) => {
                let ghost x = J5Val::Text(t@);
                insert_pl_entry(entries, full, EntryValue::Simple(t.clone()), Ghost(before), Ghost(x));
            },
            JsonValue::Object(sub) => {
                assert(decreases_to!(m@ => m@[i as int]));
                proof {
                    lemma_members_view(sub@, sub@.len() as int);
                }
                walk_dict(sub, &full, entries, Ghost(before));
            },
            JsonValue::Array(items) => {
                proof {
                    lemma_items_view(items@, items@.len() as int);
                }
                match string_items_exec(items) {
                    Some(t) => {
                        if items.len() > 0 {
                            let ghost x = J5Val::Items(string_views(t@));
                            insert_pl_entry(entries, full, EntryValue::Array(t), Ghost(before), Ghost(x));
                        }
                    },
                    None => {},
                }
            },
            _ => {},
        }
        i = i + 1;
    }
}

impl Parser {
    /// Never for a string dictionary; `.plist` is certain; `.xml` holding a
    /// property list is likely.
    pub fn detect(&self, extension: &str, content: &[u8]) -> (c: Confidence)
        ensures
            c == spec_detect(extension@, content@),
    {
        let text = from_utf8_lossy(content);
        let t = str_chars(text.as_str());
        let marker = str_chars("NSStringLocalizedFormatKey");
        if chars_contain(t.as_slice(), marker.as_slice()) {
            return Confidence::NoMatch;
        }
        if str_eq(extension, ".plist") {
            return Confidence::Definite;
        }
        if str_eq(extension, ".xml") {
            let open = str_chars("<plist");
            let doctype = str_chars("<!DOCTYPE plist");
            if chars_contain(t.as_slice(), open.as_slice()) || chars_contain(t.as_slice(), doctype.as_slice()) {
                return Confidence::High;
            }
        }
        Confidence::NoMatch
    }

    /// Parses a property list whose root is a dictionary.
    pub fn parse(&self, content: &[u8]) -> (r: Result<I18nResource, ParseError>)
        ensures
            parse_ok(r, content@),
    {
        let dict = match parse_plist(content) {
            Ok(JsonValue::Object(d)) => d,
            Ok(_) => return Err(ParseError::InvalidFormat("Root plist value must be a dictionary".to_owned())),
            Err(e) => {
                let mut msg = "Plist parse error: ".to_owned();
                msg.append(e.as_str());
                return Err(ParseError::InvalidFormat(msg));
            },
        };
        let mut entries = entry_map_new();
        let prefix = String::new();
        proof {
            lemma_members_view(dict@, dict@.len() as int);
        }
        walk_dict(&dict, &prefix, &mut entries, Ghost(Seq::empty()));
        let mut metadata = ResourceMetadata::for_format(FormatId::IosPlist);
        metadata.format_ext = Some(FormatExtension::IosPlist(IosPlistExt { plist_format: Some("xml1".to_owned()) }));
        Ok(I18nResource { metadata, entries })
    }

    pub fn capabilities(&self) -> (c: FormatCapabilities)
        ensures
            c == spec_capabilities(),
    {
        FormatCapabilities { arrays: true, nested_keys: true, ..FormatCapabilities::default() }
    }
}

// ---------------------------------------------------------------------------
// Writing
// ---------------------------------------------------------------------------

/// Inserts `v` under the path `parts`: each step into the dictionary of that
/// name, made when missing; a step that meets a value that is no dictionary
/// leaves the dictionary as it is.
pub open spec fn pl_nest(m: Seq<(Seq<char>, JsonView)>, parts: Seq<Seq<char>>, v: JsonView) -> Seq<(Seq<char>, JsonView)>
    decreases parts.len(),
{
    if parts.len() <= 1 {
        map_insert(m, parts[0], v)
    } else {
        match map_get(m, parts[0]) {
            Some(JsonView::Object(c)) => map_insert(m, parts[0], JsonView::Object(pl_nest(c, parts.drop_first(), v))),
            Some(_) => m,
            None => map_insert(m, parts[0], JsonView::Object(pl_nest(Seq::empty(), parts.drop_first(), v))),
        }
    }
}

/// The root dictionary built from the entries in order, each under the
/// parts of its dotted key.
pub open spec fn pl_root(ps: Seq<(Seq<char>, I18nEntry)>) -> Seq<(Seq<char>, JsonView)>
    decreases ps.len(),
{
    if ps.len() == 0 {
        Seq::empty()
    } else {
        pl_nest(pl_root(ps.drop_last()), split_char(ps.last().1.key@, '.'), hj_json(ps.last().1.value))
    }
}

/// The bytes written for a resource: the XML property list of its root
/// dictionary.
pub open spec fn spec_write(res: I18nResource) -> Seq<u8> {
    plist_xml(JsonView::Object(pl_root(entry_map_pairs(res.entries))))
}

/// Inserts `v` under `parts[start..]`.
fn pl_nest_exec(m: &mut Vec<(String, JsonValue)>, parts: &Vec<String>, start: usize, v: JsonValue)
    requires
        start < parts@.len(),
    ensures
        members_view(final(m)@) == pl_nest(members_view(old(m)@), string_views(parts@).skip(start as int), json_view(v)),
    decreases parts@.len() - start,
{
    let ghost pv = string_views(parts@).skip(start as int);
    assert(pv[0] == parts@[start as int]@);
    if start >= parts.len() - 1 {
        obj_insert(m, parts[start].clone(), v);
        return;
    }
    assert(pv.drop_first() == string_views(parts@).skip(start + 1));
    let key = parts[start].clone();
    let ghost mv = members_view(m@);
    proof {
        lemma_members_view(m@, m@.len() as int);
        lemma_key_index(mv, key@);
    }
    let mut child: Vec<(String, JsonValue)> = match obj_find(m, key.as_str()) {
        Some(i) => {
            assert(mv[i as int] == (m@[i as int].0@, json_view(m@[i as int].1)));
            let is_dict = match &m[i].1 {
                JsonValue::Object(_) => true,
                _ => false,
            };
            if !is_dict {
                return;
            }
            let ghost before = m@;
            let x = take_member(m, i);
            proof {
                crate::json::lemma_members_view_update(before, i as int, (before[i as int].0, JsonValue::Null));
                super::json_structured::lemma_key_index_update(mv, i as int, JsonView::Null, key@);
                assert(mv.update(i as int, (mv[i as int].0, JsonView::Null)) == members_view(m@));
            }
            match x {
                JsonValue::Object(c) => c,
                _ => Vec::new(),
            }
        },
        None => {
            let c: Vec<(String, JsonValue)> = Vec::new();
            proof {
                lemma_members_view(c@, 0);
            }
            assert(members_view(c@) =~= Seq::<(Seq<char>, JsonView)>::empty());
            c
        },
    };
    pl_nest_exec(&mut child, parts, start + 1, v);
    obj_insert(m, key, JsonValue::Object(child));
    proof {
        lemma_members_view(child@, child@.len() as int);
    }
}

/// Builds the root dictionary of a resource.
pub fn unflatten_to_plist(resource: &I18nResource) -> (root: Vec<(String, JsonValue)>)
    ensures
        members_view(root@) == pl_root(entry_map_pairs(resource.entries)),
{
    let ghost ps = entry_map_pairs(resource.entries);
    let n = entry_map_len(&resource.entries);
    let mut root: Vec<(String, JsonValue)> = Vec::new();
    proof {
        lemma_members_view(root@, 0);
    }
    assert(members_view(root@) =~= Seq::<(Seq<char>, JsonView)>::empty());
    let mut i: usize = 0;
    while i < n
        invariant
            i <= n,
            n == ps.len(),
            ps == entry_map_pairs(resource.entries),
            members_view(root@) == pl_root(ps.take(i as int)),
        decreases n - i,
    {
        assert(ps.take(i + 1).drop_last() == ps.take(i as int));
        assert(ps.take(i + 1).last() == ps[i as int]);
        match entry_map_get_index(&resource.entries, i) {
            Some((_k, e)) => {
                let v = hj_json_exec(&e.value);
                let parts = key_parts(&e.key);
                proof {
                    crate::text::lemma_split_char_len(e.key@, '.');
                }
                assert(string_views(parts@).skip(0) == string_views(parts@));
                pl_nest_exec(&mut root, &parts, 0, v);
            },
            None => {},
        }
        i = i + 1;
    }
    assert(ps.take(n as int) == ps);
    root
}

impl Writer {
    /// Writes the resource as an XML property list.
    pub fn write(&self, resource: &I18nResource) -> (r: Result<Vec<u8>, WriteError>)
        ensures
            r matches Ok(b) && b@ == spec_write(*resource),
    {
        let root = unflatten_to_plist(resource);
        match write_plist_xml(&JsonValue::Object(root)) {
            Ok(b) => Ok(b),
            Err(e) => Err(WriteError::Serialization(e)),
        }
    }

    pub fn capabilities(&self) -> (c: FormatCapabilities)
        ensures
            c == spec_capabilities(),
    {
        Parser.capabilities()
    }
}

impl super::FormatParser for Parser {
    fn detect(&self, extension: &str, content: &[u8]) -> (c: Confidence)
        ensures
            c == spec_detect(extension@, content@),
    {
        Parser::detect(self, extension, content)
    }

    fn parse(&self, content: &[u8]) -> (r: Result<I18nResource, ParseError>)
        ensures
            parse_ok(r, content@),
    {
        Parser::parse(self, content)
    }

    fn capabilities(&self) -> (c: FormatCapabilities)
        ensures
            c == spec_capabilities(),
    {
        Parser::capabilities(self)
    }
}

impl super::FormatWriter for Writer {
    fn write(&self, resource: &I18nResource) -> (r: Result<Vec<u8>, WriteError>)
        ensures
            r matches Ok(b) && b@ == spec_write(*resource),
    {
        Writer::write(self, resource)
    }

    fn capabilities(&self) -> (c: FormatCapabilities)
        ensures
            c == spec_capabilities(),
    {
        Writer::capabilities(self)
    }
}

} // verus!
