//! Flutter ARB: a JSON object of messages, each with an optional `@key`
//! object of metadata, and `@@` fields for the file.
use vstd::prelude::*;
use crate::collections::{
    entry_map_pairs, entry_map_new, entry_map_insert, entry_map_len, entry_map_get_index, map_insert, map_get,
    pairs_model, lemma_pairs_model_insert, str_map_pairs, str_map_new, str_map_insert, str_map_len, str_map_get_index,
    str_map_get, count_map_pairs, count_map_len, count_map_get_index, key_index, lemma_key_index,
};
use crate::ir::{
    I18nResource, I18nEntry, ResourceMetadata, FormatId, EntryValue, FormatCapabilities, FormatExtension, ArbExt,
    Comment, CommentRole, ContextEntry, ContextType, Placeholder, PlaceholderType, PluralSet, SelectSet,
};
use crate::json::{
    JsonValue, JsonView, json_view, members_view, lemma_members_view, json_read, parse_json_object, to_pretty,
    json_pretty, obj_find, obj_insert,
};
use crate::text::{
    str_chars, str_eq, str_contains, contains, starts_with, chars_start_with, decimal, push_decimal, join, string_views,
    join_strings, utf8_error_message, string_bytes, lowercase, to_lowercase,
};
use vstd::utf8::{valid_utf8, decode_utf8, encode_utf8};
use super::{clone_opt, Confidence, ParseError, WriteError, opt_view};

verus! {

pub struct Parser;

pub struct Writer;

pub open spec fn capabilities_spec() -> FormatCapabilities {
    FormatCapabilities {
        plurals: true,
        arrays: false,
        comments: true,
        context: true,
        source_string: false,
        translatable_flag: false,
        translation_state: false,
        max_width: false,
        device_variants: false,
        select_gender: true,
        nested_keys: false,
        inline_markup: false,
        alternatives: false,
        source_references: false,
        custom_properties: true,
    }
}

// ---------------------------------------------------------------------------
// Reading
// ---------------------------------------------------------------------------

pub open spec fn str_val(v: Option<JsonView>) -> Option<Seq<char>> {
    match v {
        Some(JsonView::Str(s)) => Some(s),
        _ => None,
    }
}

/// An `@@` field kept as a header: not the locale, date, author or an
/// `@@x-` field.
pub open spec fn is_header_key(k: Seq<char>) -> bool {
    starts_with(k, "@@"@) && k != "@@locale"@ && k != "@@last_modified"@ && k != "@@author"@ && !starts_with(k, "@@x-"@)
}

/// The headers: the text `@@` fields that are not otherwise read.
pub open spec fn headers_of(m: Seq<(Seq<char>, JsonView)>) -> Seq<(Seq<char>, Seq<char>)>
    decreases m.len(),
{
    if m.len() == 0 {
        Seq::empty()
    } else {
        let h = headers_of(m.drop_last());
        let k = m.last().0;
        match m.last().1 {
            JsonView::Str(s) => if is_header_key(k) {
                map_insert(h, k, s)
            } else {
                h
            },
            _ => h,
        }
    }
}

/// The `@@x-` fields, whatever their values.
pub open spec fn custom_of(m: Seq<(Seq<char>, JsonView)>) -> Seq<(Seq<char>, JsonView)>
    decreases m.len(),
{
    if m.len() == 0 {
        Seq::empty()
    } else {
        let c = custom_of(m.drop_last());
        if starts_with(m.last().0, "@@x-"@) {
            map_insert(c, m.last().0, m.last().1)
        } else {
            c
        }
    }
}

/// The fields of a message's metadata that are not otherwise read.
pub open spec fn is_known_meta(k: Seq<char>) -> bool {
    k == "description"@ || k == "context"@ || k == "type"@ || k == "placeholders"@ || k == "source"@
}

pub open spec fn meta_custom(mm: Seq<(Seq<char>, JsonView)>) -> Seq<(Seq<char>, JsonView)>
    decreases mm.len(),
{
    if mm.len() == 0 {
        Seq::empty()
    } else {
        let c = meta_custom(mm.drop_last());
        if is_known_meta(mm.last().0) {
            c
        } else {
            map_insert(c, mm.last().0, mm.last().1)
        }
    }
}

/// The text members of an object.
pub open spec fn text_members(p: Seq<(Seq<char>, JsonView)>) -> Seq<(Seq<char>, Seq<char>)>
    decreases p.len(),
{
    if p.len() == 0 {
        Seq::empty()
    } else {
        let c = text_members(p.drop_last());
        match p.last().1 {
            JsonView::Str(s) => map_insert(c, p.last().0, s),
            _ => c,
        }
    }
}

/// The optional parameters of a placeholder: its text members, when there
/// are any.
pub open spec fn opt_params_of(obj: Seq<(Seq<char>, JsonView)>) -> Option<Seq<(Seq<char>, Seq<char>)>> {
    match map_get(obj, "optionalParameters"@) {
        Some(JsonView::Object(p)) => if text_members(p).len() == 0 {
            None
        } else {
            Some(text_members(p))
        },
        _ => None,
    }
}

/// The type a placeholder's `type` names, compared in lowercase.
pub open spec fn ph_type_is(t: PlaceholderType, raw: Seq<char>) -> bool {
    let l = lowercase(raw);
    if l == "string"@ {
        t == PlaceholderType::String
    } else if l == "int"@ || l == "integer"@ {
        t == PlaceholderType::Integer
    } else if l == "double"@ {
        t == PlaceholderType::Double
    } else if l == "float"@ {
        t == PlaceholderType::Float
    } else if l == "datetime"@ {
        t == PlaceholderType::DateTime
    } else if l == "object"@ {
        t == PlaceholderType::Object
    } else {
        t matches PlaceholderType::Other(x) && x@ == l
    }
}

/// The placeholder an entry of `placeholders` gives.
pub open spec fn placeholder_of(p: Placeholder, name: Seq<char>, obj: Seq<(Seq<char>, JsonView)>) -> bool {
    &&& p.name@ == name
    &&& p.original_syntax@ == "{"@ + name + "}"@
    &&& match str_val(map_get(obj, "type"@)) {
        Some(raw) => p.placeholder_type matches Some(t) && ph_type_is(t, raw),
        None => p.placeholder_type is None,
    }
    &&& p.position is None
    &&& opt_view(p.example) == str_val(map_get(obj, "example"@))
    &&& opt_view(p.description) == str_val(map_get(obj, "description"@))
    &&& opt_view(p.format) == str_val(map_get(obj, "format"@))
    &&& match opt_params_of(obj) {
        Some(ps) => p.optional_parameters matches Some(x) && str_map_pairs(x) == ps,
        None => p.optional_parameters is None,
    }
}

/// The placeholders that are objects, in order.
pub open spec fn ph_objects(p: Seq<(Seq<char>, JsonView)>) -> Seq<(Seq<char>, Seq<(Seq<char>, JsonView)>)>
    decreases p.len(),
{
    if p.len() == 0 {
        Seq::empty()
    } else {
        let c = ph_objects(p.drop_last());
        match p.last().1 {
            JsonView::Object(o) => c.push((p.last().0, o)),
            _ => c,
        }
    }
}

pub open spec fn placeholders_of(mm: Seq<(Seq<char>, JsonView)>) -> Seq<(Seq<char>, Seq<(Seq<char>, JsonView)>)> {
    match map_get(mm, "placeholders"@) {
        Some(JsonView::Object(p)) => ph_objects(p),
        _ => Seq::empty(),
    }
}

/// An entry with the key and the text, and what its metadata gives: a
/// description as an extracted comment, a context, a type and unknown
/// fields as the extension, a source and the placeholders.
pub open spec fn arb_entry(e: I18nEntry, k: Seq<char>, text: Seq<char>, meta: Option<Seq<(Seq<char>, JsonView)>>) -> bool {
    let mm = match meta {
        Some(x) => x,
        None => Seq::empty(),
    };
    let desc = str_val(map_get(mm, "description"@));
    let ctx = str_val(map_get(mm, "context"@));
    let ty = str_val(map_get(mm, "type"@));
    let custom = meta_custom(mm);
    let phs = placeholders_of(mm);
    &&& e.key@ == k
    &&& e.value matches EntryValue::Simple(t) && t@ == text
    &&& match desc {
        Some(d) => e.comments@.len() == 1 && e.comments@[0].text@ == d && e.comments@[0].role == CommentRole::Extracted
            && e.comments@[0].priority is None && e.comments@[0].annotates is None,
        None => e.comments@.len() == 0,
    }
    &&& match ctx {
        Some(c) => e.contexts@.len() == 1 && e.contexts@[0].value@ == c && e.contexts@[0].context_type
            == ContextType::Description && e.contexts@[0].purpose is None,
        None => e.contexts@.len() == 0,
    }
    &&& if ty is Some || custom.len() > 0 {
        e.format_ext matches Some(FormatExtension::Arb(x)) && opt_view(x.message_type) == ty && members_view(x.custom_fields@)
            == custom
    } else {
        e.format_ext is None
    }
    &&& opt_view(e.source) == str_val(map_get(mm, "source"@))
    &&& e.placeholders@.len() == phs.len()
    &&& forall|i: int| 0 <= i < phs.len() ==> placeholder_of(#[trigger] e.placeholders@[i], phs[i].0, phs[i].1)
    &&& e.previous_source is None
    &&& e.previous_comment is None
    &&& e.translatable is None
    &&& e.state is None
    &&& e.state_qualifier is None
    &&& e.approved is None
    &&& !e.obsolete
    &&& e.max_width is None
    &&& e.min_width is None
    &&& e.max_height is None
    &&& e.min_height is None
    &&& e.size_unit is None
    &&& e.max_bytes is None
    &&& e.min_bytes is None
    &&& e.source_references@.len() == 0
    &&& e.flags@.len() == 0
    &&& e.device_variants is None
    &&& e.alternatives@.len() == 0
    &&& str_map_pairs(e.properties).len() == 0
    &&& e.resource_type is None
    &&& e.resource_name is None
}

/// The messages: text members whose key does not start with `@`, with the
/// `@key` object of each when there is one.
pub open spec fn messages(m: Seq<(Seq<char>, JsonView)>, full: Seq<(Seq<char>, JsonView)>) -> Seq<
    (Seq<char>, (Seq<char>, Option<Seq<(Seq<char>, JsonView)>>)),
>
    decreases m.len(),
{
    if m.len() == 0 {
        Seq::empty()
    } else {
        let c = messages(m.drop_last(), full);
        let k = m.last().0;
        match m.last().1 {
            JsonView::Str(t) => if starts_with(k, "@"@) {
                c
            } else {
                map_insert(
                    c,
                    k,
                    (
                        t,
                        match map_get(full, "@"@ + k) {
                            Some(JsonView::Object(mm)) => Some(mm),
                            _ => None,
                        },
                    ),
                )
            },
            _ => c,
        }
    }
}

pub open spec fn msg_rel() -> spec_fn(I18nEntry, (Seq<char>, Option<Seq<(Seq<char>, JsonView)>>)) -> bool {
    |e: I18nEntry, x: (Seq<char>, Option<Seq<(Seq<char>, JsonView)>>)| arb_entry(e, e.key@, x.0, x.1)
}

/// The resource of an ARB object.
pub open spec fn arb_resource(res: I18nResource, m: Seq<(Seq<char>, JsonView)>) -> bool {
    &&& res.metadata.source_format == FormatId::Arb
    &&& opt_view(res.metadata.locale) == str_val(map_get(m, "@@locale"@))
    &&& opt_view(res.metadata.modified_at) == str_val(map_get(m, "@@last_modified"@))
    &&& opt_view(res.metadata.created_by) == str_val(map_get(m, "@@author"@))
    &&& str_map_pairs(res.metadata.headers) == headers_of(m)
    &&& if custom_of(m).len() > 0 {
        res.metadata.format_ext matches Some(FormatExtension::Arb(x)) && x.message_type is None && members_view(
            x.custom_fields@,
        ) == custom_of(m)
    } else {
        res.metadata.format_ext is None
    }
    &&& res.metadata.source_locale is None
    &&& str_map_pairs(res.metadata.properties).len() == 0
    &&& res.metadata.encoding is None
    &&& res.metadata.direction is None
    &&& res.metadata.created_at is None
    &&& res.metadata.modified_by is None
    &&& res.metadata.tool_name is None
    &&& res.metadata.tool_version is None
    &&& pairs_model(entry_map_pairs(res.entries), messages(m, m), msg_rel())
}

/// What reading ARB bytes gives.
pub open spec fn parse_ok(r: Result<I18nResource, ParseError>, content: Seq<u8>) -> bool {
    if !valid_utf8(content) {
        r matches Err(ParseError::InvalidFormat(_))
    } else {
        match json_read(decode_utf8(content)) {
            Some(JsonView::Object(m)) => r matches Ok(res) && arb_resource(res, m),
            _ => r matches Err(ParseError::Json(_)),
        }
    }
}


/// The member named `k`, if any.
pub fn get_member<'a>(m: &'a Vec<(String, JsonValue)>, k: &str) -> (r: Option<&'a JsonValue>)
    ensures
        match map_get(members_view(m@), k@) {
            Some(v) => r matches Some(x) && json_view(*x) == v,
            None => r is None,
        },
{
    proof {
        lemma_members_view(m@, m@.len() as int);
    }
    match obj_find(m, k) {
        Some(i) => Some(&m[i].1),
        None => None,
    }
}

/// The text of the member named `k`, if it is a text.
pub fn get_str(m: &Vec<(String, JsonValue)>, k: &str) -> (r: Option<String>)
    ensures
        opt_view(r) == str_val(map_get(members_view(m@), k@)),
{
    match get_member(m, k) {
        Some(JsonValue::Str(s)) => Some(s.clone()),
        _ => None,
    }
}

fn starts_with_str(s: &str, p: &str) -> (b: bool)
    ensures
        b == starts_with(s@, p@),
{
    let a = str_chars(s);
    let b = str_chars(p);
    chars_start_with(a.as_slice(), b.as_slice())
}

proof fn lemma_members_take(m: Seq<(String, JsonValue)>, i: int)
    requires
        0 <= i < m.len(),
    ensures
        members_view(m.take(i + 1)).drop_last() == members_view(m.take(i)),
        members_view(m.take(i + 1)).last() == (m[i].0@, json_view(m[i].1)),
        members_view(m.take(m.len() as int)) == members_view(m),
{
    lemma_members_view(m.take(i + 1), i + 1);
    lemma_members_view(m.take(i), i);
    assert(members_view(m.take(i + 1)).drop_last() =~= members_view(m.take(i)));
    assert(m.take(m.len() as int) =~= m);
}

fn headers_exec(m: &Vec<(String, JsonValue)>) -> (h: indexmap::IndexMap<String, String>)
    ensures
        str_map_pairs(h) == headers_of(members_view(m@)),
{
    let mut h = str_map_new();
    let mut i: usize = 0;
    while i < m.len()
        invariant
            i <= m@.len(),
            str_map_pairs(h) == headers_of(members_view(m@.take(i as int))),
        decreases m@.len() - i,
    {
        proof {
            lemma_members_take(m@, i as int);
        }
        let k = m[i].0.as_str();
        match &m[i].1 {
            JsonValue::Str(v) => {
                if starts_with_str(k, "@@") && !str_eq(k, "@@locale") && !str_eq(k, "@@last_modified") && !str_eq(k, "@@author")
                    && !starts_with_str(k, "@@x-") {
                    str_map_insert(&mut h, m[i].0.clone(), v.clone());
                }
            },
            _ => {},
        }
        i = i + 1;
    }
    proof {
        lemma_members_view(m@, m@.len() as int);
        assert(m@.take(m@.len() as int) =~= m@);
    }
    h
}

fn custom_exec(m: &Vec<(String, JsonValue)>) -> (c: Vec<(String, JsonValue)>)
    ensures
        members_view(c@) == custom_of(members_view(m@)),
{
    let mut c: Vec<(String, JsonValue)> = Vec::new();
    proof {
        lemma_members_view(c@, 0);
    }
    assert(members_view(c@) =~= Seq::<(Seq<char>, JsonView)>::empty());
    let mut i: usize = 0;
    while i < m.len()
        invariant
            i <= m@.len(),
            members_view(c@) == custom_of(members_view(m@.take(i as int))),
        decreases m@.len() - i,
    {
        proof {
            lemma_members_take(m@, i as int);
        }
        if starts_with_str(m[i].0.as_str(), "@@x-") {
            obj_insert(&mut c, m[i].0.clone(), m[i].1.clone());
        }
        i = i + 1;
    }
    proof {
        assert(m@.take(m@.len() as int) =~= m@);
    }
    c
}

fn meta_custom_exec(mm: &Vec<(String, JsonValue)>) -> (c: Vec<(String, JsonValue)>)
    ensures
        members_view(c@) == meta_custom(members_view(mm@)),
{
    let mut c: Vec<(String, JsonValue)> = Vec::new();
    assert(members_view(c@) =~= Seq::<(Seq<char>, JsonView)>::empty());
    let mut i: usize = 0;
    while i < mm.len()
        invariant
            i <= mm@.len(),
            members_view(c@) == meta_custom(members_view(mm@.take(i as int))),
        decreases mm@.len() - i,
    {
        proof {
            lemma_members_take(mm@, i as int);
        }
        let k = mm[i].0.as_str();
        if !(str_eq(k, "description") || str_eq(k, "context") || str_eq(k, "type") || str_eq(k, "placeholders") || str_eq(k, "source")) {
            obj_insert(&mut c, mm[i].0.clone(), mm[i].1.clone());
        }
        i = i + 1;
    }
    proof {
        assert(mm@.take(mm@.len() as int) =~= mm@);
    }
    c
}

fn text_members_exec(p: &Vec<(String, JsonValue)>) -> (h: indexmap::IndexMap<String, String>)
    ensures
        str_map_pairs(h) == text_members(members_view(p@)),
{
    let mut h = str_map_new();
    let mut i: usize = 0;
    while i < p.len()
        invariant
            i <= p@.len(),
            str_map_pairs(h) == text_members(members_view(p@.take(i as int))),
        decreases p@.len() - i,
    {
        proof {
            lemma_members_take(p@, i as int);
        }
        match &p[i].1 {
            JsonValue::Str(v) => str_map_insert(&mut h, p[i].0.clone(), v.clone()),
            _ => {},
        }
        i = i + 1;
    }
    proof {
        assert(p@.take(p@.len() as int) =~= p@);
    }
    h
}

fn placeholder_type_exec(raw: &String) -> (t: PlaceholderType)
    ensures
        ph_type_is(t, raw@),
{
    let l = to_lowercase(raw.as_str());
    let ls = l.as_str();
    if str_eq(ls, "string") {
        PlaceholderType::String
    } else if str_eq(ls, "int") || str_eq(ls, "integer") {
        PlaceholderType::Integer
    } else if str_eq(ls, "double") {
        PlaceholderType::Double
    } else if str_eq(ls, "float") {
        PlaceholderType::Float
    } else if str_eq(ls, "datetime") {
        PlaceholderType::DateTime
    } else if str_eq(ls, "object") {
        PlaceholderType::Object
    } else {
        PlaceholderType::Other(l)
    }
}

/// A placeholder from its entry in `placeholders`.
pub fn parse_placeholder(name: &str, obj: &Vec<(String, JsonValue)>) -> (p: Placeholder)
    ensures
        placeholder_of(p, name@, members_view(obj@)),
{
    let placeholder_type = match get_str(obj, "type") {
        Some(t) => Some(placeholder_type_exec(&t)),
        None => None,
    };
    let optional_parameters = match get_member(obj, "optionalParameters") {
        Some(JsonValue::Object(params)) => {
            let map = text_members_exec(params);
            if str_map_len(&map) == 0 {
                None
            } else {
                Some(map)
            }
        },
        _ => None,
    };
    let mut original = "{".to_owned();
    original.append(name);
    original.append("}");
    Placeholder {
        name: name.to_owned(),
        original_syntax: original,
        placeholder_type,
        position: None,
        example: get_str(obj, "example"),
        description: get_str(obj, "description"),
        format: get_str(obj, "format"),
        optional_parameters,
    }
}

fn placeholders_exec(mm: &Vec<(String, JsonValue)>) -> (v: Vec<Placeholder>)
    ensures
        v@.len() == placeholders_of(members_view(mm@)).len(),
        forall|i: int|
            0 <= i < v@.len() ==> placeholder_of(
                #[trigger] v@[i],
                placeholders_of(members_view(mm@))[i].0,
                placeholders_of(members_view(mm@))[i].1,
            ),
{
    let mut v: Vec<Placeholder> = Vec::new();
    match get_member(mm, "placeholders") {
        Some(JsonValue::Object(p)) => {
            let ghost pv = members_view(p@);
            let mut i: usize = 0;
            while i < p.len()
                invariant
                    i <= p@.len(),
                    pv == members_view(p@),
                    v@.len() == ph_objects(members_view(p@.take(i as int))).len(),
                    forall|j: int|
                        0 <= j < v@.len() ==> placeholder_of(
                            #[trigger] v@[j],
                            ph_objects(members_view(p@.take(i as int)))[j].0,
                            ph_objects(members_view(p@.take(i as int)))[j].1,
                        ),
                decreases p@.len() - i,
            {
                proof {
                    lemma_members_take(p@, i as int);
                }
                let ghost before = ph_objects(members_view(p@.take(i as int)));
                match &p[i].1 {
                    JsonValue::Object(o) => {
                        proof {
                            lemma_members_view(o@, o@.len() as int);
                        }
                        let ph = parse_placeholder(p[i].0.as_str(), o);
                        v.push(ph);
                        assert(ph_objects(members_view(p@.take(i + 1))) == before.push((p@[i as int].0@, members_view(o@))));
                    },
                    _ => {
                        assert(ph_objects(members_view(p@.take(i + 1))) == before);
                    },
                }
                i = i + 1;
            }
            proof {
                assert(p@.take(p@.len() as int) =~= p@);
            }
        },
        _ => {},
    }
    v
}

/// Builds the entry of a message with its metadata, if any.
fn build_message(key: &String, text: &String, meta: Option<&Vec<(String, JsonValue)>>) -> (e: I18nEntry)
    ensures
        arb_entry(
            e,
            key@,
            text@,
            match meta {
                Some(mm) => Some(members_view(mm@)),
                None => None,
            },
        ),
{
    let mut e = I18nEntry::with_value(key.clone(), EntryValue::Simple(text.clone()));
    match meta {
        Some(mm) => {
            match get_str(mm, "description") {
                Some(d) => e.comments.push(Comment { text: d, role: CommentRole::Extracted, priority: None, annotates: None }),
                None => {},
            }
            match get_str(mm, "context") {
                Some(c) => e.contexts.push(ContextEntry { context_type: ContextType::Description, value: c, purpose: None }),
                None => {},
            }
            let message_type = get_str(mm, "type");
            let custom = meta_custom_exec(mm);
            if message_type.is_some() || custom.len() > 0 {
                proof {
                    lemma_members_view(custom@, custom@.len() as int);
                }
                e.format_ext = Some(FormatExtension::Arb(ArbExt { message_type, custom_fields: custom }));
            } else {
                proof {
                    lemma_members_view(custom@, custom@.len() as int);
                }
            }
            e.source = get_str(mm, "source");
            e.placeholders = placeholders_exec(mm);
        },
        None => {
            let ghost empty = Seq::<(Seq<char>, JsonView)>::empty();
            assert(meta_custom(empty) =~= empty);
            assert(placeholders_of(empty) =~= Seq::<(Seq<char>, Seq<(Seq<char>, JsonView)>)>::empty());
        },
    }
    e
}

/// Reads the messages of an ARB object.
pub fn parse_object(m: &Vec<(String, JsonValue)>) -> (res: I18nResource)
    ensures
        arb_resource(res, members_view(m@)),
{
    let ghost mv = members_view(m@);
    let mut metadata = ResourceMetadata::for_format(FormatId::Arb);
    metadata.locale = get_str(m, "@@locale");
    metadata.modified_at = get_str(m, "@@last_modified");
    metadata.created_by = get_str(m, "@@author");
    metadata.headers = headers_exec(m);
    let custom = custom_exec(m);
    proof {
        lemma_members_view(custom@, custom@.len() as int);
    }
    if custom.len() > 0 {
        metadata.format_ext = Some(FormatExtension::Arb(ArbExt { message_type: None, custom_fields: custom }));
    }
    let mut entries = entry_map_new();
    let mut i: usize = 0;
    while i < m.len()
        invariant
            i <= m@.len(),
            mv == members_view(m@),
            pairs_model(entry_map_pairs(entries), messages(members_view(m@.take(i as int)), mv), msg_rel()),
        decreases m@.len() - i,
    {
        proof {
            lemma_members_take(m@, i as int);
        }
        let ghost before = messages(members_view(m@.take(i as int)), mv);
        let k = &m[i].0;
        match &m[i].1 {
            JsonValue::Str(t) => {
                if !starts_with_str(k.as_str(), "@") {
                    let mut mk = "@".to_owned();
                    mk.append(k.as_str());
                    let meta = match get_member(m, mk.as_str()) {
                        Some(JsonValue::Object(mm)) => Some(mm),
                        _ => None,
                    };
                    let ghost x = (
                        t@,
                        match meta {
                            Some(mm) => Some(members_view(mm@)),
                            None => None,
                        },
                    );
                    let e = build_message(k, t, meta);
                    proof {
                        lemma_pairs_model_insert(entry_map_pairs(entries), before, msg_rel(), k@, e, x);
                    }
                    entry_map_insert(&mut entries, k.clone(), e);
                }
            },
            _ => {},
        }
        i = i + 1;
    }
    proof {
        assert(m@.take(m@.len() as int) =~= m@);
    }
    I18nResource { metadata, entries }
}

/// How sure this format is that it can read a file with the extension and
/// content.
pub open spec fn spec_detect(extension: Seq<char>, content: Seq<u8>) -> Confidence {
    if extension == ".arb"@ {
        Confidence::Definite
    } else if extension == ".json"@ && valid_utf8(content) && contains(decode_utf8(content), "\"@@locale\""@) {
        Confidence::Definite
    } else {
        Confidence::NoMatch
    }
}

impl Parser {
    /// `.arb` is certain; a `.json` UTF-8 text with an `"@@locale"` key is
    /// certain too.
    pub fn detect(&self, extension: &str, content: &[u8]) -> (c: Confidence)
        ensures
            c == spec_detect(extension@, content@),
    {
        if str_eq(extension, ".arb") {
            return Confidence::Definite;
        }
        if str_eq(extension, ".json") {
            match std::str::from_utf8(content) {
                Ok(s) => if str_contains(s, "\"@@locale\"") {
                    return Confidence::Definite;
                },
                Err(_) => {},
            }
        }
        Confidence::NoMatch
    }

    /// Parses ARB JSON.
    pub fn parse(&self, content: &[u8]) -> (r: Result<I18nResource, ParseError>)
        ensures
            parse_ok(r, content@),
    {
        let text = match std::str::from_utf8(content) {
            Ok(t) => t,
            Err(e) => return Err(ParseError::InvalidFormat(utf8_error_message(&e))),
        };
        match parse_json_object(text) {
            Ok(m) => Ok(parse_object(&m)),
            Err(e) => {
                let mut msg = "Failed to parse ARB JSON: ".to_owned();
                msg.append(e.as_str());
                Err(ParseError::Json(msg))
            },
        }
    }

    pub fn capabilities(&self) -> (c: FormatCapabilities)
        ensures
            c == capabilities_spec(),
    {
        FormatCapabilities {
            plurals: true,
            arrays: false,
            comments: true,
            context: true,
            source_string: false,
            translatable_flag: false,
            translation_state: false,
            max_width: false,
            device_variants: false,
            select_gender: true,
            nested_keys: false,
            inline_markup: false,
            alternatives: false,
            source_references: false,
            custom_properties: true,
        }
    }
}


// ---------------------------------------------------------------------------
// Writing
// ---------------------------------------------------------------------------

/// The members after inserting each pair in turn.
pub open spec fn insert_all(m: Seq<(Seq<char>, JsonView)>, ps: Seq<(Seq<char>, JsonView)>) -> Seq<(Seq<char>, JsonView)>
    decreases ps.len(),
{
    if ps.len() == 0 {
        m
    } else {
        map_insert(insert_all(m, ps.drop_last()), ps.last().0, ps.last().1)
    }
}

pub open spec fn opt_insert(m: Seq<(Seq<char>, JsonView)>, k: Seq<char>, v: Option<Seq<char>>) -> Seq<(Seq<char>, JsonView)> {
    match v {
        Some(t) => map_insert(m, k, JsonView::Str(t)),
        None => m,
    }
}

pub open spec fn exact_part() -> spec_fn((u64, Seq<char>)) -> Seq<char> {
    |p: (u64, Seq<char>)| "="@ + decimal(p.0 as nat) + "{"@ + p.1 + "}"@
}

pub open spec fn opt_part(cat: Seq<char>, o: Option<Seq<char>>) -> Seq<Seq<char>> {
    match o {
        Some(v) => seq![cat + "{"@ + v + "}"@],
        None => Seq::empty(),
    }
}

/// The ICU parts of a plural set: exact matches, the categories present
/// (zero only without an exact `=0`), then `other`.
pub open spec fn plural_parts(ps: PluralSet) -> Seq<Seq<char>> {
    let x = count_map_pairs(ps.exact_matches);
    x.map_values(exact_part()) + (if key_index(x, 0u64) >= 0 {
        Seq::empty()
    } else {
        opt_part("zero"@, opt_view(ps.zero))
    }) + opt_part("one"@, opt_view(ps.one)) + opt_part("two"@, opt_view(ps.two)) + opt_part("few"@, opt_view(ps.few))
        + opt_part("many"@, opt_view(ps.many)) + seq!["other{"@ + ps.other@ + "}"@]
}

/// A plural set as an ICU message on the variable `var`.
pub open spec fn plural_icu(ps: PluralSet, var: Seq<char>) -> Seq<char> {
    "{"@ + var + ", "@ + (if ps.ordinal {
        "selectordinal"@
    } else {
        "plural"@
    }) + ", "@ + join(plural_parts(ps), " "@) + "}"@
}

pub open spec fn case_part() -> spec_fn((Seq<char>, Seq<char>)) -> Seq<char> {
    |p: (Seq<char>, Seq<char>)| p.0 + "{"@ + p.1 + "}"@
}

/// A select set as an ICU message.
pub open spec fn select_icu(ss: SelectSet) -> Seq<char> {
    "{"@ + ss.variable@ + ", select, "@ + join(str_map_pairs(ss.cases).map_values(case_part()), " "@) + "}"@
}

/// The message text of a value.
pub open spec fn value_str(v: EntryValue) -> Seq<char> {
    match v {
        EntryValue::Simple(s) => s@,
        EntryValue::Plural(ps) => plural_icu(ps, "count"@),
        EntryValue::Select(ss) => select_icu(ss),
        EntryValue::Array(a) => join(string_views(a@), ", "@),
        EntryValue::MultiVariablePlural(m) => m.pattern@,
    }
}

pub open spec fn first_extracted(cs: Seq<Comment>) -> Option<Seq<char>>
    decreases cs.len(),
{
    if cs.len() == 0 {
        None
    } else if cs[0].role == CommentRole::Extracted {
        Some(cs[0].text@)
    } else {
        first_extracted(cs.drop_first())
    }
}

pub open spec fn first_description(cs: Seq<ContextEntry>) -> Option<Seq<char>>
    decreases cs.len(),
{
    if cs.len() == 0 {
        None
    } else if cs[0].context_type == ContextType::Description {
        Some(cs[0].value@)
    } else {
        first_description(cs.drop_first())
    }
}

pub open spec fn ph_type_str(t: PlaceholderType) -> Seq<char> {
    match t {
        PlaceholderType::String => "String"@,
        PlaceholderType::Integer => "int"@,
        PlaceholderType::Float => "float"@,
        PlaceholderType::Double => "double"@,
        PlaceholderType::DateTime => "DateTime"@,
        PlaceholderType::Currency => "currency"@,
        PlaceholderType::Object => "Object"@,
        PlaceholderType::Other(s) => s@,
    }
}

pub open spec fn str_pairs_view(ps: Seq<(Seq<char>, Seq<char>)>) -> Seq<(Seq<char>, JsonView)> {
    ps.map_values(|p: (Seq<char>, Seq<char>)| (p.0, JsonView::Str(p.1)))
}

/// The object describing a placeholder.
pub open spec fn ph_obj(p: Placeholder) -> Seq<(Seq<char>, JsonView)> {
    let m1 = opt_insert(
        Seq::empty(),
        "type"@,
        match p.placeholder_type {
            Some(t) => Some(ph_type_str(t)),
            None => None,
        },
    );
    let m2 = opt_insert(m1, "format"@, opt_view(p.format));
    let m3 = opt_insert(m2, "example"@, opt_view(p.example));
    let m4 = opt_insert(m3, "description"@, opt_view(p.description));
    match p.optional_parameters {
        Some(x) => map_insert(m4, "optionalParameters"@, JsonView::Object(insert_all(Seq::empty(), str_pairs_view(str_map_pairs(x))))),
        None => m4,
    }
}

pub open spec fn ph_members(phs: Seq<Placeholder>) -> Seq<(Seq<char>, JsonView)> {
    phs.map_values(|p: Placeholder| (p.name@, JsonView::Object(ph_obj(p))))
}

/// The `@key` object of an entry.
pub open spec fn meta_members(e: I18nEntry) -> Seq<(Seq<char>, JsonView)> {
    let m1 = opt_insert(Seq::empty(), "description"@, first_extracted(e.comments@));
    let m2 = opt_insert(m1, "context"@, first_description(e.contexts@));
    let m3 = match e.format_ext {
        Some(FormatExtension::Arb(x)) => insert_all(opt_insert(m2, "type"@, opt_view(x.message_type)), members_view(x.custom_fields@)),
        _ => m2,
    };
    let m4 = opt_insert(m3, "source"@, opt_view(e.source));
    if e.placeholders@.len() > 0 {
        map_insert(m4, "placeholders"@, JsonView::Object(insert_all(Seq::empty(), ph_members(e.placeholders@))))
    } else {
        m4
    }
}

/// The members an entry adds: its text, and its metadata when there is any.
pub open spec fn entry_members(k: Seq<char>, e: I18nEntry) -> Seq<(Seq<char>, JsonView)> {
    seq![(k, JsonView::Str(value_str(e.value)))] + if meta_members(e).len() > 0 {
        seq![("@"@ + k, JsonView::Object(meta_members(e)))]
    } else {
        Seq::empty()
    }
}

pub open spec fn all_entry_members(ps: Seq<(Seq<char>, I18nEntry)>) -> Seq<(Seq<char>, JsonView)>
    decreases ps.len(),
{
    if ps.len() == 0 {
        Seq::empty()
    } else {
        all_entry_members(ps.drop_last()) + entry_members(ps.last().0, ps.last().1)
    }
}

/// The `@@` headers written: all but `@@context`, which is written first.
pub open spec fn other_headers(h: Seq<(Seq<char>, Seq<char>)>) -> Seq<(Seq<char>, JsonView)>
    decreases h.len(),
{
    if h.len() == 0 {
        Seq::empty()
    } else {
        other_headers(h.drop_last()) + if h.last().0 != "@@context"@ && starts_with(h.last().0, "@@"@) {
            seq![(h.last().0, JsonView::Str(h.last().1))]
        } else {
            Seq::empty()
        }
    }
}

/// The root object of a resource.
pub open spec fn root_members(res: I18nResource) -> Seq<(Seq<char>, JsonView)> {
    let md = res.metadata;
    let m1 = opt_insert(Seq::empty(), "@@locale"@, opt_view(md.locale));
    let m2 = opt_insert(m1, "@@last_modified"@, opt_view(md.modified_at));
    let m3 = opt_insert(m2, "@@author"@, opt_view(md.created_by));
    let m4 = opt_insert(m3, "@@context"@, map_get(str_map_pairs(md.headers), "@@context"@));
    let m5 = insert_all(m4, other_headers(str_map_pairs(md.headers)));
    let m6 = match md.format_ext {
        Some(FormatExtension::Arb(x)) => insert_all(m5, members_view(x.custom_fields@)),
        _ => m5,
    };
    insert_all(m6, all_entry_members(entry_map_pairs(res.entries)))
}

proof fn lemma_insert_all_push(m: Seq<(Seq<char>, JsonView)>, ps: Seq<(Seq<char>, JsonView)>, k: Seq<char>, v: JsonView)
    ensures
        insert_all(m, ps.push((k, v))) == map_insert(insert_all(m, ps), k, v),
{
    assert(ps.push((k, v)).drop_last() =~= ps);
}

proof fn lemma_insert_all_concat(m: Seq<(Seq<char>, JsonView)>, a: Seq<(Seq<char>, JsonView)>, b: Seq<(Seq<char>, JsonView)>)
    ensures
        insert_all(m, a + b) == insert_all(insert_all(m, a), b),
    decreases b.len(),
{
    if b.len() == 0 {
        assert(a + b =~= a);
    } else {
        lemma_insert_all_concat(m, a, b.drop_last());
        assert((a + b).drop_last() =~= a + b.drop_last());
    }
}

fn opt_insert_exec(m: &mut Vec<(String, JsonValue)>, k: &str, v: Option<String>)
    ensures
        members_view(final(m)@) == opt_insert(members_view(old(m)@), k@, opt_view(v)),
{
    match v {
        Some(t) => obj_insert(m, k.to_owned(), JsonValue::Str(t)),
        None => {},
    }
}

/// Inserts each member of `ps` in turn.
fn insert_members(m: &mut Vec<(String, JsonValue)>, ps: &Vec<(String, JsonValue)>)
    ensures
        members_view(final(m)@) == insert_all(members_view(old(m)@), members_view(ps@)),
{
    let ghost start = members_view(m@);
    let mut i: usize = 0;
    while i < ps.len()
        invariant
            i <= ps@.len(),
            members_view(m@) == insert_all(start, members_view(ps@.take(i as int))),
        decreases ps@.len() - i,
    {
        proof {
            lemma_members_take(ps@, i as int);
            assert(members_view(ps@.take(i + 1)) == members_view(ps@.take(i as int)).push(
                (ps@[i as int].0@, json_view(ps@[i as int].1)),
            ));
            lemma_insert_all_push(start, members_view(ps@.take(i as int)), ps@[i as int].0@, json_view(ps@[i as int].1));
        }
        obj_insert(m, ps[i].0.clone(), ps[i].1.clone());
        i = i + 1;
    }
    proof {
        assert(ps@.take(ps@.len() as int) =~= ps@);
    }
}

fn push_part(parts: &mut Vec<String>, cat: &str, v: &Option<String>)
    ensures
        string_views(final(parts)@) == string_views(old(parts)@) + opt_part(cat@, opt_view(*v)),
{
    let ghost before = string_views(parts@);
    match v {
        Some(t) => {
            let mut p = cat.to_owned();
            p.append("{");
            p.append(t.as_str());
            p.append("}");
            parts.push(p);
            assert(string_views(parts@) =~= before + opt_part(cat@, opt_view(*v)));
        },
        None => {
            assert(before + opt_part(cat@, opt_view(*v)) =~= before);
        },
    }
}

/// A plural set as an ICU message on the variable.
pub fn plural_set_to_icu(ps: &PluralSet, var_name: &str) -> (r: String)
    ensures
        r@ == plural_icu(*ps, var_name@),
{
    let ghost x = count_map_pairs(ps.exact_matches);
    let mut parts: Vec<String> = Vec::new();
    let n = count_map_len(&ps.exact_matches);
    let mut has_zero = false;
    let mut i: usize = 0;
    assert(string_views(parts@) =~= x.take(0).map_values(exact_part()));
    while i < n
        invariant
            i <= n,
            n == x.len(),
            x == count_map_pairs(ps.exact_matches),
            string_views(parts@) == x.take(i as int).map_values(exact_part()),
            has_zero == (exists|j: int| 0 <= j < i && #[trigger] x[j].0 == 0u64),
        decreases n - i,
    {
        match count_map_get_index(&ps.exact_matches, i) {
            Some((num, val)) => {
                let mut p = "=".to_owned();
                push_decimal(&mut p, *num);
                p.append("{");
                p.append(val.as_str());
                p.append("}");
                let ghost before = string_views(parts@);
                parts.push(p);
                assert(string_views(parts@) =~= before.push(p@));
                assert(x.take(i + 1).map_values(exact_part()) =~= x.take(i as int).map_values(exact_part()).push(
                    (exact_part())(x[i as int]),
                ));
                if *num == 0 {
                    has_zero = true;
                }
            },
            None => {},
        }
        i = i + 1;
    }
    assert(x.take(n as int) =~= x);
    proof {
        lemma_key_index(x, 0u64);
        if has_zero {
            let j = choose|j: int| 0 <= j < n && #[trigger] x[j].0 == 0u64;
            assert(x[j].0 == 0u64);
        }
    }
    assert(has_zero == (key_index(x, 0u64) >= 0));
    if !has_zero {
        push_part(&mut parts, "zero", &ps.zero);
    } else {
        assert(string_views(parts@) + Seq::<Seq<char>>::empty() =~= string_views(parts@));
    }
    push_part(&mut parts, "one", &ps.one);
    push_part(&mut parts, "two", &ps.two);
    push_part(&mut parts, "few", &ps.few);
    push_part(&mut parts, "many", &ps.many);
    let mut o = "other{".to_owned();
    o.append(ps.other.as_str());
    o.append("}");
    let ghost before = string_views(parts@);
    parts.push(o);
    assert(string_views(parts@) =~= before + seq![o@]);
    assert(string_views(parts@) == plural_parts(*ps));
    let mut r = "{".to_owned();
    r.append(var_name);
    r.append(", ");
    if ps.ordinal {
        r.append("selectordinal");
    } else {
        r.append("plural");
    }
    r.append(", ");
    r.append(join_strings(&parts, " ").as_str());
    r.append("}");
    assert(r@ =~= plural_icu(*ps, var_name@));
    r
}

/// A select set as an ICU message.
pub fn select_set_to_icu(ss: &SelectSet) -> (r: String)
    ensures
        r@ == select_icu(*ss),
{
    let ghost x = str_map_pairs(ss.cases);
    let mut parts: Vec<String> = Vec::new();
    let n = str_map_len(&ss.cases);
    let mut i: usize = 0;
    assert(string_views(parts@) =~= x.take(0).map_values(case_part()));
    while i < n
        invariant
            i <= n,
            n == x.len(),
            x == str_map_pairs(ss.cases),
            string_views(parts@) == x.take(i as int).map_values(case_part()),
        decreases n - i,
    {
        match str_map_get_index(&ss.cases, i) {
            Some((k, v)) => {
                let mut p = k.clone();
                p.append("{");
                p.append(v.as_str());
                p.append("}");
                let ghost before = string_views(parts@);
                parts.push(p);
                assert(string_views(parts@) =~= before.push(p@));
                assert(x.take(i + 1).map_values(case_part()) =~= x.take(i as int).map_values(case_part()).push(
                    (case_part())(x[i as int]),
                ));
            },
            None => {},
        }
        i = i + 1;
    }
    assert(x.take(n as int) =~= x);
    let mut r = "{".to_owned();
    r.append(ss.variable.as_str());
    r.append(", select, ");
    r.append(join_strings(&parts, " ").as_str());
    r.append("}");
    r
}

fn value_str_exec(v: &EntryValue) -> (r: String)
    ensures
        r@ == value_str(*v),
{
    match v {
        EntryValue::Simple(s) => s.clone(),
        EntryValue::Plural(ps) => plural_set_to_icu(ps, "count"),
        EntryValue::Select(ss) => select_set_to_icu(ss),
        EntryValue::Array(a) => join_strings(a, ", "),
        EntryValue::MultiVariablePlural(m) => m.pattern.clone(),
    }
}


fn first_extracted_exec(cs: &Vec<Comment>) -> (r: Option<String>)
    ensures
        opt_view(r) == first_extracted(cs@),
{
    let mut i: usize = 0;
    assert(cs@.skip(0) == cs@);
    while i < cs.len()
        invariant
            i <= cs@.len(),
            first_extracted(cs@) == first_extracted(cs@.skip(i as int)),
        decreases cs@.len() - i,
    {
        assert(cs@.skip(i as int)[0] == cs@[i as int]);
        assert(cs@.skip(i as int).drop_first() == cs@.skip(i + 1));
        match cs[i].role {
            CommentRole::Extracted => return Some(cs[i].text.clone()),
            _ => {},
        }
        i = i + 1;
    }
    None
}

fn first_description_exec(cs: &Vec<ContextEntry>) -> (r: Option<String>)
    ensures
        opt_view(r) == first_description(cs@),
{
    let mut i: usize = 0;
    assert(cs@.skip(0) == cs@);
    while i < cs.len()
        invariant
            i <= cs@.len(),
            first_description(cs@) == first_description(cs@.skip(i as int)),
        decreases cs@.len() - i,
    {
        assert(cs@.skip(i as int)[0] == cs@[i as int]);
        assert(cs@.skip(i as int).drop_first() == cs@.skip(i + 1));
        match &cs[i].context_type {
            ContextType::Description => return Some(cs[i].value.clone()),
            _ => {},
        }
        i = i + 1;
    }
    None
}

fn ph_type_string(t: &PlaceholderType) -> (r: String)
    ensures
        r@ == ph_type_str(*t),
{
    match t {
        PlaceholderType::String => "String".to_owned(),
        PlaceholderType::Integer => "int".to_owned(),
        PlaceholderType::Float => "float".to_owned(),
        PlaceholderType::Double => "double".to_owned(),
        PlaceholderType::DateTime => "DateTime".to_owned(),
        PlaceholderType::Currency => "currency".to_owned(),
        PlaceholderType::Object => "Object".to_owned(),
        PlaceholderType::Other(s) => s.clone(),
    }
}

fn str_map_object(x: &indexmap::IndexMap<String, String>) -> (m: Vec<(String, JsonValue)>)
    ensures
        members_view(m@) == insert_all(Seq::empty(), str_pairs_view(str_map_pairs(*x))),
{
    let ghost ps = str_pairs_view(str_map_pairs(*x));
    let mut m: Vec<(String, JsonValue)> = Vec::new();
    assert(members_view(m@) =~= Seq::<(Seq<char>, JsonView)>::empty());
    let n = str_map_len(x);
    let mut i: usize = 0;
    while i < n
        invariant
            i <= n,
            n == str_map_pairs(*x).len(),
            ps == str_pairs_view(str_map_pairs(*x)),
            members_view(m@) == insert_all(Seq::empty(), ps.take(i as int)),
        decreases n - i,
    {
        match str_map_get_index(x, i) {
            Some((k, v)) => {
                proof {
                    assert(ps.take(i + 1) =~= ps.take(i as int).push(ps[i as int]));
                    lemma_insert_all_push(Seq::empty(), ps.take(i as int), ps[i as int].0, ps[i as int].1);
                }
                obj_insert(&mut m, k.clone(), JsonValue::Str(v.clone()));
            },
            None => {},
        }
        i = i + 1;
    }
    assert(ps.take(n as int) =~= ps);
    m
}

fn ph_obj_exec(p: &Placeholder) -> (m: Vec<(String, JsonValue)>)
    ensures
        members_view(m@) == ph_obj(*p),
{
    let mut m: Vec<(String, JsonValue)> = Vec::new();
    assert(members_view(m@) =~= Seq::<(Seq<char>, JsonView)>::empty());
    let t = match &p.placeholder_type {
        Some(t) => Some(ph_type_string(t)),
        None => None,
    };
    opt_insert_exec(&mut m, "type", t);
    opt_insert_exec(&mut m, "format", clone_opt(&p.format));
    opt_insert_exec(&mut m, "example", clone_opt(&p.example));
    opt_insert_exec(&mut m, "description", clone_opt(&p.description));
    match &p.optional_parameters {
        Some(x) => {
            let params = str_map_object(x);
            obj_insert(&mut m, "optionalParameters".to_owned(), JsonValue::Object(params));
        },
        None => {},
    }
    m
}

fn meta_members_exec(e: &I18nEntry) -> (m: Vec<(String, JsonValue)>)
    ensures
        members_view(m@) == meta_members(*e),
{
    let mut m: Vec<(String, JsonValue)> = Vec::new();
    assert(members_view(m@) =~= Seq::<(Seq<char>, JsonView)>::empty());
    opt_insert_exec(&mut m, "description", first_extracted_exec(&e.comments));
    opt_insert_exec(&mut m, "context", first_description_exec(&e.contexts));
    match &e.format_ext {
        Some(FormatExtension::Arb(x)) => {
            opt_insert_exec(&mut m, "type", clone_opt(&x.message_type));
            insert_members(&mut m, &x.custom_fields);
        },
        _ => {},
    }
    opt_insert_exec(&mut m, "source", clone_opt(&e.source));
    if e.placeholders.len() > 0 {
        let ghost phs = ph_members(e.placeholders@);
        let mut ph_map: Vec<(String, JsonValue)> = Vec::new();
        assert(members_view(ph_map@) =~= Seq::<(Seq<char>, JsonView)>::empty());
        let mut i: usize = 0;
        while i < e.placeholders.len()
            invariant
                i <= e.placeholders@.len(),
                phs == ph_members(e.placeholders@),
                members_view(ph_map@) == insert_all(Seq::empty(), phs.take(i as int)),
            decreases e.placeholders@.len() - i,
        {
            let p = &e.placeholders[i];
            proof {
                assert(phs.take(i + 1) =~= phs.take(i as int).push(phs[i as int]));
                lemma_insert_all_push(Seq::empty(), phs.take(i as int), phs[i as int].0, phs[i as int].1);
            }
            let obj = ph_obj_exec(p);
            obj_insert(&mut ph_map, p.name.clone(), JsonValue::Object(obj));
            i = i + 1;
        }
        assert(phs.take(e.placeholders@.len() as int) =~= phs);
        obj_insert(&mut m, "placeholders".to_owned(), JsonValue::Object(ph_map));
    }
    m
}


/// The root object of the document.
pub fn root_object(resource: &I18nResource) -> (m: Vec<(String, JsonValue)>)
    ensures
        members_view(m@) == root_members(*resource),
{
    let md = &resource.metadata;
    let mut m: Vec<(String, JsonValue)> = Vec::new();
    assert(members_view(m@) =~= Seq::<(Seq<char>, JsonView)>::empty());
    opt_insert_exec(&mut m, "@@locale", clone_opt(&md.locale));
    opt_insert_exec(&mut m, "@@last_modified", clone_opt(&md.modified_at));
    opt_insert_exec(&mut m, "@@author", clone_opt(&md.created_by));
    let ctx = match str_map_get(&md.headers, "@@context") {
        Some(v) => Some(v.clone()),
        None => None,
    };
    opt_insert_exec(&mut m, "@@context", ctx);
    let ghost m4 = members_view(m@);
    let ghost hs = str_map_pairs(md.headers);
    let n = str_map_len(&md.headers);
    let mut i: usize = 0;
    assert(hs.take(0) =~= Seq::<(Seq<char>, Seq<char>)>::empty());
    while i < n
        invariant
            i <= n,
            n == hs.len(),
            hs == str_map_pairs(md.headers),
            members_view(m@) == insert_all(m4, other_headers(hs.take(i as int))),
        decreases n - i,
    {
        assert(hs.take(i + 1).drop_last() =~= hs.take(i as int));
        match str_map_get_index(&md.headers, i) {
            Some((k, v)) => {
                if !str_eq(k.as_str(), "@@context") && starts_with_str(k.as_str(), "@@") {
                    proof {
                        lemma_insert_all_push(m4, other_headers(hs.take(i as int)), k@, JsonView::Str(v@));
                        assert(other_headers(hs.take(i + 1)) =~= other_headers(hs.take(i as int)).push((k@, JsonView::Str(v@))));
                    }
                    obj_insert(&mut m, k.clone(), JsonValue::Str(v.clone()));
                } else {
                    assert(other_headers(hs.take(i + 1)) =~= other_headers(hs.take(i as int)));
                }
            },
            None => {},
        }
        i = i + 1;
    }
    assert(hs.take(n as int) =~= hs);
    match &md.format_ext {
        Some(FormatExtension::Arb(x)) => insert_members(&mut m, &x.custom_fields),
        _ => {},
    }
    let ghost m6 = members_view(m@);
    let ghost ps = entry_map_pairs(resource.entries);
    let en = entry_map_len(&resource.entries);
    let mut j: usize = 0;
    assert(ps.take(0) =~= Seq::<(Seq<char>, I18nEntry)>::empty());
    while j < en
        invariant
            j <= en,
            en == ps.len(),
            ps == entry_map_pairs(resource.entries),
            members_view(m@) == insert_all(m6, all_entry_members(ps.take(j as int))),
        decreases en - j,
    {
        assert(ps.take(j + 1).drop_last() =~= ps.take(j as int));
        match entry_map_get_index(&resource.entries, j) {
            Some((k, e)) => {
                let ghost prev = all_entry_members(ps.take(j as int));
                let text = value_str_exec(&e.value);
                proof {
                    lemma_insert_all_push(m6, prev, k@, JsonView::Str(text@));
                }
                obj_insert(&mut m, k.clone(), JsonValue::Str(text));
                let meta = meta_members_exec(e);
                proof {
                    lemma_members_view(meta@, meta@.len() as int);
                }
                if meta.len() > 0 {
                    let mut mk = "@".to_owned();
                    mk.append(k.as_str());
                    proof {
                        lemma_insert_all_push(m6, prev.push((k@, JsonView::Str(text@))), mk@, JsonView::Object(meta_members(*e)));
                        assert(prev + entry_members(k@, *e) =~= prev.push((k@, JsonView::Str(text@))).push(
                            (mk@, JsonView::Object(meta_members(*e))),
                        ));
                    }
                    obj_insert(&mut m, mk, JsonValue::Object(meta));
                } else {
                    assert(prev + entry_members(k@, *e) =~= prev.push((k@, JsonView::Str(text@))));
                }
            },
            None => {},
        }
        j = j + 1;
    }
    assert(ps.take(en as int) =~= ps);
    m
}

impl Writer {
    /// Writes the resource as pretty-printed ARB JSON and a final new line.
    pub fn write(&self, resource: &I18nResource) -> (r: Result<Vec<u8>, WriteError>)
        ensures
            r matches Ok(b) ==> b@ == encode_utf8(json_pretty(JsonView::Object(root_members(*resource))) + "\n"@),
            r is Ok,
            r matches Err(e) ==> e is Serialization,
    {
        let root = JsonValue::Object(root_object(resource));
        match to_pretty(&root) {
            Ok(json) => {
                let mut out = json;
                out.append("\n");
                Ok(string_bytes(&out))
            },
            Err(e) => {
                let mut msg = "Failed to serialize ARB: ".to_owned();
                msg.append(e.as_str());
                Err(WriteError::Serialization(msg))
            },
        }
    }

    pub fn capabilities(&self) -> (c: FormatCapabilities)
        ensures
            c == capabilities_spec(),
    {
        Parser.capabilities()
    }
}

impl super::FormatParser for Parser {
    fn detect(&self, extension: &str, content: &[u8]) -> (c: Confidence)
        ensures
            c == spec_detect(extension@, content@),
    {
        Parser::detect(self, extension, content)
    }

    fn parse(&self, content: &[u8]) -> (r: Result<I18nResource, ParseError>)
        ensures
            parse_ok(r, content@),
    {
        Parser::parse(self, content)
    }

    fn capabilities(&self) -> (c: FormatCapabilities)
        ensures
            c == capabilities_spec(),
    {
        Parser::capabilities(self)
    }
}

impl super::FormatWriter for Writer {
    fn write(&self, resource: &I18nResource) -> (r: Result<Vec<u8>, WriteError>)
        ensures
            r matches Ok(b) ==> b@ == encode_utf8(json_pretty(JsonView::Object(root_members(*resource))) + "\n"@),
            r is Ok,
            r matches Err(e) ==> e is Serialization,
    {
        Writer::write(self, resource)
    }

    fn capabilities(&self) -> (c: FormatCapabilities)
        ensures
            c == capabilities_spec(),
    {
        Writer::capabilities(self)
    }
}

} // verus!
