//! .NET RESX files: `<resheader>` name/value pairs and `<data>` elements
//! with a `<value>` and an optional `<comment>`, under `<root>`.
use vstd::prelude::*;
use indexmap::IndexMap;
use crate::collections::{
    entry_map_pairs, entry_map_new, entry_map_insert, map_insert, map_get, pairs_model, lemma_pairs_model_insert,
    entry_map_len, entry_map_get_index, str_map_pairs, str_map_new, str_map_insert, str_map_get, str_map_len,
    str_map_get_index,
};
use crate::ir::{
    I18nResource, I18nEntry, ResourceMetadata, FormatId, EntryValue, FormatCapabilities, FormatExtension, ResxExt,
    Comment, CommentRole,
};
use crate::text::{str_chars, string_of, str_eq, str_contains, contains, split_char, split_at_char, trim, trim_chars, lemma_split_char_len};
use crate::xml::{
    XmlEvent, XmlEventView, event_view, events_view, attrs_view, xml_read, read_xml, XmlOut, XmlOutView, out_view,
    outs_view, out_attrs_view, xml_written, write_xml, attr_get, get_attr, opt_attr, text_element, flat_events,
    lemma_flat_events_step, push_ev, push_text_element, push_opt_attr, no_attrs,
};
use vstd::utf8::{valid_utf8, decode_utf8};
use super::{clone_opt, Confidence, ParseError, WriteError, opt_view};

verus! {

pub struct Parser;

pub struct Writer;

// ---------------------------------------------------------------------------
// Reading
// ---------------------------------------------------------------------------

/// Where the reader is.
#[derive(Clone, Copy, PartialEq, Eq, Structural)]
pub enum RMode {
    Root,
    ResHeader,
    ResHeaderValue,
    Data,
    DataValue,
    DataComment,
    Schema,
}

/// A `<data>` element read so far.
pub struct DataView {
    pub name: Seq<char>,
    pub value: Seq<char>,
    pub comment: Option<Seq<char>>,
    pub type_attr: Option<Seq<char>>,
    pub mimetype: Option<Seq<char>>,
}

/// The reader's state: where it is, the depth inside `<schema>`, the text
/// collected, the name of the open `<resheader>`, the open `<data>`, and
/// the headers and data read.
pub struct RView {
    pub mode: RMode,
    pub depth: nat,
    pub text: Seq<char>,
    pub header: Option<Seq<char>>,
    pub data: Option<DataView>,
    pub headers: Seq<(Seq<char>, Seq<char>)>,
    pub items: Seq<(Seq<char>, DataView)>,
}

/// The name after the last `:` of a tag name.
pub open spec fn local_name(n: Seq<char>) -> Seq<char> {
    split_char(n, ':').last()
}

pub open spec fn data_start(a: Seq<(Seq<char>, Seq<u8>)>) -> DataView {
    DataView {
        name: match attr_get(a, "name"@) {
            Some(n) => n,
            None => Seq::empty(),
        },
        value: Seq::empty(),
        comment: None,
        type_attr: attr_get(a, "type"@),
        mimetype: attr_get(a, "mimetype"@),
    }
}

pub open spec fn r_start(st: RView, n: Seq<char>, a: Seq<(Seq<char>, Seq<u8>)>) -> RView {
    let l = local_name(n);
    if st.mode == RMode::Schema {
        RView { depth: st.depth + 1, ..st }
    } else if l == "root"@ {
        RView { mode: RMode::Root, ..st }
    } else if l == "schema"@ && st.mode == RMode::Root {
        RView { mode: RMode::Schema, depth: 1, ..st }
    } else if l == "resheader"@ && st.mode == RMode::Root {
        RView { mode: RMode::ResHeader, header: attr_get(a, "name"@), ..st }
    } else if l == "value"@ && st.mode == RMode::ResHeader {
        RView { mode: RMode::ResHeaderValue, text: Seq::empty(), ..st }
    } else if l == "data"@ && st.mode == RMode::Root {
        RView { mode: RMode::Data, data: Some(data_start(a)), ..st }
    } else if l == "value"@ && st.mode == RMode::Data {
        RView { mode: RMode::DataValue, text: Seq::empty(), ..st }
    } else if l == "comment"@ && st.mode == RMode::Data {
        RView { mode: RMode::DataComment, text: Seq::empty(), ..st }
    } else {
        st
    }
}

pub open spec fn r_empty(st: RView, n: Seq<char>, a: Seq<(Seq<char>, Seq<u8>)>) -> RView {
    if local_name(n) == "data"@ && st.mode == RMode::Root {
        let d = data_start(a);
        let plain = DataView { value: Seq::empty(), comment: None, type_attr: None, mimetype: None, ..d };
        RView { items: map_insert(st.items, d.name, plain), ..st }
    } else {
        st
    }
}

pub open spec fn r_end(st: RView, n: Seq<char>) -> RView {
    let l = local_name(n);
    if st.mode == RMode::Schema {
        if l == "schema"@ {
            let d: nat = if st.depth > 0 { (st.depth - 1) as nat } else { 0 };
            if d == 0 {
                RView { mode: RMode::Root, depth: d, ..st }
            } else {
                RView { depth: d, ..st }
            }
        } else {
            RView { depth: if st.depth > 0 { (st.depth - 1) as nat } else { 0 }, ..st }
        }
    } else if l == "value"@ && st.mode == RMode::ResHeaderValue {
        RView {
            headers: match st.header {
                Some(h) => map_insert(st.headers, h, trim(st.text)),
                None => st.headers,
            },
            text: Seq::empty(),
            mode: RMode::ResHeader,
            ..st
        }
    } else if l == "resheader"@ {
        RView { header: None, mode: RMode::Root, ..st }
    } else if l == "value"@ && st.mode == RMode::DataValue {
        RView {
            data: match st.data {
                Some(d) => Some(DataView { value: st.text, ..d }),
                None => None,
            },
            text: Seq::empty(),
            mode: RMode::Data,
            ..st
        }
    } else if l == "comment"@ && st.mode == RMode::DataComment {
        RView {
            data: match st.data {
                Some(d) => Some(DataView { comment: Some(trim(st.text)), ..d }),
                None => None,
            },
            text: Seq::empty(),
            mode: RMode::Data,
            ..st
        }
    } else if l == "data"@ && st.mode == RMode::Data {
        RView {
            items: match st.data {
                Some(d) => map_insert(st.items, d.name, d),
                None => st.items,
            },
            data: None,
            mode: RMode::Root,
            ..st
        }
    } else if l == "root"@ {
        RView { mode: RMode::Root, ..st }
    } else {
        st
    }
}

/// One event: text is collected outside `<schema>` (text that does not
/// unescape adds nothing); comments and CDATA are passed over.
pub open spec fn r_step(st: RView, e: XmlEventView) -> RView {
    match e {
        XmlEventView::Start(n, a) => r_start(st, n, a),
        XmlEventView::Empty(n, a) => r_empty(st, n, a),
        XmlEventView::End(n) => r_end(st, n),
        XmlEventView::Text(t) => if st.mode == RMode::Schema {
            st
        } else {
            RView { text: st.text + t, ..st }
        },
        _ => st,
    }
}

pub open spec fn r_init() -> RView {
    RView {
        mode: RMode::Root,
        depth: 0,
        text: Seq::empty(),
        header: None,
        data: None,
        headers: Seq::empty(),
        items: Seq::empty(),
    }
}

pub open spec fn r_fold(evs: Seq<XmlEventView>) -> RView
    decreases evs.len(),
{
    if evs.len() == 0 {
        r_init()
    } else {
        r_step(r_fold(evs.drop_last()), evs.last())
    }
}

/// The entry of a `<data>` element: its name, its value, its comment as a
/// developer comment when not empty, and its type and MIME type in the RESX
/// extension when it has either.
pub open spec fn resx_entry(e: I18nEntry, d: DataView) -> bool {
    &&& e.key@ == d.name
    &&& e.value matches EntryValue::Simple(v) && v@ == d.value
    &&& match d.comment {
        Some(c) if c.len() > 0 => e.comments@.len() == 1 && e.comments@[0].text@ == c && e.comments@[0].role
            == CommentRole::Developer && e.comments@[0].priority is None && e.comments@[0].annotates is None,
        _ => e.comments@.len() == 0,
    }
    &&& if d.type_attr is Some || d.mimetype is Some {
        e.format_ext matches Some(FormatExtension::Resx(x)) && opt_view(x.type_attr) == d.type_attr && opt_view(
            x.mimetype,
        ) == d.mimetype && x.schema is None
    } else {
        e.format_ext is None
    }
    &&& I18nEntry::spec_bare(e)
}

pub open spec fn resx_rel() -> spec_fn(I18nEntry, DataView) -> bool {
    |e: I18nEntry, d: DataView| resx_entry(e, d)
}

/// What a resource read from RESX holds: the headers and the data.
pub open spec fn parsed_resource(res: I18nResource, st: RView) -> bool {
    &&& res.metadata.source_format == FormatId::Resx
    &&& res.metadata.locale is None
    &&& res.metadata.source_locale is None
    &&& str_map_pairs(res.metadata.headers) == st.headers
    &&& str_map_pairs(res.metadata.properties).len() == 0
    &&& res.metadata.encoding is None
    &&& res.metadata.direction is None
    &&& res.metadata.created_at is None
    &&& res.metadata.modified_at is None
    &&& res.metadata.created_by is None
    &&& res.metadata.modified_by is None
    &&& res.metadata.tool_name is None
    &&& res.metadata.tool_version is None
    &&& res.metadata.format_ext is None
    &&& pairs_model(entry_map_pairs(res.entries), st.items, resx_rel())
}

/// The outcome of reading RESX bytes: an XML error, or the resource of the
/// events, text not trimmed.
pub open spec fn parse_ok(r: Result<I18nResource, ParseError>, content: Seq<u8>) -> bool {
    match xml_read(content, false) {
        None => r matches Err(ParseError::Xml(_)),
        Some(evs) => r matches Ok(res) && parsed_resource(res, r_fold(evs)),
    }
}

/// The exec state of the reader.
pub struct DataBuilder {
    pub name: String,
    pub value: String,
    pub comment: Option<String>,
    pub type_attr: Option<String>,
    pub mimetype: Option<String>,
}

pub open spec fn data_view(d: DataBuilder) -> DataView {
    DataView {
        name: d.name@,
        value: d.value@,
        comment: opt_view(d.comment),
        type_attr: opt_view(d.type_attr),
        mimetype: opt_view(d.mimetype),
    }
}

pub open spec fn opt_data_view(d: Option<DataBuilder>) -> Option<DataView> {
    match d {
        Some(x) => Some(data_view(x)),
        None => None,
    }
}

struct ReadState {
    mode: RMode,
    depth: usize,
    text: String,
    header: Option<String>,
    data: Option<DataBuilder>,
    headers: IndexMap<String, String>,
}

spec fn rs_view(st: ReadState, items: Seq<(Seq<char>, DataView)>) -> RView {
    RView {
        mode: st.mode,
        depth: st.depth as nat,
        text: st.text@,
        header: opt_view(st.header),
        data: opt_data_view(st.data),
        headers: str_map_pairs(st.headers),
        items,
    }
}

/// The local name of a tag: the part after its last `:`.
pub fn local_name_exec(n: &String) -> (r: Vec<char>)
    ensures
        r@ == local_name(n@),
{
    let c = str_chars(n.as_str());
    let parts = split_at_char(c.as_slice(), ':');
    proof {
        lemma_split_char_len(n@, ':');
    }
    let k = parts.len() - 1;
    assert(parts@.map_values(|l: Vec<char>| l@)[k as int] == parts@[k as int]@);
    let r = crate::text::chars_range(parts[k].as_slice(), 0, parts[k].len());
    assert(parts@[k as int]@.subrange(0, parts@[k as int]@.len() as int) == parts@[k as int]@);
    r
}

/// Whether the characters are those of `s`.
pub fn is_name(l: &Vec<char>, s: &str) -> (b: bool)
    ensures
        b == (l@ == s@),
{
    let c = str_chars(s);
    crate::text::chars_eq(l.as_slice(), c.as_slice())
}

fn data_start_exec(a: &Vec<(String, Vec<u8>)>) -> (d: DataBuilder)
    ensures
        data_view(d) == data_start(attrs_view(a@)),
{
    let name = match get_attr(a, "name") {
        Some(n) => n,
        None => String::new(),
    };
    DataBuilder {
        name,
        value: String::new(),
        comment: None,
        type_attr: get_attr(a, "type"),
        mimetype: get_attr(a, "mimetype"),
    }
}

fn start_exec(st: &mut ReadState, n: &String, a: &Vec<(String, Vec<u8>)>, Ghost(items): Ghost<Seq<(Seq<char>, DataView)>>, Ghost(bound): Ghost<nat>)
    requires
        old(st).depth < bound,
        bound <= usize::MAX,
    ensures
        rs_view(*final(st), items) == r_start(rs_view(*old(st), items), n@, attrs_view(a@)),
        final(st).depth <= bound,
{
    let l = local_name_exec(n);
    if st.mode == RMode::Schema {
        st.depth = st.depth + 1;
    } else if is_name(&l, "root") {
        st.mode = RMode::Root;
    } else if is_name(&l, "schema") && st.mode == RMode::Root {
        st.mode = RMode::Schema;
        st.depth = 1;
    } else if is_name(&l, "resheader") && st.mode == RMode::Root {
        st.mode = RMode::ResHeader;
        st.header = get_attr(a, "name");
    } else if is_name(&l, "value") && st.mode == RMode::ResHeader {
        st.mode = RMode::ResHeaderValue;
        st.text = String::new();
    } else if is_name(&l, "data") && st.mode == RMode::Root {
        st.mode = RMode::Data;
        st.data = Some(data_start_exec(a));
    } else if is_name(&l, "value") && st.mode == RMode::Data {
        st.mode = RMode::DataValue;
        st.text = String::new();
    } else if is_name(&l, "comment") && st.mode == RMode::Data {
        st.mode = RMode::DataComment;
        st.text = String::new();
    }
}

fn trimmed(s: &String) -> (r: String)
    ensures
        r@ == trim(s@),
{
    let c = str_chars(s.as_str());
    string_of(trim_chars(c.as_slice()).as_slice())
}

/// The end of an element; a finished `<data>` element is handed back.
fn end_exec(st: &mut ReadState, n: &String, Ghost(items): Ghost<Seq<(Seq<char>, DataView)>>) -> (r: Option<DataBuilder>)
    ensures
        final(st).depth <= old(st).depth,
        ({
            let s2 = r_end(rs_view(*old(st), items), n@);
            match r {
                Some(d) => rs_view(*final(st), map_insert(items, d.name@, data_view(d))) == s2,
                None => rs_view(*final(st), items) == s2,
            }
        }),
{
    let l = local_name_exec(n);
    if st.mode == RMode::Schema {
        if is_name(&l, "schema") {
            let d: usize = if st.depth > 0 { st.depth - 1 } else { 0 };
            st.depth = d;
            if d == 0 {
                st.mode = RMode::Root;
            }
        } else {
            st.depth = if st.depth > 0 { st.depth - 1 } else { 0 };
        }
        None
    } else if is_name(&l, "value") && st.mode == RMode::ResHeaderValue {
        match &st.header {
            Some(h) => {
                let v = trimmed(&st.text);
                str_map_insert(&mut st.headers, h.clone(), v);
            },
            None => {},
        }
        st.text = String::new();
        st.mode = RMode::ResHeader;
        None
    } else if is_name(&l, "resheader") {
        st.header = None;
        st.mode = RMode::Root;
        None
    } else if is_name(&l, "value") && st.mode == RMode::DataValue {
        let mut data = None;
        std::mem::swap(&mut data, &mut st.data);
        match data {
            Some(mut d) => {
                d.value = st.text.clone();
                st.data = Some(d);
            },
            None => {},
        }
        st.text = String::new();
        st.mode = RMode::Data;
        None
    } else if is_name(&l, "comment") && st.mode == RMode::DataComment {
        let mut data = None;
        std::mem::swap(&mut data, &mut st.data);
        match data {
            Some(mut d) => {
                d.comment = Some(trimmed(&st.text));
                st.data = Some(d);
            },
            None => {},
        }
        st.text = String::new();
        st.mode = RMode::Data;
        None
    } else if is_name(&l, "data") && st.mode == RMode::Data {
        let mut data = None;
        std::mem::swap(&mut data, &mut st.data);
        st.mode = RMode::Root;
        data
    } else if is_name(&l, "root") {
        st.mode = RMode::Root;
        None
    } else {
        None
    }
}

fn data_entry(d: DataBuilder) -> (e: I18nEntry)
    ensures
        resx_entry(e, data_view(d)),
{
    let mut e = I18nEntry::with_value(d.name, EntryValue::Simple(d.value));
    match d.comment {
        Some(c) => {
            if !c.as_str().is_empty() {
                e.comments.push(Comment { text: c, role: CommentRole::Developer, priority: None, annotates: None });
            }
        },
        None => {},
    }
    if d.type_attr.is_some() || d.mimetype.is_some() {
        e.format_ext = Some(FormatExtension::Resx(ResxExt { type_attr: d.type_attr, mimetype: d.mimetype, schema: None }));
    }
    e
}

/// Reads RESX events into a resource.
pub fn parse_events(evs: &Vec<XmlEvent>) -> (res: I18nResource)
    ensures
        parsed_resource(res, r_fold(events_view(evs@))),
{
    let ghost ev = events_view(evs@);
    let mut st = ReadState {
        mode: RMode::Root,
        depth: 0,
        text: String::new(),
        header: None,
        data: None,
        headers: str_map_new(),
    };
    let mut entries = entry_map_new();
    let ghost mut items: Seq<(Seq<char>, DataView)> = Seq::empty();
    let mut i: usize = 0;
    assert(rs_view(st, items) == r_init());
    while i < evs.len()
        invariant
            i <= evs@.len(),
            ev == events_view(evs@),
            st.depth <= i,
            r_fold(ev.take(i as int)) == rs_view(st, items),
            pairs_model(entry_map_pairs(entries), items, resx_rel()),
        decreases evs@.len() - i,
    {
        assert(ev.take(i + 1).drop_last() == ev.take(i as int));
        assert(ev.take(i + 1).last() == event_view(evs@[i as int]));
        match &evs[i] {
            XmlEvent::Start(n, a) => start_exec(&mut st, n, a, Ghost(items), Ghost((i + 1) as nat)),
            XmlEvent::Empty(n, a) => {
                let l = local_name_exec(n);
                if is_name(&l, "data") && st.mode == RMode::Root {
                    let d = data_start_exec(a);
                    let plain = DataBuilder { name: d.name, value: String::new(), comment: None, type_attr: None, mimetype: None };
                    let key = plain.name.clone();
                    let ghost dv = data_view(plain);
                    let e = data_entry(plain);
                    proof {
                        lemma_pairs_model_insert(entry_map_pairs(entries), items, resx_rel(), key@, e, dv);
                        items = map_insert(items, key@, dv);
                    }
                    entry_map_insert(&mut entries, key, e);
                }
            },
            XmlEvent::Text(t) => {
                if st.mode != RMode::Schema {
                    st.text.append(t.as_str());
                }
            },
            XmlEvent::End(n) => {
                match end_exec(&mut st, n, Ghost(items)) {
                    Some(d) => {
                        let key = d.name.clone();
                        let ghost dv = data_view(d);
                        let e = data_entry(d);
                        proof {
                            lemma_pairs_model_insert(entry_map_pairs(entries), items, resx_rel(), key@, e, dv);
                            items = map_insert(items, key@, dv);
                        }
                        entry_map_insert(&mut entries, key, e);
                    },
                    None => {},
                }
            },
            _ => {},
        }
        i = i + 1;
    }
    assert(ev.take(evs@.len() as int) == ev);
    let mut metadata = ResourceMetadata::for_format(FormatId::Resx);
    metadata.headers = st.headers;
    I18nResource { metadata, entries }
}

pub open spec fn spec_capabilities() -> FormatCapabilities {
    FormatCapabilities { comments: true, custom_properties: true, ..FormatCapabilities::spec_none() }
}

/// `.resx` is certain; `.xml` holding `<root>` and `<resheader` is likely.
pub open spec fn spec_detect(ext: Seq<char>, content: Seq<u8>) -> Confidence {
    if ext == ".resx"@ {
        Confidence::Definite
    } else if ext == ".xml"@ && valid_utf8(content) && contains(decode_utf8(content), "<root>"@) && contains(
        decode_utf8(content),
        "<resheader"@,
    ) {
        Confidence::High
    } else {
        Confidence::NoMatch
    }
}

impl Parser {
    pub fn detect(&self, extension: &str, content: &[u8]) -> (c: Confidence)
        ensures
            c == spec_detect(extension@, content@),
    {
        if str_eq(extension, ".resx") {
            return Confidence::Definite;
        }
        if str_eq(extension, ".xml") {
            match std::str::from_utf8(content) {
                Ok(s) => {
                    if str_contains(s, "<root>") && str_contains(s, "<resheader") {
                        return Confidence::High;
                    }
                },
                Err(_) => {},
            }
        }
        Confidence::NoMatch
    }

    /// Parses RESX; text is kept as it stands.
    pub fn parse(&self, content: &[u8]) -> (r: Result<I18nResource, ParseError>)
        ensures
            parse_ok(r, content@),
    {
        match read_xml(content, false) {
            Ok(evs) => Ok(parse_events(&evs)),
            Err(e) => {
                let mut m = "XML parse error: ".to_owned();
                m.append(e.as_str());
                Err(ParseError::Xml(m))
            },
        }
    }

    pub fn capabilities(&self) -> (c: FormatCapabilities)
        ensures
            c == spec_capabilities(),
    {
        FormatCapabilities { comments: true, custom_properties: true, ..FormatCapabilities::default() }
    }
}

// ---------------------------------------------------------------------------
// Writing
// ---------------------------------------------------------------------------

/// `<resheader name="..."><value>...</value></resheader>`.
pub open spec fn resheader_events(name: Seq<char>, value: Seq<char>) -> Seq<XmlOutView> {
    seq![XmlOutView::Start("resheader"@, seq![("name"@, name)])] + text_element("value"@, Seq::empty(), value) + seq![
        XmlOutView::End("resheader"@),
    ]
}

/// A header's value, or the default when the resource has none.
pub open spec fn header_or(hs: Seq<(Seq<char>, Seq<char>)>, name: Seq<char>, default: Seq<char>) -> Seq<char> {
    match map_get(hs, name) {
        Some(v) => v,
        None => default,
    }
}

/// The headers besides `resmimetype` and `version`, in order.
pub open spec fn extra_header_events() -> spec_fn((Seq<char>, Seq<char>)) -> Seq<XmlOutView> {
    |h: (Seq<char>, Seq<char>)| if h.0 == "resmimetype"@ || h.0 == "version"@ {
        Seq::empty()
    } else {
        resheader_events(h.0, h.1)
    }
}

/// The attributes of `<data>`: its name, `xml:space="preserve"`, and the
/// type and MIME type of the RESX extension.
pub open spec fn data_attrs(e: I18nEntry) -> Seq<(Seq<char>, Seq<char>)> {
    seq![("name"@, e.key@), ("xml:space"@, "preserve"@)] + match e.format_ext {
        Some(FormatExtension::Resx(x)) => opt_attr("type"@, opt_view(x.type_attr)) + opt_attr(
            "mimetype"@,
            opt_view(x.mimetype),
        ),
        _ => Seq::empty(),
    }
}

/// The first comment with text, if any.
pub open spec fn first_comment(cs: Seq<Comment>) -> Option<Seq<char>>
    decreases cs.len(),
{
    if cs.len() == 0 {
        None
    } else if cs[0].text@.len() > 0 {
        Some(cs[0].text@)
    } else {
        first_comment(cs.drop_first())
    }
}

/// `<data>` with the simple value (empty for any other) and the first
/// comment with text.
pub open spec fn data_events(e: I18nEntry) -> Seq<XmlOutView> {
    seq![XmlOutView::Start("data"@, data_attrs(e))] + text_element(
        "value"@,
        Seq::empty(),
        match e.value {
            EntryValue::Simple(t) => t@,
            _ => Seq::empty(),
        },
    ) + match first_comment(e.comments@) {
        Some(c) => text_element("comment"@, Seq::empty(), c),
        None => Seq::empty(),
    } + seq![XmlOutView::End("data"@)]
}

pub open spec fn entry_data_events() -> spec_fn((Seq<char>, I18nEntry)) -> Seq<XmlOutView> {
    |p: (Seq<char>, I18nEntry)| data_events(p.1)
}

/// The events of a RESX document: the declaration, `<root>` with the
/// `resmimetype` and `version` headers (the resource's or the defaults),
/// the other headers, and one `<data>` per entry.
pub open spec fn doc_events(res: I18nResource) -> Seq<XmlOutView> {
    let hs = str_map_pairs(res.metadata.headers);
    seq![XmlOutView::Decl("1.0"@, Some("utf-8"@)), XmlOutView::Start("root"@, Seq::empty())] + resheader_events(
        "resmimetype"@,
        header_or(hs, "resmimetype"@, "text/microsoft-resx"@),
    ) + resheader_events("version"@, header_or(hs, "version"@, "2.0"@)) + flat_events(hs, extra_header_events())
        + flat_events(entry_map_pairs(res.entries), entry_data_events()) + seq![XmlOutView::End("root"@)]
}

fn push_resheader(evs: &mut Vec<XmlOut>, name: &str, value: String)
    ensures
        outs_view(final(evs)@) == outs_view(old(evs)@) + resheader_events(name@, value@),
{
    let ghost start = outs_view(evs@);
    let mut a = no_attrs();
    a.push(("name".to_owned(), name.to_owned()));
    assert(out_attrs_view(a@) =~= seq![("name"@, name@)]);
    push_ev(evs, XmlOut::Start("resheader".to_owned(), a));
    push_text_element(evs, "value", no_attrs(), value);
    push_ev(evs, XmlOut::End("resheader".to_owned()));
    assert(outs_view(evs@) =~= start + resheader_events(name@, value@));
}

fn header_or_exec(hs: &IndexMap<String, String>, name: &str, default: &str) -> (r: String)
    ensures
        r@ == header_or(str_map_pairs(*hs), name@, default@),
{
    match str_map_get(hs, name) {
        Some(v) => v.clone(),
        None => default.to_owned(),
    }
}

fn first_comment_exec(cs: &Vec<Comment>) -> (r: Option<String>)
    ensures
        opt_view(r) == first_comment(cs@),
{
    let mut i: usize = 0;
    assert(cs@.skip(0) == cs@);
    while i < cs.len()
        invariant
            i <= cs@.len(),
            first_comment(cs@) == first_comment(cs@.skip(i as int)),
        decreases cs@.len() - i,
    {
        assert(cs@.skip(i as int)[0] == cs@[i as int]);
        assert(cs@.skip(i as int).drop_first() == cs@.skip(i + 1));
        if !cs[i].text.as_str().is_empty() {
            return Some(cs[i].text.clone());
        }
        i = i + 1;
    }
    None
}

fn push_data(evs: &mut Vec<XmlOut>, e: &I18nEntry)
    ensures
        outs_view(final(evs)@) == outs_view(old(evs)@) + data_events(*e),
{
    let ghost start = outs_view(evs@);
    let mut a = no_attrs();
    let k = e.key.clone();
    assert(k@ == e.key@);
    a.push(("name".to_owned(), k));
    assert(out_attrs_view(a@) =~= seq![("name"@, e.key@)]);
    a.push(("xml:space".to_owned(), "preserve".to_owned()));
    assert(out_attrs_view(a@) =~= seq![("name"@, e.key@), ("xml:space"@, "preserve"@)]);
    match &e.format_ext {
        Some(FormatExtension::Resx(x)) => {
            push_opt_attr(&mut a, "type", clone_opt(&x.type_attr));
            push_opt_attr(&mut a, "mimetype", clone_opt(&x.mimetype));
        },
        _ => {},
    }
    assert(out_attrs_view(a@) =~= data_attrs(*e));
    push_ev(evs, XmlOut::Start("data".to_owned(), a));
    let text = match &e.value {
        EntryValue::Simple(t) => t.clone(),
        _ => String::new(),
    };
    push_text_element(evs, "value", no_attrs(), text);
    match first_comment_exec(&e.comments) {
        Some(c) => push_text_element(evs, "comment", no_attrs(), c),
        None => {},
    }
    push_ev(evs, XmlOut::End("data".to_owned()));
    assert(outs_view(evs@) =~= start + data_events(*e));
}

/// The events of the whole document.
pub fn document_events(res: &I18nResource) -> (evs: Vec<XmlOut>)
    ensures
        outs_view(evs@) == doc_events(*res),
{
    let mut evs: Vec<XmlOut> = Vec::new();
    assert(outs_view(evs@) =~= Seq::<XmlOutView>::empty());
    push_ev(&mut evs, XmlOut::Decl("1.0".to_owned(), Some("utf-8".to_owned())));
    push_ev(&mut evs, XmlOut::Start("root".to_owned(), no_attrs()));
    push_resheader(&mut evs, "resmimetype", header_or_exec(&res.metadata.headers, "resmimetype", "text/microsoft-resx"));
    push_resheader(&mut evs, "version", header_or_exec(&res.metadata.headers, "version", "2.0"));
    let ghost hs = str_map_pairs(res.metadata.headers);
    let ghost head = outs_view(evs@);
    let nh = str_map_len(&res.metadata.headers);
    let mut i: usize = 0;
    assert(head + flat_events(hs.take(0), extra_header_events()) =~= head);
    while i < nh
        invariant
            i <= nh,
            nh == hs.len(),
            hs == str_map_pairs(res.metadata.headers),
            outs_view(evs@) == head + flat_events(hs.take(i as int), extra_header_events()),
        decreases nh - i,
    {
        let (name, value) = str_map_get_index(&res.metadata.headers, i).unwrap();
        let ghost before = outs_view(evs@);
        if !str_eq(name.as_str(), "resmimetype") && !str_eq(name.as_str(), "version") {
            push_resheader(&mut evs, name.as_str(), value.clone());
        }
        proof {
            assert(hs[i as int] == (name@, value@));
            assert(outs_view(evs@) == before + (extra_header_events())(hs[i as int]));
            lemma_flat_events_step(hs, i as int, extra_header_events());
        }
        assert(outs_view(evs@) =~= head + flat_events(hs.take(i + 1), extra_header_events()));
        i = i + 1;
    }
    assert(hs.take(nh as int) == hs);
    let ghost ps = entry_map_pairs(res.entries);
    let ghost mid = outs_view(evs@);
    let n = entry_map_len(&res.entries);
    let mut j: usize = 0;
    assert(mid + flat_events(ps.take(0), entry_data_events()) =~= mid);
    while j < n
        invariant
            j <= n,
            n == ps.len(),
            ps == entry_map_pairs(res.entries),
            outs_view(evs@) == mid + flat_events(ps.take(j as int), entry_data_events()),
        decreases n - j,
    {
        let (_, e) = entry_map_get_index(&res.entries, j).unwrap();
        let ghost before = outs_view(evs@);
        push_data(&mut evs, e);
        proof {
            assert(ps[j as int].1 == *e);
            lemma_flat_events_step(ps, j as int, entry_data_events());
        }
        assert(outs_view(evs@) =~= mid + flat_events(ps.take(j + 1), entry_data_events()));
        j = j + 1;
    }
    assert(ps.take(n as int) == ps);
    push_ev(&mut evs, XmlOut::End("root".to_owned()));
    evs
}

impl Writer {
    /// Writes the resource as a RESX document indented by two spaces.
    pub fn write(&self, res: &I18nResource) -> (r: Result<Vec<u8>, WriteError>)
        ensures
            r matches Ok(b) ==> b@ == xml_written(doc_events(*res), 32u8, 2usize),
            r is Ok,
            r matches Err(e) ==> e is Serialization,
    {
        let evs = document_events(res);
        match write_xml(&evs, 32u8, 2) {
            Ok(b) => Ok(b),
            Err(m) => Err(WriteError::Serialization(m)),
        }
    }

    pub fn capabilities(&self) -> (c: FormatCapabilities)
        ensures
            c == spec_capabilities(),
    {
        Parser.capabilities()
    }
}

impl super::FormatParser for Parser {
    fn detect(&self, extension: &str, content: &[u8]) -> (c: Confidence)
        ensures
            c == spec_detect(extension@, content@),
    {
        Parser::detect(self, extension, content)
    }

    fn parse(&self, content: &[u8]) -> (r: Result<I18nResource, ParseError>)
        ensures
            parse_ok(r, content@),
    {
        Parser::parse(self, content)
    }

    fn capabilities(&self) -> (c: FormatCapabilities)
        ensures
            c == spec_capabilities(),
    {
        Parser::capabilities(self)
    }
}

impl super::FormatWriter for Writer {
    fn write(&self, res: &I18nResource) -> (r: Result<Vec<u8>, WriteError>)
        ensures
            r matches Ok(b) ==> b@ == xml_written(doc_events(*res), 32u8, 2usize),
            r is Ok,
            r matches Err(e) ==> e is Serialization,
    {
        Writer::write(self, res)
    }

    fn capabilities(&self) -> (c: FormatCapabilities)
        ensures
            c == spec_capabilities(),
    {
        Writer::capabilities(self)
    }
}

} // verus!
