//! TMX translation memories: a `<header>` and `<tu>` units whose `<tuv>`
//! variants hold the segment in each language, with `<note>` and `<prop>`.
use vstd::prelude::*;
use indexmap::IndexMap;
use crate::collections::{
    entry_map_pairs, entry_map_new, entry_map_insert, map_insert, map_get, pairs_model, lemma_pairs_model_insert,
    entry_map_len, entry_map_get_index, str_map_pairs, str_map_new, str_map_insert, str_map_get, str_map_len,
    str_map_get_index,
};
use crate::ir::{
    I18nResource, I18nEntry, ResourceMetadata, FormatId, EntryValue, FormatCapabilities, FormatExtension, TmxExt,
    Comment, CommentRole,
};
use crate::text::{str_chars, string_of, str_eq, str_contains, contains, decimal, push_decimal};
use crate::xml::{
    XmlEvent, XmlEventView, event_view, events_view, attrs_view, xml_read, read_xml, XmlOut, XmlOutView, out_view,
    outs_view, out_attrs_view, xml_written, write_xml, attr_get, get_attr, opt_attr, text_element, flat_events,
    lemma_flat_events_step, push_ev, push_text_element, push_opt_attr, no_attrs,
};
use vstd::utf8::{valid_utf8, decode_utf8};
use super::resx::{local_name, local_name_exec, is_name};
use super::{clone_opt, Confidence, ParseError, WriteError, opt_view, general_comments, general_comment};

verus! {

pub struct Parser;

pub struct Writer;

// ---------------------------------------------------------------------------
// Reading
// ---------------------------------------------------------------------------

/// Where the reader is.
#[derive(Clone, Copy, PartialEq, Eq, Structural)]
pub enum TMode {
    Root,
    Header,
    Body,
    Tu,
    Tuv,
    Seg,
    Note,
    Prop,
}

/// A `<tu>` read so far.
pub struct TuView {
    pub tuid: Seq<char>,
    pub notes: Seq<Seq<char>>,
    pub props: Seq<(Seq<char>, Seq<char>)>,
    pub variants: Seq<(Seq<char>, Seq<char>)>,
    pub change_date: Option<Seq<char>>,
    pub change_id: Option<Seq<char>>,
    pub prop_type: Option<Seq<char>>,
}

/// What an entry is made of: its value, notes, source text and
/// properties.
pub struct ItemView {
    pub key: Seq<char>,
    pub value: Seq<char>,
    pub notes: Seq<Seq<char>>,
    pub source: Option<Seq<char>>,
    pub props: Seq<(Seq<char>, Seq<char>)>,
}

/// The reader's state: the header's attributes, the open `<tu>`, the
/// language of the open `<tuv>`, the text collected, the locale of the
/// first target, and the entries.
pub struct TView {
    pub mode: TMode,
    pub text: Seq<char>,
    pub tu: Option<TuView>,
    pub lang: Option<Seq<char>>,
    pub src: Option<Seq<char>>,
    pub tool_name: Option<Seq<char>>,
    pub tool_version: Option<Seq<char>>,
    pub seg_type: Option<Seq<char>>,
    pub o_tmf: Option<Seq<char>>,
    pub headers: Seq<(Seq<char>, Seq<char>)>,
    pub locale: Option<Seq<char>>,
    pub items: Seq<(Seq<char>, ItemView)>,
}

/// The value of `xml:lang` or `lang`, whichever comes first (when UTF-8).
pub open spec fn lang_attr(a: Seq<(Seq<char>, Seq<u8>)>) -> Option<Seq<char>>
    decreases a.len(),
{
    if a.len() == 0 {
        None
    } else if a[0].0 == "xml:lang"@ || a[0].0 == "lang"@ {
        if valid_utf8(a[0].1) {
            Some(decode_utf8(a[0].1))
        } else {
            None
        }
    } else {
        lang_attr(a.drop_first())
    }
}

pub open spec fn opt_insert(m: Seq<(Seq<char>, Seq<char>)>, k: Seq<char>, v: Option<Seq<char>>) -> Seq<(Seq<char>, Seq<char>)> {
    match v {
        Some(x) => map_insert(m, k, x),
        None => m,
    }
}

pub open spec fn t_start(st: TView, n: Seq<char>, a: Seq<(Seq<char>, Seq<u8>)>) -> TView {
    let l = local_name(n);
    if l == "header"@ {
        TView {
            mode: TMode::Header,
            src: attr_get(a, "srclang"@),
            tool_name: attr_get(a, "creationtool"@),
            tool_version: attr_get(a, "creationtoolversion"@),
            seg_type: attr_get(a, "segtype"@),
            o_tmf: attr_get(a, "o-tmf"@),
            headers: opt_insert(opt_insert(st.headers, "adminlang"@, attr_get(a, "adminlang"@)), "datatype"@, attr_get(a, "datatype"@)),
            ..st
        }
    } else if l == "body"@ {
        TView { mode: TMode::Body, ..st }
    } else if l == "tu"@ {
        TView {
            mode: TMode::Tu,
            tu: Some(
                TuView {
                    tuid: match attr_get(a, "tuid"@) {
                        Some(t) => t,
                        None => Seq::empty(),
                    },
                    notes: Seq::empty(),
                    props: Seq::empty(),
                    variants: Seq::empty(),
                    change_date: attr_get(a, "changedate"@),
                    change_id: attr_get(a, "changeid"@),
                    prop_type: None,
                },
            ),
            ..st
        }
    } else if l == "tuv"@ {
        TView { mode: TMode::Tuv, lang: lang_attr(a), ..st }
    } else if l == "seg"@ {
        TView { mode: TMode::Seg, text: Seq::empty(), ..st }
    } else if l == "note"@ && st.mode == TMode::Tu {
        TView { mode: TMode::Note, text: Seq::empty(), ..st }
    } else if l == "prop"@ && st.mode == TMode::Tu {
        TView {
            mode: TMode::Prop,
            tu: match st.tu {
                Some(t) => Some(TuView { prop_type: attr_get(a, "type"@), ..t }),
                None => None,
            },
            text: Seq::empty(),
            ..st
        }
    } else {
        st
    }
}

/// The text of the first variant in the language, if any.
pub open spec fn variant_in(vs: Seq<(Seq<char>, Seq<char>)>, lang: Seq<char>) -> Option<Seq<char>>
    decreases vs.len(),
{
    if vs.len() == 0 {
        None
    } else if vs[0].0 == lang {
        Some(vs[0].1)
    } else {
        variant_in(vs.drop_first(), lang)
    }
}

/// The first variant in another language, if any.
pub open spec fn variant_not_in(vs: Seq<(Seq<char>, Seq<char>)>, lang: Seq<char>) -> Option<(Seq<char>, Seq<char>)>
    decreases vs.len(),
{
    if vs.len() == 0 {
        None
    } else if vs[0].0 != lang {
        Some(vs[0])
    } else {
        variant_not_in(vs.drop_first(), lang)
    }
}

/// The source language: the header's `srclang`, `en` without one.
pub open spec fn source_lang(src: Option<Seq<char>>) -> Seq<char> {
    match src {
        Some(s) => s,
        None => "en"@,
    }
}

/// The key of a unit: its `tuid`; without one its source text, and without
/// that `entry_N` with `N` the number of entries so far.
pub open spec fn tu_key(t: TuView, src: Seq<char>, count: nat) -> Seq<char> {
    if t.tuid.len() > 0 {
        t.tuid
    } else {
        match variant_in(t.variants, src) {
            Some(s) => s,
            None => "entry_"@ + decimal(count),
        }
    }
}

/// The entry of a finished unit: the first variant in another language than
/// the source as the value (empty without one), the source variant, the
/// notes, and the properties with the change date and author.
pub open spec fn tu_item(t: TuView, src: Seq<char>, count: nat) -> ItemView {
    ItemView {
        key: tu_key(t, src, count),
        value: match variant_not_in(t.variants, src) {
            Some(v) => v.1,
            None => Seq::empty(),
        },
        notes: t.notes,
        source: variant_in(t.variants, src),
        props: opt_insert(opt_insert(t.props, "changedate"@, t.change_date), "changeid"@, t.change_id),
    }
}

pub open spec fn t_end(st: TView, n: Seq<char>) -> TView {
    let l = local_name(n);
    if l == "seg"@ {
        TView {
            tu: match (st.tu, st.lang) {
                (Some(t), Some(g)) => Some(TuView { variants: t.variants.push((g, st.text)), ..t }),
                _ => st.tu,
            },
            text: Seq::empty(),
            mode: TMode::Tuv,
            ..st
        }
    } else if l == "tuv"@ {
        TView { lang: None, mode: TMode::Tu, ..st }
    } else if l == "note"@ && st.mode == TMode::Note {
        TView {
            tu: match st.tu {
                Some(t) => Some(TuView { notes: t.notes.push(st.text), ..t }),
                None => None,
            },
            text: Seq::empty(),
            mode: TMode::Tu,
            ..st
        }
    } else if l == "prop"@ && st.mode == TMode::Prop {
        TView {
            tu: match st.tu {
                Some(t) => Some(
                    TuView {
                        props: match t.prop_type {
                            Some(p) => map_insert(t.props, p, st.text),
                            None => t.props,
                        },
                        prop_type: None,
                        ..t
                    },
                ),
                None => None,
            },
            text: Seq::empty(),
            mode: TMode::Tu,
            ..st
        }
    } else if l == "tu"@ {
        match st.tu {
            Some(t) => {
                let src = source_lang(st.src);
                TView {
                    locale: if st.locale is None {
                        match variant_not_in(t.variants, src) {
                            Some(v) => Some(v.0),
                            None => None,
                        }
                    } else {
                        st.locale
                    },
                    items: map_insert(st.items, tu_key(t, src, st.items.len()), tu_item(t, src, st.items.len())),
                    tu: None,
                    mode: TMode::Body,
                    ..st
                }
            },
            None => TView { mode: TMode::Body, ..st },
        }
    } else if l == "body"@ || l == "header"@ {
        TView { mode: TMode::Root, ..st }
    } else {
        st
    }
}

/// One event: start and empty tags alike; all text is collected (text
/// that does not unescape adds nothing); comments and CDATA are passed over.
pub open spec fn t_step(st: TView, e: XmlEventView) -> TView {
    match e {
        XmlEventView::Start(n, a) => t_start(st, n, a),
        XmlEventView::Empty(n, a) => t_start(st, n, a),
        XmlEventView::End(n) => t_end(st, n),
        XmlEventView::Text(t) => TView { text: st.text + t, ..st },
        _ => st,
    }
}

pub open spec fn t_init() -> TView {
    TView {
        mode: TMode::Root,
        text: Seq::empty(),
        tu: None,
        lang: None,
        src: None,
        tool_name: None,
        tool_version: None,
        seg_type: None,
        o_tmf: None,
        headers: Seq::empty(),
        locale: None,
        items: Seq::empty(),
    }
}

pub open spec fn t_fold(evs: Seq<XmlEventView>) -> TView
    decreases evs.len(),
{
    if evs.len() == 0 {
        t_init()
    } else {
        t_step(t_fold(evs.drop_last()), evs.last())
    }
}

/// The entry of a unit: its key, value, notes as general comments, source
/// text and properties.
pub open spec fn tmx_entry(e: I18nEntry, x: ItemView) -> bool {
    &&& e.key@ == x.key
    &&& e.value matches EntryValue::Simple(v) && v@ == x.value
    &&& general_comments(e.comments@, x.notes)
    &&& opt_view(e.source) == x.source
    &&& str_map_pairs(e.properties) == x.props
    &&& e.format_ext is None
    &&& e.contexts@.len() == 0
    &&& e.previous_source is None
    &&& e.previous_comment is None
    &&& e.placeholders@.len() == 0
    &&& e.translatable is None
    &&& e.state is None
    &&& e.state_qualifier is None
    &&& e.approved is None
    &&& !e.obsolete
    &&& e.max_width is None
    &&& e.min_width is None
    &&& e.max_height is None
    &&& e.min_height is None
    &&& e.size_unit is None
    &&& e.max_bytes is None
    &&& e.min_bytes is None
    &&& e.source_references@.len() == 0
    &&& e.flags@.len() == 0
    &&& e.device_variants is None
    &&& e.alternatives@.len() == 0
    &&& e.resource_type is None
    &&& e.resource_name is None
}

pub open spec fn tmx_rel() -> spec_fn(I18nEntry, ItemView) -> bool {
    |e: I18nEntry, x: ItemView| tmx_entry(e, x)
}

/// What a resource read from TMX holds.
pub open spec fn parsed_resource(res: I18nResource, st: TView) -> bool {
    &&& res.metadata.source_format == FormatId::Tmx
    &&& opt_view(res.metadata.locale) == st.locale
    &&& opt_view(res.metadata.source_locale) == st.src
    &&& str_map_pairs(res.metadata.headers) == st.headers
    &&& str_map_pairs(res.metadata.properties).len() == 0
    &&& res.metadata.encoding is None
    &&& res.metadata.direction is None
    &&& res.metadata.created_at is None
    &&& res.metadata.modified_at is None
    &&& res.metadata.created_by is None
    &&& res.metadata.modified_by is None
    &&& opt_view(res.metadata.tool_name) == st.tool_name
    &&& opt_view(res.metadata.tool_version) == st.tool_version
    &&& res.metadata.format_ext matches Some(FormatExtension::Tmx(x)) && opt_view(x.seg_type) == st.seg_type && opt_view(
        x.o_tmf,
    ) == st.o_tmf
    &&& pairs_model(entry_map_pairs(res.entries), st.items, tmx_rel())
}

/// The outcome of reading TMX bytes: an XML error, or the resource of the
/// events, text trimmed.
pub open spec fn parse_ok(r: Result<I18nResource, ParseError>, content: Seq<u8>) -> bool {
    match xml_read(content, true) {
        None => r matches Err(ParseError::Xml(_)),
        Some(evs) => r matches Ok(res) && parsed_resource(res, t_fold(evs)),
    }
}

/// A `<tu>` being read.
struct TuBuilder {
    tuid: String,
    notes: Vec<String>,
    props: IndexMap<String, String>,
    variants: Vec<(String, String)>,
    change_date: Option<String>,
    change_id: Option<String>,
    prop_type: Option<String>,
}

spec fn pairs_view(v: Seq<(String, String)>) -> Seq<(Seq<char>, Seq<char>)> {
    v.map_values(|p: (String, String)| (p.0@, p.1@))
}

spec fn tu_view(t: TuBuilder) -> TuView {
    TuView {
        tuid: t.tuid@,
        notes: crate::text::string_views(t.notes@),
        props: str_map_pairs(t.props),
        variants: pairs_view(t.variants@),
        change_date: opt_view(t.change_date),
        change_id: opt_view(t.change_id),
        prop_type: opt_view(t.prop_type),
    }
}

spec fn opt_tu_view(t: Option<TuBuilder>) -> Option<TuView> {
    match t {
        Some(x) => Some(tu_view(x)),
        None => None,
    }
}

struct ReadState {
    mode: TMode,
    text: String,
    tu: Option<TuBuilder>,
    lang: Option<String>,
    src: Option<String>,
    tool_name: Option<String>,
    tool_version: Option<String>,
    seg_type: Option<String>,
    o_tmf: Option<String>,
    headers: IndexMap<String, String>,
    locale: Option<String>,
}

spec fn ts_view(st: ReadState, items: Seq<(Seq<char>, ItemView)>) -> TView {
    TView {
        mode: st.mode,
        text: st.text@,
        tu: opt_tu_view(st.tu),
        lang: opt_view(st.lang),
        src: opt_view(st.src),
        tool_name: opt_view(st.tool_name),
        tool_version: opt_view(st.tool_version),
        seg_type: opt_view(st.seg_type),
        o_tmf: opt_view(st.o_tmf),
        headers: str_map_pairs(st.headers),
        locale: opt_view(st.locale),
        items,
    }
}

fn lang_attr_exec(a: &Vec<(String, Vec<u8>)>) -> (r: Option<String>)
    ensures
        opt_view(r) == lang_attr(attrs_view(a@)),
{
    let ghost av = attrs_view(a@);
    let mut i: usize = 0;
    assert(av.skip(0) == av);
    while i < a.len()
        invariant
            i <= a@.len(),
            av == attrs_view(a@),
            lang_attr(av) == lang_attr(av.skip(i as int)),
        decreases a@.len() - i,
    {
        assert(av.skip(i as int)[0] == av[i as int]);
        assert(av.skip(i as int).drop_first() == av.skip(i + 1));
        if str_eq(a[i].0.as_str(), "xml:lang") || str_eq(a[i].0.as_str(), "lang") {
            return match std::str::from_utf8(a[i].1.as_slice()) {
                Ok(v) => Some(v.to_owned()),
                Err(_) => None,
            };
        }
        i = i + 1;
    }
    None
}

fn opt_insert_exec(m: &mut IndexMap<String, String>, k: &str, v: Option<String>)
    ensures
        str_map_pairs(*final(m)) == opt_insert(str_map_pairs(*old(m)), k@, opt_view(v)),
{
    match v {
        Some(x) => str_map_insert(m, k.to_owned(), x),
        None => {},
    }
}

fn start_exec(st: &mut ReadState, n: &String, a: &Vec<(String, Vec<u8>)>, Ghost(items): Ghost<Seq<(Seq<char>, ItemView)>>)
    ensures
        ts_view(*final(st), items) == t_start(ts_view(*old(st), items), n@, attrs_view(a@)),
{
    let l = local_name_exec(n);
    if is_name(&l, "header") {
        st.mode = TMode::Header;
        st.src = get_attr(a, "srclang");
        st.tool_name = get_attr(a, "creationtool");
        st.tool_version = get_attr(a, "creationtoolversion");
        st.seg_type = get_attr(a, "segtype");
        st.o_tmf = get_attr(a, "o-tmf");
        opt_insert_exec(&mut st.headers, "adminlang", get_attr(a, "adminlang"));
        opt_insert_exec(&mut st.headers, "datatype", get_attr(a, "datatype"));
    } else if is_name(&l, "body") {
        st.mode = TMode::Body;
    } else if is_name(&l, "tu") {
        st.mode = TMode::Tu;
        let tuid = match get_attr(a, "tuid") {
            Some(t) => t,
            None => String::new(),
        };
        let t = TuBuilder {
            tuid,
            notes: Vec::new(),
            props: str_map_new(),
            variants: Vec::new(),
            change_date: get_attr(a, "changedate"),
            change_id: get_attr(a, "changeid"),
            prop_type: None,
        };
        assert(crate::text::string_views(t.notes@) =~= Seq::<Seq<char>>::empty());
        assert(pairs_view(t.variants@) =~= Seq::<(Seq<char>, Seq<char>)>::empty());
        st.tu = Some(t);
    } else if is_name(&l, "tuv") {
        st.mode = TMode::Tuv;
        st.lang = lang_attr_exec(a);
    } else if is_name(&l, "seg") {
        st.mode = TMode::Seg;
        st.text = String::new();
    } else if is_name(&l, "note") && st.mode == TMode::Tu {
        st.mode = TMode::Note;
        st.text = String::new();
    } else if is_name(&l, "prop") && st.mode == TMode::Tu {
        st.mode = TMode::Prop;
        let mut tu = None;
        std::mem::swap(&mut tu, &mut st.tu);
        match tu {
            Some(mut t) => {
                t.prop_type = get_attr(a, "type");
                st.tu = Some(t);
            },
            None => {},
        }
        st.text = String::new();
    }
}

fn variant_in_exec(vs: &Vec<(String, String)>, lang: &String) -> (r: Option<String>)
    ensures
        opt_view(r) == variant_in(pairs_view(vs@), lang@),
{
    let ghost pv = pairs_view(vs@);
    let mut i: usize = 0;
    assert(pv.skip(0) == pv);
    while i < vs.len()
        invariant
            i <= vs@.len(),
            pv == pairs_view(vs@),
            variant_in(pv, lang@) == variant_in(pv.skip(i as int), lang@),
        decreases vs@.len() - i,
    {
        assert(pv.skip(i as int)[0] == pv[i as int]);
        assert(pv.skip(i as int).drop_first() == pv.skip(i + 1));
        if str_eq(vs[i].0.as_str(), lang.as_str()) {
            return Some(vs[i].1.clone());
        }
        i = i + 1;
    }
    None
}

fn variant_not_in_exec(vs: &Vec<(String, String)>, lang: &String) -> (r: Option<(String, String)>)
    ensures
        match variant_not_in(pairs_view(vs@), lang@) {
            Some(v) => r matches Some(x) && x.0@ == v.0 && x.1@ == v.1,
            None => r is None,
        },
{
    let ghost pv = pairs_view(vs@);
    let mut i: usize = 0;
    assert(pv.skip(0) == pv);
    while i < vs.len()
        invariant
            i <= vs@.len(),
            pv == pairs_view(vs@),
            variant_not_in(pv, lang@) == variant_not_in(pv.skip(i as int), lang@),
        decreases vs@.len() - i,
    {
        assert(pv.skip(i as int)[0] == pv[i as int]);
        assert(pv.skip(i as int).drop_first() == pv.skip(i + 1));
        if !str_eq(vs[i].0.as_str(), lang.as_str()) {
            return Some((vs[i].0.clone(), vs[i].1.clone()));
        }
        i = i + 1;
    }
    None
}

fn tu_entry(t: TuBuilder, src: &String, count: usize) -> (e: I18nEntry)
    ensures
        tmx_entry(e, tu_item(tu_view(t), src@, count as nat)),
{
    let ghost tv = tu_view(t);
    let source = variant_in_exec(&t.variants, src);
    let target = variant_not_in_exec(&t.variants, src);
    let key = if !t.tuid.as_str().is_empty() {
        t.tuid.clone()
    } else {
        match &source {
            Some(s) => s.clone(),
            None => {
                let mut k = "entry_".to_owned();
                push_decimal(&mut k, count as u64);
                k
            },
        }
    };
    let value = match target {
        Some((_, v)) => v,
        None => String::new(),
    };
    let mut e = I18nEntry::with_value(key, EntryValue::Simple(value));
    let mut comments: Vec<Comment> = Vec::new();
    let mut i: usize = 0;
    while i < t.notes.len()
        invariant
            i <= t.notes@.len(),
            general_comments(comments@, crate::text::string_views(t.notes@).take(i as int)),
        decreases t.notes@.len() - i,
    {
        comments.push(general_comment(t.notes[i].clone()));
        i = i + 1;
        assert(crate::text::string_views(t.notes@).take(i as int)[i - 1] == t.notes@[i - 1]@);
    }
    assert(crate::text::string_views(t.notes@).take(t.notes@.len() as int) == crate::text::string_views(t.notes@));
    let mut props = t.props;
    opt_insert_exec(&mut props, "changedate", t.change_date);
    opt_insert_exec(&mut props, "changeid", t.change_id);
    e.comments = comments;
    e.source = source;
    e.properties = props;
    e
}

fn end_exec(st: &mut ReadState, n: &String, Ghost(items): Ghost<Seq<(Seq<char>, ItemView)>>) -> (r: Option<TuBuilder>)
    ensures
        ({
            let s2 = t_end(ts_view(*old(st), items), n@);
            match r {
                Some(t) => s2.tu is None && s2.mode == TMode::Body && ts_view(*final(st), items) == TView {
                    items,
                    locale: ts_view(*final(st), items).locale,
                    ..s2
                } && old(st).tu is Some && tu_view(t) == opt_tu_view(old(st).tu).unwrap() && opt_view(final(st).src)
                    == opt_view(old(st).src) && opt_view(final(st).locale) == s2.locale,
                None => ts_view(*final(st), items) == s2,
            }
        }),
{
    let l = local_name_exec(n);
    if is_name(&l, "seg") {
        let mut tu = None;
        std::mem::swap(&mut tu, &mut st.tu);
        match tu {
            Some(mut t) => {
                match &st.lang {
                    Some(g) => {
                        let ghost before = pairs_view(t.variants@);
                        t.variants.push((g.clone(), st.text.clone()));
                        assert(pairs_view(t.variants@) == before.push((g@, st.text@)));
                    },
                    None => {},
                }
                st.tu = Some(t);
            },
            None => {},
        }
        st.text = String::new();
        st.mode = TMode::Tuv;
        None
    } else if is_name(&l, "tuv") {
        st.lang = None;
        st.mode = TMode::Tu;
        None
    } else if is_name(&l, "note") && st.mode == TMode::Note {
        let mut tu = None;
        std::mem::swap(&mut tu, &mut st.tu);
        match tu {
            Some(mut t) => {
                let ghost before = crate::text::string_views(t.notes@);
                t.notes.push(st.text.clone());
                assert(crate::text::string_views(t.notes@) == before.push(st.text@));
                st.tu = Some(t);
            },
            None => {},
        }
        st.text = String::new();
        st.mode = TMode::Tu;
        None
    } else if is_name(&l, "prop") && st.mode == TMode::Prop {
        let mut tu = None;
        std::mem::swap(&mut tu, &mut st.tu);
        match tu {
            Some(mut t) => {
                let mut pt = None;
                std::mem::swap(&mut pt, &mut t.prop_type);
                match pt {
                    Some(p) => str_map_insert(&mut t.props, p, st.text.clone()),
                    None => {},
                }
                st.tu = Some(t);
            },
            None => {},
        }
        st.text = String::new();
        st.mode = TMode::Tu;
        None
    } else if is_name(&l, "tu") {
        let mut tu = None;
        std::mem::swap(&mut tu, &mut st.tu);
        st.mode = TMode::Body;
        match tu {
            Some(t) => {
                if st.locale.is_none() {
                    let src = match &st.src {
                        Some(s) => s.clone(),
                        None => "en".to_owned(),
                    };
                    match variant_not_in_exec(&t.variants, &src) {
                        Some((g, _)) => {
                            st.locale = Some(g);
                        },
                        None => {},
                    }
                }
                Some(t)
            },
            None => None,
        }
    } else if is_name(&l, "body") || is_name(&l, "header") {
        st.mode = TMode::Root;
        None
    } else {
        None
    }
}

/// Reads TMX events into a resource.
pub fn parse_events(evs: &Vec<XmlEvent>) -> (res: I18nResource)
    ensures
        parsed_resource(res, t_fold(events_view(evs@))),
{
    let ghost ev = events_view(evs@);
    let mut st = ReadState {
        mode: TMode::Root,
        text: String::new(),
        tu: None,
        lang: None,
        src: None,
        tool_name: None,
        tool_version: None,
        seg_type: None,
        o_tmf: None,
        headers: str_map_new(),
        locale: None,
    };
    let mut entries = entry_map_new();
    let ghost mut items: Seq<(Seq<char>, ItemView)> = Seq::empty();
    let mut i: usize = 0;
    assert(ts_view(st, items) == t_init());
    while i < evs.len()
        invariant
            i <= evs@.len(),
            ev == events_view(evs@),
            t_fold(ev.take(i as int)) == ts_view(st, items),
            pairs_model(entry_map_pairs(entries), items, tmx_rel()),
        decreases evs@.len() - i,
    {
        assert(ev.take(i + 1).drop_last() == ev.take(i as int));
        assert(ev.take(i + 1).last() == event_view(evs@[i as int]));
        match &evs[i] {
            XmlEvent::Start(n, a) => start_exec(&mut st, n, a, Ghost(items)),
            XmlEvent::Empty(n, a) => start_exec(&mut st, n, a, Ghost(items)),
            XmlEvent::Text(t) => st.text.append(t.as_str()),
            XmlEvent::End(n) => {
                let ghost before = ts_view(st, items);
                match end_exec(&mut st, n, Ghost(items)) {
                    Some(t) => {
                        let src = match &st.src {
                            Some(s) => s.clone(),
                            None => "en".to_owned(),
                        };
                        let count = entry_map_len(&entries);
                        let ghost x = tu_item(tu_view(t), src@, count as nat);
                        let e = tu_entry(t, &src, count);
                        let key = e.key.clone();
                        proof {
                            lemma_pairs_model_insert(entry_map_pairs(entries), items, tmx_rel(), key@, e, x);
                            items = map_insert(items, key@, x);
                        }
                        entry_map_insert(&mut entries, key, e);
                        assert(ts_view(st, items) == t_end(before, n@));
                    },
                    None => {},
                }
            },
            _ => {},
        }
        i = i + 1;
    }
    assert(ev.take(evs@.len() as int) == ev);
    let mut metadata = ResourceMetadata::for_format(FormatId::Tmx);
    metadata.locale = st.locale;
    metadata.source_locale = st.src;
    metadata.headers = st.headers;
    metadata.tool_name = st.tool_name;
    metadata.tool_version = st.tool_version;
    metadata.format_ext = Some(FormatExtension::Tmx(TmxExt { seg_type: st.seg_type, o_tmf: st.o_tmf }));
    I18nResource { metadata, entries }
}

pub open spec fn spec_capabilities() -> FormatCapabilities {
    FormatCapabilities { comments: true, source_string: true, custom_properties: true, ..FormatCapabilities::spec_none() }
}

/// `.tmx` is certain; UTF-8 content holding `<tmx` is likely.
pub open spec fn spec_detect(ext: Seq<char>, content: Seq<u8>) -> Confidence {
    if ext == ".tmx"@ {
        Confidence::Definite
    } else if valid_utf8(content) && contains(decode_utf8(content), "<tmx"@) {
        Confidence::High
    } else {
        Confidence::NoMatch
    }
}

impl Parser {
    pub fn detect(&self, extension: &str, content: &[u8]) -> (c: Confidence)
        ensures
            c == spec_detect(extension@, content@),
    {
        if str_eq(extension, ".tmx") {
            return Confidence::Definite;
        }
        match std::str::from_utf8(content) {
            Ok(s) => if str_contains(s, "<tmx") {
                Confidence::High
            } else {
                Confidence::NoMatch
            },
            Err(_) => Confidence::NoMatch,
        }
    }

    /// Parses TMX, text trimmed.
    pub fn parse(&self, content: &[u8]) -> (r: Result<I18nResource, ParseError>)
        ensures
            parse_ok(r, content@),
    {
        match read_xml(content, true) {
            Ok(evs) => Ok(parse_events(&evs)),
            Err(e) => {
                let mut m = "XML parse error: ".to_owned();
                m.append(e.as_str());
                Err(ParseError::Xml(m))
            },
        }
    }

    pub fn capabilities(&self) -> (c: FormatCapabilities)
        ensures
            c == spec_capabilities(),
    {
        FormatCapabilities { comments: true, source_string: true, custom_properties: true, ..FormatCapabilities::default() }
    }
}

// ---------------------------------------------------------------------------
// Writing
// ---------------------------------------------------------------------------

pub open spec fn or_default(o: Option<Seq<char>>, d: Seq<char>) -> Seq<char> {
    match o {
        Some(x) => x,
        None => d,
    }
}

/// The header's attributes: the tool, segmentation, format, admin and
/// source languages and data type, each the resource's or a default.
pub open spec fn header_attrs(res: I18nResource) -> Seq<(Seq<char>, Seq<char>)> {
    let hs = str_map_pairs(res.metadata.headers);
    let (seg, otmf) = match res.metadata.format_ext {
        Some(FormatExtension::Tmx(x)) => (opt_view(x.seg_type), opt_view(x.o_tmf)),
        _ => (None, None),
    };
    seq![
        ("creationtool"@, or_default(opt_view(res.metadata.tool_name), "i18n-convert"@)),
        ("creationtoolversion"@, or_default(opt_view(res.metadata.tool_version), "0.1.0"@)),
        ("segtype"@, or_default(seg, "sentence"@)),
        ("o-tmf"@, or_default(otmf, "undefined"@)),
        ("adminlang"@, or_default(map_get(hs, "adminlang"@), "en"@)),
        ("srclang"@, or_default(opt_view(res.metadata.source_locale), "en"@)),
        ("datatype"@, or_default(map_get(hs, "datatype"@), "plaintext"@)),
    ]
}

/// `<tuv xml:lang="..."><seg>...</seg></tuv>`.
pub open spec fn tuv_events(lang: Seq<char>, text: Seq<char>) -> Seq<XmlOutView> {
    seq![XmlOutView::Start("tuv"@, seq![("xml:lang"@, lang)])] + text_element("seg"@, Seq::empty(), text) + seq![
        XmlOutView::End("tuv"@),
    ]
}

pub open spec fn note_events() -> spec_fn(Comment) -> Seq<XmlOutView> {
    |c: Comment| text_element("note"@, Seq::empty(), c.text@)
}

/// The properties besides the change date and author, as `<prop>`.
pub open spec fn prop_events() -> spec_fn((Seq<char>, Seq<char>)) -> Seq<XmlOutView> {
    |p: (Seq<char>, Seq<char>)| if p.0 == "changedate"@ || p.0 == "changeid"@ {
        Seq::empty()
    } else {
        text_element("prop"@, seq![("type"@, p.0)], p.1)
    }
}

/// `<tu>` of an entry: its key as `tuid` with the change date and author,
/// its comments as `<note>`, its other properties as `<prop>`, the source
/// in the source language and a non-empty simple value in the target
/// language.
pub open spec fn tu_events(e: I18nEntry, src: Seq<char>, trg: Seq<char>) -> Seq<XmlOutView> {
    let ps = str_map_pairs(e.properties);
    seq![
        XmlOutView::Start(
            "tu"@,
            seq![("tuid"@, e.key@)] + opt_attr("changedate"@, map_get(ps, "changedate"@)) + opt_attr(
                "changeid"@,
                map_get(ps, "changeid"@),
            ),
        ),
    ] + flat_events(e.comments@, note_events()) + flat_events(ps, prop_events()) + match e.source {
        Some(s) => tuv_events(src, s@),
        None => Seq::empty(),
    } + match e.value {
        EntryValue::Simple(t) => if t@.len() > 0 {
            tuv_events(trg, t@)
        } else {
            Seq::empty()
        },
        _ => Seq::empty(),
    } + seq![XmlOutView::End("tu"@)]
}

pub open spec fn entry_tu_events(src: Seq<char>, trg: Seq<char>) -> spec_fn((Seq<char>, I18nEntry)) -> Seq<XmlOutView> {
    |p: (Seq<char>, I18nEntry)| tu_events(p.1, src, trg)
}

/// The events of a TMX document: the declaration, `<tmx version="1.4">`,
/// an empty `<header>`, and `<body>` with one `<tu>` per entry.
pub open spec fn doc_events(res: I18nResource) -> Seq<XmlOutView> {
    let src = or_default(opt_view(res.metadata.source_locale), "en"@);
    let trg = or_default(opt_view(res.metadata.locale), Seq::empty());
    seq![
        XmlOutView::Decl("1.0"@, Some("UTF-8"@)),
        XmlOutView::Start("tmx"@, seq![("version"@, "1.4"@)]),
        XmlOutView::Empty("header"@, header_attrs(res)),
        XmlOutView::Start("body"@, Seq::empty()),
    ] + flat_events(entry_map_pairs(res.entries), entry_tu_events(src, trg)) + seq![
        XmlOutView::End("body"@),
        XmlOutView::End("tmx"@),
    ]
}

fn or_default_exec(o: &Option<String>, d: &str) -> (r: String)
    ensures
        r@ == or_default(opt_view(*o), d@),
{
    match o {
        Some(x) => x.clone(),
        None => d.to_owned(),
    }
}

fn header_attrs_exec(res: &I18nResource) -> (a: Vec<(String, String)>)
    ensures
        out_attrs_view(a@) == header_attrs(*res),
{
    let (seg, otmf) = match &res.metadata.format_ext {
        Some(FormatExtension::Tmx(x)) => (clone_opt(&x.seg_type), clone_opt(&x.o_tmf)),
        _ => (None, None),
    };
    let mut a: Vec<(String, String)> = Vec::new();
    a.push(("creationtool".to_owned(), or_default_exec(&res.metadata.tool_name, "i18n-convert")));
    a.push(("creationtoolversion".to_owned(), or_default_exec(&res.metadata.tool_version, "0.1.0")));
    a.push(("segtype".to_owned(), or_default_exec(&seg, "sentence")));
    a.push(("o-tmf".to_owned(), or_default_exec(&otmf, "undefined")));
    let admin = match str_map_get(&res.metadata.headers, "adminlang") {
        Some(v) => v.clone(),
        None => "en".to_owned(),
    };
    a.push(("adminlang".to_owned(), admin));
    a.push(("srclang".to_owned(), or_default_exec(&res.metadata.source_locale, "en")));
    let dt = match str_map_get(&res.metadata.headers, "datatype") {
        Some(v) => v.clone(),
        None => "plaintext".to_owned(),
    };
    a.push(("datatype".to_owned(), dt));
    assert(out_attrs_view(a@) =~= header_attrs(*res));
    a
}

fn push_tuv(evs: &mut Vec<XmlOut>, lang: &String, text: String)
    ensures
        outs_view(final(evs)@) == outs_view(old(evs)@) + tuv_events(lang@, text@),
{
    let ghost start = outs_view(evs@);
    let mut a = no_attrs();
    a.push(("xml:lang".to_owned(), lang.clone()));
    assert(out_attrs_view(a@) =~= seq![("xml:lang"@, lang@)]);
    push_ev(evs, XmlOut::Start("tuv".to_owned(), a));
    push_text_element(evs, "seg", no_attrs(), text);
    push_ev(evs, XmlOut::End("tuv".to_owned()));
    assert(outs_view(evs@) =~= start + tuv_events(lang@, text@));
}

fn push_tu(evs: &mut Vec<XmlOut>, e: &I18nEntry, src: &String, trg: &String)
    ensures
        outs_view(final(evs)@) == outs_view(old(evs)@) + tu_events(*e, src@, trg@),
{
    let ghost start = outs_view(evs@);
    let ghost ps = str_map_pairs(e.properties);
    let mut a = no_attrs();
    let k = e.key.clone();
    a.push(("tuid".to_owned(), k));
    assert(out_attrs_view(a@) =~= seq![("tuid"@, e.key@)]);
    push_opt_attr(&mut a, "changedate", clone_opt_ref(str_map_get(&e.properties, "changedate")));
    push_opt_attr(&mut a, "changeid", clone_opt_ref(str_map_get(&e.properties, "changeid")));
    push_ev(evs, XmlOut::Start("tu".to_owned(), a));
    let ghost s1 = outs_view(evs@);
    let mut i: usize = 0;
    assert(s1 + flat_events(e.comments@.take(0), note_events()) =~= s1);
    while i < e.comments.len()
        invariant
            i <= e.comments@.len(),
            outs_view(evs@) == s1 + flat_events(e.comments@.take(i as int), note_events()),
        decreases e.comments@.len() - i,
    {
        push_text_element(evs, "note", no_attrs(), e.comments[i].text.clone());
        proof {
            lemma_flat_events_step(e.comments@, i as int, note_events());
        }
        assert(outs_view(evs@) =~= s1 + flat_events(e.comments@.take(i + 1), note_events()));
        i = i + 1;
    }
    assert(e.comments@.take(e.comments@.len() as int) == e.comments@);
    let ghost s2 = outs_view(evs@);
    let np = str_map_len(&e.properties);
    let mut j: usize = 0;
    assert(s2 + flat_events(ps.take(0), prop_events()) =~= s2);
    while j < np
        invariant
            j <= np,
            np == ps.len(),
            ps == str_map_pairs(e.properties),
            outs_view(evs@) == s2 + flat_events(ps.take(j as int), prop_events()),
        decreases np - j,
    {
        let (pk, pv) = str_map_get_index(&e.properties, j).unwrap();
        let ghost before = outs_view(evs@);
        if !str_eq(pk.as_str(), "changedate") && !str_eq(pk.as_str(), "changeid") {
            let mut pa = no_attrs();
            pa.push(("type".to_owned(), pk.clone()));
            assert(out_attrs_view(pa@) =~= seq![("type"@, pk@)]);
            push_text_element(evs, "prop", pa, pv.clone());
        }
        proof {
            assert(ps[j as int] == (pk@, pv@));
            assert(outs_view(evs@) == before + (prop_events())(ps[j as int]));
            lemma_flat_events_step(ps, j as int, prop_events());
        }
        assert(outs_view(evs@) =~= s2 + flat_events(ps.take(j + 1), prop_events()));
        j = j + 1;
    }
    assert(ps.take(np as int) == ps);
    let ghost s3 = outs_view(evs@);
    match &e.source {
        Some(s) => push_tuv(evs, src, s.clone()),
        None => {},
    }
    let ghost s4 = outs_view(evs@);
    match &e.value {
        EntryValue::Simple(t) => {
            if !t.as_str().is_empty() {
                push_tuv(evs, trg, t.clone());
            }
        },
        _ => {},
    }
    push_ev(evs, XmlOut::End("tu".to_owned()));
    assert(outs_view(evs@) =~= start + tu_events(*e, src@, trg@));
}

fn clone_opt_ref(o: Option<&String>) -> (r: Option<String>)
    ensures
        match o {
            Some(s) => r matches Some(x) && x@ == s@,
            None => r is None,
        },
{
    match o {
        Some(s) => Some(s.clone()),
        None => None,
    }
}

/// The events of the whole document.
pub fn document_events(res: &I18nResource) -> (evs: Vec<XmlOut>)
    ensures
        outs_view(evs@) == doc_events(*res),
{
    let mut evs: Vec<XmlOut> = Vec::new();
    assert(outs_view(evs@) =~= Seq::<XmlOutView>::empty());
    push_ev(&mut evs, XmlOut::Decl("1.0".to_owned(), Some("UTF-8".to_owned())));
    let mut ta = no_attrs();
    ta.push(("version".to_owned(), "1.4".to_owned()));
    assert(out_attrs_view(ta@) =~= seq![("version"@, "1.4"@)]);
    push_ev(&mut evs, XmlOut::Start("tmx".to_owned(), ta));
    push_ev(&mut evs, XmlOut::Empty("header".to_owned(), header_attrs_exec(res)));
    push_ev(&mut evs, XmlOut::Start("body".to_owned(), no_attrs()));
    let src = or_default_exec(&res.metadata.source_locale, "en");
    let trg = or_default_exec(&res.metadata.locale, "");
    proof {
        reveal_strlit("");
    }
    assert(trg@ == or_default(opt_view(res.metadata.locale), Seq::empty()));
    let ghost ps = entry_map_pairs(res.entries);
    let ghost head = outs_view(evs@);
    let ghost f = entry_tu_events(src@, trg@);
    let n = entry_map_len(&res.entries);
    let mut i: usize = 0;
    assert(head + flat_events(ps.take(0), f) =~= head);
    while i < n
        invariant
            i <= n,
            n == ps.len(),
            ps == entry_map_pairs(res.entries),
            f == entry_tu_events(src@, trg@),
            outs_view(evs@) == head + flat_events(ps.take(i as int), f),
        decreases n - i,
    {
        let (_, e) = entry_map_get_index(&res.entries, i).unwrap();
        push_tu(&mut evs, e, &src, &trg);
        proof {
            assert(ps[i as int].1 == *e);
            lemma_flat_events_step(ps, i as int, f);
        }
        assert(outs_view(evs@) =~= head + flat_events(ps.take(i + 1), f));
        i = i + 1;
    }
    assert(ps.take(n as int) == ps);
    push_ev(&mut evs, XmlOut::End("body".to_owned()));
    push_ev(&mut evs, XmlOut::End("tmx".to_owned()));
    assert(outs_view(evs@) =~= doc_events(*res));
    evs
}

impl Writer {
    /// Writes the resource as a TMX 1.4 document indented by two spaces.
    pub fn write(&self, res: &I18nResource) -> (r: Result<Vec<u8>, WriteError>)
        ensures
            r matches Ok(b) ==> b@ == xml_written(doc_events(*res), 32u8, 2usize),
            r is Ok,
            r matches Err(e) ==> e is Serialization,
    {
        let evs = document_events(res);
        match write_xml(&evs, 32u8, 2) {
            Ok(b) => Ok(b),
            Err(m) => Err(WriteError::Serialization(m)),
        }
    }

    pub fn capabilities(&self) -> (c: FormatCapabilities)
        ensures
            c == spec_capabilities(),
    {
        Parser.capabilities()
    }
}

impl super::FormatParser for Parser {
    fn detect(&self, extension: &str, content: &[u8]) -> (c: Confidence)
        ensures
            c == spec_detect(extension@, content@),
    {
        Parser::detect(self, extension, content)
    }

    fn parse(&self, content: &[u8]) -> (r: Result<I18nResource, ParseError>)
        ensures
            parse_ok(r, content@),
    {
        Parser::parse(self, content)
    }

    fn capabilities(&self) -> (c: FormatCapabilities)
        ensures
            c == spec_capabilities(),
    {
        Parser::capabilities(self)
    }
}

impl super::FormatWriter for Writer {
    fn write(&self, res: &I18nResource) -> (r: Result<Vec<u8>, WriteError>)
        ensures
            r matches Ok(b) ==> b@ == xml_written(doc_events(*res), 32u8, 2usize),
            r is Ok,
            r matches Err(e) ==> e is Serialization,
    {
        Writer::write(self, res)
    }

    fn capabilities(&self) -> (c: FormatCapabilities)
        ensures
            c == spec_capabilities(),
    {
        Writer::capabilities(self)
    }
}

} // verus!
