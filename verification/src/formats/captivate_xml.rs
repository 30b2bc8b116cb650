//! Adobe Captivate XML exports: XLIFF 1.2 files whose origin names
//! Captivate or whose units are named `slide_N_item_M`, with inline markup
//! such as `<g>` kept inside the source and target texts.
use vstd::prelude::*;
use crate::collections::{
    entry_map_pairs, entry_map_new, entry_map_insert, map_insert, pairs_model, lemma_pairs_model_insert, str_map_pairs,
    str_map_new, str_map_insert, entry_map_len, entry_map_get_index, str_map_get, map_get, key_index,
};
use crate::ir::{
    I18nResource, I18nEntry, ResourceMetadata, FormatId, EntryValue, FormatCapabilities, FormatExtension,
    CaptivateXmlExt, Comment, CommentRole,
};
use crate::text::{str_eq, str_contains, contains, lowercase, to_lowercase, lossy_utf8, from_utf8_lossy, string_bytes};
use crate::pattern::{regex_matches, regex_is_match, regex_groups, groups_view, regex_captures};
use crate::xml::{
    XmlEvent, XmlEventView, event_view, events_view, attrs_view, xml_read, read_xml, attr_get, get_attr, XmlOut,
    XmlOutView, out_view, outs_view, out_attrs_view, xml_written, write_xml, opt_attr, text_element, flat_events,
    lemma_flat_events_step, lemma_flat_events_full, push_ev, push_text_element, push_opt_attr, no_attrs, RawEvent,
    RawEventView, raw_view, raws_view, xml_read_raw, read_xml_raw,
};
use crate::formats::xliff1::{local_name, local_name_exec, spec_note_role, map_note_role, spec_role_from, role_to_from};
use vstd::utf8::{valid_utf8, decode_utf8, encode_utf8};
use super::{clone_opt, Confidence, ParseError, WriteError, opt_view};

verus! {

pub struct Parser;

pub struct Writer;

/// The pattern of a unit named after a slide and an item.
pub open spec fn slide_item_pattern() -> Seq<char> {
    "id\\s*=\\s*\"slide_\\d+_item_\\d+"@
}

/// Whether the text shows Captivate: `captivate` in any case, or a unit
/// named `slide_N_item_M`.
pub open spec fn has_captivate_markers(s: Seq<char>) -> bool {
    contains(lowercase(s), "captivate"@) || regex_matches(slide_item_pattern(), s) == Some(true)
}

/// How sure this format is: certain for an `.xml` UTF-8 text that shows
/// Captivate, never otherwise.
pub open spec fn spec_detect(extension: Seq<char>, content: Seq<u8>) -> Confidence {
    if extension == ".xml"@ && valid_utf8(content) && has_captivate_markers(decode_utf8(content)) {
        Confidence::Definite
    } else {
        Confidence::NoMatch
    }
}

pub open spec fn spec_capabilities() -> FormatCapabilities {
    FormatCapabilities {
        source_string: true,
        inline_markup: true,
        comments: true,
        context: true,
        ..FormatCapabilities::spec_none()
    }
}

/// Whether the text shows Captivate.
pub fn captivate_markers(s: &str) -> (b: bool)
    ensures
        b == has_captivate_markers(s@),
{
    let lower = to_lowercase(s);
    if str_contains(lower.as_str(), "captivate") {
        return true;
    }
    let pattern = "id\\s*=\\s*\"slide_\\d+_item_\\d+";
    match regex_is_match(pattern, s) {
        Some(b) => b,
        None => false,
    }
}

// ---------------------------------------------------------------------------
// Reading: the event state machine
// ---------------------------------------------------------------------------

/// Where the reader is.
#[derive(PartialEq, Eq, Structural)]
pub enum CState {
    Root,
    File,
    Header,
    Body,
    TransUnit,
    Note,
}

/// A note being read.
pub struct NoteV {
    pub text: Seq<char>,
    pub from: Option<Seq<char>>,
}

/// A translation unit being read.
pub struct TuV {
    pub id: Seq<char>,
    pub source: Seq<char>,
    pub target: Option<Seq<char>>,
    pub notes: Seq<NoteV>,
    pub css_style: Option<Seq<char>>,
}

/// The content of a `<source>` or `<target>` being collected, with its
/// inline elements written back as markup, and how deep in them it is.
pub struct CollectV {
    pub is_target: bool,
    pub text: Seq<char>,
    pub depth: nat,
}

/// The whole reading state.
pub struct CapState {
    pub state: CState,
    pub tu: Option<TuV>,
    pub note: Option<NoteV>,
    pub text: Seq<char>,
    pub collect: Option<CollectV>,
    pub source_locale: Option<Seq<char>>,
    pub locale: Option<Seq<char>>,
    pub original: Option<Seq<char>>,
    pub tool_name: Option<Seq<char>>,
    pub entries: Seq<(Seq<char>, TuV)>,
}

pub open spec fn init_state() -> CapState {
    CapState {
        state: CState::Root,
        tu: None,
        note: None,
        text: Seq::empty(),
        collect: None,
        source_locale: None,
        locale: None,
        original: None,
        tool_name: None,
        entries: Seq::empty(),
    }
}

/// The attributes of an inline element as markup: ` key="value"` for each,
/// the value's bytes read lossily.
pub open spec fn attr_markup(a: Seq<(Seq<char>, Seq<u8>)>) -> Seq<char>
    decreases a.len(),
{
    if a.len() == 0 {
        Seq::empty()
    } else {
        attr_markup(a.drop_last()) + " "@ + a.last().0 + "=\""@ + lossy_utf8(a.last().1) + "\""@
    }
}

/// The tag whose end closes the collected content.
pub open spec fn collect_tag(c: CollectV) -> Seq<char> {
    if c.is_target {
        "target"@
    } else {
        "source"@
    }
}

/// One event while collecting inline content: `Some` with the content so
/// far, or `None` when the event ends it (the end of the element, or a start
/// of its own name, outside any inline element).
pub open spec fn collect_step(c: CollectV, ev: XmlEventView) -> Option<CollectV> {
    match ev {
        XmlEventView::Start(n, a) => if local_name(n) == collect_tag(c) && c.depth == 0 {
            None
        } else {
            Some(CollectV { text: c.text + "<"@ + local_name(n) + attr_markup(a) + ">"@, depth: c.depth + 1, ..c })
        },
        XmlEventView::End(n) => if local_name(n) == collect_tag(c) && c.depth == 0 {
            None
        } else {
            Some(
                CollectV {
                    text: c.text + "</"@ + local_name(n) + ">"@,
                    depth: if c.depth == 0 {
                        0
                    } else {
                        (c.depth - 1) as nat
                    },
                    ..c
                },
            )
        },
        XmlEventView::Empty(n, a) => Some(CollectV { text: c.text + "<"@ + local_name(n) + attr_markup(a) + "/>"@, ..c }),
        XmlEventView::Text(t) => Some(CollectV { text: c.text + t, ..c }),
        _ => Some(c),
    }
}

pub open spec fn map_tu(tu: Option<TuV>, f: spec_fn(TuV) -> TuV) -> Option<TuV> {
    match tu {
        Some(t) => Some(f(t)),
        None => None,
    }
}

/// Ends the collected content: it becomes the unit's source or target.
pub open spec fn finish_collect(st: CapState, c: CollectV) -> CapState {
    CapState {
        tu: if c.is_target {
            map_tu(st.tu, |t: TuV| TuV { target: Some(c.text), ..t })
        } else {
            map_tu(st.tu, |t: TuV| TuV { source: c.text, ..t })
        },
        state: CState::TransUnit,
        collect: None,
        ..st
    }
}

/// A start (or empty) tag, by its name without prefix.
pub open spec fn start_step(st: CapState, ln: Seq<char>, a: Seq<(Seq<char>, Seq<u8>)>) -> CapState {
    if ln == "file"@ {
        CapState {
            state: CState::File,
            source_locale: attr_get(a, "source-language"@),
            locale: attr_get(a, "target-language"@),
            original: attr_get(a, "original"@),
            ..st
        }
    } else if ln == "header"@ {
        CapState { state: CState::Header, ..st }
    } else if ln == "tool"@ {
        match attr_get(a, "tool-name"@) {
            Some(t) => CapState { tool_name: Some(t), ..st },
            None => st,
        }
    } else if ln == "body"@ {
        CapState { state: CState::Body, ..st }
    } else if ln == "trans-unit"@ {
        CapState {
            state: CState::TransUnit,
            tu: Some(
                TuV {
                    id: match attr_get(a, "id"@) {
                        Some(i) => i,
                        None => Seq::empty(),
                    },
                    source: Seq::empty(),
                    target: None,
                    notes: Seq::empty(),
                    css_style: attr_get(a, "css-style"@),
                },
            ),
            ..st
        }
    } else if ln == "source"@ && st.state == CState::TransUnit {
        CapState { collect: Some(CollectV { is_target: false, text: Seq::empty(), depth: 0 }), ..st }
    } else if ln == "target"@ && st.state == CState::TransUnit {
        CapState { collect: Some(CollectV { is_target: true, text: Seq::empty(), depth: 0 }), ..st }
    } else if ln == "note"@ && st.state == CState::TransUnit {
        CapState { state: CState::Note, note: Some(NoteV { text: Seq::empty(), from: attr_get(a, "from"@) }), text: Seq::empty(), ..st }
    } else {
        st
    }
}

/// An end tag, by its name without prefix: a closed note joins its unit, a
/// closed unit becomes an entry under its id.
pub open spec fn end_step(st: CapState, ln: Seq<char>) -> CapState {
    if ln == "note"@ {
        CapState {
            tu: match st.note {
                Some(n) => map_tu(st.tu, |t: TuV| TuV { notes: t.notes.push(NoteV { text: st.text, ..n }), ..t }),
                None => st.tu,
            },
            note: None,
            state: CState::TransUnit,
            text: Seq::empty(),
            ..st
        }
    } else if ln == "trans-unit"@ {
        CapState {
            entries: match st.tu {
                Some(t) => map_insert(st.entries, t.id, t),
                None => st.entries,
            },
            tu: None,
            state: CState::Body,
            ..st
        }
    } else if ln == "body"@ || ln == "header"@ {
        CapState { state: CState::File, ..st }
    } else if ln == "file"@ {
        CapState { state: CState::Root, ..st }
    } else {
        st
    }
}

/// One event.
pub open spec fn cstep(st: CapState, ev: XmlEventView) -> CapState {
    match st.collect {
        Some(c) => match collect_step(c, ev) {
            Some(c2) => CapState { collect: Some(c2), ..st },
            None => finish_collect(st, c),
        },
        None => match ev {
            XmlEventView::Start(n, a) => start_step(st, local_name(n), a),
            XmlEventView::Empty(n, a) => start_step(st, local_name(n), a),
            XmlEventView::Text(t) => CapState { text: st.text + t, ..st },
            XmlEventView::End(n) => end_step(st, local_name(n)),
            _ => st,
        },
    }
}

pub open spec fn cfold(evs: Seq<XmlEventView>) -> CapState
    decreases evs.len(),
{
    if evs.len() == 0 {
        init_state()
    } else {
        cstep(cfold(evs.drop_last()), evs.last())
    }
}


// ---------------------------------------------------------------------------
// Reading: the state in exec code
// ---------------------------------------------------------------------------

pub struct NoteBuilder {
    pub text: String,
    pub from: Option<String>,
}

pub struct TransUnitBuilder {
    pub id: String,
    pub source: String,
    pub target: Option<String>,
    pub notes: Vec<NoteBuilder>,
    pub css_style: Option<String>,
}

pub struct CollectBuilder {
    pub is_target: bool,
    pub text: String,
    pub depth: usize,
}

/// The reading state, without the entries read so far.
pub struct ReadState {
    pub state: CState,
    pub tu: Option<TransUnitBuilder>,
    pub note: Option<NoteBuilder>,
    pub text: String,
    pub collect: Option<CollectBuilder>,
    pub source_locale: Option<String>,
    pub locale: Option<String>,
    pub original: Option<String>,
    pub tool_name: Option<String>,
}

pub open spec fn note_v(n: NoteBuilder) -> NoteV {
    NoteV { text: n.text@, from: opt_view(n.from) }
}

pub open spec fn tu_v(t: TransUnitBuilder) -> TuV {
    TuV {
        id: t.id@,
        source: t.source@,
        target: opt_view(t.target),
        notes: t.notes@.map_values(|n: NoteBuilder| note_v(n)),
        css_style: opt_view(t.css_style),
    }
}

pub open spec fn collect_v(c: CollectBuilder) -> CollectV {
    CollectV { is_target: c.is_target, text: c.text@, depth: c.depth as nat }
}

pub open spec fn rv(st: ReadState, entries: Seq<(Seq<char>, TuV)>) -> CapState {
    CapState {
        state: st.state,
        tu: match st.tu {
            Some(t) => Some(tu_v(t)),
            None => None,
        },
        note: match st.note {
            Some(n) => Some(note_v(n)),
            None => None,
        },
        text: st.text@,
        collect: match st.collect {
            Some(c) => Some(collect_v(c)),
            None => None,
        },
        source_locale: opt_view(st.source_locale),
        locale: opt_view(st.locale),
        original: opt_view(st.original),
        tool_name: opt_view(st.tool_name),
        entries,
    }
}

/// Appends the attributes of an inline element as markup.
fn push_attr_markup(out: &mut String, a: &Vec<(String, Vec<u8>)>)
    ensures
        final(out)@ == old(out)@ + attr_markup(attrs_view(a@)),
{
    let ghost av = attrs_view(a@);
    let ghost start = out@;
    let mut j: usize = 0;
    assert(av.take(0) =~= Seq::<(Seq<char>, Seq<u8>)>::empty());
    assert(start + attr_markup(av.take(0)) =~= start);
    while j < a.len()
        invariant
            j <= a@.len(),
            av == attrs_view(a@),
            out@ == start + attr_markup(av.take(j as int)),
        decreases a@.len() - j,
    {
        assert(av.take(j + 1).drop_last() =~= av.take(j as int));
        assert(av.take(j + 1).last() == av[j as int]);
        assert(av[j as int] == (a@[j as int].0@, a@[j as int].1@));
        out.append(" ");
        out.append(a[j].0.as_str());
        out.append("=\"");
        let v = from_utf8_lossy(a[j].1.as_slice());
        out.append(v.as_str());
        out.append("\"");
        assert(out@ =~= start + attr_markup(av.take(j + 1)));
        j = j + 1;
    }
    assert(av.take(a@.len() as int) =~= av);
}

fn tag_is(name: &String, tag: &str) -> (r: bool)
    ensures
        r == (local_name(name@) == tag@),
{
    let ln = local_name_exec(name);
    str_eq(ln.as_str(), tag)
}

/// One event while collecting; `true` when it ends the content, which is
/// then left as it was.
fn collect_exec(c: &mut CollectBuilder, ev: &XmlEvent) -> (done: bool)
    requires
        old(c).depth < usize::MAX,
    ensures
        match collect_step(collect_v(*old(c)), event_view(*ev)) {
            Some(c2) => !done && collect_v(*final(c)) == c2,
            None => done && *final(c) == *old(c),
        },
{
    let tag = if c.is_target {
        "target"
    } else {
        "source"
    };
    proof {
        assert(tag@ == collect_tag(collect_v(*c)));
    }
    match ev {
        XmlEvent::Start(n, a) => {
            if tag_is(n, tag) && c.depth == 0 {
                return true;
            }
            c.text.append("<");
            let ln = local_name_exec(n);
            c.text.append(ln.as_str());
            push_attr_markup(&mut c.text, a);
            c.text.append(">");
            c.depth = c.depth + 1;
            false
        },
        XmlEvent::End(n) => {
            if tag_is(n, tag) && c.depth == 0 {
                return true;
            }
            c.text.append("</");
            let ln = local_name_exec(n);
            c.text.append(ln.as_str());
            c.text.append(">");
            if c.depth > 0 {
                c.depth = c.depth - 1;
            }
            false
        },
        XmlEvent::Empty(n, a) => {
            c.text.append("<");
            let ln = local_name_exec(n);
            c.text.append(ln.as_str());
            push_attr_markup(&mut c.text, a);
            c.text.append("/>");
            false
        },
        XmlEvent::Text(t) => {
            c.text.append(t.as_str());
            false
        },
        _ => false,
    }
}

/// Ends the collected content.
fn finish_exec(st: &mut ReadState, c: CollectBuilder, Ghost(e): Ghost<Seq<(Seq<char>, TuV)>>)
    ensures
        rv(*final(st), e) == finish_collect(rv(*old(st), e), collect_v(c)),
{
    let mut tu = None;
    std::mem::swap(&mut tu, &mut st.tu);
    match tu {
        Some(mut t) => {
            if c.is_target {
                t.target = Some(c.text);
            } else {
                t.source = c.text;
            }
            st.tu = Some(t);
        },
        None => {},
    }
    st.state = CState::TransUnit;
    st.collect = None;
}

/// A start (or empty) tag outside collected content.
fn start_exec(st: &mut ReadState, name: &String, a: &Vec<(String, Vec<u8>)>, Ghost(e): Ghost<Seq<(Seq<char>, TuV)>>)
    ensures
        rv(*final(st), e) == start_step(rv(*old(st), e), local_name(name@), attrs_view(a@)),
{
    let ln = local_name_exec(name);
    if str_eq(ln.as_str(), "file") {
        st.state = CState::File;
        st.source_locale = get_attr(a, "source-language");
        st.locale = get_attr(a, "target-language");
        st.original = get_attr(a, "original");
    } else if str_eq(ln.as_str(), "header") {
        st.state = CState::Header;
    } else if str_eq(ln.as_str(), "tool") {
        match get_attr(a, "tool-name") {
            Some(t) => st.tool_name = Some(t),
            None => {},
        }
    } else if str_eq(ln.as_str(), "body") {
        st.state = CState::Body;
    } else if str_eq(ln.as_str(), "trans-unit") {
        st.state = CState::TransUnit;
        let id = match get_attr(a, "id") {
            Some(v) => v,
            None => String::new(),
        };
        let t = TransUnitBuilder { id, source: String::new(), target: None, notes: Vec::new(), css_style: get_attr(a, "css-style") };
        assert(tu_v(t).notes =~= Seq::<NoteV>::empty());
        st.tu = Some(t);
    } else if str_eq(ln.as_str(), "source") && st.state == CState::TransUnit {
        st.collect = Some(CollectBuilder { is_target: false, text: String::new(), depth: 0 });
    } else if str_eq(ln.as_str(), "target") && st.state == CState::TransUnit {
        st.collect = Some(CollectBuilder { is_target: true, text: String::new(), depth: 0 });
    } else if str_eq(ln.as_str(), "note") && st.state == CState::TransUnit {
        st.state = CState::Note;
        st.note = Some(NoteBuilder { text: String::new(), from: get_attr(a, "from") });
        st.text = String::new();
    }
}

/// An end tag outside collected content; gives the unit it closes.
fn end_exec(st: &mut ReadState, name: &String, Ghost(e): Ghost<Seq<(Seq<char>, TuV)>>) -> (done: Option<TransUnitBuilder>)
    ensures
        match done {
            Some(t) => rv(*final(st), map_insert(e, t.id@, tu_v(t))) == end_step(rv(*old(st), e), local_name(name@)),
            None => rv(*final(st), e) == end_step(rv(*old(st), e), local_name(name@)),
        },
{
    let ln = local_name_exec(name);
    if str_eq(ln.as_str(), "note") {
        let mut note = None;
        std::mem::swap(&mut note, &mut st.note);
        match note {
            Some(n) => {
                let nb = NoteBuilder { text: st.text.clone(), from: n.from };
                let mut tu = None;
                std::mem::swap(&mut tu, &mut st.tu);
                match tu {
                    Some(mut t) => {
                        let ghost before = t.notes@;
                        t.notes.push(nb);
                        assert(t.notes@.map_values(|x: NoteBuilder| note_v(x)) =~= before.map_values(|x: NoteBuilder| note_v(x)).push(note_v(nb)));
                        st.tu = Some(t);
                    },
                    None => {},
                }
            },
            None => {},
        }
        st.state = CState::TransUnit;
        st.text = String::new();
        None
    } else if str_eq(ln.as_str(), "trans-unit") {
        let mut tu = None;
        std::mem::swap(&mut tu, &mut st.tu);
        st.state = CState::Body;
        tu
    } else if str_eq(ln.as_str(), "body") || str_eq(ln.as_str(), "header") {
        st.state = CState::File;
        None
    } else if str_eq(ln.as_str(), "file") {
        st.state = CState::Root;
        None
    } else {
        None
    }
}


// ---------------------------------------------------------------------------
// Reading: entries and resources
// ---------------------------------------------------------------------------

/// The pattern of a unit id `slide_N_item_M`, with the two numbers as groups.
pub open spec fn slide_id_pattern() -> Seq<char> {
    "^slide_(\\d+)_item_(\\d+)$"@
}

/// The slide and item numbers of a unit id `slide_N_item_M`.
pub open spec fn slide_item_ids(id: Seq<char>) -> (Option<Seq<char>>, Option<Seq<char>>) {
    match regex_groups(slide_id_pattern(), id) {
        Some(Some(gs)) => (if gs.len() > 1 { gs[1] } else { None }, if gs.len() > 2 { gs[2] } else { None }),
        _ => (None, None),
    }
}

/// Reads the slide and item numbers of a unit id.
pub fn parse_slide_item_id(id: &str) -> (r: (Option<String>, Option<String>))
    ensures
        (opt_view(r.0), opt_view(r.1)) == slide_item_ids(id@),
{
    let pattern = "^slide_(\\d+)_item_(\\d+)$";
    match regex_captures(pattern, id) {
        Some(Some(gs)) => {
            proof {
                assert(groups_view(gs@).len() == gs@.len());
            }
            let s = if gs.len() > 1 {
                assert(groups_view(gs@)[1] == opt_view(gs@[1]));
                clone_opt(&gs[1])
            } else {
                None
            };
            let i = if gs.len() > 2 {
                assert(groups_view(gs@)[2] == opt_view(gs@[2]));
                clone_opt(&gs[2])
            } else {
                None
            };
            (s, i)
        },
        _ => (None, None),
    }
}

/// The comment a note gives.
pub open spec fn note_comment(c: Comment, n: NoteV) -> bool {
    &&& c.text@ == n.text
    &&& c.role == spec_note_role(n.from)
    &&& c.priority is None
    &&& c.annotates is None
}

/// The entry a closed translation unit gives: its target (else its source)
/// as the value, its source, its notes as comments, and the slide, item and
/// CSS style of the unit as the extension when there is any.
pub open spec fn entry_of_tu(e: I18nEntry, t: TuV) -> bool {
    let ids = slide_item_ids(t.id);
    &&& e.key@ == t.id
    &&& e.value matches EntryValue::Simple(s) && s@ == match t.target {
        Some(x) => x,
        None => t.source,
    }
    &&& e.comments@.len() == t.notes.len()
    &&& forall|i: int| 0 <= i < t.notes.len() ==> note_comment(#[trigger] e.comments@[i], t.notes[i])
    &&& opt_view(e.source) == Some(t.source)
    &&& if ids.0 is Some || ids.1 is Some || t.css_style is Some {
        e.format_ext matches Some(FormatExtension::CaptivateXml(x)) && opt_view(x.slide_id) == ids.0
            && opt_view(x.item_id) == ids.1 && opt_view(x.css_style) == t.css_style
    } else {
        e.format_ext is None
    }
    &&& e.contexts@.len() == 0
    &&& e.previous_source is None
    &&& e.previous_comment is None
    &&& e.placeholders@.len() == 0
    &&& e.translatable is None
    &&& e.state is None
    &&& e.state_qualifier is None
    &&& e.approved is None
    &&& !e.obsolete
    &&& e.max_width is None
    &&& e.min_width is None
    &&& e.max_height is None
    &&& e.min_height is None
    &&& e.size_unit is None
    &&& e.max_bytes is None
    &&& e.min_bytes is None
    &&& e.source_references@.len() == 0
    &&& e.flags@.len() == 0
    &&& e.device_variants is None
    &&& e.alternatives@.len() == 0
    &&& e.resource_type is None
    &&& e.resource_name is None
    &&& str_map_pairs(e.properties).len() == 0
}

pub open spec fn tu_rel() -> spec_fn(I18nEntry, TuV) -> bool {
    |e: I18nEntry, t: TuV| entry_of_tu(e, t)
}

/// What a resource read from Captivate XML holds: the file's languages and
/// original, the tool's name, and the entries.
pub open spec fn parsed_resource(res: I18nResource, st: CapState) -> bool {
    &&& res.metadata.source_format == FormatId::CaptivateXml
    &&& opt_view(res.metadata.locale) == st.locale
    &&& opt_view(res.metadata.source_locale) == st.source_locale
    &&& opt_view(res.metadata.tool_name) == st.tool_name
    &&& str_map_pairs(res.metadata.headers).len() == 0
    &&& str_map_pairs(res.metadata.properties) == match st.original {
        Some(o) => seq![("original"@, o)],
        None => Seq::empty(),
    }
    &&& res.metadata.encoding is None
    &&& res.metadata.direction is None
    &&& res.metadata.created_at is None
    &&& res.metadata.modified_at is None
    &&& res.metadata.created_by is None
    &&& res.metadata.modified_by is None
    &&& res.metadata.tool_version is None
    &&& res.metadata.format_ext matches Some(FormatExtension::CaptivateXml(x)) && x.slide_id is None
        && x.item_id is None && x.css_style is None
    &&& pairs_model(entry_map_pairs(res.entries), st.entries, tu_rel())
}

/// Builds the entry of a closed translation unit.
fn build_entry(tu: TransUnitBuilder) -> (e: I18nEntry)
    ensures
        entry_of_tu(e, tu_v(tu)),
{
    let ghost tv = tu_v(tu);
    let mut comments: Vec<Comment> = Vec::new();
    let mut i: usize = 0;
    while i < tu.notes.len()
        invariant
            i <= tu.notes@.len(),
            tv == tu_v(tu),
            comments@.len() == i,
            forall|j: int| 0 <= j < i ==> note_comment(#[trigger] comments@[j], tv.notes[j]),
        decreases tu.notes@.len() - i,
    {
        let n = &tu.notes[i];
        assert(tv.notes[i as int] == note_v(*n));
        let from = match &n.from {
            Some(f) => Some(f.as_str()),
            None => None,
        };
        comments.push(Comment { text: n.text.clone(), role: map_note_role(from), priority: None, annotates: None });
        i = i + 1;
    }
    let (slide_id, item_id) = parse_slide_item_id(tu.id.as_str());
    let ext = if slide_id.is_some() || item_id.is_some() || tu.css_style.is_some() {
        Some(FormatExtension::CaptivateXml(CaptivateXmlExt { slide_id, item_id, css_style: tu.css_style }))
    } else {
        None
    };
    let text = match tu.target {
        Some(t) => t,
        None => tu.source.clone(),
    };
    let mut e = I18nEntry::with_value(tu.id, EntryValue::Simple(text));
    e.comments = comments;
    e.source = Some(tu.source);
    e.format_ext = ext;
    e
}

/// Reads Captivate XML from its events.
pub fn parse_events(evs: &Vec<XmlEvent>) -> (res: I18nResource)
    ensures
        parsed_resource(res, cfold(events_view(evs@))),
{
    let ghost ev = events_view(evs@);
    let mut st = ReadState {
        state: CState::Root,
        tu: None,
        note: None,
        text: String::new(),
        collect: None,
        source_locale: None,
        locale: None,
        original: None,
        tool_name: None,
    };
    let mut entries = entry_map_new();
    let ghost mut model: Seq<(Seq<char>, TuV)> = Seq::empty();
    let mut i: usize = 0;
    while i < evs.len()
        invariant
            i <= evs@.len(),
            ev == events_view(evs@),
            cfold(ev.take(i as int)) == rv(st, model),
            pairs_model(entry_map_pairs(entries), model, tu_rel()),
            st.collect matches Some(c) ==> c.depth <= i,
        decreases evs@.len() - i,
    {
        assert(ev.take(i + 1).drop_last() == ev.take(i as int));
        assert(ev.take(i + 1).last() == event_view(evs@[i as int]));
        let mut col = None;
        std::mem::swap(&mut col, &mut st.collect);
        match col {
            Some(mut c) => {
                let done = collect_exec(&mut c, &evs[i]);
                if done {
                    finish_exec(&mut st, c, Ghost(model));
                } else {
                    st.collect = Some(c);
                }
            },
            None => {
                match &evs[i] {
                    XmlEvent::Start(n, a) => start_exec(&mut st, n, a, Ghost(model)),
                    XmlEvent::Empty(n, a) => start_exec(&mut st, n, a, Ghost(model)),
                    XmlEvent::Text(t) => st.text.append(t.as_str()),
                    XmlEvent::End(n) => {
                        match end_exec(&mut st, n, Ghost(model)) {
                            Some(tu) => {
                                let ghost tv = tu_v(tu);
                                let key = tu.id.clone();
                                let e = build_entry(tu);
                                proof {
                                    lemma_pairs_model_insert(entry_map_pairs(entries), model, tu_rel(), key@, e, tv);
                                    model = map_insert(model, key@, tv);
                                }
                                entry_map_insert(&mut entries, key, e);
                            },
                            None => {},
                        }
                    },
                    _ => {},
                }
            },
        }
        i = i + 1;
    }
    assert(ev.take(evs@.len() as int) == ev);
    let mut metadata = ResourceMetadata::for_format(FormatId::CaptivateXml);
    metadata.locale = st.locale;
    metadata.source_locale = st.source_locale;
    metadata.tool_name = st.tool_name;
    metadata.format_ext = Some(FormatExtension::CaptivateXml(CaptivateXmlExt { slide_id: None, item_id: None, css_style: None }));
    match st.original {
        Some(o) => {
            let ghost ov = o@;
            let k = "original".to_owned();
            assert(str_map_pairs(metadata.properties).len() == 0);
            str_map_insert(&mut metadata.properties, k, o);
            assert(key_index(Seq::<(Seq<char>, Seq<char>)>::empty(), "original"@) == -1);
            assert(str_map_pairs(metadata.properties) =~= seq![("original"@, ov)]);
        },
        None => {},
    }
    let res = I18nResource { metadata, entries };
    proof {
        let fs = cfold(ev);
        assert(fs == rv(st, model));
        assert(opt_view(res.metadata.locale) == fs.locale);
        assert(opt_view(res.metadata.tool_name) == fs.tool_name);
        assert(str_map_pairs(res.metadata.properties) == match fs.original {
            Some(o) => seq![("original"@, o)],
            None => Seq::<(Seq<char>, Seq<char>)>::empty(),
        });
        assert(pairs_model(entry_map_pairs(res.entries), fs.entries, tu_rel()));
    }
    res
}

/// What reading Captivate XML bytes gives: the resource of their events,
/// text trimmed, or an XML error when the reader fails.
pub open spec fn parse_ok(r: Result<I18nResource, ParseError>, content: Seq<u8>) -> bool {
    match xml_read(content, true) {
        Some(evs) => r matches Ok(res) && parsed_resource(res, cfold(evs)),
        None => r matches Err(ParseError::Xml(_)),
    }
}

impl Parser {
    pub fn detect(&self, extension: &str, content: &[u8]) -> (c: Confidence)
        ensures
            c == spec_detect(extension@, content@),
    {
        if !str_eq(extension, ".xml") {
            return Confidence::NoMatch;
        }
        match std::str::from_utf8(content) {
            Ok(s) => if captivate_markers(s) {
                Confidence::Definite
            } else {
                Confidence::NoMatch
            },
            Err(_) => Confidence::NoMatch,
        }
    }

    /// Parses Captivate XML, text trimmed.
    pub fn parse(&self, content: &[u8]) -> (r: Result<I18nResource, ParseError>)
        ensures
            parse_ok(r, content@),
    {
        match read_xml(content, true) {
            Ok(evs) => Ok(parse_events(&evs)),
            Err(e) => {
                let mut m = "XML parse error: ".to_owned();
                m.append(e.as_str());
                Err(ParseError::Xml(m))
            },
        }
    }

    pub fn capabilities(&self) -> (c: FormatCapabilities)
        ensures
            c == spec_capabilities(),
    {
        FormatCapabilities {
            source_string: true,
            inline_markup: true,
            comments: true,
            context: true,
            ..FormatCapabilities::default()
        }
    }
}


// ---------------------------------------------------------------------------
// Writing
// ---------------------------------------------------------------------------

/// The events written again from a fragment read as written: its tags and
/// texts as they are, anything else left out.
pub open spec fn reemit(evs: Seq<RawEventView>) -> Seq<XmlOutView>
    decreases evs.len(),
{
    if evs.len() == 0 {
        Seq::empty()
    } else {
        reemit(evs.drop_last()) + match evs.last() {
            RawEventView::Start(c) => seq![XmlOutView::RawStart(c)],
            RawEventView::Empty(c) => seq![XmlOutView::RawEmpty(c)],
            RawEventView::End(n) => seq![XmlOutView::End(n)],
            RawEventView::Text(t) => seq![XmlOutView::RawText(t)],
            RawEventView::Other => Seq::empty(),
        }
    }
}

/// The wrapped fragment `<tag>content</tag>` read back for inline markup.
pub open spec fn wrapped(tag: Seq<char>, content: Seq<char>) -> Seq<char> {
    "<"@ + tag + ">"@ + content + "</"@ + tag + ">"@
}

/// The element written for a text that may hold inline markup: when it
/// holds `<`, the events of `<tag>text</tag>` read as written and written
/// again as they are; otherwise the element with the text. `None` when that
/// reading fails.
pub open spec fn raw_element(tag: Seq<char>, content: Seq<char>) -> Option<Seq<XmlOutView>> {
    if contains(content, "<"@) {
        match xml_read_raw(encode_utf8(wrapped(tag, content))) {
            Some(evs) => Some(reemit(evs)),
            None => None,
        }
    } else {
        Some(text_element(tag, Seq::empty(), content))
    }
}

/// The `css-style` attribute of an entry's extension, if any.
pub open spec fn css_attr(e: I18nEntry) -> Seq<(Seq<char>, Seq<char>)> {
    match e.format_ext {
        Some(FormatExtension::CaptivateXml(x)) => opt_attr("css-style"@, opt_view(x.css_style)),
        _ => Seq::empty(),
    }
}

pub open spec fn note_events() -> spec_fn(Comment) -> Seq<XmlOutView> {
    |c: Comment| text_element("note"@, opt_attr("from"@, spec_role_from(c.role)), c.text@)
}

/// The `<source>` of an entry with a source text.
pub open spec fn source_part(e: I18nEntry) -> Option<Seq<XmlOutView>> {
    match e.source {
        Some(s) => raw_element("source"@, s@),
        None => Some(Seq::empty()),
    }
}

/// The `<target>` of an entry whose simple value differs from its source
/// (an absent source counting as empty).
pub open spec fn target_part(e: I18nEntry) -> Option<Seq<XmlOutView>> {
    match e.value {
        EntryValue::Simple(t) => if t@ != match e.source {
            Some(s) => s@,
            None => Seq::empty(),
        } {
            raw_element("target"@, t@)
        } else {
            Some(Seq::empty())
        },
        _ => Some(Seq::empty()),
    }
}

/// The events of one `<trans-unit>`; `None` when inline markup cannot be
/// read back.
pub open spec fn tu_events(e: I18nEntry) -> Option<Seq<XmlOutView>> {
    match (source_part(e), target_part(e)) {
        (Some(a), Some(b)) => Some(
            seq![XmlOutView::Start("trans-unit"@, seq![("id"@, e.key@)] + css_attr(e))] + a + b + flat_events(
                e.comments@,
                note_events(),
            ) + seq![XmlOutView::End("trans-unit"@)],
        ),
        _ => None,
    }
}

/// The events of the units of the entries, in order.
pub open spec fn units_events(ps: Seq<(Seq<char>, I18nEntry)>) -> Option<Seq<XmlOutView>>
    decreases ps.len(),
{
    if ps.len() == 0 {
        Some(Seq::empty())
    } else {
        match (units_events(ps.drop_last()), tu_events(ps.last().1)) {
            (Some(a), Some(b)) => Some(a + b),
            _ => None,
        }
    }
}

/// The attributes of `<file>`: the original (`captivate_project` when the
/// resource has none), the languages and the datatype.
pub open spec fn file_attrs(res: I18nResource) -> Seq<(Seq<char>, Seq<char>)> {
    seq![(
        "original"@,
        match map_get(str_map_pairs(res.metadata.properties), "original"@) {
            Some(o) => o,
            None => "captivate_project"@,
        },
    )] + opt_attr("source-language"@, opt_view(res.metadata.source_locale)) + opt_attr(
        "target-language"@,
        opt_view(res.metadata.locale),
    ) + seq![("datatype"@, "plaintext"@)]
}

/// The `<tool>` attributes: Captivate, with the resource's tool name or
/// `Adobe Captivate`.
pub open spec fn tool_attrs(res: I18nResource) -> Seq<(Seq<char>, Seq<char>)> {
    seq![
        ("tool-id"@, "captivate"@),
        (
            "tool-name"@,
            match res.metadata.tool_name {
                Some(t) => t@,
                None => "Adobe Captivate"@,
            },
        ),
    ]
}

/// All events of a document; `None` when some unit's inline markup cannot
/// be read back.
pub open spec fn doc_events(res: I18nResource) -> Option<Seq<XmlOutView>> {
    match units_events(entry_map_pairs(res.entries)) {
        Some(u) => Some(
            seq![
                XmlOutView::Decl("1.0"@, Some("UTF-8"@)),
                XmlOutView::Start("xliff"@, seq![("version"@, "1.2"@), ("xmlns"@, "urn:oasis:names:tc:xliff:document:1.2"@)]),
                XmlOutView::Start("file"@, file_attrs(res)),
                XmlOutView::Start("header"@, Seq::empty()),
                XmlOutView::Empty("tool"@, tool_attrs(res)),
                XmlOutView::End("header"@),
                XmlOutView::Start("body"@, Seq::empty()),
            ] + u + seq![XmlOutView::End("body"@), XmlOutView::End("file"@), XmlOutView::End("xliff"@)],
        ),
        None => None,
    }
}

/// Appends an element whose text may hold inline markup: the fragment
/// `<tag>content</tag>` read as written and written again, or the plain
/// element when the text holds no `<`.
pub fn write_raw_element(evs: &mut Vec<XmlOut>, tag: &str, content: &str) -> (r: Result<(), WriteError>)
    ensures
        match raw_element(tag@, content@) {
            Some(x) => r is Ok && outs_view(final(evs)@) == outs_view(old(evs)@) + x,
            None => r matches Err(WriteError::Serialization(_)),
        },
{
    if !str_contains(content, "<") {
        push_text_element(evs, tag, no_attrs(), content.to_owned());
        return Ok(());
    }
    let mut w = String::new();
    w.append("<");
    w.append(tag);
    w.append(">");
    w.append(content);
    w.append("</");
    w.append(tag);
    w.append(">");
    assert(w@ =~= wrapped(tag@, content@));
    let bytes = string_bytes(&w);
    match read_xml_raw(bytes.as_slice()) {
        Ok(raws) => {
            let ghost rws = raws_view(raws@);
            let ghost start = outs_view(evs@);
            let mut j: usize = 0;
            assert(rws.take(0) =~= Seq::<RawEventView>::empty());
            assert(start + reemit(rws.take(0)) =~= start);
            while j < raws.len()
                invariant
                    j <= raws@.len(),
                    rws == raws_view(raws@),
                    outs_view(evs@) == start + reemit(rws.take(j as int)),
                decreases raws@.len() - j,
            {
                assert(rws.take(j + 1).drop_last() =~= rws.take(j as int));
                assert(rws.take(j + 1).last() == raw_view(raws@[j as int]));
                let ghost before = outs_view(evs@);
                match &raws[j] {
                    RawEvent::Start(c) => push_ev(evs, XmlOut::RawStart(c.clone())),
                    RawEvent::Empty(c) => push_ev(evs, XmlOut::RawEmpty(c.clone())),
                    RawEvent::End(n) => push_ev(evs, XmlOut::End(n.clone())),
                    RawEvent::Text(t) => push_ev(evs, XmlOut::RawText(t.clone())),
                    RawEvent::Other => {},
                }
                assert(outs_view(evs@) =~= start + reemit(rws.take(j + 1)));
                j = j + 1;
            }
            assert(rws.take(raws@.len() as int) =~= rws);
            Ok(())
        },
        Err(e) => {
            let mut m = "Error re-parsing inline content: ".to_owned();
            m.append(e.as_str());
            Err(WriteError::Serialization(m))
        },
    }
}

fn push_notes(evs: &mut Vec<XmlOut>, cs: &Vec<Comment>)
    ensures
        outs_view(final(evs)@) == outs_view(old(evs)@) + flat_events(cs@, note_events()),
{
    let ghost start = outs_view(evs@);
    let mut i: usize = 0;
    assert(start + flat_events(cs@.take(0), note_events()) =~= start);
    while i < cs.len()
        invariant
            i <= cs.len(),
            outs_view(evs@) == start + flat_events(cs@.take(i as int), note_events()),
        decreases cs.len() - i,
    {
        let c = &cs[i];
        let ghost before = outs_view(evs@);
        let mut attrs = no_attrs();
        let from = match role_to_from(&c.role) {
            Some(s) => Some(s.to_owned()),
            None => None,
        };
        push_opt_attr(&mut attrs, "from", from);
        push_text_element(evs, "note", attrs, c.text.clone());
        proof {
            lemma_flat_events_step(cs@, i as int, note_events());
            assert(outs_view(evs@) == before + (note_events())(cs@[i as int]));
            assert(outs_view(evs@) =~= start + flat_events(cs@.take(i + 1), note_events()));
        }
        i = i + 1;
    }
    proof {
        lemma_flat_events_full(cs@, note_events());
    }
}

/// Appends the events of one `<trans-unit>` for `entry`; fails when its
/// inline markup cannot be read back.
pub fn write_trans_unit(evs: &mut Vec<XmlOut>, entry: &I18nEntry) -> (r: Result<(), WriteError>)
    ensures
        match tu_events(*entry) {
            Some(x) => r is Ok && outs_view(final(evs)@) == outs_view(old(evs)@) + x,
            None => r matches Err(WriteError::Serialization(_)),
        },
{
    let ghost start = outs_view(evs@);
    let mut attrs = no_attrs();
    let ghost a0 = out_attrs_view(attrs@);
    attrs.push(("id".to_owned(), entry.key.clone()));
    assert(out_attrs_view(attrs@) =~= seq![("id"@, entry.key@)]);
    let css = match &entry.format_ext {
        Some(FormatExtension::CaptivateXml(x)) => clone_opt(&x.css_style),
        _ => None,
    };
    push_opt_attr(&mut attrs, "css-style", css);
    assert(out_attrs_view(attrs@) =~= seq![("id"@, entry.key@)] + css_attr(*entry));
    push_ev(evs, XmlOut::Start("trans-unit".to_owned(), attrs));
    let ghost s1 = outs_view(evs@);
    assert(s1 == start.push(XmlOutView::Start("trans-unit"@, seq![("id"@, entry.key@)] + css_attr(*entry))));
    match &entry.source {
        Some(src) => {
            assert(source_part(*entry) == raw_element("source"@, src@));
            write_raw_element(evs, "source", src.as_str())?;
        },
        None => {
            assert(s1 + Seq::<XmlOutView>::empty() =~= s1);
        },
    }
    let ghost s2 = outs_view(evs@);
    assert(source_part(*entry) matches Some(a) && s2 == s1 + a);
    match &entry.value {
        EntryValue::Simple(t) => {
            proof {
                reveal_strlit("");
                assert(""@ =~= Seq::<char>::empty());
            }
            let same = match &entry.source {
                Some(src) => str_eq(t.as_str(), src.as_str()),
                None => str_eq(t.as_str(), ""),
            };
            assert(same == (t@ == match entry.source {
                Some(x) => x@,
                None => Seq::<char>::empty(),
            }));
            if !same {
                assert(target_part(*entry) == raw_element("target"@, t@));
                write_raw_element(evs, "target", t.as_str())?;
            } else {
                assert(target_part(*entry) == Some(Seq::<XmlOutView>::empty()));
                assert(s2 + Seq::<XmlOutView>::empty() =~= s2);
            }
        },
        _ => {
            assert(s2 + Seq::<XmlOutView>::empty() =~= s2);
        },
    }
    let ghost s3 = outs_view(evs@);
    assert(target_part(*entry) matches Some(b) && s3 == s2 + b);
    push_notes(evs, &entry.comments);
    push_ev(evs, XmlOut::End("trans-unit".to_owned()));
    proof {
        let a = source_part(*entry).unwrap();
        let b = target_part(*entry).unwrap();
        assert(tu_events(*entry) == Some(
            seq![XmlOutView::Start("trans-unit"@, seq![("id"@, entry.key@)] + css_attr(*entry))] + a + b + flat_events(
                entry.comments@,
                note_events(),
            ) + seq![XmlOutView::End("trans-unit"@)],
        ));
        assert(outs_view(evs@) =~= start + tu_events(*entry).unwrap());
    }
    Ok(())
}

fn file_attrs_exec(res: &I18nResource) -> (a: Vec<(String, String)>)
    ensures
        out_attrs_view(a@) == file_attrs(*res),
{
    let original = match str_map_get(&res.metadata.properties, "original") {
        Some(o) => o.clone(),
        None => "captivate_project".to_owned(),
    };
    let mut a = no_attrs();
    a.push(("original".to_owned(), original));
    assert(out_attrs_view(a@) =~= seq![("original"@, original@)]);
    push_opt_attr(&mut a, "source-language", clone_opt(&res.metadata.source_locale));
    push_opt_attr(&mut a, "target-language", clone_opt(&res.metadata.locale));
    let ghost before = out_attrs_view(a@);
    a.push(("datatype".to_owned(), "plaintext".to_owned()));
    assert(out_attrs_view(a@) =~= before.push(("datatype"@, "plaintext"@)));
    a
}

fn tool_attrs_exec(res: &I18nResource) -> (a: Vec<(String, String)>)
    ensures
        out_attrs_view(a@) == tool_attrs(*res),
{
    let name = match &res.metadata.tool_name {
        Some(t) => t.clone(),
        None => "Adobe Captivate".to_owned(),
    };
    let mut a = no_attrs();
    a.push(("tool-id".to_owned(), "captivate".to_owned()));
    assert(out_attrs_view(a@) =~= seq![("tool-id"@, "captivate"@)]);
    a.push(("tool-name".to_owned(), name));
    assert(out_attrs_view(a@) =~= seq![("tool-id"@, "captivate"@), ("tool-name"@, name@)]);
    assert(out_attrs_view(a@) =~= tool_attrs(*res));
    a
}

/// The events of the whole document: the declaration, `<xliff>`, `<file>`,
/// the `<header>` with its `<tool>`, and `<body>` around one `<trans-unit>`
/// per entry, in the resource's order.
pub fn document_events(resource: &I18nResource) -> (r: Result<Vec<XmlOut>, WriteError>)
    ensures
        match doc_events(*resource) {
            Some(x) => r matches Ok(evs) && outs_view(evs@) == x,
            None => r matches Err(WriteError::Serialization(_)),
        },
{
    let mut evs: Vec<XmlOut> = Vec::new();
    assert(outs_view(evs@) =~= Seq::<XmlOutView>::empty());
    push_ev(&mut evs, XmlOut::Decl("1.0".to_owned(), Some("UTF-8".to_owned())));
    let mut xa = no_attrs();
    xa.push(("version".to_owned(), "1.2".to_owned()));
    assert(out_attrs_view(xa@) =~= seq![("version"@, "1.2"@)]);
    xa.push(("xmlns".to_owned(), "urn:oasis:names:tc:xliff:document:1.2".to_owned()));
    assert(out_attrs_view(xa@) =~= seq![("version"@, "1.2"@), ("xmlns"@, "urn:oasis:names:tc:xliff:document:1.2"@)]);
    push_ev(&mut evs, XmlOut::Start("xliff".to_owned(), xa));
    push_ev(&mut evs, XmlOut::Start("file".to_owned(), file_attrs_exec(resource)));
    push_ev(&mut evs, XmlOut::Start("header".to_owned(), no_attrs()));
    push_ev(&mut evs, XmlOut::Empty("tool".to_owned(), tool_attrs_exec(resource)));
    push_ev(&mut evs, XmlOut::End("header".to_owned()));
    push_ev(&mut evs, XmlOut::Start("body".to_owned(), no_attrs()));
    let ghost head = outs_view(evs@);
    let ghost ps = entry_map_pairs(resource.entries);
    let n = entry_map_len(&resource.entries);
    let mut i: usize = 0;
    assert(ps.take(0) =~= Seq::<(Seq<char>, I18nEntry)>::empty());
    assert(head + Seq::<XmlOutView>::empty() =~= head);
    while i < n
        invariant
            i <= n,
            n == ps.len(),
            ps == entry_map_pairs(resource.entries),
            units_events(ps.take(i as int)) matches Some(u) && outs_view(evs@) == head + u,
        decreases n - i,
    {
        assert(ps.take(i + 1).drop_last() =~= ps.take(i as int));
        assert(ps.take(i + 1).last() == ps[i as int]);
        match entry_map_get_index(&resource.entries, i) {
            Some((_key, entry)) => {
                let ghost before = outs_view(evs@);
                match write_trans_unit(&mut evs, entry) {
                    Ok(()) => {
                        assert(outs_view(evs@) =~= head + units_events(ps.take(i + 1)).unwrap());
                    },
                    Err(e) => {
                        proof {
                            lemma_units_none(ps, i as int + 1);
                        }
                        return Err(e);
                    },
                }
            },
            None => {},
        }
        i = i + 1;
    }
    assert(ps.take(n as int) =~= ps);
    push_ev(&mut evs, XmlOut::End("body".to_owned()));
    push_ev(&mut evs, XmlOut::End("file".to_owned()));
    push_ev(&mut evs, XmlOut::End("xliff".to_owned()));
    assert(outs_view(evs@) =~= doc_events(*resource).unwrap());
    Ok(evs)
}

/// A unit that cannot be written leaves the whole document unwritable.
proof fn lemma_units_none(ps: Seq<(Seq<char>, I18nEntry)>, k: int)
    requires
        0 <= k <= ps.len(),
        units_events(ps.take(k)) is None,
    ensures
        units_events(ps) is None,
    decreases ps.len() - k,
{
    if k < ps.len() {
        assert(ps.take(k + 1).drop_last() =~= ps.take(k));
        lemma_units_none(ps, k + 1);
    } else {
        assert(ps.take(k) =~= ps);
    }
}

impl Writer {
    /// Writes the resource as Captivate XML (XLIFF 1.2) indented by two
    /// spaces; fails when an entry's inline markup cannot be read back.
    pub fn write(&self, resource: &I18nResource) -> (r: Result<Vec<u8>, WriteError>)
        ensures
            match doc_events(*resource) {
                Some(x) => r matches Ok(b) && b@ == xml_written(x, 32u8, 2usize),
                None => r matches Err(WriteError::Serialization(_)),
            },
    {
        let evs = document_events(resource)?;
        match write_xml(&evs, 32u8, 2) {
            Ok(b) => Ok(b),
            Err(m) => Err(WriteError::Serialization(m)),
        }
    }

    pub fn capabilities(&self) -> (c: FormatCapabilities)
        ensures
            c == spec_capabilities(),
    {
        Parser.capabilities()
    }
}

impl super::FormatParser for Parser {
    fn detect(&self, extension: &str, content: &[u8]) -> (c: Confidence)
        ensures
            c == spec_detect(extension@, content@),
    {
        Parser::detect(self, extension, content)
    }

    fn parse(&self, content: &[u8]) -> (r: Result<I18nResource, ParseError>)
        ensures
            parse_ok(r, content@),
    {
        Parser::parse(self, content)
    }

    fn capabilities(&self) -> (c: FormatCapabilities)
        ensures
            c == spec_capabilities(),
    {
        Parser::capabilities(self)
    }
}

impl super::FormatWriter for Writer {
    fn write(&self, resource: &I18nResource) -> (r: Result<Vec<u8>, WriteError>)
        ensures
            match doc_events(*resource) {
                Some(x) => r matches Ok(b) && b@ == xml_written(x, 32u8, 2usize),
                None => r matches Err(WriteError::Serialization(_)),
            },
    {
        Writer::write(self, resource)
    }

    fn capabilities(&self) -> (c: FormatCapabilities)
        ensures
            c == spec_capabilities(),
    {
        Writer::capabilities(self)
    }
}

} // verus!
