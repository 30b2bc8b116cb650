//! XLIFF 2.0: `<file>` with `<unit>` elements, each with `<notes>` and a
//! `<segment>` of `<source>` and `<target>`.
use vstd::prelude::*;
use indexmap::IndexMap;
use crate::collections::{
    entry_map_pairs, entry_map_new, entry_map_insert, map_insert, map_get, pairs_model, lemma_pairs_model_insert,
    entry_map_len, entry_map_get_index, str_map_pairs, str_map_new, str_map_insert, str_map_get,
};
use crate::ir::{
    I18nResource, I18nEntry, ResourceMetadata, FormatId, EntryValue, FormatCapabilities, FormatExtension, Xliff2Ext,
    Comment, CommentRole, TranslationState,
};
use crate::text::{str_chars, string_of, str_eq, str_contains, contains, decimal, push_decimal, parse_u32_spec, parse_u32, join, string_views, join_strings};
use crate::xml::{
    XmlEvent, XmlEventView, event_view, events_view, attrs_view, xml_read, read_xml, XmlOut, XmlOutView, out_view,
    outs_view, out_attrs_view, xml_written, write_xml, attr_get, get_attr, opt_attr, text_element, flat_events,
    lemma_flat_events_step, push_ev, push_text_element, push_opt_attr, no_attrs,
};
use vstd::utf8::{valid_utf8, decode_utf8};
use super::resx::{local_name, local_name_exec, is_name};
use super::{clone_opt, Confidence, ParseError, WriteError, opt_view};

verus! {

pub struct Parser;

pub struct Writer;

// ---------------------------------------------------------------------------
// Mappings
// ---------------------------------------------------------------------------

/// The translation state of an XLIFF 2.0 segment state.
pub open spec fn spec_map_state(s: Seq<char>) -> Option<TranslationState> {
    if s == "initial"@ {
        Some(TranslationState::New)
    } else if s == "translated"@ {
        Some(TranslationState::Translated)
    } else if s == "reviewed"@ {
        Some(TranslationState::Reviewed)
    } else if s == "final"@ {
        Some(TranslationState::Final)
    } else if s == "needs-review"@ {
        Some(TranslationState::NeedsReview)
    } else {
        None
    }
}

fn map_xliff2_state(s: &str) -> (r: Option<TranslationState>)
    ensures
        r == spec_map_state(s@),
{
    if str_eq(s, "initial") {
        Some(TranslationState::New)
    } else if str_eq(s, "translated") {
        Some(TranslationState::Translated)
    } else if str_eq(s, "reviewed") {
        Some(TranslationState::Reviewed)
    } else if str_eq(s, "final") {
        Some(TranslationState::Final)
    } else if str_eq(s, "needs-review") {
        Some(TranslationState::NeedsReview)
    } else {
        None
    }
}

/// The segment state written for a translation state.
pub open spec fn spec_state_name(s: TranslationState) -> Seq<char> {
    match s {
        TranslationState::Translated => "translated"@,
        TranslationState::Reviewed => "reviewed"@,
        TranslationState::Final => "final"@,
        TranslationState::NeedsReview | TranslationState::NeedsReviewAdaptation | TranslationState::NeedsReviewL10n
        | TranslationState::Stale => "needs-review"@,
        _ => "initial"@,
    }
}

fn state_to_xliff2(s: &TranslationState) -> (r: &'static str)
    ensures
        r@ == spec_state_name(*s),
{
    match s {
        TranslationState::New => "initial",
        TranslationState::Translated => "translated",
        TranslationState::Reviewed => "reviewed",
        TranslationState::Final => "final",
        TranslationState::NeedsReview => "needs-review",
        TranslationState::NeedsTranslation => "initial",
        TranslationState::NeedsAdaptation => "initial",
        TranslationState::NeedsL10n => "initial",
        TranslationState::NeedsReviewAdaptation => "needs-review",
        TranslationState::NeedsReviewL10n => "needs-review",
        TranslationState::Stale => "needs-review",
        TranslationState::Vanished => "initial",
        TranslationState::Obsolete => "initial",
    }
}

/// Reading back written states and note categories: each state that XLIFF
/// 2.0 names (new, translated, reviewed, final, needs review) reads back as
/// itself from the value written for it, and a value that reads as a state
/// is the one written for it; every comment role reads back as itself from
/// the category written for it.
pub proof fn lemma_state_round_trip(st: TranslationState, s: Seq<char>, r: CommentRole)
    ensures
        (st is New || st is Translated || st is Reviewed || st is Final || st is NeedsReview)
            ==> spec_map_state(spec_state_name(st)) == Some(st),
        spec_map_state(s) matches Some(x) ==> spec_state_name(x) == s,
        spec_note_role(Some(spec_category(r))) == r,
{
    reveal_strlit("initial");
    reveal_strlit("translated");
    reveal_strlit("reviewed");
    reveal_strlit("final");
    reveal_strlit("needs-review");
    reveal_strlit("description");
    reveal_strlit("translator");
    reveal_strlit("extracted");
    reveal_strlit("general");
    assert("initial"@ != "translated"@) by { assert("initial"@.len() != "translated"@.len()); }
    assert("initial"@ != "reviewed"@) by { assert("initial"@.len() != "reviewed"@.len()); }
    assert("initial"@ != "final"@) by { assert("initial"@.len() != "final"@.len()); }
    assert("initial"@ != "needs-review"@) by { assert("initial"@.len() != "needs-review"@.len()); }
    assert("translated"@ != "reviewed"@) by { assert("translated"@.len() != "reviewed"@.len()); }
    assert("translated"@ != "final"@) by { assert("translated"@.len() != "final"@.len()); }
    assert("translated"@ != "needs-review"@) by { assert("translated"@.len() != "needs-review"@.len()); }
    assert("reviewed"@ != "final"@) by { assert("reviewed"@.len() != "final"@.len()); }
    assert("reviewed"@ != "needs-review"@) by { assert("reviewed"@.len() != "needs-review"@.len()); }
    assert("final"@ != "needs-review"@) by { assert("final"@.len() != "needs-review"@.len()); }
    assert("description"@ != "translator"@) by { assert("description"@.len() != "translator"@.len()); }
    assert("description"@ != "extracted"@) by { assert("description"@.len() != "extracted"@.len()); }
    assert("description"@ != "general"@) by { assert("description"@.len() != "general"@.len()); }
    assert("translator"@ != "extracted"@) by { assert("translator"@.len() != "extracted"@.len()); }
    assert("translator"@ != "general"@) by { assert("translator"@.len() != "general"@.len()); }
    assert("extracted"@ != "general"@) by { assert("extracted"@.len() != "general"@.len()); }
}

/// The comment role of a note category.
pub open spec fn spec_note_role(c: Option<Seq<char>>) -> CommentRole {
    match c {
        Some(x) => if x == "description"@ {
            CommentRole::Developer
        } else if x == "translator"@ {
            CommentRole::Translator
        } else if x == "extracted"@ {
            CommentRole::Extracted
        } else {
            CommentRole::General
        },
        None => CommentRole::General,
    }
}

fn map_note_role(c: &Option<String>) -> (r: CommentRole)
    ensures
        r == spec_note_role(opt_view(*c)),
{
    match c {
        Some(x) => if str_eq(x.as_str(), "description") {
            CommentRole::Developer
        } else if str_eq(x.as_str(), "translator") {
            CommentRole::Translator
        } else if str_eq(x.as_str(), "extracted") {
            CommentRole::Extracted
        } else {
            CommentRole::General
        },
        None => CommentRole::General,
    }
}

/// The note category written for a comment role.
pub open spec fn spec_category(r: CommentRole) -> Seq<char> {
    match r {
        CommentRole::Developer => "description"@,
        CommentRole::Translator => "translator"@,
        CommentRole::Extracted => "extracted"@,
        CommentRole::General => "general"@,
    }
}

fn role_to_category(r: &CommentRole) -> (c: &'static str)
    ensures
        c@ == spec_category(*r),
{
    match r {
        CommentRole::Developer => "description",
        CommentRole::Translator => "translator",
        CommentRole::Extracted => "extracted",
        CommentRole::General => "general",
    }
}

/// What `str::parse::<u8>` gives.
pub open spec fn parse_u8_spec(t: Seq<char>) -> Option<u8> {
    match parse_u32_spec(t) {
        Some(n) => if n <= 255 {
            Some(n as u8)
        } else {
            None
        },
        None => None,
    }
}

// ---------------------------------------------------------------------------
// Reading
// ---------------------------------------------------------------------------

/// A `<note>` read so far.
pub struct NoteView {
    pub text: Seq<char>,
    pub category: Option<Seq<char>>,
    pub priority: Option<u8>,
}

/// A `<unit>` read so far.
pub struct UnitView {
    pub id: Seq<char>,
    pub source: Seq<char>,
    pub target: Option<Seq<char>>,
    pub seg_state: Option<Seq<char>>,
    pub notes: Seq<NoteView>,
}

/// The reader's state: the languages and original of the document, the
/// open unit and note, the text collected and the units read.
pub struct X2View {
    pub text: Seq<char>,
    pub unit: Option<UnitView>,
    pub note: Option<NoteView>,
    pub src: Option<Seq<char>>,
    pub trg: Option<Seq<char>>,
    pub original: Option<Seq<char>>,
    pub units: Seq<(Seq<char>, UnitView)>,
}

pub open spec fn x_start(st: X2View, n: Seq<char>, a: Seq<(Seq<char>, Seq<u8>)>) -> X2View {
    let l = local_name(n);
    if l == "xliff"@ {
        X2View { src: attr_get(a, "srcLang"@), trg: attr_get(a, "trgLang"@), ..st }
    } else if l == "file"@ {
        X2View { original: attr_get(a, "original"@), ..st }
    } else if l == "unit"@ {
        X2View {
            unit: Some(
                UnitView {
                    id: match attr_get(a, "id"@) {
                        Some(i) => i,
                        None => Seq::empty(),
                    },
                    source: Seq::empty(),
                    target: None,
                    seg_state: None,
                    notes: Seq::empty(),
                },
            ),
            ..st
        }
    } else if l == "note"@ {
        X2View {
            note: Some(
                NoteView {
                    text: Seq::empty(),
                    category: attr_get(a, "category"@),
                    priority: match attr_get(a, "priority"@) {
                        Some(p) => parse_u8_spec(p),
                        None => None,
                    },
                },
            ),
            text: Seq::empty(),
            ..st
        }
    } else if l == "segment"@ {
        X2View {
            unit: match st.unit {
                Some(u) => Some(UnitView { seg_state: attr_get(a, "state"@), ..u }),
                None => None,
            },
            ..st
        }
    } else if l == "source"@ || l == "target"@ {
        X2View { text: Seq::empty(), ..st }
    } else {
        st
    }
}

pub open spec fn x_end(st: X2View, n: Seq<char>) -> X2View {
    let l = local_name(n);
    if l == "source"@ {
        X2View {
            unit: match st.unit {
                Some(u) => Some(UnitView { source: st.text, ..u }),
                None => None,
            },
            text: Seq::empty(),
            ..st
        }
    } else if l == "target"@ {
        X2View {
            unit: match st.unit {
                Some(u) => Some(UnitView { target: Some(st.text), ..u }),
                None => None,
            },
            text: Seq::empty(),
            ..st
        }
    } else if l == "note"@ {
        X2View {
            unit: match (st.note, st.unit) {
                (Some(nt), Some(u)) => Some(UnitView { notes: u.notes.push(NoteView { text: st.text, ..nt }), ..u }),
                _ => st.unit,
            },
            note: None,
            text: Seq::empty(),
            ..st
        }
    } else if l == "unit"@ {
        match st.unit {
            Some(u) => X2View { units: map_insert(st.units, u.id, u), unit: None, ..st },
            None => st,
        }
    } else {
        st
    }
}

/// One event: start and empty tags alike; all text is collected (text
/// that does not unescape adds nothing); comments and CDATA are passed
/// over.
pub open spec fn x_step(st: X2View, e: XmlEventView) -> X2View {
    match e {
        XmlEventView::Start(n, a) => x_start(st, n, a),
        XmlEventView::Empty(n, a) => x_start(st, n, a),
        XmlEventView::End(n) => x_end(st, n),
        XmlEventView::Text(t) => X2View { text: st.text + t, ..st },
        _ => st,
    }
}

pub open spec fn x_init() -> X2View {
    X2View { text: Seq::empty(), unit: None, note: None, src: None, trg: None, original: None, units: Seq::empty() }
}

pub open spec fn x_fold(evs: Seq<XmlEventView>) -> X2View
    decreases evs.len(),
{
    if evs.len() == 0 {
        x_init()
    } else {
        x_step(x_fold(evs.drop_last()), evs.last())
    }
}

pub open spec fn note_comment(c: Comment, n: NoteView) -> bool {
    &&& c.text@ == n.text
    &&& c.role == spec_note_role(n.category)
    &&& c.priority == n.priority
    &&& c.annotates is None
}

/// The entry of a unit: its id, its target (empty without one), its source,
/// its notes as comments, and the translation state of its segment.
pub open spec fn unit_entry(e: I18nEntry, u: UnitView) -> bool {
    &&& e.key@ == u.id
    &&& e.value matches EntryValue::Simple(v) && v@ == match u.target {
        Some(t) => t,
        None => Seq::empty(),
    }
    &&& e.comments@.len() == u.notes.len()
    &&& forall|i: int| 0 <= i < u.notes.len() ==> note_comment(#[trigger] e.comments@[i], u.notes[i])
    &&& opt_view(e.source) == Some(u.source)
    &&& e.state == match u.seg_state {
        Some(s) => spec_map_state(s),
        None => None,
    }
    &&& e.format_ext is None
    &&& str_map_pairs(e.properties).len() == 0
    &&& e.contexts@.len() == 0
    &&& e.previous_source is None
    &&& e.previous_comment is None
    &&& e.placeholders@.len() == 0
    &&& e.translatable is None
    &&& e.state_qualifier is None
    &&& e.approved is None
    &&& !e.obsolete
    &&& e.max_width is None
    &&& e.min_width is None
    &&& e.max_height is None
    &&& e.min_height is None
    &&& e.size_unit is None
    &&& e.max_bytes is None
    &&& e.min_bytes is None
    &&& e.source_references@.len() == 0
    &&& e.flags@.len() == 0
    &&& e.device_variants is None
    &&& e.alternatives@.len() == 0
    &&& e.resource_type is None
    &&& e.resource_name is None
}

pub open spec fn unit_rel() -> spec_fn(I18nEntry, UnitView) -> bool {
    |e: I18nEntry, u: UnitView| unit_entry(e, u)
}

/// What a resource read from XLIFF 2.0 holds.
pub open spec fn parsed_resource(res: I18nResource, st: X2View) -> bool {
    &&& res.metadata.source_format == FormatId::Xliff2
    &&& opt_view(res.metadata.locale) == st.trg
    &&& opt_view(res.metadata.source_locale) == st.src
    &&& str_map_pairs(res.metadata.headers).len() == 0
    &&& str_map_pairs(res.metadata.properties).len() == 0
    &&& res.metadata.encoding is None
    &&& res.metadata.direction is None
    &&& res.metadata.created_at is None
    &&& res.metadata.modified_at is None
    &&& res.metadata.created_by is None
    &&& res.metadata.modified_by is None
    &&& res.metadata.tool_name is None
    &&& res.metadata.tool_version is None
    &&& res.metadata.format_ext matches Some(FormatExtension::Xliff2(x)) && x.can_resegment is None && str_map_pairs(
        x.original_data,
    ) == match st.original {
        Some(o) => seq![("original"@, o)],
        None => Seq::empty(),
    }
    &&& pairs_model(entry_map_pairs(res.entries), st.units, unit_rel())
}

/// The outcome of reading XLIFF 2.0 bytes: an XML error, or the resource of
/// the events, text trimmed.
pub open spec fn parse_ok(r: Result<I18nResource, ParseError>, content: Seq<u8>) -> bool {
    match xml_read(content, true) {
        None => r matches Err(ParseError::Xml(_)),
        Some(evs) => r matches Ok(res) && parsed_resource(res, x_fold(evs)),
    }
}

struct NoteB {
    text: String,
    category: Option<String>,
    priority: Option<u8>,
}

struct UnitB {
    id: String,
    source: String,
    target: Option<String>,
    seg_state: Option<String>,
    notes: Vec<NoteB>,
}

spec fn note_view(n: NoteB) -> NoteView {
    NoteView { text: n.text@, category: opt_view(n.category), priority: n.priority }
}

spec fn notes_view(v: Seq<NoteB>) -> Seq<NoteView> {
    v.map_values(|n: NoteB| note_view(n))
}

spec fn unit_view(u: UnitB) -> UnitView {
    UnitView {
        id: u.id@,
        source: u.source@,
        target: opt_view(u.target),
        seg_state: opt_view(u.seg_state),
        notes: notes_view(u.notes@),
    }
}

spec fn opt_unit(u: Option<UnitB>) -> Option<UnitView> {
    match u {
        Some(x) => Some(unit_view(x)),
        None => None,
    }
}

spec fn opt_note(n: Option<NoteB>) -> Option<NoteView> {
    match n {
        Some(x) => Some(note_view(x)),
        None => None,
    }
}

struct ReadState {
    text: String,
    unit: Option<UnitB>,
    note: Option<NoteB>,
    src: Option<String>,
    trg: Option<String>,
    original: Option<String>,
}

spec fn xs_view(st: ReadState, units: Seq<(Seq<char>, UnitView)>) -> X2View {
    X2View {
        text: st.text@,
        unit: opt_unit(st.unit),
        note: opt_note(st.note),
        src: opt_view(st.src),
        trg: opt_view(st.trg),
        original: opt_view(st.original),
        units,
    }
}

fn parse_u8(t: &String) -> (r: Option<u8>)
    ensures
        r == parse_u8_spec(t@),
{
    let c = str_chars(t.as_str());
    match parse_u32(c.as_slice()) {
        Some(n) => if n <= 255 {
            Some(n as u8)
        } else {
            None
        },
        None => None,
    }
}

fn start_exec(st: &mut ReadState, n: &String, a: &Vec<(String, Vec<u8>)>, Ghost(units): Ghost<Seq<(Seq<char>, UnitView)>>)
    ensures
        xs_view(*final(st), units) == x_start(xs_view(*old(st), units), n@, attrs_view(a@)),
{
    let l = local_name_exec(n);
    if is_name(&l, "xliff") {
        st.src = get_attr(a, "srcLang");
        st.trg = get_attr(a, "trgLang");
    } else if is_name(&l, "file") {
        st.original = get_attr(a, "original");
    } else if is_name(&l, "unit") {
        let id = match get_attr(a, "id") {
            Some(i) => i,
            None => String::new(),
        };
        let u = UnitB { id, source: String::new(), target: None, seg_state: None, notes: Vec::new() };
        assert(notes_view(u.notes@) =~= Seq::<NoteView>::empty());
        st.unit = Some(u);
    } else if is_name(&l, "note") {
        let priority = match get_attr(a, "priority") {
            Some(p) => parse_u8(&p),
            None => None,
        };
        st.note = Some(NoteB { text: String::new(), category: get_attr(a, "category"), priority });
        st.text = String::new();
    } else if is_name(&l, "segment") {
        let mut u = None;
        std::mem::swap(&mut u, &mut st.unit);
        match u {
            Some(mut x) => {
                x.seg_state = get_attr(a, "state");
                st.unit = Some(x);
            },
            None => {},
        }
    } else if is_name(&l, "source") || is_name(&l, "target") {
        st.text = String::new();
    }
}

fn end_exec(st: &mut ReadState, n: &String, Ghost(units): Ghost<Seq<(Seq<char>, UnitView)>>) -> (r: Option<UnitB>)
    ensures
        match r {
            Some(u) => old(st).unit is Some && unit_view(u) == opt_unit(old(st).unit).unwrap() && x_end(
                xs_view(*old(st), units),
                n@,
            ) == xs_view(*final(st), map_insert(units, u.id@, unit_view(u))),
            None => x_end(xs_view(*old(st), units), n@) == xs_view(*final(st), units),
        },
{
    let l = local_name_exec(n);
    if is_name(&l, "source") || is_name(&l, "target") {
        let is_source = is_name(&l, "source");
        let mut u = None;
        std::mem::swap(&mut u, &mut st.unit);
        match u {
            Some(mut x) => {
                if is_source {
                    x.source = st.text.clone();
                } else {
                    x.target = Some(st.text.clone());
                }
                st.unit = Some(x);
            },
            None => {},
        }
        st.text = String::new();
        None
    } else if is_name(&l, "note") {
        let mut nt = None;
        std::mem::swap(&mut nt, &mut st.note);
        let mut u = None;
        std::mem::swap(&mut u, &mut st.unit);
        match (nt, u) {
            (Some(mut note), Some(mut x)) => {
                note.text = st.text.clone();
                let ghost before = notes_view(x.notes@);
                let ghost nv = note_view(note);
                x.notes.push(note);
                assert(notes_view(x.notes@) =~= before.push(nv));
                st.unit = Some(x);
            },
            (_, u2) => {
                st.unit = u2;
            },
        }
        st.text = String::new();
        None
    } else if is_name(&l, "unit") {
        let mut u = None;
        std::mem::swap(&mut u, &mut st.unit);
        u
    } else {
        None
    }
}

fn unit_entry_exec(u: UnitB) -> (e: I18nEntry)
    ensures
        unit_entry(e, unit_view(u)),
{
    let ghost uv = unit_view(u);
    let value = match u.target {
        Some(t) => t,
        None => String::new(),
    };
    let mut e = I18nEntry::with_value(u.id, EntryValue::Simple(value));
    let mut comments: Vec<Comment> = Vec::new();
    let mut i: usize = 0;
    while i < u.notes.len()
        invariant
            i <= u.notes@.len(),
            uv.notes == notes_view(u.notes@),
            comments@.len() == i,
            forall|j: int| 0 <= j < i ==> note_comment(#[trigger] comments@[j], uv.notes[j]),
        decreases u.notes@.len() - i,
    {
        let nb = &u.notes[i];
        comments.push(Comment { text: nb.text.clone(), role: map_note_role(&nb.category), priority: nb.priority, annotates: None });
        i = i + 1;
    }
    e.comments = comments;
    e.source = Some(u.source);
    e.state = match &u.seg_state {
        Some(s) => map_xliff2_state(s.as_str()),
        None => None,
    };
    e
}

/// Reads XLIFF 2.0 events into a resource.
pub fn parse_events(evs: &Vec<XmlEvent>) -> (res: I18nResource)
    ensures
        parsed_resource(res, x_fold(events_view(evs@))),
{
    let ghost ev = events_view(evs@);
    let mut st = ReadState { text: String::new(), unit: None, note: None, src: None, trg: None, original: None };
    let mut entries = entry_map_new();
    let ghost mut units: Seq<(Seq<char>, UnitView)> = Seq::empty();
    let mut i: usize = 0;
    assert(xs_view(st, units) == x_init());
    while i < evs.len()
        invariant
            i <= evs@.len(),
            ev == events_view(evs@),
            x_fold(ev.take(i as int)) == xs_view(st, units),
            pairs_model(entry_map_pairs(entries), units, unit_rel()),
        decreases evs@.len() - i,
    {
        assert(ev.take(i + 1).drop_last() == ev.take(i as int));
        assert(ev.take(i + 1).last() == event_view(evs@[i as int]));
        match &evs[i] {
            XmlEvent::Start(n, a) => start_exec(&mut st, n, a, Ghost(units)),
            XmlEvent::Empty(n, a) => start_exec(&mut st, n, a, Ghost(units)),
            XmlEvent::Text(t) => st.text.append(t.as_str()),
            XmlEvent::End(n) => {
                match end_exec(&mut st, n, Ghost(units)) {
                    Some(u) => {
                        let key = u.id.clone();
                        let ghost uv = unit_view(u);
                        let e = unit_entry_exec(u);
                        proof {
                            lemma_pairs_model_insert(entry_map_pairs(entries), units, unit_rel(), key@, e, uv);
                            units = map_insert(units, key@, uv);
                        }
                        entry_map_insert(&mut entries, key, e);
                    },
                    None => {},
                }
            },
            _ => {},
        }
        i = i + 1;
    }
    assert(ev.take(evs@.len() as int) == ev);
    let mut metadata = ResourceMetadata::for_format(FormatId::Xliff2);
    metadata.locale = st.trg;
    metadata.source_locale = st.src;
    let mut od = str_map_new();
    match st.original {
        Some(o) => {
            str_map_insert(&mut od, "original".to_owned(), o);
        },
        None => {},
    }
    metadata.format_ext = Some(FormatExtension::Xliff2(Xliff2Ext { can_resegment: None, original_data: od }));
    I18nResource { metadata, entries }
}

pub open spec fn spec_capabilities() -> FormatCapabilities {
    FormatCapabilities {
        comments: true,
        context: true,
        source_string: true,
        translation_state: true,
        max_width: true,
        inline_markup: true,
        alternatives: true,
        custom_properties: true,
        ..FormatCapabilities::spec_none()
    }
}

/// Content that names version 2.0 of XLIFF is certain; otherwise `.xliff`
/// and `.xlf` are possible (XLIFF 1.2 claims them more surely).
pub open spec fn spec_detect(ext: Seq<char>, content: Seq<u8>) -> Confidence {
    if valid_utf8(content) && ((contains(decode_utf8(content), "version=\"2.0\""@) && contains(
        decode_utf8(content),
        "<xliff"@,
    )) || contains(decode_utf8(content), "urn:oasis:names:tc:xliff:document:2.0"@)) {
        Confidence::Definite
    } else if ext == ".xliff"@ || ext == ".xlf"@ {
        Confidence::Low
    } else {
        Confidence::NoMatch
    }
}

impl Parser {
    pub fn detect(&self, extension: &str, content: &[u8]) -> (c: Confidence)
        ensures
            c == spec_detect(extension@, content@),
    {
        match std::str::from_utf8(content) {
            Ok(s) => {
                if str_contains(s, "version=\"2.0\"") && str_contains(s, "<xliff") {
                    return Confidence::Definite;
                }
                if str_contains(s, "urn:oasis:names:tc:xliff:document:2.0") {
                    return Confidence::Definite;
                }
            },
            Err(_) => {},
        }
        if str_eq(extension, ".xliff") || str_eq(extension, ".xlf") {
            Confidence::Low
        } else {
            Confidence::NoMatch
        }
    }

    /// Parses XLIFF 2.0, text trimmed.
    pub fn parse(&self, content: &[u8]) -> (r: Result<I18nResource, ParseError>)
        ensures
            parse_ok(r, content@),
    {
        match read_xml(content, true) {
            Ok(evs) => Ok(parse_events(&evs)),
            Err(e) => {
                let mut m = "XML parse error: ".to_owned();
                m.append(e.as_str());
                Err(ParseError::Xml(m))
            },
        }
    }

    pub fn capabilities(&self) -> (c: FormatCapabilities)
        ensures
            c == spec_capabilities(),
    {
        FormatCapabilities {
            comments: true,
            context: true,
            source_string: true,
            translation_state: true,
            max_width: true,
            inline_markup: true,
            alternatives: true,
            custom_properties: true,
            ..FormatCapabilities::default()
        }
    }
}

// ---------------------------------------------------------------------------
// Writing
// ---------------------------------------------------------------------------

/// The target written for a value: a simple value, the `other` form of a
/// plural or a select (empty without one), the items of an array joined by
/// `, `, the pattern of a multi-variable plural.
pub open spec fn target_text(v: EntryValue) -> Seq<char> {
    match v {
        EntryValue::Array(a) => join(string_views(a@), ", "@),
        _ => super::other_text(v),
    }
}

/// `<note>` of a comment: its category and priority, and its text.
pub open spec fn note_events() -> spec_fn(Comment) -> Seq<XmlOutView> {
    |c: Comment| text_element(
        "note"@,
        seq![("category"@, spec_category(c.role))] + opt_attr(
            "priority"@,
            match c.priority {
                Some(p) => Some(decimal(p as nat)),
                None => None,
            },
        ),
        c.text@,
    )
}

/// `<notes>` around one `<note>` per comment, when there are comments.
pub open spec fn notes_part(cs: Seq<Comment>) -> Seq<XmlOutView> {
    if cs.len() > 0 {
        seq![XmlOutView::Start("notes"@, Seq::empty())] + flat_events(cs, note_events()) + seq![
            XmlOutView::End("notes"@),
        ]
    } else {
        Seq::empty()
    }
}

/// `<segment>` with the entry's state, its source and a non-empty target.
pub open spec fn segment_part(e: I18nEntry) -> Seq<XmlOutView> {
    seq![
        XmlOutView::Start(
            "segment"@,
            opt_attr(
                "state"@,
                match e.state {
                    Some(s) => Some(spec_state_name(s)),
                    None => None,
                },
            ),
        ),
    ] + match e.source {
        Some(s) => text_element("source"@, Seq::empty(), s@),
        None => Seq::empty(),
    } + (if target_text(e.value).len() > 0 {
        text_element("target"@, Seq::empty(), target_text(e.value))
    } else {
        Seq::empty()
    }) + seq![XmlOutView::End("segment"@)]
}

/// `<unit>` of an entry: its notes and its segment.
pub open spec fn unit_events(e: I18nEntry) -> Seq<XmlOutView> {
    seq![XmlOutView::Start("unit"@, seq![("id"@, e.key@)])] + notes_part(e.comments@) + segment_part(e) + seq![
        XmlOutView::End("unit"@),
    ]
}

pub open spec fn entry_unit_events() -> spec_fn((Seq<char>, I18nEntry)) -> Seq<XmlOutView> {
    |p: (Seq<char>, I18nEntry)| unit_events(p.1)
}

/// The `original` of the document, from the XLIFF 2.0 extension.
pub open spec fn original_of(res: I18nResource) -> Option<Seq<char>> {
    match res.metadata.format_ext {
        Some(FormatExtension::Xliff2(x)) => map_get(str_map_pairs(x.original_data), "original"@),
        _ => None,
    }
}

/// The events of an XLIFF 2.0 document: the declaration, `<xliff>` with the
/// languages, one `<file>` with the original, and one `<unit>` per entry.
pub open spec fn doc_events(res: I18nResource) -> Seq<XmlOutView> {
    seq![
        XmlOutView::Decl("1.0"@, Some("UTF-8"@)),
        XmlOutView::Start(
            "xliff"@,
            seq![("xmlns"@, "urn:oasis:names:tc:xliff:document:2.0"@), ("version"@, "2.0"@)] + opt_attr(
                "srcLang"@,
                opt_view(res.metadata.source_locale),
            ) + opt_attr("trgLang"@, opt_view(res.metadata.locale)),
        ),
        XmlOutView::Start("file"@, seq![("id"@, "f1"@)] + opt_attr("original"@, original_of(res))),
    ] + flat_events(entry_map_pairs(res.entries), entry_unit_events()) + seq![
        XmlOutView::End("file"@),
        XmlOutView::End("xliff"@),
    ]
}

fn target_text_exec(v: &EntryValue) -> (r: String)
    ensures
        r@ == target_text(*v),
{
    match v {
        EntryValue::Array(a) => join_strings(a, ", "),
        _ => super::other_text_exec(v),
    }
}

fn push_notes(evs: &mut Vec<XmlOut>, cs: &Vec<Comment>)
    ensures
        outs_view(final(evs)@) == outs_view(old(evs)@) + notes_part(cs@),
{
    let ghost start = outs_view(evs@);
    if cs.len() > 0 {
        push_ev(evs, XmlOut::Start("notes".to_owned(), no_attrs()));
        let ghost s2 = outs_view(evs@);
        let mut i: usize = 0;
        assert(s2 + flat_events(cs@.take(0), note_events()) =~= s2);
        while i < cs.len()
            invariant
                i <= cs@.len(),
                outs_view(evs@) == s2 + flat_events(cs@.take(i as int), note_events()),
            decreases cs@.len() - i,
        {
            let c = &cs[i];
            let mut na: Vec<(String, String)> = Vec::new();
            na.push(("category".to_owned(), role_to_category(&c.role).to_owned()));
            assert(out_attrs_view(na@) =~= seq![("category"@, spec_category(c.role))]);
            let pr = match c.priority {
                Some(p) => {
                    let mut t = String::new();
                    push_decimal(&mut t, p as u64);
                    Some(t)
                },
                None => None,
            };
            push_opt_attr(&mut na, "priority", pr);
            push_text_element(evs, "note", na, c.text.clone());
            proof {
                lemma_flat_events_step(cs@, i as int, note_events());
            }
            assert(outs_view(evs@) =~= s2 + flat_events(cs@.take(i + 1), note_events()));
            i = i + 1;
        }
        assert(cs@.take(cs@.len() as int) == cs@);
        push_ev(evs, XmlOut::End("notes".to_owned()));
        assert(outs_view(evs@) =~= start + notes_part(cs@));
    } else {
        assert(outs_view(evs@) =~= start + notes_part(cs@));
    }
}

fn push_segment(evs: &mut Vec<XmlOut>, e: &I18nEntry)
    ensures
        outs_view(final(evs)@) == outs_view(old(evs)@) + segment_part(*e),
{
    let ghost start = outs_view(evs@);
    let mut sa: Vec<(String, String)> = Vec::new();
    let st = match &e.state {
        Some(s) => Some(state_to_xliff2(s).to_owned()),
        None => None,
    };
    push_opt_attr(&mut sa, "state", st);
    push_ev(evs, XmlOut::Start("segment".to_owned(), sa));
    let ghost s1 = outs_view(evs@);
    match &e.source {
        Some(s) => push_text_element(evs, "source", no_attrs(), s.clone()),
        None => {},
    }
    let ghost s2 = outs_view(evs@);
    let t = target_text_exec(&e.value);
    if !t.as_str().is_empty() {
        push_text_element(evs, "target", no_attrs(), t);
    }
    let ghost s3 = outs_view(evs@);
    push_ev(evs, XmlOut::End("segment".to_owned()));
    assert(outs_view(evs@) =~= start + segment_part(*e));
}

fn push_unit(evs: &mut Vec<XmlOut>, e: &I18nEntry)
    ensures
        outs_view(final(evs)@) == outs_view(old(evs)@) + unit_events(*e),
{
    let ghost start = outs_view(evs@);
    let mut ua: Vec<(String, String)> = Vec::new();
    ua.push(("id".to_owned(), e.key.clone()));
    assert(out_attrs_view(ua@) =~= seq![("id"@, e.key@)]);
    push_ev(evs, XmlOut::Start("unit".to_owned(), ua));
    push_notes(evs, &e.comments);
    push_segment(evs, e);
    push_ev(evs, XmlOut::End("unit".to_owned()));
    assert(outs_view(evs@) =~= start + unit_events(*e));
}

/// The events of the whole document.
pub fn document_events(res: &I18nResource) -> (evs: Vec<XmlOut>)
    ensures
        outs_view(evs@) == doc_events(*res),
{
    let mut evs: Vec<XmlOut> = Vec::new();
    assert(outs_view(evs@) =~= Seq::<XmlOutView>::empty());
    push_ev(&mut evs, XmlOut::Decl("1.0".to_owned(), Some("UTF-8".to_owned())));
    let mut xa: Vec<(String, String)> = Vec::new();
    xa.push(("xmlns".to_owned(), "urn:oasis:names:tc:xliff:document:2.0".to_owned()));
    xa.push(("version".to_owned(), "2.0".to_owned()));
    assert(out_attrs_view(xa@) =~= seq![("xmlns"@, "urn:oasis:names:tc:xliff:document:2.0"@), ("version"@, "2.0"@)]);
    push_opt_attr(&mut xa, "srcLang", clone_opt(&res.metadata.source_locale));
    push_opt_attr(&mut xa, "trgLang", clone_opt(&res.metadata.locale));
    assert(out_attrs_view(xa@) =~= seq![("xmlns"@, "urn:oasis:names:tc:xliff:document:2.0"@), ("version"@, "2.0"@)]
        + opt_attr("srcLang"@, opt_view(res.metadata.source_locale)) + opt_attr("trgLang"@, opt_view(res.metadata.locale)));
    push_ev(&mut evs, XmlOut::Start("xliff".to_owned(), xa));
    let mut fa: Vec<(String, String)> = Vec::new();
    fa.push(("id".to_owned(), "f1".to_owned()));
    assert(out_attrs_view(fa@) =~= seq![("id"@, "f1"@)]);
    let orig = match &res.metadata.format_ext {
        Some(FormatExtension::Xliff2(x)) => match str_map_get(&x.original_data, "original") {
            Some(o) => Some(o.clone()),
            None => None,
        },
        _ => None,
    };
    push_opt_attr(&mut fa, "original", orig);
    assert(out_attrs_view(fa@) =~= seq![("id"@, "f1"@)] + opt_attr("original"@, original_of(*res)));
    push_ev(&mut evs, XmlOut::Start("file".to_owned(), fa));
    let ghost ps = entry_map_pairs(res.entries);
    let ghost head = outs_view(evs@);
    let n = entry_map_len(&res.entries);
    let mut i: usize = 0;
    assert(head + flat_events(ps.take(0), entry_unit_events()) =~= head);
    while i < n
        invariant
            i <= n,
            n == ps.len(),
            ps == entry_map_pairs(res.entries),
            outs_view(evs@) == head + flat_events(ps.take(i as int), entry_unit_events()),
        decreases n - i,
    {
        let (_, e) = entry_map_get_index(&res.entries, i).unwrap();
        push_unit(&mut evs, e);
        proof {
            assert(ps[i as int].1 == *e);
            lemma_flat_events_step(ps, i as int, entry_unit_events());
        }
        assert(outs_view(evs@) =~= head + flat_events(ps.take(i + 1), entry_unit_events()));
        i = i + 1;
    }
    assert(ps.take(n as int) == ps);
    push_ev(&mut evs, XmlOut::End("file".to_owned()));
    push_ev(&mut evs, XmlOut::End("xliff".to_owned()));
    assert(outs_view(evs@) =~= doc_events(*res));
    evs
}

impl Writer {
    /// Writes the resource as an XLIFF 2.0 document indented by two spaces.
    pub fn write(&self, res: &I18nResource) -> (r: Result<Vec<u8>, WriteError>)
        ensures
            r is Ok,
            r matches Ok(b) ==> b@ == xml_written(doc_events(*res), 32u8, 2usize),
    {
        let evs = document_events(res);
        match write_xml(&evs, 32u8, 2) {
            Ok(b) => Ok(b),
            Err(m) => Err(WriteError::Serialization(m)),
        }
    }

    pub fn capabilities(&self) -> (c: FormatCapabilities)
        ensures
            c == spec_capabilities(),
    {
        Parser.capabilities()
    }
}

impl super::FormatParser for Parser {
    fn detect(&self, extension: &str, content: &[u8]) -> (c: Confidence)
        ensures
            c == spec_detect(extension@, content@),
    {
        Parser::detect(self, extension, content)
    }

    fn parse(&self, content: &[u8]) -> (r: Result<I18nResource, ParseError>)
        ensures
            parse_ok(r, content@),
    {
        Parser::parse(self, content)
    }

    fn capabilities(&self) -> (c: FormatCapabilities)
        ensures
            c == spec_capabilities(),
    {
        Parser::capabilities(self)
    }
}

impl super::FormatWriter for Writer {
    fn write(&self, res: &I18nResource) -> (r: Result<Vec<u8>, WriteError>)
        ensures
            r is Ok,
            r matches Ok(b) ==> b@ == xml_written(doc_events(*res), 32u8, 2usize),
    {
        Writer::write(self, res)
    }

    fn capabilities(&self) -> (c: FormatCapabilities)
        ensures
            c == spec_capabilities(),
    {
        Writer::capabilities(self)
    }
}

} // verus!
