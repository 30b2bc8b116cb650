//! Qt Linguist `.ts`: `<TS>` holding `<context>` elements, each with a
//! `<name>` and `<message>` elements. A message in a named context is keyed
//! by the context name, the EOT character and its source text.
use vstd::prelude::*;
use indexmap::IndexMap;
use crate::collections::{
    entry_map_pairs, entry_map_new, entry_map_insert, map_insert, map_get, pairs_model, lemma_pairs_model_insert,
    entry_map_len, entry_map_get_index, str_map_pairs, str_map_new, str_map_insert, str_map_get, str_map_len,
    str_map_get_index, count_map_pairs, sec_push, sec_map_pairs, sec_map_new, sec_map_push, sec_map_len,
    sec_map_get_index, lemma_key_index,
};
use crate::ir::{
    I18nResource, I18nEntry, ResourceMetadata, FormatId, EntryValue, FormatCapabilities, FormatExtension, QtLinguistExt,
    Comment, CommentRole, ContextEntry, ContextType, TranslationState, SourceRef, PluralSet,
};
use crate::text::{
    str_chars, str_eq, str_contains, contains, starts_with, chars_start_with, trim, trim_chars, string_of, parse_u32,
    decimal, decimal_string, find_pat, find_pat_from, lemma_find_pat, string_bytes, utf8_error_text, push_range,
};
use crate::xml::{
    XmlEvent, XmlEventView, event_view, events_view, attrs_view, xml_read, read_xml, XmlOut, XmlOutView, out_view,
    outs_view, out_attrs_view, xml_written, write_xml, attr_get, get_attr, opt_attr, text_element, flat_events,
    lemma_flat_events_step, lemma_flat_events_full, push_ev, push_text_element, push_opt_attr, no_attrs,
};
use super::xliff1::{opt_u32, source_events};
use vstd::utf8::{valid_utf8, decode_utf8, encode_utf8};
use super::{clone_opt, Confidence, ParseError, WriteError, opt_view, PluralView, plural_set_view};

verus! {

pub struct Parser;

pub struct Writer;

// ---------------------------------------------------------------------------
// Mapping helpers
// ---------------------------------------------------------------------------

/// The translation state of a `<translation>` `type`: none means translated.
pub open spec fn spec_qt_state(t: Option<Seq<char>>) -> Option<TranslationState> {
    match t {
        None => Some(TranslationState::Translated),
        Some(x) => if x == "unfinished"@ {
            Some(TranslationState::NeedsReview)
        } else if x == "obsolete"@ {
            Some(TranslationState::Obsolete)
        } else if x == "vanished"@ {
            Some(TranslationState::Vanished)
        } else {
            None
        },
    }
}

/// Maps a `<translation>` `type` to a translation state.
pub fn map_qt_state(type_attr: Option<&str>) -> (r: Option<TranslationState>)
    ensures
        r == spec_qt_state(match type_attr {
            Some(t) => Some(t@),
            None => None,
        }),
{
    match type_attr {
        None => Some(TranslationState::Translated),
        Some(t) => if str_eq(t, "unfinished") {
            Some(TranslationState::NeedsReview)
        } else if str_eq(t, "obsolete") {
            Some(TranslationState::Obsolete)
        } else if str_eq(t, "vanished") {
            Some(TranslationState::Vanished)
        } else {
            None
        },
    }
}

/// The `type` written for a translation state; none for a finished one.
pub open spec fn spec_state_to_qt(s: TranslationState) -> Option<Seq<char>> {
    match s {
        TranslationState::Obsolete => Some("obsolete"@),
        TranslationState::Vanished => Some("vanished"@),
        TranslationState::Translated | TranslationState::Reviewed | TranslationState::Final => None,
        _ => Some("unfinished"@),
    }
}

/// Maps a translation state back to a `<translation>` `type`.
pub fn state_to_qt_type(state: &TranslationState) -> (r: Option<&'static str>)
    ensures
        match r {
            Some(s) => spec_state_to_qt(*state) == Some(s@),
            None => spec_state_to_qt(*state) is None,
        },
{
    match state {
        TranslationState::NeedsReview | TranslationState::New | TranslationState::NeedsTranslation => Some("unfinished"),
        TranslationState::Obsolete => Some("obsolete"),
        TranslationState::Vanished => Some("vanished"),
        TranslationState::Translated | TranslationState::Reviewed | TranslationState::Final => None,
        _ => Some("unfinished"),
    }
}

/// The plural forms of `<numerusform>` texts: one form is `other`; two are
/// `one` and `other`; three `one`, `few`, `other`; more are `one`, `two`,
/// `few`, then `many` when there are five or more, and the last is `other`.
pub open spec fn plural_of_forms(f: Seq<Seq<char>>) -> PluralView {
    let n = f.len();
    if n == 0 {
        (None, None, None, None, None, Seq::empty())
    } else if n == 1 {
        (None, None, None, None, None, f[0])
    } else if n == 2 {
        (None, Some(f[0]), None, None, None, f[1])
    } else if n == 3 {
        (None, Some(f[0]), None, Some(f[1]), None, f[2])
    } else {
        (None, Some(f[0]), Some(f[1]), Some(f[2]), if n > 4 { Some(f[3]) } else { None }, f[n - 1])
    }
}

pub open spec fn strings_view(v: Seq<String>) -> Seq<Seq<char>> {
    v.map_values(|s: String| s@)
}

pub open spec fn plain_plurals(ps: PluralSet) -> bool {
    &&& count_map_pairs(ps.exact_matches).len() == 0
    &&& ps.range_matches@.len() == 0
    &&& !ps.ordinal
}

/// Builds the plural set of `<numerusform>` texts.
pub fn build_plural_set(forms: &Vec<String>) -> (ps: PluralSet)
    ensures
        plural_set_view(ps) == plural_of_forms(strings_view(forms@)),
        plain_plurals(ps),
{
    let n = forms.len();
    let mut set = PluralSet::default();
    if n == 0 {
    } else if n == 1 {
        set.other = forms[0].clone();
    } else if n == 2 {
        set.one = Some(forms[0].clone());
        set.other = forms[1].clone();
    } else if n == 3 {
        set.one = Some(forms[0].clone());
        set.few = Some(forms[1].clone());
        set.other = forms[2].clone();
    } else {
        set.one = Some(forms[0].clone());
        set.other = forms[n - 1].clone();
        set.two = Some(forms[1].clone());
        set.few = Some(forms[2].clone());
        if n > 4 {
            set.many = Some(forms[3].clone());
        }
    }
    set
}

/// The `<numerusform>` texts of a plural set: `one`, `two`, `few`, `many`
/// where present, then `other`.
pub open spec fn forms_of_plural(p: PluralView) -> Seq<Seq<char>> {
    let o = |x: Option<Seq<char>>|
        match x {
            Some(v) => seq![v],
            None => Seq::<Seq<char>>::empty(),
        };
    o(p.1) + o(p.2) + o(p.3) + o(p.4) + seq![p.5]
}

fn push_opt_form(forms: &mut Vec<String>, x: &Option<String>)
    ensures
        strings_view(final(forms)@) == strings_view(old(forms)@) + match opt_view(*x) {
            Some(v) => seq![v],
            None => Seq::<Seq<char>>::empty(),
        },
{
    let ghost before = strings_view(forms@);
    match x {
        Some(v) => {
            forms.push(v.clone());
            assert(strings_view(forms@) =~= before + seq![v@]);
        },
        None => {
            assert(before + Seq::<Seq<char>>::empty() =~= before);
        },
    }
}

/// The `<numerusform>` texts of a plural set.
pub fn plural_set_to_forms(plural: &PluralSet) -> (forms: Vec<String>)
    ensures
        strings_view(forms@) == forms_of_plural(plural_set_view(*plural)),
{
    let mut forms: Vec<String> = Vec::new();
    assert(strings_view(forms@) =~= Seq::<Seq<char>>::empty());
    push_opt_form(&mut forms, &plural.one);
    push_opt_form(&mut forms, &plural.two);
    push_opt_form(&mut forms, &plural.few);
    push_opt_form(&mut forms, &plural.many);
    let ghost before = strings_view(forms@);
    forms.push(plural.other.clone());
    assert(strings_view(forms@) =~= before + seq![plural.other@]);
    forms
}

pub open spec fn capabilities_spec() -> FormatCapabilities {
    FormatCapabilities {
        plurals: true,
        arrays: false,
        comments: true,
        context: true,
        source_string: true,
        translatable_flag: false,
        translation_state: true,
        max_width: false,
        device_variants: false,
        select_gender: false,
        nested_keys: false,
        inline_markup: false,
        alternatives: false,
        source_references: true,
        custom_properties: true,
    }
}

// ---------------------------------------------------------------------------
// Reading: the event state machine
// ---------------------------------------------------------------------------

/// Where the reader is.
#[derive(PartialEq, Eq, Structural)]
pub enum QState {
    Root,
    Ts,
    Context,
    ContextName,
    Message,
    Source,
    OldSource,
    Translation,
    NumerusForm,
    Comment,
    TranslatorComment,
    OldComment,
    ExtraElement,
}

/// A message being read.
pub struct MsgV {
    pub source: Seq<char>,
    pub translation: Option<Seq<char>>,
    pub translation_type: Option<Seq<char>>,
    pub numerus: bool,
    pub numerus_forms: Seq<Seq<char>>,
    pub comment: Option<Seq<char>>,
    pub translator_comment: Option<Seq<char>>,
    pub old_source: Option<Seq<char>>,
    pub old_comment: Option<Seq<char>>,
    pub locations: Seq<(Seq<char>, Option<u32>)>,
    pub extras: Seq<(Seq<char>, Seq<char>)>,
}

/// The whole reading state; each entry is its context name and message.
pub struct QtState {
    pub state: QState,
    pub msg: Option<MsgV>,
    pub extra_name: Option<Seq<char>>,
    pub context_name: Seq<char>,
    pub text: Seq<char>,
    pub locale: Option<Seq<char>>,
    pub source_locale: Option<Seq<char>>,
    pub props: Seq<(Seq<char>, Seq<char>)>,
    pub entries: Seq<(Seq<char>, (Seq<char>, MsgV))>,
}

pub open spec fn init_state() -> QtState {
    QtState {
        state: QState::Root,
        msg: None,
        extra_name: None,
        context_name: Seq::empty(),
        text: Seq::empty(),
        locale: None,
        source_locale: None,
        props: Seq::empty(),
        entries: Seq::empty(),
    }
}

pub open spec fn new_msg(numerus: bool) -> MsgV {
    MsgV {
        source: Seq::empty(),
        translation: None,
        translation_type: None,
        numerus,
        numerus_forms: Seq::empty(),
        comment: None,
        translator_comment: None,
        old_source: None,
        old_comment: None,
        locations: Seq::empty(),
        extras: Seq::empty(),
    }
}

pub open spec fn map_msg(m: Option<MsgV>, f: spec_fn(MsgV) -> MsgV) -> Option<MsgV> {
    match m {
        Some(x) => Some(f(x)),
        None => None,
    }
}

/// The source reference of a `<location>` tag.
pub open spec fn loc_of(a: Seq<(Seq<char>, Seq<u8>)>) -> (Seq<char>, Option<u32>) {
    (
        match attr_get(a, "filename"@) {
            Some(v) => v,
            None => Seq::empty(),
        },
        opt_u32(attr_get(a, "line"@)),
    )
}

/// A `<location>` inside a message adds a source reference.
pub open spec fn location_step(st: QtState, a: Seq<(Seq<char>, Seq<u8>)>) -> QtState {
    if st.state == QState::Message {
        QtState { msg: map_msg(st.msg, |m: MsgV| MsgV { locations: m.locations.push(loc_of(a)), ..m }), ..st }
    } else {
        st
    }
}

/// A start tag.
pub open spec fn start_step(st: QtState, n: Seq<char>, a: Seq<(Seq<char>, Seq<u8>)>) -> QtState {
    if n == "TS"@ {
        QtState {
            state: QState::Ts,
            locale: attr_get(a, "language"@),
            source_locale: attr_get(a, "sourcelanguage"@),
            props: match attr_get(a, "version"@) {
                Some(v) => map_insert(st.props, "ts_version"@, v),
                None => st.props,
            },
            ..st
        }
    } else if n == "context"@ && st.state == QState::Ts {
        QtState { state: QState::Context, context_name: Seq::empty(), ..st }
    } else if n == "name"@ && st.state == QState::Context {
        QtState { state: QState::ContextName, text: Seq::empty(), ..st }
    } else if n == "message"@ && st.state == QState::Context {
        QtState { state: QState::Message, msg: Some(new_msg(attr_get(a, "numerus"@) == Some("yes"@))), ..st }
    } else if n == "source"@ && st.state == QState::Message {
        QtState { state: QState::Source, text: Seq::empty(), ..st }
    } else if n == "oldsource"@ && st.state == QState::Message {
        QtState { state: QState::OldSource, text: Seq::empty(), ..st }
    } else if n == "translation"@ && st.state == QState::Message {
        QtState {
            state: QState::Translation,
            msg: map_msg(st.msg, |m: MsgV| MsgV { translation_type: attr_get(a, "type"@), ..m }),
            text: Seq::empty(),
            ..st
        }
    } else if n == "numerusform"@ && st.state == QState::Translation {
        QtState { state: QState::NumerusForm, text: Seq::empty(), ..st }
    } else if n == "comment"@ && st.state == QState::Message {
        QtState { state: QState::Comment, text: Seq::empty(), ..st }
    } else if n == "translatorcomment"@ && st.state == QState::Message {
        QtState { state: QState::TranslatorComment, text: Seq::empty(), ..st }
    } else if n == "oldcomment"@ && st.state == QState::Message {
        QtState { state: QState::OldComment, text: Seq::empty(), ..st }
    } else if n == "location"@ && st.state == QState::Message {
        location_step(st, a)
    } else if st.state == QState::Message && starts_with(n, "extra-"@) {
        QtState { state: QState::ExtraElement, extra_name: Some(n), text: Seq::empty(), ..st }
    } else {
        st
    }
}

/// A self-closing tag: only `<location/>` inside a message counts.
pub open spec fn empty_step(st: QtState, n: Seq<char>, a: Seq<(Seq<char>, Seq<u8>)>) -> QtState {
    if n == "location"@ {
        location_step(st, a)
    } else {
        st
    }
}

/// An end tag; a closed message is given back.
pub open spec fn end_step(st: QtState, n: Seq<char>) -> (QtState, Option<MsgV>) {
    let t = st.text;
    if n == "name"@ && st.state == QState::ContextName {
        (QtState { context_name: trim(t), text: Seq::empty(), state: QState::Context, ..st }, None)
    } else if n == "source"@ && st.state == QState::Source {
        (QtState { msg: map_msg(st.msg, |m: MsgV| MsgV { source: t, ..m }), text: Seq::empty(), state: QState::Message, ..st }, None)
    } else if n == "oldsource"@ && st.state == QState::OldSource {
        (
            QtState {
                msg: map_msg(st.msg, |m: MsgV| MsgV { old_source: Some(t), ..m }),
                text: Seq::empty(),
                state: QState::Message,
                ..st
            },
            None,
        )
    } else if n == "numerusform"@ && st.state == QState::NumerusForm {
        (
            QtState {
                msg: map_msg(st.msg, |m: MsgV| MsgV { numerus_forms: m.numerus_forms.push(t), ..m }),
                text: Seq::empty(),
                state: QState::Translation,
                ..st
            },
            None,
        )
    } else if n == "translation"@ && st.state == QState::Translation {
        (
            QtState {
                msg: map_msg(st.msg, |m: MsgV| if m.numerus { m } else { MsgV { translation: Some(t), ..m } }),
                text: Seq::empty(),
                state: QState::Message,
                ..st
            },
            None,
        )
    } else if n == "comment"@ && st.state == QState::Comment {
        (
            QtState {
                msg: map_msg(st.msg, |m: MsgV| MsgV { comment: Some(trim(t)), ..m }),
                text: Seq::empty(),
                state: QState::Message,
                ..st
            },
            None,
        )
    } else if n == "translatorcomment"@ && st.state == QState::TranslatorComment {
        (
            QtState {
                msg: map_msg(st.msg, |m: MsgV| MsgV { translator_comment: Some(trim(t)), ..m }),
                text: Seq::empty(),
                state: QState::Message,
                ..st
            },
            None,
        )
    } else if n == "oldcomment"@ && st.state == QState::OldComment {
        (
            QtState {
                msg: map_msg(st.msg, |m: MsgV| MsgV { old_comment: Some(trim(t)), ..m }),
                text: Seq::empty(),
                state: QState::Message,
                ..st
            },
            None,
        )
    } else if st.state == QState::ExtraElement && st.extra_name == Some(n) {
        (
            QtState {
                msg: map_msg(st.msg, |m: MsgV| MsgV { extras: map_insert(m.extras, n, trim(t)), ..m }),
                extra_name: None,
                text: Seq::empty(),
                state: QState::Message,
                ..st
            },
            None,
        )
    } else if n == "message"@ && st.state == QState::Message {
        (QtState { msg: None, state: QState::Context, ..st }, st.msg)
    } else if n == "context"@ && st.state == QState::Context {
        (QtState { state: QState::Ts, ..st }, None)
    } else if n == "TS"@ {
        (QtState { state: QState::Root, ..st }, None)
    } else {
        (st, None)
    }
}

/// The key of a message: its source, after the context name and the EOT
/// character when the context has a name.
pub open spec fn msg_key(ctx: Seq<char>, source: Seq<char>) -> Seq<char> {
    if ctx.len() == 0 {
        source
    } else {
        ctx + seq!['\u{4}'] + source
    }
}

/// One event: a closed message becomes an entry under its key.
pub open spec fn qstep(st: QtState, ev: XmlEventView) -> QtState {
    match ev {
        XmlEventView::Start(n, a) => start_step(st, n, a),
        XmlEventView::Empty(n, a) => empty_step(st, n, a),
        XmlEventView::Text(t) => QtState { text: st.text + t, ..st },
        XmlEventView::End(n) => {
            let (s2, done) = end_step(st, n);
            match done {
                Some(m) => QtState {
                    entries: map_insert(s2.entries, msg_key(s2.context_name, m.source), (s2.context_name, m)),
                    ..s2
                },
                None => s2,
            }
        },
        _ => st,
    }
}

pub open spec fn qfold(evs: Seq<XmlEventView>) -> QtState
    decreases evs.len(),
{
    if evs.len() == 0 {
        init_state()
    } else {
        qstep(qfold(evs.drop_last()), evs.last())
    }
}


/// A message being read.
pub struct MessageBuilder {
    pub source: String,
    pub translation: Option<String>,
    pub translation_type: Option<String>,
    pub numerus: bool,
    pub numerus_forms: Vec<String>,
    pub comment: Option<String>,
    pub translator_comment: Option<String>,
    pub old_source: Option<String>,
    pub old_comment: Option<String>,
    pub locations: Vec<SourceRef>,
    pub extra_elements: IndexMap<String, String>,
}

/// The reading state, without the entries read so far.
pub struct ReadState {
    pub state: QState,
    pub msg: Option<MessageBuilder>,
    pub extra_name: Option<String>,
    pub context_name: String,
    pub text: String,
    pub locale: Option<String>,
    pub source_locale: Option<String>,
    pub props: IndexMap<String, String>,
}

pub open spec fn loc_v(r: SourceRef) -> (Seq<char>, Option<u32>) {
    (r.file@, r.line)
}

pub open spec fn locs_view(v: Seq<SourceRef>) -> Seq<(Seq<char>, Option<u32>)> {
    v.map_values(|r: SourceRef| loc_v(r))
}

pub open spec fn msg_v(m: MessageBuilder) -> MsgV {
    MsgV {
        source: m.source@,
        translation: opt_view(m.translation),
        translation_type: opt_view(m.translation_type),
        numerus: m.numerus,
        numerus_forms: strings_view(m.numerus_forms@),
        comment: opt_view(m.comment),
        translator_comment: opt_view(m.translator_comment),
        old_source: opt_view(m.old_source),
        old_comment: opt_view(m.old_comment),
        locations: locs_view(m.locations@),
        extras: str_map_pairs(m.extra_elements),
    }
}

pub open spec fn opt_msg_v(m: Option<MessageBuilder>) -> Option<MsgV> {
    match m {
        Some(x) => Some(msg_v(x)),
        None => None,
    }
}

pub open spec fn rv(st: ReadState, entries: Seq<(Seq<char>, (Seq<char>, MsgV))>) -> QtState {
    QtState {
        state: st.state,
        msg: opt_msg_v(st.msg),
        extra_name: opt_view(st.extra_name),
        context_name: st.context_name@,
        text: st.text@,
        locale: opt_view(st.locale),
        source_locale: opt_view(st.source_locale),
        props: str_map_pairs(st.props),
        entries,
    }
}

fn new_msg_exec(numerus: bool) -> (m: MessageBuilder)
    ensures
        msg_v(m) == new_msg(numerus),
{
    let m = MessageBuilder {
        source: String::new(),
        translation: None,
        translation_type: None,
        numerus,
        numerus_forms: Vec::new(),
        comment: None,
        translator_comment: None,
        old_source: None,
        old_comment: None,
        locations: Vec::new(),
        extra_elements: str_map_new(),
    };
    assert(msg_v(m).numerus_forms =~= Seq::<Seq<char>>::empty());
    assert(msg_v(m).locations =~= Seq::<(Seq<char>, Option<u32>)>::empty());
    m
}

fn location_exec(st: &mut ReadState, a: &Vec<(String, Vec<u8>)>, Ghost(e): Ghost<Seq<(Seq<char>, (Seq<char>, MsgV))>>)
    ensures
        rv(*final(st), e) == location_step(rv(*old(st), e), attrs_view(a@)),
{
    if st.state == QState::Message {
        let mut msg = None;
        std::mem::swap(&mut msg, &mut st.msg);
        match msg {
            Some(mut m) => {
                let file = match get_attr(a, "filename") {
                    Some(v) => v,
                    None => String::new(),
                };
                let line = match get_attr(a, "line") {
                    Some(v) => {
                        let c = str_chars(v.as_str());
                        parse_u32(c.as_slice())
                    },
                    None => None,
                };
                let r = SourceRef { file, line };
                let ghost before = m.locations@;
                let ghost lv = loc_v(r);
                m.locations.push(r);
                assert(locs_view(m.locations@) =~= locs_view(before).push(lv));
                st.msg = Some(m);
            },
            None => {},
        }
    }
}

/// A start tag.
fn start_exec(st: &mut ReadState, n: &String, a: &Vec<(String, Vec<u8>)>, Ghost(e): Ghost<Seq<(Seq<char>, (Seq<char>, MsgV))>>)
    ensures
        rv(*final(st), e) == start_step(rv(*old(st), e), n@, attrs_view(a@)),
{
    let name = n.as_str();
    let in_msg = st.state == QState::Message;
    if str_eq(name, "TS") {
        st.state = QState::Ts;
        st.locale = get_attr(a, "language");
        st.source_locale = get_attr(a, "sourcelanguage");
        match get_attr(a, "version") {
            Some(v) => str_map_insert(&mut st.props, "ts_version".to_owned(), v),
            None => {},
        }
    } else if str_eq(name, "context") && st.state == QState::Ts {
        st.state = QState::Context;
        st.context_name = String::new();
    } else if str_eq(name, "name") && st.state == QState::Context {
        st.state = QState::ContextName;
        st.text = String::new();
    } else if str_eq(name, "message") && st.state == QState::Context {
        st.state = QState::Message;
        let numerus = match get_attr(a, "numerus") {
            Some(v) => str_eq(v.as_str(), "yes"),
            None => false,
        };
        st.msg = Some(new_msg_exec(numerus));
    } else if str_eq(name, "source") && in_msg {
        st.state = QState::Source;
        st.text = String::new();
    } else if str_eq(name, "oldsource") && in_msg {
        st.state = QState::OldSource;
        st.text = String::new();
    } else if str_eq(name, "translation") && in_msg {
        st.state = QState::Translation;
        let mut msg = None;
        std::mem::swap(&mut msg, &mut st.msg);
        match msg {
            Some(mut m) => {
                m.translation_type = get_attr(a, "type");
                st.msg = Some(m);
            },
            None => {},
        }
        st.text = String::new();
    } else if str_eq(name, "numerusform") && st.state == QState::Translation {
        st.state = QState::NumerusForm;
        st.text = String::new();
    } else if str_eq(name, "comment") && in_msg {
        st.state = QState::Comment;
        st.text = String::new();
    } else if str_eq(name, "translatorcomment") && in_msg {
        st.state = QState::TranslatorComment;
        st.text = String::new();
    } else if str_eq(name, "oldcomment") && in_msg {
        st.state = QState::OldComment;
        st.text = String::new();
    } else if str_eq(name, "location") && in_msg {
        location_exec(st, a, Ghost(e));
    } else if in_msg && chars_start_with(str_chars(name).as_slice(), str_chars("extra-").as_slice()) {
        st.state = QState::ExtraElement;
        st.extra_name = Some(n.clone());
        st.text = String::new();
    }
}

fn take_text(st: &mut ReadState) -> (t: String)
    ensures
        t@ == old(st).text@,
        final(st).text@ == Seq::<char>::empty(),
        *final(st) == (ReadState { text: final(st).text, ..*old(st) }),
{
    let mut t = String::new();
    std::mem::swap(&mut t, &mut st.text);
    t
}

fn trimmed(t: &String) -> (r: String)
    ensures
        r@ == trim(t@),
{
    let c = str_chars(t.as_str());
    let tc = trim_chars(c.as_slice());
    string_of(tc.as_slice())
}

/// An end tag; a closed message is given back.
fn end_exec(st: &mut ReadState, n: &String, Ghost(e): Ghost<Seq<(Seq<char>, (Seq<char>, MsgV))>>) -> (done: Option<MessageBuilder>)
    ensures
        (rv(*final(st), e), opt_msg_v(done)) == end_step(rv(*old(st), e), n@),
{
    let name = n.as_str();
    let is_extra_end = st.state == QState::ExtraElement && match &st.extra_name {
        Some(x) => str_eq(x.as_str(), name),
        None => false,
    };
    if str_eq(name, "name") && st.state == QState::ContextName {
        let t = take_text(st);
        st.context_name = trimmed(&t);
        st.state = QState::Context;
        return None;
    }
    let fld: u8 = if str_eq(name, "source") && st.state == QState::Source {
        1
    } else if str_eq(name, "oldsource") && st.state == QState::OldSource {
        2
    } else if str_eq(name, "numerusform") && st.state == QState::NumerusForm {
        3
    } else if str_eq(name, "translation") && st.state == QState::Translation {
        4
    } else if str_eq(name, "comment") && st.state == QState::Comment {
        5
    } else if str_eq(name, "translatorcomment") && st.state == QState::TranslatorComment {
        6
    } else if str_eq(name, "oldcomment") && st.state == QState::OldComment {
        7
    } else if is_extra_end {
        8
    } else {
        0
    };
    if fld > 0 {
        let t = take_text(st);
        let mut msg = None;
        std::mem::swap(&mut msg, &mut st.msg);
        match msg {
            Some(mut m) => {
                if fld == 1 {
                    m.source = t;
                } else if fld == 2 {
                    m.old_source = Some(t);
                } else if fld == 3 {
                    let ghost before = m.numerus_forms@;
                    m.numerus_forms.push(t);
                    assert(strings_view(m.numerus_forms@) =~= strings_view(before).push(t@));
                } else if fld == 4 {
                    if !m.numerus {
                        m.translation = Some(t);
                    }
                } else if fld == 5 {
                    m.comment = Some(trimmed(&t));
                } else if fld == 6 {
                    m.translator_comment = Some(trimmed(&t));
                } else if fld == 7 {
                    m.old_comment = Some(trimmed(&t));
                } else {
                    str_map_insert(&mut m.extra_elements, n.clone(), trimmed(&t));
                }
                st.msg = Some(m);
            },
            None => {},
        }
        if fld == 3 {
            st.state = QState::Translation;
        } else {
            st.state = QState::Message;
        }
        if fld == 8 {
            st.extra_name = None;
        }
        return None;
    }
    if str_eq(name, "message") && st.state == QState::Message {
        let mut msg = None;
        std::mem::swap(&mut msg, &mut st.msg);
        st.state = QState::Context;
        return msg;
    }
    if str_eq(name, "context") && st.state == QState::Context {
        st.state = QState::Ts;
    } else if str_eq(name, "TS") {
        st.state = QState::Root;
    }
    None
}


// ---------------------------------------------------------------------------
// Reading: entries and resources
// ---------------------------------------------------------------------------

/// The comments of a message: its non-empty `<comment>` (a developer's),
/// then its non-empty `<translatorcomment>`.
pub open spec fn msg_comments(m: MsgV) -> Seq<(CommentRole, Seq<char>)> {
    let one = |c: Option<Seq<char>>, r: CommentRole|
        match c {
            Some(t) => if t.len() > 0 {
                seq![(r, t)]
            } else {
                Seq::<(CommentRole, Seq<char>)>::empty()
            },
            None => Seq::<(CommentRole, Seq<char>)>::empty(),
        };
    one(m.comment, CommentRole::Developer) + one(m.translator_comment, CommentRole::Translator)
}

/// The value of a message: its forms for a numerus message that has some,
/// else its translation text.
pub open spec fn msg_value(v: EntryValue, m: MsgV) -> bool {
    if m.numerus && m.numerus_forms.len() > 0 {
        v matches EntryValue::Plural(ps) && plural_set_view(ps) == plural_of_forms(m.numerus_forms) && plain_plurals(ps)
    } else {
        v matches EntryValue::Simple(t) && t@ == match m.translation {
            Some(x) => x,
            None => Seq::empty(),
        }
    }
}

/// The format extension of a message: kept when it is a numerus message or
/// has extra elements.
pub open spec fn msg_ext(x: Option<FormatExtension>, m: MsgV) -> bool {
    if m.numerus || m.extras.len() > 0 {
        x matches Some(FormatExtension::QtLinguist(q)) && q.numerus == (if m.numerus {
            Some(true)
        } else {
            None
        }) && str_map_pairs(q.extra_elements) == m.extras
    } else {
        x is None
    }
}

/// The entry a closed message gives in the context `ctx`.
pub open spec fn entry_of_msg(e: I18nEntry, ctx: Seq<char>, m: MsgV) -> bool {
    &&& e.key@ == msg_key(ctx, m.source)
    &&& msg_value(e.value, m)
    &&& e.comments@.len() == msg_comments(m).len()
    &&& forall|i: int|
        0 <= i < msg_comments(m).len() ==> (#[trigger] e.comments@[i]).role == msg_comments(m)[i].0 && e.comments@[i].text@
            == msg_comments(m)[i].1 && e.comments@[i].priority is None && e.comments@[i].annotates is None
    &&& if ctx.len() > 0 {
        &&& e.contexts@.len() == 1
        &&& e.contexts@[0].value@ == ctx
        &&& e.contexts@[0].context_type == ContextType::Disambiguation
        &&& e.contexts@[0].purpose is None
    } else {
        e.contexts@.len() == 0
    }
    &&& opt_view(e.source) == Some(m.source)
    &&& opt_view(e.previous_source) == m.old_source
    &&& opt_view(e.previous_comment) == m.old_comment
    &&& e.state == spec_qt_state(m.translation_type)
    &&& e.obsolete == (m.translation_type == Some("obsolete"@) || m.translation_type == Some("vanished"@))
    &&& locs_view(e.source_references@) == m.locations
    &&& msg_ext(e.format_ext, m)
    &&& e.placeholders@.len() == 0
    &&& e.translatable is None
    &&& e.state_qualifier is None
    &&& e.approved is None
    &&& e.max_width is None
    &&& e.min_width is None
    &&& e.max_height is None
    &&& e.min_height is None
    &&& e.size_unit is None
    &&& e.max_bytes is None
    &&& e.min_bytes is None
    &&& e.flags@.len() == 0
    &&& e.device_variants is None
    &&& e.alternatives@.len() == 0
    &&& str_map_pairs(e.properties).len() == 0
    &&& e.resource_type is None
    &&& e.resource_name is None
}

pub open spec fn msg_rel() -> spec_fn(I18nEntry, (Seq<char>, MsgV)) -> bool {
    |e: I18nEntry, x: (Seq<char>, MsgV)| entry_of_msg(e, x.0, x.1)
}

/// What a resource read from a `.ts` file holds: the languages of `<TS>`,
/// its version as the `ts_version` property, and the messages.
pub open spec fn parsed_resource(res: I18nResource, st: QtState) -> bool {
    &&& res.metadata.source_format == FormatId::QtLinguist
    &&& opt_view(res.metadata.locale) == st.locale
    &&& opt_view(res.metadata.source_locale) == st.source_locale
    &&& str_map_pairs(res.metadata.headers).len() == 0
    &&& str_map_pairs(res.metadata.properties) == st.props
    &&& res.metadata.encoding is None
    &&& res.metadata.direction is None
    &&& res.metadata.created_at is None
    &&& res.metadata.modified_at is None
    &&& res.metadata.created_by is None
    &&& res.metadata.modified_by is None
    &&& res.metadata.tool_name is None
    &&& res.metadata.tool_version is None
    &&& res.metadata.format_ext is None
    &&& pairs_model(entry_map_pairs(res.entries), st.entries, msg_rel())
}

fn push_comment(cs: &mut Vec<Comment>, c: &Option<String>, role: CommentRole)
    ensures
        final(cs)@.len() == old(cs)@.len() + match opt_view(*c) {
            Some(t) => if t.len() > 0 { 1int } else { 0int },
            None => 0int,
        },
        forall|i: int| 0 <= i < old(cs)@.len() ==> final(cs)@[i] == old(cs)@[i],
        opt_view(*c) matches Some(t) ==> (t.len() > 0 ==> final(cs)@[old(cs)@.len() as int].role == role
            && final(cs)@[old(cs)@.len() as int].text@ == t && final(cs)@[old(cs)@.len() as int].priority is None
            && final(cs)@[old(cs)@.len() as int].annotates is None),
{
    match c {
        Some(t) => {
            if !t.as_str().is_empty() {
                cs.push(Comment { text: t.clone(), role, priority: None, annotates: None });
            }
        },
        None => {},
    }
}

/// Builds the entry of a closed message read in the context `ctx`.
fn build_msg_entry(ctx: &String, m: MessageBuilder) -> (r: (String, I18nEntry))
    ensures
        r.0@ == msg_key(ctx@, m.source@),
        entry_of_msg(r.1, ctx@, msg_v(m)),
{
    let ghost mv = msg_v(m);
    let mut key = String::new();
    if ctx.as_str().is_empty() {
        key.append(m.source.as_str());
    } else {
        key.append(ctx.as_str());
        key.push('\u{4}');
        key.append(m.source.as_str());
    }
    assert(key@ =~= msg_key(ctx@, m.source@));
    let obsolete = match &m.translation_type {
        Some(t) => str_eq(t.as_str(), "obsolete") || str_eq(t.as_str(), "vanished"),
        None => false,
    };
    let state = match &m.translation_type {
        Some(t) => map_qt_state(Some(t.as_str())),
        None => map_qt_state(None),
    };
    let value = if m.numerus && m.numerus_forms.len() > 0 {
        EntryValue::Plural(build_plural_set(&m.numerus_forms))
    } else {
        match &m.translation {
            Some(t) => EntryValue::Simple(t.clone()),
            None => EntryValue::Simple(String::new()),
        }
    };
    let mut comments: Vec<Comment> = Vec::new();
    push_comment(&mut comments, &m.comment, CommentRole::Developer);
    push_comment(&mut comments, &m.translator_comment, CommentRole::Translator);
    assert(comments@.len() == msg_comments(mv).len());
    let mut contexts: Vec<ContextEntry> = Vec::new();
    if !ctx.as_str().is_empty() {
        contexts.push(ContextEntry { value: ctx.clone(), context_type: ContextType::Disambiguation, purpose: None });
    }
    let format_ext = if m.numerus || str_map_len(&m.extra_elements) > 0 {
        Some(FormatExtension::QtLinguist(QtLinguistExt {
            numerus: if m.numerus { Some(true) } else { None },
            extra_elements: m.extra_elements,
        }))
    } else {
        None
    };
    let mut e = I18nEntry::with_value(key.clone(), value);
    e.comments = comments;
    e.contexts = contexts;
    e.source = Some(m.source);
    e.previous_source = m.old_source;
    e.previous_comment = m.old_comment;
    e.state = state;
    e.obsolete = obsolete;
    e.source_references = m.locations;
    e.format_ext = format_ext;
    (key, e)
}

/// Reads a `.ts` file from its events.
pub fn parse_events(evs: &Vec<XmlEvent>) -> (res: I18nResource)
    ensures
        parsed_resource(res, qfold(events_view(evs@))),
{
    let ghost ev = events_view(evs@);
    let mut st = ReadState {
        state: QState::Root,
        msg: None,
        extra_name: None,
        context_name: String::new(),
        text: String::new(),
        locale: None,
        source_locale: None,
        props: str_map_new(),
    };
    let mut entries = entry_map_new();
    let ghost mut model: Seq<(Seq<char>, (Seq<char>, MsgV))> = Seq::empty();
    let mut i: usize = 0;
    while i < evs.len()
        invariant
            i <= evs@.len(),
            ev == events_view(evs@),
            qfold(ev.take(i as int)) == rv(st, model),
            pairs_model(entry_map_pairs(entries), model, msg_rel()),
        decreases evs@.len() - i,
    {
        assert(ev.take(i + 1).drop_last() == ev.take(i as int));
        assert(ev.take(i + 1).last() == event_view(evs@[i as int]));
        match &evs[i] {
            XmlEvent::Start(n, a) => start_exec(&mut st, n, a, Ghost(model)),
            XmlEvent::Empty(n, a) => {
                if str_eq(n.as_str(), "location") {
                    location_exec(&mut st, a, Ghost(model));
                }
            },
            XmlEvent::Text(t) => st.text.append(t.as_str()),
            XmlEvent::End(n) => {
                match end_exec(&mut st, n, Ghost(model)) {
                    Some(m) => {
                        let ghost x = (st.context_name@, msg_v(m));
                        let (key, e) = build_msg_entry(&st.context_name, m);
                        proof {
                            lemma_pairs_model_insert(entry_map_pairs(entries), model, msg_rel(), key@, e, x);
                            model = map_insert(model, key@, x);
                        }
                        entry_map_insert(&mut entries, key, e);
                    },
                    None => {},
                }
            },
            _ => {},
        }
        i = i + 1;
    }
    assert(ev.take(evs@.len() as int) == ev);
    let mut metadata = ResourceMetadata::for_format(FormatId::QtLinguist);
    metadata.locale = st.locale;
    metadata.source_locale = st.source_locale;
    metadata.properties = st.props;
    I18nResource { metadata, entries }
}

/// What reading `.ts` bytes gives: the resource of their events, text not
/// trimmed, or an XML error when the reader fails.
pub open spec fn parse_ok(r: Result<I18nResource, ParseError>, content: Seq<u8>) -> bool {
    match xml_read(content, false) {
        Some(evs) => r matches Ok(res) && parsed_resource(res, qfold(evs)),
        None => r matches Err(ParseError::Xml(_)),
    }
}

/// Whether the text declares a Qt Linguist document.
pub open spec fn ts_marked(s: Seq<char>, with_bare_tag: bool) -> bool {
    contains(s, "<!DOCTYPE TS>"@) || contains(s, "<TS version="@) || (with_bare_tag && contains(s, "<TS>"@))
}

/// How sure this format is that it can read a file with the extension and
/// content.
pub open spec fn spec_detect(extension: Seq<char>, content: Seq<u8>) -> Confidence {
    if extension == ".ts"@ {
        if valid_utf8(content) && ts_marked(decode_utf8(content), true) {
            Confidence::Definite
        } else {
            Confidence::NoMatch
        }
    } else if valid_utf8(content) && ts_marked(decode_utf8(content), false) {
        Confidence::High
    } else {
        Confidence::NoMatch
    }
}

impl Parser {
    /// A `.ts` file is certain when its text declares Qt Linguist (it may
    /// be TypeScript otherwise); any other file whose text has the doctype
    /// or a versioned `<TS>` tag is likely.
    pub fn detect(&self, extension: &str, content: &[u8]) -> (c: Confidence)
        ensures
            c == spec_detect(extension@, content@),
    {
        let is_ts = str_eq(extension, ".ts");
        match std::str::from_utf8(content) {
            Ok(s) => {
                let marked = str_contains(s, "<!DOCTYPE TS>") || str_contains(s, "<TS version=");
                if is_ts {
                    if marked || str_contains(s, "<TS>") {
                        Confidence::Definite
                    } else {
                        Confidence::NoMatch
                    }
                } else if marked {
                    Confidence::High
                } else {
                    Confidence::NoMatch
                }
            },
            Err(_) => Confidence::NoMatch,
        }
    }

    /// Parses a `.ts` file, text kept as written.
    pub fn parse(&self, content: &[u8]) -> (r: Result<I18nResource, ParseError>)
        ensures
            parse_ok(r, content@),
    {
        match read_xml(content, false) {
            Ok(evs) => Ok(parse_events(&evs)),
            Err(e) => {
                let mut m = "XML parse error: ".to_owned();
                m.append(e.as_str());
                Err(ParseError::Xml(m))
            },
        }
    }

    pub fn capabilities(&self) -> (c: FormatCapabilities)
        ensures
            c == capabilities_spec(),
    {
        FormatCapabilities {
            plurals: true,
            arrays: false,
            comments: true,
            context: true,
            source_string: true,
            translatable_flag: false,
            translation_state: true,
            max_width: false,
            device_variants: false,
            select_gender: false,
            nested_keys: false,
            inline_markup: false,
            alternatives: false,
            source_references: true,
            custom_properties: true,
        }
    }
}


// ---------------------------------------------------------------------------
// Writing
// ---------------------------------------------------------------------------

/// The name of the first disambiguation context, or the empty name.
pub open spec fn ctx_name_of(cs: Seq<ContextEntry>) -> Seq<char>
    decreases cs.len(),
{
    if cs.len() == 0 {
        Seq::empty()
    } else if cs[0].context_type == ContextType::Disambiguation {
        cs[0].value@
    } else {
        ctx_name_of(cs.drop_first())
    }
}

/// The entries grouped by context name, each name in order of its first
/// entry, with the indexes of its entries.
pub open spec fn msg_groups(ps: Seq<(Seq<char>, I18nEntry)>) -> Seq<(Option<Seq<char>>, Seq<usize>)>
    decreases ps.len(),
{
    if ps.len() == 0 {
        Seq::empty()
    } else {
        sec_push(msg_groups(ps.drop_last()), Some(ctx_name_of(ps.last().1.contexts@)), (ps.len() - 1) as usize)
    }
}

/// A message is numerus when its value is plural or its extension says so.
pub open spec fn is_numerus(e: I18nEntry) -> bool {
    e.value is Plural || (e.format_ext matches Some(FormatExtension::QtLinguist(q)) && q.numerus == Some(true))
}

/// The text of the first non-empty comment of a translator (or, when
/// `translator` is false, of anyone else).
pub open spec fn first_comment(cs: Seq<Comment>, translator: bool) -> Option<Seq<char>>
    decreases cs.len(),
{
    if cs.len() == 0 {
        None
    } else if (cs[0].role == CommentRole::Translator) == translator && cs[0].text@.len() > 0 {
        Some(cs[0].text@)
    } else {
        first_comment(cs.drop_first(), translator)
    }
}

/// A text element when there is a text.
pub open spec fn opt_element(name: Seq<char>, o: Option<Seq<char>>) -> Seq<XmlOutView> {
    match o {
        Some(t) => text_element(name, Seq::empty(), t),
        None => Seq::empty(),
    }
}

pub open spec fn loc_events() -> spec_fn(SourceRef) -> Seq<XmlOutView> {
    |r: SourceRef|
        seq![
            XmlOutView::Empty(
                "location"@,
                seq![("filename"@, r.file@)] + opt_attr(
                    "line"@,
                    match r.line {
                        Some(l) => Some(decimal(l as nat)),
                        None => None,
                    },
                ),
            ),
        ]
}

/// The `type` of a `<translation>`.
pub open spec fn trans_attrs(e: I18nEntry) -> Seq<(Seq<char>, Seq<char>)> {
    match e.state {
        Some(s) => opt_attr("type"@, spec_state_to_qt(s)),
        None => Seq::empty(),
    }
}

pub open spec fn form_events() -> spec_fn(Seq<char>) -> Seq<XmlOutView> {
    |f: Seq<char>| text_element("numerusform"@, Seq::empty(), f)
}

/// The `<translation>`: plural forms as `<numerusform>` elements, a simple
/// value as its text, anything else empty.
pub open spec fn translation_events(e: I18nEntry) -> Seq<XmlOutView> {
    match e.value {
        EntryValue::Plural(ps) => seq![XmlOutView::Start("translation"@, trans_attrs(e))] + flat_events(
            forms_of_plural(plural_set_view(ps)),
            form_events(),
        ) + seq![XmlOutView::End("translation"@)],
        EntryValue::Simple(t) => text_element("translation"@, trans_attrs(e), t@),
        _ => seq![XmlOutView::Start("translation"@, trans_attrs(e)), XmlOutView::End("translation"@)],
    }
}

pub open spec fn pair_events() -> spec_fn((Seq<char>, Seq<char>)) -> Seq<XmlOutView> {
    |p: (Seq<char>, Seq<char>)| text_element(p.0, Seq::empty(), p.1)
}

/// The extra elements kept in the extension.
pub open spec fn extra_events(e: I18nEntry) -> Seq<XmlOutView> {
    match e.format_ext {
        Some(FormatExtension::QtLinguist(q)) => flat_events(str_map_pairs(q.extra_elements), pair_events()),
        _ => Seq::empty(),
    }
}

/// The events of one `<message>`.
#[verifier::opaque]
pub open spec fn message_events(e: I18nEntry) -> Seq<XmlOutView> {
    seq![
        XmlOutView::Start(
            "message"@,
            if is_numerus(e) {
                seq![("numerus"@, "yes"@)]
            } else {
                Seq::empty()
            },
        ),
    ] + flat_events(e.source_references@, loc_events()) + source_events(e.source) + opt_element(
        "oldsource"@,
        opt_view(e.previous_source),
    ) + translation_events(e) + opt_element("comment"@, first_comment(e.comments@, false)) + opt_element(
        "translatorcomment"@,
        first_comment(e.comments@, true),
    ) + opt_element("oldcomment"@, opt_view(e.previous_comment)) + extra_events(e) + seq![XmlOutView::End("message"@)]
}

pub open spec fn index_msg_events(ps: Seq<(Seq<char>, I18nEntry)>) -> spec_fn(usize) -> Seq<XmlOutView> {
    |i: usize| message_events(ps[i as int].1)
}

pub open spec fn context_events(ps: Seq<(Seq<char>, I18nEntry)>) -> spec_fn((Option<Seq<char>>, Seq<usize>)) -> Seq<XmlOutView> {
    |g: (Option<Seq<char>>, Seq<usize>)|
        seq![XmlOutView::Start("context"@, Seq::empty())] + text_element(
            "name"@,
            Seq::empty(),
            match g.0 {
                Some(n) => n,
                None => Seq::empty(),
            },
        ) + flat_events(g.1, index_msg_events(ps)) + seq![XmlOutView::End("context"@)]
}

/// The attributes of `<TS>`: the version (`2.1` unless the `ts_version`
/// property gives one) and the languages.
pub open spec fn ts_attrs(res: I18nResource) -> Seq<(Seq<char>, Seq<char>)> {
    seq![(
        "version"@,
        match map_get(str_map_pairs(res.metadata.properties), "ts_version"@) {
            Some(v) => v,
            None => "2.1"@,
        },
    )] + opt_attr("language"@, opt_view(res.metadata.locale)) + opt_attr("sourcelanguage"@, opt_view(res.metadata.source_locale))
}

/// All events of a document.
pub open spec fn qt_doc_events(res: I18nResource) -> Seq<XmlOutView> {
    let ps = entry_map_pairs(res.entries);
    seq![XmlOutView::Decl("1.0"@, Some("utf-8"@)), XmlOutView::Start("TS"@, ts_attrs(res))] + flat_events(
        msg_groups(ps),
        context_events(ps),
    ) + seq![XmlOutView::End("TS"@)]
}

/// The text with `<!DOCTYPE TS>` on a line after the XML declaration (at
/// the start when there is none).
pub open spec fn with_doctype(s: Seq<char>) -> Seq<char> {
    match find_pat(s, "?>"@, 0) {
        Some(p) => s.take(p + 2) + "\n<!DOCTYPE TS>"@ + s.skip(p + 2),
        None => "<!DOCTYPE TS>\n"@ + s,
    }
}

fn opt_element_exec(evs: &mut Vec<XmlOut>, name: &str, o: Option<String>)
    ensures
        outs_view(final(evs)@) == outs_view(old(evs)@) + opt_element(name@, opt_view(o)),
{
    match o {
        Some(t) => push_text_element(evs, name, no_attrs(), t),
        None => {
            assert(outs_view(evs@) + opt_element(name@, opt_view(o)) =~= outs_view(evs@));
        },
    }
}

fn push_locations(evs: &mut Vec<XmlOut>, rs: &Vec<SourceRef>)
    ensures
        outs_view(final(evs)@) == outs_view(old(evs)@) + flat_events(rs@, loc_events()),
{
    let ghost start = outs_view(evs@);
    let mut i: usize = 0;
    assert(start + flat_events(rs@.take(0), loc_events()) =~= start);
    while i < rs.len()
        invariant
            i <= rs.len(),
            outs_view(evs@) == start + flat_events(rs@.take(i as int), loc_events()),
        decreases rs.len() - i,
    {
        let r = &rs[i];
        let ghost before = outs_view(evs@);
        let mut attrs = no_attrs();
        attrs.push(("filename".to_owned(), r.file.clone()));
        assert(out_attrs_view(attrs@) =~= seq![("filename"@, r.file@)]);
        let line = match r.line {
            Some(l) => Some(decimal_string(l as u64)),
            None => None,
        };
        push_opt_attr(&mut attrs, "line", line);
        push_ev(evs, XmlOut::Empty("location".to_owned(), attrs));
        proof {
            assert(outs_view(evs@) == before + (loc_events())(rs@[i as int]));
            lemma_flat_events_step(rs@, i as int, loc_events());
            assert(outs_view(evs@) =~= start + flat_events(rs@.take(i + 1), loc_events()));
        }
        i = i + 1;
    }
    proof {
        lemma_flat_events_full(rs@, loc_events());
    }
}

fn push_forms(evs: &mut Vec<XmlOut>, forms: &Vec<String>)
    ensures
        outs_view(final(evs)@) == outs_view(old(evs)@) + flat_events(strings_view(forms@), form_events()),
{
    let ghost start = outs_view(evs@);
    let ghost fs = strings_view(forms@);
    let mut i: usize = 0;
    assert(start + flat_events(fs.take(0), form_events()) =~= start);
    while i < forms.len()
        invariant
            i <= forms.len(),
            fs == strings_view(forms@),
            outs_view(evs@) == start + flat_events(fs.take(i as int), form_events()),
        decreases forms.len() - i,
    {
        let ghost before = outs_view(evs@);
        push_text_element(evs, "numerusform", no_attrs(), forms[i].clone());
        proof {
            assert(outs_view(evs@) == before + (form_events())(fs[i as int]));
            lemma_flat_events_step(fs, i as int, form_events());
            assert(outs_view(evs@) =~= start + flat_events(fs.take(i + 1), form_events()));
        }
        i = i + 1;
    }
    proof {
        lemma_flat_events_full(fs, form_events());
    }
}

fn trans_attrs_exec(e: &I18nEntry) -> (a: Vec<(String, String)>)
    ensures
        out_attrs_view(a@) == trans_attrs(*e),
{
    let mut a = no_attrs();
    match &e.state {
        Some(s) => {
            let t = match state_to_qt_type(s) {
                Some(x) => Some(x.to_owned()),
                None => None,
            };
            push_opt_attr(&mut a, "type", t);
        },
        None => {},
    }
    a
}

fn push_translation(evs: &mut Vec<XmlOut>, e: &I18nEntry)
    ensures
        outs_view(final(evs)@) == outs_view(old(evs)@) + translation_events(*e),
{
    let ghost start = outs_view(evs@);
    let attrs = trans_attrs_exec(e);
    match &e.value {
        EntryValue::Plural(ps) => {
            push_ev(evs, XmlOut::Start("translation".to_owned(), attrs));
            let forms = plural_set_to_forms(ps);
            push_forms(evs, &forms);
            push_ev(evs, XmlOut::End("translation".to_owned()));
            assert(outs_view(evs@) =~= start + translation_events(*e));
        },
        EntryValue::Simple(t) => {
            push_text_element(evs, "translation", attrs, t.clone());
        },
        _ => {
            push_ev(evs, XmlOut::Start("translation".to_owned(), attrs));
            push_ev(evs, XmlOut::End("translation".to_owned()));
            assert(outs_view(evs@) =~= start + translation_events(*e));
        },
    }
}

fn is_translator(r: CommentRole) -> (b: bool)
    ensures
        b == (r == CommentRole::Translator),
{
    match r {
        CommentRole::Translator => true,
        _ => false,
    }
}

fn first_comment_exec(cs: &Vec<Comment>, translator: bool) -> (r: Option<String>)
    ensures
        opt_view(r) == first_comment(cs@, translator),
{
    let mut i: usize = 0;
    assert(cs@.skip(0) == cs@);
    while i < cs.len()
        invariant
            i <= cs@.len(),
            first_comment(cs@, translator) == first_comment(cs@.skip(i as int), translator),
        decreases cs@.len() - i,
    {
        assert(cs@.skip(i as int)[0] == cs@[i as int]);
        assert(cs@.skip(i as int).drop_first() == cs@.skip(i + 1));
        let c = &cs[i];
        if is_translator(c.role) == translator && !c.text.as_str().is_empty() {
            return Some(c.text.clone());
        }
        i = i + 1;
    }
    None
}

fn push_extras(evs: &mut Vec<XmlOut>, e: &I18nEntry)
    ensures
        outs_view(final(evs)@) == outs_view(old(evs)@) + extra_events(*e),
{
    let ghost start = outs_view(evs@);
    match &e.format_ext {
        Some(FormatExtension::QtLinguist(q)) => {
            let ghost ps = str_map_pairs(q.extra_elements);
            let n = str_map_len(&q.extra_elements);
            let mut i: usize = 0;
            assert(start + flat_events(ps.take(0), pair_events()) =~= start);
            while i < n
                invariant
                    i <= n,
                    n == ps.len(),
                    ps == str_map_pairs(q.extra_elements),
                    outs_view(evs@) == start + flat_events(ps.take(i as int), pair_events()),
                decreases n - i,
            {
                match str_map_get_index(&q.extra_elements, i) {
                    Some((k, v)) => {
                        let ghost before = outs_view(evs@);
                        push_text_element(evs, k.as_str(), no_attrs(), v.clone());
                        proof {
                            assert(outs_view(evs@) == before + (pair_events())(ps[i as int]));
                            lemma_flat_events_step(ps, i as int, pair_events());
                            assert(outs_view(evs@) =~= start + flat_events(ps.take(i + 1), pair_events()));
                        }
                    },
                    None => {},
                }
                i = i + 1;
            }
            proof {
                lemma_flat_events_full(ps, pair_events());
            }
        },
        _ => {
            assert(start + extra_events(*e) =~= start);
        },
    }
}

fn numerus_exec(e: &I18nEntry) -> (b: bool)
    ensures
        b == is_numerus(*e),
{
    match &e.value {
        EntryValue::Plural(_) => true,
        _ => match &e.format_ext {
            Some(FormatExtension::QtLinguist(q)) => match q.numerus {
                Some(x) => x,
                None => false,
            },
            _ => false,
        },
    }
}

/// Appends the events of one `<message>` for `entry`.
#[verifier::rlimit(100)]
#[verifier::spinoff_prover]
pub fn write_message(evs: &mut Vec<XmlOut>, entry: &I18nEntry)
    ensures
        outs_view(final(evs)@) == outs_view(old(evs)@) + message_events(*entry),
{
    let ghost s0 = outs_view(evs@);
    let mut attrs = no_attrs();
    if numerus_exec(entry) {
        attrs.push(("numerus".to_owned(), "yes".to_owned()));
        assert(out_attrs_view(attrs@) =~= seq![("numerus"@, "yes"@)]);
    }
    push_ev(evs, XmlOut::Start("message".to_owned(), attrs));
    let ghost s1 = outs_view(evs@);
    push_locations(evs, &entry.source_references);
    let ghost s2 = outs_view(evs@);
    opt_element_exec(evs, "source", clone_opt(&entry.source));
    assert(opt_element("source"@, opt_view(entry.source)) == source_events(entry.source));
    let ghost s3 = outs_view(evs@);
    opt_element_exec(evs, "oldsource", clone_opt(&entry.previous_source));
    let ghost s4 = outs_view(evs@);
    push_translation(evs, entry);
    let ghost s5 = outs_view(evs@);
    opt_element_exec(evs, "comment", first_comment_exec(&entry.comments, false));
    let ghost s6 = outs_view(evs@);
    opt_element_exec(evs, "translatorcomment", first_comment_exec(&entry.comments, true));
    let ghost s7 = outs_view(evs@);
    opt_element_exec(evs, "oldcomment", clone_opt(&entry.previous_comment));
    let ghost s8 = outs_view(evs@);
    push_extras(evs, entry);
    let ghost s9 = outs_view(evs@);
    push_ev(evs, XmlOut::End("message".to_owned()));
    proof {
        let e = *entry;
        let a = seq![
            XmlOutView::Start(
                "message"@,
                if is_numerus(e) {
                    seq![("numerus"@, "yes"@)]
                } else {
                    Seq::empty()
                },
            ),
        ];
        assert(s1 == s0 + a);
        let b = flat_events(e.source_references@, loc_events());
        let c = source_events(e.source);
        let d = opt_element("oldsource"@, opt_view(e.previous_source));
        let f = translation_events(e);
        let g = opt_element("comment"@, first_comment(e.comments@, false));
        let h = opt_element("translatorcomment"@, first_comment(e.comments@, true));
        let k = opt_element("oldcomment"@, opt_view(e.previous_comment));
        let x = extra_events(e);
        let z = seq![XmlOutView::End("message"@)];
        assert(outs_view(evs@) == s0 + a + b + c + d + f + g + h + k + x + z);
        reveal(message_events);
        assert(message_events(e) == a + b + c + d + f + g + h + k + x + z);
        assert(outs_view(evs@) =~= s0 + message_events(e));
    }
}


proof fn lemma_msg_groups_bounded(ps: Seq<(Seq<char>, I18nEntry)>)
    ensures
        forall|g: int, j: int|
            0 <= g < msg_groups(ps).len() && 0 <= j < msg_groups(ps)[g].1.len() ==> (#[trigger] msg_groups(ps)[g].1[j]) < ps.len(),
    decreases ps.len(),
{
    if ps.len() > 0 {
        let prev = msg_groups(ps.drop_last());
        lemma_msg_groups_bounded(ps.drop_last());
        lemma_key_index(prev, Some(ctx_name_of(ps.last().1.contexts@)));
    }
}

fn is_disambiguation(t: &ContextType) -> (b: bool)
    ensures
        b == (*t == ContextType::Disambiguation),
{
    match t {
        ContextType::Disambiguation => true,
        _ => false,
    }
}

fn ctx_name_exec(cs: &Vec<ContextEntry>) -> (r: String)
    ensures
        r@ == ctx_name_of(cs@),
{
    let mut i: usize = 0;
    assert(cs@.skip(0) == cs@);
    while i < cs.len()
        invariant
            i <= cs@.len(),
            ctx_name_of(cs@) == ctx_name_of(cs@.skip(i as int)),
        decreases cs@.len() - i,
    {
        assert(cs@.skip(i as int)[0] == cs@[i as int]);
        assert(cs@.skip(i as int).drop_first() == cs@.skip(i + 1));
        if is_disambiguation(&cs[i].context_type) {
            return cs[i].value.clone();
        }
        i = i + 1;
    }
    String::new()
}

fn ts_attrs_exec(res: &I18nResource) -> (a: Vec<(String, String)>)
    ensures
        out_attrs_view(a@) == ts_attrs(*res),
{
    let version = match str_map_get(&res.metadata.properties, "ts_version") {
        Some(v) => v.clone(),
        None => "2.1".to_owned(),
    };
    let mut a = no_attrs();
    a.push(("version".to_owned(), version));
    assert(out_attrs_view(a@) =~= seq![("version"@, version@)]);
    push_opt_attr(&mut a, "language", clone_opt(&res.metadata.locale));
    push_opt_attr(&mut a, "sourcelanguage", clone_opt(&res.metadata.source_locale));
    a
}

fn push_context(evs: &mut Vec<XmlOut>, res: &I18nResource, name: String, idxs: &Vec<usize>, Ghost(g): Ghost<(Option<Seq<char>>, Seq<usize>)>)
    requires
        idxs@ == g.1,
        opt_view(Some(name)) == g.0,
        forall|j: int| 0 <= j < g.1.len() ==> (#[trigger] g.1[j]) < entry_map_pairs(res.entries).len(),
    ensures
        outs_view(final(evs)@) == outs_view(old(evs)@) + (context_events(entry_map_pairs(res.entries)))(g),
{
    let ghost ps = entry_map_pairs(res.entries);
    let ghost s0 = outs_view(evs@);
    push_ev(evs, XmlOut::Start("context".to_owned(), no_attrs()));
    push_text_element(evs, "name", no_attrs(), name);
    let ghost mid = outs_view(evs@);
    let mut k: usize = 0;
    assert(mid + flat_events(idxs@.take(0), index_msg_events(ps)) =~= mid);
    while k < idxs.len()
        invariant
            k <= idxs.len(),
            idxs@ == g.1,
            ps == entry_map_pairs(res.entries),
            forall|j: int| 0 <= j < g.1.len() ==> (#[trigger] g.1[j]) < ps.len(),
            outs_view(evs@) == mid + flat_events(idxs@.take(k as int), index_msg_events(ps)),
        decreases idxs.len() - k,
    {
        let ix = idxs[k];
        assert(g.1[k as int] < ps.len());
        let ghost before = outs_view(evs@);
        match entry_map_get_index(&res.entries, ix) {
            Some((_key, entry)) => {
                write_message(evs, entry);
            },
            None => {},
        }
        proof {
            assert(outs_view(evs@) == before + (index_msg_events(ps))(idxs@[k as int]));
            lemma_flat_events_step(idxs@, k as int, index_msg_events(ps));
            assert(outs_view(evs@) =~= mid + flat_events(idxs@.take(k + 1), index_msg_events(ps)));
        }
        k = k + 1;
    }
    proof {
        lemma_flat_events_full(idxs@, index_msg_events(ps));
    }
    push_ev(evs, XmlOut::End("context".to_owned()));
    assert(outs_view(evs@) =~= s0 + (context_events(ps))(g));
}

/// The events of the whole document: the declaration and `<TS>` around one
/// `<context>` per context name, in order of first use, each holding the
/// messages of its entries in the resource's order.
pub fn document_events(resource: &I18nResource) -> (evs: Vec<XmlOut>)
    ensures
        outs_view(evs@) == qt_doc_events(*resource),
{
    let ghost ps = entry_map_pairs(resource.entries);
    let n = entry_map_len(&resource.entries);
    let mut groups = sec_map_new();
    let mut i: usize = 0;
    while i < n
        invariant
            i <= n,
            n == ps.len(),
            ps == entry_map_pairs(resource.entries),
            sec_map_pairs(groups) == msg_groups(ps.take(i as int)),
        decreases n - i,
    {
        match entry_map_get_index(&resource.entries, i) {
            Some((_key, entry)) => {
                sec_map_push(&mut groups, Some(ctx_name_exec(&entry.contexts)), i);
            },
            None => {},
        }
        assert(ps.take(i + 1).drop_last() =~= ps.take(i as int));
        i = i + 1;
    }
    assert(ps.take(n as int) =~= ps);
    let ghost gs = msg_groups(ps);
    proof {
        lemma_msg_groups_bounded(ps);
    }
    let mut evs: Vec<XmlOut> = Vec::new();
    assert(outs_view(evs@) =~= Seq::<XmlOutView>::empty());
    push_ev(&mut evs, XmlOut::Decl("1.0".to_owned(), Some("utf-8".to_owned())));
    push_ev(&mut evs, XmlOut::Start("TS".to_owned(), ts_attrs_exec(resource)));
    let ghost head = outs_view(evs@);
    let m = sec_map_len(&groups);
    let mut g: usize = 0;
    assert(head + flat_events(gs.take(0), context_events(ps)) =~= head);
    while g < m
        invariant
            g <= m,
            m == gs.len(),
            sec_map_pairs(groups) == gs,
            gs == msg_groups(ps),
            ps == entry_map_pairs(resource.entries),
            forall|a: int, j: int| 0 <= a < gs.len() && 0 <= j < gs[a].1.len() ==> (#[trigger] gs[a].1[j]) < ps.len(),
            outs_view(evs@) == head + flat_events(gs.take(g as int), context_events(ps)),
        decreases m - g,
    {
        match sec_map_get_index(&groups, g) {
            Some((key, idxs)) => {
                let name = match key {
                    Some(k) => k,
                    None => String::new(),
                };
                assert forall|j: int| 0 <= j < gs[g as int].1.len() implies (#[trigger] gs[g as int].1[j]) < ps.len() by {}
                let ghost before = outs_view(evs@);
                let ghost gv = (match gs[g as int].0 { Some(x) => Some(x), None => Some(Seq::<char>::empty()) }, gs[g as int].1);
                push_context(&mut evs, resource, name, &idxs, Ghost(gv));
                proof {
                    assert((context_events(ps))(gv) == (context_events(ps))(gs[g as int]));
                    lemma_flat_events_step(gs, g as int, context_events(ps));
                    assert(outs_view(evs@) =~= head + flat_events(gs.take(g + 1), context_events(ps)));
                }
            },
            None => {},
        }
        g = g + 1;
    }
    proof {
        lemma_flat_events_full(gs, context_events(ps));
    }
    push_ev(&mut evs, XmlOut::End("TS".to_owned()));
    assert(outs_view(evs@) =~= qt_doc_events(*resource));
    evs
}

/// Puts `<!DOCTYPE TS>` after the XML declaration.
pub fn insert_doctype(s: &str) -> (r: String)
    ensures
        r@ == with_doctype(s@),
{
    let c = str_chars(s);
    let pat: Vec<char> = vec!['?', '>'];
    proof {
        reveal_strlit("?>");
        assert(pat@ =~= "?>"@);
        lemma_find_pat(c@, pat@, 0);
    }
    let mut out = String::new();
    match find_pat_from(c.as_slice(), pat.as_slice(), 0) {
        Some(p) => {
            assert(find_pat(c@, pat@, 0) == Some(p as int));
            assert(p + 2 <= c@.len());
            assert(c@.len() == c.len());
            push_range(&mut out, c.as_slice(), 0, p + 2);
            out.append("\n<!DOCTYPE TS>");
            push_range(&mut out, c.as_slice(), p + 2, c.len());
            assert(c@.subrange(0, p + 2) =~= c@.take(p + 2));
            assert(c@.subrange(p + 2, c@.len() as int) =~= c@.skip(p + 2));
        },
        None => {
            out.append("<!DOCTYPE TS>\n");
            out.append(s);
        },
    }
    out
}

impl Writer {
    /// Writes the resource as a `.ts` document indented by two spaces, with
    /// `<!DOCTYPE TS>` after the declaration.
    pub fn write(&self, resource: &I18nResource) -> (r: Result<Vec<u8>, WriteError>)
        ensures
            r matches Ok(b) ==> valid_utf8(xml_written(qt_doc_events(*resource), 32u8, 2usize)) && b@ == encode_utf8(
                with_doctype(decode_utf8(xml_written(qt_doc_events(*resource), 32u8, 2usize))),
            ),
            valid_utf8(xml_written(qt_doc_events(*resource), 32u8, 2usize)) ==> r is Ok,
            r matches Err(e) ==> e is Serialization,
    {
        let evs = document_events(resource);
        let buf = match write_xml(&evs, 32u8, 2) {
            Ok(b) => b,
            Err(m) => return Err(WriteError::Serialization(m)),
        };
        let out = match std::str::from_utf8(buf.as_slice()) {
            Ok(s) => insert_doctype(s),
            Err(e) => return Err(WriteError::Serialization(utf8_error_text(&e))),
        };
        Ok(string_bytes(&out))
    }

    pub fn capabilities(&self) -> (c: FormatCapabilities)
        ensures
            c == capabilities_spec(),
    {
        Parser.capabilities()
    }
}

impl super::FormatParser for Parser {
    fn detect(&self, extension: &str, content: &[u8]) -> (c: Confidence)
        ensures
            c == spec_detect(extension@, content@),
    {
        Parser::detect(self, extension, content)
    }

    fn parse(&self, content: &[u8]) -> (r: Result<I18nResource, ParseError>)
        ensures
            parse_ok(r, content@),
    {
        Parser::parse(self, content)
    }

    fn capabilities(&self) -> (c: FormatCapabilities)
        ensures
            c == capabilities_spec(),
    {
        Parser::capabilities(self)
    }
}

impl super::FormatWriter for Writer {
    fn write(&self, resource: &I18nResource) -> (r: Result<Vec<u8>, WriteError>)
        ensures
            r matches Ok(b) ==> valid_utf8(xml_written(qt_doc_events(*resource), 32u8, 2usize)) && b@ == encode_utf8(
                with_doctype(decode_utf8(xml_written(qt_doc_events(*resource), 32u8, 2usize))),
            ),
            valid_utf8(xml_written(qt_doc_events(*resource), 32u8, 2usize)) ==> r is Ok,
            r matches Err(e) ==> e is Serialization,
    {
        Writer::write(self, resource)
    }

    fn capabilities(&self) -> (c: FormatCapabilities)
        ensures
            c == capabilities_spec(),
    {
        Writer::capabilities(self)
    }
}

} // verus!
