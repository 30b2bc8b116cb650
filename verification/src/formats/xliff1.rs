//! XLIFF 1.2: `<file>` with `<trans-unit>` elements holding `<source>`,
//! `<target>`, `<note>`, `<context-group>` and `<alt-trans>`.
use vstd::prelude::*;
use indexmap::IndexMap;
use crate::collections::{
    entry_map_pairs, entry_map_new, entry_map_insert, map_insert, map_get, pairs_model, lemma_pairs_model_insert,
    entry_map_len, entry_map_get_index, str_map_pairs, str_map_new, sec_map_pairs, sec_push, sec_map_new, sec_map_push,
    sec_map_len, sec_map_get_index, key_index, lemma_key_index,
};
use crate::ir::{
    I18nResource, I18nEntry, ResourceMetadata, FormatId, EntryValue, FormatCapabilities, FormatExtension, Xliff1Ext,
    Comment, CommentRole, AnnotationTarget, ContextEntry, ContextType, TranslationState, AlternativeTranslation,
};
use crate::text::{
    str_chars, string_of, str_eq, str_contains, contains, split_char, split_at_char, parse_u32_spec, parse_u32,
    lemma_split_char_len, decimal, push_decimal, decimal_string,
};
use crate::xml::{
    XmlEvent, XmlEventView, event_view, events_view, attrs_view, opt_text, xml_read, read_xml, XmlOut, XmlOutView,
    out_view, outs_view, out_attrs_view, xml_written, write_xml, attr_get, get_attr, opt_attr, text_element, flat_events,
    lemma_flat_events_step, lemma_flat_events_full, push_ev, push_text_element, push_opt_attr, no_attrs,
};
use vstd::utf8::{valid_utf8, decode_utf8};
use super::{clone_opt, Confidence, ParseError, WriteError, opt_view};

verus! {

pub struct Parser;

pub struct Writer;

// ---------------------------------------------------------------------------
// Mapping helpers
// ---------------------------------------------------------------------------

/// The translation state of an XLIFF `state` value.
pub open spec fn spec_state(s: Seq<char>) -> Option<TranslationState> {
    if s == "new"@ {
        Some(TranslationState::New)
    } else if s == "translated"@ {
        Some(TranslationState::Translated)
    } else if s == "needs-translation"@ {
        Some(TranslationState::NeedsTranslation)
    } else if s == "needs-adaptation"@ {
        Some(TranslationState::NeedsAdaptation)
    } else if s == "needs-l10n"@ {
        Some(TranslationState::NeedsL10n)
    } else if s == "needs-review-translation"@ {
        Some(TranslationState::NeedsReview)
    } else if s == "needs-review-adaptation"@ {
        Some(TranslationState::NeedsReviewAdaptation)
    } else if s == "needs-review-l10n"@ {
        Some(TranslationState::NeedsReviewL10n)
    } else if s == "signed-off"@ {
        Some(TranslationState::Reviewed)
    } else if s == "final"@ {
        Some(TranslationState::Final)
    } else {
        None
    }
}

/// Maps an XLIFF `state` value to a translation state.
pub fn map_xliff_state(state: &str) -> (r: Option<TranslationState>)
    ensures
        r == spec_state(state@),
{
    if str_eq(state, "new") {
        Some(TranslationState::New)
    } else if str_eq(state, "translated") {
        Some(TranslationState::Translated)
    } else if str_eq(state, "needs-translation") {
        Some(TranslationState::NeedsTranslation)
    } else if str_eq(state, "needs-adaptation") {
        Some(TranslationState::NeedsAdaptation)
    } else if str_eq(state, "needs-l10n") {
        Some(TranslationState::NeedsL10n)
    } else if str_eq(state, "needs-review-translation") {
        Some(TranslationState::NeedsReview)
    } else if str_eq(state, "needs-review-adaptation") {
        Some(TranslationState::NeedsReviewAdaptation)
    } else if str_eq(state, "needs-review-l10n") {
        Some(TranslationState::NeedsReviewL10n)
    } else if str_eq(state, "signed-off") {
        Some(TranslationState::Reviewed)
    } else if str_eq(state, "final") {
        Some(TranslationState::Final)
    } else {
        None
    }
}

/// The XLIFF `state` value written for a translation state; states without
/// an XLIFF 1.2 value take the nearest one.
pub open spec fn spec_state_str(s: TranslationState) -> Seq<char> {
    match s {
        TranslationState::New => "new"@,
        TranslationState::Translated => "translated"@,
        TranslationState::NeedsTranslation => "needs-translation"@,
        TranslationState::NeedsAdaptation => "needs-adaptation"@,
        TranslationState::NeedsL10n => "needs-l10n"@,
        TranslationState::NeedsReview => "needs-review-translation"@,
        TranslationState::NeedsReviewAdaptation => "needs-review-adaptation"@,
        TranslationState::NeedsReviewL10n => "needs-review-l10n"@,
        TranslationState::Reviewed => "signed-off"@,
        TranslationState::Final => "final"@,
        TranslationState::Stale => "needs-review-translation"@,
        TranslationState::Vanished => "needs-translation"@,
        TranslationState::Obsolete => "needs-translation"@,
    }
}

/// Reading back a written state: each state that XLIFF 1.2 names (all but
/// stale, vanished and obsolete, which are written as the nearest value)
/// reads back as itself from the value written for it; and a value that
/// reads as a state is exactly the value written for that state. Every
/// comment role reads back as itself from the note written for it.
pub proof fn lemma_state_round_trip(st: TranslationState, s: Seq<char>)
    ensures
        spec_note_role(spec_role_from(CommentRole::Developer)) == CommentRole::Developer,
        spec_note_role(spec_role_from(CommentRole::Translator)) == CommentRole::Translator,
        spec_note_role(spec_role_from(CommentRole::Extracted)) == CommentRole::Extracted,
        spec_note_role(spec_role_from(CommentRole::General)) == CommentRole::General,
        !(st is Stale || st is Vanished || st is Obsolete) ==> spec_state(spec_state_str(st)) == Some(st),
        spec_state(s) matches Some(x) ==> spec_state_str(x) == s,
{
    reveal_strlit("new");
    reveal_strlit("translated");
    reveal_strlit("needs-translation");
    reveal_strlit("needs-adaptation");
    reveal_strlit("needs-l10n");
    reveal_strlit("needs-review-translation");
    reveal_strlit("needs-review-adaptation");
    reveal_strlit("needs-review-l10n");
    reveal_strlit("signed-off");
    reveal_strlit("final");
    reveal_strlit("developer");
    reveal_strlit("translator");
    reveal_strlit("extracted");
    assert("developer"@ != "translator"@) by { assert("developer"@.len() != "translator"@.len()); }
    assert("developer"@ != "extracted"@) by { assert("developer"@[0] != "extracted"@[0]); }
    assert("translator"@ != "extracted"@) by { assert("translator"@.len() != "extracted"@.len()); }
    assert("new"@ != "translated"@) by { assert("new"@.len() != "translated"@.len()); }
    assert("new"@ != "needs-translation"@) by { assert("new"@.len() != "needs-translation"@.len()); }
    assert("new"@ != "needs-adaptation"@) by { assert("new"@.len() != "needs-adaptation"@.len()); }
    assert("new"@ != "needs-l10n"@) by { assert("new"@.len() != "needs-l10n"@.len()); }
    assert("new"@ != "needs-review-translation"@) by { assert("new"@.len() != "needs-review-translation"@.len()); }
    assert("new"@ != "needs-review-adaptation"@) by { assert("new"@.len() != "needs-review-adaptation"@.len()); }
    assert("new"@ != "needs-review-l10n"@) by { assert("new"@.len() != "needs-review-l10n"@.len()); }
    assert("new"@ != "signed-off"@) by { assert("new"@.len() != "signed-off"@.len()); }
    assert("new"@ != "final"@) by { assert("new"@.len() != "final"@.len()); }
    assert("translated"@ != "needs-translation"@) by { assert("translated"@.len() != "needs-translation"@.len()); }
    assert("translated"@ != "needs-adaptation"@) by { assert("translated"@.len() != "needs-adaptation"@.len()); }
    assert("translated"@ != "needs-l10n"@) by { assert("translated"@[0] != "needs-l10n"@[0]); }
    assert("translated"@ != "needs-review-translation"@) by { assert("translated"@.len() != "needs-review-translation"@.len()); }
    assert("translated"@ != "needs-review-adaptation"@) by { assert("translated"@.len() != "needs-review-adaptation"@.len()); }
    assert("translated"@ != "needs-review-l10n"@) by { assert("translated"@.len() != "needs-review-l10n"@.len()); }
    assert("translated"@ != "signed-off"@) by { assert("translated"@[0] != "signed-off"@[0]); }
    assert("translated"@ != "final"@) by { assert("translated"@.len() != "final"@.len()); }
    assert("needs-translation"@ != "needs-adaptation"@) by { assert("needs-translation"@.len() != "needs-adaptation"@.len()); }
    assert("needs-translation"@ != "needs-l10n"@) by { assert("needs-translation"@.len() != "needs-l10n"@.len()); }
    assert("needs-translation"@ != "needs-review-translation"@) by { assert("needs-translation"@.len() != "needs-review-translation"@.len()); }
    assert("needs-translation"@ != "needs-review-adaptation"@) by { assert("needs-translation"@.len() != "needs-review-adaptation"@.len()); }
    assert("needs-translation"@ != "needs-review-l10n"@) by { assert("needs-translation"@[6] != "needs-review-l10n"@[6]); }
    assert("needs-translation"@ != "signed-off"@) by { assert("needs-translation"@.len() != "signed-off"@.len()); }
    assert("needs-translation"@ != "final"@) by { assert("needs-translation"@.len() != "final"@.len()); }
    assert("needs-adaptation"@ != "needs-l10n"@) by { assert("needs-adaptation"@.len() != "needs-l10n"@.len()); }
    assert("needs-adaptation"@ != "needs-review-translation"@) by { assert("needs-adaptation"@.len() != "needs-review-translation"@.len()); }
    assert("needs-adaptation"@ != "needs-review-adaptation"@) by { assert("needs-adaptation"@.len() != "needs-review-adaptation"@.len()); }
    assert("needs-adaptation"@ != "needs-review-l10n"@) by { assert("needs-adaptation"@.len() != "needs-review-l10n"@.len()); }
    assert("needs-adaptation"@ != "signed-off"@) by { assert("needs-adaptation"@.len() != "signed-off"@.len()); }
    assert("needs-adaptation"@ != "final"@) by { assert("needs-adaptation"@.len() != "final"@.len()); }
    assert("needs-l10n"@ != "needs-review-translation"@) by { assert("needs-l10n"@.len() != "needs-review-translation"@.len()); }
    assert("needs-l10n"@ != "needs-review-adaptation"@) by { assert("needs-l10n"@.len() != "needs-review-adaptation"@.len()); }
    assert("needs-l10n"@ != "needs-review-l10n"@) by { assert("needs-l10n"@.len() != "needs-review-l10n"@.len()); }
    assert("needs-l10n"@ != "signed-off"@) by { assert("needs-l10n"@[0] != "signed-off"@[0]); }
    assert("needs-l10n"@ != "final"@) by { assert("needs-l10n"@.len() != "final"@.len()); }
    assert("needs-review-translation"@ != "needs-review-adaptation"@) by { assert("needs-review-translation"@.len() != "needs-review-adaptation"@.len()); }
    assert("needs-review-translation"@ != "needs-review-l10n"@) by { assert("needs-review-translation"@.len() != "needs-review-l10n"@.len()); }
    assert("needs-review-translation"@ != "signed-off"@) by { assert("needs-review-translation"@.len() != "signed-off"@.len()); }
    assert("needs-review-translation"@ != "final"@) by { assert("needs-review-translation"@.len() != "final"@.len()); }
    assert("needs-review-adaptation"@ != "needs-review-l10n"@) by { assert("needs-review-adaptation"@.len() != "needs-review-l10n"@.len()); }
    assert("needs-review-adaptation"@ != "signed-off"@) by { assert("needs-review-adaptation"@.len() != "signed-off"@.len()); }
    assert("needs-review-adaptation"@ != "final"@) by { assert("needs-review-adaptation"@.len() != "final"@.len()); }
    assert("needs-review-l10n"@ != "signed-off"@) by { assert("needs-review-l10n"@.len() != "signed-off"@.len()); }
    assert("needs-review-l10n"@ != "final"@) by { assert("needs-review-l10n"@.len() != "final"@.len()); }
    assert("signed-off"@ != "final"@) by { assert("signed-off"@.len() != "final"@.len()); }
}

/// Maps a translation state to its XLIFF `state` value.
pub fn state_to_xliff(state: &TranslationState) -> (r: &'static str)
    ensures
        r@ == spec_state_str(*state),
{
    match state {
        TranslationState::New => "new",
        TranslationState::Translated => "translated",
        TranslationState::NeedsTranslation => "needs-translation",
        TranslationState::NeedsAdaptation => "needs-adaptation",
        TranslationState::NeedsL10n => "needs-l10n",
        TranslationState::NeedsReview => "needs-review-translation",
        TranslationState::NeedsReviewAdaptation => "needs-review-adaptation",
        TranslationState::NeedsReviewL10n => "needs-review-l10n",
        TranslationState::Reviewed => "signed-off",
        TranslationState::Final => "final",
        TranslationState::Stale => "needs-review-translation",
        TranslationState::Vanished => "needs-translation",
        TranslationState::Obsolete => "needs-translation",
    }
}

/// The comment role of a note's `from` attribute.
pub open spec fn spec_note_role(from: Option<Seq<char>>) -> CommentRole {
    match from {
        Some(f) => if f == "developer"@ {
            CommentRole::Developer
        } else if f == "translator"@ {
            CommentRole::Translator
        } else if f == "extracted"@ {
            CommentRole::Extracted
        } else {
            CommentRole::General
        },
        None => CommentRole::General,
    }
}

/// Maps a note's `from` attribute to a comment role.
pub fn map_note_role(from: Option<&str>) -> (r: CommentRole)
    ensures
        r == spec_note_role(match from {
            Some(f) => Some(f@),
            None => None,
        }),
{
    match from {
        Some(f) => if str_eq(f, "developer") {
            CommentRole::Developer
        } else if str_eq(f, "translator") {
            CommentRole::Translator
        } else if str_eq(f, "extracted") {
            CommentRole::Extracted
        } else {
            CommentRole::General
        },
        None => CommentRole::General,
    }
}

/// The `from` attribute written for a comment role, none for a general one.
pub open spec fn spec_role_from(role: CommentRole) -> Option<Seq<char>> {
    match role {
        CommentRole::Developer => Some("developer"@),
        CommentRole::Translator => Some("translator"@),
        CommentRole::Extracted => Some("extracted"@),
        CommentRole::General => None,
    }
}

/// Maps a comment role to a note's `from` attribute.
pub fn role_to_from(role: &CommentRole) -> (r: Option<&'static str>)
    ensures
        match r {
            Some(s) => spec_role_from(*role) == Some(s@),
            None => spec_role_from(*role) is None,
        },
{
    match role {
        CommentRole::Developer => Some("developer"),
        CommentRole::Translator => Some("translator"),
        CommentRole::Extracted => Some("extracted"),
        CommentRole::General => None,
    }
}

/// The annotation target of a note's `annotates` attribute.
pub open spec fn spec_annotates(a: Option<Seq<char>>) -> Option<AnnotationTarget> {
    match a {
        Some(x) => if x == "source"@ {
            Some(AnnotationTarget::Source)
        } else if x == "target"@ {
            Some(AnnotationTarget::Target)
        } else if x == "general"@ {
            Some(AnnotationTarget::General)
        } else {
            None
        },
        None => None,
    }
}

/// Maps a note's `annotates` attribute to an annotation target.
pub fn map_annotates(annotates: Option<&str>) -> (r: Option<AnnotationTarget>)
    ensures
        r == spec_annotates(match annotates {
            Some(a) => Some(a@),
            None => None,
        }),
{
    match annotates {
        Some(a) => if str_eq(a, "source") {
            Some(AnnotationTarget::Source)
        } else if str_eq(a, "target") {
            Some(AnnotationTarget::Target)
        } else if str_eq(a, "general") {
            Some(AnnotationTarget::General)
        } else {
            None
        },
        None => None,
    }
}

pub open spec fn spec_annotates_str(t: AnnotationTarget) -> Seq<char> {
    match t {
        AnnotationTarget::Source => "source"@,
        AnnotationTarget::Target => "target"@,
        AnnotationTarget::General => "general"@,
    }
}

/// Maps an annotation target to a note's `annotates` attribute.
pub fn annotates_to_str(target: &AnnotationTarget) -> (r: &'static str)
    ensures
        r@ == spec_annotates_str(*target),
{
    match target {
        AnnotationTarget::Source => "source",
        AnnotationTarget::Target => "target",
        AnnotationTarget::General => "general",
    }
}

/// The context type of a `context-type` attribute: the three XLIFF types,
/// any other value kept as a custom type.
pub open spec fn ctx_type_is(c: ContextType, ct: Seq<char>) -> bool {
    if ct == "sourcefile"@ {
        c == ContextType::SourceFile
    } else if ct == "linenumber"@ {
        c == ContextType::LineNumber
    } else if ct == "element"@ {
        c == ContextType::Element
    } else {
        c matches ContextType::Custom(s) && s@ == ct
    }
}

/// Maps a `context-type` attribute to a context type.
pub fn map_context_type(ct: &str) -> (r: ContextType)
    ensures
        ctx_type_is(r, ct@),
{
    if str_eq(ct, "sourcefile") {
        ContextType::SourceFile
    } else if str_eq(ct, "linenumber") {
        ContextType::LineNumber
    } else if str_eq(ct, "element") {
        ContextType::Element
    } else {
        ContextType::Custom(ct.to_owned())
    }
}

/// The `context-type` attribute written for a context type.
pub open spec fn spec_ctx_type_str(c: ContextType) -> Seq<char> {
    match c {
        ContextType::SourceFile => "sourcefile"@,
        ContextType::LineNumber => "linenumber"@,
        ContextType::Element => "element"@,
        ContextType::Disambiguation => "x-disambiguation"@,
        ContextType::Description => "x-description"@,
        ContextType::Custom(s) => s@,
    }
}

/// Maps a context type to its `context-type` attribute.
pub fn context_type_to_str(ct: &ContextType) -> (r: String)
    ensures
        r@ == spec_ctx_type_str(*ct),
{
    match ct {
        ContextType::SourceFile => "sourcefile".to_owned(),
        ContextType::LineNumber => "linenumber".to_owned(),
        ContextType::Element => "element".to_owned(),
        ContextType::Disambiguation => "x-disambiguation".to_owned(),
        ContextType::Description => "x-description".to_owned(),
        ContextType::Custom(s) => s.clone(),
    }
}



/// The last part of a name after `:` (the name without its prefix).
pub open spec fn local_name(n: Seq<char>) -> Seq<char> {
    split_char(n, ':').last()
}

pub fn local_name_exec(n: &String) -> (r: String)
    ensures
        r@ == local_name(n@),
{
    let c = str_chars(n.as_str());
    let parts = split_at_char(c.as_slice(), ':');
    proof {
        lemma_split_char_len(n@, ':');
    }
    let k = parts.len() - 1;
    assert(parts@.map_values(|l: Vec<char>| l@)[k as int] == parts@[k as int]@);
    string_of(parts[k].as_slice())
}

/// What `str::parse::<u8>` gives.
pub open spec fn parse_u8_spec(s: Seq<char>) -> Option<u8> {
    match parse_u32_spec(s) {
        Some(n) => if n <= 255 { Some(n as u8) } else { None },
        None => None,
    }
}

fn parse_u8(s: &String) -> (r: Option<u8>)
    ensures
        r == parse_u8_spec(s@),
{
    let c = str_chars(s.as_str());
    match parse_u32(c.as_slice()) {
        Some(n) => if n <= 255 { Some(n as u8) } else { None },
        None => None,
    }
}

pub open spec fn capabilities_spec() -> FormatCapabilities {
    FormatCapabilities {
        comments: true,
        context: true,
        source_string: true,
        translatable_flag: true,
        translation_state: true,
        max_width: true,
        inline_markup: true,
        alternatives: true,
        source_references: true,
        custom_properties: true,
        ..FormatCapabilities::spec_none()
    }
}


// ---------------------------------------------------------------------------
// Reading: the event state machine
// ---------------------------------------------------------------------------

/// Where the reader is.
#[derive(PartialEq, Eq, Structural)]
pub enum PState {
    Root,
    File,
    Body,
    TransUnit,
    Source,
    Target,
    Note,
    ContextGroup,
    Context,
    AltTrans,
}

/// A note being read.
pub struct NoteV {
    pub text: Seq<char>,
    pub from: Option<Seq<char>>,
    pub priority: Option<u8>,
    pub annotates: Option<Seq<char>>,
}

/// An alternative translation being read.
pub struct AltV {
    pub match_quality: Option<Seq<char>>,
    pub origin: Option<Seq<char>>,
    pub source: Option<Seq<char>>,
    pub target: Option<Seq<char>>,
}

/// A translation unit being read.
pub struct TuV {
    pub id: Seq<char>,
    pub source: Seq<char>,
    pub target: Option<Seq<char>>,
    pub target_state: Option<Seq<char>>,
    pub target_state_qualifier: Option<Seq<char>>,
    pub approved: Option<bool>,
    pub translatable: Option<bool>,
    pub max_width: Option<u32>,
    pub size_unit: Option<Seq<char>>,
    pub restype: Option<Seq<char>>,
    pub resname: Option<Seq<char>>,
    pub notes: Seq<NoteV>,
    pub contexts: Seq<(Seq<char>, Seq<char>, Option<Seq<char>>)>,
    pub alternatives: Seq<AltV>,
    pub cg_purpose: Option<Seq<char>>,
}

/// The whole reading state.
pub struct XState {
    pub state: PState,
    pub tu: Option<TuV>,
    pub note: Option<NoteV>,
    pub ctx_type: Option<Seq<char>>,
    pub in_alt_source: bool,
    pub in_alt_target: bool,
    pub text: Seq<char>,
    pub source_locale: Option<Seq<char>>,
    pub locale: Option<Seq<char>>,
    pub datatype: Option<Seq<char>>,
    pub original: Option<Seq<char>>,
    pub entries: Seq<(Seq<char>, TuV)>,
}

pub open spec fn init_state() -> XState {
    XState {
        state: PState::Root,
        tu: None,
        note: None,
        ctx_type: None,
        in_alt_source: false,
        in_alt_target: false,
        text: Seq::empty(),
        source_locale: None,
        locale: None,
        datatype: None,
        original: None,
        entries: Seq::empty(),
    }
}

pub open spec fn yes(o: Option<Seq<char>>) -> Option<bool> {
    match o {
        Some(v) => Some(v == "yes"@),
        None => None,
    }
}

pub open spec fn opt_u32(o: Option<Seq<char>>) -> Option<u32> {
    match o {
        Some(v) => parse_u32_spec(v),
        None => None,
    }
}

pub open spec fn opt_u8(o: Option<Seq<char>>) -> Option<u8> {
    match o {
        Some(v) => parse_u8_spec(v),
        None => None,
    }
}

/// A translation unit opened by a `<trans-unit>` tag.
pub open spec fn new_tu(a: Seq<(Seq<char>, Seq<u8>)>) -> TuV {
    TuV {
        id: match attr_get(a, "id"@) {
            Some(v) => v,
            None => Seq::empty(),
        },
        source: Seq::empty(),
        target: None,
        target_state: None,
        target_state_qualifier: None,
        approved: yes(attr_get(a, "approved"@)),
        translatable: yes(attr_get(a, "translate"@)),
        max_width: opt_u32(attr_get(a, "maxwidth"@)),
        size_unit: attr_get(a, "size-unit"@),
        restype: attr_get(a, "restype"@),
        resname: attr_get(a, "resname"@),
        notes: Seq::empty(),
        contexts: Seq::empty(),
        alternatives: Seq::empty(),
        cg_purpose: None,
    }
}

/// A start (or empty) tag.
pub open spec fn start_step(st: XState, name: Seq<char>, a: Seq<(Seq<char>, Seq<u8>)>) -> XState {
    let ln = local_name(name);
    if ln == "file"@ {
        XState {
            state: PState::File,
            source_locale: attr_get(a, "source-language"@),
            locale: attr_get(a, "target-language"@),
            datatype: attr_get(a, "datatype"@),
            original: attr_get(a, "original"@),
            ..st
        }
    } else if ln == "body"@ {
        XState { state: PState::Body, ..st }
    } else if ln == "trans-unit"@ {
        XState { state: PState::TransUnit, tu: Some(new_tu(a)), ..st }
    } else if ln == "source"@ {
        if st.state == PState::AltTrans {
            XState { in_alt_source: true, text: Seq::empty(), ..st }
        } else {
            XState { state: PState::Source, text: Seq::empty(), ..st }
        }
    } else if ln == "target"@ {
        if st.state == PState::AltTrans {
            XState { in_alt_target: true, text: Seq::empty(), ..st }
        } else {
            XState {
                state: PState::Target,
                tu: match st.tu {
                    Some(t) => Some(
                        TuV {
                            target_state: attr_get(a, "state"@),
                            target_state_qualifier: attr_get(a, "state-qualifier"@),
                            ..t
                        },
                    ),
                    None => None,
                },
                text: Seq::empty(),
                ..st
            }
        }
    } else if ln == "note"@ {
        XState {
            state: PState::Note,
            note: Some(
                NoteV {
                    text: Seq::empty(),
                    from: attr_get(a, "from"@),
                    priority: opt_u8(attr_get(a, "priority"@)),
                    annotates: attr_get(a, "annotates"@),
                },
            ),
            text: Seq::empty(),
            ..st
        }
    } else if ln == "context-group"@ {
        XState {
            state: PState::ContextGroup,
            tu: match st.tu {
                Some(t) => Some(TuV { cg_purpose: attr_get(a, "purpose"@), ..t }),
                None => None,
            },
            ..st
        }
    } else if ln == "context"@ {
        XState { state: PState::Context, ctx_type: attr_get(a, "context-type"@), text: Seq::empty(), ..st }
    } else if ln == "alt-trans"@ {
        XState {
            state: PState::AltTrans,
            tu: match st.tu {
                Some(t) => Some(
                    TuV {
                        alternatives: t.alternatives.push(
                            AltV {
                                match_quality: attr_get(a, "match-quality"@),
                                origin: attr_get(a, "origin"@),
                                source: None,
                                target: None,
                            },
                        ),
                        ..t
                    },
                ),
                None => None,
            },
            ..st
        }
    } else {
        st
    }
}

/// The last alternative with its source (or target) set to `text`.
pub open spec fn set_last_alt(alts: Seq<AltV>, text: Seq<char>, is_source: bool) -> Seq<AltV> {
    if alts.len() == 0 {
        alts
    } else if is_source {
        alts.update(alts.len() - 1, AltV { source: Some(text), ..alts.last() })
    } else {
        alts.update(alts.len() - 1, AltV { target: Some(text), ..alts.last() })
    }
}

pub open spec fn map_tu(tu: Option<TuV>, f: spec_fn(TuV) -> TuV) -> Option<TuV> {
    match tu {
        Some(t) => Some(f(t)),
        None => None,
    }
}

/// An end tag; a closed translation unit is given back.
pub open spec fn end_step(st: XState, name: Seq<char>) -> (XState, Option<TuV>) {
    let ln = local_name(name);
    if ln == "source"@ {
        if st.in_alt_source {
            (
                XState {
                    tu: map_tu(st.tu, |t: TuV| TuV { alternatives: set_last_alt(t.alternatives, st.text, true), ..t }),
                    in_alt_source: false,
                    text: Seq::empty(),
                    ..st
                },
                None,
            )
        } else {
            (
                XState {
                    tu: map_tu(st.tu, |t: TuV| TuV { source: st.text, ..t }),
                    state: PState::TransUnit,
                    text: Seq::empty(),
                    ..st
                },
                None,
            )
        }
    } else if ln == "target"@ {
        if st.in_alt_target {
            (
                XState {
                    tu: map_tu(st.tu, |t: TuV| TuV { alternatives: set_last_alt(t.alternatives, st.text, false), ..t }),
                    in_alt_target: false,
                    text: Seq::empty(),
                    ..st
                },
                None,
            )
        } else {
            (
                XState {
                    tu: map_tu(st.tu, |t: TuV| TuV { target: Some(st.text), ..t }),
                    state: PState::TransUnit,
                    text: Seq::empty(),
                    ..st
                },
                None,
            )
        }
    } else if ln == "note"@ {
        (
            XState {
                note: None,
                tu: match st.note {
                    Some(n) => map_tu(st.tu, |t: TuV| TuV { notes: t.notes.push(NoteV { text: st.text, ..n }), ..t }),
                    None => st.tu,
                },
                state: PState::TransUnit,
                text: Seq::empty(),
                ..st
            },
            None,
        )
    } else if ln == "context"@ {
        match st.tu {
            Some(t) => (
                XState {
                    tu: Some(
                        TuV {
                            contexts: t.contexts.push(
                                (
                                    match st.ctx_type {
                                        Some(c) => c,
                                        None => Seq::empty(),
                                    },
                                    st.text,
                                    t.cg_purpose,
                                ),
                            ),
                            ..t
                        },
                    ),
                    ctx_type: None,
                    state: PState::ContextGroup,
                    text: Seq::empty(),
                    ..st
                },
                None,
            ),
            None => (XState { state: PState::ContextGroup, text: Seq::empty(), ..st }, None),
        }
    } else if ln == "context-group"@ {
        (XState { tu: map_tu(st.tu, |t: TuV| TuV { cg_purpose: None, ..t }), state: PState::TransUnit, ..st }, None)
    } else if ln == "alt-trans"@ {
        (XState { state: PState::TransUnit, ..st }, None)
    } else if ln == "trans-unit"@ {
        (XState { tu: None, state: PState::Body, ..st }, st.tu)
    } else if ln == "body"@ {
        (XState { state: PState::File, ..st }, None)
    } else if ln == "file"@ {
        (XState { state: PState::Root, ..st }, None)
    } else {
        (st, None)
    }
}

/// One event: a closed translation unit becomes an entry under its id.
pub open spec fn xstep(st: XState, ev: XmlEventView) -> XState {
    match ev {
        XmlEventView::Start(n, a) => start_step(st, n, a),
        XmlEventView::Empty(n, a) => start_step(st, n, a),
        XmlEventView::Text(t) => XState { text: st.text + t, ..st },
        XmlEventView::End(n) => {
            let (s2, done) = end_step(st, n);
            match done {
                Some(tu) => XState { entries: map_insert(s2.entries, tu.id, tu), ..s2 },
                None => s2,
            }
        },
        _ => st,
    }
}

pub open spec fn xfold(evs: Seq<XmlEventView>) -> XState
    decreases evs.len(),
{
    if evs.len() == 0 {
        init_state()
    } else {
        xstep(xfold(evs.drop_last()), evs.last())
    }
}


/// A note being read.
pub struct NoteBuilder {
    pub text: String,
    pub from: Option<String>,
    pub priority: Option<u8>,
    pub annotates: Option<String>,
}

/// An alternative translation being read; the match quality is kept as
/// its text.
pub struct AltTransBuilder {
    pub match_quality: Option<String>,
    pub origin: Option<String>,
    pub source: Option<String>,
    pub target: Option<String>,
}

/// A translation unit being read.
pub struct TransUnitBuilder {
    pub id: String,
    pub source: String,
    pub target: Option<String>,
    pub target_state: Option<String>,
    pub target_state_qualifier: Option<String>,
    pub approved: Option<bool>,
    pub translatable: Option<bool>,
    pub max_width: Option<u32>,
    pub size_unit: Option<String>,
    pub restype: Option<String>,
    pub resname: Option<String>,
    pub notes: Vec<NoteBuilder>,
    pub contexts: Vec<(String, String, Option<String>)>,
    pub alternatives: Vec<AltTransBuilder>,
    pub cg_purpose: Option<String>,
}

/// The reading state, without the entries read so far.
pub struct ReadState {
    pub state: PState,
    pub tu: Option<TransUnitBuilder>,
    pub note: Option<NoteBuilder>,
    pub ctx_type: Option<String>,
    pub in_alt_source: bool,
    pub in_alt_target: bool,
    pub text: String,
    pub source_locale: Option<String>,
    pub locale: Option<String>,
    pub datatype: Option<String>,
    pub original: Option<String>,
}

pub open spec fn note_v(n: NoteBuilder) -> NoteV {
    NoteV { text: n.text@, from: opt_view(n.from), priority: n.priority, annotates: opt_view(n.annotates) }
}

pub open spec fn alt_v(a: AltTransBuilder) -> AltV {
    AltV {
        match_quality: opt_view(a.match_quality),
        origin: opt_view(a.origin),
        source: opt_view(a.source),
        target: opt_view(a.target),
    }
}

pub open spec fn ctx_v(c: (String, String, Option<String>)) -> (Seq<char>, Seq<char>, Option<Seq<char>>) {
    (c.0@, c.1@, opt_view(c.2))
}

pub open spec fn tu_v(t: TransUnitBuilder) -> TuV {
    TuV {
        id: t.id@,
        source: t.source@,
        target: opt_view(t.target),
        target_state: opt_view(t.target_state),
        target_state_qualifier: opt_view(t.target_state_qualifier),
        approved: t.approved,
        translatable: t.translatable,
        max_width: t.max_width,
        size_unit: opt_view(t.size_unit),
        restype: opt_view(t.restype),
        resname: opt_view(t.resname),
        notes: t.notes@.map_values(|n: NoteBuilder| note_v(n)),
        contexts: t.contexts@.map_values(|c: (String, String, Option<String>)| ctx_v(c)),
        alternatives: t.alternatives@.map_values(|a: AltTransBuilder| alt_v(a)),
        cg_purpose: opt_view(t.cg_purpose),
    }
}

pub open spec fn opt_tu_v(t: Option<TransUnitBuilder>) -> Option<TuV> {
    match t {
        Some(x) => Some(tu_v(x)),
        None => None,
    }
}

pub open spec fn opt_note_v(n: Option<NoteBuilder>) -> Option<NoteV> {
    match n {
        Some(x) => Some(note_v(x)),
        None => None,
    }
}

pub open spec fn rv(st: ReadState, entries: Seq<(Seq<char>, TuV)>) -> XState {
    XState {
        state: st.state,
        tu: opt_tu_v(st.tu),
        note: opt_note_v(st.note),
        ctx_type: opt_view(st.ctx_type),
        in_alt_source: st.in_alt_source,
        in_alt_target: st.in_alt_target,
        text: st.text@,
        source_locale: opt_view(st.source_locale),
        locale: opt_view(st.locale),
        datatype: opt_view(st.datatype),
        original: opt_view(st.original),
        entries,
    }
}

fn yes_exec(o: Option<String>) -> (r: Option<bool>)
    ensures
        r == yes(opt_view(o)),
{
    match o {
        Some(v) => Some(str_eq(v.as_str(), "yes")),
        None => None,
    }
}

fn new_tu_exec(a: &Vec<(String, Vec<u8>)>) -> (t: TransUnitBuilder)
    ensures
        tu_v(t) == new_tu(attrs_view(a@)),
{
    let id = match get_attr(a, "id") {
        Some(v) => v,
        None => String::new(),
    };
    let max_width = match get_attr(a, "maxwidth") {
        Some(v) => {
            let c = str_chars(v.as_str());
            parse_u32(c.as_slice())
        },
        None => None,
    };
    let t = TransUnitBuilder {
        id,
        source: String::new(),
        target: None,
        target_state: None,
        target_state_qualifier: None,
        approved: yes_exec(get_attr(a, "approved")),
        translatable: yes_exec(get_attr(a, "translate")),
        max_width,
        size_unit: get_attr(a, "size-unit"),
        restype: get_attr(a, "restype"),
        resname: get_attr(a, "resname"),
        notes: Vec::new(),
        contexts: Vec::new(),
        alternatives: Vec::new(),
        cg_purpose: None,
    };
    assert(tu_v(t).notes =~= Seq::<NoteV>::empty());
    assert(tu_v(t).contexts =~= Seq::<(Seq<char>, Seq<char>, Option<Seq<char>>)>::empty());
    assert(tu_v(t).alternatives =~= Seq::<AltV>::empty());
    t
}

/// A start (or empty) tag.
fn start_exec(st: &mut ReadState, name: &String, a: &Vec<(String, Vec<u8>)>, Ghost(e): Ghost<Seq<(Seq<char>, TuV)>>)
    ensures
        rv(*final(st), e) == start_step(rv(*old(st), e), name@, attrs_view(a@)),
{
    let ln = local_name_exec(name);
    let ghost av = attrs_view(a@);
    if str_eq(ln.as_str(), "file") {
        st.state = PState::File;
        st.source_locale = get_attr(a, "source-language");
        st.locale = get_attr(a, "target-language");
        st.datatype = get_attr(a, "datatype");
        st.original = get_attr(a, "original");
    } else if str_eq(ln.as_str(), "body") {
        st.state = PState::Body;
    } else if str_eq(ln.as_str(), "trans-unit") {
        st.state = PState::TransUnit;
        st.tu = Some(new_tu_exec(a));
    } else if str_eq(ln.as_str(), "source") {
        if st.state == PState::AltTrans {
            st.in_alt_source = true;
        } else {
            st.state = PState::Source;
        }
        st.text = String::new();
    } else if str_eq(ln.as_str(), "target") {
        if st.state == PState::AltTrans {
            st.in_alt_target = true;
        } else {
            st.state = PState::Target;
            let mut tu = None;
            std::mem::swap(&mut tu, &mut st.tu);
            match tu {
                Some(mut t) => {
                    t.target_state = get_attr(a, "state");
                    t.target_state_qualifier = get_attr(a, "state-qualifier");
                    st.tu = Some(t);
                },
                None => {},
            }
        }
        st.text = String::new();
    } else if str_eq(ln.as_str(), "note") {
        st.state = PState::Note;
        let priority = match get_attr(a, "priority") {
            Some(v) => parse_u8(&v),
            None => None,
        };
        st.note = Some(NoteBuilder { text: String::new(), from: get_attr(a, "from"), priority, annotates: get_attr(a, "annotates") });
        st.text = String::new();
    } else if str_eq(ln.as_str(), "context-group") {
        st.state = PState::ContextGroup;
        let mut tu = None;
        std::mem::swap(&mut tu, &mut st.tu);
        match tu {
            Some(mut t) => {
                t.cg_purpose = get_attr(a, "purpose");
                st.tu = Some(t);
            },
            None => {},
        }
    } else if str_eq(ln.as_str(), "context") {
        st.state = PState::Context;
        st.ctx_type = get_attr(a, "context-type");
        st.text = String::new();
    } else if str_eq(ln.as_str(), "alt-trans") {
        st.state = PState::AltTrans;
        let alt = AltTransBuilder { match_quality: get_attr(a, "match-quality"), origin: get_attr(a, "origin"), source: None, target: None };
        let mut tu = None;
        std::mem::swap(&mut tu, &mut st.tu);
        match tu {
            Some(mut t) => {
                let ghost before = t.alternatives@;
                t.alternatives.push(alt);
                assert(t.alternatives@.map_values(|x: AltTransBuilder| alt_v(x)) =~= before.map_values(|x: AltTransBuilder| alt_v(x)).push(alt_v(alt)));
                st.tu = Some(t);
            },
            None => {},
        }
    }
}


fn set_last_alt_exec(alts: &mut Vec<AltTransBuilder>, text: String, is_source: bool)
    ensures
        final(alts)@.map_values(|x: AltTransBuilder| alt_v(x)) == set_last_alt(
            old(alts)@.map_values(|x: AltTransBuilder| alt_v(x)),
            text@,
            is_source,
        ),
{
    let n = alts.len();
    if n == 0 {
        return;
    }
    let ghost before = alts@;
    let mut last = alts.remove(n - 1);
    if is_source {
        last.source = Some(text);
    } else {
        last.target = Some(text);
    }
    let ghost lv = alt_v(last);
    alts.push(last);
    assert(alts@ == before.update(n - 1, alts@[n - 1]));
    assert(alts@.map_values(|x: AltTransBuilder| alt_v(x)) =~= before.map_values(|x: AltTransBuilder| alt_v(x)).update(
        n - 1,
        lv,
    ));
}

/// An end tag; a closed translation unit is given back.
fn end_exec(st: &mut ReadState, name: &String, Ghost(e): Ghost<Seq<(Seq<char>, TuV)>>) -> (done: Option<TransUnitBuilder>)
    ensures
        (rv(*final(st), e), opt_tu_v(done)) == end_step(rv(*old(st), e), name@),
{
    let ln = local_name_exec(name);
    let ghost text = st.text@;
    if str_eq(ln.as_str(), "source") || str_eq(ln.as_str(), "target") {
        let is_source = str_eq(ln.as_str(), "source");
        let in_alt = if is_source { st.in_alt_source } else { st.in_alt_target };
        let mut text_buf = String::new();
        std::mem::swap(&mut text_buf, &mut st.text);
        let mut tu = None;
        std::mem::swap(&mut tu, &mut st.tu);
        if in_alt {
            match tu {
                Some(mut t) => {
                    set_last_alt_exec(&mut t.alternatives, text_buf, is_source);
                    st.tu = Some(t);
                },
                None => {},
            }
            if is_source {
                st.in_alt_source = false;
            } else {
                st.in_alt_target = false;
            }
        } else {
            match tu {
                Some(mut t) => {
                    if is_source {
                        t.source = text_buf;
                    } else {
                        t.target = Some(text_buf);
                    }
                    st.tu = Some(t);
                },
                None => {},
            }
            st.state = PState::TransUnit;
        }
        return None;
    }
    if str_eq(ln.as_str(), "note") {
        let mut note = None;
        std::mem::swap(&mut note, &mut st.note);
        let mut text_buf = String::new();
        std::mem::swap(&mut text_buf, &mut st.text);
        match note {
            Some(mut n) => {
                n.text = text_buf;
                let mut tu = None;
                std::mem::swap(&mut tu, &mut st.tu);
                match tu {
                    Some(mut t) => {
                        let ghost before = t.notes@;
                        let ghost nv = note_v(n);
                        t.notes.push(n);
                        assert(t.notes@.map_values(|x: NoteBuilder| note_v(x)) =~= before.map_values(|x: NoteBuilder| note_v(x)).push(nv));
                        st.tu = Some(t);
                    },
                    None => {},
                }
            },
            None => {},
        }
        st.state = PState::TransUnit;
        return None;
    }
    if str_eq(ln.as_str(), "context") {
        let mut text_buf = String::new();
        std::mem::swap(&mut text_buf, &mut st.text);
        let mut tu = None;
        std::mem::swap(&mut tu, &mut st.tu);
        match tu {
            Some(mut t) => {
                let mut ct = None;
                std::mem::swap(&mut ct, &mut st.ctx_type);
                let ctype = match ct {
                    Some(c) => c,
                    None => String::new(),
                };
                let purpose = match &t.cg_purpose {
                    Some(p) => Some(p.clone()),
                    None => None,
                };
                let c = (ctype, text_buf, purpose);
                let ghost before = t.contexts@;
                let ghost cv = ctx_v(c);
                t.contexts.push(c);
                assert(t.contexts@.map_values(|x: (String, String, Option<String>)| ctx_v(x)) =~= before.map_values(
                    |x: (String, String, Option<String>)| ctx_v(x),
                ).push(cv));
                st.tu = Some(t);
            },
            None => {},
        }
        st.state = PState::ContextGroup;
        return None;
    }
    if str_eq(ln.as_str(), "context-group") {
        let mut tu = None;
        std::mem::swap(&mut tu, &mut st.tu);
        match tu {
            Some(mut t) => {
                t.cg_purpose = None;
                st.tu = Some(t);
            },
            None => {},
        }
        st.state = PState::TransUnit;
        return None;
    }
    if str_eq(ln.as_str(), "alt-trans") {
        st.state = PState::TransUnit;
        return None;
    }
    if str_eq(ln.as_str(), "trans-unit") {
        let mut tu = None;
        std::mem::swap(&mut tu, &mut st.tu);
        st.state = PState::Body;
        return tu;
    }
    if str_eq(ln.as_str(), "body") {
        st.state = PState::File;
        return None;
    }
    if str_eq(ln.as_str(), "file") {
        st.state = PState::Root;
        return None;
    }
    None
}


// ---------------------------------------------------------------------------
// Reading: entries and resources
// ---------------------------------------------------------------------------

pub open spec fn note_comment(c: Comment, n: NoteV) -> bool {
    &&& c.text@ == n.text
    &&& c.role == spec_note_role(n.from)
    &&& c.priority == n.priority
    &&& c.annotates == spec_annotates(n.annotates)
}

pub open spec fn ctx_entry(c: ContextEntry, x: (Seq<char>, Seq<char>, Option<Seq<char>>)) -> bool {
    &&& ctx_type_is(c.context_type, x.0)
    &&& c.value@ == x.1
    &&& opt_view(c.purpose) == x.2
}

pub open spec fn alt_entry(a: AlternativeTranslation, x: AltV) -> bool {
    &&& a.value@ == match x.target {
        Some(t) => t,
        None => Seq::empty(),
    }
    &&& opt_view(a.source) == x.source
    &&& opt_view(a.match_quality) == x.match_quality
    &&& opt_view(a.origin) == x.origin
    &&& a.alt_type is None
}

/// The entry a closed translation unit gives.
pub open spec fn entry_of_tu(e: I18nEntry, t: TuV) -> bool {
    &&& e.key@ == t.id
    &&& e.value matches EntryValue::Simple(s) && s@ == match t.target {
        Some(x) => x,
        None => Seq::empty(),
    }
    &&& e.comments@.len() == t.notes.len()
    &&& forall|i: int| 0 <= i < t.notes.len() ==> note_comment(#[trigger] e.comments@[i], t.notes[i])
    &&& e.contexts@.len() == t.contexts.len()
    &&& forall|i: int| 0 <= i < t.contexts.len() ==> ctx_entry(#[trigger] e.contexts@[i], t.contexts[i])
    &&& opt_view(e.source) == Some(t.source)
    &&& e.translatable == t.translatable
    &&& e.state == match t.target_state {
        Some(x) => spec_state(x),
        None => None,
    }
    &&& opt_view(e.state_qualifier) == t.target_state_qualifier
    &&& e.approved == t.approved
    &&& e.max_width == t.max_width
    &&& opt_view(e.size_unit) == t.size_unit
    &&& e.alternatives@.len() == t.alternatives.len()
    &&& forall|i: int| 0 <= i < t.alternatives.len() ==> alt_entry(#[trigger] e.alternatives@[i], t.alternatives[i])
    &&& opt_view(e.resource_type) == t.restype
    &&& opt_view(e.resource_name) == t.resname
    &&& e.previous_source is None
    &&& e.previous_comment is None
    &&& e.placeholders@.len() == 0
    &&& !e.obsolete
    &&& e.min_width is None
    &&& e.max_height is None
    &&& e.min_height is None
    &&& e.max_bytes is None
    &&& e.min_bytes is None
    &&& e.source_references@.len() == 0
    &&& e.flags@.len() == 0
    &&& e.device_variants is None
    &&& str_map_pairs(e.properties).len() == 0
    &&& e.format_ext is None
}

pub open spec fn tu_rel() -> spec_fn(I18nEntry, TuV) -> bool {
    |e: I18nEntry, t: TuV| entry_of_tu(e, t)
}

/// What a resource read from XLIFF holds: the file's languages, its
/// datatype and original as the extension, and the entries.
pub open spec fn parsed_resource(res: I18nResource, st: XState) -> bool {
    &&& res.metadata.source_format == FormatId::Xliff1
    &&& opt_view(res.metadata.locale) == st.locale
    &&& opt_view(res.metadata.source_locale) == st.source_locale
    &&& str_map_pairs(res.metadata.headers).len() == 0
    &&& str_map_pairs(res.metadata.properties).len() == 0
    &&& res.metadata.encoding is None
    &&& res.metadata.direction is None
    &&& res.metadata.created_at is None
    &&& res.metadata.modified_at is None
    &&& res.metadata.created_by is None
    &&& res.metadata.modified_by is None
    &&& res.metadata.tool_name is None
    &&& res.metadata.tool_version is None
    &&& res.metadata.format_ext matches Some(FormatExtension::Xliff1(x)) && opt_view(x.datatype) == st.datatype
        && opt_view(x.original) == st.original && x.inline_elements@.len() == 0
    &&& pairs_model(entry_map_pairs(res.entries), st.entries, tu_rel())
}


fn opt_str(o: &Option<String>) -> (r: Option<&str>)
    ensures
        match r {
            Some(s) => *o matches Some(x) && x@ == s@,
            None => o is None,
        },
{
    match o {
        Some(s) => Some(s.as_str()),
        None => None,
    }
}

/// Builds the entry of a closed translation unit.
fn build_entry(tu: TransUnitBuilder) -> (e: I18nEntry)
    ensures
        entry_of_tu(e, tu_v(tu)),
{
    let ghost tv = tu_v(tu);
    let mut comments: Vec<Comment> = Vec::new();
    let mut i: usize = 0;
    while i < tu.notes.len()
        invariant
            i <= tu.notes@.len(),
            tv == tu_v(tu),
            comments@.len() == i,
            forall|j: int| 0 <= j < i ==> note_comment(#[trigger] comments@[j], tv.notes[j]),
        decreases tu.notes@.len() - i,
    {
        let n = &tu.notes[i];
        assert(tv.notes[i as int] == note_v(*n));
        let c = Comment {
            text: n.text.clone(),
            role: map_note_role(opt_str(&n.from)),
            priority: n.priority,
            annotates: map_annotates(opt_str(&n.annotates)),
        };
        comments.push(c);
        i = i + 1;
    }
    let mut alternatives: Vec<AlternativeTranslation> = Vec::new();
    let mut j: usize = 0;
    while j < tu.alternatives.len()
        invariant
            j <= tu.alternatives@.len(),
            tv == tu_v(tu),
            alternatives@.len() == j,
            forall|k: int| 0 <= k < j ==> alt_entry(#[trigger] alternatives@[k], tv.alternatives[k]),
        decreases tu.alternatives@.len() - j,
    {
        let a = &tu.alternatives[j];
        assert(tv.alternatives[j as int] == alt_v(*a));
        let value = match &a.target {
            Some(t) => t.clone(),
            None => String::new(),
        };
        alternatives.push(AlternativeTranslation {
            value,
            source: clone_opt(&a.source),
            match_quality: clone_opt(&a.match_quality),
            origin: clone_opt(&a.origin),
            alt_type: None,
        });
        j = j + 1;
    }
    let mut contexts: Vec<ContextEntry> = Vec::new();
    let mut k: usize = 0;
    while k < tu.contexts.len()
        invariant
            k <= tu.contexts@.len(),
            tv == tu_v(tu),
            contexts@.len() == k,
            forall|m: int| 0 <= m < k ==> ctx_entry(#[trigger] contexts@[m], tv.contexts[m]),
        decreases tu.contexts@.len() - k,
    {
        let c = &tu.contexts[k];
        assert(tv.contexts[k as int] == ctx_v(*c));
        contexts.push(ContextEntry { context_type: map_context_type(c.0.as_str()), value: c.1.clone(), purpose: clone_opt(&c.2) });
        k = k + 1;
    }
    let state = match &tu.target_state {
        Some(x) => map_xliff_state(x.as_str()),
        None => None,
    };
    let value = match tu.target {
        Some(t) => EntryValue::Simple(t),
        None => EntryValue::Simple(String::new()),
    };
    let mut e = I18nEntry::with_value(tu.id, value);
    e.comments = comments;
    e.contexts = contexts;
    e.source = Some(tu.source);
    e.translatable = tu.translatable;
    e.state = state;
    e.state_qualifier = tu.target_state_qualifier;
    e.approved = tu.approved;
    e.max_width = tu.max_width;
    e.size_unit = tu.size_unit;
    e.alternatives = alternatives;
    e.resource_type = tu.restype;
    e.resource_name = tu.resname;
    e
}

/// Reads XLIFF 1.2 from its events.
pub fn parse_events(evs: &Vec<XmlEvent>) -> (res: I18nResource)
    ensures
        parsed_resource(res, xfold(events_view(evs@))),
{
    let ghost ev = events_view(evs@);
    let mut st = ReadState {
        state: PState::Root,
        tu: None,
        note: None,
        ctx_type: None,
        in_alt_source: false,
        in_alt_target: false,
        text: String::new(),
        source_locale: None,
        locale: None,
        datatype: None,
        original: None,
    };
    let mut entries = entry_map_new();
    let ghost mut model: Seq<(Seq<char>, TuV)> = Seq::empty();
    let mut i: usize = 0;
    while i < evs.len()
        invariant
            i <= evs@.len(),
            ev == events_view(evs@),
            xfold(ev.take(i as int)) == rv(st, model),
            pairs_model(entry_map_pairs(entries), model, tu_rel()),
        decreases evs@.len() - i,
    {
        assert(ev.take(i + 1).drop_last() == ev.take(i as int));
        assert(ev.take(i + 1).last() == event_view(evs@[i as int]));
        match &evs[i] {
            XmlEvent::Start(n, a) => start_exec(&mut st, n, a, Ghost(model)),
            XmlEvent::Empty(n, a) => start_exec(&mut st, n, a, Ghost(model)),
            XmlEvent::Text(t) => st.text.append(t.as_str()),
            XmlEvent::End(n) => {
                match end_exec(&mut st, n, Ghost(model)) {
                    Some(tu) => {
                        let ghost tv = tu_v(tu);
                        let key = tu.id.clone();
                        let e = build_entry(tu);
                        proof {
                            lemma_pairs_model_insert(entry_map_pairs(entries), model, tu_rel(), key@, e, tv);
                            model = map_insert(model, key@, tv);
                        }
                        entry_map_insert(&mut entries, key, e);
                    },
                    None => {},
                }
            },
            _ => {},
        }
        i = i + 1;
    }
    assert(ev.take(evs@.len() as int) == ev);
    let mut metadata = ResourceMetadata::for_format(FormatId::Xliff1);
    metadata.locale = st.locale;
    metadata.source_locale = st.source_locale;
    metadata.format_ext = Some(FormatExtension::Xliff1(Xliff1Ext { datatype: st.datatype, original: st.original, inline_elements: Vec::new() }));
    I18nResource { metadata, entries }
}

/// What reading XLIFF bytes gives: the resource of their events, or an XML
/// error when the reader fails.
pub open spec fn parse_ok(r: Result<I18nResource, ParseError>, content: Seq<u8>) -> bool {
    match xml_read(content, true) {
        Some(evs) => r matches Ok(res) && parsed_resource(res, xfold(evs)),
        None => r matches Err(ParseError::Xml(_)),
    }
}

/// How sure this format is that it can read a file with the extension and
/// content.
pub open spec fn spec_detect(extension: Seq<char>, content: Seq<u8>) -> Confidence {
    if extension == ".xliff"@ || extension == ".xlf"@ {
        Confidence::High
    } else if extension == ".xml"@ && valid_utf8(content) && contains(decode_utf8(content), "<xliff"@) {
        Confidence::Definite
    } else {
        Confidence::NoMatch
    }
}

impl Parser {
    /// `.xliff` and `.xlf` are likely; an `.xml` UTF-8 text with `<xliff` is
    /// certain.
    pub fn detect(&self, extension: &str, content: &[u8]) -> (c: Confidence)
        ensures
            c == spec_detect(extension@, content@),
    {
        if str_eq(extension, ".xliff") || str_eq(extension, ".xlf") {
            return Confidence::High;
        }
        if str_eq(extension, ".xml") {
            match std::str::from_utf8(content) {
                Ok(s) => if str_contains(s, "<xliff") {
                    return Confidence::Definite;
                },
                Err(_) => {},
            }
        }
        Confidence::NoMatch
    }

    /// Parses XLIFF 1.2, text trimmed.
    pub fn parse(&self, content: &[u8]) -> (r: Result<I18nResource, ParseError>)
        ensures
            parse_ok(r, content@),
    {
        match read_xml(content, true) {
            Ok(evs) => Ok(parse_events(&evs)),
            Err(e) => {
                let mut m = "XML parse error: ".to_owned();
                m.append(e.as_str());
                Err(ParseError::Xml(m))
            },
        }
    }

    pub fn capabilities(&self) -> (c: FormatCapabilities)
        ensures
            c == capabilities_spec(),
    {
        FormatCapabilities {
            comments: true,
            context: true,
            source_string: true,
            translatable_flag: true,
            translation_state: true,
            max_width: true,
            inline_markup: true,
            alternatives: true,
            source_references: true,
            custom_properties: true,
            ..FormatCapabilities::default()
        }
    }
}


// ---------------------------------------------------------------------------
// Writing
// ---------------------------------------------------------------------------


pub open spec fn yes_no(b: bool) -> Seq<char> {
    if b {
        "yes"@
    } else {
        "no"@
    }
}

pub open spec fn opt_map_str(o: Option<bool>) -> Option<Seq<char>> {
    match o {
        Some(b) => Some(yes_no(b)),
        None => None,
    }
}


/// A `<source>` element for the text, if there is one.
pub open spec fn source_events(o: Option<String>) -> Seq<XmlOutView> {
    match o {
        Some(s) => text_element("source"@, Seq::empty(), s@),
        None => Seq::empty(),
    }
}

/// The attributes of a `<trans-unit>`.
pub open spec fn tu_attrs(e: I18nEntry) -> Seq<(Seq<char>, Seq<char>)> {
    seq![("id"@, e.key@)] + opt_attr("resname"@, opt_view(e.resource_name)) + opt_attr("restype"@, opt_view(e.resource_type))
        + opt_attr(
        "maxwidth"@,
        match e.max_width {
            Some(w) => Some(decimal(w as nat)),
            None => None,
        },
    ) + opt_attr("size-unit"@, opt_view(e.size_unit)) + opt_attr("translate"@, opt_map_str(e.translatable)) + opt_attr(
        "approved"@,
        opt_map_str(e.approved),
    )
}

/// The `<target>`: written for a simple value that is not empty or has a
/// state.
pub open spec fn target_events(e: I18nEntry) -> Seq<XmlOutView> {
    match e.value {
        EntryValue::Simple(t) => if t@.len() > 0 || e.state is Some {
            text_element(
                "target"@,
                opt_attr(
                    "state"@,
                    match e.state {
                        Some(st) => Some(spec_state_str(st)),
                        None => None,
                    },
                ) + opt_attr("state-qualifier"@, opt_view(e.state_qualifier)),
                t@,
            )
        } else {
            Seq::empty()
        },
        _ => Seq::empty(),
    }
}

pub open spec fn note_events() -> spec_fn(Comment) -> Seq<XmlOutView> {
    |c: Comment|
        text_element(
            "note"@,
            opt_attr("from"@, spec_role_from(c.role)) + opt_attr(
                "priority"@,
                match c.priority {
                    Some(p) => Some(decimal(p as nat)),
                    None => None,
                },
            ) + opt_attr(
                "annotates"@,
                match c.annotates {
                    Some(a) => Some(spec_annotates_str(a)),
                    None => None,
                },
            ),
            c.text@,
        )
}

/// The contexts grouped by purpose, each purpose in order of its first
/// context, with the indexes of its contexts.
pub open spec fn ctx_groups(cs: Seq<ContextEntry>) -> Seq<(Option<Seq<char>>, Seq<usize>)>
    decreases cs.len(),
{
    if cs.len() == 0 {
        Seq::empty()
    } else {
        sec_push(ctx_groups(cs.drop_last()), opt_view(cs.last().purpose), (cs.len() - 1) as usize)
    }
}

pub open spec fn ctx_events(cs: Seq<ContextEntry>) -> spec_fn(usize) -> Seq<XmlOutView> {
    |i: usize| text_element("context"@, seq![("context-type"@, spec_ctx_type_str(cs[i as int].context_type))], cs[i as int].value@)
}

pub open spec fn group_events(cs: Seq<ContextEntry>) -> spec_fn((Option<Seq<char>>, Seq<usize>)) -> Seq<XmlOutView> {
    |g: (Option<Seq<char>>, Seq<usize>)|
        seq![XmlOutView::Start("context-group"@, opt_attr("purpose"@, g.0))] + flat_events(g.1, ctx_events(cs)) + seq![
            XmlOutView::End("context-group"@),
        ]
}


pub open spec fn alt_events() -> spec_fn(AlternativeTranslation) -> Seq<XmlOutView> {
    |a: AlternativeTranslation|
        seq![XmlOutView::Start("alt-trans"@, opt_attr("match-quality"@, opt_view(a.match_quality)) + opt_attr("origin"@, opt_view(a.origin)))]
            + source_events(a.source) + text_element("target"@, Seq::empty(), a.value@) + seq![XmlOutView::End("alt-trans"@)]
}

/// The events of one `<trans-unit>`.
pub open spec fn tu_events(e: I18nEntry) -> Seq<XmlOutView> {
    seq![XmlOutView::Start("trans-unit"@, tu_attrs(e))] + source_events(e.source) + target_events(e) + flat_events(e.comments@, note_events()) + flat_events(ctx_groups(e.contexts@), group_events(e.contexts@))
        + flat_events(e.alternatives@, alt_events()) + seq![XmlOutView::End("trans-unit"@)]
}

pub open spec fn entry_events() -> spec_fn((Seq<char>, I18nEntry)) -> Seq<XmlOutView> {
    |p: (Seq<char>, I18nEntry)| tu_events(p.1)
}

/// The attributes of `<file>`.
pub open spec fn file_attrs(res: I18nResource) -> Seq<(Seq<char>, Seq<char>)> {
    let (datatype, original) = match res.metadata.format_ext {
        Some(FormatExtension::Xliff1(x)) => (opt_view(x.datatype), opt_view(x.original)),
        _ => (None, None),
    };
    opt_attr("source-language"@, opt_view(res.metadata.source_locale)) + opt_attr("target-language"@, opt_view(res.metadata.locale))
        + seq![(
        "datatype"@,
        match datatype {
            Some(d) => d,
            None => "plaintext"@,
        },
    )] + opt_attr("original"@, original)
}

/// All events of a document.
pub open spec fn doc_events(res: I18nResource) -> Seq<XmlOutView> {
    seq![
        XmlOutView::Decl("1.0"@, Some("UTF-8"@)),
        XmlOutView::Start("xliff"@, seq![("version"@, "1.2"@), ("xmlns"@, "urn:oasis:names:tc:xliff:document:1.2"@)]),
        XmlOutView::Start("file"@, file_attrs(res)),
        XmlOutView::Start("body"@, Seq::empty()),
    ] + flat_events(entry_map_pairs(res.entries), entry_events()) + seq![
        XmlOutView::End("body"@),
        XmlOutView::End("file"@),
        XmlOutView::End("xliff"@),
    ]
}







fn yes_no_exec(b: Option<bool>) -> (r: Option<String>)
    ensures
        opt_view(r) == opt_map_str(b),
{
    match b {
        Some(true) => Some("yes".to_owned()),
        Some(false) => Some("no".to_owned()),
        None => None,
    }
}




fn tu_attrs_exec(e: &I18nEntry) -> (a: Vec<(String, String)>)
    ensures
        out_attrs_view(a@) == tu_attrs(*e),
{
    let mut a = no_attrs();
    a.push(("id".to_owned(), e.key.clone()));
    assert(out_attrs_view(a@) =~= seq![("id"@, e.key@)]);
    push_opt_attr(&mut a, "resname", clone_opt(&e.resource_name));
    push_opt_attr(&mut a, "restype", clone_opt(&e.resource_type));
    let mw = match e.max_width {
        Some(w) => Some(decimal_string(w as u64)),
        None => None,
    };
    push_opt_attr(&mut a, "maxwidth", mw);
    push_opt_attr(&mut a, "size-unit", clone_opt(&e.size_unit));
    push_opt_attr(&mut a, "translate", yes_no_exec(e.translatable));
    push_opt_attr(&mut a, "approved", yes_no_exec(e.approved));
    a
}

fn push_target(evs: &mut Vec<XmlOut>, e: &I18nEntry)
    ensures
        outs_view(final(evs)@) == outs_view(old(evs)@) + target_events(*e),
{
    let ghost start = outs_view(evs@);
    match &e.value {
        EntryValue::Simple(t) => {
            if !t.as_str().is_empty() || e.state.is_some() {
                let mut attrs = no_attrs();
                let st = match &e.state {
                    Some(s) => Some(state_to_xliff(s).to_owned()),
                    None => None,
                };
                push_opt_attr(&mut attrs, "state", st);
                push_opt_attr(&mut attrs, "state-qualifier", clone_opt(&e.state_qualifier));
                push_text_element(evs, "target", attrs, t.clone());
            } else {
                assert(start + target_events(*e) =~= start);
            }
        },
        _ => {
            assert(start + target_events(*e) =~= start);
        },
    }
}

fn push_notes(evs: &mut Vec<XmlOut>, cs: &Vec<Comment>)
    ensures
        outs_view(final(evs)@) == outs_view(old(evs)@) + flat_events(cs@, note_events()),
{
    let ghost start = outs_view(evs@);
    let mut i: usize = 0;
    assert(start + flat_events(cs@.take(0), note_events()) =~= start);
    while i < cs.len()
        invariant
            i <= cs.len(),
            outs_view(evs@) == start + flat_events(cs@.take(i as int), note_events()),
        decreases cs.len() - i,
    {
        let c = &cs[i];
        let ghost before = outs_view(evs@);
        let mut attrs = no_attrs();
        let from = match role_to_from(&c.role) {
            Some(s) => Some(s.to_owned()),
            None => None,
        };
        push_opt_attr(&mut attrs, "from", from);
        let pr = match c.priority {
            Some(p) => Some(decimal_string(p as u64)),
            None => None,
        };
        push_opt_attr(&mut attrs, "priority", pr);
        let an = match &c.annotates {
            Some(a) => Some(annotates_to_str(a).to_owned()),
            None => None,
        };
        push_opt_attr(&mut attrs, "annotates", an);
        push_text_element(evs, "note", attrs, c.text.clone());
        proof {
            lemma_flat_events_step(cs@, i as int, note_events());
            assert(outs_view(evs@) == before + (note_events())(cs@[i as int]));
            assert(outs_view(evs@) =~= start + flat_events(cs@.take(i + 1), note_events()));
        }
        i = i + 1;
    }
    proof {
        lemma_flat_events_full(cs@, note_events());
    }
}

proof fn lemma_ctx_groups_bounded(cs: Seq<ContextEntry>)
    ensures
        forall|g: int, j: int|
            0 <= g < ctx_groups(cs).len() && 0 <= j < ctx_groups(cs)[g].1.len() ==> (#[trigger] ctx_groups(cs)[g].1[j]) < cs.len(),
    decreases cs.len(),
{
    if cs.len() > 0 {
        let prev = ctx_groups(cs.drop_last());
        lemma_ctx_groups_bounded(cs.drop_last());
        lemma_key_index(prev, opt_view(cs.last().purpose));
    }
}

fn push_contexts(evs: &mut Vec<XmlOut>, cs: &Vec<ContextEntry>)
    ensures
        outs_view(final(evs)@) == outs_view(old(evs)@) + flat_events(ctx_groups(cs@), group_events(cs@)),
{
    let ghost start = outs_view(evs@);
    let mut groups = sec_map_new();
    let mut i: usize = 0;
    while i < cs.len()
        invariant
            i <= cs.len(),
            sec_map_pairs(groups) == ctx_groups(cs@.take(i as int)),
        decreases cs.len() - i,
    {
        sec_map_push(&mut groups, clone_opt(&cs[i].purpose), i);
        assert(cs@.take(i + 1).drop_last() =~= cs@.take(i as int));
        i = i + 1;
    }
    assert(cs@.take(cs@.len() as int) =~= cs@);
    let ghost gs = ctx_groups(cs@);
    proof {
        lemma_ctx_groups_bounded(cs@);
    }
    let n = sec_map_len(&groups);
    let mut g: usize = 0;
    assert(start + flat_events(gs.take(0), group_events(cs@)) =~= start);
    while g < n
        invariant
            g <= n,
            n == gs.len(),
            sec_map_pairs(groups) == gs,
            gs == ctx_groups(cs@),
            forall|a: int, j: int| 0 <= a < gs.len() && 0 <= j < gs[a].1.len() ==> (#[trigger] gs[a].1[j]) < cs@.len(),
            outs_view(evs@) == start + flat_events(gs.take(g as int), group_events(cs@)),
        decreases n - g,
    {
        let ghost before = outs_view(evs@);
        match sec_map_get_index(&groups, g) {
            Some((purpose, idxs)) => {
                let mut attrs = no_attrs();
                push_opt_attr(&mut attrs, "purpose", purpose);
                push_ev(evs, XmlOut::Start("context-group".to_owned(), attrs));
                let ghost mid = outs_view(evs@);
                let mut k: usize = 0;
                assert(mid + flat_events(idxs@.take(0), ctx_events(cs@)) =~= mid);
                while k < idxs.len()
                    invariant
                        k <= idxs.len(),
                        idxs@ == gs[g as int].1,
                        0 <= g < gs.len(),
                        forall|a: int, j: int| 0 <= a < gs.len() && 0 <= j < gs[a].1.len() ==> (#[trigger] gs[a].1[j]) < cs@.len(),
                        outs_view(evs@) == mid + flat_events(idxs@.take(k as int), ctx_events(cs@)),
                    decreases idxs.len() - k,
                {
                    let ix = idxs[k];
                    assert(gs[g as int].1[k as int] < cs@.len());
                    let c = &cs[ix];
                    let ghost inner = outs_view(evs@);
                    let mut cattrs = no_attrs();
                    cattrs.push(("context-type".to_owned(), context_type_to_str(&c.context_type)));
                    assert(out_attrs_view(cattrs@) =~= seq![("context-type"@, spec_ctx_type_str(c.context_type))]);
                    push_text_element(evs, "context", cattrs, c.value.clone());
                    proof {
                        lemma_flat_events_step(idxs@, k as int, ctx_events(cs@));
                        assert(outs_view(evs@) == inner + (ctx_events(cs@))(idxs@[k as int]));
                        assert(outs_view(evs@) =~= mid + flat_events(idxs@.take(k + 1), ctx_events(cs@)));
                    }
                    k = k + 1;
                }
                proof {
                    lemma_flat_events_full(idxs@, ctx_events(cs@));
                }
                let ghost body = outs_view(evs@);
                push_ev(evs, XmlOut::End("context-group".to_owned()));
                proof {
                    assert(body == mid + flat_events(gs[g as int].1, ctx_events(cs@)));
                    assert(outs_view(evs@) =~= before + (group_events(cs@))(gs[g as int]));
                    lemma_flat_events_step(gs, g as int, group_events(cs@));
                    assert(outs_view(evs@) =~= start + flat_events(gs.take(g + 1), group_events(cs@)));
                }
            },
            None => {},
        }
        g = g + 1;
    }
    proof {
        lemma_flat_events_full(gs, group_events(cs@));
    }
}

fn push_alts(evs: &mut Vec<XmlOut>, alts: &Vec<AlternativeTranslation>)
    ensures
        outs_view(final(evs)@) == outs_view(old(evs)@) + flat_events(alts@, alt_events()),
{
    let ghost start = outs_view(evs@);
    let mut i: usize = 0;
    assert(start + flat_events(alts@.take(0), alt_events()) =~= start);
    while i < alts.len()
        invariant
            i <= alts.len(),
            outs_view(evs@) == start + flat_events(alts@.take(i as int), alt_events()),
        decreases alts.len() - i,
    {
        let a = &alts[i];
        let ghost before = outs_view(evs@);
        let mut attrs = no_attrs();
        push_opt_attr(&mut attrs, "match-quality", clone_opt(&a.match_quality));
        push_opt_attr(&mut attrs, "origin", clone_opt(&a.origin));
        push_ev(evs, XmlOut::Start("alt-trans".to_owned(), attrs));
        let ghost s1 = outs_view(evs@);
        match &a.source {
            Some(src) => push_text_element(evs, "source", no_attrs(), src.clone()),
            None => {},
        }
        let ghost s2 = outs_view(evs@);
        assert(s2 == s1 + source_events(a.source)) by {
            if a.source is None {
                assert(s1 + Seq::<XmlOutView>::empty() =~= s1);
            }
        };
        push_text_element(evs, "target", no_attrs(), a.value.clone());
        push_ev(evs, XmlOut::End("alt-trans".to_owned()));
        proof {
            assert(outs_view(evs@) =~= before + (alt_events())(alts@[i as int]));
            lemma_flat_events_step(alts@, i as int, alt_events());
            assert(outs_view(evs@) =~= start + flat_events(alts@.take(i + 1), alt_events()));
        }
        i = i + 1;
    }
    proof {
        lemma_flat_events_full(alts@, alt_events());
    }
}

/// Appends the events of one `<trans-unit>` for `entry`.
pub fn write_trans_unit(evs: &mut Vec<XmlOut>, entry: &I18nEntry)
    ensures
        outs_view(final(evs)@) == outs_view(old(evs)@) + tu_events(*entry),
{
    let ghost start = outs_view(evs@);
    push_ev(evs, XmlOut::Start("trans-unit".to_owned(), tu_attrs_exec(entry)));
    let ghost s1 = outs_view(evs@);
    match &entry.source {
        Some(src) => push_text_element(evs, "source", no_attrs(), src.clone()),
        None => {},
    }
    let ghost s2 = outs_view(evs@);
    assert(s2 == s1 + source_events(entry.source)) by {
        if entry.source is None {
            assert(s1 + Seq::<XmlOutView>::empty() =~= s1);
        }
    };
    push_target(evs, entry);
    let ghost s3 = outs_view(evs@);
    push_notes(evs, &entry.comments);
    let ghost s4 = outs_view(evs@);
    if !entry.contexts.is_empty() {
        push_contexts(evs, &entry.contexts);
    } else {
        assert(entry.contexts@ =~= Seq::<ContextEntry>::empty());
        assert(s4 + flat_events(ctx_groups(entry.contexts@), group_events(entry.contexts@)) =~= s4);
    }
    let ghost s5 = outs_view(evs@);
    push_alts(evs, &entry.alternatives);
    let ghost s6 = outs_view(evs@);
    push_ev(evs, XmlOut::End("trans-unit".to_owned()));
    proof {
        assert(outs_view(evs@) =~= start + tu_events(*entry));
    }
}


fn file_attrs_exec(res: &I18nResource) -> (a: Vec<(String, String)>)
    ensures
        out_attrs_view(a@) == file_attrs(*res),
{
    let mut a = no_attrs();
    push_opt_attr(&mut a, "source-language", clone_opt(&res.metadata.source_locale));
    push_opt_attr(&mut a, "target-language", clone_opt(&res.metadata.locale));
    let (datatype, original) = match &res.metadata.format_ext {
        Some(FormatExtension::Xliff1(x)) => (clone_opt(&x.datatype), clone_opt(&x.original)),
        _ => (None, None),
    };
    let dt = match datatype {
        Some(d) => d,
        None => "plaintext".to_owned(),
    };
    let ghost before = out_attrs_view(a@);
    a.push(("datatype".to_owned(), dt));
    assert(out_attrs_view(a@) =~= before.push(("datatype"@, dt@)));
    push_opt_attr(&mut a, "original", original);
    a
}

/// The events of the whole document: the declaration, `<xliff>`, `<file>`
/// and `<body>` around one `<trans-unit>` per entry, in the resource's order.
pub fn document_events(resource: &I18nResource) -> (evs: Vec<XmlOut>)
    ensures
        outs_view(evs@) == doc_events(*resource),
{
    let mut evs: Vec<XmlOut> = Vec::new();
    assert(outs_view(evs@) =~= Seq::<XmlOutView>::empty());
    push_ev(&mut evs, XmlOut::Decl("1.0".to_owned(), Some("UTF-8".to_owned())));
    let mut xa = no_attrs();
    xa.push(("version".to_owned(), "1.2".to_owned()));
    assert(out_attrs_view(xa@) =~= seq![("version"@, "1.2"@)]);
    xa.push(("xmlns".to_owned(), "urn:oasis:names:tc:xliff:document:1.2".to_owned()));
    assert(out_attrs_view(xa@) =~= seq![("version"@, "1.2"@), ("xmlns"@, "urn:oasis:names:tc:xliff:document:1.2"@)]);
    push_ev(&mut evs, XmlOut::Start("xliff".to_owned(), xa));
    push_ev(&mut evs, XmlOut::Start("file".to_owned(), file_attrs_exec(resource)));
    push_ev(&mut evs, XmlOut::Start("body".to_owned(), no_attrs()));
    let ghost head = outs_view(evs@);
    let ghost ps = entry_map_pairs(resource.entries);
    let n = entry_map_len(&resource.entries);
    let mut i: usize = 0;
    assert(head + flat_events(ps.take(0), entry_events()) =~= head);
    while i < n
        invariant
            i <= n,
            n == ps.len(),
            ps == entry_map_pairs(resource.entries),
            outs_view(evs@) == head + flat_events(ps.take(i as int), entry_events()),
        decreases n - i,
    {
        match entry_map_get_index(&resource.entries, i) {
            Some((_key, entry)) => {
                let ghost before = outs_view(evs@);
                write_trans_unit(&mut evs, entry);
                proof {
                    assert(outs_view(evs@) == before + (entry_events())(ps[i as int]));
                    lemma_flat_events_step(ps, i as int, entry_events());
                    assert(outs_view(evs@) =~= head + flat_events(ps.take(i + 1), entry_events()));
                }
            },
            None => {},
        }
        i = i + 1;
    }
    proof {
        lemma_flat_events_full(ps, entry_events());
    }
    push_ev(&mut evs, XmlOut::End("body".to_owned()));
    push_ev(&mut evs, XmlOut::End("file".to_owned()));
    push_ev(&mut evs, XmlOut::End("xliff".to_owned()));
    assert(outs_view(evs@) =~= doc_events(*resource));
    evs
}

impl Writer {
    /// Writes the resource as an XLIFF 1.2 document indented by two spaces.
    pub fn write(&self, resource: &I18nResource) -> (r: Result<Vec<u8>, WriteError>)
        ensures
            r matches Ok(b) ==> b@ == xml_written(doc_events(*resource), 32u8, 2usize),
            r is Ok,
            r matches Err(e) ==> e is Serialization,
    {
        let evs = document_events(resource);
        match write_xml(&evs, 32u8, 2) {
            Ok(b) => Ok(b),
            Err(m) => Err(WriteError::Serialization(m)),
        }
    }

    pub fn capabilities(&self) -> (c: FormatCapabilities)
        ensures
            c == capabilities_spec(),
    {
        Parser.capabilities()
    }
}

impl super::FormatParser for Parser {
    fn detect(&self, extension: &str, content: &[u8]) -> (c: Confidence)
        ensures
            c == spec_detect(extension@, content@),
    {
        Parser::detect(self, extension, content)
    }

    fn parse(&self, content: &[u8]) -> (r: Result<I18nResource, ParseError>)
        ensures
            parse_ok(r, content@),
    {
        Parser::parse(self, content)
    }

    fn capabilities(&self) -> (c: FormatCapabilities)
        ensures
            c == capabilities_spec(),
    {
        Parser::capabilities(self)
    }
}

impl super::FormatWriter for Writer {
    fn write(&self, resource: &I18nResource) -> (r: Result<Vec<u8>, WriteError>)
        ensures
            r matches Ok(b) ==> b@ == xml_written(doc_events(*resource), 32u8, 2usize),
            r is Ok,
            r matches Err(e) ==> e is Serialization,
    {
        Writer::write(self, resource)
    }

    fn capabilities(&self) -> (c: FormatCapabilities)
        ensures
            c == capabilities_spec(),
    {
        Writer::capabilities(self)
    }
}

} // verus!
