use vstd::prelude::*;
use indexmap::IndexMap;
use super::{EntryValue, Comment, ContextEntry, Placeholder, TranslationState, SourceRef, DeviceType, AlternativeTranslation, FormatExtension};
use crate::collections::{str_map_pairs, str_map_new, count_map_pairs, count_map_new, entry_map_pairs};

verus! {

/// One translation unit.
#[derive(Debug, Clone, PartialEq)]
pub struct I18nEntry {
    pub key: String,
    pub value: EntryValue,
    pub comments: Vec<Comment>,
    pub contexts: Vec<ContextEntry>,
    pub source: Option<String>,
    pub previous_source: Option<String>,
    pub previous_comment: Option<String>,
    pub placeholders: Vec<Placeholder>,
    pub translatable: Option<bool>,
    pub state: Option<TranslationState>,
    pub state_qualifier: Option<String>,
    pub approved: Option<bool>,
    pub obsolete: bool,
    pub max_width: Option<u32>,
    pub min_width: Option<u32>,
    pub max_height: Option<u32>,
    pub min_height: Option<u32>,
    pub size_unit: Option<String>,
    pub max_bytes: Option<u32>,
    pub min_bytes: Option<u32>,
    pub source_references: Vec<SourceRef>,
    pub flags: Vec<String>,
    pub device_variants: Option<IndexMap<DeviceType, EntryValue>>,
    pub alternatives: Vec<AlternativeTranslation>,
    pub properties: IndexMap<String, String>,
    pub resource_type: Option<String>,
    pub resource_name: Option<String>,
    pub format_ext: Option<FormatExtension>,
}

impl I18nEntry {
    /// Every attribute besides the key, the value, the comments and the
    /// format extension is absent or empty.
    pub open spec fn spec_bare(e: I18nEntry) -> bool {
        &&& Self::spec_bare_but_properties(e)
        &&& str_map_pairs(e.properties).len() == 0
    }

    /// Every attribute besides the key, the value, the comments, the custom
    /// properties and the format extension is absent or empty.
    pub open spec fn spec_bare_but_properties(e: I18nEntry) -> bool {
        &&& e.contexts@.len() == 0
        &&& e.source is None
        &&& e.previous_source is None
        &&& e.previous_comment is None
        &&& e.placeholders@.len() == 0
        &&& e.translatable is None
        &&& e.state is None
        &&& e.state_qualifier is None
        &&& e.approved is None
        &&& !e.obsolete
        &&& e.max_width is None
        &&& e.min_width is None
        &&& e.max_height is None
        &&& e.min_height is None
        &&& e.size_unit is None
        &&& e.max_bytes is None
        &&& e.min_bytes is None
        &&& e.source_references@.len() == 0
        &&& e.flags@.len() == 0
        &&& e.device_variants is None
        &&& e.alternatives@.len() == 0
        &&& e.resource_type is None
        &&& e.resource_name is None
    }

    /// An entry with the given key and value and nothing else.
    pub fn with_value(key: String, value: EntryValue) -> (e: I18nEntry)
        ensures
            e.key == key,
            e.value == value,
            e.comments@.len() == 0,
            e.format_ext is None,
            Self::spec_bare(e),
    {
        I18nEntry {
            key,
            value,
            comments: Vec::new(),
            contexts: Vec::new(),
            source: None,
            previous_source: None,
            previous_comment: None,
            placeholders: Vec::new(),
            translatable: None,
            state: None,
            state_qualifier: None,
            approved: None,
            obsolete: false,
            max_width: None,
            min_width: None,
            max_height: None,
            min_height: None,
            size_unit: None,
            max_bytes: None,
            min_bytes: None,
            source_references: Vec::new(),
            flags: Vec::new(),
            device_variants: None,
            alternatives: Vec::new(),
            properties: str_map_new(),
            resource_type: None,
            resource_name: None,
            format_ext: None,
        }
    }
}

impl Default for I18nEntry {
    fn default() -> (e: I18nEntry)
        ensures
            e.key@ == Seq::<char>::empty(),
            e.value matches EntryValue::Simple(s) && s@ == Seq::<char>::empty(),
            e.comments@.len() == 0,
            e.format_ext is None,
            Self::spec_bare(e),
    {
        Self::with_value(String::new(), EntryValue::Simple(String::new()))
    }
}

} // verus!
