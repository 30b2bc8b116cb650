use vstd::prelude::*;
use indexmap::IndexMap;
use super::{I18nEntry, FormatExtension};
use crate::collections::{str_map_pairs, str_map_new, count_map_pairs, count_map_new, entry_map_pairs};

verus! {

/// A whole translation file: its metadata and its entries, keyed and ordered.
#[derive(Debug, Clone, PartialEq)]
pub struct I18nResource {
    pub metadata: ResourceMetadata,
    pub entries: IndexMap<String, I18nEntry>,
}

#[derive(Debug, Clone, PartialEq)]
pub struct ResourceMetadata {
    pub source_format: FormatId,
    pub locale: Option<String>,
    pub source_locale: Option<String>,
    pub headers: IndexMap<String, String>,
    pub properties: IndexMap<String, String>,
    pub encoding: Option<String>,
    pub direction: Option<TextDirection>,
    pub created_at: Option<String>,
    pub modified_at: Option<String>,
    pub created_by: Option<String>,
    pub modified_by: Option<String>,
    pub tool_name: Option<String>,
    pub tool_version: Option<String>,
    pub format_ext: Option<FormatExtension>,
}

impl ResourceMetadata {
    /// Metadata that records only the source format.
    pub open spec fn spec_plain(meta: ResourceMetadata, format: FormatId) -> bool {
        &&& Self::spec_plain_except_ext(meta, format)
        &&& meta.format_ext is None
    }

    /// Metadata that records only the source format and, perhaps, a format
    /// extension.
    pub open spec fn spec_plain_except_ext(meta: ResourceMetadata, format: FormatId) -> bool {
        &&& Self::spec_plain_but_locale(meta, format)
        &&& meta.locale is None
    }

    /// Metadata that records only the source format and, perhaps, a locale
    /// and a format extension.
    pub open spec fn spec_plain_but_locale(meta: ResourceMetadata, format: FormatId) -> bool {
        &&& meta.source_format == format
        &&& meta.source_locale is None
        &&& str_map_pairs(meta.headers).len() == 0
        &&& str_map_pairs(meta.properties).len() == 0
        &&& meta.encoding is None
        &&& meta.direction is None
        &&& meta.created_at is None
        &&& meta.modified_at is None
        &&& meta.created_by is None
        &&& meta.modified_by is None
        &&& meta.tool_name is None
        &&& meta.tool_version is None
    }

    /// Metadata that records only the source format.
    pub fn for_format(format: FormatId) -> (meta: ResourceMetadata)
        ensures
            Self::spec_plain(meta, format),
    {
        ResourceMetadata {
            source_format: format,
            locale: None,
            source_locale: None,
            headers: str_map_new(),
            properties: str_map_new(),
            encoding: None,
            direction: None,
            created_at: None,
            modified_at: None,
            created_by: None,
            modified_by: None,
            tool_name: None,
            tool_version: None,
            format_ext: None,
        }
    }
}

impl Default for ResourceMetadata {
    fn default() -> (meta: ResourceMetadata)
        ensures
            Self::spec_plain(meta, FormatId::AndroidXml),
    {
        Self::for_format(FormatId::AndroidXml)
    }
}

#[derive(Debug, Clone, Copy, PartialEq, Eq, Hash)]
pub enum FormatId {
    AndroidXml,
    Xcstrings,
    IosStrings,
    Stringsdict,
    Arb,
    JsonStructured,
    I18nextJson,
    Xliff1,
    Po,
    YamlRails,
    Xliff2,
    Resx,
    JavaProperties,
    PhpLaravel,
    QtLinguist,
    Csv,
    Toml,
    Ini,
    Json5,
    Hjson,
    Tmx,
    Srt,
    Excel,
    Markdown,
    IosPlist,
    JavaScript,
    TypeScript,
    Neon,
    PlainText,
    YamlPlain,
    IspringXliff,
    CaptivateXml,
}

impl Default for FormatId {
    fn default() -> (f: FormatId)
        ensures
            f == FormatId::AndroidXml,
    {
        FormatId::AndroidXml
    }
}

#[derive(Debug, Clone, Copy, PartialEq, Eq)]
pub enum TextDirection {
    Ltr,
    Rtl,
    Auto,
}

} // verus!
