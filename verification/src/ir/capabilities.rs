use vstd::prelude::*;

verus! {

/// What a format can represent.
#[derive(Debug, Clone, Copy, PartialEq, Eq)]
pub struct FormatCapabilities {
    pub plurals: bool,
    pub arrays: bool,
    pub comments: bool,
    pub context: bool,
    pub source_string: bool,
    pub translatable_flag: bool,
    pub translation_state: bool,
    pub max_width: bool,
    pub device_variants: bool,
    pub select_gender: bool,
    pub nested_keys: bool,
    pub inline_markup: bool,
    pub alternatives: bool,
    pub source_references: bool,
    pub custom_properties: bool,
}

impl FormatCapabilities {
    /// A format that supports nothing beyond plain key/value pairs.
    pub open spec fn spec_none() -> FormatCapabilities {
        FormatCapabilities {
            plurals: false,
            arrays: false,
            comments: false,
            context: false,
            source_string: false,
            translatable_flag: false,
            translation_state: false,
            max_width: false,
            device_variants: false,
            select_gender: false,
            nested_keys: false,
            inline_markup: false,
            alternatives: false,
            source_references: false,
            custom_properties: false,
        }
    }
}

impl Default for FormatCapabilities {
    fn default() -> (c: FormatCapabilities)
        ensures
            c == FormatCapabilities::spec_none(),
    {
        FormatCapabilities {
            plurals: false,
            arrays: false,
            comments: false,
            context: false,
            source_string: false,
            translatable_flag: false,
            translation_state: false,
            max_width: false,
            device_variants: false,
            select_gender: false,
            nested_keys: false,
            inline_markup: false,
            alternatives: false,
            source_references: false,
            custom_properties: false,
        }
    }
}

/// A warning that converting to some format loses an attribute of some entries.
#[derive(Debug, Clone, PartialEq)]
pub struct DataLossWarning {
    pub severity: WarningSeverity,
    pub message: String,
    pub affected_keys: Vec<String>,
    pub lost_attribute: String,
    pub count: usize,
}

#[derive(Debug, Clone, Copy, PartialEq, Eq)]
pub enum WarningSeverity {
    Info,
    Warning,
    Error,
}

} // verus!
