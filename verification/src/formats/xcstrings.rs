//! Xcode String Catalogs (`.xcstrings`): recognised, with their
//! capabilities; reading and writing them is not provided.
use vstd::prelude::*;
use crate::ir::FormatCapabilities;
use crate::text::{str_eq, str_contains, contains};
use vstd::utf8::{valid_utf8, decode_utf8};
use super::Confidence;

verus! {

pub struct Parser;

pub struct Writer;

pub open spec fn spec_capabilities() -> FormatCapabilities {
    FormatCapabilities {
        plurals: true,
        comments: true,
        translatable_flag: true,
        translation_state: true,
        device_variants: true,
        ..FormatCapabilities::spec_none()
    }
}

/// JSON text with `"sourceLanguage"` and `"strings"` keys.
pub open spec fn looks_like_catalog(s: Seq<char>) -> bool {
    contains(s, "\"sourceLanguage\""@) && contains(s, "\"strings\""@)
}

/// How sure this format is that it can read a file with the extension and
/// content.
pub open spec fn spec_detect(extension: Seq<char>, content: Seq<u8>) -> Confidence {
    if extension == ".xcstrings"@ {
        Confidence::Definite
    } else if extension == ".json"@ && valid_utf8(content) && looks_like_catalog(decode_utf8(content)) {
        Confidence::High
    } else {
        Confidence::NoMatch
    }
}

impl Parser {
    /// `.xcstrings` is certain; a `.json` UTF-8 text with the catalog's keys
    /// is likely.
    pub fn detect(&self, extension: &str, content: &[u8]) -> (c: Confidence)
        ensures
            c == spec_detect(extension@, content@),
    {
        if str_eq(extension, ".xcstrings") {
            return Confidence::Definite;
        }
        if str_eq(extension, ".json") {
            match std::str::from_utf8(content) {
                Ok(s) => if str_contains(s, "\"sourceLanguage\"") && str_contains(s, "\"strings\"") {
                    return Confidence::High;
                },
                Err(_) => {},
            }
        }
        Confidence::NoMatch
    }

    pub fn capabilities(&self) -> (c: FormatCapabilities)
        ensures
            c == spec_capabilities(),
    {
        FormatCapabilities {
            plurals: true,
            comments: true,
            translatable_flag: true,
            translation_state: true,
            device_variants: true,
            ..FormatCapabilities::default()
        }
    }
}

impl Writer {
    pub fn capabilities(&self) -> (c: FormatCapabilities)
        ensures
            c == spec_capabilities(),
    {
        Parser.capabilities()
    }
}

} // verus!
