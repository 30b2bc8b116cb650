//! Rails YAML locale files (a locale code as the root key): recognised,
//! with their capabilities; reading and writing them is not provided.
use vstd::prelude::*;
use crate::ir::FormatCapabilities;
use crate::text::{str_eq, str_chars, trim_start, trim_start_chars, starts_with, chars_start_with};
use vstd::utf8::{valid_utf8, decode_utf8};
use super::Confidence;

verus! {

pub struct Parser;

pub struct Writer;

pub open spec fn spec_capabilities() -> FormatCapabilities {
    FormatCapabilities { plurals: true, arrays: true, nested_keys: true, ..FormatCapabilities::spec_none() }
}

/// The root keys that mark a Rails locale file.
pub open spec fn locale_roots() -> Seq<Seq<char>> {
    seq!["en:"@, "ja:"@, "de:"@, "fr:"@, "es:"@, "zh:"@, "ko:"@, "pt:"@, "it:"@, "ru:"@]
}

/// Text that starts, after white space, with a locale root key.
pub open spec fn starts_with_locale(s: Seq<char>) -> bool {
    exists|i: int| 0 <= i < locale_roots().len() && starts_with(trim_start(s), #[trigger] locale_roots()[i])
}

/// How sure this format is that it can read a file with the extension and
/// content.
pub open spec fn spec_detect(extension: Seq<char>, content: Seq<u8>) -> Confidence {
    if extension != ".yml"@ && extension != ".yaml"@ {
        Confidence::NoMatch
    } else if valid_utf8(content) && starts_with_locale(decode_utf8(content)) {
        Confidence::High
    } else {
        Confidence::Low
    }
}

/// `.yml` and `.yaml` are treated alike, and neither is ever ruled out: a
/// text that starts (after white space) with a locale root such as `en:` is
/// likely, any other content a low guess.
pub proof fn lemma_yaml_extensions(content: Seq<u8>)
    ensures
        spec_detect(".yaml"@, content) == spec_detect(".yml"@, content),
        spec_detect(".yml"@, content) != Confidence::NoMatch,
        valid_utf8(content) && (exists|r: int| 0 <= r < locale_roots().len() && starts_with(trim_start(decode_utf8(content)), #[trigger] locale_roots()[r]))
            ==> spec_detect(".yaml"@, content) == Confidence::High,
{
    reveal_strlit(".yml");
    reveal_strlit(".yaml");
    assert(".yml"@ != ".yaml"@) by {
        assert(".yml"@.len() != ".yaml"@.len());
    }
}

impl Parser {
    /// `.yml` and `.yaml` are likely when the text starts with a locale
    /// root key, a low guess otherwise.
    pub fn detect(&self, extension: &str, content: &[u8]) -> (c: Confidence)
        ensures
            c == spec_detect(extension@, content@),
    {
        if !str_eq(extension, ".yml") && !str_eq(extension, ".yaml") {
            return Confidence::NoMatch;
        }
        match std::str::from_utf8(content) {
            Ok(s) => {
                let chars = str_chars(s);
                let t = trim_start_chars(chars.as_slice());
                let roots = vec!["en:", "ja:", "de:", "fr:", "es:", "zh:", "ko:", "pt:", "it:", "ru:"];
                let ghost rv = roots@.map_values(|r: &str| r@);
                assert(rv =~= locale_roots());
                let mut i: usize = 0;
                while i < roots.len()
                    invariant
                        i <= roots@.len(),
                        rv == roots@.map_values(|r: &str| r@),
                        rv == locale_roots(),
                        t@ == trim_start(s@),
                        valid_utf8(content@),
                        s@ == decode_utf8(content@),
                        extension@ == ".yml"@ || extension@ == ".yaml"@,
                        forall|j: int| 0 <= j < i ==> !starts_with(t@, #[trigger] rv[j]),
                    decreases roots@.len() - i,
                {
                    let r = str_chars(roots[i]);
                    assert(rv[i as int] == roots@[i as int]@);
                    if chars_start_with(t.as_slice(), r.as_slice()) {
                        assert(starts_with(trim_start(s@), locale_roots()[i as int]));
                        return Confidence::High;
                    }
                    i = i + 1;
                }
                Confidence::Low
            },
            Err(_) => Confidence::Low,
        }
    }

    pub fn capabilities(&self) -> (c: FormatCapabilities)
        ensures
            c == spec_capabilities(),
    {
        FormatCapabilities { plurals: true, arrays: true, nested_keys: true, ..FormatCapabilities::default() }
    }
}

impl Writer {
    pub fn capabilities(&self) -> (c: FormatCapabilities)
        ensures
            c == spec_capabilities(),
    {
        Parser.capabilities()
    }
}

} // verus!
