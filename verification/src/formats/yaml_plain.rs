//! Plain YAML files (no locale root key): recognised only; they are read as
//! an empty resource and written as nothing.
use vstd::prelude::*;
use crate::collections::{entry_map_pairs, entry_map_new};
use crate::ir::{I18nResource, ResourceMetadata, FormatId, FormatCapabilities};
use crate::text::{str_eq, str_chars, from_utf8_lossy, lossy_utf8, lines, split_lines, trim, trim_chars, string_of};
use super::{Confidence, ParseError, WriteError};

verus! {

pub struct Parser;

pub struct Writer;

/// A line that counts as the first meaningful one: not blank and not
/// starting with `#`.
pub open spec fn meaningful(l: Seq<char>) -> bool {
    trim(l).len() > 0 && !(l.len() > 0 && l[0] == '#')
}

/// The first meaningful line, if any.
pub open spec fn first_meaningful(ls: Seq<Seq<char>>) -> Option<Seq<char>>
    decreases ls.len(),
{
    if ls.len() == 0 {
        None
    } else if meaningful(ls[0]) {
        Some(ls[0])
    } else {
        first_meaningful(ls.drop_first())
    }
}

/// A first line like `en:`: at most eight bytes trimmed, ending with `:`,
/// which marks Rails YAML.
pub open spec fn looks_like_locale_root(s: Seq<char>) -> bool {
    match first_meaningful(lines(s)) {
        Some(l) => encode_len(trim(l)) <= 8 && trim(l).len() > 0 && trim(l).last() == ':',
        None => false,
    }
}

pub open spec fn encode_len(s: Seq<char>) -> nat {
    vstd::utf8::encode_utf8(s).len()
}

fn first_meaningful_exec(s: &str) -> (r: Option<Vec<char>>)
    ensures
        match first_meaningful(lines(s@)) {
            Some(l) => r matches Some(v) && v@ == l,
            None => r is None,
        },
{
    let chars = str_chars(s);
    let ls = split_lines(chars.as_slice());
    let ghost lv = ls@.map_values(|l: Vec<char>| l@);
    let mut i: usize = 0;
    assert(lv.skip(0) == lv);
    while i < ls.len()
        invariant
            i <= ls@.len(),
            lv == ls@.map_values(|l: Vec<char>| l@),
            lv == lines(s@),
            first_meaningful(lv) == first_meaningful(lv.skip(i as int)),
        decreases ls@.len() - i,
    {
        let ghost rest = lv.skip(i as int);
        assert(rest[0] == ls@[i as int]@);
        assert(rest.drop_first() == lv.skip(i + 1));
        let t = trim_chars(ls[i].as_slice());
        if t.len() > 0 && !(ls[i].len() > 0 && ls[i][0] == '#') {
            return Some(ls[i].clone());
        }
        i = i + 1;
    }
    None
}

/// How sure this format is that it can read a file with the extension and
/// content.
pub open spec fn spec_detect(extension: Seq<char>, content: Seq<u8>) -> Confidence {
    if extension != ".yml"@ && extension != ".yaml"@ {
        Confidence::NoMatch
    } else if looks_like_locale_root(lossy_utf8(content)) {
        Confidence::Low
    } else {
        Confidence::High
    }
}

impl Parser {
    /// `.yml` and `.yaml` are a low guess when the first meaningful line
    /// looks like a locale root key, likely otherwise.
    pub fn detect(&self, extension: &str, content: &[u8]) -> (c: Confidence)
        ensures
            c == spec_detect(extension@, content@),
    {
        if !str_eq(extension, ".yml") && !str_eq(extension, ".yaml") {
            return Confidence::NoMatch;
        }
        let text = from_utf8_lossy(content);
        match first_meaningful_exec(text.as_str()) {
            Some(l) => {
                let t = trim_chars(l.as_slice());
                let ts = string_of(t.as_slice());
                let n = t.len();
                let tb = crate::text::string_bytes(&ts);
                if tb.len() <= 8 && n > 0 && t[n - 1] == ':' {
                    return Confidence::Low;
                }
            },
            None => {},
        }
        Confidence::High
    }

    /// Reads nothing: an empty resource.
    pub fn parse(&self, content: &[u8]) -> (r: Result<I18nResource, ParseError>)
        ensures
            r matches Ok(res) && ResourceMetadata::spec_plain(res.metadata, FormatId::YamlPlain)
                && entry_map_pairs(res.entries).len() == 0,
    {
        Ok(I18nResource { metadata: ResourceMetadata::for_format(FormatId::YamlPlain), entries: entry_map_new() })
    }

    pub fn capabilities(&self) -> (c: FormatCapabilities)
        ensures
            c == (FormatCapabilities { comments: true, ..FormatCapabilities::spec_none() }),
    {
        FormatCapabilities { comments: true, ..FormatCapabilities::default() }
    }
}

impl Writer {
    /// Writes nothing.
    pub fn write(&self, resource: &I18nResource) -> (r: Result<Vec<u8>, WriteError>)
        ensures
            r matches Ok(b) && b@.len() == 0,
    {
        Ok(Vec::new())
    }

    pub fn capabilities(&self) -> (c: FormatCapabilities)
        ensures
            c == (FormatCapabilities { comments: true, ..FormatCapabilities::spec_none() }),
    {
        Parser.capabilities()
    }
}

impl super::FormatParser for Parser {
    fn detect(&self, extension: &str, content: &[u8]) -> (c: Confidence)
        ensures
            c == spec_detect(extension@, content@),
    {
        Parser::detect(self, extension, content)
    }

    fn parse(&self, content: &[u8]) -> (r: Result<I18nResource, ParseError>)
        ensures
            r matches Ok(res) && ResourceMetadata::spec_plain(res.metadata, FormatId::YamlPlain)
                && entry_map_pairs(res.entries).len() == 0,
    {
        Parser::parse(self, content)
    }

    fn capabilities(&self) -> (c: FormatCapabilities)
        ensures
            c == (FormatCapabilities { comments: true, ..FormatCapabilities::spec_none() }),
    {
        Parser::capabilities(self)
    }
}

impl super::FormatWriter for Writer {
    fn write(&self, resource: &I18nResource) -> (r: Result<Vec<u8>, WriteError>)
        ensures
            r matches Ok(b) && b@.len() == 0,
    {
        Writer::write(self, resource)
    }

    fn capabilities(&self) -> (c: FormatCapabilities)
        ensures
            c == (FormatCapabilities { comments: true, ..FormatCapabilities::spec_none() }),
    {
        Writer::capabilities(self)
    }
}

} // verus!
