//! JavaScript locale modules (`module.exports = {...}`): recognised only;
//! they are read as an empty resource and written as nothing.
use vstd::prelude::*;
use crate::collections::{entry_map_pairs, entry_map_new};
use crate::ir::{I18nResource, ResourceMetadata, FormatId, FormatCapabilities};
use crate::text::{str_eq, str_contains, from_utf8_lossy, lossy_utf8, contains};
use super::{Confidence, ParseError, WriteError};

verus! {

pub struct Parser;

pub struct Writer;

/// Text that exports a module.
pub open spec fn exports_module(s: Seq<char>) -> bool {
    contains(s, "module.exports"@) || contains(s, "export default"@) || contains(s, "exports."@)
}

/// How sure this format is that it can read a file with the extension and
/// content.
pub open spec fn spec_detect(extension: Seq<char>, content: Seq<u8>) -> Confidence {
    if extension != ".js"@ {
        Confidence::NoMatch
    } else if exports_module(lossy_utf8(content)) {
        Confidence::High
    } else {
        Confidence::Low
    }
}

impl Parser {
    /// `.js` is likely when it exports a module, a low guess otherwise.
    pub fn detect(&self, extension: &str, content: &[u8]) -> (c: Confidence)
        ensures
            c == spec_detect(extension@, content@),
    {
        if !str_eq(extension, ".js") {
            return Confidence::NoMatch;
        }
        let text = from_utf8_lossy(content);
        if str_contains(text.as_str(), "module.exports") || str_contains(text.as_str(), "export default")
            || str_contains(text.as_str(), "exports.") {
            Confidence::High
        } else {
            Confidence::Low
        }
    }

    /// Reads nothing: an empty resource.
    pub fn parse(&self, content: &[u8]) -> (r: Result<I18nResource, ParseError>)
        ensures
            r matches Ok(res) && ResourceMetadata::spec_plain(res.metadata, FormatId::JavaScript)
                && entry_map_pairs(res.entries).len() == 0,
    {
        Ok(I18nResource { metadata: ResourceMetadata::for_format(FormatId::JavaScript), entries: entry_map_new() })
    }

    pub fn capabilities(&self) -> (c: FormatCapabilities)
        ensures
            c == FormatCapabilities::spec_none(),
    {
        FormatCapabilities::default()
    }
}

impl Writer {
    /// Writes nothing.
    pub fn write(&self, resource: &I18nResource) -> (r: Result<Vec<u8>, WriteError>)
        ensures
            r matches Ok(b) && b@.len() == 0,
    {
        Ok(Vec::new())
    }

    pub fn capabilities(&self) -> (c: FormatCapabilities)
        ensures
            c == FormatCapabilities::spec_none(),
    {
        FormatCapabilities::default()
    }
}

impl super::FormatParser for Parser {
    fn detect(&self, extension: &str, content: &[u8]) -> (c: Confidence)
        ensures
            c == spec_detect(extension@, content@),
    {
        Parser::detect(self, extension, content)
    }

    fn parse(&self, content: &[u8]) -> (r: Result<I18nResource, ParseError>)
        ensures
            r matches Ok(res) && ResourceMetadata::spec_plain(res.metadata, FormatId::JavaScript)
                && entry_map_pairs(res.entries).len() == 0,
    {
        Parser::parse(self, content)
    }

    fn capabilities(&self) -> (c: FormatCapabilities)
        ensures
            c == FormatCapabilities::spec_none(),
    {
        Parser::capabilities(self)
    }
}

impl super::FormatWriter for Writer {
    fn write(&self, resource: &I18nResource) -> (r: Result<Vec<u8>, WriteError>)
        ensures
            r matches Ok(b) && b@.len() == 0,
    {
        Writer::write(self, resource)
    }

    fn capabilities(&self) -> (c: FormatCapabilities)
        ensures
            c == FormatCapabilities::spec_none(),
    {
        Writer::capabilities(self)
    }
}

} // verus!
