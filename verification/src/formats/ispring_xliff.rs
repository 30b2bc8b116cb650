//! iSpring XLIFF exports: recognised only as a low guess; they are read as
//! an empty resource and written as nothing.
use vstd::prelude::*;
use crate::collections::{entry_map_pairs, entry_map_new};
use crate::ir::{I18nResource, ResourceMetadata, FormatId, FormatCapabilities};
use crate::text::str_eq;
use super::{Confidence, ParseError, WriteError};

verus! {

pub struct Parser;

pub struct Writer;

pub open spec fn spec_capabilities() -> FormatCapabilities {
    FormatCapabilities { context: true, source_string: true, translation_state: true, ..FormatCapabilities::spec_none() }
}

/// How sure this format is that it can read a file with the extension and
/// content.
pub open spec fn spec_detect(extension: Seq<char>, content: Seq<u8>) -> Confidence {
    if extension == ".xliff"@ || extension == ".xlf"@ { Confidence::Low } else { Confidence::NoMatch }
}

impl Parser {
    /// `.xliff` and `.xlf` are a low guess; nothing else is recognised.
    pub fn detect(&self, extension: &str, content: &[u8]) -> (c: Confidence)
        ensures
            c == spec_detect(extension@, content@),
    {
        if str_eq(extension, ".xliff") || str_eq(extension, ".xlf") {
            Confidence::Low
        } else {
            Confidence::NoMatch
        }
    }

    /// Reads nothing: an empty resource.
    pub fn parse(&self, content: &[u8]) -> (r: Result<I18nResource, ParseError>)
        ensures
            r matches Ok(res) && ResourceMetadata::spec_plain(res.metadata, FormatId::IspringXliff)
                && entry_map_pairs(res.entries).len() == 0,
    {
        Ok(I18nResource { metadata: ResourceMetadata::for_format(FormatId::IspringXliff), entries: entry_map_new() })
    }

    pub fn capabilities(&self) -> (c: FormatCapabilities)
        ensures
            c == spec_capabilities(),
    {
        FormatCapabilities { context: true, source_string: true, translation_state: true, ..FormatCapabilities::default() }
    }
}

impl Writer {
    /// Writes nothing.
    pub fn write(&self, resource: &I18nResource) -> (r: Result<Vec<u8>, WriteError>)
        ensures
            r matches Ok(b) && b@.len() == 0,
    {
        Ok(Vec::new())
    }

    pub fn capabilities(&self) -> (c: FormatCapabilities)
        ensures
            c == spec_capabilities(),
    {
        Parser.capabilities()
    }
}

impl super::FormatParser for Parser {
    fn detect(&self, extension: &str, content: &[u8]) -> (c: Confidence)
        ensures
            c == spec_detect(extension@, content@),
    {
        Parser::detect(self, extension, content)
    }

    fn parse(&self, content: &[u8]) -> (r: Result<I18nResource, ParseError>)
        ensures
            r matches Ok(res) && ResourceMetadata::spec_plain(res.metadata, FormatId::IspringXliff)
                && entry_map_pairs(res.entries).len() == 0,
    {
        Parser::parse(self, content)
    }

    fn capabilities(&self) -> (c: FormatCapabilities)
        ensures
            c == spec_capabilities(),
    {
        Parser::capabilities(self)
    }
}

impl super::FormatWriter for Writer {
    fn write(&self, resource: &I18nResource) -> (r: Result<Vec<u8>, WriteError>)
        ensures
            r matches Ok(b) && b@.len() == 0,
    {
        Writer::write(self, resource)
    }

    fn capabilities(&self) -> (c: FormatCapabilities)
        ensures
            c == spec_capabilities(),
    {
        Writer::capabilities(self)
    }
}

} // verus!
