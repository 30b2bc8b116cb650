//! Parsers and writers of the individual formats, and what they share.
use vstd::prelude::*;
use crate::ir::{EntryValue, Comment, CommentRole, PluralSet, I18nEntry};
use crate::text::str_eq;
use crate::collections::{str_map_pairs, str_map_get_index, str_map_get, map_get};
use crate::text::{join, string_views, join_strings};

pub mod android_xml;
pub mod arb;
pub mod captivate_xml;
pub mod csv_format;
pub mod excel;
pub mod hjson;
pub mod i18next;
pub mod ini;
pub mod ios_plist;
pub mod ios_strings;
pub mod ispring_xliff;
pub mod java_properties;
pub mod js_format;
pub mod json5_format;
pub mod json_structured;
pub mod markdown;
pub mod neon;
pub mod php_laravel;
pub mod plain_text;
pub mod plural_keys;
pub mod po;
pub mod po_roundtrip;
pub mod srt;
pub mod qt_linguist;
pub mod registry;
pub mod resx;
pub mod stringsdict;
pub mod tmx;
pub mod toml_format;
pub mod ts_format;
pub mod xcstrings;
pub mod xliff1;
pub mod xliff2;
pub mod yaml_plain;
pub mod yaml_rails;

pub use registry::{FormatEntry, FormatKind, FormatRegistry};

verus! {

#[verifier::external_type_specification]
#[verifier::external_body]
pub struct ExIoError(std::io::Error);

/// Why a file could not be parsed.
#[derive(Debug)]
pub enum ParseError {
    InvalidFormat(String),
    Io(std::io::Error),
    Xml(String),
    Json(String),
    Yaml(String),
}

/// Why a resource could not be written.
#[derive(Debug)]
pub enum WriteError {
    Serialization(String),
    Io(std::io::Error),
}

/// Reading a format: how sure the format is that it can read a file with
/// the extension and the content, reading it, and what it can hold. Each
/// format's `Parser` implements it by its own methods, whose contracts its
/// implementation restates.
pub trait FormatParser {
    fn detect(&self, extension: &str, content: &[u8]) -> Confidence;

    fn parse(&self, content: &[u8]) -> Result<crate::ir::I18nResource, ParseError>;

    fn capabilities(&self) -> crate::ir::FormatCapabilities;
}

/// Writing a format: the bytes of a resource, and what the format can hold.
pub trait FormatWriter {
    fn write(&self, resource: &crate::ir::I18nResource) -> Result<Vec<u8>, WriteError>;

    fn capabilities(&self) -> crate::ir::FormatCapabilities;
}

/// How sure a format is that it can read a file.
#[derive(Debug, Clone, Copy, PartialEq, Eq, PartialOrd, Ord, Structural)]
pub enum Confidence {
    NoMatch,
    Low,
    High,
    Definite,
}

impl Confidence {
    /// The rank of a confidence: `NoMatch < Low < High < Definite`.
    pub open spec fn spec_rank(self) -> nat {
        match self {
            Confidence::NoMatch => 0,
            Confidence::Low => 1,
            Confidence::High => 2,
            Confidence::Definite => 3,
        }
    }

    /// The rank of a confidence: `NoMatch < Low < High < Definite`.
    pub fn rank(&self) -> (r: u8)
        ensures
            r == self.spec_rank(),
    {
        match self {
            Confidence::NoMatch => 0,
            Confidence::Low => 1,
            Confidence::High => 2,
            Confidence::Definite => 3,
        }
    }
}


/// The single text that a format without plurals, arrays or selects writes
/// for a value: the `other` form of a plural, the items of an array joined by
/// new lines, the first case of a select, the pattern of a multi-variable
/// plural.
pub open spec fn fallback_text(v: EntryValue) -> Seq<char> {
    match v {
        EntryValue::Simple(s) => s@,
        EntryValue::Plural(ps) => ps.other@,
        EntryValue::Array(a) => join(string_views(a@), seq!['\n']),
        EntryValue::Select(ss) => if str_map_pairs(ss.cases).len() > 0 {
            str_map_pairs(ss.cases)[0].1
        } else {
            Seq::empty()
        },
        EntryValue::MultiVariablePlural(m) => m.pattern@,
    }
}

/// The single text that a format without plurals, arrays or selects writes
/// for a value.
pub fn value_text(v: &EntryValue) -> (r: String)
    ensures
        r@ == fallback_text(*v),
{
    match v {
        EntryValue::Simple(s) => {
            let r = s.clone();
            assert(r@ == s@);
            assert(r@ == fallback_text(*v));
            r
        },
        EntryValue::Plural(ps) => ps.other.clone(),
        EntryValue::Array(a) => {
            let nl = "\n";
            proof {
                reveal_strlit("\n");
                assert(nl@ =~= seq!['\n']);
            }
            let r = join_strings(a, nl);
            assert(r@ == fallback_text(*v));
            r
        },
        EntryValue::Select(ss) => match str_map_get_index(&ss.cases, 0) {
            Some((_, c)) => {
                let r = c.clone();
                assert(r@ == fallback_text(*v));
                r
            },
            None => String::new(),
        },
        EntryValue::MultiVariablePlural(m) => m.pattern.clone(),
    }
}


/// The comments are general comments with the given texts, in order.
pub open spec fn general_comments(cs: Seq<Comment>, texts: Seq<Seq<char>>) -> bool {
    &&& cs.len() == texts.len()
    &&& forall|i: int| 0 <= i < cs.len() ==> {
        &&& (#[trigger] cs[i]).text@ == texts[i]
        &&& cs[i].role == CommentRole::General
        &&& cs[i].priority is None
        &&& cs[i].annotates is None
    }
}

/// A general comment with the given text.
pub fn general_comment(text: String) -> (c: Comment)
    ensures
        c.text == text,
        c.role == CommentRole::General,
        c.priority is None,
        c.annotates is None,
{
    Comment { text, role: CommentRole::General, priority: None, annotates: None }
}


pub open spec fn opt_view(o: Option<String>) -> Option<Seq<char>> {
    match o {
        Some(s) => Some(s@),
        None => None,
    }
}

pub open spec fn strings_view(v: Seq<String>) -> Seq<Seq<char>> {
    v.map_values(|s: String| s@)
}

/// The plural forms of an entry: zero, one, two, few, many and other.
pub type PluralView = (Option<Seq<char>>, Option<Seq<char>>, Option<Seq<char>>, Option<Seq<char>>, Option<Seq<char>>, Seq<char>);

pub open spec fn plural_put(p: PluralView, cat: Seq<char>, v: Seq<char>) -> PluralView {
    if cat == "zero"@ {
        (Some(v), p.1, p.2, p.3, p.4, p.5)
    } else if cat == "one"@ {
        (p.0, Some(v), p.2, p.3, p.4, p.5)
    } else if cat == "two"@ {
        (p.0, p.1, Some(v), p.3, p.4, p.5)
    } else if cat == "few"@ {
        (p.0, p.1, p.2, Some(v), p.4, p.5)
    } else if cat == "many"@ {
        (p.0, p.1, p.2, p.3, Some(v), p.5)
    } else {
        (p.0, p.1, p.2, p.3, p.4, v)
    }
}

pub open spec fn plural_set_view(ps: PluralSet) -> PluralView {
    (opt_view(ps.zero), opt_view(ps.one), opt_view(ps.two), opt_view(ps.few), opt_view(ps.many), ps.other@)
}

/// Sets the form of category `cat`; any other category sets `other`.
pub fn put_plural(ps: &mut PluralSet, cat: &str, v: String)
    ensures
        plural_set_view(*final(ps)) == plural_put(plural_set_view(*old(ps)), cat@, v@),
        final(ps).exact_matches == old(ps).exact_matches,
        final(ps).range_matches == old(ps).range_matches,
        final(ps).ordinal == old(ps).ordinal,
{
    if str_eq(cat, "zero") {
        ps.zero = Some(v);
    } else if str_eq(cat, "one") {
        ps.one = Some(v);
    } else if str_eq(cat, "two") {
        ps.two = Some(v);
    } else if str_eq(cat, "few") {
        ps.few = Some(v);
    } else if str_eq(cat, "many") {
        ps.many = Some(v);
    } else {
        ps.other = v;
    }
}


/// An entry with the given key and text and nothing else.
pub open spec fn text_entry(e: I18nEntry, x: (Seq<char>, Seq<char>)) -> bool {
    &&& e.key@ == x.0
    &&& e.value matches EntryValue::Simple(s) && s@ == x.1
    &&& e.comments@.len() == 0
    &&& e.format_ext is None
    &&& I18nEntry::spec_bare(e)
}

pub open spec fn text_rel() -> spec_fn(I18nEntry, (Seq<char>, Seq<char>)) -> bool {
    |e: I18nEntry, x: (Seq<char>, Seq<char>)| text_entry(e, x)
}

/// An entry with the given key and simple text and nothing else.
pub fn text_entry_exec(key: String, text: String) -> (e: I18nEntry)
    ensures
        text_entry(e, (key@, text@)),
{
    I18nEntry::with_value(key, EntryValue::Simple(text))
}

/// The single text written for a value by formats that keep one text per
/// entry: a simple value, the `other` form of a plural or a select (empty
/// when a select has none), the items of an array joined by new lines, the
/// pattern of a multi-variable plural.
pub open spec fn other_text(v: EntryValue) -> Seq<char> {
    match v {
        EntryValue::Simple(s) => s@,
        EntryValue::Plural(ps) => ps.other@,
        EntryValue::Array(a) => join(string_views(a@), "\n"@),
        EntryValue::Select(ss) => match map_get(str_map_pairs(ss.cases), "other"@) {
            Some(t) => t,
            None => Seq::empty(),
        },
        EntryValue::MultiVariablePlural(m) => m.pattern@,
    }
}

/// The single text written for a value, with a select's `other` case.
pub fn other_text_exec(v: &EntryValue) -> (r: String)
    ensures
        r@ == other_text(*v),
{
    match v {
        EntryValue::Simple(s) => s.clone(),
        EntryValue::Plural(ps) => ps.other.clone(),
        EntryValue::Array(a) => {
            let nl = "\n";
            proof {
                reveal_strlit("\n");
            }
            join_strings(a, nl)
        },
        EntryValue::Select(ss) => match str_map_get(&ss.cases, "other") {
            Some(t) => t.clone(),
            None => String::new(),
        },
        EntryValue::MultiVariablePlural(m) => m.pattern.clone(),
    }
}

pub fn clone_opt(o: &Option<String>) -> (r: Option<String>)
    ensures
        opt_view(r) == opt_view(*o),
{
    match o {
        Some(s) => Some(s.clone()),
        None => None,
    }
}

} // verus!
