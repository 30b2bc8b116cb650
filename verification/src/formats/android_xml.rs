//! Android string resources: `<resources>` holding `<string>`, `<plurals>`
//! and `<string-array>` elements; `<xliff:g>` markup inside a string is kept
//! as written and recorded as placeholders.
use vstd::prelude::*;
use crate::collections::{
    entry_map_pairs, entry_map_len, entry_map_get_index, entry_map_new, entry_map_insert, map_insert, pairs_model,
    lemma_pairs_model_insert, count_map_pairs, str_map_pairs,
};
use crate::ir::{
    I18nResource, I18nEntry, ResourceMetadata, FormatId, EntryValue, FormatCapabilities, FormatExtension, AndroidXmlExt,
    Comment, CommentRole, PluralSet, Placeholder,
};
use crate::text::{
    str_chars, str_eq, str_contains, contains, concat_map, lemma_concat_map_step, concat_all, lemma_concat_all_step,
    lemma_concat_all_full, string_bytes, string_of, chars_range, trim, trim_chars, lossy_utf8, from_utf8_lossy,
};
use crate::xml::{XmlEvent, XmlEventView, event_view, events_view, attrs_view, xml_read, read_xml, attr_get, get_attr};
use vstd::utf8::{valid_utf8, decode_utf8, encode_utf8};
use super::{Confidence, ParseError, WriteError, opt_view, PluralView, plural_set_view, general_comment, general_comments};

verus! {

pub struct Parser;

pub struct Writer;

// ---------------------------------------------------------------------------
// Escapes
// ---------------------------------------------------------------------------

/// How a character is written in element text.
pub open spec fn text_esc_char(c: char) -> Seq<char> {
    if c == '&' {
        "&amp;"@
    } else if c == '<' {
        "&lt;"@
    } else if c == '>' {
        "&gt;"@
    } else {
        seq![c]
    }
}

/// How a character is written in an attribute value.
pub open spec fn attr_esc_char(c: char) -> Seq<char> {
    if c == '"' {
        "&quot;"@
    } else {
        text_esc_char(c)
    }
}

pub open spec fn spec_xml_escape(s: Seq<char>) -> Seq<char> {
    concat_map(s, |c: char| text_esc_char(c))
}

pub open spec fn spec_attr_escape(s: Seq<char>) -> Seq<char> {
    concat_map(s, |c: char| attr_esc_char(c))
}

/// Escapes `&`, `<` and `>` for element text.
pub fn xml_escape(s: &str) -> (r: String)
    ensures
        r@ == spec_xml_escape(s@),
{
    let v = str_chars(s);
    let mut out = String::new();
    let mut i: usize = 0;
    while i < v.len()
        invariant
            i <= v@.len(),
            v@ == s@,
            out@ == spec_xml_escape(v@.take(i as int)),
        decreases v@.len() - i,
    {
        let ch = v[i];
        proof {
            lemma_concat_map_step(v@, i as int, |c: char| text_esc_char(c));
        }
        if ch == '&' {
            out.append("&amp;");
        } else if ch == '<' {
            out.append("&lt;");
        } else if ch == '>' {
            out.append("&gt;");
        } else {
            out.push(ch);
        }
        i = i + 1;
    }
    assert(v@.take(v@.len() as int) == v@);
    out
}

/// Escapes `&`, `"`, `<` and `>` for an attribute value.
pub fn xml_attr_escape(s: &str) -> (r: String)
    ensures
        r@ == spec_attr_escape(s@),
{
    let v = str_chars(s);
    let mut out = String::new();
    let mut i: usize = 0;
    while i < v.len()
        invariant
            i <= v@.len(),
            v@ == s@,
            out@ == spec_attr_escape(v@.take(i as int)),
        decreases v@.len() - i,
    {
        let ch = v[i];
        proof {
            lemma_concat_map_step(v@, i as int, |c: char| attr_esc_char(c));
        }
        if ch == '&' {
            out.append("&amp;");
        } else if ch == '"' {
            out.append("&quot;");
        } else if ch == '<' {
            out.append("&lt;");
        } else if ch == '>' {
            out.append("&gt;");
        } else {
            out.push(ch);
        }
        i = i + 1;
    }
    assert(v@.take(v@.len() as int) == v@);
    out
}

/// Whether a value holds `<xliff:g>` markup.
pub open spec fn has_inline(s: Seq<char>) -> bool {
    contains(s, "<xliff:g"@) || contains(s, "</xliff:g>"@)
}

/// Whether a string value contains inline XML (like xliff:g tags).
pub fn contains_inline_xml(s: &str) -> (b: bool)
    ensures
        b == has_inline(s@),
{
    str_contains(s, "<xliff:g") || str_contains(s, "</xliff:g>")
}

/// Parses a `translatable` value: only `false` is false.
pub open spec fn spec_translatable(v: Seq<char>) -> bool {
    v != "false"@
}

/// Parses a `translatable` value: `true` and `false` as written, anything
/// else as true.
pub fn parse_translatable(value: &str, key: &str) -> (b: bool)
    ensures
        b == spec_translatable(value@),
{
    proof {
        reveal_strlit("true");
        reveal_strlit("false");
        assert("true"@.len() == 4);
        assert("false"@.len() == 5);
    }
    if str_eq(value, "true") {
        true
    } else if str_eq(value, "false") {
        false
    } else {
        true
    }
}

pub open spec fn capabilities_spec() -> FormatCapabilities {
    FormatCapabilities {
        plurals: true,
        arrays: true,
        comments: true,
        context: false,
        source_string: false,
        translatable_flag: true,
        translation_state: false,
        max_width: false,
        device_variants: true,
        select_gender: false,
        nested_keys: false,
        inline_markup: true,
        alternatives: false,
        source_references: false,
        custom_properties: false,
    }
}

// ---------------------------------------------------------------------------
// Writing
// ---------------------------------------------------------------------------

pub open spec fn opt_inline(o: Option<String>) -> bool {
    match o {
        Some(s) => has_inline(s@),
        None => false,
    }
}

pub open spec fn any_item_inline(items: Seq<String>) -> bool
    decreases items.len(),
{
    if items.len() == 0 {
        false
    } else {
        any_item_inline(items.drop_last()) || has_inline(items.last()@)
    }
}

/// Whether a value holds `<xliff:g>` markup in any of its texts.
pub open spec fn value_has_inline(v: EntryValue) -> bool {
    match v {
        EntryValue::Simple(s) => has_inline(s@),
        EntryValue::Plural(ps) => has_inline(ps.other@) || opt_inline(ps.zero) || opt_inline(ps.one) || opt_inline(ps.two)
            || opt_inline(ps.few) || opt_inline(ps.many),
        EntryValue::Array(items) => any_item_inline(items@),
        _ => false,
    }
}

pub open spec fn any_entry_inline(ps: Seq<(Seq<char>, I18nEntry)>) -> bool
    decreases ps.len(),
{
    if ps.len() == 0 {
        false
    } else {
        any_entry_inline(ps.drop_last()) || value_has_inline(ps.last().1.value)
    }
}

pub open spec fn comment_line() -> spec_fn(Comment) -> Seq<char> {
    |c: Comment| "    <!-- "@ + c.text@ + " -->\n"@
}

/// The `formatted` and `product` attributes kept in the extension.
pub open spec fn ext_attrs(e: I18nEntry) -> Seq<char> {
    match e.format_ext {
        Some(FormatExtension::AndroidXml(x)) => (match x.formatted {
            Some(f) => " formatted=\""@ + (if f {
                "true"@
            } else {
                "false"@
            }) + "\""@,
            None => Seq::empty(),
        }) + (match x.product {
            Some(p) => " product=\""@ + spec_attr_escape(p@) + "\""@,
            None => Seq::empty(),
        }),
        _ => Seq::empty(),
    }
}

/// An `<item>` of a `<plurals>` when the form is present.
pub open spec fn quantity_item(q: Seq<char>, o: Option<Seq<char>>) -> Seq<char> {
    match o {
        Some(t) => "        <item quantity=\""@ + q + "\">"@ + spec_xml_escape(t) + "</item>\n"@,
        None => Seq::empty(),
    }
}

pub open spec fn array_item() -> spec_fn(String) -> Seq<char> {
    |s: String| "        <item>"@ + spec_xml_escape(s@) + "</item>\n"@
}

/// ` translatable="false"` for an entry marked untranslatable.
pub open spec fn translatable_attr(e: I18nEntry) -> Seq<char> {
    if e.translatable == Some(false) {
        " translatable=\"false\""@
    } else {
        Seq::empty()
    }
}

/// The end of a `<string>`: self-closing when empty, inline markup kept as
/// written, other text escaped.
pub open spec fn string_tail(t: Seq<char>) -> Seq<char> {
    if t.len() == 0 {
        " />\n"@
    } else if has_inline(t) {
        ">"@ + t + "</string>\n"@
    } else {
        ">"@ + spec_xml_escape(t) + "</string>\n"@
    }
}

pub open spec fn string_text(e: I18nEntry, t: Seq<char>) -> Seq<char> {
    "    <string name=\""@ + spec_attr_escape(e.key@) + "\""@ + translatable_attr(e) + ext_attrs(e) + string_tail(t)
}

pub open spec fn plurals_text(key: Seq<char>, ps: PluralSet) -> Seq<char> {
    "    <plurals name=\""@ + spec_attr_escape(key) + "\">\n"@ + quantity_item("zero"@, opt_view(ps.zero)) + quantity_item("one"@, opt_view(ps.one))
        + quantity_item("two"@, opt_view(ps.two)) + quantity_item("few"@, opt_view(ps.few)) + quantity_item("many"@, opt_view(ps.many)) + quantity_item("other"@, Some(ps.other@)) + "    </plurals>\n"@
}

pub open spec fn array_text(key: Seq<char>, items: Seq<String>) -> Seq<char> {
    "    <string-array name=\""@ + spec_attr_escape(key) + "\">\n"@ + concat_all(items, array_item()) + "    </string-array>\n"@
}

/// The element of one entry, after its comments; nothing for a value that
/// Android resources cannot hold.
pub open spec fn value_text(e: I18nEntry) -> Seq<char> {
    match e.value {
        EntryValue::Simple(t) => string_text(e, t@),
        EntryValue::Plural(ps) => plurals_text(e.key@, ps),
        EntryValue::Array(items) => array_text(e.key@, items@),
        _ => Seq::empty(),
    }
}

pub open spec fn entry_text() -> spec_fn((Seq<char>, I18nEntry)) -> Seq<char> {
    |p: (Seq<char>, I18nEntry)| concat_all(p.1.comments@, comment_line()) + value_text(p.1)
}

/// The whole document.
pub open spec fn document_text(res: I18nResource) -> Seq<char> {
    let ps = entry_map_pairs(res.entries);
    "<?xml version=\"1.0\" encoding=\"utf-8\"?>\n"@ + (if any_entry_inline(ps) {
        "<resources xmlns:xliff=\"urn:oasis:names:tc:xliff:document:1.2\">\n"@
    } else {
        "<resources>\n"@
    }) + concat_all(ps, entry_text()) + "</resources>\n"@
}

fn opt_inline_exec(o: &Option<String>) -> (b: bool)
    ensures
        b == opt_inline(*o),
{
    match o {
        Some(s) => contains_inline_xml(s.as_str()),
        None => false,
    }
}

fn value_has_inline_exec(v: &EntryValue) -> (b: bool)
    ensures
        b == value_has_inline(*v),
{
    match v {
        EntryValue::Simple(s) => contains_inline_xml(s.as_str()),
        EntryValue::Plural(ps) => contains_inline_xml(ps.other.as_str()) || opt_inline_exec(&ps.zero) || opt_inline_exec(&ps.one)
            || opt_inline_exec(&ps.two) || opt_inline_exec(&ps.few) || opt_inline_exec(&ps.many),
        EntryValue::Array(items) => {
            let mut found = false;
            let mut i: usize = 0;
            while i < items.len()
                invariant
                    i <= items@.len(),
                    found == any_item_inline(items@.take(i as int)),
                decreases items@.len() - i,
            {
                assert(items@.take(i + 1).drop_last() == items@.take(i as int));
                found = found || contains_inline_xml(items[i].as_str());
                i = i + 1;
            }
            assert(items@.take(items@.len() as int) == items@);
            found
        },
        _ => false,
    }
}

fn push_comments(out: &mut String, cs: &Vec<Comment>)
    ensures
        final(out)@ == old(out)@ + concat_all(cs@, comment_line()),
{
    let ghost start = out@;
    let mut i: usize = 0;
    assert(start + concat_all(cs@.take(0), comment_line()) =~= start);
    while i < cs.len()
        invariant
            i <= cs@.len(),
            out@ == start + concat_all(cs@.take(i as int), comment_line()),
        decreases cs@.len() - i,
    {
        proof {
            lemma_concat_all_step(cs@, i as int, comment_line());
        }
        out.append("    <!-- ");
        out.append(cs[i].text.as_str());
        out.append(" -->\n");
        i = i + 1;
    }
    proof {
        lemma_concat_all_full(cs@, comment_line());
    }
}

fn push_quantity(out: &mut String, q: &str, o: &Option<String>)
    ensures
        final(out)@ == old(out)@ + quantity_item(q@, opt_view(*o)),
{
    match o {
        Some(t) => {
            out.append("        <item quantity=\"");
            out.append(q);
            out.append("\">");
            out.append(xml_escape(t.as_str()).as_str());
            out.append("</item>\n");
        },
        None => {
            assert(out@ + quantity_item(q@, opt_view(*o)) =~= out@);
        },
    }
}

fn push_ext_attrs(out: &mut String, e: &I18nEntry)
    ensures
        final(out)@ == old(out)@ + ext_attrs(*e),
{
    let ghost start = out@;
    match &e.format_ext {
        Some(FormatExtension::AndroidXml(x)) => {
            match x.formatted {
                Some(f) => {
                    out.append(" formatted=\"");
                    if f {
                        out.append("true");
                    } else {
                        out.append("false");
                    }
                    out.append("\"");
                },
                None => {},
            }
            let ghost mid = out@;
            match &x.product {
                Some(p) => {
                    out.append(" product=\"");
                    out.append(xml_attr_escape(p.as_str()).as_str());
                    out.append("\"");
                },
                None => {},
            }
            assert(out@ =~= start + ext_attrs(*e));
        },
        _ => {
            assert(start + ext_attrs(*e) =~= start);
        },
    }
}

fn push_simple(out: &mut String, e: &I18nEntry, text: &String)
    ensures
        final(out)@ == old(out)@ + string_text(*e, text@),
{
    let ghost start = out@;
    out.append("    <string name=\"");
    out.append(xml_attr_escape(e.key.as_str()).as_str());
    out.append("\"");
    let not_translatable = match e.translatable {
        Some(t) => !t,
        None => false,
    };
    if not_translatable {
        out.append(" translatable=\"false\"");
    }
    let ghost s2 = out@;
    assert(s2 =~= start + "    <string name=\""@ + spec_attr_escape(e.key@) + "\""@ + translatable_attr(*e));
    push_ext_attrs(out, e);
    let ghost s3 = out@;
    assert(s3 =~= s2 + ext_attrs(*e));
    push_string_tail(out, text);
    assert(out@ =~= start + string_text(*e, text@));
}

fn push_string_tail(out: &mut String, text: &String)
    ensures
        final(out)@ == old(out)@ + string_tail(text@),
{
    let ghost s3 = out@;
    if text.as_str().is_empty() {
        out.append(" />\n");
    } else if contains_inline_xml(text.as_str()) {
        out.append(">");
        out.append(text.as_str());
        out.append("</string>\n");
    } else {
        out.append(">");
        out.append(xml_escape(text.as_str()).as_str());
        out.append("</string>\n");
    }
    assert(out@ =~= s3 + string_tail(text@));
}

fn push_plurals(out: &mut String, key: &String, ps: &PluralSet)
    ensures
        final(out)@ == old(out)@ + plurals_text(key@, *ps),
{
    let ghost start = out@;
    out.append("    <plurals name=\"");
    out.append(xml_attr_escape(key.as_str()).as_str());
    out.append("\">\n");
    push_quantity(out, "zero", &ps.zero);
    push_quantity(out, "one", &ps.one);
    push_quantity(out, "two", &ps.two);
    push_quantity(out, "few", &ps.few);
    push_quantity(out, "many", &ps.many);
    let other = Some(ps.other.clone());
    push_quantity(out, "other", &other);
    out.append("    </plurals>\n");
}

fn push_array(out: &mut String, key: &String, items: &Vec<String>)
    ensures
        final(out)@ == old(out)@ + array_text(key@, items@),
{
    let ghost start = out@;
    out.append("    <string-array name=\"");
    out.append(xml_attr_escape(key.as_str()).as_str());
    out.append("\">\n");
    let ghost mid = out@;
    let mut i: usize = 0;
    assert(mid + concat_all(items@.take(0), array_item()) =~= mid);
    while i < items.len()
        invariant
            i <= items@.len(),
            out@ == mid + concat_all(items@.take(i as int), array_item()),
        decreases items@.len() - i,
    {
        proof {
            lemma_concat_all_step(items@, i as int, array_item());
        }
        out.append("        <item>");
        out.append(xml_escape(items[i].as_str()).as_str());
        out.append("</item>\n");
        i = i + 1;
    }
    proof {
        lemma_concat_all_full(items@, array_item());
    }
    out.append("    </string-array>\n");
}

fn push_value(out: &mut String, e: &I18nEntry)
    ensures
        final(out)@ == old(out)@ + value_text(*e),
{
    match &e.value {
        EntryValue::Simple(text) => push_simple(out, e, text),
        EntryValue::Plural(ps) => push_plurals(out, &e.key, ps),
        EntryValue::Array(items) => push_array(out, &e.key, items),
        _ => {
            assert(out@ + value_text(*e) =~= out@);
        },
    }
}

/// The text of the whole document.
pub fn document(resource: &I18nResource) -> (out: String)
    ensures
        out@ == document_text(*resource),
{
    let ghost ps = entry_map_pairs(resource.entries);
    let n = entry_map_len(&resource.entries);
    let mut needs_ns = false;
    let mut i: usize = 0;
    while i < n
        invariant
            i <= n,
            n == ps.len(),
            ps == entry_map_pairs(resource.entries),
            needs_ns == any_entry_inline(ps.take(i as int)),
        decreases n - i,
    {
        assert(ps.take(i + 1).drop_last() == ps.take(i as int));
        match entry_map_get_index(&resource.entries, i) {
            Some((_k, e)) => {
                needs_ns = needs_ns || value_has_inline_exec(&e.value);
            },
            None => {},
        }
        i = i + 1;
    }
    assert(ps.take(n as int) == ps);
    let mut out = String::new();
    out.append("<?xml version=\"1.0\" encoding=\"utf-8\"?>\n");
    if needs_ns {
        out.append("<resources xmlns:xliff=\"urn:oasis:names:tc:xliff:document:1.2\">\n");
    } else {
        out.append("<resources>\n");
    }
    let ghost head = out@;
    let mut j: usize = 0;
    assert(head + concat_all(ps.take(0), entry_text()) =~= head);
    while j < n
        invariant
            j <= n,
            n == ps.len(),
            ps == entry_map_pairs(resource.entries),
            out@ == head + concat_all(ps.take(j as int), entry_text()),
        decreases n - j,
    {
        proof {
            lemma_concat_all_step(ps, j as int, entry_text());
        }
        match entry_map_get_index(&resource.entries, j) {
            Some((_k, e)) => {
                push_comments(&mut out, &e.comments);
                push_value(&mut out, e);
            },
            None => {},
        }
        j = j + 1;
    }
    proof {
        lemma_concat_all_full(ps, entry_text());
    }
    out.append("</resources>\n");
    assert(out@ =~= document_text(*resource));
    out
}

impl Writer {
    /// Writes the resource as Android string resources.
    pub fn write(&self, resource: &I18nResource) -> (r: Result<Vec<u8>, WriteError>)
        ensures
            r matches Ok(b) && b@ == encode_utf8(document_text(*resource)),
    {
        let out = document(resource);
        Ok(string_bytes(&out))
    }

    pub fn capabilities(&self) -> (c: FormatCapabilities)
        ensures
            c == capabilities_spec(),
    {
        Parser.capabilities()
    }
}

impl Parser {
    pub fn capabilities(&self) -> (c: FormatCapabilities)
        ensures
            c == capabilities_spec(),
    {
        FormatCapabilities {
            plurals: true,
            arrays: true,
            comments: true,
            context: false,
            source_string: false,
            translatable_flag: true,
            translation_state: false,
            max_width: false,
            device_variants: true,
            select_gender: false,
            nested_keys: false,
            inline_markup: true,
            alternatives: false,
            source_references: false,
            custom_properties: false,
        }
    }
}


// ---------------------------------------------------------------------------
// Reading: element content
// ---------------------------------------------------------------------------

/// A placeholder read from `<xliff:g>`: its name (the `id`, else its
/// text), its text and its `example`.
pub struct PhV {
    pub name: Seq<char>,
    pub original: Seq<char>,
    pub example: Option<Seq<char>>,
}

/// An open `<xliff:g>`-like tag: its name, `id` and `example`, where its
/// text starts and the depth it opened at.
pub struct GV {
    pub tag: Seq<char>,
    pub id: Option<Seq<char>>,
    pub example: Option<Seq<char>>,
    pub start: nat,
    pub depth: nat,
}

/// The content of an element being read: its depth, its text with inline
/// tags written back, the placeholders of its outermost `:g` tags, and the
/// `:g` tags open.
pub struct ContentV {
    pub depth: nat,
    pub text: Seq<char>,
    pub phs: Seq<PhV>,
    pub gs: Seq<GV>,
}

pub open spec fn new_content() -> ContentV {
    ContentV { depth: 1, text: Seq::empty(), phs: Seq::empty(), gs: Seq::empty() }
}

pub open spec fn attr_item() -> spec_fn((Seq<char>, Seq<u8>)) -> Seq<char> {
    |p: (Seq<char>, Seq<u8>)| " "@ + p.0 + "=\""@ + lossy_utf8(p.1) + "\""@
}

/// A tag written back: `<name k="v" ...>`, values read lossily.
pub open spec fn open_tag(n: Seq<char>, a: Seq<(Seq<char>, Seq<u8>)>) -> Seq<char> {
    "<"@ + n + concat_all(a, attr_item()) + ">"@
}

pub open spec fn empty_tag(n: Seq<char>, a: Seq<(Seq<char>, Seq<u8>)>) -> Seq<char> {
    "<"@ + n + concat_all(a, attr_item()) + " />"@
}

pub open spec fn close_tag(n: Seq<char>) -> Seq<char> {
    "</"@ + n + ">"@
}

pub open spec fn ends_with(s: Seq<char>, p: Seq<char>) -> bool {
    p.len() <= s.len() && s.subrange(s.len() - p.len(), s.len() as int) == p
}

/// A placeholder tag: `xliff:g` or any other `:g`.
pub open spec fn is_g(n: Seq<char>) -> bool {
    n == "xliff:g"@ || ends_with(n, ":g"@)
}

/// Closes the innermost open `:g` tag; the outermost one becomes a
/// placeholder.
pub open spec fn close_g(c: ContentV) -> ContentV {
    let g = c.gs.last();
    let gs2 = c.gs.drop_last();
    let inner = c.text.subrange(g.start as int, c.text.len() as int);
    ContentV {
        gs: gs2,
        phs: if gs2.len() == 0 {
            c.phs.push(
                PhV {
                    name: match g.id {
                        Some(i) => i,
                        None => inner,
                    },
                    original: inner,
                    example: g.example,
                },
            )
        } else {
            c.phs
        },
        text: c.text + close_tag(g.tag),
        ..c
    }
}

/// One step of reading content.
pub enum CStep {
    Going(ContentV),
    Done(ContentV),
    Fail(Seq<char>),
}

pub open spec fn content_step(c: ContentV, ev: XmlEventView) -> CStep {
    match ev {
        XmlEventView::Text(t) => CStep::Going(ContentV { text: c.text + t, ..c }),
        XmlEventView::CData(t) => CStep::Going(ContentV { text: c.text + t, ..c }),
        XmlEventView::BadText(m) => CStep::Fail(m),
        XmlEventView::Start(n, a) => {
            let text = c.text + open_tag(n, a);
            if is_g(n) {
                CStep::Going(
                    ContentV {
                        depth: c.depth + 1,
                        text,
                        gs: c.gs.push(
                            GV { tag: n, id: attr_get(a, "id"@), example: attr_get(a, "example"@), start: text.len(), depth: c.depth + 1 },
                        ),
                        ..c
                    },
                )
            } else {
                CStep::Going(ContentV { depth: c.depth + 1, text, ..c })
            }
        },
        XmlEventView::End(n) => if c.depth <= 1 {
            CStep::Done(c)
        } else if c.gs.len() > 0 && c.gs.last().depth == c.depth {
            CStep::Going(ContentV { depth: (c.depth - 1) as nat, ..close_g(c) })
        } else {
            CStep::Going(ContentV { depth: (c.depth - 1) as nat, text: c.text + close_tag(n), ..c })
        },
        XmlEventView::Empty(n, a) => CStep::Going(ContentV { text: c.text + empty_tag(n, a), ..c }),
        _ => CStep::Going(c),
    }
}

/// The content at the end of the input: the open `:g` tags are closed.
pub open spec fn finish_content(c: ContentV) -> ContentV
    decreases c.gs.len(),
{
    if c.gs.len() == 0 {
        c
    } else {
        finish_content(close_g(c))
    }
}

// ---------------------------------------------------------------------------
// Reading: the document
// ---------------------------------------------------------------------------

/// An element read.
pub enum AEntry {
    Str {
        translatable: Option<Seq<char>>,
        formatted: Option<Seq<char>>,
        product: Option<Seq<char>>,
        comment: Option<Seq<char>>,
        text: Seq<char>,
        phs: Seq<PhV>,
    },
    EmptyStr { translatable: Option<Seq<char>>, comment: Option<Seq<char>> },
    Plurals { comment: Option<Seq<char>>, ps: PluralView },
    Array { comment: Option<Seq<char>>, items: Seq<Seq<char>> },
}

/// Where the reader is.
pub enum AMode {
    Top,
    InString {
        key: Seq<char>,
        translatable: Option<Seq<char>>,
        formatted: Option<Seq<char>>,
        product: Option<Seq<char>>,
        comment: Option<Seq<char>>,
        c: ContentV,
    },
    InPlurals { key: Seq<char>, comment: Option<Seq<char>>, ps: PluralView, item: Option<(Seq<char>, ContentV)> },
    InArray { key: Seq<char>, comment: Option<Seq<char>>, items: Seq<Seq<char>>, item: Option<ContentV> },
    Failed(Seq<char>),
}

pub struct AState {
    pub mode: AMode,
    pub pending: Option<Seq<char>>,
    pub entries: Seq<(Seq<char>, AEntry)>,
}

pub open spec fn empty_plural() -> PluralView {
    (None, None, None, None, None, Seq::empty())
}

/// Sets the form of a known quantity; others are ignored.
pub open spec fn put_quantity(p: PluralView, q: Seq<char>, v: Seq<char>) -> PluralView {
    if q == "zero"@ {
        (Some(v), p.1, p.2, p.3, p.4, p.5)
    } else if q == "one"@ {
        (p.0, Some(v), p.2, p.3, p.4, p.5)
    } else if q == "two"@ {
        (p.0, p.1, Some(v), p.3, p.4, p.5)
    } else if q == "few"@ {
        (p.0, p.1, p.2, Some(v), p.4, p.5)
    } else if q == "many"@ {
        (p.0, p.1, p.2, p.3, Some(v), p.5)
    } else if q == "other"@ {
        (p.0, p.1, p.2, p.3, p.4, v)
    } else {
        p
    }
}

/// A plural item sets exactly the form that its quantity names, and leaves
/// the others as they were; an unknown quantity changes nothing.
pub proof fn lemma_put_quantity(ps: PluralSet, v: String, q: Seq<char>)
    ensures
        put_quantity(plural_set_view(ps), "zero"@, v@) == plural_set_view(PluralSet { zero: Some(v), ..ps }),
        put_quantity(plural_set_view(ps), "one"@, v@) == plural_set_view(PluralSet { one: Some(v), ..ps }),
        put_quantity(plural_set_view(ps), "two"@, v@) == plural_set_view(PluralSet { two: Some(v), ..ps }),
        put_quantity(plural_set_view(ps), "few"@, v@) == plural_set_view(PluralSet { few: Some(v), ..ps }),
        put_quantity(plural_set_view(ps), "many"@, v@) == plural_set_view(PluralSet { many: Some(v), ..ps }),
        put_quantity(plural_set_view(ps), "other"@, v@) == plural_set_view(PluralSet { other: v, ..ps }),
        !(q == "zero"@ || q == "one"@ || q == "two"@ || q == "few"@ || q == "many"@ || q == "other"@)
            ==> put_quantity(plural_set_view(ps), q, v@) == plural_set_view(ps),
{
    reveal_strlit("zero");
    reveal_strlit("one");
    reveal_strlit("two");
    reveal_strlit("few");
    reveal_strlit("many");
    reveal_strlit("other");
    assert("zero"@ != "one"@) by { assert("zero"@.len() != "one"@.len()); }
    assert("zero"@ != "two"@) by { assert("zero"@.len() != "two"@.len()); }
    assert("zero"@ != "few"@) by { assert("zero"@.len() != "few"@.len()); }
    assert("zero"@ != "many"@) by { assert("zero"@[0] != "many"@[0]); }
    assert("zero"@ != "other"@) by { assert("zero"@.len() != "other"@.len()); }
    assert("one"@ != "two"@) by { assert("one"@[0] != "two"@[0]); }
    assert("one"@ != "few"@) by { assert("one"@[0] != "few"@[0]); }
    assert("one"@ != "many"@) by { assert("one"@.len() != "many"@.len()); }
    assert("one"@ != "other"@) by { assert("one"@.len() != "other"@.len()); }
    assert("two"@ != "few"@) by { assert("two"@[0] != "few"@[0]); }
    assert("two"@ != "many"@) by { assert("two"@.len() != "many"@.len()); }
    assert("two"@ != "other"@) by { assert("two"@.len() != "other"@.len()); }
    assert("few"@ != "many"@) by { assert("few"@.len() != "many"@.len()); }
    assert("few"@ != "other"@) by { assert("few"@.len() != "other"@.len()); }
    assert("many"@ != "other"@) by { assert("many"@.len() != "other"@.len()); }
}

/// An event outside the elements that are read.
pub open spec fn top_step(st: AState, ev: XmlEventView) -> AState {
    match ev {
        XmlEventView::Comment(t) => AState { pending: Some(trim(t)), ..st },
        XmlEventView::Start(n, a) => if n == "string"@ {
            match attr_get(a, "name"@) {
                Some(k) => AState {
                    mode: AMode::InString {
                        key: k,
                        translatable: attr_get(a, "translatable"@),
                        formatted: attr_get(a, "formatted"@),
                        product: attr_get(a, "product"@),
                        comment: st.pending,
                        c: new_content(),
                    },
                    pending: None,
                    ..st
                },
                None => AState { mode: AMode::Failed("string missing name attr"@), ..st },
            }
        } else if n == "plurals"@ {
            match attr_get(a, "name"@) {
                Some(k) => AState {
                    mode: AMode::InPlurals { key: k, comment: st.pending, ps: empty_plural(), item: None },
                    pending: None,
                    ..st
                },
                None => AState { mode: AMode::Failed("plurals missing name attr"@), ..st },
            }
        } else if n == "string-array"@ {
            match attr_get(a, "name"@) {
                Some(k) => AState {
                    mode: AMode::InArray { key: k, comment: st.pending, items: Seq::empty(), item: None },
                    pending: None,
                    ..st
                },
                None => AState { mode: AMode::Failed("string-array missing name attr"@), ..st },
            }
        } else {
            st
        },
        XmlEventView::Empty(n, a) => if n == "string"@ {
            match attr_get(a, "name"@) {
                Some(k) => AState {
                    entries: map_insert(
                        st.entries,
                        k,
                        AEntry::EmptyStr { translatable: attr_get(a, "translatable"@), comment: st.pending },
                    ),
                    pending: None,
                    ..st
                },
                None => AState { mode: AMode::Failed("string missing name attr"@), ..st },
            }
        } else {
            st
        },
        _ => st,
    }
}

/// One event.
pub open spec fn astep(st: AState, ev: XmlEventView) -> AState {
    match st.mode {
        AMode::Top => top_step(st, ev),
        AMode::Failed(_) => st,
        AMode::InString { key, translatable, formatted, product, comment, c } => match content_step(c, ev) {
            CStep::Going(c2) => AState {
                mode: AMode::InString { key, translatable, formatted, product, comment, c: c2 },
                ..st
            },
            CStep::Done(c2) => AState {
                mode: AMode::Top,
                entries: map_insert(
                    st.entries,
                    key,
                    AEntry::Str { translatable, formatted, product, comment, text: c2.text, phs: c2.phs },
                ),
                ..st
            },
            CStep::Fail(m) => AState { mode: AMode::Failed(m), ..st },
        },
        AMode::InPlurals { key, comment, ps, item } => match item {
            None => match ev {
                XmlEventView::Start(n, a) => if n == "item"@ {
                    AState {
                        mode: AMode::InPlurals {
                            key,
                            comment,
                            ps,
                            item: Some(
                                (
                                    match attr_get(a, "quantity"@) {
                                        Some(q) => q,
                                        None => Seq::empty(),
                                    },
                                    new_content(),
                                ),
                            ),
                        },
                        ..st
                    }
                } else {
                    st
                },
                XmlEventView::End(n) => if n == "plurals"@ {
                    AState {
                        mode: AMode::Top,
                        entries: map_insert(st.entries, key, AEntry::Plurals { comment, ps }),
                        ..st
                    }
                } else {
                    st
                },
                _ => st,
            },
            Some((q, c)) => match content_step(c, ev) {
                CStep::Going(c2) => AState { mode: AMode::InPlurals { key, comment, ps, item: Some((q, c2)) }, ..st },
                CStep::Done(c2) => AState {
                    mode: AMode::InPlurals { key, comment, ps: put_quantity(ps, q, c2.text), item: None },
                    ..st
                },
                CStep::Fail(m) => AState { mode: AMode::Failed(m), ..st },
            },
        },
        AMode::InArray { key, comment, items, item } => match item {
            None => match ev {
                XmlEventView::Start(n, a) => if n == "item"@ {
                    AState { mode: AMode::InArray { key, comment, items, item: Some(new_content()) }, ..st }
                } else {
                    st
                },
                XmlEventView::End(n) => if n == "string-array"@ {
                    AState { mode: AMode::Top, entries: map_insert(st.entries, key, AEntry::Array { comment, items }), ..st }
                } else {
                    st
                },
                _ => st,
            },
            Some(c) => match content_step(c, ev) {
                CStep::Going(c2) => AState { mode: AMode::InArray { key, comment, items, item: Some(c2) }, ..st },
                CStep::Done(c2) => AState { mode: AMode::InArray { key, comment, items: items.push(c2.text), item: None }, ..st },
                CStep::Fail(m) => AState { mode: AMode::Failed(m), ..st },
            },
        },
    }
}

pub open spec fn init_state() -> AState {
    AState { mode: AMode::Top, pending: None, entries: Seq::empty() }
}

pub open spec fn afold(evs: Seq<XmlEventView>) -> AState
    decreases evs.len(),
{
    if evs.len() == 0 {
        init_state()
    } else {
        astep(afold(evs.drop_last()), evs.last())
    }
}

/// The end of the input: an element still open is completed as read so far.
pub open spec fn afinish(st: AState) -> AState {
    match st.mode {
        AMode::InString { key, translatable, formatted, product, comment, c } => {
            let c2 = finish_content(c);
            AState {
                mode: AMode::Top,
                entries: map_insert(
                    st.entries,
                    key,
                    AEntry::Str { translatable, formatted, product, comment, text: c2.text, phs: c2.phs },
                ),
                ..st
            }
        },
        AMode::InPlurals { key, comment, ps, item } => {
            let ps2 = match item {
                Some((q, c)) => put_quantity(ps, q, finish_content(c).text),
                None => ps,
            };
            AState { mode: AMode::Top, entries: map_insert(st.entries, key, AEntry::Plurals { comment, ps: ps2 }), ..st }
        },
        AMode::InArray { key, comment, items, item } => {
            let items2 = match item {
                Some(c) => items.push(finish_content(c).text),
                None => items,
            };
            AState { mode: AMode::Top, entries: map_insert(st.entries, key, AEntry::Array { comment, items: items2 }), ..st }
        },
        _ => st,
    }
}


// ---------------------------------------------------------------------------
// Reading: entries
// ---------------------------------------------------------------------------

pub open spec fn opt_texts(c: Option<Seq<char>>) -> Seq<Seq<char>> {
    match c {
        Some(t) => seq![t],
        None => Seq::empty(),
    }
}

pub open spec fn ph_of(p: Placeholder, v: PhV) -> bool {
    &&& p.name@ == v.name
    &&& p.original_syntax@ == v.original
    &&& opt_view(p.example) == v.example
    &&& p.placeholder_type is None
    &&& p.position is None
    &&& p.description is None
    &&& p.format is None
    &&& p.optional_parameters is None
}

/// Every attribute besides the key, value, comments, placeholders,
/// translatable flag and format extension is absent or empty.
pub open spec fn rest_default(e: I18nEntry) -> bool {
    &&& e.contexts@.len() == 0
    &&& e.source is None
    &&& e.previous_source is None
    &&& e.previous_comment is None
    &&& e.state is None
    &&& e.state_qualifier is None
    &&& e.approved is None
    &&& !e.obsolete
    &&& e.max_width is None
    &&& e.min_width is None
    &&& e.max_height is None
    &&& e.min_height is None
    &&& e.size_unit is None
    &&& e.max_bytes is None
    &&& e.min_bytes is None
    &&& e.source_references@.len() == 0
    &&& e.flags@.len() == 0
    &&& e.device_variants is None
    &&& e.alternatives@.len() == 0
    &&& str_map_pairs(e.properties).len() == 0
    &&& e.resource_type is None
    &&& e.resource_name is None
}

pub open spec fn translatable_of(t: Option<Seq<char>>) -> Option<bool> {
    match t {
        Some(v) => Some(spec_translatable(v)),
        None => None,
    }
}

pub open spec fn strings_view(v: Seq<String>) -> Seq<Seq<char>> {
    v.map_values(|s: String| s@)
}

/// The entry an element gives.
pub open spec fn entry_of_a(e: I18nEntry, k: Seq<char>, a: AEntry) -> bool {
    &&& e.key@ == k
    &&& rest_default(e)
    &&& match a {
        AEntry::Str { translatable, formatted, product, comment, text, phs } => {
            &&& e.value matches EntryValue::Simple(t) && t@ == text
            &&& general_comments(e.comments@, opt_texts(comment))
            &&& e.placeholders@.len() == phs.len()
            &&& forall|i: int| 0 <= i < phs.len() ==> ph_of(#[trigger] e.placeholders@[i], phs[i])
            &&& e.translatable == translatable_of(translatable)
            &&& if formatted is Some || product is Some {
                e.format_ext matches Some(FormatExtension::AndroidXml(x)) && x.formatted == (match formatted {
                    Some(f) => Some(f == "true"@),
                    None => None,
                }) && opt_view(x.product) == product && x.xml_comments@.len() == 0
            } else {
                e.format_ext is None
            }
        },
        AEntry::EmptyStr { translatable, comment } => {
            &&& e.value matches EntryValue::Simple(t) && t@.len() == 0
            &&& general_comments(e.comments@, opt_texts(comment))
            &&& e.placeholders@.len() == 0
            &&& e.translatable == translatable_of(translatable)
            &&& e.format_ext is None
        },
        AEntry::Plurals { comment, ps } => {
            &&& e.value matches EntryValue::Plural(p) && plural_set_view(p) == ps && count_map_pairs(p.exact_matches).len() == 0
                && p.range_matches@.len() == 0 && !p.ordinal
            &&& general_comments(e.comments@, opt_texts(comment))
            &&& e.placeholders@.len() == 0
            &&& e.translatable is None
            &&& e.format_ext is None
        },
        AEntry::Array { comment, items } => {
            &&& e.value matches EntryValue::Array(v) && strings_view(v@) == items
            &&& general_comments(e.comments@, opt_texts(comment))
            &&& e.placeholders@.len() == 0
            &&& e.translatable is None
            &&& e.format_ext is None
        },
    }
}

pub open spec fn a_rel() -> spec_fn(I18nEntry, AEntry) -> bool {
    |e: I18nEntry, a: AEntry| entry_of_a(e, e.key@, a)
}

/// What reading Android resources gives: the entries of the events, or an
/// XML error when the reader fails, a text cannot be unescaped or an
/// element has no name.
pub open spec fn parse_ok(r: Result<I18nResource, ParseError>, content: Seq<u8>) -> bool {
    match xml_read(content, false) {
        Some(evs) => {
            let st = afinish(afold(evs));
            match st.mode {
                AMode::Failed(m) => r matches Err(ParseError::Xml(x)) && x@ == m,
                _ => r matches Ok(res) && ResourceMetadata::spec_plain(res.metadata, FormatId::AndroidXml) && pairs_model(
                    entry_map_pairs(res.entries),
                    st.entries,
                    a_rel(),
                ),
            }
        },
        None => r matches Err(ParseError::Xml(_)),
    }
}

// ---------------------------------------------------------------------------
// Reading: executable state
// ---------------------------------------------------------------------------

/// An open `:g` tag.
pub struct GOpen {
    pub tag: String,
    pub id: Option<String>,
    pub example: Option<String>,
    pub start: usize,
    pub depth: usize,
}

/// Content being read; placeholders are kept as name, text and example.
pub struct ContentBuilder {
    pub depth: usize,
    pub text: Vec<char>,
    pub phs: Vec<(String, String, Option<String>)>,
    pub gs: Vec<GOpen>,
}

pub open spec fn g_v(g: GOpen) -> GV {
    GV { tag: g.tag@, id: opt_view(g.id), example: opt_view(g.example), start: g.start as nat, depth: g.depth as nat }
}

pub open spec fn ph_v(p: (String, String, Option<String>)) -> PhV {
    PhV { name: p.0@, original: p.1@, example: opt_view(p.2) }
}

pub open spec fn content_v(c: ContentBuilder) -> ContentV {
    ContentV {
        depth: c.depth as nat,
        text: c.text@,
        phs: c.phs@.map_values(|p: (String, String, Option<String>)| ph_v(p)),
        gs: c.gs@.map_values(|g: GOpen| g_v(g)),
    }
}

/// Open `:g` tags start within the text.
pub open spec fn content_ok(c: ContentBuilder) -> bool {
    forall|j: int| 0 <= j < c.gs@.len() ==> (#[trigger] c.gs@[j]).start <= c.text@.len()
}

fn new_content_exec() -> (c: ContentBuilder)
    ensures
        content_v(c) == new_content(),
        content_ok(c),
{
    let c = ContentBuilder { depth: 1, text: Vec::new(), phs: Vec::new(), gs: Vec::new() };
    assert(content_v(c).phs =~= Seq::<PhV>::empty());
    assert(content_v(c).gs =~= Seq::<GV>::empty());
    c
}

fn extend_chars(v: &mut Vec<char>, s: &str)
    ensures
        final(v)@ == old(v)@ + s@,
{
    let mut c = str_chars(s);
    v.append(&mut c);
}

fn push_attrs_text(v: &mut Vec<char>, a: &Vec<(String, Vec<u8>)>)
    ensures
        final(v)@ == old(v)@ + concat_all(attrs_view(a@), attr_item()),
{
    let ghost start = v@;
    let ghost av = attrs_view(a@);
    let mut i: usize = 0;
    assert(start + concat_all(av.take(0), attr_item()) =~= start);
    while i < a.len()
        invariant
            i <= a@.len(),
            av == attrs_view(a@),
            v@ == start + concat_all(av.take(i as int), attr_item()),
        decreases a@.len() - i,
    {
        proof {
            lemma_concat_all_step(av, i as int, attr_item());
        }
        let ghost before = v@;
        extend_chars(v, " ");
        extend_chars(v, a[i].0.as_str());
        extend_chars(v, "=\"");
        let val = from_utf8_lossy(a[i].1.as_slice());
        extend_chars(v, val.as_str());
        extend_chars(v, "\"");
        assert(v@ =~= before + (attr_item())(av[i as int]));
        i = i + 1;
    }
    proof {
        lemma_concat_all_full(av, attr_item());
    }
}

fn close_g_exec(c: &mut ContentBuilder)
    requires
        old(c).gs@.len() > 0,
        content_ok(*old(c)),
    ensures
        content_v(*final(c)) == close_g(content_v(*old(c))),
        content_ok(*final(c)),
{
    let ghost cv = content_v(*c);
    let ghost gs0 = c.gs@;
    let ghost phs0 = c.phs@;
    let g = c.gs.pop().unwrap();
    assert(g == gs0.last());
    assert(c.gs@ == gs0.drop_last());
    assert(content_v(*c).gs =~= cv.gs.drop_last());
    if c.gs.len() == 0 {
        let inner = chars_range(c.text.as_slice(), g.start, c.text.len());
        let name = match &g.id {
            Some(i) => i.clone(),
            None => string_of(inner.as_slice()),
        };
        let ph = (name, string_of(inner.as_slice()), g.example);
        let ghost pv = ph_v(ph);
        c.phs.push(ph);
        assert(c.phs@.map_values(|p: (String, String, Option<String>)| ph_v(p)) =~= phs0.map_values(
            |p: (String, String, Option<String>)| ph_v(p),
        ).push(pv));
    }
    extend_chars(&mut c.text, "</");
    extend_chars(&mut c.text, g.tag.as_str());
    extend_chars(&mut c.text, ">");
    assert(content_v(*c).text =~= cv.text + close_tag(g.tag@));
}

/// One step of reading content.
pub enum CStepExec {
    Going,
    Done,
    Fail(String),
}

fn content_step_exec(c: &mut ContentBuilder, ev: &XmlEvent) -> (r: CStepExec)
    requires
        old(c).depth < usize::MAX,
        old(c).depth >= 1,
        content_ok(*old(c)),
    ensures
        content_ok(*final(c)),
        final(c).depth <= old(c).depth + 1,
        final(c).depth >= 1,
        match content_step(content_v(*old(c)), event_view(*ev)) {
            CStep::Going(c2) => r is Going && content_v(*final(c)) == c2,
            CStep::Done(c2) => r is Done && content_v(*final(c)) == c2,
            CStep::Fail(m) => r matches CStepExec::Fail(x) && x@ == m,
        },
{
    let ghost cv = content_v(*c);
    match ev {
        XmlEvent::Text(t) => {
            extend_chars(&mut c.text, t.as_str());
            CStepExec::Going
        },
        XmlEvent::CData(t) => {
            extend_chars(&mut c.text, t.as_str());
            CStepExec::Going
        },
        XmlEvent::BadText(m) => CStepExec::Fail(m.clone()),
        XmlEvent::Start(n, a) => {
            extend_chars(&mut c.text, "<");
            extend_chars(&mut c.text, n.as_str());
            push_attrs_text(&mut c.text, a);
            extend_chars(&mut c.text, ">");
            assert(c.text@ =~= cv.text + open_tag(n@, attrs_view(a@)));
            c.depth = c.depth + 1;
            if str_eq(n.as_str(), "xliff:g") || ends_with_g(n.as_str()) {
                let g = GOpen { tag: n.clone(), id: get_attr(a, "id"), example: get_attr(a, "example"), start: c.text.len(), depth: c.depth };
                let ghost gs0 = c.gs@;
                let ghost gv = g_v(g);
                c.gs.push(g);
                assert(c.gs@.map_values(|x: GOpen| g_v(x)) =~= gs0.map_values(|x: GOpen| g_v(x)).push(gv));
            }
            CStepExec::Going
        },
        XmlEvent::End(n) => {
            if c.depth <= 1 {
                CStepExec::Done
            } else {
                let closes_g = c.gs.len() > 0 && c.gs[c.gs.len() - 1].depth == c.depth;
                if closes_g {
                    close_g_exec(c);
                } else {
                    extend_chars(&mut c.text, "</");
                    extend_chars(&mut c.text, n.as_str());
                    extend_chars(&mut c.text, ">");
                    assert(c.text@ =~= cv.text + close_tag(n@));
                }
                c.depth = c.depth - 1;
                CStepExec::Going
            }
        },
        XmlEvent::Empty(n, a) => {
            extend_chars(&mut c.text, "<");
            extend_chars(&mut c.text, n.as_str());
            push_attrs_text(&mut c.text, a);
            extend_chars(&mut c.text, " />");
            assert(c.text@ =~= cv.text + empty_tag(n@, attrs_view(a@)));
            CStepExec::Going
        },
        _ => CStepExec::Going,
    }
}

fn ends_with_g(n: &str) -> (b: bool)
    ensures
        b == ends_with(n@, ":g"@),
{
    let c = str_chars(n);
    proof {
        reveal_strlit(":g");
        assert(":g"@ =~= seq![':', 'g']);
    }
    let len = c.len();
    if len < 2 {
        return false;
    }
    let r = c[len - 2] == ':' && c[len - 1] == 'g';
    assert(r == (c@.subrange(len - 2, len as int) =~= seq![':', 'g']));
    r
}

fn finish_content_exec(c: &mut ContentBuilder)
    requires
        content_ok(*old(c)),
    ensures
        content_v(*final(c)) == finish_content(content_v(*old(c))),
        content_ok(*final(c)),
{
    while c.gs.len() > 0
        invariant
            content_ok(*c),
            finish_content(content_v(*c)) == finish_content(content_v(*old(c))),
        decreases c.gs@.len(),
    {
        close_g_exec(c);
    }
}


pub enum ModeExec {
    Top,
    InString {
        key: String,
        translatable: Option<String>,
        formatted: Option<String>,
        product: Option<String>,
        comment: Option<String>,
        c: ContentBuilder,
    },
    InPlurals { key: String, comment: Option<String>, ps: PluralSet, item: Option<(String, ContentBuilder)> },
    InArray { key: String, comment: Option<String>, items: Vec<String>, item: Option<ContentBuilder> },
    Failed(String),
}

pub struct AReadState {
    pub mode: ModeExec,
    pub pending: Option<String>,
}

pub open spec fn mode_v(m: ModeExec) -> AMode {
    match m {
        ModeExec::Top => AMode::Top,
        ModeExec::InString { key, translatable, formatted, product, comment, c } => AMode::InString {
            key: key@,
            translatable: opt_view(translatable),
            formatted: opt_view(formatted),
            product: opt_view(product),
            comment: opt_view(comment),
            c: content_v(c),
        },
        ModeExec::InPlurals { key, comment, ps, item } => AMode::InPlurals {
            key: key@,
            comment: opt_view(comment),
            ps: plural_set_view(ps),
            item: match item {
                Some((q, c)) => Some((q@, content_v(c))),
                None => None,
            },
        },
        ModeExec::InArray { key, comment, items, item } => AMode::InArray {
            key: key@,
            comment: opt_view(comment),
            items: strings_view(items@),
            item: match item {
                Some(c) => Some(content_v(c)),
                None => None,
            },
        },
        ModeExec::Failed(m) => AMode::Failed(m@),
    }
}

pub open spec fn plain_plural(p: PluralSet) -> bool {
    count_map_pairs(p.exact_matches).len() == 0 && p.range_matches@.len() == 0 && !p.ordinal
}

pub open spec fn content_fits(c: ContentBuilder, bound: nat) -> bool {
    content_ok(c) && 1 <= c.depth <= bound
}

/// The open content is well formed and no deeper than `bound`.
pub open spec fn mode_ok(m: ModeExec, bound: nat) -> bool {
    match m {
        ModeExec::InString { c, .. } => content_fits(c, bound),
        ModeExec::InPlurals { ps, item, .. } => plain_plural(ps) && match item {
            Some((_, c)) => content_fits(c, bound),
            None => true,
        },
        ModeExec::InArray { item, .. } => match item {
            Some(c) => content_fits(c, bound),
            None => true,
        },
        _ => true,
    }
}

pub open spec fn arv(st: AReadState, e: Seq<(Seq<char>, AEntry)>) -> AState {
    AState { mode: mode_v(st.mode), pending: opt_view(st.pending), entries: e }
}

fn comments_of(c: Option<String>) -> (cs: Vec<Comment>)
    ensures
        general_comments(cs@, opt_texts(opt_view(c))),
{
    let mut cs: Vec<Comment> = Vec::new();
    match c {
        Some(t) => cs.push(general_comment(t)),
        None => {},
    }
    cs
}

fn translatable_exec(t: &Option<String>, key: &String) -> (r: Option<bool>)
    ensures
        r == translatable_of(opt_view(*t)),
{
    match t {
        Some(v) => Some(parse_translatable(v.as_str(), key.as_str())),
        None => None,
    }
}

fn build_str(
    key: String,
    translatable: Option<String>,
    formatted: Option<String>,
    product: Option<String>,
    comment: Option<String>,
    c: ContentBuilder,
) -> (e: I18nEntry)
    ensures
        entry_of_a(
            e,
            key@,
            AEntry::Str {
                translatable: opt_view(translatable),
                formatted: opt_view(formatted),
                product: opt_view(product),
                comment: opt_view(comment),
                text: c.text@,
                phs: content_v(c).phs,
            },
        ),
{
    let ghost phs = content_v(c).phs;
    let mut placeholders: Vec<Placeholder> = Vec::new();
    let mut i: usize = 0;
    while i < c.phs.len()
        invariant
            i <= c.phs@.len(),
            phs == content_v(c).phs,
            placeholders@.len() == i,
            forall|j: int| 0 <= j < i ==> ph_of(#[trigger] placeholders@[j], phs[j]),
        decreases c.phs@.len() - i,
    {
        let p = &c.phs[i];
        assert(phs[i as int] == ph_v(*p));
        placeholders.push(Placeholder {
            name: p.0.clone(),
            original_syntax: p.1.clone(),
            placeholder_type: None,
            position: None,
            example: match &p.2 {
                Some(x) => Some(x.clone()),
                None => None,
            },
            description: None,
            format: None,
            optional_parameters: None,
        });
        i = i + 1;
    }
    let tr = translatable_exec(&translatable, &key);
    let format_ext = if formatted.is_some() || product.is_some() {
        let f = match &formatted {
            Some(v) => Some(str_eq(v.as_str(), "true")),
            None => None,
        };
        Some(FormatExtension::AndroidXml(AndroidXmlExt { formatted: f, product, xml_comments: Vec::new() }))
    } else {
        None
    };
    let text = string_of(c.text.as_slice());
    let mut e = I18nEntry::with_value(key, EntryValue::Simple(text));
    e.comments = comments_of(comment);
    e.placeholders = placeholders;
    e.translatable = tr;
    e.format_ext = format_ext;
    e
}

fn build_empty_str(key: String, translatable: Option<String>, comment: Option<String>) -> (e: I18nEntry)
    ensures
        entry_of_a(e, key@, AEntry::EmptyStr { translatable: opt_view(translatable), comment: opt_view(comment) }),
{
    let tr = translatable_exec(&translatable, &key);
    let mut e = I18nEntry::with_value(key, EntryValue::Simple(String::new()));
    e.comments = comments_of(comment);
    e.translatable = tr;
    e
}

fn build_plurals(key: String, comment: Option<String>, ps: PluralSet) -> (e: I18nEntry)
    requires
        plain_plural(ps),
    ensures
        entry_of_a(e, key@, AEntry::Plurals { comment: opt_view(comment), ps: plural_set_view(ps) }),
{
    let mut e = I18nEntry::with_value(key, EntryValue::Plural(ps));
    e.comments = comments_of(comment);
    e
}

fn build_array(key: String, comment: Option<String>, items: Vec<String>) -> (e: I18nEntry)
    ensures
        entry_of_a(e, key@, AEntry::Array { comment: opt_view(comment), items: strings_view(items@) }),
{
    let mut e = I18nEntry::with_value(key, EntryValue::Array(items));
    e.comments = comments_of(comment);
    e
}

fn put_quantity_exec(ps: &mut PluralSet, q: &String, v: String)
    ensures
        plural_set_view(*final(ps)) == put_quantity(plural_set_view(*old(ps)), q@, v@),
        plain_plural(*old(ps)) ==> plain_plural(*final(ps)),
{
    let q = q.as_str();
    proof {
        reveal_strlit("zero");
        reveal_strlit("one");
        reveal_strlit("two");
        reveal_strlit("few");
        reveal_strlit("many");
        reveal_strlit("other");
    }
    if str_eq(q, "zero") {
        ps.zero = Some(v);
    } else if str_eq(q, "one") {
        ps.one = Some(v);
    } else if str_eq(q, "two") {
        ps.two = Some(v);
    } else if str_eq(q, "few") {
        ps.few = Some(v);
    } else if str_eq(q, "many") {
        ps.many = Some(v);
    } else if str_eq(q, "other") {
        ps.other = v;
    }
}

fn empty_plural_exec() -> (ps: PluralSet)
    ensures
        plural_set_view(ps) == empty_plural(),
        plain_plural(ps),
{
    PluralSet::default()
}


/// `after` is the state an event leads to from `before`, with `done` the
/// entry it completes, if any, read from the element `a`.
pub open spec fn stepped(before: AState, ev: XmlEventView, after: AState, done: Option<(String, I18nEntry)>, a: Option<AEntry>) -> bool {
    &&& after.entries == before.entries
    &&& match done {
        Some(d) => a matches Some(x) && entry_of_a(d.1, d.0@, x) && astep(before, ev) == AState {
            entries: map_insert(before.entries, d.0@, x),
            ..after
        },
        None => astep(before, ev) == after,
    }
}

fn trimmed(t: &String) -> (r: String)
    ensures
        r@ == trim(t@),
{
    let c = str_chars(t.as_str());
    let tc = trim_chars(c.as_slice());
    string_of(tc.as_slice())
}

fn take_pending(st: &mut AReadState) -> (p: Option<String>)
    ensures
        opt_view(p) == opt_view(old(st).pending),
        final(st).pending is None,
        final(st).mode == old(st).mode,
{
    let mut p = None;
    std::mem::swap(&mut p, &mut st.pending);
    p
}

fn top_exec(st: &mut AReadState, ev: &XmlEvent, Ghost(e): Ghost<Seq<(Seq<char>, AEntry)>>) -> (r: (
    Option<(String, I18nEntry)>,
    Ghost<Option<AEntry>>,
))
    requires
        old(st).mode is Top,
    ensures
        mode_ok(final(st).mode, 1),
        stepped(arv(*old(st), e), event_view(*ev), arv(*final(st), e), r.0, r.1@),
{
    match ev {
        XmlEvent::Comment(t) => {
            st.pending = Some(trimmed(t));
            (None, Ghost(None))
        },
        XmlEvent::Start(n, a) => {
            let name = n.as_str();
            if str_eq(name, "string") {
                match get_attr(a, "name") {
                    Some(k) => {
                        let p = take_pending(st);
                        st.mode = ModeExec::InString {
                            key: k,
                            translatable: get_attr(a, "translatable"),
                            formatted: get_attr(a, "formatted"),
                            product: get_attr(a, "product"),
                            comment: p,
                            c: new_content_exec(),
                        };
                    },
                    None => {
                        st.mode = ModeExec::Failed("string missing name attr".to_owned());
                    },
                }
            } else if str_eq(name, "plurals") {
                match get_attr(a, "name") {
                    Some(k) => {
                        let p = take_pending(st);
                        st.mode = ModeExec::InPlurals { key: k, comment: p, ps: empty_plural_exec(), item: None };
                    },
                    None => {
                        st.mode = ModeExec::Failed("plurals missing name attr".to_owned());
                    },
                }
            } else if str_eq(name, "string-array") {
                match get_attr(a, "name") {
                    Some(k) => {
                        let p = take_pending(st);
                        st.mode = ModeExec::InArray { key: k, comment: p, items: Vec::new(), item: None };
                        assert(strings_view(Seq::<String>::empty()) =~= Seq::<Seq<char>>::empty());
                    },
                    None => {
                        st.mode = ModeExec::Failed("string-array missing name attr".to_owned());
                    },
                }
            }
            (None, Ghost(None))
        },
        XmlEvent::Empty(n, a) => {
            if str_eq(n.as_str(), "string") {
                match get_attr(a, "name") {
                    Some(k) => {
                        let p = take_pending(st);
                        let tr = get_attr(a, "translatable");
                        let ghost x = AEntry::EmptyStr { translatable: opt_view(tr), comment: opt_view(p) };
                        let en = build_empty_str(k.clone(), tr, p);
                        (Some((k, en)), Ghost(Some(x)))
                    },
                    None => {
                        st.mode = ModeExec::Failed("string missing name attr".to_owned());
                        (None, Ghost(None))
                    },
                }
            } else {
                (None, Ghost(None))
            }
        },
        _ => (None, Ghost(None)),
    }
}

fn string_exec(st: &mut AReadState, ev: &XmlEvent, Ghost(e): Ghost<Seq<(Seq<char>, AEntry)>>, Ghost(i): Ghost<nat>) -> (r: (
    Option<(String, I18nEntry)>,
    Ghost<Option<AEntry>>,
))
    requires
        old(st).mode is InString,
        mode_ok(old(st).mode, i),
        i < usize::MAX,
    ensures
        mode_ok(final(st).mode, i + 1),
        stepped(arv(*old(st), e), event_view(*ev), arv(*final(st), e), r.0, r.1@),
{
    let mut mode = ModeExec::Top;
    std::mem::swap(&mut mode, &mut st.mode);
    match mode {
        ModeExec::InString { key, translatable, formatted, product, comment, c } => {
            let mut c = c;
            match content_step_exec(&mut c, ev) {
                CStepExec::Going => {
                    st.mode = ModeExec::InString { key, translatable, formatted, product, comment, c };
                    (None, Ghost(None))
                },
                CStepExec::Done => {
                    let ghost x = AEntry::Str {
                        translatable: opt_view(translatable),
                        formatted: opt_view(formatted),
                        product: opt_view(product),
                        comment: opt_view(comment),
                        text: c.text@,
                        phs: content_v(c).phs,
                    };
                    let en = build_str(key.clone(), translatable, formatted, product, comment, c);
                    (Some((key, en)), Ghost(Some(x)))
                },
                CStepExec::Fail(m) => {
                    st.mode = ModeExec::Failed(m);
                    (None, Ghost(None))
                },
            }
        },
        _ => (None, Ghost(None)),
    }
}

fn plurals_exec(st: &mut AReadState, ev: &XmlEvent, Ghost(e): Ghost<Seq<(Seq<char>, AEntry)>>, Ghost(i): Ghost<nat>) -> (r: (
    Option<(String, I18nEntry)>,
    Ghost<Option<AEntry>>,
))
    requires
        old(st).mode is InPlurals,
        mode_ok(old(st).mode, i),
        i < usize::MAX,
    ensures
        mode_ok(final(st).mode, i + 1),
        stepped(arv(*old(st), e), event_view(*ev), arv(*final(st), e), r.0, r.1@),
{
    let mut mode = ModeExec::Top;
    std::mem::swap(&mut mode, &mut st.mode);
    match mode {
        ModeExec::InPlurals { key, comment, ps, item } => {
            let mut ps = ps;
            match item {
                None => match ev {
                    XmlEvent::Start(n, a) => {
                        if str_eq(n.as_str(), "item") {
                            let q = match get_attr(a, "quantity") {
                                Some(q) => q,
                                None => String::new(),
                            };
                            st.mode = ModeExec::InPlurals { key, comment, ps, item: Some((q, new_content_exec())) };
                        } else {
                            st.mode = ModeExec::InPlurals { key, comment, ps, item: None };
                        }
                        (None, Ghost(None))
                    },
                    XmlEvent::End(n) => {
                        if str_eq(n.as_str(), "plurals") {
                            let ghost x = AEntry::Plurals { comment: opt_view(comment), ps: plural_set_view(ps) };
                            let en = build_plurals(key.clone(), comment, ps);
                            (Some((key, en)), Ghost(Some(x)))
                        } else {
                            st.mode = ModeExec::InPlurals { key, comment, ps, item: None };
                            (None, Ghost(None))
                        }
                    },
                    _ => {
                        st.mode = ModeExec::InPlurals { key, comment, ps, item: None };
                        (None, Ghost(None))
                    },
                },
                Some((q, c)) => {
                    let mut c = c;
                    match content_step_exec(&mut c, ev) {
                        CStepExec::Going => {
                            st.mode = ModeExec::InPlurals { key, comment, ps, item: Some((q, c)) };
                        },
                        CStepExec::Done => {
                            put_quantity_exec(&mut ps, &q, string_of(c.text.as_slice()));
                            st.mode = ModeExec::InPlurals { key, comment, ps, item: None };
                        },
                        CStepExec::Fail(m) => {
                            st.mode = ModeExec::Failed(m);
                        },
                    }
                    (None, Ghost(None))
                },
            }
        },
        _ => (None, Ghost(None)),
    }
}

fn array_exec(st: &mut AReadState, ev: &XmlEvent, Ghost(e): Ghost<Seq<(Seq<char>, AEntry)>>, Ghost(i): Ghost<nat>) -> (r: (
    Option<(String, I18nEntry)>,
    Ghost<Option<AEntry>>,
))
    requires
        old(st).mode is InArray,
        mode_ok(old(st).mode, i),
        i < usize::MAX,
    ensures
        mode_ok(final(st).mode, i + 1),
        stepped(arv(*old(st), e), event_view(*ev), arv(*final(st), e), r.0, r.1@),
{
    let mut mode = ModeExec::Top;
    std::mem::swap(&mut mode, &mut st.mode);
    match mode {
        ModeExec::InArray { key, comment, items, item } => {
            let mut items = items;
            match item {
                None => match ev {
                    XmlEvent::Start(n, a) => {
                        if str_eq(n.as_str(), "item") {
                            st.mode = ModeExec::InArray { key, comment, items, item: Some(new_content_exec()) };
                        } else {
                            st.mode = ModeExec::InArray { key, comment, items, item: None };
                        }
                        (None, Ghost(None))
                    },
                    XmlEvent::End(n) => {
                        if str_eq(n.as_str(), "string-array") {
                            let ghost x = AEntry::Array { comment: opt_view(comment), items: strings_view(items@) };
                            let en = build_array(key.clone(), comment, items);
                            (Some((key, en)), Ghost(Some(x)))
                        } else {
                            st.mode = ModeExec::InArray { key, comment, items, item: None };
                            (None, Ghost(None))
                        }
                    },
                    _ => {
                        st.mode = ModeExec::InArray { key, comment, items, item: None };
                        (None, Ghost(None))
                    },
                },
                Some(c) => {
                    let mut c = c;
                    match content_step_exec(&mut c, ev) {
                        CStepExec::Going => {
                            st.mode = ModeExec::InArray { key, comment, items, item: Some(c) };
                        },
                        CStepExec::Done => {
                            let t = string_of(c.text.as_slice());
                            let ghost before = items@;
                            items.push(t);
                            assert(strings_view(items@) =~= strings_view(before).push(c.text@));
                            st.mode = ModeExec::InArray { key, comment, items, item: None };
                        },
                        CStepExec::Fail(m) => {
                            st.mode = ModeExec::Failed(m);
                        },
                    }
                    (None, Ghost(None))
                },
            }
        },
        _ => (None, Ghost(None)),
    }
}


fn step_exec(st: &mut AReadState, ev: &XmlEvent, Ghost(e): Ghost<Seq<(Seq<char>, AEntry)>>, Ghost(i): Ghost<nat>) -> (r: (
    Option<(String, I18nEntry)>,
    Ghost<Option<AEntry>>,
))
    requires
        mode_ok(old(st).mode, i),
        i < usize::MAX,
    ensures
        mode_ok(final(st).mode, i + 1),
        stepped(arv(*old(st), e), event_view(*ev), arv(*final(st), e), r.0, r.1@),
{
    let kind: u8 = match &st.mode {
        ModeExec::Top => 0,
        ModeExec::InString { .. } => 1,
        ModeExec::InPlurals { .. } => 2,
        ModeExec::InArray { .. } => 3,
        ModeExec::Failed(_) => 4,
    };
    if kind == 0 {
        top_exec(st, ev, Ghost(e))
    } else if kind == 1 {
        string_exec(st, ev, Ghost(e), Ghost(i))
    } else if kind == 2 {
        plurals_exec(st, ev, Ghost(e), Ghost(i))
    } else if kind == 3 {
        array_exec(st, ev, Ghost(e), Ghost(i))
    } else {
        (None, Ghost(None))
    }
}

/// What finishing the input does.
pub open spec fn finished(before: AState, after: AState, done: Option<(String, I18nEntry)>, a: Option<AEntry>) -> bool {
    &&& after.entries == before.entries
    &&& match done {
        Some(d) => a matches Some(x) && entry_of_a(d.1, d.0@, x) && afinish(before) == AState {
            entries: map_insert(before.entries, d.0@, x),
            ..after
        },
        None => afinish(before) == after,
    }
}

fn finish_exec(st: &mut AReadState, Ghost(e): Ghost<Seq<(Seq<char>, AEntry)>>, Ghost(i): Ghost<nat>) -> (r: (
    Option<(String, I18nEntry)>,
    Ghost<Option<AEntry>>,
))
    requires
        mode_ok(old(st).mode, i),
    ensures
        finished(arv(*old(st), e), arv(*final(st), e), r.0, r.1@),
{
    let mut mode = ModeExec::Top;
    std::mem::swap(&mut mode, &mut st.mode);
    match mode {
        ModeExec::InString { key, translatable, formatted, product, comment, c } => {
            let mut c = c;
            finish_content_exec(&mut c);
            let ghost x = AEntry::Str {
                translatable: opt_view(translatable),
                formatted: opt_view(formatted),
                product: opt_view(product),
                comment: opt_view(comment),
                text: c.text@,
                phs: content_v(c).phs,
            };
            let en = build_str(key.clone(), translatable, formatted, product, comment, c);
            (Some((key, en)), Ghost(Some(x)))
        },
        ModeExec::InPlurals { key, comment, ps, item } => {
            let mut ps = ps;
            match item {
                Some((q, c)) => {
                    let mut c = c;
                    finish_content_exec(&mut c);
                    put_quantity_exec(&mut ps, &q, string_of(c.text.as_slice()));
                },
                None => {},
            }
            let ghost x = AEntry::Plurals { comment: opt_view(comment), ps: plural_set_view(ps) };
            let en = build_plurals(key.clone(), comment, ps);
            (Some((key, en)), Ghost(Some(x)))
        },
        ModeExec::InArray { key, comment, items, item } => {
            let mut items = items;
            match item {
                Some(c) => {
                    let mut c = c;
                    finish_content_exec(&mut c);
                    let ghost before = items@;
                    items.push(string_of(c.text.as_slice()));
                    assert(strings_view(items@) =~= strings_view(before).push(c.text@));
                },
                None => {},
            }
            let ghost x = AEntry::Array { comment: opt_view(comment), items: strings_view(items@) };
            let en = build_array(key.clone(), comment, items);
            (Some((key, en)), Ghost(Some(x)))
        },
        other => {
            st.mode = other;
            (None, Ghost(None))
        },
    }
}

/// Reads Android resources from their events.
pub fn parse_events(evs: &Vec<XmlEvent>) -> (r: Result<I18nResource, ParseError>)
    ensures
        match afinish(afold(events_view(evs@))).mode {
            AMode::Failed(m) => r matches Err(ParseError::Xml(x)) && x@ == m,
            _ => r matches Ok(res) && ResourceMetadata::spec_plain(res.metadata, FormatId::AndroidXml) && pairs_model(
                entry_map_pairs(res.entries),
                afinish(afold(events_view(evs@))).entries,
                a_rel(),
            ),
        },
{
    let ghost ev = events_view(evs@);
    let mut st = AReadState { mode: ModeExec::Top, pending: None };
    let mut entries = entry_map_new();
    let ghost mut model: Seq<(Seq<char>, AEntry)> = Seq::empty();
    let mut i: usize = 0;
    while i < evs.len()
        invariant
            i <= evs@.len(),
            ev == events_view(evs@),
            afold(ev.take(i as int)) == arv(st, model),
            pairs_model(entry_map_pairs(entries), model, a_rel()),
            mode_ok(st.mode, i as nat),
        decreases evs@.len() - i,
    {
        assert(ev.take(i + 1).drop_last() == ev.take(i as int));
        assert(ev.take(i + 1).last() == event_view(evs@[i as int]));
        let (done, Ghost(a)) = step_exec(&mut st, &evs[i], Ghost(model), Ghost(i as nat));
        match done {
            Some((k, en)) => {
                proof {
                    let x = a.unwrap();
                    assert(entry_of_a(en, en.key@, x));
                    lemma_pairs_model_insert(entry_map_pairs(entries), model, a_rel(), k@, en, x);
                    model = map_insert(model, k@, x);
                }
                entry_map_insert(&mut entries, k, en);
            },
            None => {},
        }
        i = i + 1;
    }
    assert(ev.take(evs@.len() as int) == ev);
    let (done, Ghost(a)) = finish_exec(&mut st, Ghost(model), Ghost(i as nat));
    match done {
        Some((k, en)) => {
            proof {
                let x = a.unwrap();
                assert(entry_of_a(en, en.key@, x));
                lemma_pairs_model_insert(entry_map_pairs(entries), model, a_rel(), k@, en, x);
                model = map_insert(model, k@, x);
            }
            entry_map_insert(&mut entries, k, en);
        },
        None => {},
    }
    match st.mode {
        ModeExec::Failed(m) => Err(ParseError::Xml(m)),
        _ => Ok(I18nResource { metadata: ResourceMetadata::for_format(FormatId::AndroidXml), entries }),
    }
}

/// How sure this format is that it can read a file with the extension and
/// content.
pub open spec fn spec_detect(extension: Seq<char>, content: Seq<u8>) -> Confidence {
    if extension == ".xml"@ {
        if valid_utf8(content) && contains(decode_utf8(content), "<resources"@) {
            Confidence::Definite
        } else {
            Confidence::Low
        }
    } else {
        Confidence::NoMatch
    }
}

impl Parser {
    /// An `.xml` file is certain when its UTF-8 text has `<resources`, and
    /// possible otherwise; other extensions do not match.
    pub fn detect(&self, extension: &str, content: &[u8]) -> (c: Confidence)
        ensures
            c == spec_detect(extension@, content@),
    {
        if str_eq(extension, ".xml") {
            match std::str::from_utf8(content) {
                Ok(s) => if str_contains(s, "<resources") {
                    return Confidence::Definite;
                },
                Err(_) => {},
            }
            return Confidence::Low;
        }
        Confidence::NoMatch
    }

    /// Parses Android string resources, text kept as written.
    pub fn parse(&self, content: &[u8]) -> (r: Result<I18nResource, ParseError>)
        ensures
            parse_ok(r, content@),
    {
        match read_xml(content, false) {
            Ok(evs) => parse_events(&evs),
            Err(m) => Err(ParseError::Xml(m)),
        }
    }
}

impl super::FormatParser for Parser {
    fn detect(&self, extension: &str, content: &[u8]) -> (c: Confidence)
        ensures
            c == spec_detect(extension@, content@),
    {
        Parser::detect(self, extension, content)
    }

    fn parse(&self, content: &[u8]) -> (r: Result<I18nResource, ParseError>)
        ensures
            parse_ok(r, content@),
    {
        Parser::parse(self, content)
    }

    fn capabilities(&self) -> (c: FormatCapabilities)
        ensures
            c == capabilities_spec(),
    {
        Parser::capabilities(self)
    }
}

impl super::FormatWriter for Writer {
    fn write(&self, resource: &I18nResource) -> (r: Result<Vec<u8>, WriteError>)
        ensures
            r matches Ok(b) && b@ == encode_utf8(document_text(*resource)),
    {
        Writer::write(self, resource)
    }

    fn capabilities(&self) -> (c: FormatCapabilities)
        ensures
            c == capabilities_spec(),
    {
        Writer::capabilities(self)
    }
}

} // verus!
