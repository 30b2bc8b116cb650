//! XML as a list of events, read and written by `quick-xml`; the formats
//! decide what the events mean.
use vstd::prelude::*;
use quick_xml::events::{BytesDecl, BytesEnd, BytesStart, BytesText, Event};
use crate::text::str_eq;
use crate::formats::opt_view;
use vstd::utf8::{valid_utf8, decode_utf8};

verus! {

/// `quick_xml::events::BytesStart`, held opaquely.
#[verifier::external_type_specification]
#[verifier::external_body]
pub struct ExBytesStart<'a>(BytesStart<'a>);

/// `quick_xml::events::BytesText`, held opaquely.
#[verifier::external_type_specification]
#[verifier::external_body]
pub struct ExBytesText<'a>(BytesText<'a>);

/// `quick_xml::events::Event`, held opaquely.
#[verifier::external_type_specification]
#[verifier::external_body]
pub struct ExEvent<'a>(Event<'a>);

/// One event read from an XML text. Names are as written (with any
/// prefix), read lossily; an attribute is its key, read lossily, and the raw
/// bytes of its value; a text is unescaped, and one that cannot be is kept
/// as the unescaping error's message; comments and CDATA are their raw
/// contents read lossily.
pub enum XmlEvent {
    Start(String, Vec<(String, Vec<u8>)>),
    Empty(String, Vec<(String, Vec<u8>)>),
    End(String),
    Text(String),
    BadText(String),
    Comment(String),
    CData(String),
    Other,
}

pub enum XmlEventView {
    Start(Seq<char>, Seq<(Seq<char>, Seq<u8>)>),
    Empty(Seq<char>, Seq<(Seq<char>, Seq<u8>)>),
    End(Seq<char>),
    Text(Seq<char>),
    BadText(Seq<char>),
    Comment(Seq<char>),
    CData(Seq<char>),
    Other,
}

pub open spec fn opt_text(o: Option<String>) -> Option<Seq<char>> {
    match o {
        Some(s) => Some(s@),
        None => None,
    }
}

pub open spec fn attrs_view(a: Seq<(String, Vec<u8>)>) -> Seq<(Seq<char>, Seq<u8>)> {
    a.map_values(|p: (String, Vec<u8>)| (p.0@, p.1@))
}

pub open spec fn event_view(e: XmlEvent) -> XmlEventView {
    match e {
        XmlEvent::Start(n, a) => XmlEventView::Start(n@, attrs_view(a@)),
        XmlEvent::Empty(n, a) => XmlEventView::Empty(n@, attrs_view(a@)),
        XmlEvent::End(n) => XmlEventView::End(n@),
        XmlEvent::Text(t) => XmlEventView::Text(t@),
        XmlEvent::BadText(m) => XmlEventView::BadText(m@),
        XmlEvent::Comment(c) => XmlEventView::Comment(c@),
        XmlEvent::CData(c) => XmlEventView::CData(c@),
        XmlEvent::Other => XmlEventView::Other,
    }
}

pub open spec fn events_view(v: Seq<XmlEvent>) -> Seq<XmlEventView> {
    v.map_values(|e: XmlEvent| event_view(e))
}

/// One event as `quick-xml`'s reader gives it: as `XmlEvent`, but each
/// attribute of a tag is `None` when the reader reports an error for it.
pub enum ReadEvent {
    Start(String, Vec<Option<(String, Vec<u8>)>>),
    Empty(String, Vec<Option<(String, Vec<u8>)>>),
    End(String),
    Text(String),
    BadText(String),
    Comment(String),
    CData(String),
    Other,
}

pub enum ReadEventView {
    Start(Seq<char>, Seq<Option<(Seq<char>, Seq<u8>)>>),
    Empty(Seq<char>, Seq<Option<(Seq<char>, Seq<u8>)>>),
    End(Seq<char>),
    Text(Seq<char>),
    BadText(Seq<char>),
    Comment(Seq<char>),
    CData(Seq<char>),
    Other,
}

pub open spec fn read_attrs_view(a: Seq<Option<(String, Vec<u8>)>>) -> Seq<Option<(Seq<char>, Seq<u8>)>> {
    a.map_values(|p: Option<(String, Vec<u8>)>| match p {
        Some(x) => Some((x.0@, x.1@)),
        None => None,
    })
}

pub open spec fn read_view(e: ReadEvent) -> ReadEventView {
    match e {
        ReadEvent::Start(n, a) => ReadEventView::Start(n@, read_attrs_view(a@)),
        ReadEvent::Empty(n, a) => ReadEventView::Empty(n@, read_attrs_view(a@)),
        ReadEvent::End(n) => ReadEventView::End(n@),
        ReadEvent::Text(t) => ReadEventView::Text(t@),
        ReadEvent::BadText(m) => ReadEventView::BadText(m@),
        ReadEvent::Comment(c) => ReadEventView::Comment(c@),
        ReadEvent::CData(c) => ReadEventView::CData(c@),
        ReadEvent::Other => ReadEventView::Other,
    }
}

pub open spec fn reads_view(v: Seq<ReadEvent>) -> Seq<ReadEventView> {
    v.map_values(|e: ReadEvent| read_view(e))
}

/// The events `quick-xml`'s reader gives for the bytes up to the end, with
/// text trimmed when `trim` holds; none when the reader reports an error.
pub uninterp spec fn xml_read_events(b: Seq<u8>, trim: bool) -> Option<Seq<ReadEventView>>;

/// The attributes that read without error, in order.
pub open spec fn good_attrs(a: Seq<Option<(Seq<char>, Seq<u8>)>>) -> Seq<(Seq<char>, Seq<u8>)>
    decreases a.len(),
{
    if a.len() == 0 {
        Seq::empty()
    } else {
        match a.last() {
            Some(x) => good_attrs(a.drop_last()).push(x),
            None => good_attrs(a.drop_last()),
        }
    }
}

/// An event with the attributes that do not read set aside.
pub open spec fn cooked(e: ReadEventView) -> XmlEventView {
    match e {
        ReadEventView::Start(n, a) => XmlEventView::Start(n, good_attrs(a)),
        ReadEventView::Empty(n, a) => XmlEventView::Empty(n, good_attrs(a)),
        ReadEventView::End(n) => XmlEventView::End(n),
        ReadEventView::Text(t) => XmlEventView::Text(t),
        ReadEventView::BadText(m) => XmlEventView::BadText(m),
        ReadEventView::Comment(c) => XmlEventView::Comment(c),
        ReadEventView::CData(c) => XmlEventView::CData(c),
        ReadEventView::Other => XmlEventView::Other,
    }
}

/// The events read from the bytes, with text trimmed when `trim` holds and
/// the attributes that do not read set aside; none when the reader reports
/// an error.
pub open spec fn xml_read(b: Seq<u8>, trim: bool) -> Option<Seq<XmlEventView>> {
    match xml_read_events(b, trim) {
        Some(evs) => Some(evs.map_values(|e: ReadEventView| cooked(e))),
        None => None,
    }
}

/// The attributes of a `quick-xml` start tag: each the key read lossily and
/// the raw bytes of the value, or `None` when the reader reports an error
/// for it. Called only by `convert_event`.
#[verifier::external_body]
fn convert_attrs(s: &BytesStart) -> Vec<Option<(String, Vec<u8>)>> {
    s.attributes().map(|a| a.ok().map(|a| (String::from_utf8_lossy(a.key.as_ref()).to_string(), a.value.to_vec()))).collect()
}

/// A `quick-xml` text, unescaped, or the unescaping error's message.
/// Called only by `convert_event`.
#[verifier::external_body]
fn convert_text(t: &BytesText) -> ReadEvent {
    match t.unescape() {
        Ok(u) => ReadEvent::Text(u.to_string()),
        Err(x) => ReadEvent::BadText(x.to_string()),
    }
}

/// A `quick-xml` event as an event of this library. Called only by
/// `read_xml_events`, whose contract covers it.
#[verifier::external_body]
fn convert_event(e: &Event) -> ReadEvent {
    let name = |n: &[u8]| String::from_utf8_lossy(n).to_string();
    match e {
        Event::Start(s) => ReadEvent::Start(name(s.name().as_ref()), convert_attrs(s)),
        Event::Empty(s) => ReadEvent::Empty(name(s.name().as_ref()), convert_attrs(s)),
        Event::End(x) => ReadEvent::End(name(x.name().as_ref())),
        Event::Text(t) => convert_text(t),
        Event::Comment(c) => ReadEvent::Comment(name(c.as_ref())),
        Event::CData(c) => ReadEvent::CData(name(c.as_ref())),
        _ => ReadEvent::Other,
    }
}

/// `quick_xml::reader::Reader::read_event_into` until the end: the events
/// of the bytes, or the reader's message at its first error. The message's
/// text is not stated.
#[verifier::external_body]
pub fn read_xml_events(b: &[u8], trim: bool) -> (r: Result<Vec<ReadEvent>, String>)
    ensures
        match xml_read_events(b@, trim) {
            Some(evs) => r matches Ok(v) && reads_view(v@) == evs,
            None => r is Err,
        },
{
    let mut reader = quick_xml::reader::Reader::from_reader(b);
    reader.config_mut().trim_text(trim);
    let mut buf = Vec::new();
    let mut out = Vec::new();
    loop {
        match reader.read_event_into(&mut buf) {
            Ok(Event::Eof) => return Ok(out),
            Ok(e) => out.push(convert_event(&e)),
            Err(e) => return Err(e.to_string()),
        }
        buf.clear();
    }
}

fn copy_bytes(v: &Vec<u8>) -> (r: Vec<u8>)
    ensures
        r@ == v@,
{
    let mut r: Vec<u8> = Vec::new();
    let mut i: usize = 0;
    while i < v.len()
        invariant
            i <= v@.len(),
            r@ == v@.take(i as int),
        decreases v@.len() - i,
    {
        r.push(v[i]);
        assert(r@ =~= v@.take(i + 1));
        i = i + 1;
    }
    assert(v@.take(v@.len() as int) =~= v@);
    r
}

/// The attributes that read without error, in order.
fn keep_good_attrs(a: &Vec<Option<(String, Vec<u8>)>>) -> (r: Vec<(String, Vec<u8>)>)
    ensures
        attrs_view(r@) == good_attrs(read_attrs_view(a@)),
{
    let ghost av = read_attrs_view(a@);
    let mut r: Vec<(String, Vec<u8>)> = Vec::new();
    let mut i: usize = 0;
    assert(attrs_view(r@) =~= good_attrs(av.take(0)));
    while i < a.len()
        invariant
            i <= a@.len(),
            av == read_attrs_view(a@),
            attrs_view(r@) == good_attrs(av.take(i as int)),
        decreases a@.len() - i,
    {
        assert(av.take(i + 1).drop_last() =~= av.take(i as int));
        assert(av.take(i + 1).last() == av[i as int]);
        match &a[i] {
            Some(x) => {
                let ghost before = r@;
                r.push((x.0.clone(), copy_bytes(&x.1)));
                assert(attrs_view(r@) =~= attrs_view(before).push((x.0@, x.1@)));
            },
            None => {},
        }
        i = i + 1;
    }
    assert(av.take(a@.len() as int) =~= av);
    r
}

/// An event with the attributes that do not read set aside.
fn cook_event(e: &ReadEvent) -> (r: XmlEvent)
    ensures
        event_view(r) == cooked(read_view(*e)),
{
    match e {
        ReadEvent::Start(n, a) => XmlEvent::Start(n.clone(), keep_good_attrs(a)),
        ReadEvent::Empty(n, a) => XmlEvent::Empty(n.clone(), keep_good_attrs(a)),
        ReadEvent::End(n) => XmlEvent::End(n.clone()),
        ReadEvent::Text(t) => XmlEvent::Text(t.clone()),
        ReadEvent::BadText(m) => XmlEvent::BadText(m.clone()),
        ReadEvent::Comment(c) => XmlEvent::Comment(c.clone()),
        ReadEvent::CData(c) => XmlEvent::CData(c.clone()),
        ReadEvent::Other => XmlEvent::Other,
    }
}

/// The events of the bytes, with text trimmed when `trim` holds and the
/// attributes that do not read set aside, or the reader's message at its
/// first error.
pub fn read_xml(b: &[u8], trim: bool) -> (r: Result<Vec<XmlEvent>, String>)
    ensures
        match xml_read(b@, trim) {
            Some(evs) => r matches Ok(v) && events_view(v@) == evs,
            None => r is Err,
        },
{
    let raw = read_xml_events(b, trim)?;
    let ghost rv = reads_view(raw@);
    let mut out: Vec<XmlEvent> = Vec::new();
    let mut i: usize = 0;
    while i < raw.len()
        invariant
            i <= raw@.len(),
            rv == reads_view(raw@),
            events_view(out@) == rv.take(i as int).map_values(|e: ReadEventView| cooked(e)),
        decreases raw@.len() - i,
    {
        let ghost before = out@;
        let ev = cook_event(&raw[i]);
        out.push(ev);
        assert(events_view(out@) =~= events_view(before).push(event_view(ev)));
        assert(rv.take(i + 1).map_values(|e: ReadEventView| cooked(e)) =~= rv.take(i as int).map_values(
            |e: ReadEventView| cooked(e),
        ).push(cooked(rv[i as int])));
        i = i + 1;
    }
    assert(rv.take(raw@.len() as int) =~= rv);
    Ok(out)
}

/// One event of XML read as it is written: a start or empty tag as its
/// content (the name and the attributes, as written), an end tag as its
/// name, a text as written (not unescaped); anything else as `Other`. Each
/// is read lossily as text.
pub enum RawEvent {
    Start(String),
    Empty(String),
    End(String),
    Text(String),
    Other,
}

pub enum RawEventView {
    Start(Seq<char>),
    Empty(Seq<char>),
    End(Seq<char>),
    Text(Seq<char>),
    Other,
}

pub open spec fn raw_view(e: RawEvent) -> RawEventView {
    match e {
        RawEvent::Start(c) => RawEventView::Start(c@),
        RawEvent::Empty(c) => RawEventView::Empty(c@),
        RawEvent::End(n) => RawEventView::End(n@),
        RawEvent::Text(t) => RawEventView::Text(t@),
        RawEvent::Other => RawEventView::Other,
    }
}

pub open spec fn raws_view(v: Seq<RawEvent>) -> Seq<RawEventView> {
    v.map_values(|e: RawEvent| raw_view(e))
}

/// The events, read as written, that `quick-xml`'s reader gives for the
/// bytes up to the end, text not trimmed; none when the reader reports an
/// error.
pub uninterp spec fn xml_read_raw(b: Seq<u8>) -> Option<Seq<RawEventView>>;

/// A `quick-xml` event as written. Called only by `read_xml_raw`, whose
/// contract covers it.
#[verifier::external_body]
fn convert_raw(e: &Event) -> RawEvent {
    let text = |b: &[u8]| String::from_utf8_lossy(b).to_string();
    match e {
        Event::Start(x) => RawEvent::Start(text(x)),
        Event::Empty(x) => RawEvent::Empty(text(x)),
        Event::End(x) => RawEvent::End(text(x)),
        Event::Text(x) => RawEvent::Text(text(x)),
        _ => RawEvent::Other,
    }
}

/// `quick_xml::reader::Reader::read_event_into` until the end, text not
/// trimmed: the events as written, or the reader's message at its first
/// error. The message's text is not stated.
#[verifier::external_body]
pub fn read_xml_raw(b: &[u8]) -> (r: Result<Vec<RawEvent>, String>)
    ensures
        match xml_read_raw(b@) {
            Some(evs) => r matches Ok(v) && raws_view(v@) == evs,
            None => r is Err,
        },
{
    let mut reader = quick_xml::reader::Reader::from_reader(b);
    reader.config_mut().trim_text(false);
    let mut buf = Vec::new();
    let mut out = Vec::new();
    loop {
        match reader.read_event_into(&mut buf) {
            Ok(Event::Eof) => return Ok(out),
            Ok(e) => out.push(convert_raw(&e)),
            Err(e) => return Err(e.to_string()),
        }
        buf.clear();
    }
}

/// One event to write.
pub enum XmlOut {
    Decl(String, Option<String>),
    Start(String, Vec<(String, String)>),
    Empty(String, Vec<(String, String)>),
    End(String),
    Text(String),
    RawStart(String),
    RawEmpty(String),
    RawText(String),
}

pub enum XmlOutView {
    Decl(Seq<char>, Option<Seq<char>>),
    Start(Seq<char>, Seq<(Seq<char>, Seq<char>)>),
    Empty(Seq<char>, Seq<(Seq<char>, Seq<char>)>),
    End(Seq<char>),
    Text(Seq<char>),
    RawStart(Seq<char>),
    RawEmpty(Seq<char>),
    RawText(Seq<char>),
}

pub open spec fn out_attrs_view(a: Seq<(String, String)>) -> Seq<(Seq<char>, Seq<char>)> {
    a.map_values(|p: (String, String)| (p.0@, p.1@))
}

pub open spec fn out_view(e: XmlOut) -> XmlOutView {
    match e {
        XmlOut::Decl(v, enc) => XmlOutView::Decl(v@, opt_text(enc)),
        XmlOut::Start(n, a) => XmlOutView::Start(n@, out_attrs_view(a@)),
        XmlOut::Empty(n, a) => XmlOutView::Empty(n@, out_attrs_view(a@)),
        XmlOut::End(n) => XmlOutView::End(n@),
        XmlOut::Text(t) => XmlOutView::Text(t@),
        XmlOut::RawStart(c) => XmlOutView::RawStart(c@),
        XmlOut::RawEmpty(c) => XmlOutView::RawEmpty(c@),
        XmlOut::RawText(t) => XmlOutView::RawText(t@),
    }
}

pub open spec fn outs_view(v: Seq<XmlOut>) -> Seq<XmlOutView> {
    v.map_values(|e: XmlOut| out_view(e))
}

/// The bytes `quick-xml`'s writer gives for the events, indented by
/// `indent_size` copies of `indent_char` (no indentation when the size is
/// zero); text and attribute values are escaped by the writer, while the
/// content of a raw tag (its name and attributes) and a raw text are
/// written as they are.
pub uninterp spec fn xml_written(evs: Seq<XmlOutView>, indent_char: u8, indent_size: usize) -> Seq<u8>;

/// A `quick-xml` start tag with the attributes pushed in order. Called only
/// by `to_event`.
#[verifier::external_body]
fn to_start(n: &str, a: &Vec<(String, String)>) -> BytesStart<'static> {
    let mut s = BytesStart::new(n.to_string());
    a.iter().for_each(|(k, v)| s.push_attribute((k.as_str(), v.as_str())));
    s
}

/// A `quick-xml` start tag whose content (name and attributes) is taken as
/// written. Called only by `to_event`.
#[verifier::external_body]
fn raw_start(c: &String) -> BytesStart<'_> {
    BytesStart::from_content(c.as_str(), c.len())
}

/// An event of this library as a `quick-xml` event. Called only by
/// `write_xml`, whose contract covers it.
#[verifier::external_body]
fn to_event(e: &XmlOut) -> Event<'_> {
    match e {
        XmlOut::Decl(v, enc) => Event::Decl(BytesDecl::new(v.as_str(), enc.as_deref(), None)),
        XmlOut::Start(n, a) => Event::Start(to_start(n.as_str(), a)),
        XmlOut::Empty(n, a) => Event::Empty(to_start(n.as_str(), a)),
        XmlOut::End(n) => Event::End(BytesEnd::new(n.as_str())),
        XmlOut::Text(t) => Event::Text(BytesText::new(t.as_str())),
        XmlOut::RawStart(c) => Event::Start(raw_start(c)),
        XmlOut::RawEmpty(c) => Event::Empty(raw_start(c)),
        XmlOut::RawText(t) => Event::Text(BytesText::from_escaped(t.as_str())),
    }
}

/// `quick_xml::writer::Writer::write_event` for each event in turn, into a
/// byte buffer: the bytes written. Writing into a `Vec` never fails, so the
/// result is always `Ok`.
#[verifier::external_body]
pub fn write_xml(evs: &Vec<XmlOut>, indent_char: u8, indent_size: usize) -> (r: Result<Vec<u8>, String>)
    ensures
        r is Ok,
        r matches Ok(b) ==> b@ == xml_written(outs_view(evs@), indent_char, indent_size),
{
    let mut buf = Vec::new();
    let mut writer = if indent_size > 0 {
        quick_xml::writer::Writer::new_with_indent(std::io::Cursor::new(&mut buf), indent_char, indent_size)
    } else {
        quick_xml::writer::Writer::new(std::io::Cursor::new(&mut buf))
    };
    for e in evs.iter() {
        writer.write_event(to_event(e)).map_err(|x| x.to_string())?;
    }
    drop(writer);
    Ok(buf)
}

/// The value of the first attribute named `name`: its text when it is UTF-8.
pub open spec fn attr_get(attrs: Seq<(Seq<char>, Seq<u8>)>, name: Seq<char>) -> Option<Seq<char>>
    decreases attrs.len(),
{
    if attrs.len() == 0 {
        None
    } else if attrs[0].0 == name {
        if valid_utf8(attrs[0].1) {
            Some(decode_utf8(attrs[0].1))
        } else {
            None
        }
    } else {
        attr_get(attrs.drop_first(), name)
    }
}

/// Gets an attribute's value: that of the first attribute with the name,
/// when it is UTF-8.
pub fn get_attr(attrs: &Vec<(String, Vec<u8>)>, name: &str) -> (r: Option<String>)
    ensures
        opt_view(r) == attr_get(attrs_view(attrs@), name@),
{
    let ghost av = attrs_view(attrs@);
    let mut i: usize = 0;
    assert(av.skip(0) == av);
    while i < attrs.len()
        invariant
            i <= attrs@.len(),
            av == attrs_view(attrs@),
            attr_get(av, name@) == attr_get(av.skip(i as int), name@),
        decreases attrs@.len() - i,
    {
        assert(av.skip(i as int)[0] == av[i as int]);
        assert(av.skip(i as int).drop_first() == av.skip(i + 1));
        if str_eq(attrs[i].0.as_str(), name) {
            return match std::str::from_utf8(attrs[i].1.as_slice()) {
                Ok(v) => Some(v.to_owned()),
                Err(_) => None,
            };
        }
        i = i + 1;
    }
    None
}

pub open spec fn opt_attr(name: Seq<char>, v: Option<Seq<char>>) -> Seq<(Seq<char>, Seq<char>)> {
    match v {
        Some(x) => seq![(name, x)],
        None => Seq::empty(),
    }
}

/// `<element>text</element>`.
pub open spec fn text_element(name: Seq<char>, attrs: Seq<(Seq<char>, Seq<char>)>, text: Seq<char>) -> Seq<XmlOutView> {
    seq![XmlOutView::Start(name, attrs), XmlOutView::Text(text), XmlOutView::End(name)]
}

/// The events of each item, one after another.
pub open spec fn flat_events<A>(s: Seq<A>, f: spec_fn(A) -> Seq<XmlOutView>) -> Seq<XmlOutView>
    decreases s.len(),
{
    if s.len() == 0 {
        Seq::empty()
    } else {
        flat_events(s.drop_last(), f) + f(s.last())
    }
}

pub proof fn lemma_flat_events_step<A>(s: Seq<A>, i: int, f: spec_fn(A) -> Seq<XmlOutView>)
    requires
        0 <= i < s.len(),
    ensures
        flat_events(s.take(i + 1), f) == flat_events(s.take(i), f) + f(s[i]),
{
    assert(s.take(i + 1).drop_last() == s.take(i));
}

pub proof fn lemma_flat_events_full<A>(s: Seq<A>, f: spec_fn(A) -> Seq<XmlOutView>)
    ensures
        flat_events(s.take(s.len() as int), f) == flat_events(s, f),
{
    assert(s.take(s.len() as int) == s);
}

pub fn push_ev(evs: &mut Vec<XmlOut>, e: XmlOut)
    ensures
        outs_view(final(evs)@) == outs_view(old(evs)@).push(out_view(e)),
{
    let ghost before = evs@;
    evs.push(e);
    assert(outs_view(evs@) =~= outs_view(before).push(out_view(e)));
}

pub fn push_text_element(evs: &mut Vec<XmlOut>, name: &str, attrs: Vec<(String, String)>, text: String)
    ensures
        outs_view(final(evs)@) == outs_view(old(evs)@) + text_element(name@, out_attrs_view(attrs@), text@),
{
    let ghost start = outs_view(evs@);
    push_ev(evs, XmlOut::Start(name.to_owned(), attrs));
    push_ev(evs, XmlOut::Text(text));
    push_ev(evs, XmlOut::End(name.to_owned()));
    assert(outs_view(evs@) =~= start + text_element(name@, out_attrs_view(attrs@), text@));
}

pub fn push_opt_attr(attrs: &mut Vec<(String, String)>, name: &str, v: Option<String>)
    ensures
        out_attrs_view(final(attrs)@) == out_attrs_view(old(attrs)@) + opt_attr(name@, opt_view(v)),
{
    let ghost before = attrs@;
    match v {
        Some(x) => {
            attrs.push((name.to_owned(), x));
            assert(out_attrs_view(attrs@) =~= out_attrs_view(before) + opt_attr(name@, opt_view(v)));
        },
        None => {
            assert(out_attrs_view(before) + opt_attr(name@, opt_view(v)) =~= out_attrs_view(before));
        },
    }
}

pub fn no_attrs() -> (a: Vec<(String, String)>)
    ensures
        out_attrs_view(a@) == Seq::<(Seq<char>, Seq<char>)>::empty(),
{
    let a: Vec<(String, String)> = Vec::new();
    assert(out_attrs_view(a@) =~= Seq::<(Seq<char>, Seq<char>)>::empty());
    a
}

} // verus!
