//! SubRip subtitles: blocks of a sequence number, a timecode line and the
//! text lines of the cue, separated by blank lines.
use vstd::prelude::*;
use crate::collections::{
    entry_map_pairs, entry_map_new, entry_map_insert, map_insert, key_index, map_get, pairs_model, lemma_pairs_model_insert,
    entry_map_len, entry_map_get_index, str_map_pairs, str_map_new, str_map_insert, str_map_get,
};
use crate::ir::{
    I18nResource, I18nEntry, ResourceMetadata, FormatId, EntryValue, FormatCapabilities, FormatExtension, SrtExt,
};
use crate::text::{
    str_chars, string_of, trim, trim_chars, lines, split_lines, utf8_error_message, str_eq, chars_range, string_views,
    join, join_strings, decimal, push_decimal, parse_u32_spec, parse_u32, split_char, split_at_char, index_of,
    find_char, split_pat_from, lemma_index_of, split_at_pat, push_chars,
};
use crate::pattern::{regex_split, regex_capture_split};
use vstd::utf8::{valid_utf8, decode_utf8, encode_utf8};
use super::{Confidence, ParseError, WriteError, opt_view, other_text, other_text_exec};

verus! {

pub struct Parser;

pub struct Writer;

// ---------------------------------------------------------------------------
// Timecodes
// ---------------------------------------------------------------------------

/// A timecode `HH:MM:SS,mmm`: before its first comma three numbers
/// separated by colons, after it a number. It is the text trimmed, when the
/// text is one.
pub open spec fn spec_timecode(s: Seq<char>) -> Option<Seq<char>> {
    let t = trim(s);
    match index_of(t, ',') {
        None => None,
        Some(k) => {
            let hms = split_char(t.take(k), ':');
            if hms.len() == 3 && (forall|i: int| 0 <= i < 3 ==> parse_u32_spec(#[trigger] hms[i]) is Some)
                && parse_u32_spec(trim(t.skip(k + 1))) is Some {
                Some(t)
            } else {
                None
            }
        },
    }
}

/// A timecode line `start --> end`: exactly one arrow, with a timecode on
/// each side.
pub open spec fn spec_timecode_line(l: Seq<char>) -> Option<(Seq<char>, Seq<char>)> {
    let parts = split_pat_from(l, "-->"@, 0);
    if parts.len() != 2 {
        None
    } else {
        match (spec_timecode(parts[0]), spec_timecode(parts[1])) {
            (Some(a), Some(z)) => Some((a, z)),
            _ => None,
        }
    }
}

fn invalid(prefix: &str, v: &[char]) -> (e: ParseError)
    ensures
        e is InvalidFormat,
{
    let mut m = prefix.to_owned();
    m.append(" '");
    push_chars(&mut m, v);
    m.append("'");
    ParseError::InvalidFormat(m)
}

/// Parses a single timecode like `00:00:01,000`.
fn parse_timecode(s: &[char]) -> (r: Result<Vec<char>, ParseError>)
    ensures
        match spec_timecode(s@) {
            Some(t) => r matches Ok(v) && v@ == t,
            None => r matches Err(ParseError::InvalidFormat(_)),
        },
{
    let t = trim_chars(s);
    let k = match find_char(t.as_slice(), ',') {
        Some(k) => k,
        None => {
            return Err(invalid("Invalid SRT timecode (missing comma):", t.as_slice()));
        },
    };
    proof {
        lemma_index_of(t@, ',');
    }
    let head = chars_range(t.as_slice(), 0, k);
    assert(head@ == t@.take(k as int));
    let hms = split_at_char(head.as_slice(), ':');
    let ghost hv = hms@.map_values(|l: Vec<char>| l@);
    if hms.len() != 3 {
        return Err(invalid("Invalid SRT timecode (expected HH:MM:SS):", t.as_slice()));
    }
    let mut i: usize = 0;
    while i < 3
        invariant
            i <= 3,
            hms@.len() == 3,
            hv == hms@.map_values(|l: Vec<char>| l@),
            hv == split_char(t@.take(k as int), ':'),
            t@ == trim(s@),
            index_of(t@, ',') == Some(k as int),
            k < t@.len(),
            forall|j: int| 0 <= j < i ==> parse_u32_spec(#[trigger] hv[j]) is Some,
        decreases 3 - i,
    {
        assert(hv[i as int] == hms@[i as int]@);
        if parse_u32(hms[i].as_slice()).is_none() {
            return Err(invalid("Invalid SRT timecode component:", hms[i].as_slice()));
        }
        i = i + 1;
    }
    assert(k < t.len());
    let tail = chars_range(t.as_slice(), k + 1, t.len());
    assert(tail@ == t@.skip(k + 1));
    let ms = trim_chars(tail.as_slice());
    if parse_u32(ms.as_slice()).is_none() {
        return Err(invalid("Invalid SRT timecode milliseconds:", tail.as_slice()));
    }
    Ok(t)
}

/// Parses a timecode line `HH:MM:SS,mmm --> HH:MM:SS,mmm`.
fn parse_timecode_line(line: &[char]) -> (r: Result<(Vec<char>, Vec<char>), ParseError>)
    ensures
        match spec_timecode_line(line@) {
            Some((a, z)) => r matches Ok((va, vz)) && va@ == a && vz@ == z,
            None => r matches Err(ParseError::InvalidFormat(_)),
        },
{
    let arrow = str_chars("-->");
    proof {
        reveal_strlit("-->");
    }
    let parts = split_at_pat(line, arrow.as_slice());
    let ghost pv = parts@.map_values(|l: Vec<char>| l@);
    if parts.len() != 2 {
        return Err(invalid("Invalid SRT timecode line:", line));
    }
    assert(pv[0] == parts@[0]@ && pv[1] == parts@[1]@);
    let start = parse_timecode(parts[0].as_slice())?;
    let end = parse_timecode(parts[1].as_slice())?;
    Ok((start, end))
}

// ---------------------------------------------------------------------------
// Blocks
// ---------------------------------------------------------------------------

/// A line with nothing but white space.
pub open spec fn is_blank(l: Seq<char>) -> bool {
    trim(l).len() == 0
}

/// The blocks found so far and the lines of the block being read.
pub type BlockState = (Seq<Seq<char>>, Seq<Seq<char>>);

pub open spec fn block_step(st: BlockState, l: Seq<char>) -> BlockState {
    if is_blank(l) {
        if st.1.len() > 0 {
            (st.0.push(join(st.1, "\n"@)), Seq::empty())
        } else {
            st
        }
    } else {
        (st.0, st.1.push(l))
    }
}

pub open spec fn block_fold(ls: Seq<Seq<char>>) -> BlockState
    decreases ls.len(),
{
    if ls.len() == 0 {
        (Seq::empty(), Seq::empty())
    } else {
        block_step(block_fold(ls.drop_last()), ls.last())
    }
}

/// The blocks of a text: its runs of lines that are not blank, each joined
/// with new lines, in order.
pub open spec fn srt_blocks(s: Seq<char>) -> Seq<Seq<char>> {
    let st = block_fold(split_char(s, '\n'));
    if st.1.len() > 0 {
        st.0.push(join(st.1, "\n"@))
    } else {
        st.0
    }
}

fn is_blank_exec(l: &[char]) -> (r: bool)
    ensures
        r == is_blank(l@),
{
    trim_chars(l).len() == 0
}

fn join_lines(ls: &Vec<String>) -> (r: String)
    ensures
        r@ == join(string_views(ls@), "\n"@),
{
    let nl = "\n";
    proof {
        reveal_strlit("\n");
    }
    join_strings(ls, nl)
}

/// Splits SRT content into blocks separated by one or more blank lines.
fn split_srt_blocks(s: &[char]) -> (r: Vec<String>)
    ensures
        string_views(r@) == srt_blocks(s@),
{
    let pieces = split_at_char(s, '\n');
    let ghost pv = pieces@.map_values(|l: Vec<char>| l@);
    let mut blocks: Vec<String> = Vec::new();
    let mut cur: Vec<String> = Vec::new();
    let mut i: usize = 0;
    while i < pieces.len()
        invariant
            i <= pieces@.len(),
            pv == pieces@.map_values(|l: Vec<char>| l@),
            pv == split_char(s@, '\n'),
            block_fold(pv.take(i as int)) == (string_views(blocks@), string_views(cur@)),
        decreases pieces@.len() - i,
    {
        assert(pv.take(i + 1).drop_last() == pv.take(i as int));
        assert(pv.take(i + 1).last() == pieces@[i as int]@);
        if is_blank_exec(pieces[i].as_slice()) {
            if cur.len() > 0 {
                let ghost before = string_views(blocks@);
                let b = join_lines(&cur);
                blocks.push(b);
                assert(string_views(blocks@) == before.push(b@));
                cur = Vec::new();
                assert(string_views(cur@) == Seq::<Seq<char>>::empty());
            }
        } else {
            let ghost before = string_views(cur@);
            let l = string_of(pieces[i].as_slice());
            cur.push(l);
            assert(string_views(cur@) == before.push(l@));
        }
        i = i + 1;
    }
    assert(pv.take(pieces@.len() as int) == pv);
    if cur.len() > 0 {
        let ghost before = string_views(blocks@);
        let b = join_lines(&cur);
        blocks.push(b);
        assert(string_views(blocks@) == before.push(b@));
    }
    blocks
}

// ---------------------------------------------------------------------------
// Reading
// ---------------------------------------------------------------------------

/// A cue: its sequence number, start time, end time and text.
pub type CueView = (u32, Seq<char>, Seq<char>, Seq<char>);

/// What a block is read as.
pub enum BlockOutcome {
    /// Fewer than two lines: nothing is read.
    Skip,
    /// A sequence number or a timecode line that does not read.
    Bad,
    /// A cue.
    Cue(CueView),
}

/// A block trimmed and split into lines: the first is the sequence number,
/// the second the timecode line, the rest the text, joined by new lines.
pub open spec fn block_outcome(b: Seq<char>) -> BlockOutcome {
    let ls = lines(trim(b));
    if ls.len() < 2 {
        BlockOutcome::Skip
    } else {
        match parse_u32_spec(trim(ls[0])) {
            None => BlockOutcome::Bad,
            Some(n) => match spec_timecode_line(ls[1]) {
                None => BlockOutcome::Bad,
                Some((a, z)) => BlockOutcome::Cue((n, a, z, join(ls.skip(2), "\n"@))),
            },
        }
    }
}

/// The cues of the blocks by key, the decimal sequence number (a later cue
/// replaces an earlier one with the same number in its place); `None` when
/// a block does not read.
pub open spec fn cue_fold(bs: Seq<Seq<char>>) -> Option<Seq<(Seq<char>, CueView)>>
    decreases bs.len(),
{
    if bs.len() == 0 {
        Some(Seq::empty())
    } else {
        match cue_fold(bs.drop_last()) {
            None => None,
            Some(acc) => match block_outcome(bs.last()) {
                BlockOutcome::Skip => Some(acc),
                BlockOutcome::Bad => None,
                BlockOutcome::Cue(c) => Some(map_insert(acc, decimal(c.0 as nat), c)),
            },
        }
    }
}

pub proof fn lemma_cue_fold_stuck(bs: Seq<Seq<char>>, i: int)
    requires
        0 <= i <= bs.len(),
        cue_fold(bs.take(i)) is None,
    ensures
        cue_fold(bs) is None,
    decreases bs.len() - i,
{
    if i < bs.len() {
        assert(bs.take(i + 1).drop_last() == bs.take(i));
        lemma_cue_fold_stuck(bs, i + 1);
    } else {
        assert(bs.take(i) == bs);
    }
}

/// The text without a leading byte order mark.
pub open spec fn strip_bom(s: Seq<char>) -> Seq<char> {
    if s.len() > 0 && s[0] == '\u{FEFF}' {
        s.drop_first()
    } else {
        s
    }
}

/// The cues of an SRT text.
pub open spec fn spec_read(text: Seq<char>) -> Option<Seq<(Seq<char>, CueView)>> {
    cue_fold(srt_blocks(strip_bom(text)))
}

/// The entry of a cue: keyed by its sequence number, its text as the value,
/// the sequence number and times as custom properties and in the SRT
/// extension.
pub open spec fn cue_entry(e: I18nEntry, c: CueView) -> bool {
    &&& e.key@ == decimal(c.0 as nat)
    &&& e.value matches EntryValue::Simple(s) && s@ == c.3
    &&& e.comments@.len() == 0
    &&& str_map_pairs(e.properties) == seq![
        ("srt.sequence"@, decimal(c.0 as nat)),
        ("srt.start_time"@, c.1),
        ("srt.end_time"@, c.2),
    ]
    &&& e.format_ext matches Some(FormatExtension::Srt(x)) && x.sequence_number == Some(c.0) && opt_view(x.start_time)
        == Some(c.1) && opt_view(x.end_time) == Some(c.2)
    &&& I18nEntry::spec_bare_but_properties(e)
}

pub open spec fn cue_rel() -> spec_fn(I18nEntry, CueView) -> bool {
    |e: I18nEntry, c: CueView| cue_entry(e, c)
}

/// What a resource read from SRT holds: the cues, and plain SRT metadata.
pub open spec fn parsed_resource(res: I18nResource, m: Seq<(Seq<char>, CueView)>) -> bool {
    &&& ResourceMetadata::spec_plain_except_ext(res.metadata, FormatId::Srt)
    &&& res.metadata.format_ext matches Some(FormatExtension::Srt(x)) && x.sequence_number is None && x.start_time is None
        && x.end_time is None
    &&& pairs_model(entry_map_pairs(res.entries), m, cue_rel())
}

fn read_block(b: &String) -> (r: Result<Option<(u32, Vec<char>, Vec<char>, String)>, ParseError>)
    ensures
        match block_outcome(b@) {
            BlockOutcome::Skip => r matches Ok(None),
            BlockOutcome::Bad => r matches Err(ParseError::InvalidFormat(_)),
            BlockOutcome::Cue(c) => r matches Ok(Some((n, a, z, t))) && n == c.0 && a@ == c.1 && z@ == c.2 && t@ == c.3,
        },
{
    let c = str_chars(b.as_str());
    let t = trim_chars(c.as_slice());
    let ls = split_lines(t.as_slice());
    let ghost lv = ls@.map_values(|l: Vec<char>| l@);
    if ls.len() < 2 {
        return Ok(None);
    }
    assert(lv[0] == ls@[0]@ && lv[1] == ls@[1]@);
    let seq_str = trim_chars(ls[0].as_slice());
    let n = match parse_u32(seq_str.as_slice()) {
        Some(n) => n,
        None => {
            return Err(invalid("Invalid SRT sequence number:", seq_str.as_slice()));
        },
    };
    let (a, z) = parse_timecode_line(ls[1].as_slice())?;
    let mut rest: Vec<String> = Vec::new();
    let mut i: usize = 2;
    while i < ls.len()
        invariant
            2 <= i <= ls@.len(),
            lv == ls@.map_values(|l: Vec<char>| l@),
            string_views(rest@) == lv.subrange(2, i as int),
        decreases ls@.len() - i,
    {
        let ghost before = string_views(rest@);
        let l = string_of(ls[i].as_slice());
        rest.push(l);
        assert(string_views(rest@) == before.push(l@));
        assert(lv.subrange(2, i + 1) == lv.subrange(2, i as int).push(lv[i as int]));
        i = i + 1;
    }
    assert(lv.subrange(2, ls@.len() as int) == lv.skip(2));
    let text = join_lines(&rest);
    Ok(Some((n, a, z, text)))
}

fn cue_entry_exec(n: u32, a: &Vec<char>, z: &Vec<char>, text: String) -> (e: I18nEntry)
    ensures
        cue_entry(e, (n, a@, z@, text@)),
{
    let mut key = String::new();
    push_decimal(&mut key, n as u64);
    let mut e = I18nEntry::with_value(key.clone(), EntryValue::Simple(text));
    let start = string_of(a.as_slice());
    let end = string_of(z.as_slice());
    let k1 = "srt.sequence";
    let k2 = "srt.start_time";
    let k3 = "srt.end_time";
    let mut props = str_map_new();
    let ghost s0 = str_map_pairs(props);
    str_map_insert(&mut props, k1.to_owned(), key.clone());
    let ghost s1 = str_map_pairs(props);
    str_map_insert(&mut props, k2.to_owned(), start.clone());
    let ghost s2 = str_map_pairs(props);
    str_map_insert(&mut props, k3.to_owned(), end.clone());
    proof {
        reveal_strlit("srt.sequence");
        reveal_strlit("srt.start_time");
        reveal_strlit("srt.end_time");
        assert(k1@.len() == 12 && k2@.len() == 14 && k3@.len() == 12);
        assert(k1@ != k2@);
        assert(k1@[4] != k3@[4]);
        assert(k1@ != k3@);
        assert(k2@ != k3@);
        assert(s1 == seq![(k1@, key@)]);
        assert(s1.drop_first() == Seq::<(Seq<char>, Seq<char>)>::empty());
        assert(key_index(s1.drop_first(), k2@) == -1);
        assert(key_index(s1, k2@) == -1);
        assert(s2 == seq![(k1@, key@), (k2@, start@)]);
        assert(s2.drop_first().drop_first() == Seq::<(Seq<char>, Seq<char>)>::empty());
        assert(s2.drop_first() == seq![(k2@, start@)]);
        assert(key_index(s2.drop_first().drop_first(), k3@) == -1);
        assert(key_index(s2.drop_first(), k3@) == -1);
        assert(key_index(s2, k3@) == -1);
    }
    e.properties = props;
    e.format_ext = Some(FormatExtension::Srt(SrtExt { sequence_number: Some(n), start_time: Some(start), end_time: Some(end) }));
    assert(e.key@ == decimal(n as nat));
    assert(str_map_pairs(e.properties) == seq![
        ("srt.sequence"@, decimal(n as nat)),
        ("srt.start_time"@, a@),
        ("srt.end_time"@, z@),
    ]);
    assert(I18nEntry::spec_bare_but_properties(e));
    e
}

/// Parses SRT text.
pub fn parse_srt(text: &str) -> (r: Result<I18nResource, ParseError>)
    ensures
        match spec_read(text@) {
            None => r matches Err(ParseError::InvalidFormat(_)),
            Some(m) => r matches Ok(res) && parsed_resource(res, m),
        },
{
    let c = str_chars(text);
    let body = if c.len() > 0 && c[0] == '\u{FEFF}' {
        chars_range(c.as_slice(), 1, c.len())
    } else {
        chars_range(c.as_slice(), 0, c.len())
    };
    assert(body@ == strip_bom(text@));
    let blocks = split_srt_blocks(body.as_slice());
    let ghost bv = string_views(blocks@);
    let mut entries = entry_map_new();
    let mut i: usize = 0;
    assert(bv.take(0) == Seq::<Seq<char>>::empty());
    while i < blocks.len()
        invariant
            i <= blocks@.len(),
            bv == string_views(blocks@),
            bv == srt_blocks(strip_bom(text@)),
            cue_fold(bv.take(i as int)) matches Some(m) && pairs_model(entry_map_pairs(entries), m, cue_rel()),
        decreases blocks@.len() - i,
    {
        assert(bv.take(i + 1).drop_last() == bv.take(i as int));
        assert(bv.take(i + 1).last() == blocks@[i as int]@);
        let ghost m = cue_fold(bv.take(i as int)).unwrap();
        match read_block(&blocks[i]) {
            Err(e) => {
                proof {
                    lemma_cue_fold_stuck(bv, i + 1);
                }
                return Err(e);
            },
            Ok(None) => {},
            Ok(Some((n, a, z, t))) => {
                let mut key = String::new();
                push_decimal(&mut key, n as u64);
                let e = cue_entry_exec(n, &a, &z, t);
                proof {
                    lemma_pairs_model_insert(entry_map_pairs(entries), m, cue_rel(), key@, e, (n, a@, z@, e.value->Simple_0@));
                }
                entry_map_insert(&mut entries, key, e);
            },
        }
        i = i + 1;
    }
    assert(bv.take(blocks@.len() as int) == bv);
    let mut metadata = ResourceMetadata::for_format(FormatId::Srt);
    metadata.format_ext = Some(FormatExtension::Srt(SrtExt { sequence_number: None, start_time: None, end_time: None }));
    Ok(I18nResource { metadata, entries })
}

pub open spec fn cue_pattern_found(text: Seq<char>) -> bool {
    regex_split(r"(?m)^\d+\s*\n\d{2}:\d{2}:\d{2},\d{3}\s*-->"@, text) matches Some((ps, _)) && ps.len() > 0
}

/// `.srt` is certain; UTF-8 content with a line holding only a number
/// followed by a timecode arrow line is likely.
pub open spec fn spec_detect(ext: Seq<char>, content: Seq<u8>) -> Confidence {
    if ext == ".srt"@ {
        Confidence::Definite
    } else if valid_utf8(content) && cue_pattern_found(decode_utf8(content)) {
        Confidence::High
    } else {
        Confidence::NoMatch
    }
}

pub open spec fn spec_capabilities() -> FormatCapabilities {
    FormatCapabilities { custom_properties: true, ..FormatCapabilities::spec_none() }
}

impl Parser {
    pub fn detect(&self, extension: &str, content: &[u8]) -> (c: Confidence)
        ensures
            c == spec_detect(extension@, content@),
    {
        if str_eq(extension, ".srt") {
            return Confidence::Definite;
        }
        match std::str::from_utf8(content) {
            Ok(s) => match regex_capture_split(r"(?m)^\d+\s*\n\d{2}:\d{2}:\d{2},\d{3}\s*-->", s) {
                Some((v, _)) => if v.len() > 0 {
                    Confidence::High
                } else {
                    Confidence::NoMatch
                },
                None => Confidence::NoMatch,
            },
            Err(_) => Confidence::NoMatch,
        }
    }

    /// Parses UTF-8 SRT content; a block whose sequence number or timecode
    /// line does not read is an error.
    pub fn parse(&self, content: &[u8]) -> (r: Result<I18nResource, ParseError>)
        ensures
            !valid_utf8(content@) ==> r matches Err(ParseError::InvalidFormat(_)),
            valid_utf8(content@) ==> match spec_read(decode_utf8(content@)) {
                None => r matches Err(ParseError::InvalidFormat(_)),
                Some(m) => r matches Ok(res) && parsed_resource(res, m),
            },
    {
        match std::str::from_utf8(content) {
            Ok(text) => parse_srt(text),
            Err(e) => Err(ParseError::InvalidFormat(utf8_error_message(&e))),
        }
    }

    pub fn capabilities(&self) -> (c: FormatCapabilities)
        ensures
            c == spec_capabilities(),
    {
        FormatCapabilities { custom_properties: true, ..FormatCapabilities::default() }
    }
}

// ---------------------------------------------------------------------------
// Writing
// ---------------------------------------------------------------------------

/// The sequence number an entry gives: its `srt.sequence` property when
/// that reads as a number, else that of its SRT extension.
pub open spec fn given_sequence(e: I18nEntry) -> Option<u32> {
    match map_get(str_map_pairs(e.properties), "srt.sequence"@) {
        Some(t) if parse_u32_spec(t) is Some => parse_u32_spec(t),
        _ => match e.format_ext {
            Some(FormatExtension::Srt(x)) => x.sequence_number,
            _ => None,
        },
    }
}

/// A time an entry gives: the custom property, else the field of its SRT
/// extension.
pub open spec fn given_time(e: I18nEntry, prop: Seq<char>, start: bool) -> Option<Seq<char>> {
    match map_get(str_map_pairs(e.properties), prop) {
        Some(t) => Some(t),
        None => match e.format_ext {
            Some(FormatExtension::Srt(x)) => if start {
                opt_view(x.start_time)
            } else {
                opt_view(x.end_time)
            },
            _ => None,
        },
    }
}

/// At least two digits, with a leading zero below ten.
pub open spec fn two_digits(n: nat) -> Seq<char> {
    if n < 10 {
        seq!['0'] + decimal(n)
    } else {
        decimal(n)
    }
}

/// A made-up time `00:00:SS,000` at `n` seconds.
pub open spec fn synthetic_time(n: nat) -> Seq<char> {
    "00:00:"@ + two_digits(n) + ",000"@
}

/// Writing one entry, from the highest sequence number so far and the text
/// written. An entry without a sequence number gets the next one; a cue
/// without times gets the seconds before and at its number. `None` where
/// the next number would pass `u32::MAX`, or where a cue numbered 0 has no
/// start time: there the count runs out of range.
pub open spec fn write_step(st: Option<(u32, Seq<char>)>, e: I18nEntry) -> Option<(u32, Seq<char>)> {
    match st {
        None => None,
        Some((c, out)) => {
            let given = given_sequence(e);
            let start = given_time(e, "srt.start_time"@, true);
            let end = given_time(e, "srt.end_time"@, false);
            if given is None && c == u32::MAX {
                None
            } else {
                let n: u32 = match given {
                    Some(n) => n,
                    None => (c + 1) as u32,
                };
                if start is None && n == 0 {
                    None
                } else {
                    let c2: u32 = if n > c { n } else { c };
                    let sep = if c > 0 { "\n"@ } else { Seq::empty() };
                    let a = match start {
                        Some(t) => t,
                        None => synthetic_time((n - 1) as nat),
                    };
                    let z = match end {
                        Some(t) => t,
                        None => synthetic_time(n as nat),
                    };
                    Some((c2, out + sep + decimal(n as nat) + "\n"@ + a + " --> "@ + z + "\n"@ + other_text(e.value) + "\n"@))
                }
            }
        },
    }
}

pub open spec fn write_fold(ps: Seq<(Seq<char>, I18nEntry)>) -> Option<(u32, Seq<char>)>
    decreases ps.len(),
{
    if ps.len() == 0 {
        Some((0u32, Seq::empty()))
    } else {
        write_step(write_fold(ps.drop_last()), ps.last().1)
    }
}

/// The SRT text of a resource, its entries in order; `None` where the
/// sequence numbers run out of range.
pub open spec fn spec_srt_text(res: I18nResource) -> Option<Seq<char>> {
    match write_fold(entry_map_pairs(res.entries)) {
        Some((_, out)) => Some(out),
        None => None,
    }
}

fn given_sequence_exec(e: &I18nEntry) -> (r: Option<u32>)
    ensures
        r == given_sequence(*e),
{
    match str_map_get(&e.properties, "srt.sequence") {
        Some(t) => {
            let c = str_chars(t.as_str());
            match parse_u32(c.as_slice()) {
                Some(n) => {
                    return Some(n);
                },
                None => {},
            }
        },
        None => {},
    }
    match &e.format_ext {
        Some(FormatExtension::Srt(x)) => x.sequence_number,
        _ => None,
    }
}

fn given_time_exec(e: &I18nEntry, prop: &str, start: bool) -> (r: Option<String>)
    ensures
        opt_view(r) == given_time(*e, prop@, start),
{
    match str_map_get(&e.properties, prop) {
        Some(t) => Some(t.clone()),
        None => match &e.format_ext {
            Some(FormatExtension::Srt(x)) => if start {
                super::clone_opt(&x.start_time)
            } else {
                super::clone_opt(&x.end_time)
            },
            _ => None,
        },
    }
}

fn push_synthetic_time(out: &mut String, n: u32)
    ensures
        final(out)@ == old(out)@ + synthetic_time(n as nat),
{
    let ghost start = out@;
    out.append("00:00:");
    if n < 10 {
        out.push('0');
    }
    push_decimal(out, n as u64);
    out.append(",000");
    assert(out@ =~= start + synthetic_time(n as nat));
}

fn write_cue(out: &mut String, c: u32, n: u32, a: &Option<String>, z: &Option<String>, text: &String)
    requires
        a is None ==> n > 0,
    ensures
        final(out)@ == old(out)@ + (if c > 0 { "\n"@ } else { Seq::empty() }) + decimal(n as nat) + "\n"@ + (match opt_view(*a) {
            Some(t) => t,
            None => synthetic_time((n - 1) as nat),
        }) + " --> "@ + (match opt_view(*z) {
            Some(t) => t,
            None => synthetic_time(n as nat),
        }) + "\n"@ + text@ + "\n"@,
{
    let ghost s0 = out@;
    if c > 0 {
        out.push('\n');
    }
    let ghost s1 = out@;
    push_decimal(out, n as u64);
    out.push('\n');
    let ghost s2 = out@;
    match a {
        Some(t) => out.append(t.as_str()),
        None => push_synthetic_time(out, n - 1),
    }
    let ghost s3 = out@;
    out.append(" --> ");
    let ghost s4 = out@;
    match z {
        Some(t) => out.append(t.as_str()),
        None => push_synthetic_time(out, n),
    }
    let ghost s5 = out@;
    out.push('\n');
    out.append(text.as_str());
    out.push('\n');
    proof {
        reveal_strlit("\n");
        reveal_strlit(" --> ");
    }
    assert(s1 =~= s0 + (if c > 0 { "\n"@ } else { Seq::empty() }));
    assert(out@ =~= s5 + "\n"@ + text@ + "\n"@);
}

fn render(res: &I18nResource) -> (r: Option<String>)
    ensures
        opt_view(r) == spec_srt_text(*res),
{
    let ghost ps = entry_map_pairs(res.entries);
    let n = entry_map_len(&res.entries);
    let mut out = String::new();
    let mut counter: u32 = 0;
    let mut i: usize = 0;
    assert(ps.take(0) == Seq::<(Seq<char>, I18nEntry)>::empty());
    while i < n
        invariant
            n == ps.len(),
            ps == entry_map_pairs(res.entries),
            i <= n,
            write_fold(ps.take(i as int)) == Some((counter, out@)),
        decreases n - i,
    {
        assert(ps.take(i + 1).drop_last() == ps.take(i as int));
        let (_, e) = entry_map_get_index(&res.entries, i).unwrap();
        assert(ps.take(i + 1).last().1 == *e);
        let given = given_sequence_exec(e);
        let start = given_time_exec(e, "srt.start_time", true);
        let end = given_time_exec(e, "srt.end_time", false);
        if given.is_none() && counter == u32::MAX {
            proof {
                lemma_write_fold_stuck(ps, i + 1);
            }
            return None;
        }
        let seq: u32 = match given {
            Some(v) => v,
            None => counter + 1,
        };
        if start.is_none() && seq == 0 {
            proof {
                lemma_write_fold_stuck(ps, i + 1);
            }
            return None;
        }
        let text = other_text_exec(&e.value);
        write_cue(&mut out, counter, seq, &start, &end, &text);
        if seq > counter {
            counter = seq;
        }
        i = i + 1;
    }
    assert(ps.take(n as int) == ps);
    Some(out)
}

pub proof fn lemma_write_fold_stuck(ps: Seq<(Seq<char>, I18nEntry)>, i: int)
    requires
        0 <= i <= ps.len(),
        write_fold(ps.take(i)) is None,
    ensures
        write_fold(ps) is None,
    decreases ps.len() - i,
{
    if i < ps.len() {
        assert(ps.take(i + 1).drop_last() == ps.take(i));
        lemma_write_fold_stuck(ps, i + 1);
    } else {
        assert(ps.take(i) == ps);
    }
}

/// Whether the resource can be written: its sequence numbers stay in range.
pub fn can_write(res: &I18nResource) -> (b: bool)
    ensures
        b == spec_srt_text(*res) is Some,
{
    render(res).is_some()
}

impl Writer {
    /// Writes the entries as SRT cues, in order.
    pub fn write(&self, res: &I18nResource) -> (r: Result<Vec<u8>, WriteError>)
        requires
            spec_srt_text(*res) is Some,
        ensures
            r matches Ok(b) && b@ == encode_utf8(spec_srt_text(*res).unwrap()),
    {
        match render(res) {
            Some(out) => Ok(crate::text::string_bytes(&out)),
            None => Ok(Vec::new()),
        }
    }

    pub fn capabilities(&self) -> (c: FormatCapabilities)
        ensures
            c == spec_capabilities(),
    {
        Parser.capabilities()
    }
}

impl super::FormatParser for Parser {
    fn detect(&self, extension: &str, content: &[u8]) -> (c: Confidence)
        ensures
            c == spec_detect(extension@, content@),
    {
        Parser::detect(self, extension, content)
    }

    fn parse(&self, content: &[u8]) -> (r: Result<I18nResource, ParseError>)
        ensures
            !valid_utf8(content@) ==> r matches Err(ParseError::InvalidFormat(_)),
            valid_utf8(content@) ==> match spec_read(decode_utf8(content@)) {
                None => r matches Err(ParseError::InvalidFormat(_)),
                Some(m) => r matches Ok(res) && parsed_resource(res, m),
            },
    {
        Parser::parse(self, content)
    }

    fn capabilities(&self) -> (c: FormatCapabilities)
        ensures
            c == spec_capabilities(),
    {
        Parser::capabilities(self)
    }
}

impl super::FormatWriter for Writer {
    fn write(&self, res: &I18nResource) -> (r: Result<Vec<u8>, WriteError>)
        ensures
            !(spec_srt_text(*res) is Some) ==> (r matches Err(e) && e is Serialization),
            (spec_srt_text(*res) is Some) ==> (r matches Ok(b) && b@ == encode_utf8(spec_srt_text(*res).unwrap())),
    {
        if can_write(res) {
            Writer::write(self, res)
        } else {
            Err(WriteError::Serialization("the resource cannot be written in this format".to_owned()))
        }
    }

    fn capabilities(&self) -> (c: FormatCapabilities)
        ensures
            c == spec_capabilities(),
    {
        Writer::capabilities(self)
    }
}

} // verus!
