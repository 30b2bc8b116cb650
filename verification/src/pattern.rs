//! Regular-expression matching, from the `regex` crate.
use vstd::prelude::*;
use vstd::utf8::{valid_utf8, decode_utf8, encode_utf8};
use crate::text::string_bytes;

verus! {

/// Where `regex` finds `pattern` in `text`: for each match, left to right
/// and without overlap, the byte offsets (in the UTF-8 text) of its start
/// and end and those of its first capture group when the group takes part.
/// `None` when the pattern does not compile.
pub uninterp spec fn regex_spans(pattern: Seq<char>, text: Seq<char>) -> Option<Seq<(usize, usize, Option<(usize, usize)>)>>;

/// The end of the match before the `k`th, or the start of the text.
pub open spec fn prev_end(sp: Seq<(usize, usize, Option<(usize, usize)>)>, k: int) -> int {
    if k == 0 {
        0
    } else {
        sp[k - 1].1 as int
    }
}

/// What holds of the matches in the UTF-8 bytes of the text: they come in
/// order without overlap, each group inside its match, and every offset is a
/// character boundary, so that each stretch between them reads as UTF-8.
#[verifier::opaque]
pub open spec fn spans_fit(b: Seq<u8>, sp: Seq<(usize, usize, Option<(usize, usize)>)>) -> bool {
    &&& forall|k: int| 0 <= k < sp.len() ==> prev_end(sp, k) <= (#[trigger] sp[k]).0 <= sp[k].1 <= b.len()
    &&& forall|k: int| 0 <= k < sp.len() ==> ((#[trigger] sp[k]).2 matches Some((gs, ge)) ==> sp[k].0 <= gs <= ge <= sp[k].1)
    &&& forall|k: int| 0 <= k < sp.len() ==> valid_utf8(b.subrange(prev_end(sp, k), (#[trigger] sp[k]).0 as int))
    &&& forall|k: int| 0 <= k < sp.len() ==> valid_utf8(b.subrange((#[trigger] sp[k]).0 as int, sp[k].1 as int))
    &&& forall|k: int| 0 <= k < sp.len() ==> ((#[trigger] sp[k]).2 matches Some((gs, ge)) ==> valid_utf8(b.subrange(gs as int, ge as int)))
    &&& valid_utf8(b.skip(prev_end(sp, sp.len() as int)))
}

/// `Regex::new(pattern)` and then `Regex::captures_iter(text)`: the offsets
/// of each match and of its first group. `regex` documents that the offsets
/// of a match of a `&str` fall on UTF-8 character boundaries and that the
/// matches come in order without overlap.
#[verifier::external_body]
pub fn regex_find_spans(pattern: &str, text: &str) -> (r: Option<Vec<(usize, usize, Option<(usize, usize)>)>>)
    ensures
        match regex_spans(pattern@, text@) {
            Some(sp) => r matches Some(v) && v@ == sp && spans_fit(encode_utf8(text@), sp),
            None => r is None,
        },
{
    let re = regex::Regex::new(pattern).ok()?;
    Some(re.captures_iter(text).map(|c| (c.get_match().start(), c.get_match().end(), c.get(1).map(|g| (g.start(), g.end())))).collect())
}

/// The facts about one match.
pub proof fn lemma_span_at(b: Seq<u8>, sp: Seq<(usize, usize, Option<(usize, usize)>)>, k: int)
    requires
        spans_fit(b, sp),
        0 <= k < sp.len(),
    ensures
        prev_end(sp, k) <= sp[k].0 <= sp[k].1 <= b.len(),
        valid_utf8(b.subrange(prev_end(sp, k), sp[k].0 as int)),
        valid_utf8(b.subrange(sp[k].0 as int, sp[k].1 as int)),
        sp[k].2 matches Some((gs, ge)) ==> (sp[k].0 <= gs <= ge <= sp[k].1 && valid_utf8(b.subrange(gs as int, ge as int))),
        prev_end(sp, k + 1) == sp[k].1,
{
    reveal(spans_fit);
    assert(sp[k] == sp[k]);
}

/// The text after the last match reads as UTF-8.
pub proof fn lemma_span_tail(b: Seq<u8>, sp: Seq<(usize, usize, Option<(usize, usize)>)>)
    requires
        spans_fit(b, sp),
    ensures
        0 <= prev_end(sp, sp.len() as int) <= b.len(),
        valid_utf8(b.skip(prev_end(sp, sp.len() as int))),
{
    reveal(spans_fit);
    if sp.len() > 0 {
        assert(sp[sp.len() - 1] == sp[sp.len() - 1]);
    }
}

/// The text of the bytes between two offsets.
pub open spec fn stretch(b: Seq<u8>, from: int, to: int) -> Seq<char> {
    decode_utf8(b.subrange(from, to))
}

/// The piece of the `k`th match: the text between the previous match (or
/// the start) and this one, the whole match and its first capture group
/// (empty when the group takes no part).
pub open spec fn split_piece(b: Seq<u8>, sp: Seq<(usize, usize, Option<(usize, usize)>)>, k: int) -> (Seq<char>, Seq<char>, Seq<char>) {
    (
        stretch(b, prev_end(sp, k), sp[k].0 as int),
        stretch(b, sp[k].0 as int, sp[k].1 as int),
        match sp[k].2 {
            Some((gs, ge)) => stretch(b, gs as int, ge as int),
            None => Seq::empty(),
        },
    )
}

pub open spec fn split_pieces(b: Seq<u8>, sp: Seq<(usize, usize, Option<(usize, usize)>)>) -> Seq<(Seq<char>, Seq<char>, Seq<char>)> {
    Seq::new(sp.len(), |k: int| split_piece(b, sp, k))
}

/// The pieces of the text around the matches, in order, and the text after
/// the last match. `None` when the pattern does not compile.
pub open spec fn regex_split(pattern: Seq<char>, text: Seq<char>) -> Option<
    (Seq<(Seq<char>, Seq<char>, Seq<char>)>, Seq<char>),
> {
    match regex_spans(pattern, text) {
        Some(sp) => Some(
            (split_pieces(encode_utf8(text), sp), decode_utf8(encode_utf8(text).skip(prev_end(sp, sp.len() as int)))),
        ),
        None => None,
    }
}

/// The characters of each string of each piece.
pub open spec fn pieces_view(v: Seq<(String, String, String)>) -> Seq<(Seq<char>, Seq<char>, Seq<char>)> {
    v.map_values(|p: (String, String, String)| (p.0@, p.1@, p.2@))
}

/// The text of the bytes between two offsets that lie on character
/// boundaries.
fn stretch_exec(b: &Vec<u8>, from: usize, to: usize) -> (r: String)
    requires
        from <= to <= b@.len(),
        valid_utf8(b@.subrange(from as int, to as int)),
    ensures
        r@ == stretch(b@, from as int, to as int),
{
    let mut v: Vec<u8> = Vec::new();
    let mut i: usize = from;
    while i < to
        invariant
            from <= i <= to <= b@.len(),
            v@ == b@.subrange(from as int, i as int),
        decreases to - i,
    {
        v.push(b[i]);
        assert(v@ =~= b@.subrange(from as int, i + 1));
        i = i + 1;
    }
    match std::str::from_utf8(v.as_slice()) {
        Ok(s) => s.to_owned(),
        Err(_) => String::new(),
    }
}

/// The text around each match of `pattern` in `text`, each match and its
/// first group, and the text after the last match.
pub fn regex_capture_split(pattern: &str, text: &str) -> (r: Option<(Vec<(String, String, String)>, String)>)
    ensures
        match regex_split(pattern@, text@) {
            Some((ps, t)) => r matches Some((v, tail)) && pieces_view(v@) == ps && tail@ == t,
            None => r is None,
        },
{
    let spans = match regex_find_spans(pattern, text) {
        Some(v) => v,
        None => return None,
    };
    let ghost sp = spans@;
    let b = string_bytes(&text.to_owned());
    let ghost want = split_pieces(b@, sp);
    let mut pieces: Vec<(String, String, String)> = Vec::new();
    let mut last: usize = 0;
    let mut k: usize = 0;
    while k < spans.len()
        invariant
            k <= sp.len(),
            sp == spans@,
            spans_fit(b@, sp),
            want == split_pieces(b@, sp),
            last as int == prev_end(sp, k as int),
            pieces_view(pieces@) == want.take(k as int),
        decreases sp.len() - k,
    {
        let (s, e, g) = spans[k];
        assert(sp[k as int] == (s, e, g));
        proof {
            lemma_span_at(b@, sp, k as int);
        }
        let before = stretch_exec(&b, last, s);
        let whole = stretch_exec(&b, s, e);
        let group = match g {
            Some((gs, ge)) => stretch_exec(&b, gs, ge),
            None => String::new(),
        };
        let ghost old_pieces = pieces@;
        pieces.push((before, whole, group));
        assert(pieces_view(pieces@) =~= pieces_view(old_pieces).push((before@, whole@, group@)));
        assert(want[k as int] == split_piece(b@, sp, k as int));
        assert(want.take(k + 1) =~= want.take(k as int).push(want[k as int]));
        last = e;
        k = k + 1;
    }
    assert(want.take(sp.len() as int) =~= want);
    proof {
        lemma_span_tail(b@, sp);
        assert(b@.subrange(last as int, b@.len() as int) =~= b@.skip(last as int));
    }
    let tail = stretch_exec(&b, last, b.len());
    assert(b@.subrange(last as int, b@.len() as int) =~= b@.skip(last as int));
    Some((pieces, tail))
}

/// Whether `regex` finds a match of `pattern` in `text`; `None` when the
/// pattern does not compile.
pub uninterp spec fn regex_matches(pattern: Seq<char>, text: Seq<char>) -> Option<bool>;

/// `Regex::new(pattern)` and then `Regex::is_match(text)`.
#[verifier::external_body]
pub fn regex_is_match(pattern: &str, text: &str) -> (r: Option<bool>)
    ensures
        r == regex_matches(pattern@, text@),
{
    match regex::Regex::new(pattern) {
        Ok(re) => Some(re.is_match(text)),
        Err(_) => None,
    }
}

/// What `regex` captures of `pattern` at its first match in `text`: the
/// text of each group, the whole match first, `None` for a group that takes
/// no part; `Some(None)` when nothing matches; `None` when the pattern does
/// not compile.
pub uninterp spec fn regex_groups(pattern: Seq<char>, text: Seq<char>) -> Option<Option<Seq<Option<Seq<char>>>>>;

pub open spec fn groups_view(v: Seq<Option<String>>) -> Seq<Option<Seq<char>>> {
    v.map_values(|g: Option<String>| match g {
        Some(s) => Some(s@),
        None => None,
    })
}

/// `Regex::new(pattern)` and then `Regex::captures(text)`, each group as a
/// plain string.
#[verifier::external_body]
pub fn regex_captures(pattern: &str, text: &str) -> (r: Option<Option<Vec<Option<String>>>>)
    ensures
        match regex_groups(pattern@, text@) {
            Some(Some(gs)) => r matches Some(Some(v)) && groups_view(v@) == gs,
            Some(None) => r matches Some(None),
            None => r is None,
        },
{
    match regex::Regex::new(pattern) {
        Ok(re) => Some(re.captures(text).map(|c| c.iter().map(|m| m.map(|m| m.as_str().to_string())).collect())),
        Err(_) => None,
    }
}

} // verus!
