//! Reading back what the PO writer wrote: a resource of plain entries keeps
//! its keys, their order and their texts.
use vstd::prelude::*;
use crate::collections::{entry_map_pairs, key_index, keys_unique, lemma_key_index, str_map_pairs};
use crate::ir::{EntryValue, FormatExtension, I18nEntry, I18nResource, TranslationState};
use crate::text::{
    concat_all, concat_map, find_pat, index_of, is_ws, lemma_index_of, lines, strip_cr, trim, trim_end, trim_start,
    starts_with, lemma_concat_all_step, lemma_find_pat, occurs_at, split_pat_from,
};
use crate::formats::po::{
    escape_char, spec_escape, spec_unescape, unescape_step, lemma_unescape_step, lemma_po_string_roundtrip, piece_lines,
    spec_append, spec_extract_quoted, spec_keyword_value, block_fold,
    block_step, BlockState, BlockView, CurrentField, empty_block, is_header, kw_text, spec_po_lines,
    spec_entry_text, entry_block_text, flags_text, header_text, spec_get_nplurals, spec_write, spec_blocks, po_fold,
    po_step, spec_parse, spec_entry_key, parsed_resource, po_rel, entry_of_block, line_nl, comment_text,
    ref_text, ctx_text, prev_text, msgid_of, value_text, header_line_text, hash_comment, spec_comment_line,
};
use super::{opt_view, strings_view};
use vstd::utf8::{decode_utf8, encode_utf8, valid_utf8};

verus! {

// ---------------------------------------------------------------------------
// Lines of written text
// ---------------------------------------------------------------------------

/// Text that ends a line splits into lines on its own.
pub proof fn lemma_lines_append(a: Seq<char>, b: Seq<char>)
    requires
        a.len() == 0 || a.last() == '\n',
    ensures
        lines(a + b) == lines(a) + lines(b),
    decreases a.len(),
{
    if a.len() == 0 {
        assert(a + b =~= b);
        assert(lines(a) + lines(b) =~= lines(b));
    } else {
        let t = a + b;
        lemma_index_of(a, '\n');
        lemma_index_of(t, '\n');
        let k: int = match index_of(a, '\n') {
            Some(k) => k,
            None => {
                assert(a[a.len() - 1] == '\n');
                0
            },
        };
        assert(index_of(a, '\n') == Some(k));
        assert(t[k] == '\n');
        assert(index_of(t, '\n') == Some(k)) by {
            match index_of(t, '\n') {
                Some(j) => {
                    if j < k {
                        assert(t[j] == a[j]);
                    }
                },
                None => {},
            }
        }
        assert(t.take(k) =~= a.take(k));
        let rest = a.skip(k + 1);
        assert(t.skip(k + 1) =~= rest + b);
        if rest.len() > 0 {
            assert(rest.last() == a.last());
        }
        lemma_lines_append(rest, b);
        assert(lines(t) == seq![strip_cr(t.take(k))] + lines(t.skip(k + 1)));
        assert(lines(a) == seq![strip_cr(a.take(k))] + lines(a.skip(k + 1)));
        assert(lines(t) =~= lines(a) + lines(b));
    }
}

/// One line and its line break.
pub proof fn lemma_lines_one(x: Seq<char>)
    requires
        forall|j: int| 0 <= j < x.len() ==> x[j] != '\n',
        x.len() == 0 || x.last() != '\r',
    ensures
        lines(x + seq!['\n']) == seq![x],
{
    let t = x + seq!['\n'];
    lemma_index_of(t, '\n');
    assert(t[x.len() as int] == '\n');
    assert(index_of(t, '\n') == Some(x.len() as int)) by {
        match index_of(t, '\n') {
            Some(j) => {
                if j < x.len() {
                    assert(t[j] == x[j]);
                }
            },
            None => {},
        }
    }
    assert(t.take(x.len() as int) =~= x);
    assert(t.skip(x.len() as int + 1) =~= Seq::<char>::empty());
    assert(strip_cr(x) == x);
    assert(lines(t) == seq![strip_cr(t.take(x.len() as int))] + lines(t.skip(x.len() as int + 1)));
    assert(lines(t) =~= seq![x]);
}

/// Escaped text holds no line break.
pub proof fn lemma_escape_no_newline(s: Seq<char>)
    ensures
        forall|j: int| 0 <= j < spec_escape(s).len() ==> spec_escape(s)[j] != '\n',
    decreases s.len(),
{
    if s.len() > 0 {
        lemma_escape_no_newline(s.drop_last());
        let f = |c: char| escape_char(c);
        let a = spec_escape(s.drop_last());
        let b = escape_char(s.last());
        assert(spec_escape(s) == concat_map(s.drop_last(), f) + f(s.last()));
        assert forall|j: int| 0 <= j < spec_escape(s).len() implies spec_escape(s)[j] != '\n' by {
            if j < a.len() {
                assert(spec_escape(s)[j] == a[j]);
            } else {
                assert(spec_escape(s)[j] == b[j - a.len()]);
            }
        }
    }
}

// ---------------------------------------------------------------------------
// Keyword lines
// ---------------------------------------------------------------------------

/// The line `kw "escaped"`.
pub open spec fn kw_line(kw: Seq<char>, s: Seq<char>) -> Seq<char> {
    kw + seq![' ', '"'] + spec_escape(s) + seq!['"']
}

pub proof fn lemma_trim_plain(l: Seq<char>)
    requires
        l.len() > 0,
        !is_ws(l[0]),
        !is_ws(l.last()),
    ensures
        trim(l) == l,
{
    assert(trim_start(l) == l);
    assert(trim_end(l) == l);
}

/// What reading a keyword line gives back.
pub proof fn lemma_kw_line(kw: Seq<char>, s: Seq<char>)
    requires
        kw.len() > 0,
        !is_ws(kw[0]),
        forall|j: int| 0 <= j < kw.len() ==> kw[j] != '\n',
    ensures
        trim(kw_line(kw, s)) == kw_line(kw, s),
        spec_keyword_value(kw_line(kw, s), kw) == Some(s),
        forall|j: int| 0 <= j < kw_line(kw, s).len() ==> kw_line(kw, s)[j] != '\n',
        kw_line(kw, s).last() == '"',
        kw_line(kw, s).len() >= kw.len() + 3,
        kw_line(kw, s).take(kw.len() as int) == kw,
        kw_line(kw, s)[kw.len() as int] == ' ',
{
    let l = kw_line(kw, s);
    let e = spec_escape(s);
    lemma_escape_no_newline(s);
    lemma_trim_plain(l);
    assert(l.take(kw.len() as int) =~= kw);
    assert(starts_with(l, kw));
    let after = l.skip(kw.len() as int);
    let q = seq!['"'] + e + seq!['"'];
    assert(after =~= seq![' '] + q);
    assert(after.drop_first() =~= q);
    assert(trim_start(after) == trim_start(after.drop_first()));
    assert(trim_start(q) == q);
    lemma_trim_plain(q);
    assert(q.subrange(1, q.len() - 1) =~= e);
    lemma_po_string_roundtrip(s);
    assert(spec_extract_quoted(q) == Some(s));
    assert forall|j: int| 0 <= j < l.len() implies l[j] != '\n' by {
        if j < kw.len() {
            assert(l[j] == kw[j]);
        } else if j >= kw.len() + 2 && j < l.len() - 1 {
            assert(l[j] == e[j - kw.len() - 2]);
        }
    }
}


// ---------------------------------------------------------------------------
// Blocks of written text
// ---------------------------------------------------------------------------

/// An entry that PO holds as it is: its key is its map key, not empty; its
/// value is a simple text; it has no source text, previous source, context,
/// comment, flag or reference and is not obsolete.
pub open spec fn plain_po_entry(k: Seq<char>, e: I18nEntry) -> bool {
    &&& e.key@ == k
    &&& k.len() > 0
    &&& e.value is Simple
    &&& e.source is None
    &&& e.previous_source is None
    &&& !e.obsolete
    &&& e.comments@.len() == 0
    &&& e.source_references@.len() == 0
    &&& e.flags@.len() == 0
    &&& e.contexts@.len() == 0
}

/// A resource of plain entries with distinct keys, whose header comments
/// hold no line break.
pub open spec fn plain_po_resource(res: I18nResource) -> bool {
    &&& forall|j: int| 0 <= j < header_comments(res).len() ==> no_newline(#[trigger] header_comments(res)[j])
    &&& keys_unique(entry_map_pairs(res.entries))
    &&& forall|i: int| 0 <= i < entry_map_pairs(res.entries).len()
        ==> plain_po_entry(#[trigger] entry_map_pairs(res.entries)[i].0, entry_map_pairs(res.entries)[i].1)
}

/// The translator comments of the header block.
pub open spec fn header_comments(res: I18nResource) -> Seq<Seq<char>> {
    match res.metadata.format_ext {
        Some(FormatExtension::Po(x)) => strings_view(x.translator_comments@),
        _ => Seq::empty(),
    }
}

/// The text of a simple value.
pub open spec fn simple_text(v: EntryValue) -> Seq<char> {
    match v {
        EntryValue::Simple(s) => s@,
        _ => Seq::empty(),
    }
}

/// A block that holds an entry's `msgid` and `msgstr`, without context,
/// plural or obsolete mark.
pub open spec fn block_holds(b: BlockView, k: Seq<char>, v: Seq<char>) -> bool {
    &&& b.msgctxt is None
    &&& b.msgid == k
    &&& b.msgid_plural is None
    &&& b.msgstr == Some(v)
    &&& !b.obsolete
}

/// The finished blocks and the current one.
pub open spec fn all_blocks(st: BlockState) -> Seq<BlockView> {
    st.0.push(st.1)
}

/// The header block and the blocks of the first `i` entries, as written.
pub open spec fn text_upto(res: I18nResource, i: int) -> Seq<char> {
    header_text(res) + concat_all(entry_map_pairs(res.entries).take(i), entry_block_text(spec_get_nplurals(res)))
}

proof fn lemma_fold_push(ls: Seq<Seq<char>>, x: Seq<char>)
    ensures
        block_fold(ls.push(x)) == block_step(block_fold(ls), x),
{
    assert(ls.push(x).drop_last() =~= ls);
}

proof fn lemma_no_newline_msg()
    ensures
        forall|j: int| 0 <= j < "msgid"@.len() ==> "msgid"@[j] != '\n',
        forall|j: int| 0 <= j < "msgstr"@.len() ==> "msgstr"@[j] != '\n',
        "msgid"@.len() == 5,
        "msgstr"@.len() == 6,
        !is_ws('m'),
        "msgid"@[0] == 'm',
        "msgstr"@[0] == 'm',
        "msgid"@[3] == 'i',
        "msgstr"@[3] == 's',
        "msgctxt"@.len() == 7,
        "msgctxt"@[3] == 'c',
        "msgid_plural"@.len() == 12,
        "msgid_plural"@[3] == 'i',
        "msgid_plural"@[5] == '_',
        "msgstr["@.len() == 7,
        "msgstr["@[3] == 's',
        "msgstr["@[6] == '[',
        "#~"@ == seq!['#', '~'],
        "msgctxt"@[0] == 'm',
        "msgid_plural"@[0] == 'm',
        "msgstr["@[0] == 'm',
{
    reveal_strlit("msgid");
    reveal_strlit("msgstr");
    reveal_strlit("msgctxt");
    reveal_strlit("msgid_plural");
    reveal_strlit("msgstr[");
    reveal_strlit("#~");
}

/// Reading a `msgid` line sets the current block's `msgid`.
proof fn lemma_step_msgid(st: BlockState, k: Seq<char>)
    ensures
        block_step(st, kw_line("msgid"@, k)) == (st.0, BlockView { msgid: k, ..st.1 }, true, Some(CurrentField::Msgid)),
{
    lemma_no_newline_msg();
    let l = kw_line("msgid"@, k);
    lemma_kw_line("msgid"@, k);
    assert(l[3] == 'i') by {
        assert(l.take(5)[3] == l[3]);
    }
    assert(l[0] == 'm') by {
        assert(l.take(5)[0] == l[0]);
    }
    assert(!starts_with(l, "#~"@));
    assert(!starts_with(l, "msgctxt"@)) by {
        if starts_with(l, "msgctxt"@) {
            assert(l.take(7)[3] == l[3]);
        }
    }
    assert(!starts_with(l, "msgid_plural"@)) by {
        if starts_with(l, "msgid_plural"@) {
            assert(l.take(12)[5] == l[5]);
        }
    }
    assert(!starts_with(l, "msgstr["@)) by {
        if starts_with(l, "msgstr["@) {
            assert(l.take(7)[3] == l[3]);
        }
    }
    assert(!starts_with(l, "msgstr"@)) by {
        if starts_with(l, "msgstr"@) {
            assert(l.take(6)[3] == l[3]);
        }
    }
}

/// Reading a `msgstr` line sets the current block's `msgstr`.
proof fn lemma_step_msgstr(st: BlockState, v: Seq<char>)
    ensures
        block_step(st, kw_line("msgstr"@, v)) == (st.0, BlockView { msgstr: Some(v), ..st.1 }, true, Some(CurrentField::Msgstr)),
{
    lemma_no_newline_msg();
    let l = kw_line("msgstr"@, v);
    lemma_kw_line("msgstr"@, v);
    assert(l[3] == 's') by {
        assert(l.take(6)[3] == l[3]);
    }
    assert(l[0] == 'm') by {
        assert(l.take(6)[0] == l[0]);
    }
    assert(l[6] == ' ');
    assert(!starts_with(l, "#~"@));
    assert(!starts_with(l, "msgctxt"@)) by {
        if starts_with(l, "msgctxt"@) {
            assert(l.take(7)[3] == l[3]);
        }
    }
    assert(!starts_with(l, "msgid_plural"@)) by {
        if starts_with(l, "msgid_plural"@) {
            assert(l.take(12)[3] == l[3]);
        }
    }
    assert(!starts_with(l, "msgstr["@)) by {
        if starts_with(l, "msgstr["@) {
            assert(l.take(7)[6] == l[6]);
        }
    }
}


/// A blank line ends the current block.
proof fn lemma_step_blank(st: BlockState)
    requires
        st.2,
    ensures
        block_step(st, Seq::empty()) == (st.0.push(st.1), empty_block(), false, Option::<CurrentField>::None),
{
    assert(trim(Seq::<char>::empty()) == Seq::<char>::empty());
}

/// The `fuzzy` flag line touches none of the fields that make the key or
/// the text.
proof fn lemma_step_fuzzy(st: BlockState)
    ensures
        block_step(st, "#, fuzzy"@).0 == st.0,
        block_step(st, "#, fuzzy"@).2,
        block_step(st, "#, fuzzy"@).1.msgctxt == st.1.msgctxt,
        block_step(st, "#, fuzzy"@).1.msgid_plural == st.1.msgid_plural,
        block_step(st, "#, fuzzy"@).1.obsolete == st.1.obsolete,
{
    reveal_strlit("#, fuzzy");
    reveal_strlit("#~");
    let t = "#, fuzzy"@;
    lemma_trim_plain(t);
    assert(!starts_with(t, "#~"@)) by {
        if starts_with(t, "#~"@) {
            assert(t.take(2)[1] == t[1]);
        }
    }
    assert(t[0] == '#');
}

// ---------------------------------------------------------------------------
// Texts written across lines
// ---------------------------------------------------------------------------

/// Unescaping never runs past the end of a text that does not end with `\`.
pub proof fn lemma_unescape_concat(a: Seq<char>, b: Seq<char>)
    requires
        a.len() == 0 || a.last() != '\\',
    ensures
        spec_unescape(a + b) == spec_unescape(a) + spec_unescape(b),
    decreases a.len(),
{
    if a.len() == 0 {
        assert(a + b =~= b);
        assert(spec_unescape(a) + spec_unescape(b) =~= spec_unescape(b));
    } else {
        let t = a + b;
        lemma_unescape_step(a);
        lemma_unescape_step(t);
        if a[0] == '\\' {
            assert(a.len() >= 2) by {
                if a.len() == 1 {
                    assert(a.last() == a[0]);
                }
            }
            assert(t[1] == a[1]);
        }
        assert(t[0] == a[0]);
        assert(unescape_step(t) == unescape_step(a));
        let n = unescape_step(a).1;
        let r = a.skip(n);
        assert(t.skip(n) =~= r + b);
        if r.len() > 0 {
            assert(r.last() == a.last());
        }
        lemma_unescape_concat(r, b);
        assert(spec_unescape(t) == unescape_step(t).0 + spec_unescape(t.skip(n)));
        assert(spec_unescape(a) == unescape_step(a).0 + spec_unescape(a.skip(n)));
        assert(spec_unescape(t) =~= spec_unescape(a) + spec_unescape(b));
    }
}

proof fn lemma_find_pat_occurs(s: Seq<char>, pat: Seq<char>, i: int)
    ensures
        find_pat(s, pat, i) matches Some(k) ==> occurs_at(s, pat, k) && i <= k,
    decreases s.len() - i,
{
    if !(i < 0 || i + pat.len() > s.len()) && !occurs_at(s, pat, i) && i < s.len() {
        lemma_find_pat_occurs(s, pat, i + 1);
    }
}

/// The escaped new line `\n`.
pub open spec fn escaped_nl() -> Seq<char> {
    seq!['\\', 'n']
}

pub open spec fn no_newline(x: Seq<char>) -> bool {
    forall|m: int| 0 <= m < x.len() ==> x[m] != '\n'
}

/// The pieces joined again with the escaped new line between them.
pub open spec fn joined_pieces(parts: Seq<Seq<char>>) -> Seq<char>
    decreases parts.len(),
{
    if parts.len() == 0 {
        Seq::empty()
    } else if parts.len() == 1 {
        parts[0]
    } else {
        parts[0] + seq!['\\', 'n'] + joined_pieces(parts.drop_first())
    }
}

/// What reading the lines of the pieces back gives.
pub open spec fn read_pieces(parts: Seq<Seq<char>>) -> Seq<char>
    decreases parts.len(),
{
    if parts.len() == 0 {
        Seq::empty()
    } else if parts.len() == 1 {
        spec_unescape(parts[0])
    } else {
        spec_unescape(parts[0] + seq!['\\', 'n']) + read_pieces(parts.drop_first())
    }
}

proof fn lemma_read_pieces(parts: Seq<Seq<char>>)
    ensures
        read_pieces(parts) == spec_unescape(joined_pieces(parts)),
    decreases parts.len(),
{
    if parts.len() >= 2 {
        lemma_read_pieces(parts.drop_first());
        let a = parts[0] + seq!['\\', 'n'];
        lemma_unescape_concat(a, joined_pieces(parts.drop_first()));
        assert(joined_pieces(parts) =~= a + joined_pieces(parts.drop_first()));
    }
}

/// Splitting at the escaped new lines and joining again gives the text.
proof fn lemma_split_joined(e: Seq<char>, i: int)
    requires
        0 <= i <= e.len(),
    ensures
        joined_pieces(split_pat_from(e, escaped_nl(), i)) == e.skip(i),
        no_newline(e) ==> forall|j: int| 0 <= j < split_pat_from(e, escaped_nl(), i).len()
            ==> no_newline(#[trigger] split_pat_from(e, escaped_nl(), i)[j]),
    decreases e.len() - i,
{
    let nl = seq!['\\', 'n'];
    lemma_find_pat(e, nl, i);
    lemma_find_pat_occurs(e, nl, i);
    let parts = split_pat_from(e, nl, i);
    match find_pat(e, nl, i) {
        Some(k) => {
            lemma_split_joined(e, k + 2);
            let rest = split_pat_from(e, nl, k + 2);
            assert(parts == seq![e.subrange(i, k)] + rest);
            assert(parts.drop_first() =~= rest);
            assert(e.subrange(k, k + 2) == nl);
            assert(e.skip(i) =~= e.subrange(i, k) + nl + e.skip(k + 2));
            if no_newline(e) {
                assert forall|j: int| 0 <= j < parts.len() implies no_newline(#[trigger] parts[j]) by {
                    if j == 0 {
                        assert forall|m: int| 0 <= m < parts[0].len() implies parts[0][m] != '\n' by {
                            assert(parts[0][m] == e[i + m]);
                        }
                    } else {
                        assert(parts[j] == rest[j - 1]);
                    }
                }
            }
        },
        None => {
            assert(parts == seq![e.skip(i)]);
            if no_newline(e) {
                assert forall|m: int| 0 <= m < parts[0].len() implies parts[0][m] != '\n' by {
                    assert(parts[0][m] == e[i + m]);
                }
            }
        },
    }
}

/// The piece lines are quoted and hold no line break.
proof fn lemma_piece_lines(parts: Seq<Seq<char>>)
    requires
        forall|j: int| 0 <= j < parts.len() ==> no_newline(#[trigger] parts[j]),
    ensures
        forall|j: int| 0 <= j < piece_lines(parts).len() ==> no_newline(#[trigger] piece_lines(parts)[j])
            && piece_lines(parts)[j].len() >= 2 && piece_lines(parts)[j].last() == '"',
    decreases parts.len(),
{
    if parts.len() >= 2 {
        assert forall|j: int| 0 <= j < parts.drop_first().len() implies no_newline(#[trigger] parts.drop_first()[j]) by {
            assert(parts.drop_first()[j] == parts[j + 1]);
        }
        lemma_piece_lines(parts.drop_first());
        let l0 = seq!['"'] + parts[0] + seq!['\\', 'n', '"'];
        assert(no_newline(parts[0]));
        assert forall|m: int| 0 <= m < l0.len() implies l0[m] != '\n' by {
            if 1 <= m < l0.len() - 3 {
                assert(l0[m] == parts[0][m - 1]);
            }
        }
        assert forall|j: int| 0 <= j < piece_lines(parts).len() implies no_newline(#[trigger] piece_lines(parts)[j])
            && piece_lines(parts)[j].len() >= 2 && piece_lines(parts)[j].last() == '"' by {
            if j > 0 {
                assert(piece_lines(parts)[j] == piece_lines(parts.drop_first())[j - 1]);
            }
        }
    } else if parts.len() == 1 && parts[0].len() > 0 {
        let l0 = seq!['"'] + parts[0] + seq!['"'];
        assert(no_newline(parts[0]));
        assert forall|m: int| 0 <= m < l0.len() implies l0[m] != '\n' by {
            if 1 <= m < l0.len() - 1 {
                assert(l0[m] == parts[0][m - 1]);
            }
        }
    }
}

/// Lines written one after another read back as those lines.
proof fn lemma_lines_of_lines(ls: Seq<Seq<char>>)
    requires
        forall|j: int| 0 <= j < ls.len() ==> no_newline(#[trigger] ls[j]) && ls[j].len() > 0 && ls[j].last() == '"',
    ensures
        lines(concat_all(ls, line_nl())) == ls,
        concat_all(ls, line_nl()).len() == 0 || concat_all(ls, line_nl()).last() == '\n',
    decreases ls.len(),
{
    reveal_strlit("\n");
    if ls.len() == 0 {
        assert(lines(Seq::<char>::empty()) =~= Seq::<Seq<char>>::empty());
    } else {
        let p = ls.drop_last();
        assert forall|j: int| 0 <= j < p.len() implies no_newline(#[trigger] p[j]) && p[j].len() > 0 && p[j].last() == '"' by {
            assert(p[j] == ls[j]);
        }
        lemma_lines_of_lines(p);
        let c = concat_all(p, line_nl());
        let x = ls.last();
        assert(ls[ls.len() - 1] == x);
        assert(concat_all(ls, line_nl()) == c + (x + "\n"@));
        assert("\n"@ == seq!['\n']);
        lemma_lines_one(x);
        lemma_lines_append(c, x + seq!['\n']);
        assert(ls =~= p.push(x));
        assert(lines(concat_all(ls, line_nl())) =~= ls);
    }
}

/// Whether the writer puts a text across lines: an empty `""` line, then
/// one line per piece between escaped new lines.
pub open spec fn written_across_lines(s: Seq<char>) -> bool {
    let e = spec_escape(s);
    match find_pat(e, seq!['\\', 'n'], 0) {
        Some(k) => e != seq!['\\', 'n'] && e.len() > k + 2,
        None => false,
    }
}

/// The lines of a keyword and its text.
pub open spec fn kw_lines(kw: Seq<char>, s: Seq<char>) -> Seq<Seq<char>> {
    seq![kw + seq![' '] + spec_po_lines(s)[0]] + spec_po_lines(s).skip(1)
}

proof fn lemma_kw_text_lines(kw: Seq<char>, s: Seq<char>)
    requires
        kw.len() > 0,
        !is_ws(kw[0]),
        forall|j: int| 0 <= j < kw.len() ==> kw[j] != '\n',
    ensures
        lines(kw_text(kw, s)) == kw_lines(kw, s),
        kw_text(kw, s).len() > 0,
        kw_text(kw, s).last() == '\n',
        written_across_lines(s) ==> kw_lines(kw, s) == seq![kw_line(kw, Seq::empty())]
            + piece_lines(split_pat_from(spec_escape(s), escaped_nl(), 0)),
        !written_across_lines(s) ==> kw_lines(kw, s) == seq![kw_line(kw, s)],
{
    reveal_strlit(" ");
    reveal_strlit("\n");
    let e = spec_escape(s);
    let nl = seq!['\\', 'n'];
    let ls = spec_po_lines(s);
    lemma_escape_no_newline(s);
    let first = kw + seq![' '] + ls[0];
    let empty = Seq::<char>::empty();
    if written_across_lines(s) {
        let parts = split_pat_from(e, nl, 0);
        lemma_split_joined(e, 0);
        lemma_piece_lines(parts);
        assert(ls == seq![seq!['"', '"']] + piece_lines(parts));
        assert(ls.skip(1) =~= piece_lines(parts));
        assert(spec_escape(empty) =~= empty);
        assert(first =~= kw_line(kw, empty));
        lemma_kw_line(kw, empty);
    } else {
        assert(ls == seq![seq!['"'] + e + seq!['"']]);
        assert(ls.skip(1) =~= Seq::<Seq<char>>::empty());
        assert(first =~= kw_line(kw, s));
        lemma_kw_line(kw, s);
    }
    let rest = ls.skip(1);
    lemma_lines_of_lines(rest);
    assert(kw_text(kw, s) =~= (first + seq!['\n']) + concat_all(rest, line_nl()));
    lemma_lines_one(first);
    lemma_lines_append(first + seq!['\n'], concat_all(rest, line_nl()));
    assert(kw_lines(kw, s) =~= seq![first] + rest);
    let c = concat_all(rest, line_nl());
    if c.len() == 0 {
        assert(kw_text(kw, s) =~= first + seq!['\n']);
    } else {
        assert(kw_text(kw, s).last() == c.last());
    }
}

/// A quoted line continues the field being read.
proof fn lemma_step_quoted(st: BlockState, c: Seq<char>)
    ensures
        block_step(st, seq!['"'] + c + seq!['"']) == (st.0, spec_append(st.1, st.3, spec_unescape(c)), st.2, st.3),
{
    lemma_no_newline_msg();
    let q = seq!['"'] + c + seq!['"'];
    assert(q[0] == '"');
    lemma_trim_plain(q);
    assert(!starts_with(q, "#~"@)) by {
        if starts_with(q, "#~"@) {
            assert(q.take(2)[0] == q[0]);
        }
    }
    assert(!starts_with(q, "msgctxt"@)) by {
        if starts_with(q, "msgctxt"@) {
            assert(q.take(7)[0] == q[0]);
        }
    }
    assert(!starts_with(q, "msgid_plural"@)) by {
        if starts_with(q, "msgid_plural"@) {
            assert(q.take(12)[0] == q[0]);
        }
    }
    assert(!starts_with(q, "msgstr["@)) by {
        if starts_with(q, "msgstr["@) {
            assert(q.take(7)[0] == q[0]);
        }
    }
    assert(!starts_with(q, "msgstr"@)) by {
        if starts_with(q, "msgstr"@) {
            assert(q.take(6)[0] == q[0]);
        }
    }
    assert(!starts_with(q, "msgid"@)) by {
        if starts_with(q, "msgid"@) {
            assert(q.take(5)[0] == q[0]);
        }
    }
    assert(q.subrange(1, q.len() - 1) =~= c);
    assert(spec_extract_quoted(q) == Some(spec_unescape(c)));
}

/// A field that continuation lines add to: the `msgid`, or a `msgstr` that
/// has begun.
pub open spec fn open_field(b: BlockView, f: Option<CurrentField>) -> bool {
    f == Some(CurrentField::Msgid) || (f == Some(CurrentField::Msgstr) && b.msgstr is Some)
}

proof fn lemma_append_empty(b: BlockView, f: Option<CurrentField>)
    requires
        open_field(b, f),
    ensures
        spec_append(b, f, Seq::empty()) == b,
{
    if f == Some(CurrentField::Msgid) {
        assert(b.msgid + Seq::<char>::empty() =~= b.msgid);
    } else {
        assert(b.msgstr.unwrap() + Seq::<char>::empty() =~= b.msgstr.unwrap());
    }
}

proof fn lemma_append_twice(b: BlockView, f: Option<CurrentField>, x: Seq<char>, y: Seq<char>)
    requires
        open_field(b, f),
    ensures
        open_field(spec_append(b, f, x), f),
        spec_append(spec_append(b, f, x), f, y) == spec_append(b, f, x + y),
{
    if f == Some(CurrentField::Msgid) {
        assert(b.msgid + x + y =~= b.msgid + (x + y));
    } else {
        assert(b.msgstr.unwrap() + x + y =~= b.msgstr.unwrap() + (x + y));
    }
}

/// Reading the piece lines adds what they hold to the open field.
proof fn lemma_pieces_fold(ls: Seq<Seq<char>>, parts: Seq<Seq<char>>)
    requires
        open_field(block_fold(ls).1, block_fold(ls).3),
    ensures
        block_fold(ls + piece_lines(parts)).0 == block_fold(ls).0,
        block_fold(ls + piece_lines(parts)).2 == block_fold(ls).2,
        block_fold(ls + piece_lines(parts)).3 == block_fold(ls).3,
        block_fold(ls + piece_lines(parts)).1 == spec_append(block_fold(ls).1, block_fold(ls).3, read_pieces(parts)),
    decreases parts.len(),
{
    let st = block_fold(ls);
    if parts.len() == 0 {
        assert(ls + piece_lines(parts) =~= ls);
        lemma_append_empty(st.1, st.3);
    } else if parts.len() == 1 {
        if parts[0].len() > 0 {
            let q = seq!['"'] + parts[0] + seq!['"'];
            assert(ls + piece_lines(parts) =~= ls.push(q));
            lemma_fold_push(ls, q);
            lemma_step_quoted(st, parts[0]);
        } else {
            assert(ls + piece_lines(parts) =~= ls);
            assert(parts[0] =~= Seq::<char>::empty());
            assert(spec_unescape(parts[0]) == Seq::<char>::empty());
            lemma_append_empty(st.1, st.3);
        }
    } else {
        let c0 = parts[0] + seq!['\\', 'n'];
        let q = seq!['"'] + parts[0] + seq!['\\', 'n', '"'];
        assert(q =~= seq!['"'] + c0 + seq!['"']);
        lemma_fold_push(ls, q);
        lemma_step_quoted(st, c0);
        let ls1 = ls.push(q);
        lemma_append_twice(st.1, st.3, spec_unescape(c0), read_pieces(parts.drop_first()));
        lemma_pieces_fold(ls1, parts.drop_first());
        assert(ls + piece_lines(parts) =~= ls1 + piece_lines(parts.drop_first()));
    }
}

/// Reading the `msgid` lines of a key sets the block's `msgid` to the key.
proof fn lemma_kw_fold_msgid(ls: Seq<Seq<char>>, k: Seq<char>)
    ensures
        block_fold(ls + kw_lines("msgid"@, k)) == (
            block_fold(ls).0,
            BlockView { msgid: k, ..block_fold(ls).1 },
            true,
            Some(CurrentField::Msgid),
        ),
{
    lemma_no_newline_msg();
    lemma_kw_text_lines("msgid"@, k);
    let st = block_fold(ls);
    let empty = Seq::<char>::empty();
    if written_across_lines(k) {
        let e = spec_escape(k);
        let parts = split_pat_from(e, escaped_nl(), 0);
        let first = kw_line("msgid"@, empty);
        lemma_fold_push(ls, first);
        lemma_step_msgid(st, empty);
        let ls1 = ls.push(first);
        lemma_pieces_fold(ls1, parts);
        assert(ls + kw_lines("msgid"@, k) =~= ls1 + piece_lines(parts));
        lemma_read_pieces(parts);
        lemma_split_joined(e, 0);
        assert(e.skip(0) =~= e);
        lemma_po_string_roundtrip(k);
        assert(empty + k =~= k);
    } else {
        let first = kw_line("msgid"@, k);
        assert(ls + kw_lines("msgid"@, k) =~= ls.push(first));
        lemma_fold_push(ls, first);
        lemma_step_msgid(st, k);
    }
}

/// Reading the `msgstr` lines of a text sets the block's `msgstr` to it.
proof fn lemma_kw_fold_msgstr(ls: Seq<Seq<char>>, v: Seq<char>)
    ensures
        block_fold(ls + kw_lines("msgstr"@, v)) == (
            block_fold(ls).0,
            BlockView { msgstr: Some(v), ..block_fold(ls).1 },
            true,
            Some(CurrentField::Msgstr),
        ),
{
    lemma_no_newline_msg();
    lemma_kw_text_lines("msgstr"@, v);
    let st = block_fold(ls);
    let empty = Seq::<char>::empty();
    if written_across_lines(v) {
        let e = spec_escape(v);
        let parts = split_pat_from(e, escaped_nl(), 0);
        let first = kw_line("msgstr"@, empty);
        lemma_fold_push(ls, first);
        lemma_step_msgstr(st, empty);
        let ls1 = ls.push(first);
        lemma_pieces_fold(ls1, parts);
        assert(ls + kw_lines("msgstr"@, v) =~= ls1 + piece_lines(parts));
        lemma_read_pieces(parts);
        lemma_split_joined(e, 0);
        assert(e.skip(0) =~= e);
        lemma_po_string_roundtrip(v);
        assert(empty + v =~= v);
    } else {
        let first = kw_line("msgstr"@, v);
        assert(ls + kw_lines("msgstr"@, v) =~= ls.push(first));
        lemma_fold_push(ls, first);
        lemma_step_msgstr(st, v);
    }
}

/// The lines of one entry's block: a blank line, the `fuzzy` flag of an
/// entry that needs review, the `msgid` lines and the `msgstr` lines.
pub open spec fn entry_lines(k: Seq<char>, e: I18nEntry) -> Seq<Seq<char>> {
    seq![Seq::<char>::empty()] + (if e.state == Some(TranslationState::NeedsReview) {
        seq!["#, fuzzy"@]
    } else {
        Seq::empty()
    }) + kw_lines("msgid"@, k) + kw_lines("msgstr"@, simple_text(e.value))
}

proof fn lemma_entry_lines(k: Seq<char>, e: I18nEntry, np: u32)
    requires
        plain_po_entry(k, e),
    ensures
        lines(entry_block_text(np)((k, e))) == entry_lines(k, e),
        entry_block_text(np)((k, e)).len() > 0,
        entry_block_text(np)((k, e)).last() == '\n',
{
    reveal(spec_entry_text);
    reveal_strlit("\n");
    reveal_strlit("#, fuzzy\n");
    reveal_strlit("#, fuzzy");
    lemma_no_newline_msg();
    let v = simple_text(e.value);
    lemma_kw_text_lines("msgid"@, k);
    lemma_kw_text_lines("msgstr"@, v);
    let a = kw_text("msgid"@, k);
    let b = kw_text("msgstr"@, v);
    let f = flags_text(e);
    let nl = seq!['\n'];
    assert(concat_all(e.comments@, comment_text()) =~= Seq::<char>::empty());
    assert(concat_all(e.source_references@, ref_text()) =~= Seq::<char>::empty());
    assert(concat_all(e.contexts@, ctx_text()) =~= Seq::<char>::empty());
    assert(prev_text(e) =~= Seq::<char>::empty());
    assert(msgid_of(e) == k);
    assert(value_text(e, np) == b);
    assert(spec_entry_text(e, np) =~= f + (a + b));
    let g = entry_block_text(np)((k, e));
    assert(g =~= nl + (f + (a + b)));
    lemma_lines_one(Seq::<char>::empty());
    assert(Seq::<char>::empty() + nl =~= nl);
    lemma_lines_append(a, b);
    lemma_lines_append(nl, f + (a + b));
    if e.state == Some(TranslationState::NeedsReview) {
        assert(f == "#, fuzzy\n"@);
        assert(f =~= "#, fuzzy"@ + nl);
        lemma_lines_one("#, fuzzy"@);
        lemma_lines_append(f, a + b);
        assert(lines(g) =~= entry_lines(k, e));
    } else {
        assert(f =~= Seq::<char>::empty());
        assert(f + (a + b) =~= a + b);
        assert(lines(g) =~= entry_lines(k, e));
    }
    assert(g.last() == b.last());
}

/// Reading one entry's lines after a block closes that block and leaves the
/// entry's block current.
proof fn lemma_entry_steps(ls: Seq<Seq<char>>, k: Seq<char>, e: I18nEntry)
    requires
        block_fold(ls).2,
        plain_po_entry(k, e),
    ensures
        block_fold(ls + entry_lines(k, e)).2,
        block_fold(ls + entry_lines(k, e)).3 == Some(CurrentField::Msgstr),
        block_fold(ls + entry_lines(k, e)).0 == all_blocks(block_fold(ls)),
        block_holds(block_fold(ls + entry_lines(k, e)).1, k, simple_text(e.value)),
{
    reveal_strlit("#, fuzzy");
    let v = simple_text(e.value);
    let empty = Seq::<char>::empty();
    let l1 = ls.push(empty);
    lemma_fold_push(ls, empty);
    lemma_step_blank(block_fold(ls));
    let pre = if e.state == Some(TranslationState::NeedsReview) {
        let fz = "#, fuzzy"@;
        lemma_fold_push(l1, fz);
        lemma_step_fuzzy(block_fold(l1));
        l1.push(fz)
    } else {
        l1
    };
    lemma_kw_fold_msgid(pre, k);
    let mid = pre + kw_lines("msgid"@, k);
    lemma_kw_fold_msgstr(mid, v);
    assert(ls + entry_lines(k, e) =~= mid + kw_lines("msgstr"@, v));
}

/// White space cut from the end leaves a beginning of the text.
proof fn lemma_trim_end_prefix(s: Seq<char>)
    ensures
        trim_end(s).len() <= s.len(),
        trim_end(s) == s.take(trim_end(s).len() as int),
        s.len() > 0 && !is_ws(s[0]) ==> trim_end(s).len() >= 1,
    decreases s.len(),
{
    if s.len() > 0 && is_ws(s.last()) {
        lemma_trim_end_prefix(s.drop_last());
        let t = trim_end(s.drop_last());
        assert(t == s.drop_last().take(t.len() as int));
        assert(s.drop_last().take(t.len() as int) =~= s.take(t.len() as int));
        if s.len() > 0 && !is_ws(s[0]) {
            assert(s.len() >= 2) by {
                if s.len() == 1 {
                    assert(s.last() == s[0]);
                }
            }
            assert(s.drop_last()[0] == s[0]);
        }
    } else {
        assert(s.take(s.len() as int) =~= s);
    }
}

/// A comment line `# text` of the header touches no field that makes the
/// block a header.
proof fn lemma_step_comment(st: BlockState, c: Seq<char>)
    ensures
        block_step(st, strip_cr(seq!['#', ' '] + c)).0 == st.0,
        block_step(st, strip_cr(seq!['#', ' '] + c)).2,
        block_step(st, strip_cr(seq!['#', ' '] + c)).1.msgctxt == st.1.msgctxt,
        block_step(st, strip_cr(seq!['#', ' '] + c)).1.obsolete == st.1.obsolete,
{
    reveal_strlit("#~");
    let l = strip_cr(seq!['#', ' '] + c);
    assert(l.len() >= 1 && l[0] == '#');
    assert(l.len() >= 2 ==> l[1] == ' ');
    assert(trim_start(l) == l);
    lemma_trim_end_prefix(l);
    let t = trim(l);
    assert(t.len() >= 1);
    assert(t[0] == l[0]) by {
        assert(t == l.take(t.len() as int));
    }
    assert(!starts_with(t, "#~"@)) by {
        if starts_with(t, "#~"@) {
            assert(t.take(2)[1] == t[1]);
            assert(t == l.take(t.len() as int));
            assert(t[1] == l[1]);
        }
    }
    let r = spec_comment_line(st.1, t);
    assert(r.msgctxt == st.1.msgctxt && r.obsolete == st.1.obsolete);
}

/// Lines written one after another read back as those lines, each without
/// a `\r` at its end.
proof fn lemma_lines_of_comments(ls: Seq<Seq<char>>)
    requires
        forall|j: int| 0 <= j < ls.len() ==> no_newline(#[trigger] ls[j]),
    ensures
        lines(concat_all(ls, line_nl())) == ls.map_values(|l: Seq<char>| strip_cr(l)),
        concat_all(ls, line_nl()).len() == 0 || concat_all(ls, line_nl()).last() == '\n',
    decreases ls.len(),
{
    reveal_strlit("\n");
    if ls.len() == 0 {
        assert(lines(Seq::<char>::empty()) =~= Seq::<Seq<char>>::empty());
        assert(ls.map_values(|l: Seq<char>| strip_cr(l)) =~= Seq::<Seq<char>>::empty());
    } else {
        let p = ls.drop_last();
        assert forall|j: int| 0 <= j < p.len() implies no_newline(#[trigger] p[j]) by {
            assert(p[j] == ls[j]);
        }
        lemma_lines_of_comments(p);
        let c = concat_all(p, line_nl());
        let x = ls.last();
        assert(ls[ls.len() - 1] == x);
        assert(concat_all(ls, line_nl()) == c + (x + "\n"@));
        assert("\n"@ == seq!['\n']);
        let t = x + seq!['\n'];
        lemma_index_of(t, '\n');
        assert(t[x.len() as int] == '\n');
        assert(index_of(t, '\n') == Some(x.len() as int)) by {
            match index_of(t, '\n') {
                Some(j) => {
                    if j < x.len() {
                        assert(t[j] == x[j]);
                    }
                },
                None => {},
            }
        }
        assert(t.take(x.len() as int) =~= x);
        assert(t.skip(x.len() as int + 1) =~= Seq::<char>::empty());
        assert(lines(Seq::<char>::empty()) =~= Seq::<Seq<char>>::empty());
        assert(lines(t) =~= seq![strip_cr(x)]);
        lemma_lines_append(c, t);
        assert(ls.map_values(|l: Seq<char>| strip_cr(l)) =~= p.map_values(|l: Seq<char>| strip_cr(l)).push(strip_cr(x)));
        assert(lines(concat_all(ls, line_nl())) =~= ls.map_values(|l: Seq<char>| strip_cr(l)));
    }
}

/// The comment lines of the header block, `# text` each.
pub open spec fn comment_lines(cs: Seq<Seq<char>>) -> Seq<Seq<char>> {
    cs.map_values(|c: Seq<char>| seq!['#', ' '] + c)
}

proof fn lemma_comment_text_lines(cs: Seq<Seq<char>>)
    requires
        forall|j: int| 0 <= j < cs.len() ==> no_newline(#[trigger] cs[j]),
    ensures
        concat_all(cs, hash_comment()) == concat_all(comment_lines(cs), line_nl()),
        forall|j: int| 0 <= j < comment_lines(cs).len() ==> no_newline(#[trigger] comment_lines(cs)[j]),
    decreases cs.len(),
{
    reveal_strlit("# ");
    reveal_strlit("\n");
    if cs.len() > 0 {
        let p = cs.drop_last();
        assert forall|j: int| 0 <= j < p.len() implies no_newline(#[trigger] p[j]) by {
            assert(p[j] == cs[j]);
        }
        lemma_comment_text_lines(p);
        assert(comment_lines(cs).drop_last() =~= comment_lines(p));
        assert(comment_lines(cs).last() == seq!['#', ' '] + cs.last());
        assert(hash_comment()(cs.last()) =~= (seq!['#', ' '] + cs.last()) + "\n"@);
    }
    assert forall|j: int| 0 <= j < comment_lines(cs).len() implies no_newline(#[trigger] comment_lines(cs)[j]) by {
        let l = seq!['#', ' '] + cs[j];
        assert(comment_lines(cs)[j] == l);
        assert(no_newline(cs[j]));
        assert forall|m: int| 0 <= m < l.len() implies l[m] != '\n' by {
            if m >= 2 {
                assert(l[m] == cs[j][m - 2]);
            }
        }
    }
}

/// Reading the comment lines of the header opens a block and keeps its
/// context and obsolete mark.
proof fn lemma_comment_fold(cs: Seq<Seq<char>>, n: int)
    requires
        0 <= n <= cs.len(),
    ensures
        block_fold(comment_lines(cs).map_values(|l: Seq<char>| strip_cr(l)).take(n)).0 == Seq::<BlockView>::empty(),
        block_fold(comment_lines(cs).map_values(|l: Seq<char>| strip_cr(l)).take(n)).1.msgctxt is None,
        !block_fold(comment_lines(cs).map_values(|l: Seq<char>| strip_cr(l)).take(n)).1.obsolete,
        n > 0 ==> block_fold(comment_lines(cs).map_values(|l: Seq<char>| strip_cr(l)).take(n)).2,
    decreases n,
{
    let ls = comment_lines(cs).map_values(|l: Seq<char>| strip_cr(l));
    if n == 0 {
        assert(ls.take(0) =~= Seq::<Seq<char>>::empty());
    } else {
        lemma_comment_fold(cs, n - 1);
        assert(ls.take(n) =~= ls.take(n - 1).push(ls[n - 1]));
        lemma_fold_push(ls.take(n - 1), ls[n - 1]);
        assert(ls[n - 1] == strip_cr(seq!['#', ' '] + cs[n - 1]));
        lemma_step_comment(block_fold(ls.take(n - 1)), cs[n - 1]);
    }
}

/// The line of one header, `"Key: value\n"`.
pub open spec fn header_line(p: (Seq<char>, Seq<char>)) -> Seq<char> {
    seq!['"'] + (spec_escape(p.0) + seq![':', ' '] + spec_escape(p.1) + seq!['\\', 'n']) + seq!['"']
}

pub open spec fn header_lines(hs: Seq<(Seq<char>, Seq<char>)>) -> Seq<Seq<char>> {
    hs.map_values(|p: (Seq<char>, Seq<char>)| header_line(p))
}

proof fn lemma_header_text_lines(hs: Seq<(Seq<char>, Seq<char>)>)
    ensures
        concat_all(hs, header_line_text()) == concat_all(header_lines(hs), line_nl()),
        forall|j: int| 0 <= j < header_lines(hs).len() ==> no_newline(#[trigger] header_lines(hs)[j])
            && header_lines(hs)[j].len() > 0 && header_lines(hs)[j].last() == '"' && header_lines(hs)[j][0] == '"',
    decreases hs.len(),
{
    reveal_strlit("\"");
    reveal_strlit(": ");
    reveal_strlit("\\n\"\n");
    reveal_strlit("\n");
    if hs.len() > 0 {
        lemma_header_text_lines(hs.drop_last());
        assert(header_lines(hs).drop_last() =~= header_lines(hs.drop_last()));
        let p = hs.last();
        assert(header_lines(hs).last() == header_line(p));
        assert(header_line_text()(p) =~= header_line(p) + "\n"@);
    }
    assert forall|j: int| 0 <= j < header_lines(hs).len() implies no_newline(#[trigger] header_lines(hs)[j])
        && header_lines(hs)[j].len() > 0 && header_lines(hs)[j].last() == '"' && header_lines(hs)[j][0] == '"' by {
        let p = hs[j];
        let l = header_line(p);
        assert(header_lines(hs)[j] == l);
        lemma_escape_no_newline(p.0);
        lemma_escape_no_newline(p.1);
        let k = spec_escape(p.0);
        let v = spec_escape(p.1);
        assert forall|m: int| 0 <= m < l.len() implies l[m] != '\n' by {
            if 1 <= m < 1 + k.len() {
                assert(l[m] == k[m - 1]);
            } else if 3 + k.len() <= m < 3 + k.len() + v.len() {
                assert(l[m] == v[m - 3 - k.len()]);
            }
        }
    }
}

/// Quoted lines continue an open `msgstr`: the block keeps its `msgid`,
/// context and obsolete mark, and the parse state stays as it was.
proof fn lemma_quoted_fold(ls: Seq<Seq<char>>, qs: Seq<Seq<char>>)
    requires
        block_fold(ls).3 == Some(CurrentField::Msgstr),
        block_fold(ls).1.msgstr is Some,
        forall|j: int| 0 <= j < qs.len() ==> (#[trigger] qs[j]).len() >= 2 && qs[j][0] == '"' && qs[j].last() == '"',
    ensures
        block_fold(ls + qs).0 == block_fold(ls).0,
        block_fold(ls + qs).2 == block_fold(ls).2,
        block_fold(ls + qs).3 == Some(CurrentField::Msgstr),
        block_fold(ls + qs).1.msgstr is Some,
        block_fold(ls + qs).1.msgid == block_fold(ls).1.msgid,
        block_fold(ls + qs).1.msgctxt == block_fold(ls).1.msgctxt,
        block_fold(ls + qs).1.obsolete == block_fold(ls).1.obsolete,
    decreases qs.len(),
{
    if qs.len() == 0 {
        assert(ls + qs =~= ls);
    } else {
        let p = qs.drop_last();
        assert forall|j: int| 0 <= j < p.len() implies (#[trigger] p[j]).len() >= 2 && p[j][0] == '"' && p[j].last() == '"' by {
            assert(p[j] == qs[j]);
        }
        lemma_quoted_fold(ls, p);
        let q = qs.last();
        assert(qs[qs.len() - 1] == q);
        let c = q.subrange(1, q.len() - 1);
        assert(q =~= seq!['"'] + c + seq!['"']);
        assert(ls + qs =~= (ls + p).push(q));
        lemma_fold_push(ls + p, q);
        lemma_step_quoted(block_fold(ls + p), c);
    }
}

/// The header block: its comment lines, an empty `msgid`, an empty
/// `msgstr`, and one quoted line per header.
proof fn lemma_header_lines(res: I18nResource)
    requires
        plain_po_resource(res),
    ensures
        lines(text_upto(res, 0)) == comment_lines(header_comments(res)).map_values(|l: Seq<char>| strip_cr(l))
            + seq![kw_line("msgid"@, Seq::empty()), kw_line("msgstr"@, Seq::empty())]
            + header_lines(str_map_pairs(res.metadata.headers)),
        forall|j: int| 0 <= j < header_lines(str_map_pairs(res.metadata.headers)).len()
            ==> (#[trigger] header_lines(str_map_pairs(res.metadata.headers))[j]).len() >= 2
            && header_lines(str_map_pairs(res.metadata.headers))[j][0] == '"'
            && header_lines(str_map_pairs(res.metadata.headers))[j].last() == '"',
        text_upto(res, 0).len() > 0,
        text_upto(res, 0).last() == '\n',
{
    reveal_strlit("msgid \"\"\n");
    reveal_strlit("msgstr \"\"\n");
    reveal_strlit("msgid");
    reveal_strlit("msgstr");
    lemma_no_newline_msg();
    let empty = Seq::<char>::empty();
    assert(spec_escape(empty) =~= empty);
    let a = kw_line("msgid"@, empty);
    let b = kw_line("msgstr"@, empty);
    let nl = seq!['\n'];
    let hs = str_map_pairs(res.metadata.headers);
    lemma_header_text_lines(hs);
    let hl = header_lines(hs);
    let h = concat_all(hl, line_nl());
    lemma_lines_of_lines(hl);
    let cs = header_comments(res);
    lemma_comment_text_lines(cs);
    let cl = comment_lines(cs);
    let c = concat_all(cl, line_nl());
    lemma_lines_of_comments(cl);
    assert(header_text(res) =~= c + ((a + nl) + ((b + nl) + h))) by {
        match res.metadata.format_ext {
            Some(FormatExtension::Po(x)) => {},
            _ => {
                assert(concat_all(cs, hash_comment()) =~= empty);
            },
        }
    }
    let ps = entry_map_pairs(res.entries);
    assert(ps.take(0).len() == 0);
    assert(text_upto(res, 0) =~= c + ((a + nl) + ((b + nl) + h)));
    lemma_kw_line("msgid"@, empty);
    lemma_kw_line("msgstr"@, empty);
    lemma_lines_one(a);
    lemma_lines_one(b);
    lemma_lines_append(b + nl, h);
    lemma_lines_append(a + nl, (b + nl) + h);
    lemma_lines_append(c, (a + nl) + ((b + nl) + h));
    assert(lines(text_upto(res, 0)) =~= cl.map_values(|l: Seq<char>| strip_cr(l)) + seq![a, b] + hl);
    if h.len() > 0 {
        assert(text_upto(res, 0).last() == h.last());
    }
}

/// The blocks read from the header and the first `i` entries: the header
/// block, then one block per entry that holds its key and text.
proof fn lemma_blocks_upto(res: I18nResource, i: int)
    requires
        plain_po_resource(res),
        0 <= i <= entry_map_pairs(res.entries).len(),
    ensures
        block_fold(lines(text_upto(res, i))).2,
        block_fold(lines(text_upto(res, i))).3 == Some(CurrentField::Msgstr),
        all_blocks(block_fold(lines(text_upto(res, i)))).len() == i + 1,
        is_header(all_blocks(block_fold(lines(text_upto(res, i))))[0]),
        forall|j: int| 0 <= j < i ==> block_holds(
            #[trigger] all_blocks(block_fold(lines(text_upto(res, i))))[j + 1],
            entry_map_pairs(res.entries)[j].0,
            simple_text(entry_map_pairs(res.entries)[j].1.value),
        ),
        text_upto(res, i).len() > 0,
        text_upto(res, i).last() == '\n',
    decreases i,
{
    let ps = entry_map_pairs(res.entries);
    let np = spec_get_nplurals(res);
    if i == 0 {
        lemma_header_lines(res);
        let empty = Seq::<char>::empty();
        let a = kw_line("msgid"@, empty);
        let b = kw_line("msgstr"@, empty);
        let cs = header_comments(res);
        let l0 = comment_lines(cs).map_values(|l: Seq<char>| strip_cr(l));
        lemma_comment_fold(cs, cs.len() as int);
        assert(l0.take(cs.len() as int) =~= l0);
        lemma_fold_push(l0, a);
        lemma_step_msgid(block_fold(l0), empty);
        lemma_fold_push(l0.push(a), b);
        lemma_step_msgstr(block_fold(l0.push(a)), empty);
        let hl = header_lines(str_map_pairs(res.metadata.headers));
        lemma_quoted_fold(l0.push(a).push(b), hl);
        assert(lines(text_upto(res, 0)) =~= l0.push(a).push(b) + hl);
    } else {
        lemma_blocks_upto(res, i - 1);
        let prev = text_upto(res, i - 1);
        let p = ps[i - 1];
        assert(plain_po_entry(ps[i - 1].0, ps[i - 1].1));
        lemma_concat_all_step(ps, i - 1, entry_block_text(np));
        assert(text_upto(res, i) =~= prev + entry_block_text(np)(p));
        lemma_entry_lines(p.0, p.1, np);
        lemma_lines_append(prev, entry_block_text(np)(p));
        let ls = lines(prev);
        lemma_entry_steps(ls, p.0, p.1);
        assert(lines(text_upto(res, i)) == ls + entry_lines(p.0, p.1));
        let st = block_fold(ls);
        let st2 = block_fold(lines(text_upto(res, i)));
        assert forall|j: int| 0 <= j < i implies block_holds(
            #[trigger] all_blocks(st2)[j + 1],
            ps[j].0,
            simple_text(ps[j].1.value),
        ) by {
            if j < i - 1 {
                assert(all_blocks(st2)[j + 1] == all_blocks(st)[j + 1]);
            }
        }
        assert(all_blocks(st2)[0] == all_blocks(st)[0]);
    }
}


/// Reading the blocks: the header block adds no entry, and each entry block
/// adds its key last.
proof fn lemma_po_upto(bs: Seq<BlockView>, ps: Seq<(Seq<char>, I18nEntry)>, m: int)
    requires
        bs.len() == ps.len() + 1,
        is_header(bs[0]),
        forall|j: int| 0 <= j < ps.len() ==> block_holds(#[trigger] bs[j + 1], ps[j].0, simple_text(ps[j].1.value)),
        forall|j: int| 0 <= j < ps.len() ==> (#[trigger] ps[j]).0.len() > 0,
        keys_unique(ps),
        0 <= m <= ps.len(),
    ensures
        po_fold(bs.take(m + 1)).2.len() == m,
        forall|j: int| 0 <= j < m ==> (#[trigger] po_fold(bs.take(m + 1)).2[j]).0 == ps[j].0
            && po_fold(bs.take(m + 1)).2[j].1.0 == bs[j + 1],
    decreases m,
{
    if m == 0 {
        assert(bs.take(1).drop_last() =~= Seq::<BlockView>::empty());
        assert(bs.take(1).last() == bs[0]);
        let e0 = Seq::<BlockView>::empty();
        assert(po_fold(e0).2.len() == 0);
        assert(po_fold(bs.take(1)) == po_step(po_fold(e0), bs[0]));
    } else {
        lemma_po_upto(bs, ps, m - 1);
        let prev = po_fold(bs.take(m));
        assert(bs.take(m + 1).drop_last() =~= bs.take(m));
        assert(bs.take(m + 1).last() == bs[m]);
        let b = bs[m];
        assert(block_holds(bs[(m - 1) + 1], ps[m - 1].0, simple_text(ps[m - 1].1.value)));
        assert(ps[m - 1].0.len() > 0);
        assert(!is_header(b));
        let k = ps[m - 1].0;
        assert(spec_entry_key(b.msgctxt, b.msgid) == k);
        lemma_key_index(prev.2, k);
        assert(key_index(prev.2, k) < 0) by {
            let idx = key_index(prev.2, k);
            if idx >= 0 {
                assert(prev.2[idx].0 == ps[idx].0);
            }
        }
        let cur = po_fold(bs.take(m + 1));
        assert(cur == po_step(prev, b));
        assert(cur.2 == prev.2.push((k, (b, prev.0.3))));
    }
}

/// PO reads back what it writes. A resource whose header comments hold no
/// line break and whose entries have distinct keys and are each plain (keyed by
/// their map key, not empty, with a simple text, no source text, previous
/// source, context, comment, flag or reference, and not obsolete), reads
/// back with the same keys in the same order, each entry keyed by its key,
/// with the same text, and with its key as source text. Keys and texts may
/// hold any characters: those written across lines read back whole.
pub proof fn lemma_po_roundtrip(res: I18nResource, back: I18nResource)
    requires
        plain_po_resource(res),
        parsed_resource(back, spec_parse(decode_utf8(encode_utf8(spec_write(res))))),
    ensures
        valid_utf8(encode_utf8(spec_write(res))),
        entry_map_pairs(back.entries).len() == entry_map_pairs(res.entries).len(),
        forall|i: int| #![trigger entry_map_pairs(back.entries)[i]] 0 <= i < entry_map_pairs(res.entries).len() ==> {
            &&& entry_map_pairs(back.entries)[i].0 == entry_map_pairs(res.entries)[i].0
            &&& entry_map_pairs(back.entries)[i].1.key@ == entry_map_pairs(res.entries)[i].0
            &&& entry_map_pairs(back.entries)[i].1.value is Simple
            &&& simple_text(entry_map_pairs(back.entries)[i].1.value) == simple_text(entry_map_pairs(res.entries)[i].1.value)
            &&& opt_view(entry_map_pairs(back.entries)[i].1.source) == Some(entry_map_pairs(res.entries)[i].0)
        },
{
    let w = spec_write(res);
    vstd::utf8::encode_utf8_valid_utf8(w);
    vstd::utf8::encode_utf8_decode_utf8(w);
    let ps = entry_map_pairs(res.entries);
    let n = ps.len() as int;
    assert(ps.take(n) =~= ps);
    assert(text_upto(res, n) == w);
    lemma_blocks_upto(res, n);
    let st = block_fold(lines(w));
    assert(spec_blocks(w) == all_blocks(st));
    let bs = all_blocks(st);
    assert forall|j: int| 0 <= j < ps.len() implies (#[trigger] ps[j]).0.len() > 0 by {
        assert(plain_po_entry(ps[j].0, ps[j].1));
    }
    assert forall|j: int| 0 <= j < ps.len() implies block_holds(#[trigger] bs[j + 1], ps[j].0, simple_text(ps[j].1.value)) by {
        assert(block_holds(all_blocks(block_fold(lines(text_upto(res, n))))[j + 1], ps[j].0, simple_text(ps[j].1.value)));
    }
    lemma_po_upto(bs, ps, n);
    assert(bs.take(n + 1) =~= bs);
    let pst = spec_parse(w);
    assert(pst == po_fold(bs));
    let q = entry_map_pairs(back.entries);
    assert forall|i: int| #![trigger q[i]] 0 <= i < n implies {
        &&& q[i].0 == ps[i].0
        &&& q[i].1.key@ == ps[i].0
        &&& q[i].1.value is Simple
        &&& simple_text(q[i].1.value) == simple_text(ps[i].1.value)
        &&& opt_view(q[i].1.source) == Some(ps[i].0)
    } by {
        assert(q[i].0 == pst.2[i].0 && po_rel()(q[i].1, pst.2[i].1));
        assert(entry_of_block(q[i].1, pst.2[i].1));
        assert(pst.2[i].1.0 == bs[i + 1]);
        assert(block_holds(bs[i + 1], ps[i].0, simple_text(ps[i].1.value)));
    }
}

} // verus!
