//! Conversion of placeholder syntax between formats.
//!
//! Each format has its own placeholder style:
//!   Android:   %1$s, %2$d
//!   iOS:       %@, %1$@
//!   ARB/ICU:   {name}
//!   i18next:   {{name}}
//!   Laravel:   :name
//!   PO:        %(name)s
//!   YAML:      %{name}
use vstd::prelude::*;
use crate::pattern::{regex_split, pieces_view, regex_capture_split};
use crate::text::{decimal, push_decimal};

verus! {

pub const RE_ANDROID_POSITIONAL: &'static str = "%(\\d+)\\$[sdifegacoxX@]";

pub const RE_ANDROID_SIMPLE: &'static str = "%([sdifegacoxX@])";

pub const RE_ICU_POSITIONAL: &'static str = "\\{(\\d+)\\}";

pub const RE_ICU_NAMED: &'static str = "\\{(\\w+)\\}";

pub const RE_I18NEXT: &'static str = "\\{\\{(\\w+)\\}\\}";

pub const RE_ICU_ALPHA: &'static str = "\\{([a-zA-Z_]\\w*)\\}";

pub const RE_YAML_RAILS: &'static str = "%\\{(\\w+)\\}";

/// The text with each match replaced by `pre`, its first group and `post`.
pub open spec fn wrap_groups(
    ps: Seq<(Seq<char>, Seq<char>, Seq<char>)>,
    tail: Seq<char>,
    pre: Seq<char>,
    post: Seq<char>,
) -> Seq<char>
    decreases ps.len(),
{
    if ps.len() == 0 {
        tail
    } else {
        ps[0].0 + pre + ps[0].2 + post + wrap_groups(ps.drop_first(), tail, pre, post)
    }
}

/// The text that a literal replacement `pre$1post` of every match of
/// `pattern` gives; the text itself when the pattern does not compile.
pub open spec fn replaced(pattern: Seq<char>, text: Seq<char>, pre: Seq<char>, post: Seq<char>) -> Seq<char> {
    match regex_split(pattern, text) {
        Some((ps, tail)) => wrap_groups(ps, tail, pre, post),
        None => text,
    }
}

fn replace_groups(pattern: &str, text: &str, pre: &str, post: &str) -> (r: String)
    ensures
        r@ == replaced(pattern@, text@, pre@, post@),
{
    match regex_capture_split(pattern, text) {
        None => text.to_owned(),
        Some((pieces, tail)) => {
            let ghost ps = pieces_view(pieces@);
            let mut out = String::new();
            let mut i: usize = 0;
            assert(ps.skip(0) == ps);
            while i < pieces.len()
                invariant
                    i <= pieces@.len(),
                    ps == pieces_view(pieces@),
                    wrap_groups(ps, tail@, pre@, post@) == out@ + wrap_groups(ps.skip(i as int), tail@, pre@, post@),
                decreases pieces@.len() - i,
            {
                assert(ps.skip(i as int).drop_first() == ps.skip(i + 1));
                assert(ps.skip(i as int)[0] == ps[i as int]);
                out.append(pieces[i].0.as_str());
                out.append(pre);
                out.append(pieces[i].2.as_str());
                out.append(post);
                i = i + 1;
            }
            out.append(tail.as_str());
            out
        },
    }
}

/// Converts ICU-style placeholders to i18next: `{name}` -> `{{name}}`,
/// `{0}` -> `{{0}}`.
pub fn icu_to_i18next(s: &str) -> (r: String)
    ensures
        r@ == replaced(RE_ICU_NAMED@, s@, seq!['{', '{'], seq!['}', '}']),
{
    let pre = "{{";
    let post = "}}";
    proof {
        reveal_strlit("{{");
        reveal_strlit("}}");
        assert(pre@ =~= seq!['{', '{']);
        assert(post@ =~= seq!['}', '}']);
    }
    replace_groups(RE_ICU_NAMED, s, pre, post)
}

/// Converts i18next interpolation to ICU-style: `{{name}}` -> `{name}`.
pub fn i18next_to_icu(s: &str) -> (r: String)
    ensures
        r@ == replaced(RE_I18NEXT@, s@, seq!['{'], seq!['}']),
{
    let pre = "{";
    let post = "}";
    proof {
        reveal_strlit("{");
        reveal_strlit("}");
        assert(pre@ =~= seq!['{']);
        assert(post@ =~= seq!['}']);
    }
    replace_groups(RE_I18NEXT, s, pre, post)
}

/// Converts ICU-style named placeholders to YAML Rails: `{name}` -> `%{name}`.
pub fn icu_to_yaml_rails(s: &str) -> (r: String)
    ensures
        r@ == replaced(RE_ICU_ALPHA@, s@, seq!['%', '{'], seq!['}']),
{
    let pre = "%{";
    let post = "}";
    proof {
        reveal_strlit("%{");
        reveal_strlit("}");
        assert(pre@ =~= seq!['%', '{']);
        assert(post@ =~= seq!['}']);
    }
    replace_groups(RE_ICU_ALPHA, s, pre, post)
}

/// Converts YAML Rails interpolation to ICU-style: `%{name}` -> `{name}`.
pub fn yaml_rails_to_icu(s: &str) -> (r: String)
    ensures
        r@ == replaced(RE_YAML_RAILS@, s@, seq!['{'], seq!['}']),
{
    let pre = "{";
    let post = "}";
    proof {
        reveal_strlit("{");
        reveal_strlit("}");
        assert(pre@ =~= seq!['{']);
        assert(post@ =~= seq!['}']);
    }
    replace_groups(RE_YAML_RAILS, s, pre, post)
}

// ---------------------------------------------------------------------------
// Positional placeholders
// ---------------------------------------------------------------------------

/// The number that a non-empty run of ASCII digits writes.
pub open spec fn ascii_number(g: Seq<char>) -> Option<nat>
    decreases g.len(),
{
    if g.len() == 0 || !('0' <= g.last() && g.last() <= '9') {
        None
    } else if g.len() == 1 {
        Some(((g.last() as int) - ('0' as int)) as nat)
    } else {
        match ascii_number(g.drop_last()) {
            Some(n) => Some(n * 10 + ((g.last() as int) - ('0' as int)) as nat),
            None => None,
        }
    }
}

/// Parses a run of ASCII digits into a `u64`; `None` for anything else or
/// for a number past `u64::MAX`.
fn parse_u64(g: &str) -> (r: Option<u64>)
    ensures
        r matches Some(n) ==> ascii_number(g@) == Some(n as nat),
        r is None ==> (ascii_number(g@) is None || ascii_number(g@).unwrap() > u64::MAX),
{
    let v = crate::text::str_chars(g);
    if v.len() == 0 {
        return None;
    }
    let mut n: u64 = 0;
    let mut i: usize = 0;
    while i < v.len()
        invariant
            v@ == g@,
            0 < v@.len(),
            i <= v@.len(),
            i == 0 ==> n == 0,
            i > 0 ==> ascii_number(v@.take(i as int)) == Some(n as nat),
        decreases v@.len() - i,
    {
        let c = v[i];
        assert(v@.take(i + 1).drop_last() == v@.take(i as int));
        assert(v@.take(i + 1).last() == c);
        if !('0' <= c && c <= '9') {
            proof {
                lemma_ascii_number_prefix(v@, i as int);
            }
            return None;
        }
        let d = (c as u64) - ('0' as u64);
        if n > (u64::MAX - d) / 10 {
            proof {
                lemma_ascii_number_grows(v@, (i + 1) as int);
                assert(n * 10 + d > u64::MAX) by (nonlinear_arith)
                    requires
                        n > (u64::MAX - d) / 10,
                        d <= 9,
                ;
            }
            return None;
        }
        n = n * 10 + d;
        i = i + 1;
    }
    assert(v@.take(v@.len() as int) == v@);
    Some(n)
}

pub proof fn lemma_ascii_number_prefix(g: Seq<char>, i: int)
    requires
        0 <= i < g.len(),
        !('0' <= g[i] && g[i] <= '9'),
    ensures
        ascii_number(g) is None,
    decreases g.len(),
{
    if i < g.len() - 1 {
        lemma_ascii_number_prefix(g.drop_last(), i);
    }
}

pub proof fn lemma_ascii_number_grows(g: Seq<char>, i: int)
    requires
        0 < i <= g.len(),
        ascii_number(g.take(i)) is Some,
    ensures
        ascii_number(g) is None || ascii_number(g).unwrap() >= ascii_number(g.take(i)).unwrap(),
    decreases g.len(),
{
    if i < g.len() {
        assert(g.drop_last().take(i) == g.take(i));
        lemma_ascii_number_grows(g.drop_last(), i);
        if ascii_number(g) is Some {
            assert(ascii_number(g.drop_last()) is Some);
        }
    } else {
        assert(g.take(i) == g);
    }
}

/// What a match of the Android positional pattern becomes: `{n-1}` for a
/// `%n$x` with `n` from 1 to `u64::MAX`; any other match stays as written.
pub open spec fn android_positional_text(whole: Seq<char>, group: Seq<char>) -> Seq<char> {
    match ascii_number(group) {
        Some(n) if 1 <= n <= u64::MAX => seq!['{'] + decimal((n - 1) as nat) + seq!['}'],
        _ => whole,
    }
}

/// What a match of the ICU positional pattern becomes: `%n+1$s` for a `{n}`
/// with `n + 1` at most `u64::MAX`; any other match stays as written.
pub open spec fn icu_positional_text(whole: Seq<char>, group: Seq<char>) -> Seq<char> {
    match ascii_number(group) {
        Some(n) if n + 1 <= u64::MAX => seq!['%'] + decimal(n + 1) + seq!['$', 's'],
        _ => whole,
    }
}

/// The text with each match replaced by `android_positional_text` (when
/// `to_icu`) or `icu_positional_text`.
pub open spec fn renumber(ps: Seq<(Seq<char>, Seq<char>, Seq<char>)>, tail: Seq<char>, to_icu: bool) -> Seq<char>
    decreases ps.len(),
{
    if ps.len() == 0 {
        tail
    } else {
        ps[0].0 + (if to_icu {
            android_positional_text(ps[0].1, ps[0].2)
        } else {
            icu_positional_text(ps[0].1, ps[0].2)
        }) + renumber(ps.drop_first(), tail, to_icu)
    }
}

/// The text with every positional match renumbered; the text itself when
/// the pattern does not compile.
pub open spec fn renumbered(pattern: Seq<char>, text: Seq<char>, to_icu: bool) -> Seq<char> {
    match regex_split(pattern, text) {
        Some((ps, tail)) => renumber(ps, tail, to_icu),
        None => text,
    }
}

fn renumber_matches(pattern: &str, text: &str, to_icu: bool) -> (r: String)
    ensures
        r@ == renumbered(pattern@, text@, to_icu),
{
    match regex_capture_split(pattern, text) {
        None => text.to_owned(),
        Some((pieces, tail)) => {
            let ghost ps = pieces_view(pieces@);
            let mut out = String::new();
            let mut i: usize = 0;
            assert(ps.skip(0) == ps);
            while i < pieces.len()
                invariant
                    i <= pieces@.len(),
                    ps == pieces_view(pieces@),
                    renumber(ps, tail@, to_icu) == out@ + renumber(ps.skip(i as int), tail@, to_icu),
                decreases pieces@.len() - i,
            {
                assert(ps.skip(i as int).drop_first() == ps.skip(i + 1));
                assert(ps.skip(i as int)[0] == ps[i as int]);
                out.append(pieces[i].0.as_str());
                let whole = &pieces[i].1;
                match parse_u64(pieces[i].2.as_str()) {
                    Some(n) => {
                        if to_icu && n >= 1 {
                            out.push('{');
                            push_decimal(&mut out, n - 1);
                            out.push('}');
                        } else if !to_icu && n < u64::MAX {
                            out.push('%');
                            push_decimal(&mut out, n + 1);
                            out.push('$');
                            out.push('s');
                        } else {
                            out.append(whole.as_str());
                        }
                    },
                    None => {
                        out.append(whole.as_str());
                    },
                }
                i = i + 1;
            }
            out.append(tail.as_str());
            out
        },
    }
}

/// The text after both steps of `android_to_icu`: positional placeholders
/// renumbered from 0, then each non-positional `%x` replaced by `{0}`.
pub open spec fn spec_android_to_icu(s: Seq<char>) -> Seq<char> {
    let t = renumbered(RE_ANDROID_POSITIONAL@, s, true);
    match regex_split(RE_ANDROID_SIMPLE@, t) {
        Some((ps, tail)) => wrap_groups(
            ps.map_values(|p: (Seq<char>, Seq<char>, Seq<char>)| (p.0, p.1, Seq::<char>::empty())),
            tail,
            seq!['{', '0', '}'],
            Seq::empty(),
        ),
        None => t,
    }
}

/// Converts Android positional placeholders to ICU-style:
/// `%1$s` -> `{0}`, `%2$d` -> `{1}`, `%s` -> `{0}`.
pub fn android_to_icu(s: &str) -> (r: String)
    ensures
        r@ == spec_android_to_icu(s@),
{
    let t = renumber_matches(RE_ANDROID_POSITIONAL, s, true);
    match regex_capture_split(RE_ANDROID_SIMPLE, t.as_str()) {
        None => t,
        Some((pieces, tail)) => {
            let ghost ps = pieces_view(pieces@).map_values(
                |p: (Seq<char>, Seq<char>, Seq<char>)| (p.0, p.1, Seq::<char>::empty()),
            );
            let mut out = String::new();
            let mut i: usize = 0;
            assert(ps.skip(0) == ps);
            while i < pieces.len()
                invariant
                    i <= pieces@.len(),
                    ps.len() == pieces@.len(),
                    forall|k: int| 0 <= k < ps.len() ==> (#[trigger] ps[k]).0 == pieces@[k].0@ && ps[k].2 == Seq::<char>::empty(),
                    wrap_groups(ps, tail@, seq!['{', '0', '}'], Seq::empty()) == out@ + wrap_groups(
                        ps.skip(i as int),
                        tail@,
                        seq!['{', '0', '}'],
                        Seq::empty(),
                    ),
                decreases pieces@.len() - i,
            {
                assert(ps.skip(i as int).drop_first() == ps.skip(i + 1));
                assert(ps.skip(i as int)[0] == ps[i as int]);
                out.append(pieces[i].0.as_str());
                out.push('{');
                out.push('0');
                out.push('}');
                i = i + 1;
            }
            out.append(tail.as_str());
            out
        },
    }
}

/// Converts ICU-style positional placeholders to Android:
/// `{0}` -> `%1$s`, `{1}` -> `%2$s`.
pub fn icu_to_android(s: &str) -> (r: String)
    ensures
        r@ == renumbered(RE_ICU_POSITIONAL@, s@, false),
{
    renumber_matches(RE_ICU_POSITIONAL, s, false)
}

/// Converts Android positional placeholders to i18next:
/// `%1$s` -> `{{0}}`, `%2$d` -> `{{1}}`.
pub fn android_to_i18next(s: &str) -> (r: String)
    ensures
        r@ == replaced(RE_ICU_NAMED@, spec_android_to_icu(s@), seq!['{', '{'], seq!['}', '}']),
{
    let icu = android_to_icu(s);
    icu_to_i18next(icu.as_str())
}

/// What the `k`-th i18next placeholder (counting from 0) becomes on
/// Android: `{{n}}` becomes `%n+1$s`; a named one (or a number too large
/// to shift) takes its place in the text, `%k+1$s`.
pub open spec fn i18next_android_text(group: Seq<char>, k: nat) -> Seq<char> {
    match ascii_number(group) {
        Some(n) if n + 1 <= u64::MAX => seq!['%'] + decimal(n + 1) + seq!['$', 's'],
        _ => seq!['%'] + decimal(k + 1) + seq!['$', 's'],
    }
}

/// The text with the `k`-th and later placeholders made positional.
pub open spec fn i18next_positional(ps: Seq<(Seq<char>, Seq<char>, Seq<char>)>, tail: Seq<char>, k: nat) -> Seq<char>
    decreases ps.len(),
{
    if ps.len() == 0 {
        tail
    } else {
        ps[0].0 + i18next_android_text(ps[0].2, k) + i18next_positional(ps.drop_first(), tail, k + 1)
    }
}

/// The Android form of i18next text: every `{{x}}` made positional; the
/// text itself when the pattern does not compile.
pub open spec fn spec_i18next_to_android(s: Seq<char>) -> Seq<char> {
    match regex_split(RE_I18NEXT@, s) {
        Some((ps, tail)) => i18next_positional(ps, tail, 0),
        None => s,
    }
}

/// A placeholder that is a number whose successor fits in a `u64`.
pub open spec fn numbered(g: Seq<char>) -> bool {
    ascii_number(g) matches Some(n) && n + 1 <= u64::MAX
}

/// A numbered i18next placeholder `{{n}}` becomes on Android what the ICU
/// placeholder `{n}` becomes, `%n+1$s`, whatever its place in the text.
pub proof fn lemma_i18next_numbered(g: Seq<char>, k: nat, whole: Seq<char>)
    requires
        numbered(g),
    ensures
        i18next_android_text(g, k) == icu_positional_text(whole, g),
        i18next_android_text(g, k) == seq!['%'] + decimal(ascii_number(g).unwrap() + 1) + seq!['$', 's'],
{
}

proof fn lemma_positional_numbered(ps: Seq<(Seq<char>, Seq<char>, Seq<char>)>, tail: Seq<char>, k: nat)
    requires
        forall|i: int| 0 <= i < ps.len() ==> #[trigger] numbered(ps[i].2),
    ensures
        i18next_positional(ps, tail, k) == renumber(ps, tail, false),
    decreases ps.len(),
{
    if ps.len() > 0 {
        assert(numbered(ps[0].2));
        let rest = ps.drop_first();
        assert forall|i: int| 0 <= i < rest.len() implies #[trigger] numbered(rest[i].2) by {
            assert(rest[i] == ps[i + 1]);
            assert(numbered(ps[i + 1].2));
        }
        lemma_positional_numbered(rest, tail, k + 1);
    }
}

/// On a text whose i18next placeholders are all numbered, converting to
/// Android gives what converting ICU `{n}` placeholders to Android gives on
/// the same placeholders: each `{{n}}` becomes `%n+1$s`, so the arguments
/// keep their numbers whatever their order in the text.
pub proof fn lemma_i18next_numbered_text(s: Seq<char>)
    requires
        regex_split(RE_I18NEXT@, s) matches Some((ps, tail)) && forall|i: int|
            0 <= i < ps.len() ==> #[trigger] numbered(ps[i].2),
    ensures
        regex_split(RE_I18NEXT@, s) matches Some((ps, tail)) && spec_i18next_to_android(s) == renumber(ps, tail, false),
{
    match regex_split(RE_I18NEXT@, s) {
        Some((ps, tail)) => {
            lemma_positional_numbered(ps, tail, 0);
        },
        None => {},
    }
}

/// Converts i18next interpolation to Android positional:
/// `{{0}}` -> `%1$s`, and named placeholders become positional by their
/// place in the text: `{{name}}` -> `%1$s`.
pub fn i18next_to_android(s: &str) -> (r: String)
    ensures
        r@ == spec_i18next_to_android(s@),
{
    match regex_capture_split(RE_I18NEXT, s) {
        None => s.to_owned(),
        Some((pieces, tail)) => {
            let ghost ps = pieces_view(pieces@);
            let mut out = String::new();
            let mut i: usize = 0;
            assert(ps.skip(0) == ps);
            while i < pieces.len()
                invariant
                    i <= pieces@.len(),
                    ps == pieces_view(pieces@),
                    i18next_positional(ps, tail@, 0) == out@ + i18next_positional(ps.skip(i as int), tail@, i as nat),
                decreases pieces@.len() - i,
            {
                assert(ps.skip(i as int).drop_first() == ps.skip(i + 1));
                assert(ps.skip(i as int)[0] == ps[i as int]);
                out.append(pieces[i].0.as_str());
                out.push('%');
                match parse_u64(pieces[i].2.as_str()) {
                    Some(n) if n < u64::MAX => push_decimal(&mut out, n + 1),
                    _ => push_decimal(&mut out, i as u64 + 1),
                }
                out.push('$');
                out.push('s');
                i = i + 1;
            }
            out.append(tail.as_str());
            out
        },
    }
}

} // verus!
