//! The formats this library reads, in the order they are offered, and
//! detection across all of them.
use vstd::prelude::*;
use super::{android_xml, arb, captivate_xml, csv_format, excel, hjson, i18next, ini, ios_plist, ios_strings, ispring_xliff, java_properties, js_format, json5_format, json_structured, markdown, neon, php_laravel, plain_text, po, qt_linguist, resx, srt, stringsdict, tmx, toml_format, ts_format, xcstrings, xliff1, xliff2, yaml_plain, yaml_rails};
use super::Confidence;

verus! {

/// The formats of the registry.
#[derive(Debug, Clone, Copy, PartialEq, Eq, Structural)]
pub enum FormatKind {
    AndroidXml,
    Xcstrings,
    IosStrings,
    Stringsdict,
    IosPlist,
    Arb,
    Qt,
    Json,
    I18next,
    Json5,
    Hjson,
    YamlRails,
    YamlPlain,
    JavaScript,
    TypeScript,
    PhpLaravel,
    Neon,
    Xliff,
    Xliff2,
    Po,
    Tmx,
    Resx,
    JavaProperties,
    Csv,
    Excel,
    Toml,
    Ini,
    Srt,
    Markdown,
    PlainText,
    IspringXliff,
    CaptivateXml,
}

/// A registered format: its identifier, name, file extensions and kind.
pub struct FormatEntry {
    pub id: &'static str,
    pub name: &'static str,
    pub extensions: Vec<&'static str>,
    pub kind: FormatKind,
}

/// The registered formats, by identifier, in registration order.
pub struct FormatRegistry {
    formats: Vec<FormatEntry>,
}

pub open spec fn exts_view(v: Seq<&'static str>) -> Seq<Seq<char>> {
    v.map_values(|e: &'static str| e@)
}

pub open spec fn entry_view(e: FormatEntry) -> (Seq<char>, Seq<char>, Seq<Seq<char>>, FormatKind) {
    (e.id@, e.name@, exts_view(e.extensions@), e.kind)
}

/// The formats a new registry holds, in order.
pub open spec fn standard_formats() -> Seq<(Seq<char>, Seq<char>, Seq<Seq<char>>, FormatKind)> {
    seq![
        ("android-xml"@, "Android XML"@, seq![".xml"@], FormatKind::AndroidXml),
        ("xcstrings"@, "Xcode String Catalog"@, seq![".xcstrings"@], FormatKind::Xcstrings),
        ("ios-strings"@, "iOS Strings"@, seq![".strings"@], FormatKind::IosStrings),
        ("stringsdict"@, "iOS Stringsdict"@, seq![".stringsdict"@], FormatKind::Stringsdict),
        ("ios-plist"@, "iOS Property List"@, seq![".plist"@], FormatKind::IosPlist),
        ("arb"@, "Flutter ARB"@, seq![".arb"@], FormatKind::Arb),
        ("qt"@, "Qt Linguist"@, seq![".ts"@], FormatKind::Qt),
        ("json"@, "Structured JSON"@, seq![".json"@], FormatKind::Json),
        ("i18next"@, "i18next JSON"@, seq![".json"@], FormatKind::I18next),
        ("json5"@, "JSON5"@, seq![".json5"@], FormatKind::Json5),
        ("hjson"@, "HJSON"@, seq![".hjson"@], FormatKind::Hjson),
        ("yaml-rails"@, "YAML (Rails)"@, seq![".yml"@, ".yaml"@], FormatKind::YamlRails),
        ("yaml-plain"@, "YAML (Plain)"@, seq![".yml"@, ".yaml"@], FormatKind::YamlPlain),
        ("javascript"@, "JavaScript"@, seq![".js"@], FormatKind::JavaScript),
        ("typescript"@, "TypeScript"@, seq![".ts"@], FormatKind::TypeScript),
        ("php-laravel"@, "PHP/Laravel"@, seq![".php"@], FormatKind::PhpLaravel),
        ("neon"@, "NEON"@, seq![".neon"@], FormatKind::Neon),
        ("xliff"@, "XLIFF 1.2"@, seq![".xliff"@, ".xlf"@], FormatKind::Xliff),
        ("xliff2"@, "XLIFF 2.0"@, seq![".xliff"@, ".xlf"@], FormatKind::Xliff2),
        ("po"@, "Gettext PO"@, seq![".po"@, ".pot"@], FormatKind::Po),
        ("tmx"@, "TMX"@, seq![".tmx"@], FormatKind::Tmx),
        ("resx"@, ".NET RESX"@, seq![".resx"@], FormatKind::Resx),
        ("java-properties"@, "Java Properties"@, seq![".properties"@], FormatKind::JavaProperties),
        ("csv"@, "CSV"@, seq![".csv"@, ".tsv"@], FormatKind::Csv),
        ("excel"@, "Excel"@, seq![".xlsx"@, ".xls"@], FormatKind::Excel),
        ("toml"@, "TOML"@, seq![".toml"@], FormatKind::Toml),
        ("ini"@, "INI"@, seq![".ini"@], FormatKind::Ini),
        ("srt"@, "SRT Subtitles"@, seq![".srt"@], FormatKind::Srt),
        ("markdown"@, "Markdown"@, seq![".md"@], FormatKind::Markdown),
        ("plain-text"@, "Plain Text"@, seq![".txt"@], FormatKind::PlainText),
        ("ispring-xliff"@, "iSpring Suite XLIFF"@, seq![".xliff"@, ".xlf"@], FormatKind::IspringXliff),
        ("captivate-xml"@, "Adobe Captivate XML"@, seq![".xml"@], FormatKind::CaptivateXml),
    ]
}

/// How sure a format is that it can read a file.
pub open spec fn kind_detect(k: FormatKind, ext: Seq<char>, content: Seq<u8>) -> Confidence {
    match k {
        FormatKind::AndroidXml => android_xml::spec_detect(ext, content),
        FormatKind::Xcstrings => xcstrings::spec_detect(ext, content),
        FormatKind::IosStrings => ios_strings::spec_detect(ext, content),
        FormatKind::Stringsdict => stringsdict::spec_detect(ext, content),
        FormatKind::IosPlist => ios_plist::spec_detect(ext, content),
        FormatKind::Arb => arb::spec_detect(ext, content),
        FormatKind::Qt => qt_linguist::spec_detect(ext, content),
        FormatKind::Json => json_structured::spec_detect(ext, content),
        FormatKind::I18next => i18next::spec_detect(ext, content),
        FormatKind::Json5 => json5_format::spec_detect(ext, content),
        FormatKind::Hjson => hjson::spec_detect(ext, content),
        FormatKind::YamlRails => yaml_rails::spec_detect(ext, content),
        FormatKind::YamlPlain => yaml_plain::spec_detect(ext, content),
        FormatKind::JavaScript => js_format::spec_detect(ext, content),
        FormatKind::TypeScript => ts_format::spec_detect(ext, content),
        FormatKind::PhpLaravel => php_laravel::spec_detect(ext, content),
        FormatKind::Neon => neon::spec_detect(ext, content),
        FormatKind::Xliff => xliff1::spec_detect(ext, content),
        FormatKind::Xliff2 => xliff2::spec_detect(ext, content),
        FormatKind::Po => po::spec_detect(ext, content),
        FormatKind::Tmx => tmx::spec_detect(ext, content),
        FormatKind::Resx => resx::spec_detect(ext, content),
        FormatKind::JavaProperties => java_properties::spec_detect(ext, content),
        FormatKind::Csv => csv_format::spec_detect(ext, content),
        FormatKind::Excel => excel::spec_detect(ext, content),
        FormatKind::Toml => toml_format::spec_detect(ext, content),
        FormatKind::Ini => ini::spec_detect(ext, content),
        FormatKind::Srt => srt::spec_detect(ext, content),
        FormatKind::Markdown => markdown::spec_detect(ext, content),
        FormatKind::PlainText => plain_text::spec_detect(ext, content),
        FormatKind::IspringXliff => ispring_xliff::spec_detect(ext, content),
        FormatKind::CaptivateXml => captivate_xml::spec_detect(ext, content),
    }
}

/// Each format's identifier with its confidence, in registry order.
pub open spec fn detections(f: Seq<(Seq<char>, Seq<char>, Seq<Seq<char>>, FormatKind)>, ext: Seq<char>, content: Seq<u8>) -> Seq<
    (Seq<char>, Confidence),
> {
    f.map_values(|x: (Seq<char>, Seq<char>, Seq<Seq<char>>, FormatKind)| (x.0, kind_detect(x.3, ext, content)))
}

/// The detections at one confidence, in order.
pub open spec fn at_level(d: Seq<(Seq<char>, Confidence)>, c: Confidence) -> Seq<(Seq<char>, Confidence)>
    decreases d.len(),
{
    if d.len() == 0 {
        Seq::empty()
    } else {
        let r = at_level(d.drop_last(), c);
        if d.last().1 == c {
            r.push(d.last())
        } else {
            r
        }
    }
}

/// The detections that match, most confident first, in registry order
/// within a confidence.
pub open spec fn ranked(d: Seq<(Seq<char>, Confidence)>) -> Seq<(Seq<char>, Confidence)> {
    at_level(d, Confidence::Definite) + at_level(d, Confidence::High) + at_level(d, Confidence::Low)
}

pub proof fn lemma_at_level(d: Seq<(Seq<char>, Confidence)>, c: Confidence)
    ensures
        forall|i: int| 0 <= i < at_level(d, c).len() ==> (#[trigger] at_level(d, c)[i]).1 == c && d.contains(at_level(d, c)[i]),
        at_level(d, c).len() <= d.len(),
    decreases d.len(),
{
    if d.len() > 0 {
        lemma_at_level(d.drop_last(), c);
        let r = at_level(d.drop_last(), c);
        assert forall|i: int| 0 <= i < at_level(d, c).len() implies (#[trigger] at_level(d, c)[i]).1 == c && d.contains(
            at_level(d, c)[i],
        ) by {
            if i < r.len() {
                assert(d.drop_last().contains(r[i]));
                let j = choose|j: int| 0 <= j < d.drop_last().len() && d.drop_last()[j] == r[i];
                assert(d[j] == r[i]);
            } else {
                assert(d[d.len() - 1] == d.last());
            }
        }
    }
}

/// Detection ranks the formats that match by confidence: every result
/// matches, each is one of the detections, and a result never comes after
/// a less confident one.
pub proof fn lemma_ranked_sorted(d: Seq<(Seq<char>, Confidence)>)
    ensures
        forall|i: int| 0 <= i < ranked(d).len() ==> (#[trigger] ranked(d)[i]).1 != Confidence::NoMatch,
        forall|i: int| 0 <= i < ranked(d).len() ==> d.contains(#[trigger] ranked(d)[i]),
        forall|i: int, j: int|
            0 <= i < j < ranked(d).len() ==> (#[trigger] ranked(d)[i]).1.spec_rank() >= (#[trigger] ranked(d)[j]).1.spec_rank(),
{
    lemma_at_level(d, Confidence::Definite);
    lemma_at_level(d, Confidence::High);
    lemma_at_level(d, Confidence::Low);
    let a = at_level(d, Confidence::Definite);
    let b = at_level(d, Confidence::High);
    let c = at_level(d, Confidence::Low);
    let r = ranked(d);
    assert forall|i: int| 0 <= i < r.len() implies (#[trigger] r[i]).1 != Confidence::NoMatch && d.contains(r[i]) by {
        if i < a.len() {
            assert(r[i] == a[i]);
        } else if i < a.len() + b.len() {
            assert(r[i] == b[i - a.len()]);
        } else {
            assert(r[i] == c[i - a.len() - b.len()]);
        }
    }
    assert forall|i: int, j: int| 0 <= i < j < r.len() implies (#[trigger] r[i]).1.spec_rank() >= (#[trigger] r[j]).1.spec_rank() by {
        let ri = if i < a.len() {
            3nat
        } else if i < a.len() + b.len() {
            2nat
        } else {
            1nat
        };
        let rj = if j < a.len() {
            3nat
        } else if j < a.len() + b.len() {
            2nat
        } else {
            1nat
        };
        if i < a.len() {
            assert(r[i] == a[i]);
        } else if i < a.len() + b.len() {
            assert(r[i] == b[i - a.len()]);
        } else {
            assert(r[i] == c[i - a.len() - b.len()]);
        }
        if j < a.len() {
            assert(r[j] == a[j]);
        } else if j < a.len() + b.len() {
            assert(r[j] == b[j - a.len()]);
        } else {
            assert(r[j] == c[j - a.len() - b.len()]);
        }
        assert(r[i].1.spec_rank() == ri);
        assert(r[j].1.spec_rank() == rj);
    }
}

/// No identifier occurs twice.
pub open spec fn ids_distinct(d: Seq<(Seq<char>, Confidence)>) -> bool {
    forall|i: int, j: int| 0 <= i < j < d.len() ==> (#[trigger] d[i]).0 != (#[trigger] d[j]).0
}

pub proof fn lemma_at_level_complete(d: Seq<(Seq<char>, Confidence)>, c: Confidence)
    ensures
        forall|i: int| 0 <= i < d.len() && (#[trigger] d[i]).1 == c ==> at_level(d, c).contains(d[i]),
        ids_distinct(d) ==> ids_distinct(at_level(d, c)),
    decreases d.len(),
{
    if d.len() > 0 {
        let p = d.drop_last();
        lemma_at_level_complete(p, c);
        lemma_at_level(p, c);
        let r = at_level(p, c);
        assert forall|i: int| 0 <= i < d.len() && (#[trigger] d[i]).1 == c implies at_level(d, c).contains(d[i]) by {
            if i < d.len() - 1 {
                assert(p[i] == d[i]);
                let k = choose|k: int| 0 <= k < r.len() && r[k] == p[i];
                assert(at_level(d, c)[k] == r[k]);
            } else {
                assert(at_level(d, c) == r.push(d.last()));
                assert(at_level(d, c)[r.len() as int] == d[i]);
            }
        }
        if ids_distinct(d) {
            assert(ids_distinct(p)) by {
                assert forall|i: int, j: int| 0 <= i < j < p.len() implies (#[trigger] p[i]).0 != (#[trigger] p[j]).0 by {
                    assert(p[i] == d[i] && p[j] == d[j]);
                }
            }
            if d.last().1 == c {
                let a = at_level(d, c);
                assert(a == r.push(d.last()));
                assert forall|i: int, j: int| 0 <= i < j < a.len() implies (#[trigger] a[i]).0 != (#[trigger] a[j]).0 by {
                    if j < r.len() {
                        assert(a[i] == r[i] && a[j] == r[j]);
                    } else {
                        assert(a[i] == r[i]);
                        assert(p.contains(r[i]));
                        let k = choose|k: int| 0 <= k < p.len() && p[k] == r[i];
                        assert(d[k] == p[k]);
                        assert(a[j] == d[d.len() - 1]);
                    }
                }
            }
        }
    }
}

/// Detection ranks every format that matches, and no other: a detection
/// that matches is among the results; there are none exactly when nothing
/// matches; the first result is at least as confident as every detection;
/// and when the formats' identifiers are distinct, so are the results'.
proof fn lemma_at_level_concat(a: Seq<(Seq<char>, Confidence)>, b: Seq<(Seq<char>, Confidence)>, c: Confidence)
    ensures
        at_level(a + b, c) == at_level(a, c) + at_level(b, c),
    decreases b.len(),
{
    if b.len() == 0 {
        assert(a + b =~= a);
        assert(at_level(a, c) + at_level(b, c) =~= at_level(a, c));
    } else {
        lemma_at_level_concat(a, b.drop_last(), c);
        assert((a + b).drop_last() =~= a + b.drop_last());
        assert((a + b).last() == b.last());
        if b.last().1 == c {
            assert(at_level(a, c) + at_level(b, c) =~= (at_level(a, c) + at_level(b.drop_last(), c)).push(b.last()));
        }
    }
}

proof fn lemma_at_level_twice(d: Seq<(Seq<char>, Confidence)>, c: Confidence, c2: Confidence)
    ensures
        at_level(at_level(d, c), c2) == if c == c2 { at_level(d, c) } else { Seq::empty() },
    decreases d.len(),
{
    if d.len() > 0 {
        lemma_at_level_twice(d.drop_last(), c, c2);
        let r = at_level(d.drop_last(), c);
        if d.last().1 == c {
            assert(r.push(d.last()).drop_last() =~= r);
        }
    }
}

/// Ranking keeps registration order among formats of one confidence: the
/// ranked detections of a confidence are the detections of that confidence,
/// in the order the registry lists them.
pub proof fn lemma_ranked_stable(d: Seq<(Seq<char>, Confidence)>, c: Confidence)
    requires
        c != Confidence::NoMatch,
    ensures
        at_level(ranked(d), c) == at_level(d, c),
{
    let a = at_level(d, Confidence::Definite);
    let b = at_level(d, Confidence::High);
    let l = at_level(d, Confidence::Low);
    lemma_at_level_concat(a + b, l, c);
    lemma_at_level_concat(a, b, c);
    lemma_at_level_twice(d, Confidence::Definite, c);
    lemma_at_level_twice(d, Confidence::High, c);
    lemma_at_level_twice(d, Confidence::Low, c);
    let e = Seq::<(Seq<char>, Confidence)>::empty();
    if c == Confidence::Definite {
        assert(at_level(d, c) + e + e =~= at_level(d, c));
    } else if c == Confidence::High {
        assert(e + at_level(d, c) + e =~= at_level(d, c));
    } else {
        assert(e + e + at_level(d, c) =~= at_level(d, c));
    }
}

pub proof fn lemma_ranked_complete(d: Seq<(Seq<char>, Confidence)>)
    ensures
        forall|i: int| 0 <= i < d.len() && (#[trigger] d[i]).1 != Confidence::NoMatch ==> ranked(d).contains(d[i]),
        ranked(d).len() == 0 <==> forall|i: int| 0 <= i < d.len() ==> (#[trigger] d[i]).1 == Confidence::NoMatch,
        ranked(d).len() > 0 ==> forall|i: int| 0 <= i < d.len() ==> (#[trigger] d[i]).1.spec_rank() <= ranked(d)[0].1.spec_rank(),
        ids_distinct(d) ==> ids_distinct(ranked(d)),
{
    lemma_at_level(d, Confidence::Definite);
    lemma_at_level(d, Confidence::High);
    lemma_at_level(d, Confidence::Low);
    lemma_at_level_complete(d, Confidence::Definite);
    lemma_at_level_complete(d, Confidence::High);
    lemma_at_level_complete(d, Confidence::Low);
    lemma_ranked_sorted(d);
    let a = at_level(d, Confidence::Definite);
    let b = at_level(d, Confidence::High);
    let c = at_level(d, Confidence::Low);
    let r = ranked(d);
    assert forall|i: int| 0 <= i < d.len() && (#[trigger] d[i]).1 != Confidence::NoMatch implies r.contains(d[i]) by {
        if d[i].1 == Confidence::Definite {
            let k = choose|k: int| 0 <= k < a.len() && a[k] == d[i];
            assert(r[k] == a[k]);
        } else if d[i].1 == Confidence::High {
            let k = choose|k: int| 0 <= k < b.len() && b[k] == d[i];
            assert(r[a.len() + k] == b[k]);
        } else {
            let k = choose|k: int| 0 <= k < c.len() && c[k] == d[i];
            assert(r[a.len() + b.len() + k] == c[k]);
        }
    }
    if r.len() == 0 {
        assert forall|i: int| 0 <= i < d.len() implies (#[trigger] d[i]).1 == Confidence::NoMatch by {
            if d[i].1 != Confidence::NoMatch {
                assert(r.contains(d[i]));
            }
        }
    }
    if r.len() > 0 {
        assert forall|i: int| 0 <= i < d.len() implies (#[trigger] d[i]).1.spec_rank() <= r[0].1.spec_rank() by {
            if a.len() > 0 {
                assert(r[0] == a[0]);
            } else if b.len() > 0 {
                assert(r[0] == b[0]);
                if d[i].1 == Confidence::Definite {
                    assert(a.contains(d[i]));
                }
            } else {
                assert(r[0] == c[0]);
                if d[i].1 == Confidence::Definite {
                    assert(a.contains(d[i]));
                } else if d[i].1 == Confidence::High {
                    assert(b.contains(d[i]));
                }
            }
        }
    }
    if ids_distinct(d) {
        assert forall|i: int, j: int| 0 <= i < j < r.len() implies (#[trigger] r[i]).0 != (#[trigger] r[j]).0 by {
            assert(d.contains(r[i]) && d.contains(r[j]));
            let ki = choose|k: int| 0 <= k < d.len() && d[k] == r[i];
            let kj = choose|k: int| 0 <= k < d.len() && d[k] == r[j];
            if i < a.len() {
                assert(r[i] == a[i]);
            } else if i < a.len() + b.len() {
                assert(r[i] == b[i - a.len()]);
            } else {
                assert(r[i] == c[i - a.len() - b.len()]);
            }
            if j < a.len() {
                assert(r[j] == a[j]);
            } else if j < a.len() + b.len() {
                assert(r[j] == b[j - a.len()]);
            } else {
                assert(r[j] == c[j - a.len() - b.len()]);
            }
            if r[i].0 == r[j].0 {
                if ki < kj {
                    assert(d[ki].0 != d[kj].0);
                } else if kj < ki {
                    assert(d[kj].0 != d[ki].0);
                }
            }
        }
    }
}

/// The identifiers of the standard formats are distinct.
#[verifier::rlimit(100)]
#[verifier::spinoff_prover]
pub proof fn lemma_standard_ids_distinct()
    ensures
        forall|i: int, j: int|
            0 <= i < j < standard_formats().len() ==> (#[trigger] standard_formats()[i]).0 != (#[trigger] standard_formats()[j]).0,
{
    reveal_strlit("android-xml");
    reveal_strlit("xcstrings");
    reveal_strlit("ios-strings");
    reveal_strlit("stringsdict");
    reveal_strlit("ios-plist");
    reveal_strlit("arb");
    reveal_strlit("qt");
    reveal_strlit("json");
    reveal_strlit("i18next");
    reveal_strlit("json5");
    reveal_strlit("hjson");
    reveal_strlit("yaml-rails");
    reveal_strlit("yaml-plain");
    reveal_strlit("javascript");
    reveal_strlit("typescript");
    reveal_strlit("php-laravel");
    reveal_strlit("neon");
    reveal_strlit("xliff");
    reveal_strlit("xliff2");
    reveal_strlit("po");
    reveal_strlit("tmx");
    reveal_strlit("resx");
    reveal_strlit("java-properties");
    reveal_strlit("csv");
    reveal_strlit("excel");
    reveal_strlit("toml");
    reveal_strlit("ini");
    reveal_strlit("srt");
    reveal_strlit("markdown");
    reveal_strlit("plain-text");
    reveal_strlit("ispring-xliff");
    reveal_strlit("captivate-xml");
    let f = standard_formats();
    assert forall|i: int, j: int| 0 <= i < j < f.len() implies (#[trigger] f[i]).0 != (#[trigger] f[j]).0 by {
        if f[i].0 == f[j].0 {
            assert(f[i].0.len() == f[j].0.len());
            assert(f[i].0[0] == f[j].0[0]);
            assert(f[i].0[f[i].0.len() - 1] == f[j].0[f[j].0.len() - 1]);
            assert(f[i].0[1] == f[j].0[1]);
            assert(f[i].0[2] == f[j].0[2]);
        }
    }
}

/// The detections over the standard formats name each format once.
pub proof fn lemma_standard_detections_distinct(ext: Seq<char>, content: Seq<u8>)
    ensures
        ids_distinct(detections(standard_formats(), ext, content)),
{
    lemma_standard_ids_distinct();
    let f = standard_formats();
    let d = detections(f, ext, content);
    assert forall|i: int, j: int| 0 <= i < j < d.len() implies (#[trigger] d[i]).0 != (#[trigger] d[j]).0 by {
        assert(d[i].0 == f[i].0 && d[j].0 == f[j].0);
    }
}

fn entry(id: &'static str, name: &'static str, extensions: Vec<&'static str>, kind: FormatKind) -> (e: FormatEntry)
    ensures
        entry_view(e) == (id@, name@, exts_view(extensions@), kind),
{
    FormatEntry { id, name, extensions, kind }
}

impl FormatRegistry {
    /// A registry names each format once.
    #[verifier::type_invariant]
    spec fn ids_unique(self) -> bool {
        forall|i: int, j: int|
            0 <= i < j < self.formats@.len() ==> (#[trigger] self.formats@[i]).id@ != (#[trigger] self.formats@[j]).id@
    }

    pub closed spec fn spec_formats(&self) -> Seq<(Seq<char>, Seq<char>, Seq<Seq<char>>, FormatKind)> {
        self.formats@.map_values(|e: FormatEntry| entry_view(e))
    }

    /// A registry of all 32 formats, in the order the documentation lists
    /// them: mobile and desktop, web and frameworks, standards and exchange,
    /// data and other, vendor-specific.
    #[verifier::rlimit(60)]
    #[verifier::spinoff_prover]
    pub fn new() -> (r: FormatRegistry)
        ensures
            r.spec_formats() == standard_formats(),
    {
        let mut formats: Vec<FormatEntry> = Vec::new();
        formats.push(entry("android-xml", "Android XML", vec![".xml"], FormatKind::AndroidXml));
        formats.push(entry("xcstrings", "Xcode String Catalog", vec![".xcstrings"], FormatKind::Xcstrings));
        formats.push(entry("ios-strings", "iOS Strings", vec![".strings"], FormatKind::IosStrings));
        formats.push(entry("stringsdict", "iOS Stringsdict", vec![".stringsdict"], FormatKind::Stringsdict));
        formats.push(entry("ios-plist", "iOS Property List", vec![".plist"], FormatKind::IosPlist));
        formats.push(entry("arb", "Flutter ARB", vec![".arb"], FormatKind::Arb));
        formats.push(entry("qt", "Qt Linguist", vec![".ts"], FormatKind::Qt));
        formats.push(entry("json", "Structured JSON", vec![".json"], FormatKind::Json));
        formats.push(entry("i18next", "i18next JSON", vec![".json"], FormatKind::I18next));
        formats.push(entry("json5", "JSON5", vec![".json5"], FormatKind::Json5));
        formats.push(entry("hjson", "HJSON", vec![".hjson"], FormatKind::Hjson));
        formats.push(entry("yaml-rails", "YAML (Rails)", vec![".yml", ".yaml"], FormatKind::YamlRails));
        formats.push(entry("yaml-plain", "YAML (Plain)", vec![".yml", ".yaml"], FormatKind::YamlPlain));
        formats.push(entry("javascript", "JavaScript", vec![".js"], FormatKind::JavaScript));
        formats.push(entry("typescript", "TypeScript", vec![".ts"], FormatKind::TypeScript));
        formats.push(entry("php-laravel", "PHP/Laravel", vec![".php"], FormatKind::PhpLaravel));
        formats.push(entry("neon", "NEON", vec![".neon"], FormatKind::Neon));
        formats.push(entry("xliff", "XLIFF 1.2", vec![".xliff", ".xlf"], FormatKind::Xliff));
        formats.push(entry("xliff2", "XLIFF 2.0", vec![".xliff", ".xlf"], FormatKind::Xliff2));
        formats.push(entry("po", "Gettext PO", vec![".po", ".pot"], FormatKind::Po));
        formats.push(entry("tmx", "TMX", vec![".tmx"], FormatKind::Tmx));
        formats.push(entry("resx", ".NET RESX", vec![".resx"], FormatKind::Resx));
        formats.push(entry("java-properties", "Java Properties", vec![".properties"], FormatKind::JavaProperties));
        formats.push(entry("csv", "CSV", vec![".csv", ".tsv"], FormatKind::Csv));
        formats.push(entry("excel", "Excel", vec![".xlsx", ".xls"], FormatKind::Excel));
        formats.push(entry("toml", "TOML", vec![".toml"], FormatKind::Toml));
        formats.push(entry("ini", "INI", vec![".ini"], FormatKind::Ini));
        formats.push(entry("srt", "SRT Subtitles", vec![".srt"], FormatKind::Srt));
        formats.push(entry("markdown", "Markdown", vec![".md"], FormatKind::Markdown));
        formats.push(entry("plain-text", "Plain Text", vec![".txt"], FormatKind::PlainText));
        formats.push(entry("ispring-xliff", "iSpring Suite XLIFF", vec![".xliff", ".xlf"], FormatKind::IspringXliff));
        formats.push(entry("captivate-xml", "Adobe Captivate XML", vec![".xml"], FormatKind::CaptivateXml));
        let ghost sf = formats@.map_values(|e: FormatEntry| entry_view(e));
        assert(sf =~~= standard_formats());
        proof {
            lemma_standard_ids_distinct();
            assert forall|i: int, j: int| 0 <= i < j < formats@.len() implies (#[trigger] formats@[i]).id@ != (
            #[trigger] formats@[j]).id@ by {
                assert(sf[i].0 == formats@[i].id@);
                assert(sf[j].0 == formats@[j].id@);
            }
        }
        let r = FormatRegistry { formats };
        assert(r.spec_formats() =~~= standard_formats());
        r
    }

    /// The format with the identifier, if it is registered.
    pub fn get(&self, id: &str) -> (r: Option<&FormatEntry>)
        ensures
            match r {
                Some(e) => exists|i: int|
                    0 <= i < self.spec_formats().len() && self.spec_formats()[i] == entry_view(*e) && e.id@ == id@ && forall|j: int|
                        0 <= j < i ==> self.spec_formats()[j].0 != id@,
                None => forall|j: int| 0 <= j < self.spec_formats().len() ==> self.spec_formats()[j].0 != id@,
            },
    {
        let mut i: usize = 0;
        while i < self.formats.len()
            invariant
                i <= self.formats@.len(),
                forall|j: int| 0 <= j < i ==> self.spec_formats()[j].0 != id@,
            decreases self.formats@.len() - i,
        {
            assert(self.spec_formats()[i as int] == entry_view(self.formats@[i as int]));
            if crate::text::str_eq(self.formats[i].id, id) {
                return Some(&self.formats[i]);
            }
            i = i + 1;
        }
        None
    }

    /// All registered formats, in order.
    pub fn list(&self) -> (r: Vec<&FormatEntry>)
        ensures
            r@.len() == self.spec_formats().len(),
            forall|i: int| 0 <= i < r@.len() ==> entry_view(*(#[trigger] r@[i])) == self.spec_formats()[i],
    {
        let mut r: Vec<&FormatEntry> = Vec::new();
        let mut i: usize = 0;
        while i < self.formats.len()
            invariant
                i <= self.formats@.len(),
                r@.len() == i,
                forall|j: int| 0 <= j < i ==> entry_view(*(#[trigger] r@[j])) == self.spec_formats()[j],
            decreases self.formats@.len() - i,
        {
            r.push(&self.formats[i]);
            i = i + 1;
        }
        r
    }

    /// The formats that can read a file with the extension and content,
    /// most confident first.
    pub fn detect(&self, extension: &str, content: &[u8]) -> (r: Vec<(&'static str, Confidence)>)
        ensures
            r@.map_values(|p: (&'static str, Confidence)| (p.0@, p.1)) == ranked(
                detections(self.spec_formats(), extension@, content@),
            ),
            ids_distinct(detections(self.spec_formats(), extension@, content@)),
            ids_distinct(ranked(detections(self.spec_formats(), extension@, content@))),
    {
        let ghost d = detections(self.spec_formats(), extension@, content@);
        proof {
            use_type_invariant(self);
            assert forall|i: int, j: int| 0 <= i < j < d.len() implies (#[trigger] d[i]).0 != (#[trigger] d[j]).0 by {
                assert(d[i].0 == self.formats@[i].id@);
                assert(d[j].0 == self.formats@[j].id@);
            }
            lemma_ranked_complete(d);
        }
        let mut all: Vec<(&'static str, Confidence)> = Vec::new();
        let mut i: usize = 0;
        while i < self.formats.len()
            invariant
                i <= self.formats@.len(),
                d == detections(self.spec_formats(), extension@, content@),
                all@.map_values(|p: (&'static str, Confidence)| (p.0@, p.1)) == d.take(i as int),
            decreases self.formats@.len() - i,
        {
            let e = &self.formats[i];
            assert(self.spec_formats()[i as int] == entry_view(self.formats@[i as int]));
            assert(d[i as int] == (e.id@, kind_detect(e.kind, extension@, content@)));
            let c = kind_detect_exec(e.kind, extension, content);
            let ghost before = all@;
            all.push((e.id, c));
            assert(all@ == before.push((e.id, c)));
            assert(all@.map_values(|p: (&'static str, Confidence)| (p.0@, p.1)) =~= before.map_values(
                |p: (&'static str, Confidence)| (p.0@, p.1),
            ).push((e.id@, c)));
            assert(d.take(i + 1) =~= d.take(i as int).push(d[i as int]));
            i = i + 1;
        }
        assert(d.take(self.formats@.len() as int) =~= d);
        let mut r: Vec<(&'static str, Confidence)> = Vec::new();
        push_level(&mut r, &all, Confidence::Definite);
        push_level(&mut r, &all, Confidence::High);
        push_level(&mut r, &all, Confidence::Low);
        r
    }
}

fn push_level(r: &mut Vec<(&'static str, Confidence)>, all: &Vec<(&'static str, Confidence)>, c: Confidence)
    ensures
        final(r)@.map_values(|p: (&'static str, Confidence)| (p.0@, p.1)) == old(r)@.map_values(
            |p: (&'static str, Confidence)| (p.0@, p.1),
        ) + at_level(all@.map_values(|p: (&'static str, Confidence)| (p.0@, p.1)), c),
{
    let ghost av = all@.map_values(|p: (&'static str, Confidence)| (p.0@, p.1));
    let ghost start = r@.map_values(|p: (&'static str, Confidence)| (p.0@, p.1));
    let mut i: usize = 0;
    assert(start + at_level(av.take(0), c) =~= start);
    while i < all.len()
        invariant
            i <= all@.len(),
            av == all@.map_values(|p: (&'static str, Confidence)| (p.0@, p.1)),
            r@.map_values(|p: (&'static str, Confidence)| (p.0@, p.1)) == start + at_level(av.take(i as int), c),
        decreases all@.len() - i,
    {
        assert(av.take(i + 1).drop_last() =~= av.take(i as int));
        if all[i].1 == c {
            let ghost before = r@;
            r.push(all[i]);
            assert(r@.map_values(|p: (&'static str, Confidence)| (p.0@, p.1)) =~= before.map_values(
                |p: (&'static str, Confidence)| (p.0@, p.1),
            ).push(av[i as int]));
        }
        i = i + 1;
    }
    assert(av.take(all@.len() as int) =~= av);
}

/// Asks the format of the kind how sure it is.
pub fn kind_detect_exec(k: FormatKind, extension: &str, content: &[u8]) -> (c: Confidence)
    ensures
        c == kind_detect(k, extension@, content@),
{
    match k {
        FormatKind::AndroidXml => android_xml::Parser.detect(extension, content),
        FormatKind::Xcstrings => xcstrings::Parser.detect(extension, content),
        FormatKind::IosStrings => ios_strings::Parser.detect(extension, content),
        FormatKind::Stringsdict => stringsdict::Parser.detect(extension, content),
        FormatKind::IosPlist => ios_plist::Parser.detect(extension, content),
        FormatKind::Arb => arb::Parser.detect(extension, content),
        FormatKind::Qt => qt_linguist::Parser.detect(extension, content),
        FormatKind::Json => json_structured::Parser.detect(extension, content),
        FormatKind::I18next => i18next::Parser.detect(extension, content),
        FormatKind::Json5 => json5_format::Parser.detect(extension, content),
        FormatKind::Hjson => hjson::Parser.detect(extension, content),
        FormatKind::YamlRails => yaml_rails::Parser.detect(extension, content),
        FormatKind::YamlPlain => yaml_plain::Parser.detect(extension, content),
        FormatKind::JavaScript => js_format::Parser.detect(extension, content),
        FormatKind::TypeScript => ts_format::Parser.detect(extension, content),
        FormatKind::PhpLaravel => php_laravel::Parser.detect(extension, content),
        FormatKind::Neon => neon::Parser.detect(extension, content),
        FormatKind::Xliff => xliff1::Parser.detect(extension, content),
        FormatKind::Xliff2 => xliff2::Parser.detect(extension, content),
        FormatKind::Po => po::Parser.detect(extension, content),
        FormatKind::Tmx => tmx::Parser.detect(extension, content),
        FormatKind::Resx => resx::Parser.detect(extension, content),
        FormatKind::JavaProperties => java_properties::Parser.detect(extension, content),
        FormatKind::Csv => csv_format::Parser.detect(extension, content),
        FormatKind::Excel => excel::Parser.detect(extension, content),
        FormatKind::Toml => toml_format::Parser.detect(extension, content),
        FormatKind::Ini => ini::Parser.detect(extension, content),
        FormatKind::Srt => srt::Parser.detect(extension, content),
        FormatKind::Markdown => markdown::Parser.detect(extension, content),
        FormatKind::PlainText => plain_text::Parser.detect(extension, content),
        FormatKind::IspringXliff => ispring_xliff::Parser.detect(extension, content),
        FormatKind::CaptivateXml => captivate_xml::Parser.detect(extension, content),
    }
}

} // verus!
