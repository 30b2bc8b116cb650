//! Detecting the format of a file from its name and content.
use vstd::prelude::*;
use crate::formats::{Confidence, FormatRegistry};
use crate::formats::registry::{ranked, detections, ids_distinct, lemma_ranked_complete, lemma_ranked_sorted, standard_formats, lemma_standard_detections_distinct, at_level, lemma_ranked_stable};
use crate::text::contains;

verus! {

/// What `std::path::Path::extension` gives for a path, as text (read
/// lossily): the part of the file name after its last `.`, when the name
/// has a `.` after its first character.
pub uninterp spec fn path_ext(path: Seq<char>) -> Option<Seq<char>>;

/// What holds of a path's extension on this platform, whose only separator
/// is `/`: it has no `.` and no `/`, and it follows the last `.` of the
/// file name, which ends the path but for `/` and `.` (of trailing `/` and
/// `.` components); a path without `.` has none.
pub open spec fn extension_of(path: Seq<char>, x: Option<Seq<char>>) -> bool {
    &&& x matches Some(e) ==> !e.contains('.') && !e.contains('/') && exists|k: int|
        0 <= k && k + 1 + e.len() <= path.len() && path[k] == '.' && #[trigger] path.subrange(k + 1, k + 1 + e.len())
            == e && forall|j: int| k + 1 + e.len() <= j < path.len() ==> (path[j] == '/' || path[j] == '.')
    &&& !path.contains('.') ==> x is None
}

/// `std::path::Path::extension` of a path, as text.
#[verifier::external_body]
fn path_extension(path: &str) -> (r: Option<String>)
    ensures
        match r {
            Some(e) => path_ext(path@) == Some(e@),
            None => path_ext(path@) is None,
        },
        extension_of(
            path@,
            match r {
                Some(e) => Some(e@),
                None => None,
            },
        ),
{
    std::path::Path::new(path).extension().map(|e| e.to_string_lossy().into_owned())
}

/// The extension as the formats take it: with its dot, or empty.
pub open spec fn dotted(x: Option<Seq<char>>) -> Seq<char> {
    match x {
        Some(e) => "."@ + e,
        None => Seq::empty(),
    }
}

pub open spec fn ids_view(r: Seq<(&'static str, Confidence)>) -> Seq<(Seq<char>, Confidence)> {
    r.map_values(|p: (&'static str, Confidence)| (p.0@, p.1))
}

/// The formats that can read the file at `path` with the content, most
/// confident first: the registry's detection on the path's extension.
pub fn detect_format(registry: &FormatRegistry, path: &str, content: &[u8]) -> (r: Vec<(&'static str, Confidence)>)
    ensures
        extension_of(path@, path_ext(path@)),
        ids_view(r@) == ranked(detections(registry.spec_formats(), dotted(path_ext(path@)), content@)),
        ids_distinct(ids_view(r@)),
{
    let x = path_extension(path);
    let ext = match &x {
        Some(e) => {
            let mut d = ".".to_owned();
            d.append(e.as_str());
            d
        },
        None => String::new(),
    };
    assert(ext@ =~= dotted(path_ext(path@)));
    registry.detect(ext.as_str(), content)
}

/// The most confident format for the file, if any matches: the first of
/// `detect_format`, a format that no registered format is more sure of;
/// none exactly when no registered format can read the file.
pub fn detect_best(registry: &FormatRegistry, path: &str, content: &[u8]) -> (r: Option<&'static str>)
    ensures
        ({
            let all = detections(registry.spec_formats(), dotted(path_ext(path@)), content@);
            let d = ranked(all);
            match r {
                Some(id) => d.len() > 0 && d[0].0 == id@ && forall|i: int|
                    0 <= i < all.len() ==> (#[trigger] all[i]).1.spec_rank() <= d[0].1.spec_rank(),
                None => d.len() == 0 && forall|i: int| 0 <= i < all.len() ==> (#[trigger] all[i]).1 == Confidence::NoMatch,
            }
        }),
{
    proof {
        lemma_ranked_complete(detections(registry.spec_formats(), dotted(path_ext(path@)), content@));
    }
    let results = detect_format(registry, path, content);
    if results.len() > 0 {
        Some(results[0].0)
    } else {
        None
    }
}

/// What detection on a path gives, over every registered format: each
/// format that can read the file (for the path's extension and the
/// content) is ranked, and no other; the results go from most to least
/// confident, formats of one confidence in registration order (`ranked`);
/// the first is at least as confident as every format; and for a registry
/// whose identifiers are distinct, as the standard registry's are, no
/// format is named twice.
pub proof fn lemma_detection(registry: &FormatRegistry, path: Seq<char>, content: Seq<u8>)
    ensures
        ({
            let all = detections(registry.spec_formats(), dotted(path_ext(path)), content);
            let d = ranked(all);
            &&& forall|i: int| 0 <= i < all.len() && (#[trigger] all[i]).1 != Confidence::NoMatch ==> d.contains(all[i])
            &&& forall|i: int| 0 <= i < d.len() ==> (#[trigger] d[i]).1 != Confidence::NoMatch && all.contains(d[i])
            &&& forall|i: int, j: int| 0 <= i < j < d.len() ==> (#[trigger] d[i]).1.spec_rank() >= (#[trigger] d[j]).1.spec_rank()
            &&& (d.len() == 0 <==> forall|i: int| 0 <= i < all.len() ==> (#[trigger] all[i]).1 == Confidence::NoMatch)
            &&& (d.len() > 0 ==> forall|i: int| 0 <= i < all.len() ==> (#[trigger] all[i]).1.spec_rank() <= d[0].1.spec_rank())
            &&& (ids_distinct(all) ==> ids_distinct(d))
            &&& (registry.spec_formats() == standard_formats() ==> ids_distinct(d))
            &&& forall|c: Confidence| c != Confidence::NoMatch ==> #[trigger] at_level(d, c) == at_level(all, c)
        }),
{
    let all = detections(registry.spec_formats(), dotted(path_ext(path)), content);
    lemma_ranked_complete(all);
    lemma_ranked_sorted(all);
    lemma_standard_detections_distinct(dotted(path_ext(path)), content);
    assert forall|c: Confidence| c != Confidence::NoMatch implies #[trigger] at_level(ranked(all), c) == at_level(all, c) by {
        lemma_ranked_stable(all, c);
    }
}

} // verus!
