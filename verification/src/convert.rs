//! Data-loss checks for converting a resource to a target format.
use vstd::prelude::*;
use crate::collections::{entry_map_pairs, entry_map_len, entry_map_get_index, str_map_pairs, str_map_len};
use crate::ir::{I18nResource, I18nEntry, EntryValue, FormatCapabilities, DataLossWarning, WarningSeverity};
use crate::text::{decimal, push_decimal};

verus! {

/// Number of attributes that a conversion can lose.
pub const ATTRIBUTE_COUNT: usize = 12;

/// Whether converting to a format with capabilities `t` loses attribute `k`
/// of entry `e`. The attributes, in the order of the warnings: plurals,
/// arrays, select/gender, comments, context, source strings, translation
/// state, max width constraints, device variants, alternative translations,
/// source references, custom properties.
pub open spec fn loses(e: I18nEntry, t: FormatCapabilities, k: int) -> bool {
    if k == 0 {
        !t.plurals && (e.value is Plural || e.value is MultiVariablePlural)
    } else if k == 1 {
        !t.arrays && e.value is Array
    } else if k == 2 {
        !t.select_gender && e.value is Select
    } else if k == 3 {
        !t.comments && e.comments@.len() > 0
    } else if k == 4 {
        !t.context && e.contexts@.len() > 0
    } else if k == 5 {
        !t.source_string && e.source is Some
    } else if k == 6 {
        !t.translation_state && e.state is Some
    } else if k == 7 {
        !t.max_width && e.max_width is Some
    } else if k == 8 {
        !t.device_variants && e.device_variants is Some
    } else if k == 9 {
        !t.alternatives && e.alternatives@.len() > 0
    } else if k == 10 {
        !t.source_references && e.source_references@.len() > 0
    } else {
        !t.custom_properties && str_map_pairs(e.properties).len() > 0
    }
}

/// The name of attribute `k` in warnings.
pub open spec fn attribute_name(k: int) -> Seq<char> {
    if k == 0 {
        "plurals"@
    } else if k == 1 {
        "arrays"@
    } else if k == 2 {
        "select/gender"@
    } else if k == 3 {
        "comments"@
    } else if k == 4 {
        "context"@
    } else if k == 5 {
        "source strings"@
    } else if k == 6 {
        "translation state"@
    } else if k == 7 {
        "max width constraints"@
    } else if k == 8 {
        "device variants"@
    } else if k == 9 {
        "alternative translations"@
    } else if k == 10 {
        "source references"@
    } else {
        "custom properties"@
    }
}

/// How serious losing attribute `k` is: losing plurals, arrays, selects or
/// device variants is an error; comments, context and source strings a
/// warning; the rest information.
pub open spec fn attribute_severity(k: int) -> WarningSeverity {
    if k == 0 || k == 1 || k == 2 || k == 8 {
        WarningSeverity::Error
    } else if k == 3 || k == 4 || k == 5 {
        WarningSeverity::Warning
    } else {
        WarningSeverity::Info
    }
}

/// The keys of the entries, in order, that lose attribute `k`.
pub open spec fn losing_keys(p: Seq<(Seq<char>, I18nEntry)>, t: FormatCapabilities, k: int) -> Seq<Seq<char>>
    decreases p.len(),
{
    if p.len() == 0 {
        Seq::empty()
    } else if loses(p.last().1, t, k) {
        losing_keys(p.drop_last(), t, k).push(p.last().1.key@)
    } else {
        losing_keys(p.drop_last(), t, k)
    }
}

/// The warning message for `n` entries that lose attribute `k` in the
/// target format named `target`, such as
/// `3 entries use plurals (not supported by CSV)`.
pub open spec fn warning_message(n: nat, k: int, target: Seq<char>) -> Seq<char> {
    decimal(n) + " entries use "@ + attribute_name(k) + " (not supported by "@ + target + ")"@
}

/// The warning is the one for attribute `k` and the affected keys `keys`.
pub open spec fn warning_for(w: DataLossWarning, keys: Seq<Seq<char>>, k: int, target: Seq<char>) -> bool {
    &&& w.severity == attribute_severity(k)
    &&& w.message@ == warning_message(keys.len(), k, target)
    &&& w.affected_keys@.map_values(|s: String| s@) == keys
    &&& w.lost_attribute@ == attribute_name(k)
    &&& w.count == keys.len()
}

/// The attributes below `n` that some entry loses, in order.
pub open spec fn lost_attributes(p: Seq<(Seq<char>, I18nEntry)>, t: FormatCapabilities, n: int) -> Seq<int>
    decreases n,
{
    if n <= 0 {
        Seq::empty()
    } else if losing_keys(p, t, n - 1).len() > 0 {
        lost_attributes(p, t, n - 1).push(n - 1)
    } else {
        lost_attributes(p, t, n - 1)
    }
}

/// The warnings are one for each attribute that some entry loses, in the
/// attributes' order, each naming the entries that lose it.
pub open spec fn warnings_model(ws: Seq<DataLossWarning>, p: Seq<(Seq<char>, I18nEntry)>, t: FormatCapabilities, n: int, target: Seq<char>) -> bool {
    let ks = lost_attributes(p, t, n);
    &&& ws.len() == ks.len()
    &&& forall|i: int| 0 <= i < ws.len() ==> warning_for(#[trigger] ws[i], losing_keys(p, t, ks[i]), ks[i], target)
}

fn entry_loses(e: &I18nEntry, t: &FormatCapabilities, k: usize) -> (b: bool)
    requires
        k < ATTRIBUTE_COUNT,
    ensures
        b == loses(*e, *t, k as int),
{
    if k == 0 {
        !t.plurals && match &e.value {
            EntryValue::Plural(_) | EntryValue::MultiVariablePlural(_) => true,
            _ => false,
        }
    } else if k == 1 {
        !t.arrays && match &e.value {
            EntryValue::Array(_) => true,
            _ => false,
        }
    } else if k == 2 {
        !t.select_gender && match &e.value {
            EntryValue::Select(_) => true,
            _ => false,
        }
    } else if k == 3 {
        !t.comments && e.comments.len() > 0
    } else if k == 4 {
        !t.context && e.contexts.len() > 0
    } else if k == 5 {
        !t.source_string && e.source.is_some()
    } else if k == 6 {
        !t.translation_state && e.state.is_some()
    } else if k == 7 {
        !t.max_width && e.max_width.is_some()
    } else if k == 8 {
        !t.device_variants && e.device_variants.is_some()
    } else if k == 9 {
        !t.alternatives && e.alternatives.len() > 0
    } else if k == 10 {
        !t.source_references && e.source_references.len() > 0
    } else {
        !t.custom_properties && str_map_len(&e.properties) > 0
    }
}

fn attribute_label(k: usize) -> (s: String)
    requires
        k < ATTRIBUTE_COUNT,
    ensures
        s@ == attribute_name(k as int),
{
    let label = if k == 0 {
        "plurals"
    } else if k == 1 {
        "arrays"
    } else if k == 2 {
        "select/gender"
    } else if k == 3 {
        "comments"
    } else if k == 4 {
        "context"
    } else if k == 5 {
        "source strings"
    } else if k == 6 {
        "translation state"
    } else if k == 7 {
        "max width constraints"
    } else if k == 8 {
        "device variants"
    } else if k == 9 {
        "alternative translations"
    } else if k == 10 {
        "source references"
    } else {
        "custom properties"
    };
    label.to_owned()
}

fn severity_of(k: usize) -> (s: WarningSeverity)
    requires
        k < ATTRIBUTE_COUNT,
    ensures
        s == attribute_severity(k as int),
{
    if k == 0 || k == 1 || k == 2 || k == 8 {
        WarningSeverity::Error
    } else if k == 3 || k == 4 || k == 5 {
        WarningSeverity::Warning
    } else {
        WarningSeverity::Info
    }
}

fn collect_losing_keys(resource: &I18nResource, target: &FormatCapabilities, k: usize) -> (keys: Vec<String>)
    requires
        k < ATTRIBUTE_COUNT,
    ensures
        keys@.map_values(|s: String| s@) == losing_keys(entry_map_pairs(resource.entries), *target, k as int),
{
    let n = entry_map_len(&resource.entries);
    let ghost p = entry_map_pairs(resource.entries);
    let mut keys: Vec<String> = Vec::new();
    let mut i: usize = 0;
    while i < n
        invariant
            n == p.len(),
            p == entry_map_pairs(resource.entries),
            i <= n,
            k < ATTRIBUTE_COUNT,
            keys@.map_values(|s: String| s@) == losing_keys(p.take(i as int), *target, k as int),
        decreases n - i,
    {
        assert(p.take(i + 1).drop_last() == p.take(i as int));
        assert(p.take(i + 1).last() == p[i as int]);
        match entry_map_get_index(&resource.entries, i) {
            Some((_, entry)) => {
                if entry_loses(entry, target, k) {
                    let ghost before = keys@.map_values(|s: String| s@);
                    keys.push(entry.key.clone());
                    assert(keys@.map_values(|s: String| s@) == before.push(entry.key@));
                }
            },
            None => {},
        }
        i = i + 1;
    }
    assert(p.take(n as int) == p);
    keys
}

pub proof fn lemma_lost_attributes(p: Seq<(Seq<char>, I18nEntry)>, t: FormatCapabilities, n: int)
    ensures
        forall|i: int, j: int|
            0 <= i < j < lost_attributes(p, t, n).len() ==> #[trigger] lost_attributes(p, t, n)[i] < #[trigger] lost_attributes(
                p,
                t,
                n,
            )[j],
        forall|i: int| 0 <= i < lost_attributes(p, t, n).len() ==> 0 <= #[trigger] lost_attributes(p, t, n)[i] < n,
        forall|i: int|
            0 <= i < lost_attributes(p, t, n).len() ==> losing_keys(p, t, #[trigger] lost_attributes(p, t, n)[i]).len() > 0,
        forall|k: int|
            0 <= k < n && losing_keys(p, t, k).len() > 0 ==> exists|i: int|
                0 <= i < lost_attributes(p, t, n).len() && #[trigger] lost_attributes(p, t, n)[i] == k,
    decreases n,
{
    if n > 0 {
        lemma_lost_attributes(p, t, n - 1);
        let r = lost_attributes(p, t, n - 1);
        assert forall|k: int| 0 <= k < n && losing_keys(p, t, k).len() > 0 implies exists|i: int|
            0 <= i < lost_attributes(p, t, n).len() && #[trigger] lost_attributes(p, t, n)[i] == k by {
            if k < n - 1 {
                let i = choose|i: int| 0 <= i < r.len() && #[trigger] r[i] == k;
                assert(lost_attributes(p, t, n)[i] == k);
            } else {
                assert(lost_attributes(p, t, n)[r.len() as int] == k);
            }
        }
    }
}

pub proof fn lemma_losing_keys(p: Seq<(Seq<char>, I18nEntry)>, t: FormatCapabilities, k: int, key: Seq<char>)
    ensures
        losing_keys(p, t, k).contains(key) <==> exists|i: int|
            0 <= i < p.len() && loses(#[trigger] p[i].1, t, k) && p[i].1.key@ == key,
    decreases p.len(),
{
    if p.len() > 0 {
        let q = p.drop_last();
        lemma_losing_keys(q, t, k, key);
        let lk = losing_keys(q, t, k);
        if losing_keys(p, t, k).contains(key) {
            if loses(p.last().1, t, k) && p.last().1.key@ == key {
                assert(loses(p[p.len() - 1].1, t, k));
            } else {
                if loses(p.last().1, t, k) {
                    let j = choose|j: int| 0 <= j < losing_keys(p, t, k).len() && losing_keys(p, t, k)[j] == key;
                    assert(lk[j] == key);
                    assert(lk.contains(key));
                }
                let i = choose|i: int| 0 <= i < q.len() && loses(#[trigger] q[i].1, t, k) && q[i].1.key@ == key;
                assert(p[i] == q[i]);
            }
        }
        if exists|i: int| 0 <= i < p.len() && loses(#[trigger] p[i].1, t, k) && p[i].1.key@ == key {
            let i = choose|i: int| 0 <= i < p.len() && loses(#[trigger] p[i].1, t, k) && p[i].1.key@ == key;
            if i == p.len() - 1 {
                assert(losing_keys(p, t, k).last() == key);
                assert(losing_keys(p, t, k)[losing_keys(p, t, k).len() - 1] == key);
            } else {
                assert(q[i] == p[i]);
                let j = choose|j: int| 0 <= j < lk.len() && lk[j] == key;
                if loses(p.last().1, t, k) {
                    assert(losing_keys(p, t, k)[j] == key);
                }
            }
        }
    }
}

/// Some warning names attribute `k`.
pub open spec fn reports(ws: Seq<DataLossWarning>, k: int) -> bool {
    exists|i: int| 0 <= i < ws.len() && (#[trigger] ws[i]).lost_attribute@ == attribute_name(k)
}

/// Some entry has attribute `k` while the target cannot hold it.
pub open spec fn some_entry_loses(p: Seq<(Seq<char>, I18nEntry)>, t: FormatCapabilities, k: int) -> bool {
    exists|j: int| 0 <= j < p.len() && loses(#[trigger] p[j].1, t, k)
}

pub open spec fn keys_view(v: Seq<String>) -> Seq<Seq<char>> {
    v.map_values(|s: String| s@)
}

/// Some entry with the key has attribute `k` while the target cannot hold it.
pub open spec fn key_loses(p: Seq<(Seq<char>, I18nEntry)>, t: FormatCapabilities, k: int, key: Seq<char>) -> bool {
    exists|j: int| 0 <= j < p.len() && loses(#[trigger] p[j].1, t, k) && p[j].1.key@ == key
}

/// The keys are exactly those of the entries that lose attribute `k`.
pub open spec fn names_exactly(keys: Seq<String>, p: Seq<(Seq<char>, I18nEntry)>, t: FormatCapabilities, k: int) -> bool {
    forall|key: Seq<char>| #[trigger] keys_view(keys).contains(key) <==> key_loses(p, t, k, key)
}

/// Different attributes have different names.
pub proof fn lemma_attribute_names_distinct(a: int, b: int)
    requires
        0 <= a < ATTRIBUTE_COUNT,
        0 <= b < ATTRIBUTE_COUNT,
        a != b,
    ensures
        attribute_name(a) != attribute_name(b),
{
    reveal_strlit("plurals");
    reveal_strlit("arrays");
    reveal_strlit("select/gender");
    reveal_strlit("comments");
    reveal_strlit("context");
    reveal_strlit("source strings");
    reveal_strlit("translation state");
    reveal_strlit("max width constraints");
    reveal_strlit("device variants");
    reveal_strlit("alternative translations");
    reveal_strlit("source references");
    reveal_strlit("custom properties");
    assert(attribute_name(a).len() != attribute_name(b).len() || attribute_name(a)[0] != attribute_name(b)[0]);
}

/// The data-loss warnings: one per attribute that some entry loses and
/// none for another, in the attributes' order (plurals, arrays,
/// select/gender, comments, context, source strings, translation state,
/// max width constraints, device variants, alternative translations,
/// source references, custom properties), so no attribute is named twice;
/// each with the attribute's severity (an error for plurals, arrays,
/// selects and device variants, a warning for comments, context and source
/// strings, information for the rest), and naming, in resource order,
/// exactly the entries that have the attribute while the target cannot
/// hold it, with their number, at least one; its message gives the number,
/// the attribute and the target format's name, as in
/// `3 entries use plurals (not supported by CSV)`.
pub proof fn lemma_data_loss_warnings(ws: Seq<DataLossWarning>, p: Seq<(Seq<char>, I18nEntry)>, t: FormatCapabilities, target: Seq<char>)
    requires
        warnings_model(ws, p, t, ATTRIBUTE_COUNT as int, target),
    ensures
        forall|i: int| 0 <= i < ws.len() ==> (#[trigger] ws[i]).message@ == decimal(ws[i].count as nat) + " entries use "@
            + ws[i].lost_attribute@ + " (not supported by "@ + target + ")"@,
        forall|k: int|
            0 <= k < ATTRIBUTE_COUNT ==> (#[trigger] reports(ws, k) <==> some_entry_loses(p, t, k)),
        forall|i: int, j: int|
            0 <= i < j < ws.len() ==> (#[trigger] ws[i]).lost_attribute@ != (#[trigger] ws[j]).lost_attribute@,
        forall|i: int|
            0 <= i < ws.len() ==> exists|k: int|
                0 <= k < ATTRIBUTE_COUNT && (#[trigger] ws[i]).lost_attribute@ == attribute_name(k) && ws[i].severity
                    == attribute_severity(k) && ws[i].count >= 1 && ws[i].count == ws[i].affected_keys@.len() && names_exactly(ws[i].affected_keys@, p, t, k),
        ws.len() == lost_attributes(p, t, ATTRIBUTE_COUNT as int).len(),
        forall|i: int|
            0 <= i < ws.len() ==> (#[trigger] ws[i]).lost_attribute@ == attribute_name(
                lost_attributes(p, t, ATTRIBUTE_COUNT as int)[i],
            ),
        forall|i: int, j: int|
            0 <= i < j < ws.len() ==> #[trigger] lost_attributes(p, t, ATTRIBUTE_COUNT as int)[i]
                < #[trigger] lost_attributes(p, t, ATTRIBUTE_COUNT as int)[j],
{
    let n = ATTRIBUTE_COUNT as int;
    let ks = lost_attributes(p, t, n);
    lemma_lost_attributes(p, t, n);
    assert forall|k: int| 0 <= k < n implies (#[trigger] reports(ws, k) <==> some_entry_loses(p, t, k)) by {
        if exists|i: int| 0 <= i < ws.len() && (#[trigger] ws[i]).lost_attribute@ == attribute_name(k) {
            let i = choose|i: int| 0 <= i < ws.len() && (#[trigger] ws[i]).lost_attribute@ == attribute_name(k);
            assert(warning_for(ws[i], losing_keys(p, t, ks[i]), ks[i], target));
            if ks[i] != k {
                lemma_attribute_names_distinct(ks[i], k);
            }
            let key = losing_keys(p, t, k)[0];
            assert(losing_keys(p, t, k).contains(key));
            lemma_losing_keys(p, t, k, key);
        }
        if exists|j: int| 0 <= j < p.len() && loses(#[trigger] p[j].1, t, k) {
            let j = choose|j: int| 0 <= j < p.len() && loses(#[trigger] p[j].1, t, k);
            lemma_losing_keys(p, t, k, p[j].1.key@);
            let i = choose|i: int| 0 <= i < ks.len() && #[trigger] ks[i] == k;
            assert(warning_for(ws[i], losing_keys(p, t, ks[i]), ks[i], target));
        }
    }
    assert forall|i: int, j: int| 0 <= i < j < ws.len() implies (#[trigger] ws[i]).lost_attribute@
        != (#[trigger] ws[j]).lost_attribute@ by {
        assert(warning_for(ws[i], losing_keys(p, t, ks[i]), ks[i], target));
        assert(warning_for(ws[j], losing_keys(p, t, ks[j]), ks[j], target));
        assert(ks[i] < ks[j]);
        lemma_attribute_names_distinct(ks[i], ks[j]);
    }
    assert forall|i: int| 0 <= i < ws.len() implies exists|k: int|
        0 <= k < ATTRIBUTE_COUNT && (#[trigger] ws[i]).lost_attribute@ == attribute_name(k) && ws[i].severity
            == attribute_severity(k) && ws[i].count >= 1 && ws[i].count == ws[i].affected_keys@.len() && names_exactly(ws[i].affected_keys@, p, t, k) by {
        let k = ks[i];
        assert(warning_for(ws[i], losing_keys(p, t, k), k, target));
        assert forall|key: Seq<char>| #[trigger] keys_view(ws[i].affected_keys@).contains(key) <==> key_loses(p, t, k, key) by {
            lemma_losing_keys(p, t, k, key);
        }
    }
    assert forall|i: int| 0 <= i < ws.len() implies (#[trigger] ws[i]).lost_attribute@ == attribute_name(ks[i]) by {
        assert(warning_for(ws[i], losing_keys(p, t, ks[i]), ks[i], target));
    }
}

/// What each attribute named in a warning means for one entry: the entry
/// loses the attribute named `plurals` exactly when the target cannot hold
/// plurals and its value is plural; `comments` exactly when the target
/// cannot hold comments and the entry has at least one comment; and so on
/// for arrays, selects, contexts, source strings, states, width limits,
/// device variants, alternatives, source references and custom properties.
pub proof fn lemma_attribute_meaning(e: I18nEntry, t: FormatCapabilities)
    ensures
        forall|k: int| 0 <= k < ATTRIBUTE_COUNT && attribute_name(k) == "plurals"@ ==> (#[trigger] loses(e, t, k) <==> (!t.plurals && (e.value is Plural || e.value is MultiVariablePlural))),
        forall|k: int| 0 <= k < ATTRIBUTE_COUNT && attribute_name(k) == "arrays"@ ==> (#[trigger] loses(e, t, k) <==> (!t.arrays && e.value is Array)),
        forall|k: int| 0 <= k < ATTRIBUTE_COUNT && attribute_name(k) == "select/gender"@ ==> (#[trigger] loses(e, t, k) <==> (!t.select_gender && e.value is Select)),
        forall|k: int| 0 <= k < ATTRIBUTE_COUNT && attribute_name(k) == "comments"@ ==> (#[trigger] loses(e, t, k) <==> (!t.comments && e.comments@.len() > 0)),
        forall|k: int| 0 <= k < ATTRIBUTE_COUNT && attribute_name(k) == "context"@ ==> (#[trigger] loses(e, t, k) <==> (!t.context && e.contexts@.len() > 0)),
        forall|k: int| 0 <= k < ATTRIBUTE_COUNT && attribute_name(k) == "source strings"@ ==> (#[trigger] loses(e, t, k) <==> (!t.source_string && e.source is Some)),
        forall|k: int| 0 <= k < ATTRIBUTE_COUNT && attribute_name(k) == "translation state"@ ==> (#[trigger] loses(e, t, k) <==> (!t.translation_state && e.state is Some)),
        forall|k: int| 0 <= k < ATTRIBUTE_COUNT && attribute_name(k) == "max width constraints"@ ==> (#[trigger] loses(e, t, k) <==> (!t.max_width && e.max_width is Some)),
        forall|k: int| 0 <= k < ATTRIBUTE_COUNT && attribute_name(k) == "device variants"@ ==> (#[trigger] loses(e, t, k) <==> (!t.device_variants && e.device_variants is Some)),
        forall|k: int| 0 <= k < ATTRIBUTE_COUNT && attribute_name(k) == "alternative translations"@ ==> (#[trigger] loses(e, t, k) <==> (!t.alternatives && e.alternatives@.len() > 0)),
        forall|k: int| 0 <= k < ATTRIBUTE_COUNT && attribute_name(k) == "source references"@ ==> (#[trigger] loses(e, t, k) <==> (!t.source_references && e.source_references@.len() > 0)),
        forall|k: int| 0 <= k < ATTRIBUTE_COUNT && attribute_name(k) == "custom properties"@ ==> (#[trigger] loses(e, t, k) <==> (!t.custom_properties && str_map_pairs(e.properties).len() > 0)),
{
    assert forall|k: int| 0 <= k < ATTRIBUTE_COUNT && attribute_name(k) == "plurals"@ implies (#[trigger] loses(e, t, k) <==> (!t.plurals && (e.value is Plural || e.value is MultiVariablePlural))) by {
        if k != 0 {
            lemma_attribute_names_distinct(k, 0);
        }
    }
    assert forall|k: int| 0 <= k < ATTRIBUTE_COUNT && attribute_name(k) == "arrays"@ implies (#[trigger] loses(e, t, k) <==> (!t.arrays && e.value is Array)) by {
        if k != 1 {
            lemma_attribute_names_distinct(k, 1);
        }
    }
    assert forall|k: int| 0 <= k < ATTRIBUTE_COUNT && attribute_name(k) == "select/gender"@ implies (#[trigger] loses(e, t, k) <==> (!t.select_gender && e.value is Select)) by {
        if k != 2 {
            lemma_attribute_names_distinct(k, 2);
        }
    }
    assert forall|k: int| 0 <= k < ATTRIBUTE_COUNT && attribute_name(k) == "comments"@ implies (#[trigger] loses(e, t, k) <==> (!t.comments && e.comments@.len() > 0)) by {
        if k != 3 {
            lemma_attribute_names_distinct(k, 3);
        }
    }
    assert forall|k: int| 0 <= k < ATTRIBUTE_COUNT && attribute_name(k) == "context"@ implies (#[trigger] loses(e, t, k) <==> (!t.context && e.contexts@.len() > 0)) by {
        if k != 4 {
            lemma_attribute_names_distinct(k, 4);
        }
    }
    assert forall|k: int| 0 <= k < ATTRIBUTE_COUNT && attribute_name(k) == "source strings"@ implies (#[trigger] loses(e, t, k) <==> (!t.source_string && e.source is Some)) by {
        if k != 5 {
            lemma_attribute_names_distinct(k, 5);
        }
    }
    assert forall|k: int| 0 <= k < ATTRIBUTE_COUNT && attribute_name(k) == "translation state"@ implies (#[trigger] loses(e, t, k) <==> (!t.translation_state && e.state is Some)) by {
        if k != 6 {
            lemma_attribute_names_distinct(k, 6);
        }
    }
    assert forall|k: int| 0 <= k < ATTRIBUTE_COUNT && attribute_name(k) == "max width constraints"@ implies (#[trigger] loses(e, t, k) <==> (!t.max_width && e.max_width is Some)) by {
        if k != 7 {
            lemma_attribute_names_distinct(k, 7);
        }
    }
    assert forall|k: int| 0 <= k < ATTRIBUTE_COUNT && attribute_name(k) == "device variants"@ implies (#[trigger] loses(e, t, k) <==> (!t.device_variants && e.device_variants is Some)) by {
        if k != 8 {
            lemma_attribute_names_distinct(k, 8);
        }
    }
    assert forall|k: int| 0 <= k < ATTRIBUTE_COUNT && attribute_name(k) == "alternative translations"@ implies (#[trigger] loses(e, t, k) <==> (!t.alternatives && e.alternatives@.len() > 0)) by {
        if k != 9 {
            lemma_attribute_names_distinct(k, 9);
        }
    }
    assert forall|k: int| 0 <= k < ATTRIBUTE_COUNT && attribute_name(k) == "source references"@ implies (#[trigger] loses(e, t, k) <==> (!t.source_references && e.source_references@.len() > 0)) by {
        if k != 10 {
            lemma_attribute_names_distinct(k, 10);
        }
    }
    assert forall|k: int| 0 <= k < ATTRIBUTE_COUNT && attribute_name(k) == "custom properties"@ implies (#[trigger] loses(e, t, k) <==> (!t.custom_properties && str_map_pairs(e.properties).len() > 0)) by {
        if k != 11 {
            lemma_attribute_names_distinct(k, 11);
        }
    }
}

/// A conversion reports lost comments exactly when the target cannot hold
/// comments and some entry has a comment; the warning then names exactly the
/// entries with comments.
pub proof fn lemma_comments_warning(ws: Seq<DataLossWarning>, p: Seq<(Seq<char>, I18nEntry)>, t: FormatCapabilities, target: Seq<char>)
    requires
        warnings_model(ws, p, t, ATTRIBUTE_COUNT as int, target),
    ensures
        (exists|i: int| 0 <= i < ws.len() && (#[trigger] ws[i]).lost_attribute@ == "comments"@)
            <==> (!t.comments && exists|j: int| 0 <= j < p.len() && (#[trigger] p[j]).1.comments@.len() > 0),
        forall|i: int, key: Seq<char>|
            0 <= i < ws.len() && (#[trigger] ws[i]).lost_attribute@ == "comments"@ ==> (#[trigger] keys_view(ws[i].affected_keys@).contains(key)
                <==> exists|j: int| 0 <= j < p.len() && (#[trigger] p[j]).1.comments@.len() > 0 && p[j].1.key@ == key),
{
    lemma_data_loss_warnings(ws, p, t, target);
    assert(attribute_name(3) == "comments"@);
    assert(reports(ws, 3) <==> some_entry_loses(p, t, 3));
    assert(some_entry_loses(p, t, 3) <==> (!t.comments && exists|j: int| 0 <= j < p.len() && (#[trigger] p[j]).1.comments@.len() > 0)) by {
        if some_entry_loses(p, t, 3) {
            let j = choose|j: int| 0 <= j < p.len() && loses(#[trigger] p[j].1, t, 3);
            assert(p[j].1.comments@.len() > 0);
        }
        if !t.comments && exists|j: int| 0 <= j < p.len() && (#[trigger] p[j]).1.comments@.len() > 0 {
            let j = choose|j: int| 0 <= j < p.len() && (#[trigger] p[j]).1.comments@.len() > 0;
            assert(loses(p[j].1, t, 3));
        }
    }
    assert forall|i: int, key: Seq<char>|
        0 <= i < ws.len() && (#[trigger] ws[i]).lost_attribute@ == "comments"@ implies (#[trigger] keys_view(ws[i].affected_keys@).contains(key)
            <==> exists|j: int| 0 <= j < p.len() && (#[trigger] p[j]).1.comments@.len() > 0 && p[j].1.key@ == key) by {
        let k = choose|k: int|
            0 <= k < ATTRIBUTE_COUNT && (#[trigger] ws[i]).lost_attribute@ == attribute_name(k) && ws[i].severity
                == attribute_severity(k) && ws[i].count >= 1 && ws[i].count == ws[i].affected_keys@.len() && names_exactly(ws[i].affected_keys@, p, t, k);
        if k != 3 {
            lemma_attribute_names_distinct(k, 3);
        }
        assert(keys_view(ws[i].affected_keys@).contains(key) <==> key_loses(p, t, 3, key));
        if key_loses(p, t, 3, key) {
            let j = choose|j: int| 0 <= j < p.len() && loses(#[trigger] p[j].1, t, 3) && p[j].1.key@ == key;
            assert(p[j].1.comments@.len() > 0);
        }
        if exists|j: int| 0 <= j < p.len() && (#[trigger] p[j]).1.comments@.len() > 0 && p[j].1.key@ == key {
            let j = choose|j: int| 0 <= j < p.len() && (#[trigger] p[j]).1.comments@.len() > 0 && p[j].1.key@ == key;
            assert(loses(p[j].1, t, 3));
            assert(!t.comments) by {
                assert(ws[i].lost_attribute@ == attribute_name(3));
                assert(reports(ws, 3));
            }
        }
    }
}

/// Checks for potential data loss when converting an IR resource to a
/// target format: for each attribute that the target cannot hold, the
/// entries that have it.
pub fn check_data_loss(resource: &I18nResource, target: &FormatCapabilities, target_name: &str) -> (warnings: Vec<DataLossWarning>)
    ensures
        warnings_model(warnings@, entry_map_pairs(resource.entries), *target, ATTRIBUTE_COUNT as int, target_name@),
{
    let ghost p = entry_map_pairs(resource.entries);
    let mut warnings: Vec<DataLossWarning> = Vec::new();
    let mut k: usize = 0;
    while k < ATTRIBUTE_COUNT
        invariant
            k <= ATTRIBUTE_COUNT,
            p == entry_map_pairs(resource.entries),
            warnings_model(warnings@, p, *target, k as int, target_name@),
        decreases ATTRIBUTE_COUNT - k,
    {
        let keys = collect_losing_keys(resource, target, k);
        if keys.len() > 0 {
            let count = keys.len();
            let mut message = String::new();
            push_decimal(&mut message, count as u64);
            message.append(" entries use ");
            let attr = attribute_label(k);
            message.append(attr.as_str());
            message.append(" (not supported by ");
            message.append(target_name);
            message.append(")");
            let w = DataLossWarning {
                severity: severity_of(k),
                message,
                affected_keys: keys,
                lost_attribute: attr,
                count,
            };
            let ghost before = warnings@;
            warnings.push(w);
            proof {
                let ks = lost_attributes(p, *target, k + 1);
                assert(ks == lost_attributes(p, *target, k as int).push(k as int));
                assert forall|i: int| 0 <= i < warnings@.len() implies warning_for(
                    #[trigger] warnings@[i],
                    losing_keys(p, *target, ks[i]),
                    ks[i],
                    target_name@,
                ) by {
                    if i < before.len() {
                        assert(warnings@[i] == before[i]);
                    }
                }
            }
        }
        k = k + 1;
    }
    warnings
}

} // verus!
