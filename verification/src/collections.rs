//! Ordered maps from `indexmap`, used by the intermediate representation.
//!
//! `IndexMap` keeps its keys unique and in insertion order; inserting an
//! existing key replaces its value in place. The contents of each map type
//! that the logic reads are named as a sequence of key/value pairs, in order.
use vstd::prelude::*;
use indexmap::IndexMap;
use crate::ir::{I18nEntry, PluralVariable};

verus! {

#[verifier::external_type_specification]
#[verifier::external_body]
#[verifier::reject_recursive_types(K)]
#[verifier::reject_recursive_types(V)]
#[verifier::reject_recursive_types(S)]
pub struct ExIndexMap<K, V, S>(IndexMap<K, V, S>);

/// `Clone::clone` of an `IndexMap`, which the derived clones of the
/// representation's types call. Nothing is stated of the copy.
pub assume_specification<K, V, S>[ <indexmap::IndexMap<K, V, S> as std::clone::Clone>::clone ](
    m: &indexmap::IndexMap<K, V, S>,
) -> indexmap::IndexMap<K, V, S>
    where
        K: std::clone::Clone,
        V: std::clone::Clone,
        S: std::clone::Clone,
;

/// The key/value pairs of a map from strings to strings, in map order.
pub uninterp spec fn str_map_pairs(m: IndexMap<String, String>) -> Seq<(Seq<char>, Seq<char>)>;

/// The key/value pairs of a map from keys to entries, in map order.
pub uninterp spec fn entry_map_pairs(m: IndexMap<String, I18nEntry>) -> Seq<(Seq<char>, I18nEntry)>;

/// The key/value pairs of a map from names to plural variables, in map order.
pub uninterp spec fn var_map_pairs(m: IndexMap<String, PluralVariable>) -> Seq<(Seq<char>, PluralVariable)>;

/// The key/value pairs of a map from exact plural counts to strings, in map order.
pub uninterp spec fn count_map_pairs(m: IndexMap<u64, String>) -> Seq<(u64, Seq<char>)>;

/// Index of the first pair whose key is `k`, or -1 when there is none.
pub open spec fn key_index<K, V>(s: Seq<(K, V)>, k: K) -> int
    decreases s.len(),
{
    if s.len() == 0 {
        -1
    } else if s[0].0 == k {
        0
    } else {
        let r = key_index(s.drop_first(), k);
        if r < 0 { -1 } else { r + 1 }
    }
}

/// No key occurs twice.
pub open spec fn keys_unique<K, V>(s: Seq<(K, V)>) -> bool {
    forall|i: int, j: int| 0 <= i < s.len() && 0 <= j < s.len() && i != j ==> s[i].0 != s[j].0
}

/// The pairs after inserting `k => v`: the value of an existing key is
/// replaced in place, a new key goes last.
pub open spec fn map_insert<K, V>(s: Seq<(K, V)>, k: K, v: V) -> Seq<(K, V)> {
    let i = key_index(s, k);
    if i >= 0 { s.update(i, (k, v)) } else { s.push((k, v)) }
}

/// The value stored under `k`, if any.
pub open spec fn map_get<K, V>(s: Seq<(K, V)>, k: K) -> Option<V> {
    let i = key_index(s, k);
    if i >= 0 { Some(s[i].1) } else { None }
}

pub proof fn lemma_key_index<K, V>(s: Seq<(K, V)>, k: K)
    ensures
        -1 <= key_index(s, k) < s.len(),
        key_index(s, k) >= 0 ==> s[key_index(s, k)].0 == k,
        key_index(s, k) >= 0 ==> forall|j: int| 0 <= j < key_index(s, k) ==> s[j].0 != k,
        key_index(s, k) < 0 ==> forall|j: int| 0 <= j < s.len() ==> s[j].0 != k,
    decreases s.len(),
{
    if s.len() > 0 && s[0].0 != k {
        lemma_key_index(s.drop_first(), k);
        assert forall|j: int| 1 <= j < s.len() implies s[j] == s.drop_first()[j - 1] by {}
    }
}

/// `IndexMap::new`: an empty map.
#[verifier::external_body]
pub fn str_map_new() -> (m: IndexMap<String, String>)
    ensures
        keys_unique(str_map_pairs(m)),
        str_map_pairs(m) == Seq::<(Seq<char>, Seq<char>)>::empty(),
{
    IndexMap::new()
}

/// `IndexMap::insert` on a map from strings to strings.
#[verifier::external_body]
pub fn str_map_insert(m: &mut IndexMap<String, String>, k: String, v: String)
    ensures
        keys_unique(str_map_pairs(*final(m))),
        str_map_pairs(*final(m)) == map_insert(str_map_pairs(*old(m)), k@, v@),
{
    m.insert(k, v);
}

/// `IndexMap::len` on a map from strings to strings.
#[verifier::external_body]
pub fn str_map_len(m: &IndexMap<String, String>) -> (n: usize)
    ensures
        n == str_map_pairs(*m).len(),
{
    m.len()
}

/// `IndexMap::get_index` on a map from strings to strings: the pair at index
/// `i`, or `None` past the end.
#[verifier::external_body]
pub fn str_map_get_index(m: &IndexMap<String, String>, i: usize) -> (r: Option<(&String, &String)>)
    ensures
        i < str_map_pairs(*m).len() <==> r is Some,
        r matches Some(p) ==> p.0@ == str_map_pairs(*m)[i as int].0 && p.1@ == str_map_pairs(*m)[i as int].1,
{
    m.get_index(i)
}

/// `IndexMap::get` on a map from strings to strings: the value stored
/// under `k`, if any.
#[verifier::external_body]
pub fn str_map_get<'a>(m: &'a IndexMap<String, String>, k: &str) -> (r: Option<&'a String>)
    ensures
        r matches Some(v) ==> map_get(str_map_pairs(*m), k@) == Some(v@),
        r is None ==> map_get(str_map_pairs(*m), k@) is None,
{
    m.get(k)
}

/// The key/value pairs of a map from plural indexes to strings, in map order.
pub uninterp spec fn index_map_pairs(m: IndexMap<u32, String>) -> Seq<(u32, Seq<char>)>;

/// `IndexMap::new`: an empty map from plural indexes to strings.
#[verifier::external_body]
pub fn index_map_new() -> (m: IndexMap<u32, String>)
    ensures
        keys_unique(index_map_pairs(m)),
        index_map_pairs(m) == Seq::<(u32, Seq<char>)>::empty(),
{
    IndexMap::new()
}

/// `IndexMap::insert` on a map from plural indexes to strings.
#[verifier::external_body]
pub fn index_map_insert(m: &mut IndexMap<u32, String>, k: u32, v: String)
    ensures
        keys_unique(index_map_pairs(*final(m))),
        index_map_pairs(*final(m)) == map_insert(index_map_pairs(*old(m)), k, v@),
{
    m.insert(k, v);
}

/// `IndexMap::get` on a map from plural indexes to strings.
#[verifier::external_body]
pub fn index_map_get(m: &IndexMap<u32, String>, k: u32) -> (r: Option<&String>)
    ensures
        match map_get(index_map_pairs(*m), k) {
            Some(x) => r matches Some(v) && v@ == x,
            None => r is None,
        },
{
    m.get(&k)
}

/// Appends `v` to the value stored under `k`, if there is one.
pub fn index_map_append(m: &mut IndexMap<u32, String>, k: u32, v: &str)
    ensures
        index_map_pairs(*final(m)) == match map_get(index_map_pairs(*old(m)), k) {
            Some(x) => map_insert(index_map_pairs(*old(m)), k, x + v@),
            None => index_map_pairs(*old(m)),
        },
{
    match index_map_get(m, k) {
        Some(x) => {
            let mut s = x.clone();
            s.append(v);
            index_map_insert(m, k, s);
        },
        None => {},
    }
}

/// `IndexMap::len` on a map from plural indexes to strings.
#[verifier::external_body]
pub fn index_map_len(m: &IndexMap<u32, String>) -> (n: usize)
    ensures
        n == index_map_pairs(*m).len(),
{
    m.len()
}

/// `IndexMap::get_index` on a map from plural indexes to strings: the pair
/// at index `i`, or `None` past the end.
#[verifier::external_body]
pub fn index_map_get_index(m: &IndexMap<u32, String>, i: usize) -> (r: Option<(&u32, &String)>)
    ensures
        i < index_map_pairs(*m).len() <==> r is Some,
        r matches Some(p) ==> *p.0 == index_map_pairs(*m)[i as int].0 && p.1@ == index_map_pairs(*m)[i as int].1,
{
    m.get_index(i)
}

/// `IndexMap::new`: an empty map of entries.
#[verifier::external_body]
pub fn entry_map_new() -> (m: IndexMap<String, I18nEntry>)
    ensures
        keys_unique(entry_map_pairs(m)),
        entry_map_pairs(m) == Seq::<(Seq<char>, I18nEntry)>::empty(),
{
    IndexMap::new()
}

/// `IndexMap::insert` on a map of entries.
#[verifier::external_body]
pub fn entry_map_insert(m: &mut IndexMap<String, I18nEntry>, k: String, v: I18nEntry)
    ensures
        keys_unique(entry_map_pairs(*final(m))),
        entry_map_pairs(*final(m)) == map_insert(entry_map_pairs(*old(m)), k@, v),
{
    m.insert(k, v);
}

/// `IndexMap::len` on a map of entries.
#[verifier::external_body]
pub fn entry_map_len(m: &IndexMap<String, I18nEntry>) -> (n: usize)
    ensures
        n == entry_map_pairs(*m).len(),
{
    m.len()
}

/// `IndexMap::get_index` on a map of entries: the pair at index `i`, or
/// `None` past the end.
#[verifier::external_body]
pub fn entry_map_get_index(m: &IndexMap<String, I18nEntry>, i: usize) -> (r: Option<(&String, &I18nEntry)>)
    ensures
        i < entry_map_pairs(*m).len() <==> r is Some,
        r matches Some(p) ==> p.0@ == entry_map_pairs(*m)[i as int].0 && *p.1 == entry_map_pairs(*m)[i as int].1,
{
    m.get_index(i)
}

/// `IndexMap::get` on a map of entries: the entry stored under `k`, if any.
#[verifier::external_body]
pub fn entry_map_get<'a>(m: &'a IndexMap<String, I18nEntry>, k: &str) -> (r: Option<&'a I18nEntry>)
    ensures
        r matches Some(e) ==> map_get(entry_map_pairs(*m), k@) == Some(*e),
        r is None ==> map_get(entry_map_pairs(*m), k@) is None,
{
    m.get(k)
}

/// `IndexMap::new`: an empty map of plural variables.
#[verifier::external_body]
pub fn var_map_new() -> (m: IndexMap<String, PluralVariable>)
    ensures
        keys_unique(var_map_pairs(m)),
        var_map_pairs(m) == Seq::<(Seq<char>, PluralVariable)>::empty(),
{
    IndexMap::new()
}

/// `IndexMap::insert` on a map of plural variables.
#[verifier::external_body]
pub fn var_map_insert(m: &mut IndexMap<String, PluralVariable>, k: String, v: PluralVariable)
    ensures
        keys_unique(var_map_pairs(*final(m))),
        var_map_pairs(*final(m)) == map_insert(var_map_pairs(*old(m)), k@, v),
{
    m.insert(k, v);
}

/// `IndexMap::len` on a map of plural variables.
#[verifier::external_body]
pub fn var_map_len(m: &IndexMap<String, PluralVariable>) -> (n: usize)
    ensures
        n == var_map_pairs(*m).len(),
{
    m.len()
}

/// `IndexMap::get_index` on a map of plural variables: the pair at index
/// `i`, or `None` past the end.
#[verifier::external_body]
pub fn var_map_get_index(m: &IndexMap<String, PluralVariable>, i: usize) -> (r: Option<(&String, &PluralVariable)>)
    ensures
        i < var_map_pairs(*m).len() <==> r is Some,
        r matches Some(p) ==> p.0@ == var_map_pairs(*m)[i as int].0 && *p.1 == var_map_pairs(*m)[i as int].1,
{
    m.get_index(i)
}

/// `IndexMap::new`: an empty map of exact plural matches.
#[verifier::external_body]
pub fn count_map_new() -> (m: IndexMap<u64, String>)
    ensures
        keys_unique(count_map_pairs(m)),
        count_map_pairs(m) == Seq::<(u64, Seq<char>)>::empty(),
{
    IndexMap::new()
}

/// `IndexMap::len` on a map of exact plural matches.
#[verifier::external_body]
pub fn count_map_len(m: &IndexMap<u64, String>) -> (n: usize)
    ensures
        n == count_map_pairs(*m).len(),
{
    m.len()
}

/// `IndexMap::get_index` on a map of exact plural matches: the pair at
/// index `i`, or `None` past the end.
#[verifier::external_body]
pub fn count_map_get_index(m: &IndexMap<u64, String>, i: usize) -> (r: Option<(&u64, &String)>)
    ensures
        i < count_map_pairs(*m).len() <==> r is Some,
        r matches Some(p) ==> *p.0 == count_map_pairs(*m)[i as int].0 && p.1@ == count_map_pairs(*m)[i as int].1,
{
    m.get_index(i)
}


/// Two pair sequences of equal length with the same keys in the same
/// places, whose values are related by `rel` place by place.
pub open spec fn pairs_model<A, B>(p: Seq<(Seq<char>, A)>, m: Seq<(Seq<char>, B)>, rel: spec_fn(A, B) -> bool) -> bool {
    &&& p.len() == m.len()
    &&& forall|i: int| 0 <= i < p.len() ==> (#[trigger] p[i]).0 == m[i].0 && rel(p[i].1, m[i].1)
}

pub proof fn lemma_key_index_same<A, B>(p: Seq<(Seq<char>, A)>, m: Seq<(Seq<char>, B)>, k: Seq<char>)
    requires
        p.len() == m.len(),
        forall|i: int| 0 <= i < p.len() ==> (#[trigger] p[i]).0 == m[i].0,
    ensures
        key_index(p, k) == key_index(m, k),
    decreases p.len(),
{
    if p.len() > 0 {
        assert(p[0].0 == m[0].0);
        assert forall|i: int| 0 <= i < p.drop_first().len() implies (#[trigger] p.drop_first()[i]).0 == m.drop_first()[i].0 by {
            assert(p.drop_first()[i] == p[i + 1]);
            assert(m.drop_first()[i] == m[i + 1]);
        }
        lemma_key_index_same(p.drop_first(), m.drop_first(), k);
    }
}

/// Inserting related values under the same key keeps two pair sequences related.
pub proof fn lemma_pairs_model_insert<A, B>(
    p: Seq<(Seq<char>, A)>,
    m: Seq<(Seq<char>, B)>,
    rel: spec_fn(A, B) -> bool,
    k: Seq<char>,
    a: A,
    b: B,
)
    requires
        pairs_model(p, m, rel),
        rel(a, b),
    ensures
        pairs_model(map_insert(p, k, a), map_insert(m, k, b), rel),
{
    assert forall|i: int| 0 <= i < p.len() implies (#[trigger] p[i]).0 == m[i].0 by {}
    lemma_key_index_same(p, m, k);
    lemma_key_index(p, k);
    let q = map_insert(p, k, a);
    let n = map_insert(m, k, b);
    assert forall|i: int| 0 <= i < q.len() implies (#[trigger] q[i]).0 == n[i].0 && rel(q[i].1, n[i].1) by {
        if i < p.len() {
            assert(p[i].0 == m[i].0 && rel(p[i].1, m[i].1));
        }
    }
}


/// The groups of a map from base keys to maps from plural categories to
/// indexes: each base with its category/index pairs, both in map order.
pub uninterp spec fn group_map_pairs(m: IndexMap<String, IndexMap<String, usize>>) -> Seq<(Seq<char>, Seq<(Seq<char>, usize)>)>;

/// The category/index pairs stored under `k`, or none.
pub open spec fn group_of(g: Seq<(Seq<char>, Seq<(Seq<char>, usize)>)>, k: Seq<char>) -> Seq<(Seq<char>, usize)> {
    match map_get(g, k) {
        Some(ms) => ms,
        None => Seq::empty(),
    }
}

pub open spec fn cat_pairs_view(v: Seq<(String, usize)>) -> Seq<(Seq<char>, usize)> {
    v.map_values(|p: (String, usize)| (p.0@, p.1))
}

/// `IndexMap::new`: an empty map of plural groups.
#[verifier::external_body]
pub fn group_map_new() -> (m: IndexMap<String, IndexMap<String, usize>>)
    ensures
        keys_unique(group_map_pairs(m)),
        group_map_pairs(m) == Seq::<(Seq<char>, Seq<(Seq<char>, usize)>)>::empty(),
{
    IndexMap::new()
}

/// `IndexMap::entry(base).or_default()` and then `IndexMap::insert(cat, i)` on
/// the inner map: the group of `base` (made empty and put last when new)
/// gets `cat => i`.
#[verifier::external_body]
pub fn group_map_add(m: &mut IndexMap<String, IndexMap<String, usize>>, base: String, cat: String, i: usize)
    ensures
        keys_unique(group_map_pairs(*final(m))),
        group_map_pairs(*final(m)) == map_insert(
            group_map_pairs(*old(m)),
            base@,
            map_insert(group_of(group_map_pairs(*old(m)), base@), cat@, i),
        ),
{
    m.entry(base).or_default().insert(cat, i);
}

/// `IndexMap::len` on a map of plural groups.
#[verifier::external_body]
pub fn group_map_len(m: &IndexMap<String, IndexMap<String, usize>>) -> (n: usize)
    ensures
        n == group_map_pairs(*m).len(),
{
    m.len()
}

/// `IndexMap::get_index` on a map of plural groups, with the inner map's
/// pairs copied out in order.
#[verifier::external_body]
pub fn group_map_get_index(m: &IndexMap<String, IndexMap<String, usize>>, i: usize) -> (r: Option<(String, Vec<(String, usize)>)>)
    ensures
        i < group_map_pairs(*m).len() <==> r is Some,
        r matches Some(p) ==> p.0@ == group_map_pairs(*m)[i as int].0 && cat_pairs_view(p.1@) == group_map_pairs(*m)[i as int].1,
{
    m.get_index(i).map(|(k, v)| (k.clone(), v.iter().map(|(c, x)| (c.clone(), *x)).collect()))
}

/// `IndexMap::get` on a map of plural groups, with the inner map's pairs
/// copied out in order.
#[verifier::external_body]
pub fn group_map_get(m: &IndexMap<String, IndexMap<String, usize>>, k: &str) -> (r: Option<Vec<(String, usize)>>)
    ensures
        r matches Some(v) ==> map_get(group_map_pairs(*m), k@) == Some(cat_pairs_view(v@)),
        r is None ==> map_get(group_map_pairs(*m), k@) is None,
{
    m.get(k).map(|v| v.iter().map(|(c, x)| (c.clone(), *x)).collect())
}


/// The sections of a map from optional section names to entry indexes, in
/// map order.
pub uninterp spec fn sec_map_pairs(m: IndexMap<Option<String>, Vec<usize>>) -> Seq<(Option<Seq<char>>, Seq<usize>)>;

/// The pairs after pushing `i` onto the list of `k`: an existing key keeps
/// its place, a new key goes last with the list `[i]`.
pub open spec fn sec_push(s: Seq<(Option<Seq<char>>, Seq<usize>)>, k: Option<Seq<char>>, i: usize) -> Seq<(Option<Seq<char>>, Seq<usize>)> {
    let j = key_index(s, k);
    if j >= 0 {
        s.update(j, (k, s[j].1.push(i)))
    } else {
        s.push((k, seq![i]))
    }
}

/// `IndexMap::new`: an empty map of sections.
#[verifier::external_body]
pub fn sec_map_new() -> (m: IndexMap<Option<String>, Vec<usize>>)
    ensures
        keys_unique(sec_map_pairs(m)),
        sec_map_pairs(m) == Seq::<(Option<Seq<char>>, Seq<usize>)>::empty(),
{
    IndexMap::new()
}

/// `IndexMap::entry(k).or_default()` and then `Vec::push(i)`.
#[verifier::external_body]
pub fn sec_map_push(m: &mut IndexMap<Option<String>, Vec<usize>>, k: Option<String>, i: usize)
    ensures
        keys_unique(sec_map_pairs(*final(m))),
        sec_map_pairs(*final(m)) == sec_push(
            sec_map_pairs(*old(m)),
            match k {
                Some(s) => Some(s@),
                None => None,
            },
            i,
        ),
{
    m.entry(k).or_default().push(i);
}

/// `IndexMap::len` on a map of sections.
#[verifier::external_body]
pub fn sec_map_len(m: &IndexMap<Option<String>, Vec<usize>>) -> (n: usize)
    ensures
        n == sec_map_pairs(*m).len(),
{
    m.len()
}

/// `IndexMap::get_index` on a map of sections, the pair copied out.
#[verifier::external_body]
pub fn sec_map_get_index(m: &IndexMap<Option<String>, Vec<usize>>, i: usize) -> (r: Option<(Option<String>, Vec<usize>)>)
    ensures
        i < sec_map_pairs(*m).len() <==> r is Some,
        r matches Some(p) ==> match p.0 {
            Some(s) => Some(s@),
            None => None,
        } == sec_map_pairs(*m)[i as int].0 && p.1@ == sec_map_pairs(*m)[i as int].1,
{
    m.get_index(i).map(|(k, v)| (k.clone(), v.clone()))
}

} // verus!
