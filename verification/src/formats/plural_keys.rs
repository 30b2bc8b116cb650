//! Plural forms written as sibling keys with a category suffix
//! (`items_one`, `items_other`), as INI and NEON files hold them, and the
//! grouping of such keys into plural entries.
use vstd::prelude::*;
use indexmap::IndexMap;
use crate::collections::{
    map_insert, map_get, group_map_pairs, group_of, cat_pairs_view, group_map_new, group_map_add, group_map_len,
    group_map_get_index, group_map_get,
};
use crate::text::{str_chars, matches_at, occurs_at, str_eq, string_views};

verus! {

/// `s` ends with `p`.
pub open spec fn ends_with(s: Seq<char>, p: Seq<char>) -> bool {
    p.len() <= s.len() && s.skip(s.len() - p.len()) == p
}

/// The base of `key` when `key` ends with `suffix` and something comes
/// before it.
pub open spec fn strip_base(key: Seq<char>, suffix: Seq<char>) -> Option<Seq<char>> {
    if ends_with(key, suffix) && key.len() > suffix.len() {
        Some(key.take(key.len() - suffix.len()))
    } else {
        None
    }
}

/// The base of `key` and the category `cat` when `key` ends with `suffix`
/// and something comes before it.
pub open spec fn strip_one(key: Seq<char>, suffix: Seq<char>, cat: Seq<char>) -> Option<(Seq<char>, Seq<char>)> {
    match strip_base(key, suffix) {
        Some(b) => Some((b, cat)),
        None => None,
    }
}

/// The base key and plural category of a key with a plural suffix; the
/// suffixes are tried in the order zero, one, two, few, many, other.
pub open spec fn spec_strip_plural_suffix(key: Seq<char>) -> Option<(Seq<char>, Seq<char>)> {
    if strip_one(key, "_zero"@, "zero"@) is Some {
        strip_one(key, "_zero"@, "zero"@)
    } else if strip_one(key, "_one"@, "one"@) is Some {
        strip_one(key, "_one"@, "one"@)
    } else if strip_one(key, "_two"@, "two"@) is Some {
        strip_one(key, "_two"@, "two"@)
    } else if strip_one(key, "_few"@, "few"@) is Some {
        strip_one(key, "_few"@, "few"@)
    } else if strip_one(key, "_many"@, "many"@) is Some {
        strip_one(key, "_many"@, "many"@)
    } else {
        strip_one(key, "_other"@, "other"@)
    }
}

pub open spec fn opt_pair_view(r: Option<(&str, &str)>) -> Option<(Seq<char>, Seq<char>)> {
    match r {
        Some(p) => Some((p.0@, p.1@)),
        None => None,
    }
}

pub open spec fn opt_str_view(r: Option<&str>) -> Option<Seq<char>> {
    match r {
        Some(p) => Some(p@),
        None => None,
    }
}

/// The base of `key` (whose characters are `chars`) before `suffix`, when
/// it ends with it and the base is not empty.
pub fn strip_base_exec<'a>(key: &'a str, chars: &Vec<char>, suffix: &str) -> (r: Option<&'a str>)
    requires
        chars@ == key@,
    ensures
        opt_str_view(r) == strip_base(key@, suffix@),
{
    let sv = str_chars(suffix);
    let n = chars.len();
    let m = sv.len();
    if m < n && matches_at(chars.as_slice(), sv.as_slice(), n - m) {
        proof {
            assert(key@.skip(n - m) =~= key@.subrange(n - m, n as int));
        }
        Some(key.substring_char(0, n - m))
    } else {
        proof {
            if ends_with(key@, suffix@) && key@.len() > suffix@.len() {
                assert(key@.skip(n - m) =~= key@.subrange(n - m, n as int));
                assert(occurs_at(chars@, sv@, n - m));
            }
        }
        None
    }
}

fn strip_one_exec<'a>(key: &'a str, chars: &Vec<char>, suffix: &str, cat: &'static str) -> (r: Option<(&'a str, &'static str)>)
    requires
        chars@ == key@,
    ensures
        opt_pair_view(r) == strip_one(key@, suffix@, cat@),
{
    match strip_base_exec(key, chars, suffix) {
        Some(b) => Some((b, cat)),
        None => None,
    }
}

/// Checks whether a key ends with a plural suffix; gives the base key and
/// the category when it does.
pub fn strip_plural_suffix(key: &str) -> (r: Option<(&str, &'static str)>)
    ensures
        opt_pair_view(r) == spec_strip_plural_suffix(key@),
{
    let chars = str_chars(key);
    let r = strip_one_exec(key, &chars, "_zero", "zero");
    if r.is_some() {
        return r;
    }
    let r = strip_one_exec(key, &chars, "_one", "one");
    if r.is_some() {
        return r;
    }
    let r = strip_one_exec(key, &chars, "_two", "two");
    if r.is_some() {
        return r;
    }
    let r = strip_one_exec(key, &chars, "_few", "few");
    if r.is_some() {
        return r;
    }
    let r = strip_one_exec(key, &chars, "_many", "many");
    if r.is_some() {
        return r;
    }
    strip_one_exec(key, &chars, "_other", "other")
}

// ---------------------------------------------------------------------------
// Grouping
// ---------------------------------------------------------------------------

/// The plural groups of a list of keys: each base key, in the order of its
/// first suffixed key, with its categories in order of first appearance,
/// each with the index of the last key that gave it.
pub type Bases = Seq<(Seq<char>, Seq<(Seq<char>, usize)>)>;

pub open spec fn group_fold(keys: Seq<Seq<char>>) -> Bases
    decreases keys.len(),
{
    if keys.len() == 0 {
        Seq::empty()
    } else {
        let b = group_fold(keys.drop_last());
        match spec_strip_plural_suffix(keys.last()) {
            Some((base, cat)) => map_insert(b, base, map_insert(group_of(b, base), cat, (keys.len() - 1) as usize)),
            None => b,
        }
    }
}

/// A group makes a plural entry only when it has an `other` form.
pub open spec fn has_other(ms: Seq<(Seq<char>, usize)>) -> bool {
    map_get(ms, "other"@) is Some
}

/// One entry to build: a plural group, or a single key by its index.
pub enum GroupView {
    Plural(Seq<char>, Seq<(Seq<char>, usize)>),
    Single(usize),
}

/// One entry to build, with the category/index pairs of a plural group.
pub enum Group {
    Plural(String, Vec<(String, usize)>),
    Single(usize),
}

pub open spec fn group_view(g: Group) -> GroupView {
    match g {
        Group::Plural(b, ms) => GroupView::Plural(b@, cat_pairs_view(ms@)),
        Group::Single(i) => GroupView::Single(i),
    }
}

pub open spec fn groups_view(v: Seq<Group>) -> Seq<GroupView> {
    v.map_values(|g: Group| group_view(g))
}

/// The plural groups that have an `other` form, in order.
pub open spec fn plural_part(bases: Bases) -> Seq<GroupView>
    decreases bases.len(),
{
    if bases.len() == 0 {
        Seq::empty()
    } else {
        plural_part(bases.drop_last()) + if has_other(bases.last().1) {
            seq![GroupView::Plural(bases.last().0, bases.last().1)]
        } else {
            Seq::empty()
        }
    }
}

/// A key stands alone when it has no plural suffix, or when its group has
/// no `other` form and it is the key kept for its category.
pub open spec fn included(keys: Seq<Seq<char>>, bases: Bases, i: int) -> bool {
    match spec_strip_plural_suffix(keys[i]) {
        None => true,
        Some((b, c)) => !has_other(group_of(bases, b)) && map_get(group_of(bases, b), c) == Some(i as usize),
    }
}

/// The keys below `n` that stand alone, in index order.
pub open spec fn single_part(keys: Seq<Seq<char>>, bases: Bases, n: int) -> Seq<GroupView>
    decreases n,
{
    if n <= 0 {
        Seq::empty()
    } else {
        single_part(keys, bases, n - 1) + if included(keys, bases, n - 1) {
            seq![GroupView::Single((n - 1) as usize)]
        } else {
            Seq::empty()
        }
    }
}

/// The entries to build from a list of keys: the plural groups first, then
/// the keys that stand alone.
pub open spec fn spec_plan(keys: Seq<Seq<char>>) -> Seq<GroupView> {
    let bases = group_fold(keys);
    plural_part(bases) + single_part(keys, bases, keys.len() as int)
}

fn has_other_exec(ms: &Vec<(String, usize)>) -> (r: bool)
    ensures
        r == has_other(cat_pairs_view(ms@)),
{
    match lookup(ms, "other") {
        Some(_) => true,
        None => false,
    }
}

/// The index stored under category `c`, if any.
fn lookup(ms: &Vec<(String, usize)>, c: &str) -> (r: Option<usize>)
    ensures
        r == map_get(cat_pairs_view(ms@), c@),
{
    let ghost v = cat_pairs_view(ms@);
    proof {
        crate::collections::lemma_key_index(v, c@);
    }
    let mut i: usize = 0;
    while i < ms.len()
        invariant
            i <= ms@.len(),
            v == cat_pairs_view(ms@),
            forall|j: int| 0 <= j < i ==> v[j].0 != c@,
        decreases ms@.len() - i,
    {
        if str_eq(ms[i].0.as_str(), c) {
            assert(v[i as int].0 == c@);
            assert(v[i as int].1 == ms@[i as int].1);
            proof {
                crate::collections::lemma_key_index(v, c@);
            }
            return Some(ms[i].1);
        }
        i = i + 1;
    }
    None
}

/// Plans the entries of a list of keys: plural groups with an `other` form
/// first, in order, then the other keys in index order.
pub fn plan_groups(keys: &Vec<String>) -> (r: Vec<Group>)
    ensures
        groups_view(r@) == spec_plan(string_views(keys@)),
{
    let ghost kv = string_views(keys@);
    let mut bases = group_map_new();
    let mut i: usize = 0;
    while i < keys.len()
        invariant
            i <= keys@.len(),
            kv == string_views(keys@),
            group_map_pairs(bases) == group_fold(kv.take(i as int)),
        decreases keys@.len() - i,
    {
        assert(kv.take(i + 1).drop_last() == kv.take(i as int));
        assert(kv.take(i + 1).last() == keys@[i as int]@);
        match strip_plural_suffix(keys[i].as_str()) {
            Some((b, c)) => {
                group_map_add(&mut bases, b.to_owned(), c.to_owned(), i);
            },
            None => {},
        }
        i = i + 1;
    }
    assert(kv.take(keys@.len() as int) == kv);
    let ghost bv = group_map_pairs(bases);
    let mut plan: Vec<Group> = Vec::new();
    let n = group_map_len(&bases);
    let mut j: usize = 0;
    while j < n
        invariant
            j <= n,
            n == bv.len(),
            bv == group_map_pairs(bases),
            groups_view(plan@) == plural_part(bv.take(j as int)),
        decreases n - j,
    {
        assert(bv.take(j + 1).drop_last() == bv.take(j as int));
        match group_map_get_index(&bases, j) {
            Some((b, ms)) => {
                if has_other_exec(&ms) {
                    let ghost before = groups_view(plan@);
                    plan.push(Group::Plural(b, ms));
                    assert(groups_view(plan@) == before.push(GroupView::Plural(bv[j as int].0, bv[j as int].1)));
                }
            },
            None => {},
        }
        j = j + 1;
    }
    assert(bv.take(n as int) == bv);
    let ghost head = groups_view(plan@);
    let mut k: usize = 0;
    while k < keys.len()
        invariant
            k <= keys@.len(),
            kv == string_views(keys@),
            bv == group_map_pairs(bases),
            bv == group_fold(kv),
            groups_view(plan@) == head + single_part(kv, bv, k as int),
        decreases keys@.len() - k,
    {
        let inc = match strip_plural_suffix(keys[k].as_str()) {
            None => true,
            Some((b, c)) => match group_map_get(&bases, b) {
                Some(ms) => !has_other_exec(&ms) && lookup(&ms, c) == Some(k),
                None => {
                    assert(group_of(bv, b@) == Seq::<(Seq<char>, usize)>::empty());
                    assert(!has_other(group_of(bv, b@)));
                    false
                },
            },
        };
        assert(inc == included(kv, bv, k as int));
        if inc {
            let ghost before = groups_view(plan@);
            plan.push(Group::Single(k));
            assert(groups_view(plan@) == before.push(GroupView::Single(k)));
        }
        k = k + 1;
    }
    plan
}

} // verus!
