//! iOS `.stringsdict` files: property lists whose entries hold a format
//! key naming variables (`%#@count@`) and the plural rules of each.
use vstd::prelude::*;
use crate::ir::{
    FormatCapabilities, PluralSet, I18nResource, I18nEntry, ResourceMetadata, FormatId, EntryValue, MultiVariablePlural,
    PluralVariable,
};
use crate::collections::{
    map_get, map_insert, key_index, lemma_key_index, pairs_model, entry_map_pairs, entry_map_new, entry_map_insert,
    var_map_pairs, var_map_new, var_map_insert, var_map_len, var_map_get_index, count_map_pairs, entry_map_len,
    entry_map_get_index,
};
use crate::json::{JsonValue, JsonView, json_view, members_view, lemma_members_view, obj_find, obj_insert};
use crate::text::{
    str_chars, string_of, str_eq, str_contains, chars_range, index_of, lemma_index_of, find_char, find_pat,
    lemma_find_pat, find_pat_from, string_views, contains, alphanumeric, is_alphanumeric,
};
use vstd::utf8::{valid_utf8, decode_utf8};
use super::{Confidence, opt_view, WriteError, ParseError, PluralView, plural_put, plural_set_view, put_plural};

verus! {

pub struct Parser;

pub struct Writer;

/// The variable names of a format key: the text between `%#@` and the next
/// `@`, for each such reference in order; a reference with no closing `@`
/// ends the search.
pub open spec fn var_names(s: Seq<char>) -> Seq<Seq<char>>
    decreases s.len(),
{
    proof {
        lemma_find_pat(s, seq!['%', '#', '@'], 0);
    }
    match find_pat(s, seq!['%', '#', '@'], 0) {
        Some(st) => {
            let after = s.skip(st + 3);
            proof {
                lemma_index_of(after, '@');
            }
            match index_of(after, '@') {
                Some(e) => seq![after.take(e)] + var_names(after.skip(e + 1)),
                None => Seq::empty(),
            }
        },
        None => Seq::empty(),
    }
}

/// Extracts the variable names referenced in a format key (`%#@name@`).
pub fn extract_variable_names(pattern: &str) -> (names: Vec<String>)
    ensures
        string_views(names@) == var_names(pattern@),
{
    let chars = str_chars(pattern);
    let pat = vec!['%', '#', '@'];
    let mut names: Vec<String> = Vec::new();
    let mut pos: usize = 0;
    assert(chars@.skip(0) == chars@);
    while pos <= chars.len()
        invariant
            pos <= chars@.len() + 1,
            pat@ == seq!['%', '#', '@'],
            pos <= chars@.len() ==> var_names(pattern@) == string_views(names@) + var_names(chars@.skip(pos as int)),
            pos > chars@.len() ==> var_names(pattern@) == string_views(names@),
            chars@ == pattern@,
        decreases chars@.len() + 1 - pos,
    {
        let rest = chars_range(chars.as_slice(), pos, chars.len());
        assert(rest@ == chars@.skip(pos as int));
        proof {
            lemma_find_pat(rest@, pat@, 0);
        }
        match find_pat_from(rest.as_slice(), pat.as_slice(), 0) {
            Some(st) => {
                assert(rest@.len() == rest.len());
                let after = chars_range(rest.as_slice(), st + 3, rest.len());
                assert(after@ == rest@.skip(st + 3));
                proof {
                    lemma_index_of(after@, '@');
                }
                match find_char(after.as_slice(), '@') {
                    Some(e) => {
                        let name = chars_range(after.as_slice(), 0, e);
                        assert(name@ == after@.take(e as int));
                        let ghost before = string_views(names@);
                        names.push(string_of(name.as_slice()));
                        assert(string_views(names@) == before.push(name@));
                        assert(after@.skip(e + 1) == chars@.skip(pos + st + 3 + e + 1));
                        assert(seq![name@] + var_names(after@.skip(e + 1)) == var_names(rest@));
                        assert(string_views(names@) + var_names(after@.skip(e + 1)) =~= before + (seq![name@] + var_names(after@.skip(e + 1))));
                        pos = pos + st + 3 + e + 1;
                    },
                    None => {
                        assert(var_names(rest@) == Seq::<Seq<char>>::empty());
                        assert(string_views(names@) + Seq::<Seq<char>>::empty() =~= string_views(names@));
                        return names;
                    },
                }
            },
            None => {
                assert(var_names(rest@) == Seq::<Seq<char>>::empty());
                assert(string_views(names@) + Seq::<Seq<char>>::empty() =~= string_views(names@));
                return names;
            },
        }
    }
    names
}

/// Derives the variable name for a key: the key itself.
pub fn derive_var_name(key: &str) -> (r: String)
    ensures
        r@ == key@,
{
    key.to_owned()
}

/// The leading characters that are alphanumeric or `@`.
pub open spec fn spec_chars_prefix(s: Seq<char>) -> Seq<char>
    decreases s.len(),
{
    if s.len() > 0 && (alphanumeric(s[0]) || s[0] == '@') {
        seq![s[0]] + spec_chars_prefix(s.drop_first())
    } else {
        Seq::empty()
    }
}

/// The format specifier a value shows: the alphanumeric or `@` characters
/// after its first `%`, unless that `%` starts `%#` or `%%`.
pub open spec fn specifier_of(v: Seq<char>) -> Seq<char> {
    match index_of(v, '%') {
        Some(p) => {
            let after = v.skip(p + 1);
            if after.len() > 0 && (after[0] == '#' || after[0] == '%') {
                Seq::empty()
            } else {
                spec_chars_prefix(after)
            }
        },
        None => Seq::empty(),
    }
}

/// The values of a plural set in the order zero, one, two, few, many,
/// other, the absent ones left out.
pub open spec fn plural_values(ps: PluralSet) -> Seq<Seq<char>> {
    let opt = |o: Option<String>|
        match o {
            Some(s) => seq![s@],
            None => Seq::<Seq<char>>::empty(),
        };
    opt(ps.zero) + opt(ps.one) + opt(ps.two) + opt(ps.few) + opt(ps.many) + seq![ps.other@]
}

/// The first non-empty specifier among the values, else `d`.
pub open spec fn first_specifier(vs: Seq<Seq<char>>) -> Seq<char>
    decreases vs.len(),
{
    if vs.len() == 0 {
        seq!['d']
    } else if specifier_of(vs[0]).len() > 0 {
        specifier_of(vs[0])
    } else {
        first_specifier(vs.drop_first())
    }
}

fn specifier_exec(v: &String) -> (r: String)
    ensures
        r@ == specifier_of(v@),
{
    let c = str_chars(v.as_str());
    proof {
        lemma_index_of(c@, '%');
    }
    match find_char(c.as_slice(), '%') {
        Some(p) => {
            assert(c@.len() == c.len());
            let after = chars_range(c.as_slice(), p + 1, c.len());
            assert(after@ == c@.skip(p + 1));
            if after.len() > 0 && (after[0] == '#' || after[0] == '%') {
                String::new()
            } else {
                let mut r = String::new();
                let mut i: usize = 0;
                assert(after@.skip(0) == after@);
                assert(r@ + spec_chars_prefix(after@) =~= spec_chars_prefix(after@));
                while i < after.len() && (is_alphanumeric(after[i]) || after[i] == '@')
                    invariant
                        i <= after@.len(),
                        spec_chars_prefix(after@) == r@ + spec_chars_prefix(after@.skip(i as int)),
                    decreases after@.len() - i,
                {
                    assert(after@.skip(i as int).drop_first() == after@.skip(i + 1));
                    r.push(after[i]);
                    i = i + 1;
                }
                assert(spec_chars_prefix(after@.skip(i as int)) == Seq::<char>::empty());
                assert(r@ + Seq::<char>::empty() =~= r@);
                r
            }
        },
        None => String::new(),
    }
}

/// Infers the format specifier from the plural text values: the first one
/// shown after a `%` (as `d`, `lld` or `@`), else `d`.
pub fn infer_format_specifier(plural_set: &PluralSet) -> (r: String)
    ensures
        r@ == first_specifier(plural_values(*plural_set)),
{
    let mut values: Vec<String> = Vec::new();
    match &plural_set.zero {
        Some(s) => values.push(s.clone()),
        None => {},
    }
    match &plural_set.one {
        Some(s) => values.push(s.clone()),
        None => {},
    }
    match &plural_set.two {
        Some(s) => values.push(s.clone()),
        None => {},
    }
    match &plural_set.few {
        Some(s) => values.push(s.clone()),
        None => {},
    }
    match &plural_set.many {
        Some(s) => values.push(s.clone()),
        None => {},
    }
    values.push(plural_set.other.clone());
    let ghost vs = string_views(values@);
    assert(vs =~= plural_values(*plural_set));
    let mut i: usize = 0;
    assert(vs.skip(0) == vs);
    while i < values.len()
        invariant
            i <= values@.len(),
            vs == string_views(values@),
            vs == plural_values(*plural_set),
            first_specifier(vs) == first_specifier(vs.skip(i as int)),
        decreases values@.len() - i,
    {
        assert(vs.skip(i as int)[0] == values@[i as int]@);
        assert(vs.skip(i as int).drop_first() == vs.skip(i + 1));
        let s = specifier_exec(&values[i]);
        assert(vs.skip(i as int).len() > 0);
        if !s.as_str().is_empty() {
            assert(first_specifier(vs.skip(i as int)) == specifier_of(vs.skip(i as int)[0]));
            return s;
        }
        i = i + 1;
    }
    let mut d = String::new();
    d.push('d');
    d
}

pub open spec fn spec_capabilities() -> FormatCapabilities {
    FormatCapabilities { plurals: true, ..FormatCapabilities::spec_none() }
}

/// How sure this format is that it can read a file with the extension and
/// content.
pub open spec fn spec_detect(extension: Seq<char>, content: Seq<u8>) -> Confidence {
    if extension == ".stringsdict"@ {
        Confidence::Definite
    } else if (extension == ".plist"@ || extension == ".xml"@) && valid_utf8(content) && contains(
        decode_utf8(content),
        "NSStringLocalizedFormatKey"@,
    ) {
        Confidence::Definite
    } else {
        Confidence::NoMatch
    }
}

// ---------------------------------------------------------------------------
// Reading
// ---------------------------------------------------------------------------

/// The value that `plist::Value::from_reader_xml` reads from the bytes, as
/// the library holds it (see `ios_plist`), or none when they are no XML
/// property list.
pub uninterp spec fn plist_xml_read(b: Seq<u8>) -> Option<JsonView>;

/// `plist::Value::from_reader_xml` over the bytes: the value of an XML
/// property list, or the reader's message (whose text is not stated).
#[verifier::external_body]
fn parse_plist_xml(content: &[u8]) -> (r: Result<JsonValue, String>)
    ensures
        r is Ok <==> plist_xml_read(content@) is Some,
        r matches Ok(v) ==> plist_xml_read(content@) == Some(json_view(v)),
{
    match plist::Value::from_reader_xml(std::io::Cursor::new(content)) {
        Ok(v) => Ok(super::ios_plist::from_plist(&v)),
        Err(e) => Err(e.to_string()),
    }
}

/// The text stored under `k`, when it is a string.
pub open spec fn text_at(m: Seq<(Seq<char>, JsonView)>, k: Seq<char>) -> Option<Seq<char>> {
    match map_get(m, k) {
        Some(JsonView::Str(t)) => Some(t),
        _ => None,
    }
}

/// A plural category name.
pub open spec fn is_category(k: Seq<char>) -> bool {
    k == "zero"@ || k == "one"@ || k == "two"@ || k == "few"@ || k == "many"@ || k == "other"@
}

/// The forms of a variable's dictionary, from its first `n` members: each
/// category key sets its form to the member's text (nothing when the member
/// is no string); the two keys of the variable's type and other keys are
/// passed over.
pub open spec fn forms_upto(m: Seq<(Seq<char>, JsonView)>, n: int) -> PluralView
    decreases n,
{
    if n <= 0 || n > m.len() {
        (None, None, None, None, None, Seq::empty())
    } else {
        let p = forms_upto(m, n - 1);
        let k = m[n - 1].0;
        let text = match m[n - 1].1 {
            JsonView::Str(t) => t,
            _ => Seq::empty(),
        };
        if is_category(k) { plural_put(p, k, text) } else { p }
    }
}

/// A variable read from its dictionary: its name, its value type and its
/// forms; `None` when its rule type is given and is not
/// `NSStringPluralRuleType`.
pub open spec fn var_of(name: Seq<char>, m: Seq<(Seq<char>, JsonView)>) -> Option<(Seq<char>, Option<Seq<char>>, PluralView)> {
    match text_at(m, "NSStringFormatSpecTypeKey"@) {
        Some(t) if t != "NSStringPluralRuleType"@ => None,
        _ => Some((name, text_at(m, "NSStringFormatValueTypeKey"@), forms_upto(m, m.len() as int))),
    }
}

/// The variables of an entry's dictionary from its first `n` members: each
/// dictionary member other than the format key, in order.
pub open spec fn vars_upto(m: Seq<(Seq<char>, JsonView)>, n: int) -> Option<Seq<(Seq<char>, (Seq<char>, Option<Seq<char>>, PluralView))>>
    decreases n,
{
    if n <= 0 || n > m.len() {
        Some(Seq::empty())
    } else {
        match vars_upto(m, n - 1) {
            None => None,
            Some(acc) => {
                let k = m[n - 1].0;
                if k == "NSStringLocalizedFormatKey"@ {
                    Some(acc)
                } else {
                    match m[n - 1].1 {
                        JsonView::Object(d) => match var_of(k, d) {
                            Some(x) => Some(map_insert(acc, k, x)),
                            None => None,
                        },
                        _ => Some(acc),
                    }
                }
            },
        }
    }
}

/// What an entry's dictionary gives.
pub enum SdEntry {
    /// One variable and a format key that is just its reference: its forms.
    Plural(PluralView),
    /// The format key and the variables.
    Multi(Seq<char>, Seq<(Seq<char>, (Seq<char>, Option<Seq<char>>, PluralView))>),
}

/// An entry read from its dictionary; `None` without a format key or with a
/// variable of another rule type.
pub open spec fn entry_of(m: Seq<(Seq<char>, JsonView)>) -> Option<SdEntry> {
    match text_at(m, "NSStringLocalizedFormatKey"@) {
        None => None,
        Some(fk) => match vars_upto(m, m.len() as int) {
            None => None,
            Some(vs) => {
                let names = var_names(fk);
                if vs.len() == 1 && names.len() == 1 && fk == "%#@"@ + names[0] + "@"@ {
                    Some(SdEntry::Plural(vs[0].1.2))
                } else {
                    Some(SdEntry::Multi(fk, vs))
                }
            },
        },
    }
}

/// The entries of the root dictionary's first `n` members; `None` when a
/// member is no dictionary or its entry cannot be read.
pub open spec fn sd_entries_upto(root: Seq<(Seq<char>, JsonView)>, n: int) -> Option<Seq<(Seq<char>, SdEntry)>>
    decreases n,
{
    if n <= 0 || n > root.len() {
        Some(Seq::empty())
    } else {
        match sd_entries_upto(root, n - 1) {
            None => None,
            Some(acc) => match root[n - 1].1 {
                JsonView::Object(d) => match entry_of(d) {
                    Some(x) => Some(map_insert(acc, root[n - 1].0, x)),
                    None => None,
                },
                _ => None,
            },
        }
    }
}

pub open spec fn plain_plural(ps: PluralSet) -> bool {
    &&& count_map_pairs(ps.exact_matches).len() == 0
    &&& ps.range_matches@.len() == 0
    &&& !ps.ordinal
}

pub open spec fn var_rel() -> spec_fn(PluralVariable, (Seq<char>, Option<Seq<char>>, PluralView)) -> bool {
    |v: PluralVariable, x: (Seq<char>, Option<Seq<char>>, PluralView)| {
        &&& v.name@ == x.0
        &&& opt_view(v.format_specifier) == x.1
        &&& plural_set_view(v.plural_set) == x.2
        &&& plain_plural(v.plural_set)
        &&& v.arg_num is None
    }
}

pub open spec fn sd_entry(e: I18nEntry, x: SdEntry) -> bool {
    &&& match x {
        SdEntry::Plural(p) => e.value matches EntryValue::Plural(ps) && plural_set_view(ps) == p && plain_plural(ps),
        SdEntry::Multi(fk, vs) => e.value matches EntryValue::MultiVariablePlural(mv)
            && mv.pattern@ == fk && pairs_model(var_map_pairs(mv.variables), vs, var_rel()),
    }
    &&& e.comments@.len() == 0
    &&& e.format_ext is None
    &&& I18nEntry::spec_bare(e)
}

pub open spec fn sd_rel() -> spec_fn(I18nEntry, SdEntry) -> bool {
    |e: I18nEntry, x: SdEntry| sd_entry(e, x)
}

/// What reading stringsdict bytes gives.
pub open spec fn parse_ok(r: Result<I18nResource, ParseError>, content: Seq<u8>) -> bool {
    match plist_xml_read(content) {
        None => r matches Err(ParseError::Xml(_)),
        Some(JsonView::Object(root)) => match sd_entries_upto(root, root.len() as int) {
            None => r matches Err(ParseError::InvalidFormat(_)),
            Some(es) => r matches Ok(res) && {
                &&& ResourceMetadata::spec_plain(res.metadata, FormatId::Stringsdict)
                &&& pairs_model(entry_map_pairs(res.entries), es, sd_rel())
            },
        },
        Some(_) => r matches Err(ParseError::InvalidFormat(_)),
    }
}

/// The text stored under `k`, when it is a string.
fn text_at_exec(m: &Vec<(String, JsonValue)>, k: &str) -> (r: Option<String>)
    ensures
        opt_view(r) == text_at(members_view(m@), k@),
{
    proof {
        lemma_members_view(m@, m@.len() as int);
    }
    match obj_find(m, k) {
        Some(i) => match &m[i].1 {
            JsonValue::Str(t) => Some(t.clone()),
            _ => None,
        },
        None => None,
    }
}

/// Reads a variable's dictionary.
fn var_exec(name: &String, d: &Vec<(String, JsonValue)>) -> (r: Result<PluralVariable, ParseError>)
    ensures
        match var_of(name@, members_view(d@)) {
            Some(x) => r matches Ok(v) && var_rel()(v, x),
            None => r matches Err(e) && e is InvalidFormat,
        },
{
    let ghost mv = members_view(d@);
    proof {
        lemma_members_view(d@, d@.len() as int);
    }
    let spec_type = text_at_exec(d, "NSStringFormatSpecTypeKey");
    match &spec_type {
        Some(t) => {
            if !str_eq(t.as_str(), "NSStringPluralRuleType") {
                return Err(ParseError::InvalidFormat("Unsupported NSStringFormatSpecTypeKey".to_owned()));
            }
        },
        None => {},
    }
    let format_specifier = text_at_exec(d, "NSStringFormatValueTypeKey");
    let mut ps = PluralSet::default();
    let mut i: usize = 0;
    while i < d.len()
        invariant
            i <= d@.len(),
            mv == members_view(d@),
            mv.len() == d@.len(),
            forall|j: int| 0 <= j < d@.len() ==> #[trigger] mv[j] == (d@[j].0@, json_view(d@[j].1)),
            plural_set_view(ps) == forms_upto(mv, i as int),
            plain_plural(ps),
        decreases d@.len() - i,
    {
        assert(mv[i as int] == (d@[i as int].0@, json_view(d@[i as int].1)));
        let k = d[i].0.as_str();
        if str_eq(k, "zero") || str_eq(k, "one") || str_eq(k, "two") || str_eq(k, "few") || str_eq(k, "many")
            || str_eq(k, "other") {
            let text = match &d[i].1 {
                JsonValue::Str(t) => t.clone(),
                _ => String::new(),
            };
            put_plural(&mut ps, k, text);
        }
        i = i + 1;
    }
    Ok(PluralVariable { name: name.clone(), format_specifier, arg_num: None, plural_set: ps })
}

pub proof fn lemma_single_var(acc: Seq<(Seq<char>, (Seq<char>, Option<Seq<char>>, PluralView))>, k: Seq<char>, x: (Seq<char>, Option<Seq<char>>, PluralView))
    requires
        map_insert(acc, k, x).len() == 1,
    ensures
        map_insert(acc, k, x)[0] == (k, x),
{
    lemma_key_index(acc, k);
}

/// Reads an entry's dictionary.
fn entry_exec(key: &String, d: &Vec<(String, JsonValue)>) -> (r: Result<I18nEntry, ParseError>)
    ensures
        match entry_of(members_view(d@)) {
            Some(x) => r matches Ok(e) && sd_entry(e, x) && e.key@ == key@,
            None => r matches Err(e) && e is InvalidFormat,
        },
{
    let ghost mv = members_view(d@);
    proof {
        lemma_members_view(d@, d@.len() as int);
    }
    let format_key = match text_at_exec(d, "NSStringLocalizedFormatKey") {
        Some(t) => t,
        None => return Err(ParseError::InvalidFormat("Entry missing NSStringLocalizedFormatKey".to_owned())),
    };
    let names = extract_variable_names(format_key.as_str());
    let mut variables = var_map_new();
    let mut last_ps: Option<PluralSet> = None;
    let mut i: usize = 0;
    while i < d.len()
        invariant
            i <= d@.len(),
            mv == members_view(d@),
            mv.len() == d@.len(),
            forall|j: int| 0 <= j < d@.len() ==> #[trigger] mv[j] == (d@[j].0@, json_view(d@[j].1)),
            vars_upto(mv, i as int) matches Some(acc) && pairs_model(var_map_pairs(variables), acc, var_rel()),
            var_map_pairs(variables).len() == 1 ==> (last_ps matches Some(ps) && plural_set_view(ps) == vars_upto(mv, i as int).unwrap()[0].1.2 && plain_plural(ps)),
        decreases d@.len() - i,
    {
        assert(mv[i as int] == (d@[i as int].0@, json_view(d@[i as int].1)));
        let ghost acc = vars_upto(mv, i as int).unwrap();
        if !str_eq(d[i].0.as_str(), "NSStringLocalizedFormatKey") {
            match &d[i].1 {
                JsonValue::Object(vd) => {
                    proof {
                        lemma_members_view(vd@, vd@.len() as int);
                    }
                    match var_exec(&d[i].0, vd) {
                        Ok(v) => {
                            let ghost x = var_of(d@[i as int].0@, members_view(vd@)).unwrap();
                            proof {
                                crate::collections::lemma_pairs_model_insert(var_map_pairs(variables), acc, var_rel(), d@[i as int].0@, v, x);
                                if map_insert(acc, d@[i as int].0@, x).len() == 1 {
                                    lemma_single_var(acc, d@[i as int].0@, x);
                                }
                            }
                            var_map_insert(&mut variables, d[i].0.clone(), v);
                            match var_exec(&d[i].0, vd) {
                                Ok(v2) => {
                                    last_ps = Some(v2.plural_set);
                                },
                                Err(e) => {
                                    return Err(e);
                                },
                            }
                        },
                        Err(e) => {
                            assert(vars_upto(mv, i + 1) is None);
                            proof {
                                lemma_vars_none(mv, i as int + 1, mv.len() as int);
                            }
                            return Err(e);
                        },
                    }
                },
                _ => {},
            }
        }
        i = i + 1;
    }
    let single = var_map_len(&variables) == 1 && names.len() == 1 && {
        let mut expected = "%#@".to_owned();
        expected.append(names[0].as_str());
        expected.append("@");
        str_eq(format_key.as_str(), expected.as_str())
    };
    let value = if single {
        let ps = match last_ps {
            Some(ps) => ps,
            None => PluralSet::default(),
        };
        EntryValue::Plural(ps)
    } else {
        EntryValue::MultiVariablePlural(MultiVariablePlural { pattern: format_key, variables })
    };
    Ok(I18nEntry::with_value(key.clone(), value))
}

pub proof fn lemma_vars_none(m: Seq<(Seq<char>, JsonView)>, n: int, k: int)
    requires
        0 < n <= k <= m.len(),
        vars_upto(m, n) is None,
    ensures
        vars_upto(m, k) is None,
    decreases k - n,
{
    if k > n {
        lemma_vars_none(m, n, k - 1);
    }
}

pub proof fn lemma_entries_none(m: Seq<(Seq<char>, JsonView)>, n: int, k: int)
    requires
        0 < n <= k <= m.len(),
        sd_entries_upto(m, n) is None,
    ensures
        sd_entries_upto(m, k) is None,
    decreases k - n,
{
    if k > n {
        lemma_entries_none(m, n, k - 1);
    }
}

impl Parser {
    /// Parses an XML property list whose root dictionary maps each key to
    /// an entry dictionary: a format key (`NSStringLocalizedFormatKey`) and
    /// the plural rules of each variable it names.
    pub fn parse(&self, content: &[u8]) -> (r: Result<I18nResource, ParseError>)
        ensures
            parse_ok(r, content@),
    {
        let root = match parse_plist_xml(content) {
            Ok(JsonValue::Object(m)) => m,
            Ok(_) => return Err(ParseError::InvalidFormat("Root plist value is not a dictionary".to_owned())),
            Err(e) => {
                let mut msg = "Failed to parse plist XML: ".to_owned();
                msg.append(e.as_str());
                return Err(ParseError::Xml(msg));
            },
        };
        let ghost mv = members_view(root@);
        proof {
            lemma_members_view(root@, root@.len() as int);
        }
        assert(plist_xml_read(content@) == Some(JsonView::Object(mv)));
        let mut entries = entry_map_new();
        let mut i: usize = 0;
        while i < root.len()
            invariant
                i <= root@.len(),
                mv == members_view(root@),
                plist_xml_read(content@) == Some(JsonView::Object(mv)),
                mv.len() == root@.len(),
                forall|j: int| 0 <= j < root@.len() ==> #[trigger] mv[j] == (root@[j].0@, json_view(root@[j].1)),
                sd_entries_upto(mv, i as int) matches Some(acc) && pairs_model(entry_map_pairs(entries), acc, sd_rel()),
            decreases root@.len() - i,
        {
            assert(mv[i as int] == (root@[i as int].0@, json_view(root@[i as int].1)));
            let ghost acc = sd_entries_upto(mv, i as int).unwrap();
            match &root[i].1 {
                JsonValue::Object(d) => {
                    proof {
                        lemma_members_view(d@, d@.len() as int);
                    }
                    match entry_exec(&root[i].0, d) {
                        Ok(e) => {
                            let ghost x = entry_of(members_view(d@)).unwrap();
                            proof {
                                crate::collections::lemma_pairs_model_insert(entry_map_pairs(entries), acc, sd_rel(), root@[i as int].0@, e, x);
                            }
                            entry_map_insert(&mut entries, root[i].0.clone(), e);
                        },
                        Err(e) => {
                            assert(sd_entries_upto(mv, i + 1) is None);
                            proof {
                                lemma_entries_none(mv, i as int + 1, mv.len() as int);
                            }
                            return Err(e);
                        },
                    }
                },
                _ => {
                    assert(sd_entries_upto(mv, i + 1) is None);
                    proof {
                        lemma_entries_none(mv, i as int + 1, mv.len() as int);
                    }
                    return Err(ParseError::InvalidFormat("Expected dictionary for key".to_owned()));
                },
            }
            i = i + 1;
        }
        let metadata = ResourceMetadata::for_format(FormatId::Stringsdict);
        Ok(I18nResource { metadata, entries })
    }
}

impl Parser {
    /// `.stringsdict` is certain; so is a `.plist` or `.xml` UTF-8 text that
    /// mentions `NSStringLocalizedFormatKey`.
    pub fn detect(&self, extension: &str, content: &[u8]) -> (c: Confidence)
        ensures
            c == spec_detect(extension@, content@),
    {
        if str_eq(extension, ".stringsdict") {
            return Confidence::Definite;
        }
        if str_eq(extension, ".plist") || str_eq(extension, ".xml") {
            match std::str::from_utf8(content) {
                Ok(s) => if str_contains(s, "NSStringLocalizedFormatKey") {
                    return Confidence::Definite;
                },
                Err(_) => {},
            }
        }
        Confidence::NoMatch
    }

    pub fn capabilities(&self) -> (c: FormatCapabilities)
        ensures
            c == spec_capabilities(),
    {
        FormatCapabilities { plurals: true, ..FormatCapabilities::default() }
    }
}

// ---------------------------------------------------------------------------
// Writing
// ---------------------------------------------------------------------------

/// The bytes of the XML property list that `plist::Value::to_writer_xml`
/// writes for the value.
pub uninterp spec fn plist_value_xml(v: JsonView) -> Seq<u8>;

/// `plist::Value::to_writer_xml` into a byte vector. Writing into memory a
/// value without UIDs cannot fail: the writer's errors are I/O errors,
/// events out of order and UIDs.
#[verifier::external_body]
fn write_value_xml(v: &JsonValue) -> (r: Result<Vec<u8>, String>)
    ensures
        r is Ok,
        r matches Ok(b) ==> b@ == plist_value_xml(json_view(*v)),
{
    let mut buf: Vec<u8> = Vec::new();
    match super::ios_plist::to_plist(v).to_writer_xml(&mut buf) {
        Ok(()) => Ok(buf),
        Err(e) => Err(e.to_string()),
    }
}

/// Sets `k` to the text when there is one.
pub open spec fn put_opt(m: Seq<(Seq<char>, JsonView)>, k: Seq<char>, o: Option<Seq<char>>) -> Seq<(Seq<char>, JsonView)> {
    match o {
        Some(t) => map_insert(m, k, JsonView::Str(t)),
        None => m,
    }
}

/// The dictionary of a variable: the plural rule type, the value type `fs`
/// and the forms in the order zero, one, two, few, many, other.
pub open spec fn var_dict(fs: Seq<char>, p: PluralView) -> Seq<(Seq<char>, JsonView)> {
    let m0 = map_insert(
        map_insert(Seq::empty(), "NSStringFormatSpecTypeKey"@, JsonView::Str("NSStringPluralRuleType"@)),
        "NSStringFormatValueTypeKey"@,
        JsonView::Str(fs),
    );
    let m1 = put_opt(put_opt(put_opt(put_opt(put_opt(m0, "zero"@, p.0), "one"@, p.1), "two"@, p.2), "few"@, p.3), "many"@, p.4);
    map_insert(m1, "other"@, JsonView::Str(p.5))
}

/// The variables' dictionaries added to an entry's dictionary, in order.
pub open spec fn vars_dict(acc: Seq<(Seq<char>, JsonView)>, vs: Seq<(Seq<char>, PluralVariable)>) -> Seq<(Seq<char>, JsonView)>
    decreases vs.len(),
{
    if vs.len() == 0 {
        acc
    } else {
        let v = vs.last().1;
        map_insert(
            vars_dict(acc, vs.drop_last()),
            vs.last().0,
            JsonView::Object(var_dict(
                match v.format_specifier {
                    Some(f) => f@,
                    None => "d"@,
                },
                plural_set_view(v.plural_set),
            )),
        )
    }
}

/// The dictionary written for an entry under `key`: a plural as a format key
/// referring to one variable named `key`, with the value type inferred from
/// its forms; a multi-variable plural as its pattern and its variables; a
/// simple text as the format key alone. Other values are not written.
pub open spec fn entry_dict(key: Seq<char>, v: EntryValue) -> Option<Seq<(Seq<char>, JsonView)>> {
    let fk = "NSStringLocalizedFormatKey"@;
    match v {
        EntryValue::Plural(ps) => Some(map_insert(
            seq![(fk, JsonView::Str("%#@"@ + key + "@"@))],
            key,
            JsonView::Object(var_dict(first_specifier(plural_values(ps)), plural_set_view(ps))),
        )),
        EntryValue::MultiVariablePlural(m) => Some(vars_dict(seq![(fk, JsonView::Str(m.pattern@))], var_map_pairs(m.variables))),
        EntryValue::Simple(t) => Some(seq![(fk, JsonView::Str(t@))]),
        _ => None,
    }
}

/// The root dictionary of the entries, in order.
pub open spec fn sd_root(ps: Seq<(Seq<char>, I18nEntry)>) -> Seq<(Seq<char>, JsonView)>
    decreases ps.len(),
{
    if ps.len() == 0 {
        Seq::empty()
    } else {
        let r = sd_root(ps.drop_last());
        match entry_dict(ps.last().0, ps.last().1.value) {
            Some(d) => map_insert(r, ps.last().0, JsonView::Object(d)),
            None => r,
        }
    }
}

/// The bytes written for a resource.
pub open spec fn spec_write(res: I18nResource) -> Seq<u8> {
    plist_value_xml(JsonView::Object(sd_root(entry_map_pairs(res.entries))))
}

fn put_opt_exec(m: &mut Vec<(String, JsonValue)>, k: &str, o: &Option<String>)
    ensures
        members_view(final(m)@) == put_opt(members_view(old(m)@), k@, opt_view(*o)),
{
    match o {
        Some(t) => obj_insert(m, k.to_owned(), JsonValue::Str(t.clone())),
        None => {},
    }
}

fn var_dict_exec(fs: String, ps: &PluralSet) -> (r: Vec<(String, JsonValue)>)
    ensures
        members_view(r@) == var_dict(fs@, plural_set_view(*ps)),
{
    let mut m: Vec<(String, JsonValue)> = Vec::new();
    proof {
        lemma_members_view(m@, 0);
    }
    assert(members_view(m@) =~= Seq::<(Seq<char>, JsonView)>::empty());
    obj_insert(&mut m, "NSStringFormatSpecTypeKey".to_owned(), JsonValue::Str("NSStringPluralRuleType".to_owned()));
    obj_insert(&mut m, "NSStringFormatValueTypeKey".to_owned(), JsonValue::Str(fs));
    put_opt_exec(&mut m, "zero", &ps.zero);
    put_opt_exec(&mut m, "one", &ps.one);
    put_opt_exec(&mut m, "two", &ps.two);
    put_opt_exec(&mut m, "few", &ps.few);
    put_opt_exec(&mut m, "many", &ps.many);
    obj_insert(&mut m, "other".to_owned(), JsonValue::Str(ps.other.clone()));
    m
}

fn entry_dict_exec(key: &String, v: &EntryValue) -> (r: Option<Vec<(String, JsonValue)>>)
    ensures
        match entry_dict(key@, *v) {
            Some(d) => r matches Some(x) && members_view(x@) == d,
            None => r is None,
        },
{
    let mut m: Vec<(String, JsonValue)> = Vec::new();
    proof {
        lemma_members_view(m@, 0);
    }
    assert(members_view(m@) =~= Seq::<(Seq<char>, JsonView)>::empty());
    let ghost fk = "NSStringLocalizedFormatKey"@;
    match v {
        EntryValue::Plural(ps) => {
            let mut r = "%#@".to_owned();
            r.append(key.as_str());
            r.append("@");
            obj_insert(&mut m, "NSStringLocalizedFormatKey".to_owned(), JsonValue::Str(r));
            assert(members_view(m@) =~= seq![(fk, JsonView::Str("%#@"@ + key@ + "@"@))]);
            let fs = infer_format_specifier(ps);
            let vd = var_dict_exec(fs, ps);
            proof {
                lemma_members_view(vd@, vd@.len() as int);
            }
            obj_insert(&mut m, key.clone(), JsonValue::Object(vd));
            Some(m)
        },
        EntryValue::MultiVariablePlural(mvp) => {
            obj_insert(&mut m, "NSStringLocalizedFormatKey".to_owned(), JsonValue::Str(mvp.pattern.clone()));
            let ghost base = members_view(m@);
            assert(base =~= seq![(fk, JsonView::Str(mvp.pattern@))]);
            let ghost vs = var_map_pairs(mvp.variables);
            let n = var_map_len(&mvp.variables);
            let mut i: usize = 0;
            while i < n
                invariant
                    i <= n,
                    n == vs.len(),
                    vs == var_map_pairs(mvp.variables),
                    members_view(m@) == vars_dict(base, vs.take(i as int)),
                decreases n - i,
            {
                assert(vs.take(i + 1).drop_last() == vs.take(i as int));
                assert(vs.take(i + 1).last() == vs[i as int]);
                match var_map_get_index(&mvp.variables, i) {
                    Some((name, var)) => {
                        let fs = match &var.format_specifier {
                            Some(f) => f.clone(),
                            None => "d".to_owned(),
                        };
                        let vd = var_dict_exec(fs, &var.plural_set);
                        proof {
                            lemma_members_view(vd@, vd@.len() as int);
                        }
                        obj_insert(&mut m, name.clone(), JsonValue::Object(vd));
                    },
                    None => {},
                }
                i = i + 1;
            }
            assert(vs.take(n as int) == vs);
            Some(m)
        },
        EntryValue::Simple(t) => {
            obj_insert(&mut m, "NSStringLocalizedFormatKey".to_owned(), JsonValue::Str(t.clone()));
            assert(members_view(m@) =~= seq![(fk, JsonView::Str(t@))]);
            Some(m)
        },
        _ => None,
    }
}

impl Writer {
    /// Writes the resource as an XML property list of entry dictionaries;
    /// arrays and selects are not written.
    pub fn write(&self, resource: &I18nResource) -> (r: Result<Vec<u8>, WriteError>)
        ensures
            r matches Ok(b) && b@ == spec_write(*resource),
    {
        let ghost ps = entry_map_pairs(resource.entries);
        let n = entry_map_len(&resource.entries);
        let mut root: Vec<(String, JsonValue)> = Vec::new();
        proof {
            lemma_members_view(root@, 0);
        }
        assert(members_view(root@) =~= Seq::<(Seq<char>, JsonView)>::empty());
        let mut i: usize = 0;
        while i < n
            invariant
                i <= n,
                n == ps.len(),
                ps == entry_map_pairs(resource.entries),
                members_view(root@) == sd_root(ps.take(i as int)),
            decreases n - i,
        {
            assert(ps.take(i + 1).drop_last() == ps.take(i as int));
            assert(ps.take(i + 1).last() == ps[i as int]);
            match entry_map_get_index(&resource.entries, i) {
                Some((k, e)) => {
                    match entry_dict_exec(k, &e.value) {
                        Some(d) => {
                            proof {
                                lemma_members_view(d@, d@.len() as int);
                            }
                            obj_insert(&mut root, k.clone(), JsonValue::Object(d));
                        },
                        None => {},
                    }
                },
                None => {},
            }
            i = i + 1;
        }
        assert(ps.take(n as int) == ps);
        match write_value_xml(&JsonValue::Object(root)) {
            Ok(b) => Ok(b),
            Err(e) => Err(WriteError::Serialization(e)),
        }
    }

    pub fn capabilities(&self) -> (c: FormatCapabilities)
        ensures
            c == spec_capabilities(),
    {
        Parser.capabilities()
    }
}

impl super::FormatParser for Parser {
    fn detect(&self, extension: &str, content: &[u8]) -> (c: Confidence)
        ensures
            c == spec_detect(extension@, content@),
    {
        Parser::detect(self, extension, content)
    }

    fn parse(&self, content: &[u8]) -> (r: Result<I18nResource, ParseError>)
        ensures
            parse_ok(r, content@),
    {
        Parser::parse(self, content)
    }

    fn capabilities(&self) -> (c: FormatCapabilities)
        ensures
            c == spec_capabilities(),
    {
        Parser::capabilities(self)
    }
}

impl super::FormatWriter for Writer {
    fn write(&self, resource: &I18nResource) -> (r: Result<Vec<u8>, WriteError>)
        ensures
            r matches Ok(b) && b@ == spec_write(*resource),
    {
        Writer::write(self, resource)
    }

    fn capabilities(&self) -> (c: FormatCapabilities)
        ensures
            c == spec_capabilities(),
    {
        Writer::capabilities(self)
    }
}

} // verus!
