//! JSON values as the JSON-based formats read and write them. Reading and
//! writing JSON text is done by `serde_json` (and `json5`); the formats work
//! on the values.
use vstd::prelude::*;
use crate::collections::{map_insert, map_get, key_index, lemma_key_index};
use crate::text::str_eq;

verus! {

/// `serde_json::Value`, held opaquely while converting.
#[verifier::external_type_specification]
#[verifier::external_body]
pub struct ExJsonValue(serde_json::Value);

/// A JSON value. Numbers keep the text `serde_json` gives them. An object
/// keeps its members in the order it holds them: a value built by the
/// library keeps the order of insertion, while one read through `serde_json`
/// comes with its members sorted by key, as `serde_json`'s map (built without
/// `preserve_order`) hands them out.
#[derive(Debug, PartialEq)]
pub enum JsonValue {
    Null,
    Bool(bool),
    Number(String),
    Str(String),
    Array(Vec<JsonValue>),
    Object(Vec<(String, JsonValue)>),
}

/// The mathematical form of a JSON value.
pub enum JsonView {
    Null,
    Bool(bool),
    Number(Seq<char>),
    Str(Seq<char>),
    Array(Seq<JsonView>),
    Object(Seq<(Seq<char>, JsonView)>),
}

pub open spec fn json_view(v: JsonValue) -> JsonView
    decreases v,
{
    match v {
        JsonValue::Null => JsonView::Null,
        JsonValue::Bool(b) => JsonView::Bool(b),
        JsonValue::Number(n) => JsonView::Number(n@),
        JsonValue::Str(s) => JsonView::Str(s@),
        JsonValue::Array(a) => JsonView::Array(items_view_upto(a@, a@.len() as int)),
        JsonValue::Object(m) => JsonView::Object(members_view_upto(m@, m@.len() as int)),
    }
}

pub open spec fn items_view_upto(a: Seq<JsonValue>, n: int) -> Seq<JsonView>
    decreases a, n,
{
    if n <= 0 || n > a.len() {
        Seq::empty()
    } else {
        proof {
            assert(decreases_to!(a => a[n - 1]));
        }
        items_view_upto(a, n - 1).push(json_view(a[n - 1]))
    }
}

pub open spec fn members_view_upto(m: Seq<(String, JsonValue)>, n: int) -> Seq<(Seq<char>, JsonView)>
    decreases m, n,
{
    if n <= 0 || n > m.len() {
        Seq::empty()
    } else {
        proof {
            assert(decreases_to!(m => m[n - 1]));
        }
        members_view_upto(m, n - 1).push((m[n - 1].0@, json_view(m[n - 1].1)))
    }
}

pub open spec fn members_view(m: Seq<(String, JsonValue)>) -> Seq<(Seq<char>, JsonView)> {
    members_view_upto(m, m.len() as int)
}

pub proof fn lemma_members_view(m: Seq<(String, JsonValue)>, n: int)
    requires
        0 <= n <= m.len(),
    ensures
        members_view_upto(m, n).len() == n,
        forall|i: int| 0 <= i < n ==> #[trigger] members_view_upto(m, n)[i] == (m[i].0@, json_view(m[i].1)),
    decreases n,
{
    if n > 0 {
        lemma_members_view(m, n - 1);
    }
}

pub proof fn lemma_items_view(a: Seq<JsonValue>, n: int)
    requires
        0 <= n <= a.len(),
    ensures
        items_view_upto(a, n).len() == n,
        forall|i: int| 0 <= i < n ==> #[trigger] items_view_upto(a, n)[i] == json_view(a[i]),
    decreases n,
{
    if n > 0 {
        lemma_items_view(a, n - 1);
    }
}

/// What `serde_json::from_str::<serde_json::Value>` reads from a text: the
/// value, or none when the text is not JSON.
pub uninterp spec fn json_read(s: Seq<char>) -> Option<JsonView>;

/// What `json5::from_str::<serde_json::Value>` reads from a text: the
/// value, or none when the text is not JSON5.
pub uninterp spec fn json5_read(s: Seq<char>) -> Option<JsonView>;

/// The text `serde_json::to_string_pretty` gives for the `serde_json`
/// value that holds a value's members (a later member replacing an earlier
/// one of the same key).
pub uninterp spec fn json_pretty(v: JsonView) -> Seq<char>;

/// The text `serde_json::to_string` (and `Value::to_string`) gives for the
/// `serde_json` value that holds a value.
pub uninterp spec fn json_compact(v: JsonView) -> Seq<char>;

/// A `serde_json` value as a value of this library, member for member.
#[verifier::external_body]
fn from_serde(v: &serde_json::Value) -> JsonValue {
    match v {
        serde_json::Value::Null => JsonValue::Null,
        serde_json::Value::Bool(b) => JsonValue::Bool(*b),
        serde_json::Value::Number(n) => JsonValue::Number(n.to_string()),
        serde_json::Value::String(s) => JsonValue::Str(s.clone()),
        serde_json::Value::Array(a) => JsonValue::Array(a.iter().map(from_serde).collect()),
        serde_json::Value::Object(m) => JsonValue::Object(m.iter().map(|(k, x)| (k.clone(), from_serde(x))).collect()),
    }
}

/// A value of this library as a `serde_json` value; members are inserted
/// in order into the `serde_json` map.
#[verifier::external_body]
fn to_serde(v: &JsonValue) -> serde_json::Value {
    match v {
        JsonValue::Null => serde_json::Value::Null,
        JsonValue::Bool(b) => serde_json::Value::Bool(*b),
        JsonValue::Number(n) => n.parse::<serde_json::Number>().map(serde_json::Value::Number).unwrap_or(serde_json::Value::Null),
        JsonValue::Str(s) => serde_json::Value::String(s.clone()),
        JsonValue::Array(a) => serde_json::Value::Array(a.iter().map(to_serde).collect()),
        JsonValue::Object(m) => serde_json::Value::Object(m.iter().map(|(k, x)| (k.clone(), to_serde(x))).collect()),
    }
}

/// `serde_json::from_str::<serde_json::Value>`: the value of a JSON text, or
/// the parser's message. The message's text is not stated.
#[verifier::external_body]
pub fn parse_json(s: &str) -> (r: Result<JsonValue, String>)
    ensures
        match json_read(s@) {
            Some(v) => r matches Ok(x) && json_view(x) == v,
            None => r is Err,
        },
{
    match serde_json::from_str::<serde_json::Value>(s) {
        Ok(v) => Ok(from_serde(&v)),
        Err(e) => Err(e.to_string()),
    }
}

/// `serde_json::from_str::<serde_json::Map<String, Value>>`: the members of
/// a JSON text whose value is an object, as `serde_json` reads them for a
/// value; an error (with the parser's message, whose text is not stated)
/// for any other text.
#[verifier::external_body]
pub fn parse_json_object(s: &str) -> (r: Result<Vec<(String, JsonValue)>, String>)
    ensures
        match json_read(s@) {
            Some(JsonView::Object(m)) => r matches Ok(x) && members_view(x@) == m,
            _ => r is Err,
        },
{
    match serde_json::from_str::<serde_json::Map<String, serde_json::Value>>(s) {
        Ok(m) => Ok(m.iter().map(|(k, v)| (k.clone(), from_serde(v))).collect()),
        Err(e) => Err(e.to_string()),
    }
}

/// `json5::from_str::<serde_json::Value>`: the value of a JSON5 text, or
/// the parser's message. The message's text is not stated.
#[verifier::external_body]
pub fn parse_json5(s: &str) -> (r: Result<JsonValue, String>)
    ensures
        match json5_read(s@) {
            Some(v) => r matches Ok(x) && json_view(x) == v,
            None => r is Err,
        },
{
    match json5::from_str::<serde_json::Value>(s) {
        Ok(v) => Ok(from_serde(&v)),
        Err(e) => Err(e.to_string()),
    }
}

/// `serde_json::to_string_pretty` of a value: its pretty text. A
/// `serde_json` value (its map keys are strings) always serializes, so the
/// result is always `Ok`.
#[verifier::external_body]
pub fn to_pretty(v: &JsonValue) -> (r: Result<String, String>)
    ensures
        r is Ok,
        r matches Ok(s) ==> s@ == json_pretty(json_view(*v)),
{
    serde_json::to_string_pretty(&to_serde(v)).map_err(|e| e.to_string())
}

/// `serde_json::Value::to_string` of a value: its compact text.
#[verifier::external_body]
pub fn to_compact(v: &JsonValue) -> (r: String)
    ensures
        r@ == json_compact(json_view(*v)),
{
    to_serde(v).to_string()
}


// ---------------------------------------------------------------------------
// Object members
// ---------------------------------------------------------------------------

pub proof fn lemma_members_view_update(m: Seq<(String, JsonValue)>, i: int, x: (String, JsonValue))
    requires
        0 <= i < m.len(),
    ensures
        members_view(m.update(i, x)) == members_view(m).update(i, (x.0@, json_view(x.1))),
{
    lemma_members_view(m, m.len() as int);
    lemma_members_view(m.update(i, x), m.len() as int);
    assert(members_view(m.update(i, x)) =~= members_view(m).update(i, (x.0@, json_view(x.1))));
}

pub proof fn lemma_members_view_push(m: Seq<(String, JsonValue)>, x: (String, JsonValue))
    ensures
        members_view(m.push(x)) == members_view(m).push((x.0@, json_view(x.1))),
{
    lemma_members_view(m, m.len() as int);
    lemma_members_view(m.push(x), m.len() + 1 as int);
    assert(members_view(m.push(x)) =~= members_view(m).push((x.0@, json_view(x.1))));
}

/// The index of the first member named `k`, if any.
pub fn obj_find(m: &Vec<(String, JsonValue)>, k: &str) -> (r: Option<usize>)
    ensures
        match r {
            Some(i) => i < m@.len() && key_index(members_view(m@), k@) == i,
            None => key_index(members_view(m@), k@) < 0,
        },
{
    let ghost mv = members_view(m@);
    proof {
        lemma_members_view(m@, m@.len() as int);
        lemma_key_index(mv, k@);
    }
    let mut i: usize = 0;
    while i < m.len()
        invariant
            i <= m@.len(),
            mv == members_view(m@),
            mv.len() == m@.len(),
            forall|j: int| 0 <= j < m@.len() ==> #[trigger] mv[j] == (m@[j].0@, json_view(m@[j].1)),
            forall|j: int| 0 <= j < i ==> mv[j].0 != k@,
            -1 <= key_index(mv, k@) < mv.len(),
            key_index(mv, k@) >= 0 ==> mv[key_index(mv, k@)].0 == k@,
            key_index(mv, k@) >= 0 ==> forall|j: int| 0 <= j < key_index(mv, k@) ==> mv[j].0 != k@,
            key_index(mv, k@) < 0 ==> forall|j: int| 0 <= j < mv.len() ==> mv[j].0 != k@,
        decreases m@.len() - i,
    {
        if str_eq(m[i].0.as_str(), k) {
            assert(mv[i as int].0 == k@);
            return Some(i);
        }
        i = i + 1;
    }
    None
}

/// Inserts `k => v`: an existing member's value is replaced in place, a new
/// member goes last.
pub fn obj_insert(m: &mut Vec<(String, JsonValue)>, k: String, v: JsonValue)
    ensures
        members_view(final(m)@) == map_insert(members_view(old(m)@), k@, json_view(v)),
{
    let ghost kv = k@;
    let ghost vv = json_view(v);
    match obj_find(m, k.as_str()) {
        Some(i) => {
            let ghost before = m@;
            let _ = m.remove(i);
            m.insert(i, (k, v));
            assert(m@ == before.update(i as int, (m@[i as int].0, m@[i as int].1)));
            proof {
                lemma_members_view_update(before, i as int, m@[i as int]);
            }
        },
        None => {
            let ghost before = m@;
            m.push((k, v));
            proof {
                lemma_members_view_push(before, (m@[before.len() as int].0, m@[before.len() as int].1));
                assert(m@ == before.push(m@[before.len() as int]));
            }
        },
    }
}

/// Takes the value of member `i` out, leaving null in its place.
pub fn take_member(m: &mut Vec<(String, JsonValue)>, i: usize) -> (x: JsonValue)
    requires
        i < old(m)@.len(),
    ensures
        x == old(m)@[i as int].1,
        final(m)@ == old(m)@.update(i as int, (old(m)@[i as int].0, JsonValue::Null)),
{
    let (k, x) = m.remove(i);
    m.insert(i, (k, JsonValue::Null));
    x
}


impl Clone for JsonValue {
    /// A copy of the value, member for member.
    fn clone(&self) -> (r: JsonValue)
        ensures
            json_view(r) == json_view(*self),
        decreases self,
    {
        match self {
            JsonValue::Null => JsonValue::Null,
            JsonValue::Bool(b) => JsonValue::Bool(*b),
            JsonValue::Number(n) => JsonValue::Number(n.clone()),
            JsonValue::Str(t) => JsonValue::Str(t.clone()),
            JsonValue::Array(a) => {
                let mut v: Vec<JsonValue> = Vec::new();
                let mut i: usize = 0;
                proof {
                    assert forall|j: int| 0 <= j < a@.len() implies decreases_to!(*self => #[trigger] a@[j]) by {
                        assert(decreases_to!(*self => *a));
                        assert(decreases_to!(*a => a@));
                        assert(decreases_to!(a@ => a@[j]));
                    }
                }
                while i < a.len()
                    invariant
                        forall|j: int| 0 <= j < a@.len() ==> decreases_to!(*self => #[trigger] a@[j]),
                        i <= a@.len(),
                        v@.len() == i,
                        forall|j: int| 0 <= j < i ==> json_view(#[trigger] v@[j]) == json_view(a@[j]),
                    decreases a@.len() - i,
                {
                    let x = a[i].clone();
                    v.push(x);
                    i = i + 1;
                }
                proof {
                    lemma_items_view(v@, v@.len() as int);
                    lemma_items_view(a@, a@.len() as int);
                    assert(items_view_upto(v@, v@.len() as int) =~= items_view_upto(a@, a@.len() as int));
                }
                JsonValue::Array(v)
            },
            JsonValue::Object(m) => {
                let mut v: Vec<(String, JsonValue)> = Vec::new();
                let mut i: usize = 0;
                proof {
                    assert forall|j: int| 0 <= j < m@.len() implies decreases_to!(*self => #[trigger] m@[j].1) by {
                        assert(decreases_to!(*self => *m));
                        assert(decreases_to!(*m => m@));
                        assert(decreases_to!(m@ => m@[j]));
                        assert(decreases_to!(m@[j] => m@[j].1));
                    }
                }
                while i < m.len()
                    invariant
                        forall|j: int| 0 <= j < m@.len() ==> decreases_to!(*self => #[trigger] m@[j].1),
                        i <= m@.len(),
                        v@.len() == i,
                        forall|j: int| 0 <= j < i ==> (#[trigger] v@[j]).0@ == m@[j].0@ && json_view(v@[j].1) == json_view(m@[j].1),
                    decreases m@.len() - i,
                {
                    let x = m[i].1.clone();
                    v.push((m[i].0.clone(), x));
                    i = i + 1;
                }
                proof {
                    lemma_members_view(v@, v@.len() as int);
                    lemma_members_view(m@, m@.len() as int);
                    assert(members_view_upto(v@, v@.len() as int) =~= members_view_upto(m@, m@.len() as int));
                }
                JsonValue::Object(v)
            },
        }
    }
}

} // verus!
