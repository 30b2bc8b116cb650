use i18n_convert::formats::i18next::{strip_cardinal_suffix, strip_ordinal_suffix, PluralCategory};

#[test]
fn test_strip_cardinal_suffix() {
    assert_eq!(strip_cardinal_suffix("item_one"), Some(("item", PluralCategory::One)));
    assert_eq!(strip_cardinal_suffix("item_other"), Some(("item", PluralCategory::Other)));
    assert_eq!(strip_cardinal_suffix("item"), None);
    assert_eq!(strip_cardinal_suffix("some.key_few"), Some(("some.key", PluralCategory::Few)));
}

#[test]
fn test_strip_ordinal_suffix() {
    assert_eq!(strip_ordinal_suffix("ordinal_ordinal_one"), Some("ordinal"));
    assert_eq!(strip_ordinal_suffix("item_one"), None);
}

#[test]
fn i18next_suffix_needs_a_base() {
    assert_eq!(strip_cardinal_suffix("_one"), None);
    assert_eq!(strip_ordinal_suffix("_ordinal_other"), None);
    assert_eq!(strip_cardinal_suffix("x_ordinal_many"), Some(("x_ordinal", PluralCategory::Many)));
}

use i18n_convert::formats::i18next::{extract_placeholders, flatten_json, unflatten_to_json, Parser, Writer};
use i18n_convert::formats::Confidence;
use i18n_convert::ir::EntryValue;
use i18n_convert::json::{parse_json, JsonValue};
use indexmap::IndexMap;

#[test]
fn test_extract_placeholders() {
    let placeholders = extract_placeholders("Hello, {{name}}! You have {{count}} items.");
    assert_eq!(placeholders.len(), 2);
    assert_eq!(placeholders[0].name, "name");
    assert_eq!(placeholders[0].original_syntax, "{{name}}");
    assert_eq!(placeholders[1].name, "count");
}

#[test]
fn test_extract_placeholders_with_format() {
    let placeholders = extract_placeholders("Total: {{price, currency}}");
    assert_eq!(placeholders.len(), 1);
    assert_eq!(placeholders[0].name, "price");
    assert_eq!(placeholders[0].original_syntax, "{{price, currency}}");
}

fn object_of(text: &str) -> Vec<(String, JsonValue)> {
    match parse_json(text).unwrap() {
        JsonValue::Object(m) => m,
        _ => panic!("object expected"),
    }
}

#[test]
fn test_flatten_json() {
    let obj = object_of(r#"{"a": {"b": "c", "d": "e"}, "f": "g"}"#);
    let mut flat = IndexMap::new();
    flatten_json(&obj, &String::new(), &mut flat);
    assert_eq!(flat.get("a.b"), Some(&"c".to_string()));
    assert_eq!(flat.get("a.d"), Some(&"e".to_string()));
    assert_eq!(flat.get("f"), Some(&"g".to_string()));
}

fn member<'a>(v: &'a JsonValue, k: &str) -> &'a JsonValue {
    match v {
        JsonValue::Object(m) => &m.iter().find(|(key, _)| key == k).expect("member").1,
        _ => panic!("object expected"),
    }
}

fn text(v: &JsonValue) -> &str {
    match v {
        JsonValue::Str(s) => s.as_str(),
        _ => panic!("string expected"),
    }
}

#[test]
fn test_unflatten_to_json() {
    let mut flat = IndexMap::new();
    flat.insert("a.b".to_string(), "c".to_string());
    flat.insert("a.d".to_string(), "e".to_string());
    flat.insert("f".to_string(), "g".to_string());
    let result = unflatten_to_json(&flat);
    assert_eq!(text(member(member(&result, "a"), "b")), "c");
    assert_eq!(text(member(member(&result, "a"), "d")), "e");
    assert_eq!(text(member(&result, "f")), "g");
}

#[test]
fn i18next_flatten_scalars() {
    let obj = object_of(r#"{"n": 3, "t": true, "z": null, "arr": ["x", "y"]}"#);
    let mut flat = IndexMap::new();
    flatten_json(&obj, &String::new(), &mut flat);
    assert_eq!(flat.get("n").map(|s| s.as_str()), Some("3"));
    assert_eq!(flat.get("t").map(|s| s.as_str()), Some("true"));
    assert_eq!(flat.get("z").map(|s| s.as_str()), Some(""));
    assert_eq!(flat.get("arr").map(|s| s.as_str()), Some("[\"x\",\"y\"]"));
}

#[test]
fn i18next_parse_groups_plurals() {
    let input = br#"{"items_one": "{{count}} item", "items_other": "{{count}} items", "place_ordinal_one": "{{n}}st", "place_ordinal_other": "{{n}}th", "hello": "Hi {{name}}"}"#;
    let res = Parser.parse(input).unwrap();
    assert_eq!(res.entries.len(), 3);
    match &res.entries.get("items").unwrap().value {
        EntryValue::Plural(ps) => {
            assert_eq!(ps.one.as_deref(), Some("{{count}} item"));
            assert_eq!(ps.other, "{{count}} items");
            assert!(!ps.ordinal);
        }
        _ => panic!("plural expected"),
    }
    let place = res.entries.get("place").unwrap();
    match &place.value {
        EntryValue::Plural(ps) => assert!(ps.ordinal),
        _ => panic!("plural expected"),
    }
    assert_eq!(place.placeholders.len(), 1);
    assert_eq!(res.entries.get("hello").unwrap().placeholders[0].name, "name");
}

#[test]
fn i18next_parse_errors() {
    assert!(matches!(Parser.parse(b"[1, 2]"), Err(i18n_convert::formats::ParseError::InvalidFormat(_))));
    assert!(matches!(Parser.parse(b"{oops"), Err(i18n_convert::formats::ParseError::Json(_))));
}

#[test]
fn i18next_detect() {
    assert_eq!(Parser.detect(".json", br#"{"a_one": "x", "a_other": "y", "b_one": "x", "b_other": "y"}"#), Confidence::Definite);
    assert_eq!(Parser.detect(".json", br#"{"a_one": "x", "a_other": "y"}"#), Confidence::High);
    assert_eq!(Parser.detect(".json", br#"{"a": "b"}"#), Confidence::NoMatch);
    assert_eq!(Parser.detect(".yaml", br#"{"a_one": "x", "a_other": "y"}"#), Confidence::NoMatch);
}

#[test]
fn i18next_write_roundtrip() {
    let input = br#"{"items_one": "one item", "items_other": "many items", "menu": {"open": "Open"}}"#;
    let res = Parser.parse(input).unwrap();
    let out = Writer.write(&res).unwrap();
    assert_eq!(*out.last().unwrap(), b'\n');
    let again = Parser.parse(&out).unwrap();
    assert_eq!(again.entries, res.entries);
}
