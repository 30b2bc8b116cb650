use i18n_convert::formats::hjson::{Parser, Writer};
use i18n_convert::formats::{Confidence, ParseError, WriteError};
use i18n_convert::ir::{EntryValue, FormatId, I18nEntry, I18nResource, ResourceMetadata};
use indexmap::IndexMap;

fn simple(res: &I18nResource, key: &str) -> String {
    match &res.entries[key].value {
        EntryValue::Simple(s) => s.clone(),
        other => panic!("expected a simple value, got {:?}", other),
    }
}

#[test]
fn hjson_detect_extension() {
    assert_eq!(Parser.detect(".hjson", b""), Confidence::Definite);
}

#[test]
fn hjson_detect_content_with_comment() {
    assert_eq!(Parser.detect(".txt", b"  {\n  # greeting\n  a: b\n}"), Confidence::Low);
    assert_eq!(Parser.detect(".txt", b"{\n// note\na: b\n}"), Confidence::Low);
    assert_eq!(Parser.detect(".txt", b"{\"a\": \"b\"}"), Confidence::NoMatch);
    assert_eq!(Parser.detect(".txt", b"a: b # c"), Confidence::NoMatch);
}

#[test]
fn hjson_parse_unquoted_and_quoted() {
    let content = b"{\n  # comment\n  greeting: Hello, World\n  \"quoted key\": \"Line\\nTwo \\u0041\"\n  single: 'it is'\n}";
    let res = Parser.parse(content).unwrap();
    assert_eq!(res.metadata.source_format, FormatId::Hjson);
    assert_eq!(res.entries.len(), 3);
    assert_eq!(simple(&res, "greeting"), "Hello, World");
    assert_eq!(simple(&res, "quoted key"), "Line\nTwo A");
    assert_eq!(simple(&res, "single"), "it is");
}

#[test]
fn hjson_parse_trailing_comma_in_object_value() {
    let res = Parser.parse(b"{ a: one ,\n b: two\n}").unwrap();
    assert_eq!(simple(&res, "a"), "one");
    assert_eq!(simple(&res, "b"), "two");
}

#[test]
fn hjson_parse_nested_and_arrays() {
    let content = b"{\n  menu: {\n    file: File\n    /* block */ edit: Edit\n  }\n  items: [ one, two, { x: y } ]\n}";
    let res = Parser.parse(content).unwrap();
    let keys: Vec<&String> = res.entries.keys().collect();
    assert_eq!(keys, vec!["menu.file", "menu.edit", "items"]);
    assert_eq!(simple(&res, "menu.file"), "File");
    match &res.entries["items"].value {
        EntryValue::Array(a) => assert_eq!(a, &vec!["one".to_string(), "two".to_string(), String::new()]),
        other => panic!("expected an array, got {:?}", other),
    }
}

#[test]
fn hjson_parse_multiline_string() {
    let content = b"{\n  text:\n    '''\n    first\n      second\n    '''\n}";
    let res = Parser.parse(content).unwrap();
    assert_eq!(simple(&res, "text"), "first\n  second");
}

#[test]
fn hjson_parse_repeated_key_keeps_last_value() {
    let res = Parser.parse(b"{ a: 1\n b: 2\n a: 3\n}").unwrap();
    let keys: Vec<&String> = res.entries.keys().collect();
    assert_eq!(keys, vec!["a", "b"]);
    assert_eq!(simple(&res, "a"), "3");
}

#[test]
fn hjson_parse_errors() {
    assert!(matches!(Parser.parse(b"[1, 2]"), Err(ParseError::InvalidFormat(_))));
    assert!(matches!(Parser.parse(b"{ a: b"), Err(ParseError::InvalidFormat(_))));
    assert!(matches!(Parser.parse(b"{ a b }"), Err(ParseError::InvalidFormat(_))));
    assert!(matches!(Parser.parse(b"{ a: \"open }"), Err(ParseError::InvalidFormat(_))));
    assert!(matches!(Parser.parse(b"{ a: \"\\uD800\" }"), Err(ParseError::InvalidFormat(_))));
    assert!(matches!(Parser.parse(&[0xff, 0xfe]), Err(ParseError::InvalidFormat(_))));
    assert!(matches!(Parser.parse(b"{ a: [ } ] }"), Err(ParseError::InvalidFormat(_))));
}

fn resource(entries: Vec<(&str, EntryValue)>) -> I18nResource {
    let mut map = IndexMap::new();
    for (k, v) in entries {
        map.insert(k.to_string(), I18nEntry { key: k.to_string(), value: v, ..Default::default() });
    }
    I18nResource { metadata: ResourceMetadata::default(), entries: map }
}

#[test]
fn hjson_write_nested_json() {
    let res = resource(vec![
        ("menu.file", EntryValue::Simple("File".to_string())),
        ("title", EntryValue::Simple("Hi".to_string())),
        ("list", EntryValue::Array(vec!["a".to_string(), "b".to_string()])),
    ]);
    let out = String::from_utf8(Writer.write(&res).unwrap()).unwrap();
    let v: serde_json::Value = serde_json::from_str(&out).unwrap();
    assert_eq!(v["menu"]["file"], "File");
    assert_eq!(v["title"], "Hi");
    assert_eq!(v["list"][1], "b");
    assert!(out.ends_with('\n'));
}

#[test]
fn hjson_write_key_conflict_fails() {
    let res = resource(vec![
        ("a", EntryValue::Simple("x".to_string())),
        ("a.b", EntryValue::Simple("y".to_string())),
    ]);
    assert!(matches!(Writer.write(&res), Err(WriteError::Serialization(_))));
}

#[test]
fn hjson_round_trip_simple() {
    let res = resource(vec![
        ("greeting", EntryValue::Simple("Hello".to_string())),
        ("nav.home", EntryValue::Simple("Home".to_string())),
    ]);
    let out = Writer.write(&res).unwrap();
    let back = Parser.parse(&out).unwrap();
    assert_eq!(simple(&back, "greeting"), "Hello");
    assert_eq!(simple(&back, "nav.home"), "Home");
}
