use i18n_convert::formats::json_structured::{Parser, Writer};
use i18n_convert::formats::Confidence;
use i18n_convert::ir::EntryValue;

#[test]
fn json_structured_parse_nested() {
    let res = Parser.parse(br#"{"a": {"b": "c", "n": 2, "t": false, "z": null}, "d": "e"}"#).unwrap();
    assert_eq!(res.entries.len(), 4);
    assert_eq!(res.entries.get("a.b").unwrap().value, EntryValue::Simple("c".to_string()));
    assert_eq!(res.entries.get("a.n").unwrap().value, EntryValue::Simple("2".to_string()));
    assert_eq!(res.entries.get("a.t").unwrap().value, EntryValue::Simple("false".to_string()));
    assert!(res.entries.get("a.z").is_none());
}

#[test]
fn json_structured_detect() {
    assert_eq!(Parser.detect(".json", br#"{"a": "b"}"#), Confidence::High);
    assert_eq!(Parser.detect(".json", br#"{"@@locale": "en"}"#), Confidence::NoMatch);
    assert_eq!(Parser.detect(".json", br#"{"x_one": "a", "x_other": "b"}"#), Confidence::NoMatch);
    assert_eq!(Parser.detect(".json", b"{ broken"), Confidence::Low);
    assert_eq!(Parser.detect(".json", b"[1]"), Confidence::NoMatch);
    assert_eq!(Parser.detect(".xml", br#"{"a": "b"}"#), Confidence::NoMatch);
}

#[test]
fn json_structured_write_nested_and_content() {
    let res = Parser.parse(br#"{"a": "top", "b": {"c": "d"}}"#).unwrap();
    let mut res2 = res.clone();
    let mut extra = res.entries.get("a").unwrap().clone();
    extra.key = "a.x".to_string();
    res2.entries.insert("a.x".to_string(), extra);
    let out = String::from_utf8(Writer.write(&res2).unwrap()).unwrap();
    assert!(out.ends_with('\n'));
    let back = Parser.parse(out.as_bytes()).unwrap();
    assert_eq!(back.entries.get("a._content").unwrap().value, EntryValue::Simple("top".to_string()));
    assert_eq!(back.entries.get("a.x").unwrap().value, EntryValue::Simple("top".to_string()));
    assert_eq!(back.entries.get("b.c").unwrap().value, EntryValue::Simple("d".to_string()));
}
