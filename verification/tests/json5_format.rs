use i18n_convert::formats::json5_format::{can_write, Parser, Writer};
use i18n_convert::formats::Confidence;
use i18n_convert::ir::{EntryValue, FormatId, I18nEntry, I18nResource, ResourceMetadata};
use indexmap::IndexMap;

#[test]
fn test_detect_json5_extension() {
    let parser = Parser;
    let content = b"{ greeting: 'Hello' }";
    assert_eq!(parser.detect(".json5", content), Confidence::Definite);
}

#[test]
fn test_detect_non_json5_extension() {
    let parser = Parser;
    let content = b"{ greeting: 'Hello' }";
    assert_eq!(parser.detect(".json", content), Confidence::NoMatch);
}

#[test]
fn json5_format_test_parse_simple() {
    let parser = Parser;
    let content = b"{ greeting: 'Hello', farewell: \"Goodbye\" }";
    let resource = parser.parse(content).expect("parse should succeed");

    assert_eq!(resource.metadata.source_format, FormatId::Json5);
    assert_eq!(resource.entries.len(), 2);
    assert_eq!(resource.entries["greeting"].value, EntryValue::Simple("Hello".to_string()));
    assert_eq!(resource.entries["farewell"].value, EntryValue::Simple("Goodbye".to_string()));
}

#[test]
fn json5_format_test_parse_nested() {
    let parser = Parser;
    let content = b"{ nested: { welcome: 'Welcome' }, top: 'Top' }";
    let resource = parser.parse(content).expect("parse should succeed");

    assert_eq!(resource.entries.len(), 2);
    assert_eq!(resource.entries["nested.welcome"].value, EntryValue::Simple("Welcome".to_string()));
    assert_eq!(resource.entries["top"].value, EntryValue::Simple("Top".to_string()));
}

#[test]
fn test_parse_with_comments() {
    let parser = Parser;
    let content = b"{\n  // A comment\n  greeting: 'Hello',\n  /* block */\n  farewell: 'Bye',\n}";
    let resource = parser.parse(content).expect("parse should succeed");

    assert_eq!(resource.entries.len(), 2);
    assert_eq!(resource.entries["greeting"].value, EntryValue::Simple("Hello".to_string()));
}

#[test]
fn test_parse_trailing_commas() {
    let parser = Parser;
    let content = b"{ greeting: 'Hello', farewell: 'Bye', }";
    let resource = parser.parse(content).expect("parse should succeed");
    assert_eq!(resource.entries.len(), 2);
}

#[test]
fn test_roundtrip() {
    let parser = Parser;
    let writer = Writer;
    let content = br#"{"greeting":"Hello","farewell":"Goodbye"}"#;
    let resource = parser.parse(content).expect("parse should succeed");
    let output = writer.write(&resource).expect("write should succeed");
    let reparsed = parser.parse(&output).expect("reparse should succeed");

    assert_eq!(resource.entries.len(), reparsed.entries.len());
    for (key, entry) in &resource.entries {
        assert_eq!(entry.value, reparsed.entries[key].value, "Mismatch for key: {key}");
    }
}

#[test]
fn json5_format_test_write_nested() {
    let writer = Writer;
    let mut entries = IndexMap::new();
    entries.insert(
        "nested.key".to_string(),
        I18nEntry { key: "nested.key".to_string(), value: EntryValue::Simple("value".to_string()), ..Default::default() },
    );

    let resource = I18nResource {
        metadata: ResourceMetadata { source_format: FormatId::Json5, ..Default::default() },
        entries,
    };

    let output = writer.write(&resource).expect("write should succeed");
    let output_str = std::str::from_utf8(&output).expect("valid UTF-8");

    let parsed: serde_json::Value = serde_json::from_str(output_str).expect("valid JSON");
    assert_eq!(parsed["nested"]["key"], "value");
}

#[test]
fn json5_format_test_capabilities() {
    let caps = Parser.capabilities();
    assert!(caps.nested_keys);
    assert!(caps.arrays);
    assert!(!caps.plurals);
    assert!(!caps.comments);
}

#[test]
fn json5_detect_invalid_is_low() {
    assert_eq!(Parser.detect(".json5", b"{ greeting: "), Confidence::Low);
    assert_eq!(Parser.detect(".json5", &[0xff]), Confidence::Low);
}

#[test]
fn json5_arrays_and_scalars() {
    let res = Parser.parse(b"{ list: ['a', 1, true], mixed: ['a', {b: 1}], n: 2.5, nothing: null }").unwrap();
    assert_eq!(
        res.entries["list"].value,
        EntryValue::Array(vec!["a".to_string(), "1".to_string(), "true".to_string()])
    );
    assert!(res.entries.get("mixed").is_none());
    assert!(res.entries.get("nothing").is_none());
    assert_eq!(res.entries["n"].value, EntryValue::Simple("2.5".to_string()));
    assert!(Parser.parse(b"[1, 2]").is_err());
}

#[test]
fn json5_conflicting_keys_cannot_be_written() {
    let mut entries = IndexMap::new();
    for (k, v) in [("a", "x"), ("a.b", "y")] {
        entries.insert(k.to_string(), I18nEntry { key: k.to_string(), value: EntryValue::Simple(v.to_string()), ..Default::default() });
    }
    let resource = I18nResource { metadata: ResourceMetadata::default(), entries };
    assert!(!can_write(&resource));
}
