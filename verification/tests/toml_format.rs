use i18n_convert::formats::toml_format::{Parser, Writer};
use i18n_convert::formats::Confidence;
use i18n_convert::ir::{EntryValue, FormatId, I18nEntry, I18nResource, ResourceMetadata};
use indexmap::IndexMap;

#[test]
fn test_detect_toml_extension() {
    let parser = Parser;
    let content = b"[messages]\ngreeting = \"Hello\"\n";
    assert_eq!(parser.detect(".toml", content), Confidence::High);
}

#[test]
fn test_detect_non_toml_extension() {
    let parser = Parser;
    let content = b"[messages]\ngreeting = \"Hello\"\n";
    assert_eq!(parser.detect(".json", content), Confidence::NoMatch);
}

#[test]
fn test_parse_flat() {
    let parser = Parser;
    let content = b"greeting = \"Hello\"\nfarewell = \"Goodbye\"\n";
    let resource = parser.parse(content).expect("parse should succeed");

    assert_eq!(resource.metadata.source_format, FormatId::Toml);
    assert_eq!(resource.entries.len(), 2);
    assert_eq!(resource.entries["greeting"].value, EntryValue::Simple("Hello".to_string()));
    assert_eq!(resource.entries["farewell"].value, EntryValue::Simple("Goodbye".to_string()));
}

#[test]
fn test_parse_nested_tables() {
    let parser = Parser;
    let content = b"[messages]\ngreeting = \"Hello\"\nfarewell = \"Goodbye\"\n\n[errors]\nnot_found = \"Not found\"\n";
    let resource = parser.parse(content).expect("parse should succeed");

    assert_eq!(resource.entries.len(), 3);
    assert_eq!(resource.entries["messages.greeting"].value, EntryValue::Simple("Hello".to_string()));
    assert_eq!(resource.entries["errors.not_found"].value, EntryValue::Simple("Not found".to_string()));
}

#[test]
fn test_parse_array() {
    let parser = Parser;
    let content = b"colors = [\"red\", \"green\", \"blue\"]\n";
    let resource = parser.parse(content).expect("parse should succeed");

    assert_eq!(resource.entries.len(), 1);
    assert_eq!(
        resource.entries["colors"].value,
        EntryValue::Array(vec!["red".to_string(), "green".to_string(), "blue".to_string()])
    );
}

#[test]
fn toml_format_test_roundtrip_simple() {
    let parser = Parser;
    let writer = Writer;
    let content = b"greeting = \"Hello\"\nfarewell = \"Goodbye\"\n";
    let resource = parser.parse(content).expect("parse should succeed");
    let output = writer.write(&resource).expect("write should succeed");
    let reparsed = parser.parse(&output).expect("reparse should succeed");

    assert_eq!(resource.entries.len(), reparsed.entries.len());
    for (key, entry) in &resource.entries {
        assert_eq!(entry.value, reparsed.entries[key].value, "Mismatch for key: {key}");
    }
}

#[test]
fn toml_format_test_write_nested() {
    let writer = Writer;
    let mut entries = IndexMap::new();
    entries.insert(
        "messages.greeting".to_string(),
        I18nEntry { key: "messages.greeting".to_string(), value: EntryValue::Simple("Hello".to_string()), ..Default::default() },
    );

    let resource = I18nResource {
        metadata: ResourceMetadata { source_format: FormatId::Toml, ..Default::default() },
        entries,
    };

    let output = writer.write(&resource).expect("write should succeed");
    let output_str = std::str::from_utf8(&output).expect("valid UTF-8");

    let parsed: toml::Value = toml::from_str(output_str).expect("valid TOML");
    assert_eq!(parsed["messages"]["greeting"].as_str(), Some("Hello"));
}

#[test]
fn toml_format_test_capabilities() {
    let caps = Parser.capabilities();
    assert!(caps.nested_keys);
    assert!(caps.arrays);
    assert!(!caps.plurals);
    assert!(!caps.comments);
}

#[test]
fn toml_detect_invalid_is_low() {
    assert_eq!(Parser.detect(".toml", b"= = ="), Confidence::Low);
}

#[test]
fn toml_scalars_and_mixed_arrays() {
    let res = Parser
        .parse(b"n = 3\nx = 1.5\nok = true\nwhen = 1979-05-27\nmixed = [1, 1979-05-27]\nnums = [1, 2]\n")
        .unwrap();
    assert_eq!(res.entries["n"].value, EntryValue::Simple("3".to_string()));
    assert_eq!(res.entries["x"].value, EntryValue::Simple("1.5".to_string()));
    assert_eq!(res.entries["ok"].value, EntryValue::Simple("true".to_string()));
    assert_eq!(res.entries["when"].value, EntryValue::Simple("1979-05-27".to_string()));
    assert!(res.entries.get("mixed").is_none());
    assert_eq!(res.entries["nums"].value, EntryValue::Array(vec!["1".to_string(), "2".to_string()]));
    assert!(Parser.parse(b"= broken").is_err());
}
