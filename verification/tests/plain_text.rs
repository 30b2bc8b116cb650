use i18n_convert::formats::plain_text::{
    detect_line_ending, normalize_line_endings, restore_line_endings, Parser, Writer,
};
use i18n_convert::formats::Confidence;
use i18n_convert::ir::{EntryValue, FormatId, FormatExtension, I18nEntry, I18nResource, PlainTextExt, ResourceMetadata};

#[test]
fn test_detect_txt() {
    let parser = Parser;
    assert_eq!(parser.detect(".txt", b""), Confidence::Definite);
}

#[test]
fn test_detect_non_txt() {
    let parser = Parser;
    assert_eq!(parser.detect(".json", b""), Confidence::NoMatch);
    assert_eq!(parser.detect(".yml", b""), Confidence::NoMatch);
}

#[test]
fn plain_text_test_parse_simple() {
    let parser = Parser;
    let content = b"Hello, world!\n";
    let resource = parser.parse(content).unwrap();
    assert_eq!(resource.metadata.source_format, FormatId::PlainText);
    assert_eq!(resource.entries.len(), 1);
    assert_eq!(resource.entries["content"].value, EntryValue::Simple("Hello, world!".to_string()));
}

#[test]
fn test_parse_multiline() {
    let parser = Parser;
    let content = b"Line one.\nLine two.\nLine three.\n";
    let resource = parser.parse(content).unwrap();
    assert_eq!(resource.entries.len(), 1);
    assert_eq!(
        resource.entries["content"].value,
        EntryValue::Simple("Line one.\nLine two.\nLine three.".to_string())
    );
}

#[test]
fn test_parse_sections() {
    let parser = Parser;
    let content = b"Section one.\n---\nSection two.\n---\nSection three.";
    let resource = parser.parse(content).unwrap();
    assert_eq!(resource.entries.len(), 3);
    assert_eq!(resource.entries["content.0"].value, EntryValue::Simple("Section one.".to_string()));
    assert_eq!(resource.entries["content.1"].value, EntryValue::Simple("Section two.".to_string()));
    assert_eq!(resource.entries["content.2"].value, EntryValue::Simple("Section three.".to_string()));
}

#[test]
fn test_parse_empty() {
    let parser = Parser;
    let resource = parser.parse(b"").unwrap();
    assert_eq!(resource.entries.len(), 0);
}

#[test]
fn test_detect_line_ending_lf() {
    assert_eq!(detect_line_ending("hello\nworld\n"), "\n");
}

#[test]
fn test_detect_line_ending_crlf() {
    assert_eq!(detect_line_ending("hello\r\nworld\r\n"), "\r\n");
}

#[test]
fn plain_text_test_roundtrip_simple() {
    let parser = Parser;
    let writer = Writer;
    let content = b"Hello, world!\n";
    let resource = parser.parse(content).unwrap();
    let output = writer.write(&resource).unwrap();
    let resource2 = parser.parse(&output).unwrap();
    assert_eq!(resource.entries.len(), resource2.entries.len());
    for (key, entry) in &resource.entries {
        assert_eq!(entry.value, resource2.entries[key].value);
    }
}

#[test]
fn plain_text_line_ending_helpers() {
    assert_eq!(normalize_line_endings("a\r\nb\r\n"), "a\nb\n");
    assert_eq!(normalize_line_endings("a\rb"), "a\rb");
    assert_eq!(restore_line_endings("a\nb", "\r\n"), "a\r\nb");
    assert_eq!(restore_line_endings("a\nb", "\n"), "a\nb");
}

#[test]
fn plain_text_crlf_sections_roundtrip() {
    let input = b"one\r\n---\r\ntwo\r\n";
    let resource = Parser.parse(input).unwrap();
    match &resource.metadata.format_ext {
        Some(FormatExtension::PlainText(x)) => assert_eq!(x.line_ending.as_deref(), Some("\r\n")),
        _ => panic!("plain text extension expected"),
    }
    let out = Writer.write(&resource).unwrap();
    assert_eq!(out, b"one\r\n---\r\ntwo\r\n".to_vec());
}

#[test]
fn plain_text_sections_written_in_number_order() {
    let mut resource = Parser.parse(b"a\n---\nb\n---\nc").unwrap();
    let first = resource.entries.shift_remove("content.0").unwrap();
    resource.entries.insert("content.0".to_string(), first);
    let out = Writer.write(&resource).unwrap();
    assert_eq!(String::from_utf8(out).unwrap(), "a\n---\nb\n---\nc\n");
}

#[test]
fn plain_text_empty_resource_writes_nothing() {
    let resource = Parser.parse(b"").unwrap();
    assert!(Writer.write(&resource).unwrap().is_empty());
}

#[test]
fn plain_text_round_trip_single_text() {
    let mut entries = indexmap::IndexMap::new();
    entries.insert("content".to_string(), I18nEntry { key: "content".to_string(), value: EntryValue::Simple("Hello\nWorld".to_string()), ..Default::default() });
    let res = I18nResource { metadata: ResourceMetadata::default(), entries };
    let bytes = Writer.write(&res).unwrap();
    let back = Parser.parse(&bytes).unwrap();
    assert_eq!(back.entries.len(), 1);
    assert_eq!(back.entries["content"].value, EntryValue::Simple("Hello\nWorld".to_string()));
}

#[test]
fn plain_text_round_trip_crlf() {
    let mut entries = indexmap::IndexMap::new();
    entries.insert("content".to_string(), I18nEntry { key: "content".to_string(), value: EntryValue::Simple("One\nTwo\nThree".to_string()), ..Default::default() });
    let mut metadata = ResourceMetadata::default();
    metadata.format_ext = Some(FormatExtension::PlainText(PlainTextExt { line_ending: Some("\r\n".to_string()) }));
    let res = I18nResource { metadata, entries };
    let bytes = Writer.write(&res).unwrap();
    assert_eq!(String::from_utf8(bytes.clone()).unwrap(), "One\r\nTwo\r\nThree\r\n");
    let back = Parser.parse(&bytes).unwrap();
    assert_eq!(back.entries.len(), 1);
    assert_eq!(back.entries["content"].value, EntryValue::Simple("One\nTwo\nThree".to_string()));
}
