use i18n_convert::formats::java_properties::{
    escape_key, escape_value, join_logical_lines, parse_properties, properties_unescape, split_key_value,
    Parser, Writer,
};
use i18n_convert::formats::Confidence;
use i18n_convert::ir::{EntryValue, FormatExtension};

#[test]
fn test_unescape_basic() {
    assert_eq!(properties_unescape("hello\\nworld"), "hello\nworld");
    assert_eq!(properties_unescape("hello\\tworld"), "hello\tworld");
    assert_eq!(properties_unescape("hello\\\\world"), "hello\\world");
    assert_eq!(properties_unescape("key\\=value"), "key=value");
    assert_eq!(properties_unescape("key\\:value"), "key:value");
    assert_eq!(properties_unescape("key\\ value"), "key value");
}

#[test]
fn test_unescape_unicode() {
    assert_eq!(properties_unescape("Hello \\u0057orld"), "Hello World");
    assert_eq!(properties_unescape("caf\\u00E9"), "caf\u{00E9}");
}

#[test]
fn test_escape_key() {
    assert_eq!(escape_key("key with spaces"), "key\\ with\\ spaces");
    assert_eq!(escape_key("key=value"), "key\\=value");
    assert_eq!(escape_key("key:value"), "key\\:value");
}

#[test]
fn test_escape_value() {
    assert_eq!(escape_value("hello\nworld"), "hello\\nworld");
    assert_eq!(escape_value("hello\\world"), "hello\\\\world");
}

#[test]
fn test_split_key_value_equals() {
    let result = split_key_value("greeting = Hello, World!");
    assert!(result.is_some());
    let (key, value, sep) = result.expect("should parse");
    assert_eq!(key, "greeting");
    assert_eq!(value, "Hello, World!");
    assert_eq!(sep, '=');
}

#[test]
fn test_split_key_value_colon() {
    let result = split_key_value("farewell : Goodbye!");
    assert!(result.is_some());
    let (key, value, sep) = result.expect("should parse");
    assert_eq!(key, "farewell");
    assert_eq!(value, "Goodbye!");
    assert_eq!(sep, ':');
}

#[test]
fn test_split_key_value_no_spaces() {
    let result = split_key_value("app.title=My Application");
    assert!(result.is_some());
    let (key, value, sep) = result.expect("should parse");
    assert_eq!(key, "app.title");
    assert_eq!(value, "My Application");
    assert_eq!(sep, '=');
}

#[test]
fn test_join_logical_lines_continuation() {
    let input = "multiline.value = This is a \\\n    long value that spans \\\n    multiple lines";
    let lines = join_logical_lines(input);
    assert_eq!(lines.len(), 1);
    assert_eq!(lines[0], "multiline.value = This is a long value that spans multiple lines");
}

#[test]
fn java_properties_test_parse_comments() {
    let input = "# This is a comment\ngreeting = Hello";
    let resource = parse_properties(input).expect("should parse");
    let entry = resource.entries.get("greeting").expect("greeting should exist");
    assert_eq!(entry.comments.len(), 1);
    assert_eq!(entry.comments[0].text, "This is a comment");
}

#[test]
fn test_parse_exclamation_comment() {
    let input = "! This is also a comment\ngreeting = Hello";
    let resource = parse_properties(input).expect("should parse");
    let entry = resource.entries.get("greeting").expect("greeting should exist");
    assert_eq!(entry.comments.len(), 1);
    assert_eq!(entry.comments[0].text, "This is also a comment");
}

#[test]
fn properties_blank_line_drops_comment() {
    let resource = parse_properties("# lost\n\nkey=v").unwrap();
    assert_eq!(resource.entries.get("key").unwrap().comments.len(), 0);
}

#[test]
fn properties_separator_recorded_and_written() {
    let resource = parse_properties("a : 1\nb=2").unwrap();
    match &resource.metadata.format_ext {
        Some(FormatExtension::JavaProperties(ext)) => assert_eq!(ext.separator, Some(':')),
        _ => panic!("extension expected"),
    }
    let out = String::from_utf8(Writer.write(&resource).unwrap()).unwrap();
    assert_eq!(out, "a : 1\n\nb = 2\n");
}

#[test]
fn properties_escape_value_leading_spaces() {
    assert_eq!(escape_value("  a b"), "\\ \\ a b");
    assert_eq!(properties_unescape("\\u00"), "\\u00");
    assert_eq!(properties_unescape("\\q"), "\\q");
}

#[test]
fn properties_roundtrip() {
    let resource = parse_properties("key\\ one = va\\=lue\nk2 = multi\\nline").unwrap();
    match &resource.entries.get("key one").unwrap().value {
        EntryValue::Simple(v) => assert_eq!(v, "va=lue"),
        _ => panic!("simple value expected"),
    }
    let out = Writer.write(&resource).unwrap();
    let again = Parser.parse(&out).unwrap();
    assert_eq!(again.entries.len(), 2);
    match &again.entries.get("k2").unwrap().value {
        EntryValue::Simple(v) => assert_eq!(v, "multi\nline"),
        _ => panic!("simple value expected"),
    }
}

#[test]
fn properties_detect() {
    assert_eq!(Parser.detect(".properties", b""), Confidence::Definite);
    assert_eq!(Parser.detect(".cfg", b"a=1\nb:2\n"), Confidence::Low);
    assert_eq!(Parser.detect(".cfg", b"a=1\n# c=2\n"), Confidence::NoMatch);
}

#[test]
fn properties_escape_round_trip() {
    for s in ["a key=with:all#the!chars\\ and\ttabs\nlines", "  leading spaces", "plain", "", "é\\u0041"] {
        assert_eq!(properties_unescape(&escape_key(s)), s);
        assert_eq!(properties_unescape(&escape_value(s)), s);
    }
}
