use i18n_convert::formats::neon::{format_neon_value, parse_neon_content, strip_plural_suffix, unquote_neon, write_neon, Parser, Writer};
use i18n_convert::formats::Confidence;
use i18n_convert::ir::{Comment, CommentRole, EntryValue, I18nEntry, I18nResource, PluralSet, ResourceMetadata};
use indexmap::IndexMap;

#[test]
fn neon_test_strip_plural_suffix() {
    assert_eq!(strip_plural_suffix("items_one"), Some(("items", "one")));
    assert_eq!(strip_plural_suffix("items_other"), Some(("items", "other")));
    assert_eq!(strip_plural_suffix("items_zero"), Some(("items", "zero")));
    assert_eq!(strip_plural_suffix("items"), None);
    assert_eq!(strip_plural_suffix("_other"), None);
}

#[test]
fn test_unquote_neon() {
    assert_eq!(unquote_neon("hello"), "hello");
    assert_eq!(unquote_neon("\"hello\""), "hello");
    assert_eq!(unquote_neon("'hello'"), "hello");
    assert_eq!(unquote_neon("  hello  "), "hello");
}

#[test]
fn test_parse_basic() {
    let input = "greeting: Hello\nfarewell: Goodbye";
    let resource = parse_neon_content(input).expect("should parse");
    assert_eq!(resource.entries.len(), 2);
    assert!(resource.entries.contains_key("greeting"));
    assert!(resource.entries.contains_key("farewell"));
}

#[test]
fn neon_test_parse_nested() {
    let input = "messages:\n\twelcome: Hello\n\terror:\n\t\tnot_found: 404";
    let resource = parse_neon_content(input).expect("should parse");
    assert_eq!(resource.entries.len(), 2);
    assert!(resource.entries.contains_key("messages.welcome"));
    assert!(resource.entries.contains_key("messages.error.not_found"));
}

#[test]
fn neon_test_parse_comments() {
    let input = "# A greeting\ngreeting: Hello";
    let resource = parse_neon_content(input).expect("should parse");
    let entry = resource.entries.get("greeting").expect("should exist");
    assert_eq!(entry.comments.len(), 1);
    assert_eq!(entry.comments[0].text, "A greeting");
}

#[test]
fn neon_test_parse_plurals() {
    let input = "items_one: 1 item\nitems_other: many items";
    let resource = parse_neon_content(input).expect("should parse");
    assert_eq!(resource.entries.len(), 1);
    let entry = resource.entries.get("items").expect("should exist");
    match &entry.value {
        EntryValue::Plural(ps) => {
            assert_eq!(ps.one, Some("1 item".to_string()));
            assert_eq!(ps.other, "many items");
        }
        other => panic!("Expected plural, got {:?}", other),
    }
}

#[test]
fn test_format_neon_value() {
    assert_eq!(format_neon_value("Hello"), "Hello");
    assert_eq!(format_neon_value("%count% items"), "\"%count% items\"");
    assert_eq!(format_neon_value("true"), "\"true\"");
    assert_eq!(format_neon_value(""), "\"\"");
}

#[test]
fn neon_format_escapes_quotes_and_backslashes() {
    assert_eq!(format_neon_value("a: \"b\\c\""), "\"a: \\\"b\\\\c\\\"\"");
    assert_eq!(format_neon_value(" lead"), "\" lead\"");
}

#[test]
fn neon_space_indent_unit() {
    let input = "a:\n  b: 1\n  c:\n    d: 2\ne: 3\n";
    let resource = parse_neon_content(input).unwrap();
    let keys: Vec<&String> = resource.entries.keys().collect();
    assert_eq!(keys, vec!["a.b", "a.c.d", "e"]);
}

#[test]
fn neon_detect() {
    assert_eq!(Parser.detect(".neon", b""), Confidence::Definite);
    assert_eq!(Parser.detect(".yaml", b"a: b"), Confidence::NoMatch);
}

fn entries(items: Vec<I18nEntry>) -> IndexMap<String, I18nEntry> {
    let mut m = IndexMap::new();
    for e in items {
        m.insert(e.key.clone(), e);
    }
    m
}

#[test]
fn neon_write_nested_with_tabs() {
    let m = entries(vec![
        I18nEntry { key: "menu.file".to_string(), value: EntryValue::Simple("File".to_string()), ..Default::default() },
        I18nEntry { key: "menu.edit".to_string(), value: EntryValue::Simple("Edit: now".to_string()), ..Default::default() },
        I18nEntry { key: "title".to_string(), value: EntryValue::Simple("true".to_string()), ..Default::default() },
    ]);
    assert_eq!(write_neon(&m), "menu:\n\tfile: File\n\tedit: \"Edit: now\"\ntitle: \"true\"\n");
}

#[test]
fn neon_write_plural_and_comments() {
    let ps = PluralSet { one: Some("One".to_string()), other: "Many".to_string(), ..Default::default() };
    let comment = Comment { text: "note".to_string(), role: CommentRole::General, priority: None, annotates: None };
    let m = entries(vec![
        I18nEntry { key: "greet".to_string(), value: EntryValue::Simple("Hi".to_string()), comments: vec![comment], ..Default::default() },
        I18nEntry { key: "items".to_string(), value: EntryValue::Plural(ps), ..Default::default() },
    ]);
    assert_eq!(write_neon(&m), "# note\ngreet: Hi\nitems_one: One\nitems_other: Many\n");
}

#[test]
fn neon_write_value_under_leaf_is_dropped() {
    let m = entries(vec![
        I18nEntry { key: "a".to_string(), value: EntryValue::Simple("x".to_string()), ..Default::default() },
        I18nEntry { key: "a.b".to_string(), value: EntryValue::Simple("y".to_string()), ..Default::default() },
    ]);
    assert_eq!(write_neon(&m), "a: x\n");
}

#[test]
fn neon_write_then_parse() {
    let m = entries(vec![
        I18nEntry { key: "nav.home".to_string(), value: EntryValue::Simple("Home".to_string()), ..Default::default() },
        I18nEntry { key: "nav.back".to_string(), value: EntryValue::Simple("Back".to_string()), ..Default::default() },
    ]);
    let res = I18nResource { metadata: ResourceMetadata::default(), entries: m };
    let out = Writer.write(&res).unwrap();
    let back = Parser.parse(&out).unwrap();
    assert_eq!(back.entries["nav.home"].value, EntryValue::Simple("Home".to_string()));
    assert_eq!(back.entries["nav.back"].value, EntryValue::Simple("Back".to_string()));
}
