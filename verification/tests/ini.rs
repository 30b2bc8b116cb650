use i18n_convert::formats::ini::{
    make_full_key, parse_ini_content, split_ini_kv, strip_plural_suffix, Parser, Writer,
};
use i18n_convert::formats::Confidence;
use i18n_convert::ir::{EntryValue, FormatExtension};

#[test]
fn ini_test_strip_plural_suffix() {
    assert_eq!(strip_plural_suffix("items_one"), Some(("items", "one")));
    assert_eq!(strip_plural_suffix("items_other"), Some(("items", "other")));
    assert_eq!(strip_plural_suffix("items_zero"), Some(("items", "zero")));
    assert_eq!(strip_plural_suffix("items"), None);
    assert_eq!(strip_plural_suffix("_other"), None);
}

#[test]
fn test_split_ini_kv() {
    let result = split_ini_kv("greeting = Hello, World!");
    assert!(result.is_some());
    let (key, value, delim) = result.expect("should parse");
    assert_eq!(key, "greeting");
    assert_eq!(value, "Hello, World!");
    assert_eq!(delim, '=');
}

#[test]
fn test_split_ini_kv_colon() {
    let result = split_ini_kv("greeting : Hello");
    assert!(result.is_some());
    let (key, value, delim) = result.expect("should parse");
    assert_eq!(key, "greeting");
    assert_eq!(value, "Hello");
    assert_eq!(delim, ':');
}

#[test]
fn test_parse_basic_sections() {
    let input = "[general]\ngreeting = Hello\nfarewell = Goodbye\n\n[messages]\nwelcome = Welcome";
    let resource = parse_ini_content(input).expect("should parse");
    assert_eq!(resource.entries.len(), 3);
    assert!(resource.entries.contains_key("general.greeting"));
    assert!(resource.entries.contains_key("general.farewell"));
    assert!(resource.entries.contains_key("messages.welcome"));
}

#[test]
fn test_parse_no_section() {
    let input = "greeting = Hello\nfarewell = Goodbye";
    let resource = parse_ini_content(input).expect("should parse");
    assert_eq!(resource.entries.len(), 2);
    assert!(resource.entries.contains_key("greeting"));
    assert!(resource.entries.contains_key("farewell"));
}

#[test]
fn ini_test_parse_comments() {
    let input = "; This is a comment\ngreeting = Hello";
    let resource = parse_ini_content(input).expect("should parse");
    let entry = resource.entries.get("greeting").expect("should exist");
    assert_eq!(entry.comments.len(), 1);
    assert_eq!(entry.comments[0].text, "This is a comment");
}

#[test]
fn ini_test_parse_plurals() {
    let input = "[plurals]\nitems_one = %d item\nitems_other = %d items";
    let resource = parse_ini_content(input).expect("should parse");
    assert_eq!(resource.entries.len(), 1);
    let entry = resource.entries.get("plurals.items").expect("should exist");
    match &entry.value {
        EntryValue::Plural(ps) => {
            assert_eq!(ps.one, Some("%d item".to_string()));
            assert_eq!(ps.other, "%d items".to_string());
        }
        _ => panic!("Expected plural value"),
    }
}

#[test]
fn test_make_full_key() {
    assert_eq!(make_full_key(&Some("general".to_string()), "greeting"), "general.greeting");
    assert_eq!(make_full_key(&None, "greeting"), "greeting");
}

#[test]
fn ini_split_rejects_empty_key() {
    assert_eq!(split_ini_kv("= value"), None);
    assert_eq!(split_ini_kv("no delimiter"), None);
    let (k, v, d) = split_ini_kv(" : x = y").unwrap();
    assert_eq!((k.as_str(), v.as_str(), d), (": x", "y", '='));
}

#[test]
fn ini_plural_group_without_other_stays_flat() {
    let resource = parse_ini_content("items_one = a\nitems_few = b\n").unwrap();
    assert_eq!(resource.entries.len(), 2);
    assert!(resource.entries.contains_key("items_one"));
    assert!(resource.entries.contains_key("items_few"));
}

#[test]
fn ini_metadata_records_first_delimiter_and_comment_char() {
    let resource = parse_ini_content("# c\na: 1\nb = 2\n").unwrap();
    match &resource.metadata.format_ext {
        Some(FormatExtension::Ini(x)) => {
            assert_eq!(x.delimiter, Some(':'));
            assert_eq!(x.comment_char, Some('#'));
        }
        _ => panic!("INI extension expected"),
    }
}

#[test]
fn ini_detect() {
    assert_eq!(Parser.detect(".ini", b""), Confidence::Definite);
    assert_eq!(Parser.detect(".txt", b"[s]\na = b\n"), Confidence::High);
    assert_eq!(Parser.detect(".txt", b"a = b\n"), Confidence::NoMatch);
}

#[test]
fn ini_write_roundtrip() {
    let input = "[general]\n# hi\ngreeting = Hello\nitems_one = %d item\nitems_other = %d items\n\n[messages]\nwelcome : Welcome\n";
    let resource = Parser.parse(input.as_bytes()).unwrap();
    let out = String::from_utf8(Writer.write(&resource).unwrap()).unwrap();
    assert_eq!(
        out,
        "[general]\nitems_one = %d item\nitems_other = %d items\n# hi\ngreeting = Hello\n\n[messages]\nwelcome : Welcome\n"
    );
    let again = Parser.parse(out.as_bytes()).unwrap();
    assert_eq!(again.entries.len(), resource.entries.len());
}
