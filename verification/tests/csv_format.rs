use i18n_convert::formats::csv_format::{detect_delimiter, has_bom, is_locale_column, parse_csv, strip_bom, Parser, Writer};
use i18n_convert::formats::Confidence;
use i18n_convert::ir::{EntryValue, FormatExtension};

#[test]
fn csv_helpers() {
    assert!(has_bom(b"\xEF\xBB\xBFkey"));
    assert!(!has_bom(b"key"));
    assert_eq!(strip_bom(b"\xEF\xBB\xBFkey"), b"key");
    assert_eq!(detect_delimiter("key\tvalue\n", ".csv"), b'\t');
    assert_eq!(detect_delimiter("key,value\tx\n", ".csv"), b',');
    assert_eq!(detect_delimiter("key,value", ".tsv"), b'\t');
    assert!(is_locale_column("EN-US"));
    assert!(is_locale_column("Translation"));
    assert!(!is_locale_column("notes"));
}

#[test]
fn csv_detect() {
    assert_eq!(Parser.detect(".csv", b""), Confidence::High);
    assert_eq!(Parser.detect(".tsv", b""), Confidence::High);
    assert_eq!(Parser.detect(".txt", b"Key;Value\n"), Confidence::Low);
    assert_eq!(Parser.detect(".txt", b"hello\n"), Confidence::NoMatch);
}

#[test]
fn csv_parse_basic() {
    let content = b"\xEF\xBB\xBFkey,en,comment\nhello,Hello,  greeting \nbye,\"Bye, now\",\n,skipped,\n";
    let res = Parser.parse(content).expect("parse");
    assert_eq!(res.metadata.locale.as_deref(), Some("en"));
    match &res.metadata.format_ext {
        Some(FormatExtension::Csv(x)) => {
            assert_eq!(x.delimiter, Some(','));
            assert_eq!(x.key_column.as_deref(), Some("key"));
            assert_eq!(x.value_column.as_deref(), Some("en"));
            assert_eq!(x.has_bom, Some(true));
        }
        _ => panic!("missing extension"),
    }
    assert_eq!(res.entries.len(), 2);
    let h = res.entries.get("hello").unwrap();
    assert_eq!(h.value, EntryValue::Simple("Hello".to_string()));
    assert_eq!(h.comments.len(), 1);
    assert_eq!(h.comments[0].text, "greeting");
    let b = res.entries.get("bye").unwrap();
    assert_eq!(b.value, EntryValue::Simple("Bye, now".to_string()));
    assert!(b.comments.is_empty());
}

#[test]
fn csv_parse_fallback_columns_and_tabs() {
    let res = parse_csv(b"label\tfoo\na\tb\n", ".csv").expect("parse");
    match &res.metadata.format_ext {
        Some(FormatExtension::Csv(x)) => {
            assert_eq!(x.delimiter, Some('\t'));
            assert_eq!(x.key_column.as_deref(), Some("label"));
            assert_eq!(x.value_column.as_deref(), Some("foo"));
        }
        _ => panic!("missing extension"),
    }
    assert_eq!(res.metadata.locale, None);
    assert_eq!(res.entries.get("a").unwrap().value, EntryValue::Simple("b".to_string()));
}

#[test]
fn csv_parse_errors() {
    assert!(Parser.parse(b"").is_err());
    assert!(Parser.parse(b"key\na\n").is_err());
    assert!(Parser.parse(&[0xff, 0x00]).is_err());
}

#[test]
fn csv_roundtrip() {
    let res = Parser.parse(b"id,de,notes\na,\"x \"\"q\"\"\",n1\nb,y,\n").expect("parse");
    let out = Writer.write(&res).expect("write");
    assert_eq!(String::from_utf8(out.clone()).unwrap(), "id,de,comment\na,\"x \"\"q\"\"\",n1\nb,y,\n");
    let again = Parser.parse(&out).expect("reparse");
    assert_eq!(again.entries.len(), 2);
    assert_eq!(again.entries.get("a").unwrap().value, EntryValue::Simple("x \"q\"".to_string()));
}
