use i18n_convert::formats::excel::{detect_column_role, excel_cells, is_locale_code, ColumnRole, Parser, Writer};
use i18n_convert::formats::{Confidence, ParseError};
use i18n_convert::ir::{Comment, CommentRole, EntryValue, FormatExtension, FormatId, I18nEntry, I18nResource, ResourceMetadata};
use indexmap::IndexMap;

#[test]
fn excel_column_roles() {
    assert_eq!(detect_column_role(" Key "), Some(ColumnRole::Key));
    assert_eq!(detect_column_role("Translation"), Some(ColumnRole::Value));
    assert_eq!(detect_column_role("NOTES"), Some(ColumnRole::Comment));
    assert_eq!(detect_column_role("en-US"), Some(ColumnRole::Value));
    assert_eq!(detect_column_role("zh-Hans"), Some(ColumnRole::Value));
    assert_eq!(detect_column_role("status"), None);
}

#[test]
fn excel_locale_codes() {
    assert!(is_locale_code("en"));
    assert!(is_locale_code("pt-br"));
    assert!(is_locale_code("zh-hans"));
    assert!(!is_locale_code("eng"));
    assert!(!is_locale_code("en-b"));
    assert!(!is_locale_code("en-us-x"));
    assert!(!is_locale_code("EN"));
}

#[test]
fn excel_detect_extension() {
    assert_eq!(Parser.detect(".XLSX", b""), Confidence::Definite);
    assert_eq!(Parser.detect(".xls", b""), Confidence::Definite);
    assert_eq!(Parser.detect(".txt", b"hello world"), Confidence::NoMatch);
}

fn sample() -> I18nResource {
    let mut entries = IndexMap::new();
    let note = Comment { text: "greeting".to_string(), role: CommentRole::General, priority: None, annotates: None };
    entries.insert("hello".to_string(), I18nEntry { key: "hello".to_string(), value: EntryValue::Simple("Hello".to_string()), comments: vec![note], ..Default::default() });
    entries.insert("bye".to_string(), I18nEntry { key: "bye".to_string(), value: EntryValue::Simple("Bye".to_string()), ..Default::default() });
    I18nResource { metadata: ResourceMetadata::default(), entries }
}

#[test]
fn excel_cells_of_resource() {
    let cells = excel_cells(&sample());
    let expected: Vec<(u32, u16, String)> = vec![
        (0, 0, "key".into()), (0, 1, "value".into()), (0, 2, "comment".into()),
        (1, 0, "hello".into()), (1, 1, "Hello".into()), (1, 2, "greeting".into()),
        (2, 0, "bye".into()), (2, 1, "Bye".into()),
    ];
    assert_eq!(cells, expected);
}

#[test]
fn excel_write_then_parse() {
    let mut res = sample();
    res.metadata.format_ext = Some(FormatExtension::Excel(i18n_convert::ir::ExcelExt { sheet_name: Some("Strings".to_string()), key_column: None, value_column: None }));
    let bytes = Writer.write(&res).unwrap();
    assert_eq!(Parser.detect(".bin", &bytes), Confidence::High);
    let back = Parser.parse(&bytes).unwrap();
    assert_eq!(back.metadata.source_format, FormatId::Excel);
    match &back.metadata.format_ext {
        Some(FormatExtension::Excel(x)) => {
            assert_eq!(x.sheet_name.as_deref(), Some("Strings"));
            assert_eq!(x.key_column, Some(0));
            assert_eq!(x.value_column, Some(1));
        }
        other => panic!("unexpected extension {:?}", other),
    }
    assert_eq!(back.entries["hello"].value, EntryValue::Simple("Hello".to_string()));
    assert_eq!(back.entries["hello"].comments[0].text, "greeting");
    assert_eq!(back.entries["bye"].value, EntryValue::Simple("Bye".to_string()));
    assert!(back.entries["bye"].comments.is_empty());
}

#[test]
fn excel_parse_not_a_workbook() {
    assert!(matches!(Parser.parse(b"not a workbook"), Err(ParseError::InvalidFormat(_))));
}
