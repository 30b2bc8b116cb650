use i18n_convert::formats::stringsdict::{derive_var_name, extract_variable_names, infer_format_specifier, Parser, Writer};
use i18n_convert::formats::{Confidence, ParseError};
use i18n_convert::ir::{EntryValue, FormatId, I18nEntry, I18nResource, PluralSet, ResourceMetadata};
use indexmap::IndexMap;

#[test]
fn test_extract_variable_names_single() {
    let names = extract_variable_names("%#@items@");
    assert_eq!(names, vec!["items"]);
}

#[test]
fn test_extract_variable_names_multi() {
    let names = extract_variable_names("%#@files@ in %#@folders@");
    assert_eq!(names, vec!["files", "folders"]);
}

#[test]
fn test_extract_variable_names_none() {
    let names = extract_variable_names("Hello world");
    assert!(names.is_empty());
}

#[test]
fn test_extract_variable_names_with_text_around() {
    let names = extract_variable_names("You have %#@count@ new %#@type@.");
    assert_eq!(names, vec!["count", "type"]);
}

#[test]
fn test_infer_format_specifier_integer() {
    let ps = PluralSet { one: Some("%d item".to_string()), other: "%d items".to_string(), ..Default::default() };
    assert_eq!(infer_format_specifier(&ps), "d");
}

#[test]
fn test_infer_format_specifier_long_long() {
    let ps = PluralSet { one: Some("%lld item".to_string()), other: "%lld items".to_string(), ..Default::default() };
    assert_eq!(infer_format_specifier(&ps), "lld");
}

#[test]
fn test_infer_format_specifier_string() {
    let ps = PluralSet { other: "Hello %@".to_string(), ..Default::default() };
    assert_eq!(infer_format_specifier(&ps), "@");
}

#[test]
fn test_infer_format_specifier_default() {
    let ps = PluralSet { other: "No format here".to_string(), ..Default::default() };
    assert_eq!(infer_format_specifier(&ps), "d");
}

#[test]
fn test_detect_stringsdict_extension() {
    let parser = Parser;
    assert_eq!(parser.detect(".stringsdict", b""), Confidence::Definite);
}

#[test]
fn test_detect_plist_with_content() {
    let parser = Parser;
    let content = b"<plist><dict><key>NSStringLocalizedFormatKey</key></dict></plist>";
    assert_eq!(parser.detect(".plist", content), Confidence::Definite);
}

#[test]
fn test_detect_unrelated() {
    let parser = Parser;
    assert_eq!(parser.detect(".json", b"{}"), Confidence::NoMatch);
}

#[test]
fn stringsdict_unclosed_reference_ends_search() {
    assert_eq!(extract_variable_names("%#@a@ %#@b"), vec!["a"]);
    assert_eq!(derive_var_name("key"), "key");
}

#[test]
fn stringsdict_specifier_skips_references() {
    let ps = PluralSet { one: Some("%#@x@".to_string()), other: "%% then %f".to_string(), ..Default::default() };
    assert_eq!(infer_format_specifier(&ps), "d");
}

const SD: &str = r#"<?xml version="1.0" encoding="UTF-8"?>
<!DOCTYPE plist PUBLIC "-//Apple//DTD PLIST 1.0//EN" "http://www.apple.com/DTDs/PropertyList-1.0.dtd">
<plist version="1.0">
<dict>
    <key>items_count</key>
    <dict>
        <key>NSStringLocalizedFormatKey</key>
        <string>%#@items@</string>
        <key>items</key>
        <dict>
            <key>NSStringFormatSpecTypeKey</key>
            <string>NSStringPluralRuleType</string>
            <key>NSStringFormatValueTypeKey</key>
            <string>d</string>
            <key>one</key>
            <string>%d item</string>
            <key>other</key>
            <string>%d items</string>
        </dict>
    </dict>
    <key>files_in_folders</key>
    <dict>
        <key>NSStringLocalizedFormatKey</key>
        <string>%#@files@ in %#@folders@</string>
        <key>files</key>
        <dict>
            <key>NSStringFormatSpecTypeKey</key>
            <string>NSStringPluralRuleType</string>
            <key>NSStringFormatValueTypeKey</key>
            <string>d</string>
            <key>one</key>
            <string>%d file</string>
            <key>other</key>
            <string>%d files</string>
        </dict>
        <key>folders</key>
        <dict>
            <key>NSStringFormatSpecTypeKey</key>
            <string>NSStringPluralRuleType</string>
            <key>other</key>
            <string>%d folders</string>
        </dict>
    </dict>
</dict>
</plist>"#;

#[test]
fn stringsdict_parse_single_and_multi() {
    let res = Parser.parse(SD.as_bytes()).unwrap();
    assert_eq!(res.metadata.source_format, FormatId::Stringsdict);
    match &res.entries["items_count"].value {
        EntryValue::Plural(ps) => {
            assert_eq!(ps.one.as_deref(), Some("%d item"));
            assert_eq!(ps.other, "%d items");
        }
        other => panic!("expected a plural, got {:?}", other),
    }
    match &res.entries["files_in_folders"].value {
        EntryValue::MultiVariablePlural(m) => {
            assert_eq!(m.pattern, "%#@files@ in %#@folders@");
            let names: Vec<&String> = m.variables.keys().collect();
            assert_eq!(names, vec!["files", "folders"]);
            assert_eq!(m.variables["files"].format_specifier.as_deref(), Some("d"));
            assert_eq!(m.variables["folders"].format_specifier, None);
            assert_eq!(m.variables["folders"].plural_set.other, "%d folders");
        }
        other => panic!("expected a multi-variable plural, got {:?}", other),
    }
}

#[test]
fn stringsdict_parse_errors() {
    assert!(matches!(Parser.parse(b"not xml"), Err(ParseError::Xml(_))));
    let missing = r#"<?xml version="1.0" encoding="UTF-8"?><plist version="1.0"><dict><key>a</key><dict><key>x</key><string>y</string></dict></dict></plist>"#;
    assert!(matches!(Parser.parse(missing.as_bytes()), Err(ParseError::InvalidFormat(_))));
    let not_dict = r#"<?xml version="1.0" encoding="UTF-8"?><plist version="1.0"><dict><key>a</key><string>y</string></dict></plist>"#;
    assert!(matches!(Parser.parse(not_dict.as_bytes()), Err(ParseError::InvalidFormat(_))));
    let bad_rule = r#"<?xml version="1.0" encoding="UTF-8"?><plist version="1.0"><dict><key>a</key><dict><key>NSStringLocalizedFormatKey</key><string>%#@v@</string><key>v</key><dict><key>NSStringFormatSpecTypeKey</key><string>Other</string></dict></dict></dict></plist>"#;
    assert!(matches!(Parser.parse(bad_rule.as_bytes()), Err(ParseError::InvalidFormat(_))));
}

#[test]
fn stringsdict_write_then_parse() {
    let mut entries = IndexMap::new();
    let ps = PluralSet { one: Some("%lld apple".to_string()), other: "%lld apples".to_string(), ..Default::default() };
    entries.insert("apples".to_string(), I18nEntry { key: "apples".to_string(), value: EntryValue::Plural(ps), ..Default::default() });
    entries.insert("hello".to_string(), I18nEntry { key: "hello".to_string(), value: EntryValue::Simple("Hello".to_string()), ..Default::default() });
    entries.insert("list".to_string(), I18nEntry { key: "list".to_string(), value: EntryValue::Array(vec!["a".to_string()]), ..Default::default() });
    let res = I18nResource { metadata: ResourceMetadata::default(), entries };
    let out = Writer.write(&res).unwrap();
    let text = String::from_utf8(out.clone()).unwrap();
    assert!(text.contains("<string>%#@apples@</string>"));
    assert!(text.contains("<string>lld</string>"));
    assert!(!text.contains("<key>list</key>"));
    let back = Parser.parse(&out).unwrap();
    match &back.entries["apples"].value {
        EntryValue::Plural(p) => assert_eq!(p.other, "%lld apples"),
        other => panic!("expected a plural, got {:?}", other),
    }
    match &back.entries["hello"].value {
        EntryValue::MultiVariablePlural(m) => assert_eq!(m.pattern, "Hello"),
        other => panic!("expected a multi-variable plural, got {:?}", other),
    }
}
