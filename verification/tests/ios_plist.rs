use i18n_convert::formats::ios_plist::{Parser, Writer};
use i18n_convert::formats::{Confidence, FormatParser, FormatWriter, ParseError};
use i18n_convert::ir::{EntryValue, FormatExtension, FormatId, I18nEntry, I18nResource, ResourceMetadata};
use indexmap::IndexMap;

const SAMPLE: &str = r#"<?xml version="1.0" encoding="UTF-8"?>
<!DOCTYPE plist PUBLIC "-//Apple//DTD PLIST 1.0//EN" "http://www.apple.com/DTDs/PropertyList-1.0.dtd">
<plist version="1.0">
<dict>
    <key>greeting</key>
    <string>Hello</string>
    <key>menu</key>
    <dict>
        <key>file</key>
        <string>File</string>
    </dict>
    <key>days</key>
    <array>
        <string>Mon</string>
        <string>Tue</string>
    </array>
    <key>mixed</key>
    <array>
        <string>a</string>
        <integer>1</integer>
    </array>
    <key>empty</key>
    <array/>
    <key>count</key>
    <integer>3</integer>
</dict>
</plist>"#;

#[test]
fn plist_detect() {
    assert_eq!(Parser.detect(".plist", SAMPLE.as_bytes()), Confidence::Definite);
    assert_eq!(Parser.detect(".xml", SAMPLE.as_bytes()), Confidence::High);
    assert_eq!(Parser.detect(".xml", b"<resources/>"), Confidence::NoMatch);
    assert_eq!(Parser.detect(".plist", b"<key>NSStringLocalizedFormatKey</key>"), Confidence::NoMatch);
}

#[test]
fn plist_parse_strings_dicts_arrays() {
    let res = Parser.parse(SAMPLE.as_bytes()).unwrap();
    assert_eq!(res.metadata.source_format, FormatId::IosPlist);
    match &res.metadata.format_ext {
        Some(FormatExtension::IosPlist(x)) => assert_eq!(x.plist_format.as_deref(), Some("xml1")),
        other => panic!("unexpected extension {:?}", other),
    }
    let keys: Vec<&String> = res.entries.keys().collect();
    assert_eq!(keys, vec!["greeting", "menu.file", "days"]);
    assert_eq!(res.entries["greeting"].value, EntryValue::Simple("Hello".to_string()));
    assert_eq!(res.entries["menu.file"].value, EntryValue::Simple("File".to_string()));
    assert_eq!(res.entries["days"].value, EntryValue::Array(vec!["Mon".to_string(), "Tue".to_string()]));
}

#[test]
fn plist_parse_errors() {
    assert!(matches!(Parser.parse(b"not a plist"), Err(ParseError::InvalidFormat(_))));
    let array_root = r#"<?xml version="1.0" encoding="UTF-8"?><plist version="1.0"><array><string>a</string></array></plist>"#;
    assert!(matches!(Parser.parse(array_root.as_bytes()), Err(ParseError::InvalidFormat(_))));
}

#[test]
fn plist_write_and_read_back() {
    let mut entries = IndexMap::new();
    for (k, v) in [
        ("title", EntryValue::Simple("Hi".to_string())),
        ("menu.open", EntryValue::Simple("Open".to_string())),
        ("list", EntryValue::Array(vec!["x".to_string(), "y".to_string()])),
    ] {
        entries.insert(k.to_string(), I18nEntry { key: k.to_string(), value: v, ..Default::default() });
    }
    let res = I18nResource { metadata: ResourceMetadata::default(), entries };
    let out = Writer.write(&res).unwrap();
    let text = String::from_utf8(out.clone()).unwrap();
    assert!(text.contains("<key>menu</key>"));
    assert!(text.contains("<string>Open</string>"));
    let back = Parser.parse(&out).unwrap();
    let keys: Vec<&String> = back.entries.keys().collect();
    assert_eq!(keys, vec!["title", "menu.open", "list"]);
    assert_eq!(back.entries["list"].value, EntryValue::Array(vec!["x".to_string(), "y".to_string()]));
}

#[test]
fn plist_through_format_traits() {
    let parser: &dyn FormatParser = &Parser;
    let writer: &dyn FormatWriter = &Writer;
    assert_eq!(parser.detect(".plist", b""), Confidence::Definite);
    assert!(parser.capabilities().nested_keys);
    assert!(writer.capabilities().arrays);
    let res = parser.parse(SAMPLE.as_bytes()).unwrap();
    assert!(writer.write(&res).is_ok());
}
