use i18n_convert::detect::{detect_best, detect_format};
use i18n_convert::formats::{Confidence, FormatRegistry};

#[test]
fn detect_android_xml_file() {
    let registry = FormatRegistry::new();
    let path = "strings.xml";
    let content: &[u8] = br#"<?xml version="1.0"?><resources><string name="a">b</string></resources>"#;
    let result = detect_best(&registry, path, content);
    assert_eq!(result, Some("android-xml"));
}

#[test]
fn detect_xliff_file() {
    let registry = FormatRegistry::new();
    let path = "translations.xliff";
    let content: &[u8] = br#"<?xml version="1.0"?><xliff version="1.2"><file></file></xliff>"#;
    let result = detect_best(&registry, path, content);
    assert_eq!(result, Some("xliff"));
}

#[test]
fn detect_arb_file() {
    let registry = FormatRegistry::new();
    let path = "app_en.arb";
    let content: &[u8] = br#"{"@@locale": "en", "greeting": "Hello"}"#;
    let result = detect_best(&registry, path, content);
    assert_eq!(result, Some("arb"));
}

#[test]
fn detect_po_file() {
    let registry = FormatRegistry::new();
    let path = "messages.po";
    let content: &[u8] = b"msgid \"\"\nmsgstr \"\"\n\nmsgid \"hello\"\nmsgstr \"world\"\n";
    let result = detect_best(&registry, path, content);
    assert_eq!(result, Some("po"));
}

#[test]
fn detect_unknown_file() {
    let registry = FormatRegistry::new();
    let path = "unknown.xyz";
    let result = detect_best(&registry, path, b"random content");
    assert_eq!(result, None);
}

#[test]
fn detect_xcstrings_file() {
    let registry = FormatRegistry::new();
    let path = "Localizable.xcstrings";
    let content: &[u8] = br#"{"sourceLanguage": "en", "strings": {}}"#;
    let result = detect_best(&registry, path, content);
    assert_eq!(result, Some("xcstrings"));
}

#[test]
fn detect_ios_strings_file() {
    let registry = FormatRegistry::new();
    let path = "Localizable.strings";
    let content: &[u8] = br#""key" = "value";"#;
    let result = detect_best(&registry, path, content);
    assert_eq!(result, Some("ios-strings"));
}

#[test]
fn detect_stringsdict_file() {
    let registry = FormatRegistry::new();
    let path = "Localizable.stringsdict";
    let content: &[u8] = b"<?xml version=\"1.0\"?><plist></plist>";
    let result = detect_best(&registry, path, content);
    assert_eq!(result, Some("stringsdict"));
}

#[test]
fn detect_yaml_rails_file() {
    let registry = FormatRegistry::new();
    let path = "en.yml";
    let content: &[u8] = b"en:\n  greeting: Hello\n";
    let result = detect_best(&registry, path, content);
    assert_eq!(result, Some("yaml-rails"));
}

#[test]
fn detect_xml_with_xliff_content_not_android() {
    let registry = FormatRegistry::new();
    let path = "file.xml";
    let content: &[u8] = br#"<?xml version="1.0"?><xliff version="1.2"><file></file></xliff>"#;
    let results = detect_format(&registry, path, content);
    // XLIFF should rank higher than android-xml for XML with <xliff> content
    assert_eq!(results[0].0, "xliff");
    assert_eq!(results[0].1, Confidence::Definite);
}

#[test]
fn detect_plain_json_as_high() {
    let registry = FormatRegistry::new();
    let path = "en.json";
    let content: &[u8] = br#"{"greeting": "Hello", "farewell": "Goodbye"}"#;
    let result = detect_best(&registry, path, content);
    assert_eq!(result, Some("json"));
    let results = detect_format(&registry, path, content);
    assert_eq!(results[0].1, Confidence::High);
}

#[test]
fn detect_i18next_json_definite_with_plural_pairs() {
    let registry = FormatRegistry::new();
    let path = "en.json";
    let content: &[u8] = br#"{"item_one": "{{count}} item", "item_other": "{{count}} items", "dog_one": "{{count}} dog", "dog_other": "{{count}} dogs"}"#;
    let result = detect_best(&registry, path, content);
    assert_eq!(result, Some("i18next"));
    let results = detect_format(&registry, path, content);
    assert_eq!(results[0].1, Confidence::Definite);
}

#[test]
fn detect_i18next_json_high_with_single_pair() {
    let registry = FormatRegistry::new();
    let path = "en.json";
    let content: &[u8] = br#"{"item_one": "{{count}} item", "item_other": "{{count}} items", "greeting": "Hello"}"#;
    let result = detect_best(&registry, path, content);
    assert_eq!(result, Some("i18next"));
    let results = detect_format(&registry, path, content);
    assert_eq!(results[0].1, Confidence::High);
}

#[test]
fn detect_json_not_confused_by_other_suffix_in_values() {
    let registry = FormatRegistry::new();
    let path = "en.json";
    // Values contain "_one" and "_other" but keys don't have plural pairs
    let content: &[u8] = br#"{"message": "buy_one get_other free"}"#;
    let result = detect_best(&registry, path, content);
    assert_eq!(result, Some("json"));
}

#[test]
fn detect_valid_json_not_hjson() {
    let registry = FormatRegistry::new();
    let path = "en.json";
    // Valid JSON with "# " in a value should NOT match as HJSON
    let content: &[u8] = br#"{"comment": "see section # 3 for details"}"#;
    let results = detect_format(&registry, path, content);
    for (id, _) in &results {
        assert_ne!(*id, "hjson");
    }
}

#[test]
fn detect_i18next_nested_plural_pairs() {
    let registry = FormatRegistry::new();
    let path = "translation.json";
    let content: &[u8] = br#"{"common": {"item_one": "{{count}} item", "item_other": "{{count}} items"}, "nav": {"home": "Home"}}"#;
    let result = detect_best(&registry, path, content);
    assert_eq!(result, Some("i18next"));
}

#[test]
fn registry_lists_all_formats() {
    let registry = FormatRegistry::new();
    let ids: Vec<&str> = registry.list().iter().map(|e| e.id).collect();
    assert_eq!(ids.len(), 32);
    for id in ["android-xml", "xcstrings", "ios-strings", "stringsdict", "ios-plist", "arb", "qt", "json", "i18next", "json5", "hjson", "yaml-rails", "yaml-plain", "javascript", "typescript", "php-laravel", "neon", "xliff", "xliff2", "po", "tmx", "resx", "java-properties", "csv", "excel", "toml", "ini", "srt", "markdown", "plain-text", "ispring-xliff", "captivate-xml"] {
        assert!(registry.get(id).is_some(), "{id} missing");
    }
    assert_eq!(registry.get("csv").unwrap().name, "CSV");
}

#[test]
fn detect_captivate_xml() {
    let registry = FormatRegistry::new();
    let content: &[u8] = br#"<?xml version="1.0"?><xliff version="1.2"><file original="Adobe Captivate"><body><trans-unit id="slide_1_item_2"></trans-unit></body></file></xliff>"#;
    let results = detect_format(&registry, "course.xml", content);
    assert!(results.iter().any(|(id, c)| *id == "captivate-xml" && *c == Confidence::Definite));
}
