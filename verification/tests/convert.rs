use i18n_convert::convert::check_data_loss;
use i18n_convert::formats::csv_format;
use i18n_convert::ir::{EntryValue, FormatId, I18nEntry, I18nResource, PluralSet, ResourceMetadata, WarningSeverity};

fn plural_entry(k: &str) -> I18nEntry {
    let ps = PluralSet {
        zero: None,
        one: Some("one".to_string()),
        two: None,
        few: None,
        many: None,
        other: "other".to_string(),
        exact_matches: indexmap::IndexMap::new(),
        range_matches: Vec::new(),
        ordinal: false,
    };
    I18nEntry::with_value(k.to_string(), EntryValue::Plural(ps))
}

#[test]
fn data_loss_plurals_to_csv() {
    let mut entries = indexmap::IndexMap::new();
    for k in ["a", "b", "c"] {
        entries.insert(k.to_string(), plural_entry(k));
    }
    let res = I18nResource { metadata: ResourceMetadata::for_format(FormatId::Po), entries };
    let ws = check_data_loss(&res, &csv_format::Parser.capabilities(), "CSV");
    assert_eq!(ws.len(), 1);
    assert_eq!(ws[0].severity, WarningSeverity::Error);
    assert_eq!(ws[0].lost_attribute, "plurals");
    assert_eq!(ws[0].count, 3);
    assert_eq!(ws[0].affected_keys, vec!["a", "b", "c"]);
    assert_eq!(ws[0].message, "3 entries use plurals (not supported by CSV)");
}

#[test]
fn data_loss_none_when_supported() {
    let mut entries = indexmap::IndexMap::new();
    entries.insert("a".to_string(), I18nEntry::with_value("a".to_string(), EntryValue::Simple("x".to_string())));
    let res = I18nResource { metadata: ResourceMetadata::for_format(FormatId::Po), entries };
    assert!(check_data_loss(&res, &csv_format::Parser.capabilities(), "CSV").is_empty());
}
