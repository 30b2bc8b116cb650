use i18n_convert::formats::markdown::{heading_to_key, Parser, Writer};
use i18n_convert::formats::{Confidence, ParseError};
use i18n_convert::ir::{EntryValue, FormatExtension, FormatId, I18nEntry, I18nResource, ResourceMetadata};

#[test]
fn markdown_heading_to_key_examples() {
    assert_eq!(heading_to_key("Getting Started"), "getting-started");
    assert_eq!(heading_to_key("How do I reset my password?"), "how-do-i-reset-my-password");
    assert_eq!(heading_to_key("  snake_case  and--dashes "), "snake-case-and-dashes");
}

#[test]
fn markdown_detect() {
    assert_eq!(Parser.detect(".md", b"# Title\n"), Confidence::High);
    assert_eq!(Parser.detect(".MARKDOWN", b"text\n# Title\n"), Confidence::High);
    assert_eq!(Parser.detect(".md", b"---\nlocale: en\n---\n"), Confidence::High);
    assert_eq!(Parser.detect(".md", b"plain text"), Confidence::Low);
    assert_eq!(Parser.detect(".txt", b"# Title\n"), Confidence::NoMatch);
}

#[test]
fn markdown_parse_nested_headings() {
    let text = "# Getting Started\n\nWelcome.\n\n## Install\n\nRun it.\nThen go.\n\n\nDone.\n\n# FAQ\n\n## How do I reset my password?\n\nClick reset.\n";
    let res = Parser.parse(text.as_bytes()).unwrap();
    assert_eq!(res.metadata.source_format, FormatId::Markdown);
    let keys: Vec<&str> = res.entries.keys().map(|k| k.as_str()).collect();
    assert_eq!(
        keys,
        vec!["getting-started", "getting-started.install", "faq.how-do-i-reset-my-password"]
    );
    assert_eq!(res.entries["getting-started"].value, EntryValue::Simple("Welcome.".to_string()));
    assert_eq!(
        res.entries["getting-started.install"].value,
        EntryValue::Simple("Run it.\nThen go.\n\nDone.".to_string())
    );
    assert_eq!(
        res.entries["faq.how-do-i-reset-my-password"].value,
        EntryValue::Simple("Click reset.".to_string())
    );
}

#[test]
fn markdown_parse_front_matter_and_locale() {
    let text = "---\ntitle: Help\nlocale:  de \n---\n# Hallo\n\nWelt\n";
    let res = Parser.parse(text.as_bytes()).unwrap();
    assert_eq!(res.metadata.locale.as_deref(), Some("de"));
    match &res.metadata.format_ext {
        Some(FormatExtension::Markdown(x)) => {
            assert_eq!(x.front_matter.as_deref(), Some("title: Help\nlocale:  de"));
        }
        _ => panic!("missing Markdown extension"),
    }
    assert_eq!(res.entries["hallo"].value, EntryValue::Simple("Welt".to_string()));
}

#[test]
fn markdown_parse_not_a_heading() {
    let text = "#Title\n# Real\nbody\n";
    let res = Parser.parse(text.as_bytes()).unwrap();
    // Lines before the first heading stay with the first section.
    assert_eq!(res.entries.len(), 1);
    assert_eq!(res.entries["real"].value, EntryValue::Simple("#Title\nbody".to_string()));
}

#[test]
fn markdown_parse_invalid_utf8() {
    assert!(matches!(Parser.parse(&[0xc3, 0x28]), Err(ParseError::InvalidFormat(_))));
}

#[test]
fn markdown_write_with_intermediate_headings() {
    let mut entries = indexmap::IndexMap::new();
    entries.insert(
        "getting-started.install".to_string(),
        I18nEntry::with_value("getting-started.install".to_string(), EntryValue::Simple("Run it.".to_string())),
    );
    entries.insert(
        "getting-started.usage".to_string(),
        I18nEntry::with_value("getting-started.usage".to_string(), EntryValue::Simple("Use it.".to_string())),
    );
    let res = I18nResource { metadata: ResourceMetadata::for_format(FormatId::Markdown), entries };
    let out = String::from_utf8(Writer.write(&res).unwrap()).unwrap();
    assert_eq!(
        out,
        "# Getting Started\n\n## Install\n\nRun it.\n\n## Usage\n\nUse it.\n"
    );
}

#[test]
fn markdown_roundtrip_with_front_matter() {
    let text = "---\nlocale: en\n---\n\n# Title\n\nBody text.\n";
    let res = Parser.parse(text.as_bytes()).unwrap();
    let out = String::from_utf8(Writer.write(&res).unwrap()).unwrap();
    assert_eq!(out, text);
}
