use i18n_convert::formats::xliff2::{Parser, Writer};
use i18n_convert::formats::{Confidence, ParseError};
use i18n_convert::ir::{CommentRole, EntryValue, FormatExtension, FormatId, TranslationState};

const SAMPLE: &str = r#"<?xml version="1.0" encoding="UTF-8"?>
<xliff xmlns="urn:oasis:names:tc:xliff:document:2.0" version="2.0" srcLang="en" trgLang="de">
  <file id="f1" original="app.json">
    <unit id="greeting">
      <notes>
        <note category="description" priority="2">Shown at start</note>
      </notes>
      <segment state="translated">
        <source>Hello</source>
        <target>Hallo</target>
      </segment>
    </unit>
    <group id="g">
      <unit id="bye">
        <segment>
          <source>Bye</source>
        </segment>
      </unit>
    </group>
  </file>
</xliff>
"#;

#[test]
fn xliff2_detect() {
    assert_eq!(Parser.detect(".xlf", SAMPLE.as_bytes()), Confidence::Definite);
    assert_eq!(Parser.detect(".xlf", b"<xliff version=\"1.2\"/>"), Confidence::Low);
    assert_eq!(Parser.detect(".json", b"{}"), Confidence::NoMatch);
}

#[test]
fn xliff2_parse() {
    let res = Parser.parse(SAMPLE.as_bytes()).unwrap();
    assert_eq!(res.metadata.source_format, FormatId::Xliff2);
    assert_eq!(res.metadata.source_locale.as_deref(), Some("en"));
    assert_eq!(res.metadata.locale.as_deref(), Some("de"));
    match &res.metadata.format_ext {
        Some(FormatExtension::Xliff2(x)) => assert_eq!(x.original_data["original"], "app.json"),
        _ => panic!("missing XLIFF 2.0 extension"),
    }
    let g = &res.entries["greeting"];
    assert_eq!(g.value, EntryValue::Simple("Hallo".to_string()));
    assert_eq!(g.source.as_deref(), Some("Hello"));
    assert_eq!(g.state, Some(TranslationState::Translated));
    assert_eq!(g.comments[0].text, "Shown at start");
    assert_eq!(g.comments[0].role, CommentRole::Developer);
    assert_eq!(g.comments[0].priority, Some(2));
    let b = &res.entries["bye"];
    assert_eq!(b.value, EntryValue::Simple(String::new()));
    assert_eq!(b.source.as_deref(), Some("Bye"));
}

#[test]
fn xliff2_parse_malformed_is_xml_error() {
    assert!(matches!(Parser.parse(b"<xliff><file></xliff>"), Err(ParseError::Xml(_))));
}

#[test]
fn xliff2_roundtrip() {
    let res = Parser.parse(SAMPLE.as_bytes()).unwrap();
    let out = Writer.write(&res).unwrap();
    let again = Parser.parse(&out).unwrap();
    assert_eq!(again.entries, res.entries);
    assert_eq!(again.metadata.locale, res.metadata.locale);
    assert_eq!(again.metadata.source_locale, res.metadata.source_locale);
}
