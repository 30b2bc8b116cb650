use i18n_convert::formats::captivate_xml::{parse_slide_item_id, Parser, Writer};
use i18n_convert::formats::{Confidence, ParseError};
use i18n_convert::ir::{CommentRole, EntryValue, FormatExtension};

const SAMPLE: &str = r#"<?xml version="1.0" encoding="UTF-8"?>
<xliff version="1.2" xmlns="urn:oasis:names:tc:xliff:document:1.2">
  <file original="Course.cptx" source-language="en" target-language="de" datatype="plaintext">
    <header>
      <tool tool-id="captivate" tool-name="Adobe Captivate 12"/>
    </header>
    <body>
      <trans-unit id="slide_1_item_2" css-style="bold">
        <source>Hello <g id="1" ctype="bold">world</g></source>
        <target>Hallo <g id="1" ctype="bold">Welt</g></target>
        <note from="developer">Title text</note>
      </trans-unit>
      <trans-unit id="intro">
        <source>Welcome</source>
      </trans-unit>
    </body>
  </file>
</xliff>"#;

#[test]
fn captivate_detect() {
    assert_eq!(Parser.detect(".xml", SAMPLE.as_bytes()), Confidence::Definite);
    assert_eq!(Parser.detect(".xml", b"<a id=\"slide_3_item_4\"/>"), Confidence::Definite);
    assert_eq!(Parser.detect(".xml", b"<xliff/>"), Confidence::NoMatch);
    assert_eq!(Parser.detect(".xlf", SAMPLE.as_bytes()), Confidence::NoMatch);
}

#[test]
fn captivate_slide_item_ids() {
    assert_eq!(parse_slide_item_id("slide_12_item_3"), (Some("12".to_string()), Some("3".to_string())));
    assert_eq!(parse_slide_item_id("intro"), (None, None));
    assert_eq!(parse_slide_item_id("slide_1_item_2x"), (None, None));
}

#[test]
fn captivate_parse_sample() {
    let res = Parser.parse(SAMPLE.as_bytes()).unwrap();
    assert_eq!(res.metadata.locale.as_deref(), Some("de"));
    assert_eq!(res.metadata.source_locale.as_deref(), Some("en"));
    assert_eq!(res.metadata.tool_name.as_deref(), Some("Adobe Captivate 12"));
    assert_eq!(res.metadata.properties.get("original").map(|s| s.as_str()), Some("Course.cptx"));
    assert_eq!(res.entries.len(), 2);
    let e = &res.entries["slide_1_item_2"];
    assert_eq!(e.value, EntryValue::Simple("Hallo<g id=\"1\" ctype=\"bold\">Welt</g>".to_string()));
    assert_eq!(e.source.as_deref(), Some("Hello<g id=\"1\" ctype=\"bold\">world</g>"));
    assert_eq!(e.comments.len(), 1);
    assert_eq!(e.comments[0].text, "Title text");
    assert_eq!(e.comments[0].role, CommentRole::Developer);
    match &e.format_ext {
        Some(FormatExtension::CaptivateXml(x)) => {
            assert_eq!(x.slide_id.as_deref(), Some("1"));
            assert_eq!(x.item_id.as_deref(), Some("2"));
            assert_eq!(x.css_style.as_deref(), Some("bold"));
        }
        _ => panic!("missing extension"),
    }
    let intro = &res.entries["intro"];
    assert_eq!(intro.value, EntryValue::Simple("Welcome".to_string()));
    assert!(intro.format_ext.is_none());
}

#[test]
fn captivate_parse_error() {
    match Parser.parse(b"<xliff><file></xliff>") {
        Err(ParseError::Xml(_)) => {}
        other => panic!("expected an XML error, got {:?}", other.map(|r| r.entries.len())),
    }
}

#[test]
fn captivate_write_and_read_back() {
    let res = Parser.parse(SAMPLE.as_bytes()).unwrap();
    let out = String::from_utf8(Writer.write(&res).unwrap()).unwrap();
    assert!(out.starts_with("<?xml version=\"1.0\" encoding=\"UTF-8\"?>"));
    assert!(out.contains("<file original=\"Course.cptx\" source-language=\"en\" target-language=\"de\" datatype=\"plaintext\">"));
    assert!(out.contains("<tool tool-id=\"captivate\" tool-name=\"Adobe Captivate 12\"/>"));
    assert!(out.contains("<trans-unit id=\"slide_1_item_2\" css-style=\"bold\">"));
    assert!(out.contains("<g id=\"1\" ctype=\"bold\">world</g>"));
    assert!(out.contains("<note from=\"developer\">Title text</note>"));
    assert!(!out.contains("<target>Welcome</target>"));
    let back = Parser.parse(out.as_bytes()).unwrap();
    assert_eq!(back.entries.len(), 2);
    for (k, e) in res.entries.iter() {
        assert_eq!(back.entries[k].value, e.value);
        assert_eq!(back.entries[k].source, e.source);
    }
}

#[test]
fn captivate_write_default_original() {
    let res = Parser.parse(b"<xliff><file><body><trans-unit id=\"a\"><source>x</source></trans-unit></body></file></xliff>").unwrap();
    let out = String::from_utf8(Writer.write(&res).unwrap()).unwrap();
    assert!(out.contains("<file original=\"captivate_project\" datatype=\"plaintext\">"));
    assert!(out.contains("tool-name=\"Adobe Captivate\""));
}

#[test]
fn captivate_write_broken_markup_fails() {
    let mut res = Parser.parse(b"<xliff><file><body><trans-unit id=\"a\"><source>x</source></trans-unit></body></file></xliff>").unwrap();
    let e = res.entries.get_mut("a").unwrap();
    e.source = Some("<g>unclosed".to_string());
    assert!(Writer.write(&res).is_err());
}
