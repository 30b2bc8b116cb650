use i18n_convert::formats::tmx::{Parser, Writer};
use i18n_convert::formats::{Confidence, ParseError};
use i18n_convert::ir::{EntryValue, FormatExtension, FormatId};

const SAMPLE: &str = r#"<?xml version="1.0" encoding="UTF-8"?>
<tmx version="1.4">
  <header creationtool="Tool" creationtoolversion="2.1" segtype="sentence" o-tmf="xliff" adminlang="en-US" srclang="en" datatype="plaintext"/>
  <body>
    <tu tuid="greeting" changedate="20240101T000000Z" changeid="anna">
      <note>Shown at start</note>
      <prop type="x-domain">ui</prop>
      <tuv xml:lang="en"><seg>Hello</seg></tuv>
      <tuv xml:lang="de"><seg>Hallo</seg></tuv>
    </tu>
    <tu>
      <tuv xml:lang="en"><seg>Bye</seg></tuv>
      <tuv lang="de"><seg>Tschüss</seg></tuv>
    </tu>
    <tu>
      <tuv xml:lang="fr"><seg>Salut</seg></tuv>
    </tu>
  </body>
</tmx>
"#;

#[test]
fn tmx_detect() {
    assert_eq!(Parser.detect(".tmx", b""), Confidence::Definite);
    assert_eq!(Parser.detect(".xml", SAMPLE.as_bytes()), Confidence::High);
    assert_eq!(Parser.detect(".xml", b"<root/>"), Confidence::NoMatch);
}

#[test]
fn tmx_parse() {
    let res = Parser.parse(SAMPLE.as_bytes()).unwrap();
    assert_eq!(res.metadata.source_format, FormatId::Tmx);
    assert_eq!(res.metadata.source_locale.as_deref(), Some("en"));
    assert_eq!(res.metadata.locale.as_deref(), Some("de"));
    assert_eq!(res.metadata.tool_name.as_deref(), Some("Tool"));
    assert_eq!(res.metadata.headers["adminlang"], "en-US");
    match &res.metadata.format_ext {
        Some(FormatExtension::Tmx(x)) => {
            assert_eq!(x.seg_type.as_deref(), Some("sentence"));
            assert_eq!(x.o_tmf.as_deref(), Some("xliff"));
        }
        _ => panic!("missing TMX extension"),
    }
    let keys: Vec<&str> = res.entries.keys().map(|k| k.as_str()).collect();
    assert_eq!(keys, vec!["greeting", "Bye", "entry_2"]);
    let g = &res.entries["greeting"];
    assert_eq!(g.value, EntryValue::Simple("Hallo".to_string()));
    assert_eq!(g.source.as_deref(), Some("Hello"));
    assert_eq!(g.comments[0].text, "Shown at start");
    assert_eq!(g.properties["x-domain"], "ui");
    assert_eq!(g.properties["changedate"], "20240101T000000Z");
    assert_eq!(g.properties["changeid"], "anna");
    assert_eq!(res.entries["Bye"].value, EntryValue::Simple("Tschüss".to_string()));
    assert_eq!(res.entries["entry_2"].value, EntryValue::Simple("Salut".to_string()));
    assert_eq!(res.entries["entry_2"].source, None);
}

#[test]
fn tmx_parse_malformed_is_xml_error() {
    assert!(matches!(Parser.parse(b"<tmx><body></tmx>"), Err(ParseError::Xml(_))));
}

#[test]
fn tmx_roundtrip() {
    let res = Parser.parse(SAMPLE.as_bytes()).unwrap();
    let out = Writer.write(&res).unwrap();
    let text = String::from_utf8(out.clone()).unwrap();
    assert!(text.contains("<tu tuid=\"greeting\" changedate=\"20240101T000000Z\" changeid=\"anna\">"));
    assert!(text.contains("<prop type=\"x-domain\">ui</prop>"));
    let again = Parser.parse(&out).unwrap();
    assert_eq!(again.entries["greeting"].value, res.entries["greeting"].value);
    assert_eq!(again.entries["greeting"].source, res.entries["greeting"].source);
    assert_eq!(again.entries["greeting"].properties, res.entries["greeting"].properties);
    assert_eq!(again.metadata.locale, res.metadata.locale);
}
