use i18n_convert::formats::resx::{Parser, Writer};
use i18n_convert::formats::{Confidence, ParseError};
use i18n_convert::ir::{CommentRole, EntryValue, FormatExtension, FormatId};

const SAMPLE: &str = r#"<?xml version="1.0" encoding="utf-8"?>
<root>
  <xsd:schema id="root" xmlns:xsd="http://www.w3.org/2001/XMLSchema">
    <xsd:element name="root"><xsd:complexType /></xsd:element>
  </xsd:schema>
  <resheader name="resmimetype">
    <value>text/microsoft-resx</value>
  </resheader>
  <resheader name="version">
    <value> 2.0 </value>
  </resheader>
  <data name="Greeting" xml:space="preserve">
    <value>Hello &amp; welcome</value>
    <comment>  Shown on start  </comment>
  </data>
  <data name="Icon" type="System.Drawing.Bitmap" mimetype="application/x-microsoft.net.object.bytearray.base64">
    <value>AAAA</value>
  </data>
  <data name="Empty" />
</root>
"#;

#[test]
fn resx_detect() {
    assert_eq!(Parser.detect(".resx", b""), Confidence::Definite);
    assert_eq!(Parser.detect(".xml", SAMPLE.as_bytes()), Confidence::High);
    assert_eq!(Parser.detect(".xml", b"<resources/>"), Confidence::NoMatch);
    assert_eq!(Parser.detect(".json", SAMPLE.as_bytes()), Confidence::NoMatch);
}

#[test]
fn resx_parse() {
    let res = Parser.parse(SAMPLE.as_bytes()).unwrap();
    assert_eq!(res.metadata.source_format, FormatId::Resx);
    assert_eq!(res.metadata.headers["resmimetype"], "text/microsoft-resx");
    assert_eq!(res.metadata.headers["version"], "2.0");
    let keys: Vec<&str> = res.entries.keys().map(|k| k.as_str()).collect();
    assert_eq!(keys, vec!["Greeting", "Icon", "Empty"]);
    let g = &res.entries["Greeting"];
    assert_eq!(g.value, EntryValue::Simple("Hello & welcome".to_string()));
    assert_eq!(g.comments.len(), 1);
    assert_eq!(g.comments[0].text, "Shown on start");
    assert_eq!(g.comments[0].role, CommentRole::Developer);
    assert!(g.format_ext.is_none());
    match &res.entries["Icon"].format_ext {
        Some(FormatExtension::Resx(x)) => {
            assert_eq!(x.type_attr.as_deref(), Some("System.Drawing.Bitmap"));
            assert_eq!(x.mimetype.as_deref(), Some("application/x-microsoft.net.object.bytearray.base64"));
        }
        _ => panic!("missing RESX extension"),
    }
    assert_eq!(res.entries["Empty"].value, EntryValue::Simple(String::new()));
}

#[test]
fn resx_parse_malformed_is_xml_error() {
    assert!(matches!(Parser.parse(b"<root><data name=\"a\"></root>"), Err(ParseError::Xml(_))));
}

#[test]
fn resx_roundtrip() {
    let res = Parser.parse(SAMPLE.as_bytes()).unwrap();
    let out = Writer.write(&res).unwrap();
    let text = String::from_utf8(out.clone()).unwrap();
    assert!(text.starts_with("<?xml version=\"1.0\" encoding=\"utf-8\"?>"));
    assert!(text.contains("<data name=\"Greeting\" xml:space=\"preserve\">"));
    assert!(text.contains("<comment>Shown on start</comment>"));
    let again = Parser.parse(&out).unwrap();
    assert_eq!(again.entries["Greeting"].value, res.entries["Greeting"].value);
    assert_eq!(again.entries["Greeting"].comments[0].text, "Shown on start");
    assert_eq!(again.entries["Icon"].format_ext, res.entries["Icon"].format_ext);
    assert_eq!(again.metadata.headers, res.metadata.headers);
}
