use i18n_convert::formats::android_xml::{contains_inline_xml, parse_translatable, xml_attr_escape, xml_escape, Parser, Writer};
use i18n_convert::formats::Confidence;
use i18n_convert::ir::{CommentRole, EntryValue, FormatExtension};

const SAMPLE: &str = r#"<?xml version="1.0" encoding="utf-8"?>
<resources xmlns:xliff="urn:oasis:names:tc:xliff:document:1.2">
    <!-- Greeting shown on start -->
    <string name="hello">Hello &amp; welcome</string>
    <string name="welcome" formatted="false">Hi <xliff:g id="user" example="Bob">%1$s</xliff:g>!</string>
    <string name="internal" translatable="false">x</string>
    <string name="empty" />
    <plurals name="items">
        <item quantity="one">%d item</item>
        <item quantity="other">%d items</item>
        <item quantity="bogus">ignored</item>
    </plurals>
    <string-array name="colors">
        <item>Red</item>
        <item>Green</item>
    </string-array>
</resources>
"#;

#[test]
fn android_escapes() {
    assert_eq!(xml_escape("a<b>&c"), "a&lt;b&gt;&amp;c");
    assert_eq!(xml_attr_escape("say \"hi\" & <go>"), "say &quot;hi&quot; &amp; &lt;go&gt;");
    assert!(contains_inline_xml("x <xliff:g id=\"a\">y</xliff:g>"));
    assert!(!contains_inline_xml("plain"));
    assert!(parse_translatable("true", "k"));
    assert!(!parse_translatable("false", "k"));
    assert!(parse_translatable("maybe", "k"));
}

#[test]
fn android_detect() {
    assert_eq!(Parser.detect(".xml", b"<resources></resources>"), Confidence::Definite);
    assert_eq!(Parser.detect(".xml", b"<other/>"), Confidence::Low);
    assert_eq!(Parser.detect(".json", b"<resources>"), Confidence::NoMatch);
}

#[test]
fn android_parse_sample() {
    let res = Parser.parse(SAMPLE.as_bytes()).expect("parse");
    assert_eq!(res.entries.len(), 6);
    let hello = res.entries.get("hello").unwrap();
    assert_eq!(hello.value, EntryValue::Simple("Hello & welcome".to_string()));
    assert_eq!(hello.comments.len(), 1);
    assert_eq!(hello.comments[0].text, "Greeting shown on start");
    assert_eq!(hello.comments[0].role, CommentRole::General);
    let welcome = res.entries.get("welcome").unwrap();
    assert_eq!(
        welcome.value,
        EntryValue::Simple("Hi <xliff:g id=\"user\" example=\"Bob\">%1$s</xliff:g>!".to_string())
    );
    assert_eq!(welcome.placeholders.len(), 1);
    assert_eq!(welcome.placeholders[0].name, "user");
    assert_eq!(welcome.placeholders[0].original_syntax, "%1$s");
    assert_eq!(welcome.placeholders[0].example.as_deref(), Some("Bob"));
    match &welcome.format_ext {
        Some(FormatExtension::AndroidXml(x)) => assert_eq!(x.formatted, Some(false)),
        _ => panic!("missing extension"),
    }
    assert!(welcome.comments.is_empty());
    assert_eq!(res.entries.get("internal").unwrap().translatable, Some(false));
    assert_eq!(res.entries.get("empty").unwrap().value, EntryValue::Simple(String::new()));
    match &res.entries.get("items").unwrap().value {
        EntryValue::Plural(p) => {
            assert_eq!(p.one.as_deref(), Some("%d item"));
            assert_eq!(p.other, "%d items");
            assert_eq!(p.few, None);
        }
        _ => panic!("expected plural"),
    }
    assert_eq!(
        res.entries.get("colors").unwrap().value,
        EntryValue::Array(vec!["Red".to_string(), "Green".to_string()])
    );
}

#[test]
fn android_missing_name_is_an_error() {
    let r = Parser.parse(b"<resources><string>x</string></resources>");
    assert!(r.is_err());
    let r = Parser.parse(b"<resources><plurals><item quantity=\"one\">a</item></plurals></resources>");
    assert!(r.is_err());
}

#[test]
fn android_unterminated_string_is_kept() {
    let res = Parser.parse(b"<resources><string name=\"a\">text").expect("parse");
    assert_eq!(res.entries.get("a").unwrap().value, EntryValue::Simple("text".to_string()));
}

#[test]
fn android_write_exact() {
    let res = Parser.parse(b"<resources><string name=\"a\">x &lt; y</string><string name=\"b\"/></resources>").unwrap();
    let out = String::from_utf8(Writer.write(&res).unwrap()).unwrap();
    assert_eq!(
        out,
        "<?xml version=\"1.0\" encoding=\"utf-8\"?>\n<resources>\n    <string name=\"a\">x &lt; y</string>\n    <string name=\"b\" />\n</resources>\n"
    );
}

#[test]
fn android_roundtrip() {
    let res = Parser.parse(SAMPLE.as_bytes()).expect("parse");
    let out = Writer.write(&res).expect("write");
    let text = String::from_utf8(out.clone()).unwrap();
    assert!(text.contains("<resources xmlns:xliff=\"urn:oasis:names:tc:xliff:document:1.2\">"));
    assert!(text.contains("    <!-- Greeting shown on start -->\n"));
    assert!(text.contains("<string name=\"internal\" translatable=\"false\">x</string>"));
    let again = Parser.parse(&out).expect("reparse");
    assert_eq!(again.entries.len(), res.entries.len());
    for (k, e) in &res.entries {
        let f = again.entries.get(k).unwrap();
        assert_eq!(e.value, f.value);
        assert_eq!(e.comments, f.comments);
        assert_eq!(e.translatable, f.translatable);
    }
}
