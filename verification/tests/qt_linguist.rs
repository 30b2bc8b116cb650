use i18n_convert::formats::qt_linguist::{
    build_plural_set, insert_doctype, map_qt_state, plural_set_to_forms, state_to_qt_type, Parser, Writer,
};
use i18n_convert::formats::Confidence;
use i18n_convert::ir::{CommentRole, ContextType, EntryValue, FormatExtension, TranslationState};

const SAMPLE: &str = r#"<?xml version="1.0" encoding="utf-8"?>
<!DOCTYPE TS>
<TS version="2.1" language="de_DE" sourcelanguage="en">
<context>
    <name>MainWindow</name>
    <message>
        <location filename="../main.cpp" line="42"/>
        <source>Open</source>
        <translation>Öffnen</translation>
        <comment> menu item </comment>
        <translatorcomment>short</translatorcomment>
    </message>
    <message numerus="yes">
        <source>%n file(s)</source>
        <translation type="unfinished">
            <numerusform>%n Datei</numerusform>
            <numerusform>%n Dateien</numerusform>
        </translation>
        <extra-po-flags>c-format</extra-po-flags>
    </message>
</context>
<context>
    <name></name>
    <message>
        <source>Quit</source>
        <oldsource>Exit</oldsource>
        <translation type="obsolete">Beenden</translation>
    </message>
</context>
</TS>
"#;

#[test]
fn qt_state_mapping() {
    assert_eq!(map_qt_state(None), Some(TranslationState::Translated));
    assert_eq!(map_qt_state(Some("unfinished")), Some(TranslationState::NeedsReview));
    assert_eq!(map_qt_state(Some("vanished")), Some(TranslationState::Vanished));
    assert_eq!(map_qt_state(Some("other")), None);
    assert_eq!(state_to_qt_type(&TranslationState::New), Some("unfinished"));
    assert_eq!(state_to_qt_type(&TranslationState::Final), None);
    assert_eq!(state_to_qt_type(&TranslationState::Obsolete), Some("obsolete"));
    assert_eq!(state_to_qt_type(&TranslationState::Stale), Some("unfinished"));
}

#[test]
fn qt_plural_forms() {
    let forms: Vec<String> = vec!["a".into(), "b".into(), "c".into(), "d".into(), "e".into()];
    let p = build_plural_set(&forms);
    assert_eq!(p.one.as_deref(), Some("a"));
    assert_eq!(p.two.as_deref(), Some("b"));
    assert_eq!(p.few.as_deref(), Some("c"));
    assert_eq!(p.many.as_deref(), Some("d"));
    assert_eq!(p.other, "e");
    assert_eq!(plural_set_to_forms(&p), forms);
    let two = build_plural_set(&vec!["x".to_string(), "y".to_string()]);
    assert_eq!(two.one.as_deref(), Some("x"));
    assert_eq!(two.other, "y");
    assert_eq!(two.few, None);
    let three = build_plural_set(&vec!["x".to_string(), "y".to_string(), "z".to_string()]);
    assert_eq!(three.few.as_deref(), Some("y"));
    assert_eq!(three.two, None);
    assert_eq!(build_plural_set(&vec![]).other, "");
}

#[test]
fn qt_detect() {
    assert_eq!(Parser.detect(".ts", b"<!DOCTYPE TS><TS></TS>"), Confidence::Definite);
    assert_eq!(Parser.detect(".ts", b"<TS>"), Confidence::Definite);
    assert_eq!(Parser.detect(".ts", b"export const x = 1;"), Confidence::NoMatch);
    assert_eq!(Parser.detect(".xml", b"<TS version=\"2.1\">"), Confidence::High);
    assert_eq!(Parser.detect(".xml", b"<TS>"), Confidence::NoMatch);
}

#[test]
fn qt_parse_sample() {
    let res = Parser.parse(SAMPLE.as_bytes()).expect("parse");
    assert_eq!(res.metadata.locale.as_deref(), Some("de_DE"));
    assert_eq!(res.metadata.source_locale.as_deref(), Some("en"));
    assert_eq!(res.metadata.properties.get("ts_version").map(|s| s.as_str()), Some("2.1"));
    assert_eq!(res.entries.len(), 3);
    let open = res.entries.get("MainWindow\u{4}Open").unwrap();
    assert_eq!(open.value, EntryValue::Simple("Öffnen".to_string()));
    assert_eq!(open.state, Some(TranslationState::Translated));
    assert_eq!(open.comments.len(), 2);
    assert_eq!(open.comments[0].text, "menu item");
    assert_eq!(open.comments[0].role, CommentRole::Developer);
    assert_eq!(open.comments[1].text, "short");
    assert_eq!(open.comments[1].role, CommentRole::Translator);
    assert_eq!(open.contexts.len(), 1);
    assert_eq!(open.contexts[0].context_type, ContextType::Disambiguation);
    assert_eq!(open.source_references.len(), 1);
    assert_eq!(open.source_references[0].file, "../main.cpp");
    assert_eq!(open.source_references[0].line, Some(42));
    assert!(open.format_ext.is_none());
    let files = res.entries.get("MainWindow\u{4}%n file(s)").unwrap();
    match &files.value {
        EntryValue::Plural(p) => {
            assert_eq!(p.one.as_deref(), Some("%n Datei"));
            assert_eq!(p.other, "%n Dateien");
        }
        _ => panic!("expected plural"),
    }
    assert_eq!(files.state, Some(TranslationState::NeedsReview));
    match &files.format_ext {
        Some(FormatExtension::QtLinguist(q)) => {
            assert_eq!(q.numerus, Some(true));
            assert_eq!(q.extra_elements.get("extra-po-flags").map(|s| s.as_str()), Some("c-format"));
        }
        _ => panic!("missing extension"),
    }
    let quit = res.entries.get("Quit").unwrap();
    assert!(quit.obsolete);
    assert_eq!(quit.previous_source.as_deref(), Some("Exit"));
    assert!(quit.contexts.is_empty());
}

#[test]
fn qt_parse_error() {
    assert!(Parser.parse(b"<TS><context></TS>").is_err());
}

#[test]
fn qt_insert_doctype() {
    assert_eq!(insert_doctype("<?xml version=\"1.0\"?>\n<TS/>"), "<?xml version=\"1.0\"?>\n<!DOCTYPE TS>\n<TS/>");
    assert_eq!(insert_doctype("<TS/>"), "<!DOCTYPE TS>\n<TS/>");
}

#[test]
fn qt_roundtrip() {
    let res = Parser.parse(SAMPLE.as_bytes()).expect("parse");
    let out = Writer.write(&res).expect("write");
    let text = String::from_utf8(out.clone()).unwrap();
    assert!(text.starts_with("<?xml version=\"1.0\" encoding=\"utf-8\"?>\n<!DOCTYPE TS>"));
    assert!(text.contains("<TS version=\"2.1\" language=\"de_DE\" sourcelanguage=\"en\">"));
    assert!(text.contains("<message numerus=\"yes\">"));
    let again = Parser.parse(&out).expect("reparse");
    assert_eq!(again.entries.len(), 3);
    for (k, e) in &res.entries {
        let f = again.entries.get(k).unwrap();
        assert_eq!(e.value, f.value);
        assert_eq!(e.state, f.state);
        assert_eq!(e.comments, f.comments);
        assert_eq!(e.source_references, f.source_references);
        assert_eq!(e.previous_source, f.previous_source);
    }
}
