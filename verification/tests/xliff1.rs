use i18n_convert::formats::xliff1::{
    annotates_to_str, context_type_to_str, map_annotates, map_context_type, map_note_role, map_xliff_state, role_to_from,
    state_to_xliff, Parser, Writer,
};
use i18n_convert::formats::Confidence;
use i18n_convert::ir::{AnnotationTarget, CommentRole, ContextType, EntryValue, FormatExtension, TranslationState};

const SAMPLE: &str = r#"<?xml version="1.0" encoding="UTF-8"?>
<xliff version="1.2" xmlns="urn:oasis:names:tc:xliff:document:1.2">
  <file source-language="en" target-language="de" datatype="plaintext" original="app.strings">
    <body>
      <trans-unit id="greeting" resname="greet" maxwidth="20" size-unit="char" translate="yes" approved="no">
        <source>Hello</source>
        <target state="translated" state-qualifier="exact-match">Hallo</target>
        <note from="developer" priority="2" annotates="source">Shown on start</note>
        <context-group purpose="location">
          <context context-type="sourcefile">main.c</context>
          <context context-type="linenumber">12</context>
        </context-group>
        <alt-trans match-quality="85" origin="tm">
          <source>Hello!</source>
          <target>Hallo!</target>
        </alt-trans>
      </trans-unit>
      <trans-unit id="bye">
        <source>Bye &amp; see you</source>
      </trans-unit>
    </body>
  </file>
</xliff>
"#;

#[test]
fn xliff1_mappings() {
    assert_eq!(map_xliff_state("needs-review-translation"), Some(TranslationState::NeedsReview));
    assert_eq!(map_xliff_state("final"), Some(TranslationState::Final));
    assert_eq!(map_xliff_state("bogus"), None);
    assert_eq!(state_to_xliff(&TranslationState::Translated), "translated");
    assert_eq!(map_note_role(Some("translator")), CommentRole::Translator);
    assert_eq!(map_note_role(None), CommentRole::General);
    assert_eq!(role_to_from(&CommentRole::Developer), Some("developer"));
    assert_eq!(role_to_from(&CommentRole::General), None);
    assert_eq!(map_annotates(Some("target")), Some(AnnotationTarget::Target));
    assert_eq!(annotates_to_str(&AnnotationTarget::General), "general");
    assert_eq!(map_context_type("sourcefile"), ContextType::SourceFile);
    assert_eq!(map_context_type("x-other"), ContextType::Custom("x-other".to_string()));
    assert_eq!(context_type_to_str(&ContextType::LineNumber), "linenumber");
}

#[test]
fn xliff1_detect() {
    assert_eq!(Parser.detect(".xliff", b""), Confidence::High);
    assert_eq!(Parser.detect(".xlf", b""), Confidence::High);
    assert_eq!(Parser.detect(".xml", b"<xliff version=\"1.2\">"), Confidence::Definite);
    assert_eq!(Parser.detect(".xml", b"<resources/>"), Confidence::NoMatch);
    assert_eq!(Parser.detect(".json", b"<xliff>"), Confidence::NoMatch);
}

#[test]
fn xliff1_parse_sample() {
    let res = Parser.parse(SAMPLE.as_bytes()).expect("parse");
    assert_eq!(res.metadata.source_locale.as_deref(), Some("en"));
    assert_eq!(res.metadata.locale.as_deref(), Some("de"));
    match &res.metadata.format_ext {
        Some(FormatExtension::Xliff1(x)) => {
            assert_eq!(x.datatype.as_deref(), Some("plaintext"));
            assert_eq!(x.original.as_deref(), Some("app.strings"));
        }
        _ => panic!("missing extension"),
    }
    assert_eq!(res.entries.len(), 2);
    let e = res.entries.get("greeting").unwrap();
    assert_eq!(e.value, EntryValue::Simple("Hallo".to_string()));
    assert_eq!(e.source.as_deref(), Some("Hello"));
    assert_eq!(e.state, Some(TranslationState::Translated));
    assert_eq!(e.state_qualifier.as_deref(), Some("exact-match"));
    assert_eq!(e.max_width, Some(20));
    assert_eq!(e.size_unit.as_deref(), Some("char"));
    assert_eq!(e.translatable, Some(true));
    assert_eq!(e.approved, Some(false));
    assert_eq!(e.resource_name.as_deref(), Some("greet"));
    assert_eq!(e.comments.len(), 1);
    assert_eq!(e.comments[0].text, "Shown on start");
    assert_eq!(e.comments[0].role, CommentRole::Developer);
    assert_eq!(e.comments[0].priority, Some(2));
    assert_eq!(e.comments[0].annotates, Some(AnnotationTarget::Source));
    assert_eq!(e.contexts.len(), 2);
    assert_eq!(e.contexts[0].context_type, ContextType::SourceFile);
    assert_eq!(e.contexts[0].value, "main.c");
    assert_eq!(e.contexts[1].purpose.as_deref(), Some("location"));
    assert_eq!(e.alternatives.len(), 1);
    assert_eq!(e.alternatives[0].value, "Hallo!");
    assert_eq!(e.alternatives[0].source.as_deref(), Some("Hello!"));
    assert_eq!(e.alternatives[0].match_quality.as_deref(), Some("85"));
    assert_eq!(e.alternatives[0].origin.as_deref(), Some("tm"));
    let b = res.entries.get("bye").unwrap();
    assert_eq!(b.source.as_deref(), Some("Bye & see you"));
    assert_eq!(b.value, EntryValue::Simple(String::new()));
}

#[test]
fn xliff1_parse_error() {
    let r = Parser.parse(b"<xliff><file></xliff>");
    assert!(r.is_err());
}

#[test]
fn xliff1_roundtrip() {
    let res = Parser.parse(SAMPLE.as_bytes()).expect("parse");
    let out = Writer.write(&res).expect("write");
    let text = String::from_utf8(out.clone()).unwrap();
    assert!(text.starts_with("<?xml version=\"1.0\" encoding=\"UTF-8\"?>"));
    assert!(text.contains("<trans-unit id=\"greeting\" resname=\"greet\" maxwidth=\"20\""));
    assert!(text.contains("Bye &amp; see you"));
    assert!(!text.contains("<target></target>"));
    let again = Parser.parse(&out).expect("reparse");
    assert_eq!(again.entries.len(), 2);
    for (k, e) in &res.entries {
        let f = again.entries.get(k).unwrap();
        assert_eq!(e.value, f.value);
        assert_eq!(e.source, f.source);
        assert_eq!(e.state, f.state);
        assert_eq!(e.comments, f.comments);
        assert_eq!(e.contexts, f.contexts);
        assert_eq!(e.alternatives, f.alternatives);
        assert_eq!(e.max_width, f.max_width);
    }
    assert_eq!(again.metadata.locale, res.metadata.locale);
}
