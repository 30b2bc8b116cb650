use i18n_convert::formats::arb::{parse_placeholder, plural_set_to_icu, select_set_to_icu, Parser, Writer};
use i18n_convert::formats::Confidence;
use i18n_convert::ir::{CommentRole, ContextType, EntryValue, FormatExtension, PlaceholderType, PluralSet, SelectSet};
use i18n_convert::json::JsonValue;

const SAMPLE: &str = r#"{
  "@@locale": "en",
  "@@author": "Ann",
  "@@context": "app",
  "@@x-generator": "tool",
  "greeting": "Hello {name}",
  "@greeting": {
    "description": "Says hello",
    "context": "home",
    "type": "text",
    "x-flag": true,
    "placeholders": {
      "name": {"type": "String", "example": "Bob", "optionalParameters": {"a": "b", "n": 3}}
    }
  },
  "bye": "Bye",
  "count": 3
}"#;

#[test]
fn arb_detect() {
    assert_eq!(Parser.detect(".arb", b""), Confidence::Definite);
    assert_eq!(Parser.detect(".json", b"{\"@@locale\": \"en\"}"), Confidence::Definite);
    assert_eq!(Parser.detect(".json", b"{\"a\": \"b\"}"), Confidence::NoMatch);
}

#[test]
fn arb_parse_sample() {
    let res = Parser.parse(SAMPLE.as_bytes()).expect("parse");
    assert_eq!(res.metadata.locale.as_deref(), Some("en"));
    assert_eq!(res.metadata.created_by.as_deref(), Some("Ann"));
    assert_eq!(res.metadata.headers.get("@@context").map(|s| s.as_str()), Some("app"));
    match &res.metadata.format_ext {
        Some(FormatExtension::Arb(x)) => {
            assert_eq!(x.custom_fields, vec![("@@x-generator".to_string(), JsonValue::Str("tool".to_string()))]);
        }
        _ => panic!("missing extension"),
    }
    assert_eq!(res.entries.len(), 2);
    let g = res.entries.get("greeting").unwrap();
    assert_eq!(g.value, EntryValue::Simple("Hello {name}".to_string()));
    assert_eq!(g.comments.len(), 1);
    assert_eq!(g.comments[0].role, CommentRole::Extracted);
    assert_eq!(g.comments[0].text, "Says hello");
    assert_eq!(g.contexts[0].context_type, ContextType::Description);
    assert_eq!(g.contexts[0].value, "home");
    match &g.format_ext {
        Some(FormatExtension::Arb(x)) => {
            assert_eq!(x.message_type.as_deref(), Some("text"));
            assert_eq!(x.custom_fields, vec![("x-flag".to_string(), JsonValue::Bool(true))]);
        }
        _ => panic!("missing extension"),
    }
    assert_eq!(g.placeholders.len(), 1);
    let p = &g.placeholders[0];
    assert_eq!(p.name, "name");
    assert_eq!(p.original_syntax, "{name}");
    assert_eq!(p.placeholder_type, Some(PlaceholderType::String));
    assert_eq!(p.example.as_deref(), Some("Bob"));
    let params = p.optional_parameters.as_ref().unwrap();
    assert_eq!(params.len(), 1);
    assert_eq!(params.get("a").map(|s| s.as_str()), Some("b"));
    assert!(res.entries.get("bye").unwrap().comments.is_empty());
}

#[test]
fn arb_parse_errors() {
    assert!(Parser.parse(&[0xff]).is_err());
    assert!(Parser.parse(b"[1, 2]").is_err());
    assert!(Parser.parse(b"{").is_err());
}

#[test]
fn arb_placeholder_types() {
    let obj = vec![("type".to_string(), JsonValue::Str("Integer".to_string()))];
    assert_eq!(parse_placeholder("n", &obj).placeholder_type, Some(PlaceholderType::Integer));
    let obj = vec![("type".to_string(), JsonValue::Str("Num".to_string()))];
    assert_eq!(parse_placeholder("n", &obj).placeholder_type, Some(PlaceholderType::Other("num".to_string())));
    assert_eq!(parse_placeholder("n", &vec![]).placeholder_type, None);
}

#[test]
fn arb_icu_text() {
    let mut ps = PluralSet::default();
    ps.one = Some("# item".to_string());
    ps.zero = Some("none".to_string());
    ps.other = "# items".to_string();
    assert_eq!(plural_set_to_icu(&ps, "count"), "{count, plural, zero{none} one{# item} other{# items}}");
    ps.exact_matches.insert(0, "no items".to_string());
    assert_eq!(plural_set_to_icu(&ps, "n"), "{n, plural, =0{no items} one{# item} other{# items}}");
    let mut ss = SelectSet { variable: "g".to_string(), cases: Default::default() };
    ss.cases.insert("male".to_string(), "he".to_string());
    ss.cases.insert("other".to_string(), "they".to_string());
    assert_eq!(select_set_to_icu(&ss), "{g, select, male{he} other{they}}");
}

#[test]
fn arb_roundtrip() {
    let res = Parser.parse(SAMPLE.as_bytes()).expect("parse");
    let out = Writer.write(&res).expect("write");
    assert_eq!(*out.last().unwrap(), b'\n');
    let again = Parser.parse(&out).expect("reparse");
    assert_eq!(again.entries.len(), res.entries.len());
    for (k, e) in &res.entries {
        let f = again.entries.get(k).unwrap();
        assert_eq!(e.value, f.value);
        assert_eq!(e.comments, f.comments);
        assert_eq!(e.contexts, f.contexts);
        assert_eq!(e.placeholders, f.placeholders);
        assert_eq!(e.format_ext, f.format_ext);
    }
    assert_eq!(again.metadata.locale, res.metadata.locale);
    assert_eq!(again.metadata.headers, res.metadata.headers);
}
