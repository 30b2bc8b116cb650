use i18n_convert::formats::ios_strings::{Parser, Writer, escape_strings_value, unescape_strings_value};
use i18n_convert::formats::Confidence;
use i18n_convert::ir::EntryValue;

#[test]
fn ios_unescape_basic_escapes() {
    assert_eq!(unescape_strings_value("a\\\"b\\\\c\\nd\\te"), "a\"b\\c\nd\te");
    assert_eq!(unescape_strings_value("\\U00E9"), "\u{e9}");
    assert_eq!(unescape_strings_value("\\U0001F600"), "\u{1F600}");
    assert_eq!(unescape_strings_value("\\x"), "\\x");
    assert_eq!(unescape_strings_value("end\\"), "end\\");
}

#[test]
fn ios_escape_roundtrip() {
    let s = "say \"hi\"\n\tand \\ bye";
    assert_eq!(escape_strings_value(s), "say \\\"hi\\\"\\n\\tand \\\\ bye");
    assert_eq!(unescape_strings_value(&escape_strings_value(s)), s);
}

#[test]
fn ios_parse_with_comments() {
    let input = b"/* Greeting */\n\"hello\" = \"Hello\";\n// bye\n\"bye\" = \"Good\\nbye\";\n";
    let res = Parser.parse(input).expect("parse");
    assert_eq!(res.entries.len(), 2);
    let e = res.entries.get("hello").unwrap();
    assert_eq!(e.comments[0].text, "Greeting");
    match &res.entries.get("bye").unwrap().value {
        EntryValue::Simple(s) => assert_eq!(s, "Good\nbye"),
        _ => panic!("simple value expected"),
    }
}

#[test]
fn ios_parse_errors() {
    assert!(Parser.parse(b"\"a\" = \"b\"").is_err());
    assert!(Parser.parse(b"/* open").is_err());
    assert!(Parser.parse(b"x").is_err());
}

#[test]
fn ios_write_and_reparse() {
    let input = b"/* c */\n\"k\" = \"v \\\"q\\\"\";\n\"k2\" = \"w\";\n";
    let res = Parser.parse(input).unwrap();
    let out = Writer.write(&res).unwrap();
    assert_eq!(String::from_utf8(out.clone()).unwrap(), "/* c */\n\"k\" = \"v \\\"q\\\"\";\n\n\"k2\" = \"w\";\n");
    let again = Parser.parse(&out).unwrap();
    assert_eq!(again.entries, res.entries);
}

#[test]
fn ios_detect() {
    assert_eq!(Parser.detect(".strings", b""), Confidence::Definite);
    assert_eq!(Parser.detect(".txt", b"\"a\" = \"b\";"), Confidence::High);
    assert_eq!(Parser.detect(".txt", b"nothing"), Confidence::NoMatch);
}

#[test]
fn strings_escape_round_trip() {
    for s in ["plain", "quote \" and \\ backslash", "line\nbreak\tand tab", "", "\\U0041 kept"] {
        assert_eq!(unescape_strings_value(&escape_strings_value(s)), s);
    }
}
