use i18n_convert::formats::po::{
    extract_quoted, format_po_string, parse_nplurals, po_escape, po_unescape, Parser, Writer, make_entry_key,
    plural_index_to_category, category_to_plural_index, parse_source_refs, extract_keyword_value, parse_blocks,
};
use i18n_convert::formats::Confidence;
use i18n_convert::ir::{EntryValue, CommentRole, TranslationState, FormatExtension, I18nEntry, I18nResource, PoExt, ResourceMetadata};

#[test]
fn test_po_escape_unescape() {
    assert_eq!(po_escape("hello\nworld"), "hello\\nworld");
    assert_eq!(po_escape("say \"hi\""), "say \\\"hi\\\"");
    assert_eq!(po_unescape("hello\\nworld"), "hello\nworld");
    assert_eq!(po_unescape("say \\\"hi\\\""), "say \"hi\"");
}

#[test]
fn test_extract_quoted() {
    assert_eq!(extract_quoted("\"hello\""), Some("hello".to_string()));
    assert_eq!(extract_quoted("\"\""), Some("".to_string()));
    assert_eq!(extract_quoted("\"hello\\nworld\""), Some("hello\nworld".to_string()));
    assert_eq!(extract_quoted("not quoted"), None);
}

#[test]
fn test_parse_nplurals() {
    assert_eq!(parse_nplurals("nplurals=2; plural=(n != 1);"), 2);
    assert_eq!(
        parse_nplurals(
            "nplurals=3; plural=(n%10==1 && n%100!=11 ? 0 : n%10>=2 && n%10<=4 && (n%100<10 || n%100>=20) ? 1 : 2);"
        ),
        3
    );
    assert_eq!(parse_nplurals("nplurals=1; plural=0;"), 1);
}

#[test]
fn test_format_po_string_simple() {
    let lines = format_po_string("hello");
    assert_eq!(lines, vec!["\"hello\""]);
}

#[test]
fn po_format_multiline_string() {
    assert_eq!(format_po_string("a\nb"), vec!["\"\"", "\"a\\n\"", "\"b\""]);
    assert_eq!(format_po_string("a\n"), vec!["\"a\\n\""]);
    assert_eq!(format_po_string("\n"), vec!["\"\\n\""]);
}

#[test]
fn po_parse_nplurals_default() {
    assert_eq!(parse_nplurals("plural=0;"), 2);
    assert_eq!(parse_nplurals("nplurals=x;"), 2);
}

#[test]
fn po_entry_key_with_context() {
    assert_eq!(make_entry_key(&Some("menu".to_string()), "Open"), "menu\u{4}Open");
    assert_eq!(make_entry_key(&None, "Open"), "Open");
}

#[test]
fn po_plural_categories() {
    assert_eq!(plural_index_to_category(0, 2), "one");
    assert_eq!(plural_index_to_category(1, 2), "other");
    assert_eq!(plural_index_to_category(1, 3), "few");
    assert_eq!(plural_index_to_category(0, 6), "zero");
    assert_eq!(plural_index_to_category(0, 1), "other");
    assert_eq!(category_to_plural_index("other", 2), Some(1));
    assert_eq!(category_to_plural_index("zero", 2), None);
    assert_eq!(category_to_plural_index("zero", 6), Some(0));
}

#[test]
fn po_source_refs() {
    let refs = vec!["src/a.c:12 src/b.c".to_string(), "x:y".to_string()];
    let r = parse_source_refs(&refs);
    assert_eq!(r.len(), 3);
    assert_eq!(r[0].file, "src/a.c");
    assert_eq!(r[0].line, Some(12));
    assert_eq!(r[1].file, "src/b.c");
    assert_eq!(r[1].line, None);
    assert_eq!(r[2].file, "x:y");
    assert_eq!(r[2].line, None);
}

#[test]
fn po_keyword_value() {
    assert_eq!(extract_keyword_value("msgid \"hi\"", "msgid"), Some("hi".to_string()));
    assert_eq!(extract_keyword_value("msgid_plural \"hi\"", "msgid"), None);
}

#[test]
fn po_blocks_split_at_blank_lines() {
    let blocks = parse_blocks("# c\nmsgid \"a\"\nmsgstr \"b\"\n\nmsgid \"x\"\n\"y\"\nmsgstr \"z\"\n");
    assert_eq!(blocks.len(), 2);
    assert_eq!(blocks[0].translator_comments, vec!["c".to_string()]);
    assert_eq!(blocks[1].msgid, "xy");
}

#[test]
fn po_detect() {
    assert_eq!(Parser.detect(".po", b""), Confidence::Definite);
    assert_eq!(Parser.detect(".pot", b""), Confidence::Definite);
    assert_eq!(Parser.detect(".txt", b"msgid \"a\"\nmsgstr \"b\""), Confidence::Definite);
    assert_eq!(Parser.detect(".txt", b"hello"), Confidence::NoMatch);
}

const SAMPLE: &str = "# Header comment\nmsgid \"\"\nmsgstr \"\"\n\"Language: de\\n\"\n\"Plural-Forms: nplurals=2; plural=(n != 1);\\n\"\n\n#. extracted\n#: main.c:10\n#, fuzzy, c-format\nmsgctxt \"menu\"\nmsgid \"Open\"\nmsgstr \"Offnen\"\n\nmsgid \"file\"\nmsgid_plural \"files\"\nmsgstr[0] \"Datei\"\nmsgstr[1] \"Dateien\"\n\n#~ msgid \"old\"\n#~ msgstr \"alt\"\n";

#[test]
fn po_parse_sample() {
    let res = Parser.parse(SAMPLE.as_bytes()).expect("parse");
    assert_eq!(res.metadata.locale.as_deref(), Some("de"));
    assert_eq!(res.metadata.headers.get("Plural-Forms").map(|s| s.as_str()), Some("nplurals=2; plural=(n != 1);"));
    match &res.metadata.format_ext {
        Some(FormatExtension::Po(x)) => {
            assert_eq!(x.translator_comments, vec!["Header comment".to_string()]);
            assert_eq!(x.plural_forms_header.as_deref(), Some("nplurals=2; plural=(n != 1);"));
        }
        _ => panic!("PO extension expected"),
    }
    assert_eq!(res.entries.len(), 3);
    let e = res.entries.get("menu\u{4}Open").unwrap();
    assert_eq!(e.comments[0].role, CommentRole::Extracted);
    assert_eq!(e.comments[0].text, "extracted");
    assert_eq!(e.source_references[0].file, "main.c");
    assert_eq!(e.source_references[0].line, Some(10));
    assert_eq!(e.flags, vec!["fuzzy".to_string(), "c-format".to_string()]);
    assert_eq!(e.state, Some(TranslationState::NeedsReview));
    assert_eq!(e.contexts[0].value, "menu");
    assert_eq!(e.value, EntryValue::Simple("Offnen".to_string()));
    let p = res.entries.get("file").unwrap();
    match &p.value {
        EntryValue::Plural(ps) => {
            assert_eq!(ps.one.as_deref(), Some("Datei"));
            assert_eq!(ps.other, "Dateien");
        }
        _ => panic!("plural expected"),
    }
    assert_eq!(p.properties.get("msgid_plural").map(|s| s.as_str()), Some("files"));
    let o = res.entries.get("old").unwrap();
    assert!(o.obsolete);
    assert_eq!(o.value, EntryValue::Simple("alt".to_string()));
}

#[test]
fn po_parse_invalid_utf8() {
    assert!(Parser.parse(&[0xff, 0xfe]).is_err());
}

#[test]
fn po_roundtrip() {
    let res = Parser.parse(SAMPLE.as_bytes()).expect("parse");
    let out = Writer.write(&res).expect("write");
    let text = String::from_utf8(out.clone()).unwrap();
    assert!(text.starts_with("# Header comment\nmsgid \"\"\nmsgstr \"\"\n\"Language: de\\n\"\n"));
    assert!(text.contains("msgid_plural \"files\"\nmsgstr[0] \"Datei\"\nmsgstr[1] \"Dateien\"\n"));
    assert!(text.contains("#~ msgid \"old\"\n#~ msgstr \"alt\"\n"));
    let again = Parser.parse(&out).expect("reparse");
    assert_eq!(again.entries, res.entries);
}

#[test]
fn po_write_fuzzy_without_flags() {
    let mut res = Parser.parse(b"msgid \"a\"\nmsgstr \"b\"\n").unwrap();
    let mut e: I18nEntry = res.entries.get("a").unwrap().clone();
    e.state = Some(TranslationState::NeedsReview);
    res.entries.insert("a".to_string(), e);
    let text = String::from_utf8(Writer.write(&res).unwrap()).unwrap();
    assert_eq!(text, "msgid \"\"\nmsgstr \"\"\n\n#, fuzzy\nmsgid \"a\"\nmsgstr \"b\"\n");
}

#[test]
fn po_plain_entries_round_trip() {
    let mut entries = indexmap::IndexMap::new();
    for (k, v) in [("greeting", "Hallo \"Welt\""), ("tab", "a\tb"), ("path", "C:\\dir"), ("end", "last line\n"), ("multi", "first\nsecond\nthird"), ("slash", "a\\nb\nc"), ("two\nlines", "x")] {
        entries.insert(k.to_string(), I18nEntry { key: k.to_string(), value: EntryValue::Simple(v.to_string()), ..Default::default() });
    }
    let mut review: I18nEntry = I18nEntry { key: "later".to_string(), value: EntryValue::Simple("Spaeter".to_string()), ..Default::default() };
    review.state = Some(TranslationState::NeedsReview);
    entries.insert("later".to_string(), review);
    let mut metadata = ResourceMetadata::default();
    metadata.headers.insert("Language".to_string(), "de".to_string());
    metadata.headers.insert("Plural-Forms".to_string(), "nplurals=2; plural=(n != 1);".to_string());
    metadata.format_ext = Some(FormatExtension::Po(PoExt { plural_forms_header: None, translator_comments: vec!["Translations".to_string(), "".to_string()] }));
    let res = I18nResource { metadata, entries };
    let back = Parser.parse(&Writer.write(&res).unwrap()).unwrap();
    let keys: Vec<&String> = back.entries.keys().collect();
    assert_eq!(keys, vec!["greeting", "tab", "path", "end", "multi", "slash", "two\nlines", "later"]);
    for (k, e) in res.entries.iter() {
        let b = &back.entries[k];
        assert_eq!(&b.key, k);
        assert_eq!(b.value, e.value);
        assert_eq!(b.source.as_deref(), Some(k.as_str()));
    }
}
