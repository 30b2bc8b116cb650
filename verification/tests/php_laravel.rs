use i18n_convert::formats::php_laravel::{parse_php, Parser, Writer};
use i18n_convert::formats::{Confidence, ParseError};
use i18n_convert::ir::{EntryValue, FormatExtension, FormatId};

const SAMPLE: &str = r#"<?php

return [
    // Greeting shown on the home page
    'welcome' => 'Welcome, it\'s :name!',
    'auth' => [
        'failed' => "These credentials do not match.\n",
        /* Throttle */
        'throttle' => 'Too many attempts.',
    ],
    'legacy' => array(
        'old' => 'Old style',
    ),
];
"#;

#[test]
fn php_detect() {
    assert_eq!(Parser.detect(".php", SAMPLE.as_bytes()), Confidence::Definite);
    assert_eq!(Parser.detect(".php", b"<?php echo 1;"), Confidence::Low);
    assert_eq!(Parser.detect(".txt", SAMPLE.as_bytes()), Confidence::High);
    assert_eq!(Parser.detect(".txt", b"return ['a' => 'b'];"), Confidence::NoMatch);
}

#[test]
fn php_parse_nested_keys_and_comments() {
    let res = Parser.parse(SAMPLE.as_bytes()).unwrap();
    assert_eq!(res.metadata.source_format, FormatId::PhpLaravel);
    let keys: Vec<&str> = res.entries.keys().map(|k| k.as_str()).collect();
    assert_eq!(keys, vec!["welcome", "auth.failed", "auth.throttle", "legacy.old"]);
    let welcome = &res.entries["welcome"];
    assert_eq!(welcome.value, EntryValue::Simple("Welcome, it's :name!".to_string()));
    assert_eq!(welcome.comments.len(), 1);
    assert_eq!(welcome.comments[0].text, "Greeting shown on the home page");
    assert_eq!(
        res.entries["auth.failed"].value,
        EntryValue::Simple("These credentials do not match.\n".to_string())
    );
    assert_eq!(res.entries["auth.failed"].comments.len(), 0);
    assert_eq!(res.entries["auth.throttle"].comments[0].text, "Throttle");
    assert_eq!(res.entries["legacy.old"].value, EntryValue::Simple("Old style".to_string()));
    match &res.metadata.format_ext {
        Some(FormatExtension::PhpLaravel(x)) => assert_eq!(x.quote_style.as_deref(), Some("single")),
        _ => panic!("missing PHP extension"),
    }
}

#[test]
fn php_parse_double_quoted_keys() {
    let res = parse_php("<?php return [\"a\" => \"x \\$y\"];").unwrap();
    assert_eq!(res.entries["a"].value, EntryValue::Simple("x $y".to_string()));
    match &res.metadata.format_ext {
        Some(FormatExtension::PhpLaravel(x)) => assert_eq!(x.quote_style.as_deref(), Some("double")),
        _ => panic!("missing PHP extension"),
    }
}

#[test]
fn php_parse_errors() {
    assert!(matches!(parse_php("<?php echo 'hi';"), Err(ParseError::InvalidFormat(_))));
    assert!(matches!(parse_php("<?php return [ 'a' 'b' ];"), Err(ParseError::InvalidFormat(_))));
    assert!(matches!(parse_php("<?php return [ 'a' => 'b' "), Err(ParseError::InvalidFormat(_))));
    assert!(matches!(parse_php("<?php return [ 'a => 'b' ];"), Err(ParseError::InvalidFormat(_))));
    assert!(matches!(parse_php("<?php return [ /* open "), Err(ParseError::InvalidFormat(_))));
    assert!(matches!(Parser.parse(&[0xff]), Err(ParseError::InvalidFormat(_))));
}

#[test]
fn php_write_nested() {
    let res = Parser.parse(SAMPLE.as_bytes()).unwrap();
    let out = String::from_utf8(Writer.write(&res).unwrap()).unwrap();
    let expected = "<?php\n\nreturn [\n    // Greeting shown on the home page\n    'welcome' => 'Welcome, it\\'s :name!',\n    'auth' => [\n        'failed' => 'These credentials do not match.\n',\n        // Throttle\n        'throttle' => 'Too many attempts.',\n    ],\n    'legacy' => [\n        'old' => 'Old style',\n    ],\n];\n";
    assert_eq!(out, expected);
}

#[test]
fn php_roundtrip_keeps_entries() {
    let res = Parser.parse(SAMPLE.as_bytes()).unwrap();
    let out = Writer.write(&res).unwrap();
    let again = Parser.parse(&out).unwrap();
    assert_eq!(res.entries, again.entries);
}
