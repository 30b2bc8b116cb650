use i18n_convert::formats::srt::{can_write, Parser, Writer};
use i18n_convert::formats::{Confidence, ParseError};
use i18n_convert::ir::{EntryValue, FormatExtension, FormatId, I18nEntry, I18nResource, ResourceMetadata};

const SAMPLE: &str = "1\n00:00:01,000 --> 00:00:04,000\nHello there.\n\n2\n00:00:05,500 --> 00:00:07,250\nTwo\nlines\n";

#[test]
fn srt_detect_by_extension() {
    assert_eq!(Parser.detect(".srt", b""), Confidence::Definite);
}

#[test]
fn srt_detect_by_content() {
    assert_eq!(Parser.detect(".txt", SAMPLE.as_bytes()), Confidence::High);
    assert_eq!(Parser.detect(".txt", b"just some text\n"), Confidence::NoMatch);
}

#[test]
fn srt_parse_cues() {
    let res = Parser.parse(SAMPLE.as_bytes()).unwrap();
    assert_eq!(res.metadata.source_format, FormatId::Srt);
    assert_eq!(res.entries.len(), 2);
    let first = &res.entries["1"];
    assert_eq!(first.value, EntryValue::Simple("Hello there.".to_string()));
    assert_eq!(first.properties["srt.start_time"], "00:00:01,000");
    assert_eq!(first.properties["srt.end_time"], "00:00:04,000");
    assert_eq!(first.properties["srt.sequence"], "1");
    let second = &res.entries["2"];
    assert_eq!(second.value, EntryValue::Simple("Two\nlines".to_string()));
    match &second.format_ext {
        Some(FormatExtension::Srt(x)) => {
            assert_eq!(x.sequence_number, Some(2));
            assert_eq!(x.start_time.as_deref(), Some("00:00:05,500"));
            assert_eq!(x.end_time.as_deref(), Some("00:00:07,250"));
        }
        _ => panic!("missing SRT extension"),
    }
}

#[test]
fn srt_parse_crlf_and_bom() {
    let text = "\u{FEFF}1\r\n00:00:01,000 --> 00:00:02,000\r\nHi\r\n\r\n\r\n2\r\n00:00:03,000 --> 00:00:04,000\r\nBye\r\n";
    let res = Parser.parse(text.as_bytes()).unwrap();
    assert_eq!(res.entries.len(), 2);
    assert_eq!(res.entries["1"].value, EntryValue::Simple("Hi".to_string()));
    assert_eq!(res.entries["2"].value, EntryValue::Simple("Bye".to_string()));
}

#[test]
fn srt_parse_bad_sequence_is_error() {
    let text = "one\n00:00:01,000 --> 00:00:02,000\nHi\n";
    assert!(matches!(Parser.parse(text.as_bytes()), Err(ParseError::InvalidFormat(_))));
}

#[test]
fn srt_parse_bad_timecode_is_error() {
    let text = "1\n00:00:01 --> 00:00:02,000\nHi\n";
    assert!(matches!(Parser.parse(text.as_bytes()), Err(ParseError::InvalidFormat(_))));
    let text = "1\n00:00:01,000 00:00:02,000\nHi\n";
    assert!(matches!(Parser.parse(text.as_bytes()), Err(ParseError::InvalidFormat(_))));
}

#[test]
fn srt_parse_invalid_utf8() {
    assert!(matches!(Parser.parse(&[0xff, 0xfe, 0x00]), Err(ParseError::InvalidFormat(_))));
}

#[test]
fn srt_roundtrip() {
    let res = Parser.parse(SAMPLE.as_bytes()).unwrap();
    assert!(can_write(&res));
    let out = Writer.write(&res).unwrap();
    assert_eq!(String::from_utf8(out).unwrap(), SAMPLE);
}

#[test]
fn srt_write_synthetic_numbers_and_times() {
    let mut entries = indexmap::IndexMap::new();
    entries.insert("a".to_string(), I18nEntry::with_value("a".to_string(), EntryValue::Simple("First".to_string())));
    entries.insert("b".to_string(), I18nEntry::with_value("b".to_string(), EntryValue::Simple("Second".to_string())));
    let res = I18nResource { metadata: ResourceMetadata::for_format(FormatId::Srt), entries };
    let out = Writer.write(&res).unwrap();
    assert_eq!(
        String::from_utf8(out).unwrap(),
        "1\n00:00:00,000 --> 00:00:01,000\nFirst\n\n2\n00:00:01,000 --> 00:00:02,000\nSecond\n"
    );
}

#[test]
fn srt_cannot_write_zero_without_start() {
    let mut e = I18nEntry::with_value("x".to_string(), EntryValue::Simple("X".to_string()));
    e.properties.insert("srt.sequence".to_string(), "0".to_string());
    let mut entries = indexmap::IndexMap::new();
    entries.insert("x".to_string(), e);
    let res = I18nResource { metadata: ResourceMetadata::for_format(FormatId::Srt), entries };
    assert!(!can_write(&res));
}
