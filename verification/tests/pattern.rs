use i18n_convert::pattern::{regex_capture_split, regex_captures};
use i18n_convert::xml::{read_xml, XmlEvent};

#[test]
fn regex_split_around_matches_in_unicode_text() {
    let (pieces, tail) = regex_capture_split(r"\{(\w+)\}", "Grüße {name}, café {n}!").unwrap();
    assert_eq!(pieces.len(), 2);
    assert_eq!(pieces[0], ("Grüße ".to_string(), "{name}".to_string(), "name".to_string()));
    assert_eq!(pieces[1], (", café ".to_string(), "{n}".to_string(), "n".to_string()));
    assert_eq!(tail, "!");
}

#[test]
fn regex_split_bad_pattern() {
    assert!(regex_capture_split("(", "x").is_none());
}

#[test]
fn regex_captures_groups() {
    assert_eq!(regex_captures(r"^a(\d)(x)?$", "a7"), Some(Some(vec![Some("a7".to_string()), Some("7".to_string()), None])));
    assert_eq!(regex_captures(r"^a(\d)$", "b"), Some(None));
    assert_eq!(regex_captures("(", "b"), None);
}

#[test]
fn read_xml_keeps_good_attributes() {
    let evs = read_xml(b"<a x=\"1\" y=\"2\">t</a>", true).unwrap();
    match &evs[0] {
        XmlEvent::Start(n, attrs) => {
            assert_eq!(n, "a");
            assert_eq!(attrs.len(), 2);
            assert_eq!(attrs[0].0, "x");
            assert_eq!(attrs[1].1, b"2".to_vec());
        }
        _ => panic!("expected a start tag"),
    }
}
