use i18n_convert::placeholder_convert::{
    android_to_i18next, android_to_icu, i18next_to_android, i18next_to_icu, icu_to_android,
    icu_to_i18next, icu_to_yaml_rails, yaml_rails_to_icu,
};

#[test]
fn test_android_to_icu_positional() {
    assert_eq!(android_to_icu("%1$s"), "{0}");
    assert_eq!(android_to_icu("%2$d"), "{1}");
    assert_eq!(android_to_icu("Hello %1$s, you have %2$d items"), "Hello {0}, you have {1} items");
}

#[test]
fn test_android_to_icu_simple() {
    assert_eq!(android_to_icu("%s"), "{0}");
    assert_eq!(android_to_icu("%d"), "{0}");
}

#[test]
fn test_icu_to_android() {
    assert_eq!(icu_to_android("{0}"), "%1$s");
    assert_eq!(icu_to_android("{1}"), "%2$s");
    assert_eq!(icu_to_android("Hello {0}, you have {1} items"), "Hello %1$s, you have %2$s items");
}

#[test]
fn test_icu_to_i18next() {
    assert_eq!(icu_to_i18next("{name}"), "{{name}}");
    assert_eq!(icu_to_i18next("Hello {name}, you have {count} items"), "Hello {{name}}, you have {{count}} items");
}

#[test]
fn test_i18next_to_icu() {
    assert_eq!(i18next_to_icu("{{name}}"), "{name}");
    assert_eq!(i18next_to_icu("Hello {{name}}, you have {{count}} items"), "Hello {name}, you have {count} items");
}

#[test]
fn test_icu_to_yaml_rails() {
    assert_eq!(icu_to_yaml_rails("{name}"), "%{name}");
    assert_eq!(icu_to_yaml_rails("Hello {name}"), "Hello %{name}");
}

#[test]
fn test_yaml_rails_to_icu() {
    assert_eq!(yaml_rails_to_icu("%{name}"), "{name}");
    assert_eq!(yaml_rails_to_icu("Hello %{name}"), "Hello {name}");
}

#[test]
fn test_android_to_i18next() {
    assert_eq!(android_to_i18next("%1$s"), "{{0}}");
}

#[test]
fn test_no_placeholders_unchanged() {
    assert_eq!(android_to_icu("Hello World"), "Hello World");
    assert_eq!(icu_to_android("Hello World"), "Hello World");
    assert_eq!(icu_to_i18next("Hello World"), "Hello World");
    assert_eq!(i18next_to_icu("Hello World"), "Hello World");
}

#[test]
fn test_icu_named_not_positional_in_android_conversion() {
    assert_eq!(icu_to_android("{name}"), "{name}");
}

#[test]
fn test_roundtrip_android_icu() {
    let original = "Hello %1$s, you have %2$s items";
    let icu = android_to_icu(original);
    assert_eq!(icu, "Hello {0}, you have {1} items");
    let back = icu_to_android(&icu);
    assert_eq!(back, "Hello %1$s, you have %2$s items");
}

#[test]
fn test_roundtrip_icu_i18next() {
    let original = "Hello {name}";
    let i18next = icu_to_i18next(original);
    assert_eq!(i18next, "Hello {{name}}");
    let back = i18next_to_icu(&i18next);
    assert_eq!(back, "Hello {name}");
}

#[test]
fn test_roundtrip_icu_yaml_rails() {
    let original = "Hello {name}";
    let rails = icu_to_yaml_rails(original);
    assert_eq!(rails, "Hello %{name}");
    let back = yaml_rails_to_icu(&rails);
    assert_eq!(back, "Hello {name}");
}

#[test]
fn placeholder_i18next_to_android_named_and_positional() {
    assert_eq!(i18next_to_android("{{0}} and {{1}}"), "%1$s and %2$s");
    assert_eq!(i18next_to_android("{{name}}"), "%1$s");
    assert_eq!(i18next_to_android("{{0}} of {{1}}"), "%1$s of %2$s");
    assert_eq!(i18next_to_android("Hi {{user}}, {{count}} new"), "Hi %1$s, %2$s new");
}

#[test]
fn placeholder_multi_digit_positions() {
    assert_eq!(android_to_icu("%10$s"), "{9}");
    assert_eq!(icu_to_android("{9}"), "%10$s");
    assert_eq!(icu_to_android("{09}"), "%10$s");
}
