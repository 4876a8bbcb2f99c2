//! Behaviour of the identifier normalizer.

use cli_helper::to_valid_ident;
use convert_case::{Case, Casing};

fn is_valid_ident(s: &str) -> bool {
    let mut chars = s.chars();
    match chars.next() {
        None => return false,
        Some(c) => {
            if !(c.is_ascii_lowercase() || c == '_') {
                return false;
            }
        }
    }
    s.chars().all(|c| c.is_ascii_lowercase() || c.is_ascii_digit() || c == '_')
}

#[test]
fn exact_values() {
    assert_eq!(to_valid_ident("Bar"), "bar");
    assert_eq!(to_valid_ident("foo-1"), "foo_1");
    assert_eq!(to_valid_ident("hello world"), "hello_world");
    assert_eq!(to_valid_ident("XMLHttpRequest"), "xml_http_request");
    assert_eq!(to_valid_ident("abc123"), "abc_123");
    assert_eq!(to_valid_ident("parse2json"), "parse_2_json");
    assert_eq!(to_valid_ident("  spaced  "), "spaced");
    assert_eq!(to_valid_ident("snake_case"), "snake_case");
    assert_eq!(to_valid_ident("CamelCase"), "camel_case");
    assert_eq!(to_valid_ident("a--b"), "a_b");
    assert_eq!(to_valid_ident("a__b"), "a_b");
}

#[test]
fn symbolic_and_digit_inputs() {
    // inputs with no usable word characters collapse to a single underscore
    assert_eq!(to_valid_ident("???"), "_");
    assert_eq!(to_valid_ident(""), "_");
    assert_eq!(to_valid_ident("   "), "_");
    // a leading run of digits is not a valid identifier start and is replaced
    assert_eq!(to_valid_ident("1"), "_");
    assert_eq!(to_valid_ident("123abc"), "abc");
    assert_eq!(to_valid_ident("1.2"), "_");
    // an interior digit word surfacing at the front gains an underscore
    assert_eq!(to_valid_ident("_1a"), "_1_a");
}

#[test]
fn characters_outside_ascii_become_underscores() {
    assert_eq!(to_valid_ident("héllo"), "h_llo");
    assert_eq!(to_valid_ident("naïve file"), "na_ve_file");
    assert_eq!(to_valid_ident("日本語"), "_");
}

#[test]
fn idempotence_on_samples() {
    let samples = [
        "Bar", "foo-1", "hello world", "XMLHttpRequest", "abc123", "???", "", "1", "_1a",
        "  spaced  ", "a--b", "MiXeD-42.cAsE", "f.o.o", "__", "x", "_", "A1B2c3",
    ];
    for s in samples {
        let once = to_valid_ident(s);
        let twice = to_valid_ident(&once);
        assert_eq!(twice, once, "not idempotent on {s:?}");
    }
}

#[test]
fn validity_on_samples() {
    let samples = [
        "Bar", "foo-1", "hello world", "XMLHttpRequest", "abc123", "???", "", "1", "_1a",
        "  spaced  ", "a--b", "MiXeD-42.cAsE", "f.o.o", "__", "x", "9 lives", "-x-",
    ];
    for s in samples {
        let r = to_valid_ident(s);
        assert!(!r.is_empty(), "empty result for {s:?}");
        assert!(is_valid_ident(&r), "invalid identifier {r:?} for {s:?}");
    }
}

#[test]
fn agrees_with_regex_and_case_conversion() {
    // the replacement regex and the snake-case conversion the normalizer is
    // specified against
    let invalid = regex::Regex::new(r"(?:^[^a-zA-Z_]+|[^a-zA-Z0-9_]+)").unwrap();
    // left out: inputs with doubled or leading underscores, where this
    // normalizer collapses runs that the conversion crate keeps
    let samples = [
        "Bar", "foo-1", "hello world", "XMLHttpRequest", "abc123", "parse2json", "  spaced  ",
        "snake_case", "CamelCase", "a--b", "f.o.o", "x", "A1B2c3", "some-long name.txt",
    ];
    for s in samples {
        let replaced = invalid.replace_all(s.trim(), "_");
        let expected = replaced.to_case(Case::Snake);
        assert_eq!(to_valid_ident(s), expected, "diverges on {s:?}");
    }
}
