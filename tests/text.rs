use rsysmetrics::entity_map::EntityMap;
use rsysmetrics::text::{is_whitespace, parse_counter, push_decimal, push_signed_decimal, split_words, trim};

#[test]
fn words_split_on_any_whitespace() {
    assert_eq!(split_words("  cpu0\t12  7\n"), vec!["cpu0", "12", "7"]);
    assert_eq!(split_words("a\u{a0}b\u{3000}c"), vec!["a", "b", "c"]);
    assert!(split_words(" \t ").is_empty());
    assert!(split_words("").is_empty());
}

#[test]
fn whitespace_is_unicode_white_space() {
    for c in ['\t', '\n', '\u{b}', '\u{c}', '\r', ' ', '\u{85}', '\u{a0}', '\u{2000}', '\u{200a}', '\u{3000}'] {
        assert!(is_whitespace(c));
        assert_eq!(is_whitespace(c), c.is_whitespace());
    }
    for c in ['a', '0', '_', '\u{200b}', '\u{feff}'] {
        assert!(!is_whitespace(c));
        assert_eq!(is_whitespace(c), c.is_whitespace());
    }
}

#[test]
fn trim_drops_outer_whitespace_only() {
    assert_eq!(trim("  0x1002 \n"), "0x1002");
    assert_eq!(trim("a b"), "a b");
    assert_eq!(trim("   "), "");
}

#[test]
fn counters_parse_as_decimal_or_zero() {
    assert_eq!(parse_counter("42"), 42);
    assert_eq!(parse_counter("+7"), 7);
    assert_eq!(parse_counter("18446744073709551615"), u64::MAX);
    assert_eq!(parse_counter("18446744073709551616"), 0);
    assert_eq!(parse_counter("-1"), 0);
    assert_eq!(parse_counter("12kB"), 0);
    assert_eq!(parse_counter(""), 0);
}

#[test]
fn integers_render_in_decimal() {
    let mut out = Vec::new();
    push_decimal(&mut out, 0);
    out.push(' ');
    push_decimal(&mut out, 1678886400);
    out.push(' ');
    push_signed_decimal(&mut out, -2048);
    assert_eq!(out.iter().collect::<String>(), "0 1678886400 -2048");
}

#[test]
fn entity_map_replaces_in_place_and_keeps_order() {
    let mut m = EntityMap::new();
    m.insert("b".to_string(), 1u64);
    m.insert("a".to_string(), 2u64);
    m.insert("b".to_string(), 3u64);
    assert_eq!(m.len(), 2);
    assert_eq!(m.get("b"), Some(&3));
    assert!(m.contains_key("a"));
    assert!(!m.contains_key("c"));
    let names: Vec<&str> = m.entries().iter().map(|(k, _)| k.as_str()).collect();
    assert_eq!(names, vec!["b", "a"]);
}
