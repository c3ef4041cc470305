use serde_kdl::lex::{count_needed_hashes, is_valid_kdl_identifier};

#[test]
fn no_quote_needs_no_fence() {
    assert_eq!(count_needed_hashes(""), None);
    assert_eq!(count_needed_hashes("Hello"), None);
    assert_eq!(count_needed_hashes("#"), None);
    assert_eq!(count_needed_hashes("a#b##c"), None);
}

#[test]
fn quote_without_hashes_needs_one() {
    assert_eq!(count_needed_hashes("\""), Some(1));
    assert_eq!(count_needed_hashes("say \"hi\""), Some(1));
    assert_eq!(count_needed_hashes("#\""), Some(1));
}

#[test]
fn fence_is_longest_run_plus_one() {
    assert_eq!(count_needed_hashes("a\"#b"), Some(2));
    assert_eq!(count_needed_hashes("\"##x\"#"), Some(3));
    assert_eq!(count_needed_hashes("\"#\"##"), Some(3));
    assert_eq!(count_needed_hashes("x\"###"), Some(4));
    assert_eq!(count_needed_hashes("\"#\"#\"#"), Some(2));
    assert_eq!(count_needed_hashes("\"\"#"), Some(2));
}

#[test]
fn fence_counts_characters_not_bytes() {
    assert_eq!(count_needed_hashes("\u{1F980}\"##\u{e1}\"#"), Some(3));
}

#[test]
fn long_run_needs_long_fence() {
    let mut s = String::from("\"");
    for _ in 0..300 {
        s.push('#');
    }
    assert_eq!(count_needed_hashes(&s), Some(301));
}

#[test]
fn identifier_examples() {
    assert!(!is_valid_kdl_identifier("123abc"));
    assert!(!is_valid_kdl_identifier("r#text"));
    assert!(!is_valid_kdl_identifier("null"));
    assert!(is_valid_kdl_identifier("valid_name"));
}

#[test]
fn identifier_rejects_whitespace() {
    assert!(!is_valid_kdl_identifier("a b"));
    assert!(!is_valid_kdl_identifier("a\tb"));
    assert!(!is_valid_kdl_identifier("a\nb"));
    assert!(!is_valid_kdl_identifier("a\r"));
    assert!(!is_valid_kdl_identifier("\u{0B}"));
    assert!(!is_valid_kdl_identifier("\u{0C}"));
    assert!(!is_valid_kdl_identifier("a\u{85}"));
    assert!(!is_valid_kdl_identifier("a\u{A0}b"));
    assert!(!is_valid_kdl_identifier("\u{1680}"));
    assert!(!is_valid_kdl_identifier("\u{2000}"));
    assert!(!is_valid_kdl_identifier("\u{200A}"));
    assert!(!is_valid_kdl_identifier("\u{2028}"));
    assert!(!is_valid_kdl_identifier("\u{2029}"));
    assert!(!is_valid_kdl_identifier("\u{202F}"));
    assert!(!is_valid_kdl_identifier("\u{205F}"));
    assert!(!is_valid_kdl_identifier("a\u{3000}b"));
    assert!(is_valid_kdl_identifier("\u{200B}"));
    assert!(is_valid_kdl_identifier("\u{08}"));
}

#[test]
fn identifier_rejects_reserved_symbols() {
    for c in "\\/(){}<>;[]=,\"\u{FEFF}".chars() {
        let mut s = String::from("a");
        s.push(c);
        s.push('b');
        assert!(!is_valid_kdl_identifier(&s), "{:?}", s);
    }
    assert!(is_valid_kdl_identifier("a.b"));
    assert!(is_valid_kdl_identifier("a:b"));
    assert!(is_valid_kdl_identifier("a#b"));
    assert!(is_valid_kdl_identifier("license-file"));
}

#[test]
fn identifier_rejects_what_looks_like_a_number() {
    assert!(!is_valid_kdl_identifier("0"));
    assert!(!is_valid_kdl_identifier("9lives"));
    assert!(!is_valid_kdl_identifier("+1"));
    assert!(!is_valid_kdl_identifier("-5x"));
    assert!(is_valid_kdl_identifier("+"));
    assert!(is_valid_kdl_identifier("-"));
    assert!(is_valid_kdl_identifier("+a"));
    assert!(is_valid_kdl_identifier("--1"));
    assert!(is_valid_kdl_identifier("a1"));
}

#[test]
fn identifier_rejects_what_looks_like_a_raw_string() {
    assert!(!is_valid_kdl_identifier("r#"));
    assert!(!is_valid_kdl_identifier("r#text"));
    assert!(is_valid_kdl_identifier("r"));
    assert!(is_valid_kdl_identifier("raw"));
    assert!(is_valid_kdl_identifier("ar#"));
}

#[test]
fn identifier_rejects_keywords_only_whole() {
    assert!(!is_valid_kdl_identifier("null"));
    assert!(!is_valid_kdl_identifier("true"));
    assert!(!is_valid_kdl_identifier("false"));
    assert!(is_valid_kdl_identifier("nullx"));
    assert!(is_valid_kdl_identifier("True"));
    assert!(is_valid_kdl_identifier("fals"));
    assert!(is_valid_kdl_identifier(""));
}
