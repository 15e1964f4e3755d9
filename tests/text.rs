use branch_picker::text::{contains_str, decimal_string, lowercase, matches_folded};

#[test]
fn substring_search() {
    assert!(contains_str("feature-x", "feat"));
    assert!(contains_str("feature-x", "-x"));
    assert!(contains_str("feature-x", ""));
    assert!(contains_str("", ""));
    assert!(!contains_str("", "a"));
    assert!(!contains_str("fe", "feature"));
    assert!(!contains_str("feature-x", "fx"));
    assert!(contains_str("ünïcode", "nïc"));
}

#[test]
fn folded_matching() {
    assert!(matches_folded("main", "ai"));
    assert!(!matches_folded("main", "AI"));
}

#[test]
fn lowercase_per_character() {
    assert_eq!(lowercase("Feature-X"), "feature-x");
    assert_eq!(lowercase(""), "");
    assert_eq!(lowercase("\u{130}STANBUL"), "istanbul");
    assert_eq!(lowercase("\u{39F}\u{394}\u{39F}\u{3A3}"), "\u{3BF}\u{3B4}\u{3BF}\u{3C3}");
}

#[test]
fn decimal_strings() {
    assert_eq!(decimal_string(0), "0");
    assert_eq!(decimal_string(7), "7");
    assert_eq!(decimal_string(10), "10");
    assert_eq!(decimal_string(1234567), "1234567");
    assert_eq!(decimal_string(u64::MAX), "18446744073709551615");
}
