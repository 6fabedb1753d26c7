use nova_bridge::text::{contains_lowered_str, contains_str, str_eq, trim_str};

#[test]
fn case_folding_search_finds_keywords() {
    assert!(contains_lowered_str("Yards", "yard"));
    assert!(contains_lowered_str("MPH", "mph"));
    assert!(contains_lowered_str("speed in Miles Per Hour (MPH)", "mph"));
    assert!(!contains_lowered_str("metres", "yard"));
    assert!(!contains_lowered_str("", "yard"));
    assert!(contains_lowered_str("yard", "yard"));
    assert!(!contains_lowered_str("yar", "yard"));
}

#[test]
fn exact_search_is_case_sensitive() {
    assert!(contains_str("urn:openlaunch:service:openapi:1", "openlaunch"));
    assert!(!contains_str("URN:OPENLAUNCH", "openlaunch"));
    assert!(contains_str("abc", ""));
}

#[test]
fn string_equality_compares_characters() {
    assert!(str_eq("host", "host"));
    assert!(!str_eq("host", "host2"));
    assert!(!str_eq("a", "b"));
    assert!(str_eq("", ""));
}

#[test]
fn trimming_removes_surrounding_whitespace_only() {
    assert_eq!(trim_str("  http://h:1 \r\n"), "http://h:1");
    assert_eq!(trim_str("inner space kept"), "inner space kept");
    assert_eq!(trim_str(" \t "), "");
    assert_eq!(trim_str(""), "");
    // The full Unicode white-space set, as str::trim strips it.
    assert_eq!(trim_str("\u{00A0}\u{2003}x\u{3000}"), "x");
    assert_eq!(trim_str("\u{85}y\u{2028}"), "y");
}
