use espanso_core::strutil::{
    contains_sub, join_with, split_on, str_eq, str_eq_ci, strip_prefix_str, trim_matching,
    trim_spaces, truncate_chars,
};

#[test]
fn str_eq_compares_characters() {
    assert!(str_eq("abc", "abc"));
    assert!(!str_eq("abc", "abd"));
    assert!(!str_eq("abc", "ab"));
    assert!(str_eq("", ""));
}

#[test]
fn contains_sub_finds_substrings() {
    assert!(contains_sub("Terminal - bash", "Terminal"));
    assert!(contains_sub("abc", ""));
    assert!(contains_sub("abc", "abc"));
    assert!(contains_sub("abcabd", "abd"));
    assert!(!contains_sub("abc", "abcd"));
    assert!(!contains_sub("Slack", "Terminal"));
}

#[test]
fn split_and_join_round_trip() {
    let parts = split_on("a;bb;;c", ';');
    assert_eq!(parts, vec!["a", "bb", "", "c"]);
    assert_eq!(join_with(&parts, ";"), "a;bb;;c");

    assert_eq!(split_on("", ';'), vec![""]);
    assert_eq!(split_on("abc", ';'), vec!["abc"]);
}

#[test]
fn strip_prefix_str_splits_exactly() {
    assert_eq!(strip_prefix_str("Title: x", "Title:"), Some(" x".to_string()));
    assert_eq!(strip_prefix_str("Title", "Title:"), None);
    assert_eq!(strip_prefix_str("App ID: y", "Title:"), None);
}

#[test]
fn trim_spaces_strips_both_ends() {
    assert_eq!(trim_spaces("  a b \t\r\n"), "a b");
    assert_eq!(trim_spaces(""), "");
    assert_eq!(trim_spaces("   "), "");
}

#[test]
fn trim_matching_strips_every_quote() {
    assert_eq!(trim_matching("\"\"x\"\"", '"'), "x");
    assert_eq!(trim_matching("x", '"'), "x");
    assert_eq!(trim_matching("\"\"", '"'), "");
}

#[test]
fn truncate_chars_takes_a_prefix() {
    assert_eq!(truncate_chars("abcdef", 3), "abc");
    assert_eq!(truncate_chars("ab", 3), "ab");
    assert_eq!(truncate_chars("abcdef", 0), "");
}

#[test]
fn str_eq_ci_ignores_ascii_case() {
    assert!(str_eq_ci("YML", "yml"));
    assert!(str_eq_ci("YaMl", "yaml"));
    assert!(!str_eq_ci("yml", "yaml"));
}
