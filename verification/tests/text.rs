use yuflow::text::{
    chars_of, contains_text, decimal_text, ends_with, same_text, starts_with, text_at_or_before,
};

#[test]
fn substring_search_matches_std() {
    let cases = [
        ("Learn Rust Programming", "Rust"),
        ("Learn Rust Programming", "rust"),
        ("Milk, bread", "Milk"),
        ("abc", ""),
        ("", ""),
        ("", "a"),
        ("aaa", "aaaa"),
        ("aab", "ab"),
        ("naïve café", "ïve c"),
        ("abcabd", "abd"),
    ];
    for (hay, needle) in cases {
        assert_eq!(contains_text(hay, needle), hay.contains(needle), "{:?} in {:?}", needle, hay);
    }
}

#[test]
fn text_order_is_that_of_str() {
    let words = ["", "a", "A", "ab", "abc", "abd", "b", "é", "z", "Z", "10", "9", "+", "."];
    for a in words {
        for b in words {
            assert_eq!(text_at_or_before(a, b), a <= b, "{:?} <= {:?}", a, b);
        }
    }
}

#[test]
fn text_equality_and_affixes() {
    assert!(same_text("low", "low"));
    assert!(!same_text("low", "Low"));
    assert!(!same_text("low", "lo"));
    assert!(same_text("", ""));
    assert!(starts_with("yuflow_backup_x", "yuflow_backup_"));
    assert!(!starts_with("yuflow", "yuflow_backup_"));
    assert!(starts_with("abc", ""));
    assert!(ends_with("a.json", ".json"));
    assert!(!ends_with("json", ".json"));
    assert!(!ends_with("a.jsonx", ".json"));
    assert_eq!(chars_of("aé"), vec!['a', 'é']);
}

#[test]
fn decimal_numerals() {
    assert_eq!(decimal_text(0), "0");
    assert_eq!(decimal_text(7), "7");
    assert_eq!(decimal_text(10), "10");
    assert_eq!(decimal_text(1000), "1000");
    assert_eq!(decimal_text(1700000000), "1700000000");
    assert_eq!(decimal_text(u64::MAX), "18446744073709551615");
}
