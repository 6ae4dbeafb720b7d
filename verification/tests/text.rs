use photon::engine::physical_plan::names_list_text;
use photon::engine::text::{i64_text, join, u64_text};

#[test]
fn integers_print_in_decimal() {
    assert_eq!(u64_text(0), "0");
    assert_eq!(u64_text(9), "9");
    assert_eq!(u64_text(10), "10");
    assert_eq!(u64_text(1234567890), "1234567890");
    assert_eq!(i64_text(-1), "-1");
    assert_eq!(i64_text(i64::MAX), "9223372036854775807");
    assert_eq!(i64_text(i64::MIN), "-9223372036854775808");
}

#[test]
fn join_puts_the_separator_between_items() {
    assert_eq!(join(&vec![], ", "), "");
    assert_eq!(join(&vec!["a".to_string()], ", "), "a");
    assert_eq!(join(&vec!["a".to_string(), "b".to_string(), "c".to_string()], ", "), "a, b, c");
}

#[test]
fn quoting_matches_rust_debug_for_strings() {
    for s in ["plain", "", "with \"quotes\"", "back\\slash", "tab\tnew\nline\r", "nul\0", "it's", "bell\u{7}", "esc\u{1b}del\u{7f}", "e\u{301}", "zw\u{200b}sp"] {
        let names = vec![s.to_string()];
        assert_eq!(names_list_text(&names), format!("{:?}", names));
    }
    let names = vec!["salary".to_string(), "a\"b".to_string()];
    assert_eq!(names_list_text(&names), format!("{:?}", names));
    assert_eq!(names_list_text(&vec![]), "[]");
}
