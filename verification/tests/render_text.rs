use tracky::render::{clock_string, duration_string, join_lines, pad2_string, u64_to_string};
use tracky::order::{sort_strings, str_lex_lt};

#[test]
fn decimal_rendering() {
    assert_eq!(u64_to_string(0), "0");
    assert_eq!(u64_to_string(7), "7");
    assert_eq!(u64_to_string(10), "10");
    assert_eq!(u64_to_string(1234567890), "1234567890");
    assert_eq!(u64_to_string(u64::MAX), "18446744073709551615");
}

#[test]
fn two_digit_padding() {
    assert_eq!(pad2_string(0), "00");
    assert_eq!(pad2_string(9), "09");
    assert_eq!(pad2_string(10), "10");
    assert_eq!(pad2_string(59), "59");
    assert_eq!(pad2_string(123), "123");
}

#[test]
fn duration_policy_under_a_minute() {
    assert_eq!(duration_string(0), "0s");
    assert_eq!(duration_string(5), "5s");
    assert_eq!(duration_string(59), "59s");
}

#[test]
fn duration_policy_under_an_hour() {
    assert_eq!(duration_string(60), "1:00");
    assert_eq!(duration_string(61), "1:01");
    assert_eq!(duration_string(599), "9:59");
    assert_eq!(duration_string(600), "10:00");
    assert_eq!(duration_string(3599), "59:59");
}

#[test]
fn duration_policy_hours_and_more() {
    assert_eq!(duration_string(3600), "01:00:00");
    assert_eq!(duration_string(3661), "01:01:01");
    assert_eq!(duration_string(100 * 3600 + 61), "100:01:01");
}

#[test]
fn clock_rendering() {
    assert_eq!(clock_string(0, 0, 0), "0:00:00");
    assert_eq!(clock_string(9, 5, 7), "9:05:07");
    assert_eq!(clock_string(23, 59, 59), "23:59:59");
}

#[test]
fn joining_lines() {
    let empty: Vec<String> = Vec::new();
    assert_eq!(join_lines(&empty), "");
    assert_eq!(join_lines(&vec![String::from("a")]), "a");
    let three = vec![String::from("a"), String::from("b"), String::from("c")];
    assert_eq!(join_lines(&three), "a\nb\nc");
}

#[test]
fn lexicographic_comparison() {
    assert!(str_lex_lt("", "a"));
    assert!(!str_lex_lt("a", ""));
    assert!(str_lex_lt("a", "b"));
    assert!(str_lex_lt("a", "ab"));
    assert!(!str_lex_lt("ab", "a"));
    assert!(!str_lex_lt("same", "same"));
    assert!(str_lex_lt("Z", "a"));
}

#[test]
fn sorting_strings() {
    let v = vec![
        String::from("b"),
        String::from("a"),
        String::from("ab"),
        String::from("aa"),
        String::from(""),
    ];
    let sorted = sort_strings(v);
    assert_eq!(
        sorted,
        vec![
            String::from(""),
            String::from("a"),
            String::from("aa"),
            String::from("ab"),
            String::from("b"),
        ]
    );
}
