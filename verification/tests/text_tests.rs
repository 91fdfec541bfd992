use skill_lab::text::{
    chars_of, occurs, occurs_ignoring_case_in, push_decimal, stat_line, time_line, token_from_bytes,
};

#[test]
fn decimal_of_zero_and_larger_numbers() {
    let mut s = String::new();
    push_decimal(&mut s, 0);
    assert_eq!(s, "0");
    let mut s = String::from("n=");
    push_decimal(&mut s, 1234567890);
    assert_eq!(s, "n=1234567890");
    let mut s = String::new();
    push_decimal(&mut s, u64::MAX);
    assert_eq!(s, u64::MAX.to_string());
}

#[test]
fn stat_lines_write_label_and_count() {
    assert_eq!(stat_line("User", 3), "User: 3");
    assert_eq!(stat_line("Review", 0), "Review: 0");
}

#[test]
fn time_line_splits_seconds() {
    assert_eq!(time_line(0), "Time: 0D 0h 0m 0s");
    assert_eq!(time_line(90061), "Time: 1D 1h 1m 1s");
    assert_eq!(time_line(86399), "Time: 0D 23h 59m 59s");
    assert_eq!(time_line(3 * 86400 + 5), "Time: 3D 0h 0m 5s");
}

#[test]
fn token_concatenates_bytes_in_decimal() {
    assert_eq!(token_from_bytes(&[0, 12, 255]), "012255");
    assert_eq!(token_from_bytes(&[]), "");
    let bytes = [7u8; 16];
    assert_eq!(token_from_bytes(&bytes), "7".repeat(16));
}

#[test]
fn chars_of_keeps_every_character() {
    assert_eq!(chars_of("héllo"), vec!['h', 'é', 'l', 'l', 'o']);
    assert!(chars_of("").is_empty());
}

#[test]
fn substring_search() {
    let hay = chars_of("banana");
    assert!(occurs(&hay, &chars_of("nan")));
    assert!(occurs(&hay, &chars_of("")));
    assert!(occurs(&hay, &chars_of("banana")));
    assert!(!occurs(&hay, &chars_of("bananas")));
    assert!(!occurs(&hay, &chars_of("nab")));
}

#[test]
fn search_ignores_case() {
    assert!(occurs_ignoring_case_in("Hello World", "WORLD"));
    assert!(occurs_ignoring_case_in("Hello World", "lo w"));
    assert!(occurs_ignoring_case_in("abc", ""));
    assert!(!occurs_ignoring_case_in("abc", "x"));
    assert!(!occurs_ignoring_case_in("", "a"));
}
