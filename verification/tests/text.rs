use todo_session::text::{decimal_text, parse_usize, same_text};

#[test]
fn same_text_compares_whole_strings() {
    assert!(same_text("", ""));
    assert!(same_text("all", "all"));
    assert!(!same_text("all", "al"));
    assert!(!same_text("all", "alL"));
    assert!(!same_text("", "x"));
    assert!(same_text("héllo", "héllo"));
    assert!(!same_text("héllo", "hello"));
}

#[test]
fn parses_plain_numbers() {
    assert_eq!(parse_usize("0"), Some(0));
    assert_eq!(parse_usize("7"), Some(7));
    assert_eq!(parse_usize("1234567890"), Some(1234567890));
}

#[test]
fn parses_a_leading_plus_and_leading_zeros() {
    assert_eq!(parse_usize("+42"), Some(42));
    assert_eq!(parse_usize("007"), Some(7));
    assert_eq!(parse_usize("+000"), Some(0));
    assert_eq!(
        parse_usize("000000000000000000000000000000000000000000000012"),
        Some(12)
    );
}

#[test]
fn refuses_what_is_no_number() {
    for text in ["", "+", "-", "-1", "-0", "++1", "1+", " 1", "1 ", "1_000", "0x10", "12a", "a", "１２", "1.0"] {
        assert_eq!(parse_usize(text), None);
    }
}

#[test]
fn parses_up_to_the_largest_number() {
    let largest = usize::MAX.to_string();
    assert_eq!(parse_usize(&largest), Some(usize::MAX));
    let mut beyond = largest.clone();
    beyond.push('0');
    assert_eq!(parse_usize(&beyond), None);
    let next = (usize::MAX as u128 + 1).to_string();
    assert_eq!(parse_usize(&next), None);
}

#[test]
fn parsing_agrees_with_the_standard_parser() {
    for text in ["", "+", "0", "+0", "-0", "18446744073709551615", "18446744073709551616", "4294967295", "4294967296", "99999999999999999999", "0018446744073709551615", "+18446744073709551615", "5x", "x5", "٣"] {
        assert_eq!(parse_usize(text), text.parse::<usize>().ok());
    }
}

#[test]
fn writes_numbers_in_decimal() {
    assert_eq!(decimal_text(0), "0");
    assert_eq!(decimal_text(9), "9");
    assert_eq!(decimal_text(10), "10");
    assert_eq!(decimal_text(1234567890), "1234567890");
    assert_eq!(decimal_text(100200), "100200");
    assert_eq!(decimal_text(usize::MAX), usize::MAX.to_string());
}

#[test]
fn reading_inverts_writing() {
    for value in [0usize, 1, 9, 10, 11, 99, 100, 101, 65535, 4294967295, usize::MAX - 1, usize::MAX] {
        assert_eq!(parse_usize(&decimal_text(value)), Some(value));
    }
}
