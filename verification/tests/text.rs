use resonance::text::{
    chars_of, compare_text, join_text, contains_text, decimal_text, parse_i64, signed_decimal_text,
    string_of, trim,
};

#[test]
fn numbers_are_written_in_decimal() {
    assert_eq!(decimal_text(0), "0");
    assert_eq!(decimal_text(1982), "1982");
    assert_eq!(decimal_text(u64::MAX), u64::MAX.to_string());
    assert_eq!(signed_decimal_text(-40), "-40");
    assert_eq!(signed_decimal_text(i64::MIN), i64::MIN.to_string());
}

#[test]
fn integers_parse_as_std_parses_them() {
    assert_eq!(parse_i64("180"), Some(180));
    assert_eq!(parse_i64("-1"), Some(-1));
    assert_eq!(parse_i64("+7"), Some(7));
    assert_eq!(parse_i64(""), None);
    assert_eq!(parse_i64("-"), None);
    assert_eq!(parse_i64("12a"), None);
    assert_eq!(parse_i64("9223372036854775807"), Some(i64::MAX));
    assert_eq!(parse_i64("9223372036854775808"), None);
    assert_eq!(parse_i64("-9223372036854775808"), Some(i64::MIN));
    assert_eq!(parse_i64(" 1"), None);
    for text in ["0", "007", "-0", "42", "x", "1.5"] {
        assert_eq!(parse_i64(text), text.parse::<i64>().ok());
    }
}

#[test]
fn texts_trim_like_str_trim() {
    for text in ["  a b  ", "\t\nx", "", "   ", "\u{3000}wide\u{a0}", "plain"] {
        assert_eq!(trim(text), text.trim());
    }
}

#[test]
fn substrings_are_found() {
    assert!(contains_text("kind of blue", "blue"));
    assert!(contains_text("anything", ""));
    assert!(!contains_text("blu", "blue"));
    assert!(!contains_text("Blue", "blue"));
}

#[test]
fn texts_compare_by_code_point() {
    let a = chars_of("alpha");
    let b = chars_of("beta");
    assert_eq!(compare_text(&a, &b), -1);
    assert_eq!(compare_text(&b, &a), 1);
    assert_eq!(compare_text(&a, &chars_of("alpha")), 0);
    assert_eq!(compare_text(&chars_of("al"), &a), -1);
    assert_eq!(string_of(&a), "alpha");
    assert_eq!(join_text("ab", "cd"), "abcd");
}

#[test]
fn decimals_read_back_as_their_numbers() {
    for n in [0u64, 9, 10, 1982, i64::MAX as u64] {
        assert_eq!(parse_i64(&decimal_text(n)), Some(n as i64));
    }
}
