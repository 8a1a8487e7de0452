use shell_traps::text::{chars_of, parse_i32, same_text, to_ascii_upper, to_decimal};

#[test]
fn decimal_texts() {
    assert_eq!(to_decimal(0), "0");
    assert_eq!(to_decimal(7), "7");
    assert_eq!(to_decimal(10), "10");
    assert_eq!(to_decimal(-120), "-120");
    assert_eq!(to_decimal(i64::MAX), "9223372036854775807");
    assert_eq!(to_decimal(i64::MIN), "-9223372036854775808");
}

#[test]
fn decimal_texts_read_back() {
    for number in [0, 1, -1, 9, 10, 99, -100, 31, i32::MAX, i32::MIN] {
        assert_eq!(parse_i32(&to_decimal(number as i64)), Some(number));
    }
}

#[test]
fn numbers_are_read_as_the_standard_library_reads_them() {
    let texts = [
        "", "+", "-", "0", "-0", "+0", "00", "12", "+12", "-12", "--1", "+-1", "1_000", " 1", "1 ",
        "0x1", "1a", "a1", "2147483647", "2147483648", "-2147483648", "-2147483649",
        "99999999999999999999999", "000000000000000000000007", "\u{661}", "1\u{661}",
    ];
    for text in texts {
        assert_eq!(parse_i32(text), text.parse::<i32>().ok(), "{text:?}");
    }
}

#[test]
fn upper_case_is_ascii_only() {
    for text in ["", "abcxyz", "ABC", "a1-z_", "stra\u{df}e", "\u{e9}a`{z"] {
        assert_eq!(to_ascii_upper(text), text.to_ascii_uppercase());
    }
    assert_eq!(to_ascii_upper("usr1"), "USR1");
}

#[test]
fn texts_are_compared_by_their_characters() {
    assert!(same_text("", ""));
    assert!(same_text("EXIT", "EXIT"));
    assert!(!same_text("EXIT", "EXIt"));
    assert!(!same_text("EXIT", "EXIT "));
    assert_eq!(chars_of("a\u{df}c"), vec!['a', '\u{df}', 'c']);
}
