use simple_package_tracker::text::{
    chars_of, decimal_string, join, parse_decimal, split_lines, str_eq,
};

#[test]
fn strings_are_equal_when_their_characters_are() {
    assert!(str_eq("", ""));
    assert!(str_eq("delivered", "delivered"));
    assert!(!str_eq("delivered", "delivere"));
    assert!(!str_eq("delivered", "Delivered"));
    assert!(str_eq("colis livré", "colis livré"));
    assert!(!str_eq("colis livré", "colis livre"));
}

#[test]
fn chars_of_gives_every_character() {
    assert_eq!(chars_of(""), Vec::<char>::new());
    assert_eq!(chars_of("a é"), vec!['a', ' ', 'é']);
}

#[test]
fn join_puts_the_second_after_the_first() {
    assert_eq!(join("Error: ", "boom"), "Error: boom");
    assert_eq!(join("", ""), "");
}

#[test]
fn numbers_are_written_in_base_ten() {
    assert_eq!(decimal_string(0), "0");
    assert_eq!(decimal_string(7), "7");
    assert_eq!(decimal_string(10), "10");
    assert_eq!(decimal_string(60), "60");
    assert_eq!(decimal_string(1234567890), "1234567890");
    assert_eq!(decimal_string(u64::MAX), "18446744073709551615");
}

#[test]
fn written_numbers_agree_with_the_standard_library() {
    for n in [0u64, 1, 9, 10, 11, 99, 100, 101, 404, 999, 1000, 65535, 4294967296, u64::MAX - 1] {
        assert_eq!(decimal_string(n), n.to_string());
    }
}

#[test]
fn decimal_numbers_are_read() {
    assert_eq!(parse_decimal("0"), Some(0));
    assert_eq!(parse_decimal("30"), Some(30));
    assert_eq!(parse_decimal("+30"), Some(30));
    assert_eq!(parse_decimal("007"), Some(7));
    assert_eq!(parse_decimal("18446744073709551615"), Some(u64::MAX));
    assert_eq!(parse_decimal("00000000000000000000000000000001"), Some(1));
}

#[test]
fn what_is_no_decimal_number_is_not_read() {
    assert_eq!(parse_decimal(""), None);
    assert_eq!(parse_decimal("+"), None);
    assert_eq!(parse_decimal("-1"), None);
    assert_eq!(parse_decimal("++1"), None);
    assert_eq!(parse_decimal("12a"), None);
    assert_eq!(parse_decimal(" 12"), None);
    assert_eq!(parse_decimal("12 "), None);
    assert_eq!(parse_decimal("1_000"), None);
    assert_eq!(parse_decimal("1.5"), None);
    assert_eq!(parse_decimal("١٢"), None);
    assert_eq!(parse_decimal("18446744073709551616"), None);
    assert_eq!(parse_decimal("99999999999999999999999"), None);
}

#[test]
fn reading_agrees_with_the_standard_library() {
    for text in [
        "", "+", "-", "0", "+0", "-0", "42", "+42", "042", "4 2", "42\n", "0x10", "1e3",
        "18446744073709551615", "18446744073709551616", "184467440737095516150", "é", "٣",
    ] {
        assert_eq!(parse_decimal(text), text.parse::<u64>().ok(), "{:?}", text);
    }
}

#[test]
fn reading_undoes_writing() {
    for n in [0u64, 5, 10, 60, 429, 1_000_000, u64::MAX] {
        assert_eq!(parse_decimal(&decimal_string(n)), Some(n));
    }
}

#[test]
fn lines_are_trimmed_and_empty_ones_dropped() {
    assert_eq!(split_lines("AB123\nCD456"), vec!["AB123", "CD456"]);
    assert_eq!(split_lines("  AB123  \n\n\t\nCD456\n"), vec!["AB123", "CD456"]);
    assert_eq!(split_lines(""), Vec::<String>::new());
    assert_eq!(split_lines("\n\n\n"), Vec::<String>::new());
    assert_eq!(split_lines("   "), Vec::<String>::new());
    assert_eq!(split_lines("one"), vec!["one"]);
}

#[test]
fn carriage_returns_go_with_the_trimming() {
    assert_eq!(split_lines("AB123\r\nCD456\r\n"), vec!["AB123", "CD456"]);
    assert_eq!(split_lines("\r\n\r\nAB123\r\n"), vec!["AB123"]);
}

#[test]
fn white_space_inside_a_line_stays() {
    assert_eq!(split_lines(" AB 123 \n"), vec!["AB 123"]);
}

#[test]
fn unicode_white_space_is_trimmed() {
    assert_eq!(split_lines("\u{a0}AB123\u{3000}\n\u{2003}\n"), vec!["AB123"]);
    assert_eq!(split_lines("é1\n ü2 "), vec!["é1", "ü2"]);
}

#[test]
fn duplicate_lines_are_kept() {
    assert_eq!(split_lines("A\nA\n A \nB"), vec!["A", "A", "A", "B"]);
}

#[test]
fn splitting_agrees_with_the_standard_library() {
    for text in [
        "", "a", "a\n", "\na", "a\r\nb", "a\rb", "a\n\rb", " a \n b \r\n\r\n c", "\u{85}x\u{85}",
        "x\u{2028}y", "tab\there\n\tlead", "\r", "a\r",
    ] {
        let expected: Vec<String> = text
            .lines()
            .map(str::trim)
            .filter(|l| !l.is_empty())
            .map(String::from)
            .collect();
        assert_eq!(split_lines(text), expected, "{:?}", text);
    }
}
