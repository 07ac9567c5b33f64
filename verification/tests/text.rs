use room_relay::text::{
    chars_of, decimal_i32, decimal_u64, decimal_usize, find_char, find_newline, find_space,
    is_whitespace, parse_decimal, parse_i32, same_text, trim_bounds,
};

#[test]
fn whitespace_is_the_unicode_property() {
    for u in 0..=0x10FFFFu32 {
        if let Some(c) = char::from_u32(u) {
            assert_eq!(is_whitespace(c), c.is_whitespace(), "U+{:04X}", u);
        }
    }
}

#[test]
fn decimal_of_small_and_large_numbers() {
    assert_eq!(decimal_u64(0), "0");
    assert_eq!(decimal_u64(9), "9");
    assert_eq!(decimal_u64(10), "10");
    assert_eq!(decimal_u64(1234567890), "1234567890");
    assert_eq!(decimal_u64(u64::MAX), "18446744073709551615");
    assert_eq!(decimal_usize(usize::MAX), usize::MAX.to_string());
    assert_eq!(decimal_usize(42), "42");
}

#[test]
fn decimal_agrees_with_to_string() {
    let mut n: u64 = 1;
    for _ in 0..64 {
        assert_eq!(decimal_u64(n), n.to_string());
        assert_eq!(decimal_u64(n - 1), (n - 1).to_string());
        n = n.wrapping_mul(3).wrapping_add(7);
    }
}

#[test]
fn decimal_of_signed_numbers() {
    assert_eq!(decimal_i32(0), "0");
    assert_eq!(decimal_i32(6), "6");
    assert_eq!(decimal_i32(-1), "-1");
    assert_eq!(decimal_i32(i32::MAX), "2147483647");
    assert_eq!(decimal_i32(i32::MIN), "-2147483648");
}

#[test]
fn chars_of_keeps_every_character() {
    assert_eq!(chars_of(""), Vec::<char>::new());
    assert_eq!(chars_of("a/b c"), vec!['a', '/', 'b', ' ', 'c']);
    assert_eq!(chars_of("已加入"), vec!['已', '加', '入']);
}

#[test]
fn trim_bounds_agree_with_trim() {
    let samples = [
        "",
        " ",
        "  \t\n ",
        "abc",
        "  abc",
        "abc  ",
        " \t a b \r\n",
        "\u{3000}x\u{a0}",
        "\u{2003}/join room\u{2028}",
    ];
    for s in samples {
        let chars = chars_of(s);
        let (a, b) = trim_bounds(&chars);
        let got: String = chars[a..b].iter().collect();
        assert_eq!(got, s.trim(), "{:?}", s);
    }
}

#[test]
fn trim_bounds_of_blank_text_are_empty() {
    let chars = chars_of(" \t ");
    let (a, b) = trim_bounds(&chars);
    assert_eq!(a, b);
}

#[test]
fn find_space_stops_at_first_whitespace() {
    let chars = chars_of("/join room one");
    assert_eq!(find_space(&chars, 0, chars.len()), 5);
    assert_eq!(find_space(&chars, 6, chars.len()), 10);
    assert_eq!(find_space(&chars, 11, chars.len()), 14);
    let tabbed = chars_of("/join\troom");
    assert_eq!(find_space(&tabbed, 0, tabbed.len()), 5);
    let none = chars_of("/list");
    assert_eq!(find_space(&none, 0, none.len()), 5);
    assert_eq!(find_space(&none, 2, 4), 4);
}

#[test]
fn find_newline_stops_at_first_line_feed() {
    let chars = chars_of("42\n1.5x\nrest");
    assert_eq!(find_newline(&chars, 0, chars.len()), 2);
    assert_eq!(find_newline(&chars, 3, chars.len()), 7);
    let none = chars_of("42 1.5x");
    assert_eq!(find_newline(&none, 0, none.len()), none.len());
}

#[test]
fn same_text_compares_contents() {
    assert!(same_text("", ""));
    assert!(same_text("/join", "/join"));
    assert!(!same_text("/join", "/joi"));
    assert!(!same_text("/join", "/joins"));
    assert!(!same_text("/join", "/Join"));
    assert!(same_text("房间", "房间"));
    assert!(!same_text("房间", "房問"));
}

#[test]
fn find_char_stops_at_the_first_one() {
    let chars = chars_of("[12,a,b]");
    assert_eq!(find_char(&chars, 1, 7, ','), 3);
    assert_eq!(find_char(&chars, 4, 7, ','), 5);
    assert_eq!(find_char(&chars, 6, 7, ','), 7);
    assert_eq!(find_char(&chars, 0, 8, ']'), 7);
    assert_eq!(find_char(&chars, 3, 3, ','), 3);
}

#[test]
fn parse_decimal_reads_numerals() {
    let read = |s: &str| {
        let chars = chars_of(s);
        parse_decimal(&chars, 0, chars.len())
    };
    assert_eq!(read("0"), Some(0));
    assert_eq!(read("7"), Some(7));
    assert_eq!(read("10"), Some(10));
    assert_eq!(read("1234567890"), Some(1234567890));
    assert_eq!(read("18446744073709551615"), Some(u64::MAX));
    assert_eq!(read("18446744073709551616"), None);
    assert_eq!(read("99999999999999999999"), None);
    assert_eq!(read(""), None);
    assert_eq!(read("00"), None);
    assert_eq!(read("07"), None);
    assert_eq!(read("7a"), None);
    assert_eq!(read("-7"), None);
    assert_eq!(read("+7"), None);
    assert_eq!(read(" 7"), None);
    assert_eq!(read("٣"), None);
}

#[test]
fn parse_decimal_reads_a_part_of_the_text() {
    let chars = chars_of("[42,x]");
    assert_eq!(parse_decimal(&chars, 1, 3), Some(42));
    assert_eq!(parse_decimal(&chars, 2, 3), Some(2));
    assert_eq!(parse_decimal(&chars, 1, 4), None);
    assert_eq!(parse_decimal(&chars, 3, 3), None);
}

#[test]
fn parse_i32_reads_signed_numerals() {
    let read = |s: &str| {
        let chars = chars_of(s);
        parse_i32(&chars, 0, chars.len())
    };
    assert_eq!(read("0"), Some(0));
    assert_eq!(read("6"), Some(6));
    assert_eq!(read("-1"), Some(-1));
    assert_eq!(read("2147483647"), Some(i32::MAX));
    assert_eq!(read("-2147483648"), Some(i32::MIN));
    assert_eq!(read("2147483648"), None);
    assert_eq!(read("-2147483649"), None);
    assert_eq!(read("-0"), None);
    assert_eq!(read("-"), None);
    assert_eq!(read(""), None);
    assert_eq!(read("--1"), None);
    assert_eq!(read("-01"), None);
    assert_eq!(read("1-"), None);
}

#[test]
fn parse_is_the_inverse_of_decimal() {
    let numbers = [0i32, 1, 9, 10, 99, 100, 65535, i32::MAX, -1, -10, -65536, i32::MIN];
    for n in numbers {
        let chars = chars_of(&decimal_i32(n));
        assert_eq!(parse_i32(&chars, 0, chars.len()), Some(n));
    }
}
