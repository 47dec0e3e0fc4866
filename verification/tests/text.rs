use embed_server::text::{
    contains, contains_char, ends_with, eq_ignore_case, is_whitespace, parse_i32, parse_u16,
    parse_u32, parse_usize, push_decimal, push_hexadecimal, replace_char, same, split,
    starts_with, trim, IntError,
};

const SAMPLES: [&str; 26] = [
    "", " ", "+", "-", "0", "+0", "-0", "7", "+7", "-7", "007", "12 ", " 12", "1_0", "0x10", "9a",
    "65535", "65536", "4294967295", "4294967296", "2147483647", "2147483648", "-2147483648",
    "-2147483649", "18446744073709551615", "18446744073709551616",
];

#[test]
fn white_space_is_that_of_the_standard_library() {
    for u in 0..=0x10ffffu32 {
        if let Some(c) = char::from_u32(u) {
            assert_eq!(is_whitespace(c), c.is_whitespace(), "{u:#x}");
        }
    }
}

#[test]
fn trimming_and_splitting_agree_with_the_standard_library() {
    for s in ["", " ", "a", "  a b  ", "\u{3000}x\u{a0}", "\t\n", "\u{e9} "] {
        assert_eq!(trim(s), s.trim());
    }
    for s in ["", ",", "a", "a,b", ",a,,b,", "\u{e9},\u{df}"] {
        assert_eq!(split(s, ','), s.split(',').collect::<Vec<_>>());
    }
}

#[test]
fn numbers_are_read_as_the_standard_library_reads_them() {
    for s in SAMPLES {
        assert_eq!(parse_usize(s).map_err(|e| e.text().to_string()), s.parse::<usize>().map_err(|e| e.to_string()), "{s}");
        assert_eq!(parse_u32(s).map_err(|e| e.text().to_string()), s.parse::<u32>().map_err(|e| e.to_string()), "{s}");
        assert_eq!(parse_u16(s).map_err(|e| e.text().to_string()), s.parse::<u16>().map_err(|e| e.to_string()), "{s}");
        assert_eq!(parse_i32(s).map_err(|e| e.text().to_string()), s.parse::<i32>().map_err(|e| e.to_string()), "{s}");
    }
}

#[test]
fn each_reason_why_a_text_is_no_number() {
    assert_eq!(parse_i32(""), Err(IntError::Empty));
    assert_eq!(parse_i32("x"), Err(IntError::InvalidDigit));
    assert_eq!(parse_i32("9999999999"), Err(IntError::PosOverflow));
    assert_eq!(parse_i32("-9999999999"), Err(IntError::NegOverflow));
    assert_eq!(parse_u16("65536x"), Err(IntError::PosOverflow));
    assert_eq!(parse_u16("6553x"), Err(IntError::InvalidDigit));
}

#[test]
fn numbers_are_written_as_the_standard_library_writes_them() {
    for n in [0u64, 9, 10, 99, 100, 12345, u64::MAX] {
        let mut s = String::from("n=");
        push_decimal(&mut s, n);
        assert_eq!(s, format!("n={n}"));
        let mut h = String::new();
        push_hexadecimal(&mut h, n as u128 * 3);
        assert_eq!(h, format!("{:x}", n as u128 * 3));
    }
}

#[test]
fn searching() {
    assert!(contains("abcabd", "abd"));
    assert!(contains("", ""));
    assert!(contains("a", ""));
    assert!(!contains("ab", "abc"));
    assert!(contains_char("a/b", '/'));
    assert!(!contains_char("ab", '/'));
    assert!(starts_with("abc", "ab") && !starts_with("abc", "b"));
    assert!(ends_with("abc", "bc") && !ends_with("abc", "ab") && !ends_with("c", "bc"));
    assert!(same("a\u{e9}", "a\u{e9}") && !same("a", "b") && !same("a", "ab"));
}

#[test]
fn case_is_ignored_for_ascii_letters_only() {
    assert!(eq_ignore_case("MaX", "max"));
    assert!(!eq_ignore_case("\u{c9}", "\u{e9}"));
    assert!(!eq_ignore_case("max", "maxi"));
    assert_eq!(replace_char("a-b-", '-', '_'), "a_b_");
}
