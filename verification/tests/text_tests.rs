use jgsm::text::{
    contains, keep_ascii_digits, keep_number_chars, month_marker, parse_i32, parse_u32,
    parse_usize, same_text, trim,
};

#[test]
fn contains_finds_substrings() {
    assert!(contains("KB국민은행 바둑리그", "KB"));
    assert!(contains("韩国围甲联赛", "韩国围甲"));
    assert!(!contains("韩国围棋", "韩国围甲"));
    assert!(contains("abc", ""));
    assert!(!contains("", "a"));
    assert!(contains("2024-05-17", "-05-"));
    assert!(!contains("ab", "abc"));
}

#[test]
fn contains_matches_std() {
    let cases = [("hello world", "o w"), ("aaa", "aa"), ("abcabd", "abd"), ("xyz", "yx"), ("", "")];
    for (h, n) in cases {
        assert_eq!(contains(h, n), h.contains(n));
    }
}

#[test]
fn same_text_compares_characters() {
    assert!(same_text("exit", "exit"));
    assert!(!same_text("exit", "exi"));
    assert!(!same_text("1", "2"));
    assert!(same_text("", ""));
}

#[test]
fn trim_removes_unicode_white_space() {
    assert_eq!(trim("  12 \n"), "12");
    assert_eq!(trim("\u{3000}exit\u{a0}"), "exit");
    assert_eq!(trim("   "), "");
    assert_eq!(trim("a b"), "a b");
    for s in ["\t x \r\n", "\u{2003}y\u{2028}", "z", ""] {
        assert_eq!(trim(s), s.trim());
    }
}

#[test]
fn trim_twice_is_trim_once() {
    for s in ["  a  ", "\u{85}b\u{85}", "c", " "] {
        assert_eq!(trim(trim(s)), trim(s));
    }
}

#[test]
fn parse_usize_follows_from_str() {
    assert_eq!(parse_usize("5"), Some(5));
    assert_eq!(parse_usize("+7"), Some(7));
    assert_eq!(parse_usize("007"), Some(7));
    assert_eq!(parse_usize(""), None);
    assert_eq!(parse_usize("+"), None);
    assert_eq!(parse_usize("-1"), None);
    assert_eq!(parse_usize("1 "), None);
    assert_eq!(parse_usize("18446744073709551616"), None);
    for s in ["0", "12", "+3", "x", "99999999999999999999", "4.5"] {
        assert_eq!(parse_usize(s), s.parse::<usize>().ok());
    }
}

#[test]
fn parse_u32_bounds() {
    assert_eq!(parse_u32("4294967295"), Some(u32::MAX));
    assert_eq!(parse_u32("4294967296"), None);
    assert_eq!(parse_u32("12"), Some(12));
}

#[test]
fn parse_i32_signs_and_range() {
    assert_eq!(parse_i32("-2147483648"), Some(i32::MIN));
    assert_eq!(parse_i32("2147483647"), Some(i32::MAX));
    assert_eq!(parse_i32("2147483648"), None);
    assert_eq!(parse_i32("-2147483649"), None);
    assert_eq!(parse_i32("-"), None);
    assert_eq!(parse_i32("+-1"), None);
    assert_eq!(parse_i32("-12"), Some(-12));
    assert_eq!(parse_i32("12345"), Some(12345));
}

#[test]
fn digit_filters_keep_the_right_characters() {
    assert_eq!(keep_ascii_digits("2024년 5월"), "20245");
    assert_eq!(keep_ascii_digits("9,876점"), "9876");
    assert_eq!(keep_ascii_digits("abc"), "");
    assert_eq!(keep_number_chars("AI 승률 63.5%"), "63.5");
    assert_eq!(keep_number_chars("수순 120"), "120");
}

#[test]
fn month_marker_pads_to_two_digits() {
    assert_eq!(month_marker(5), "-05-");
    assert_eq!(month_marker(12), "-12-");
    assert_eq!(month_marker(0), "-00-");
    assert_eq!(month_marker(123), "-123-");
    for m in [1u32, 9, 10, 11, 57, 4000] {
        assert_eq!(month_marker(m), format!("-{:02}-", m));
    }
}

#[test]
fn month_marker_reads_back() {
    for m in [1u32, 7, 10, 12] {
        let marker = month_marker(m);
        let middle = &marker[1..marker.len() - 1];
        assert_eq!(parse_u32(middle), Some(m));
    }
}
