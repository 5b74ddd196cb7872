use octoget::text::{
    chars_after_last, chars_before_first, contains, decimal_string, is_blank, parse_u64, remove_all_text, replace_text, starts_with,
    trimmed,
};

#[test]
fn trimming_and_blank_text() {
    assert_eq!(trimmed("  a b \t\n"), "a b");
    assert_eq!(trimmed("\u{3000}x\u{a0}"), "x");
    assert_eq!(trimmed("   "), "");
    assert!(is_blank(" \t "));
    assert!(is_blank(""));
    assert!(!is_blank(" x "));
}

#[test]
fn searching_text() {
    assert!(contains("application/json; charset=utf-8", "application/json"));
    assert!(contains("abc", ""));
    assert!(!contains("ab", "abc"));
    assert!(starts_with("MD5:abcd", "MD5:"));
    assert!(!starts_with("MD", "MD5:"));
}

#[test]
fn splitting_text() {
    let v: Vec<char> = "http://h/a/b.zip?x=1".chars().collect();
    let tail = chars_after_last(&v, '/');
    assert_eq!(tail.iter().collect::<String>(), "b.zip?x=1");
    assert_eq!(chars_before_first(&tail, '?').iter().collect::<String>(), "b.zip");
    let none: Vec<char> = "abc".chars().collect();
    assert_eq!(chars_after_last(&none, '/'), none);
    assert_eq!(chars_before_first(&none, '?'), none);
}

#[test]
fn parsing_numbers_like_std() {
    for s in ["0", "42", "+7", "007", "18446744073709551615", "18446744073709551616", "", "+", "-1", "1a", " 1"] {
        assert_eq!(parse_u64(s), s.parse::<u64>().ok(), "{}", s);
    }
}

#[test]
fn spelling_numbers() {
    assert_eq!(decimal_string(0), "0");
    assert_eq!(decimal_string(50051), "50051");
    assert_eq!(decimal_string(u64::MAX), u64::MAX.to_string());
    assert_eq!(parse_u64(&decimal_string(123456789)), Some(123456789));
}

#[test]
fn removing_patterns_like_replace() {
    for (h, p) in [("Bearer tok", "Bearer "), ("Bearer Bearer x", "Bearer "), ("xBearer y", "Bearer "), ("aaa", "aa"), ("", "x")] {
        assert_eq!(remove_all_text(h, p), h.replace(p, ""));
    }
}

#[test]
fn placeholders_are_filled() {
    assert_eq!(replace_text("let t = '__T__'; f('__T__')", "__T__", "abc"), "let t = 'abc'; f('abc')");
    assert_eq!(replace_text("aaaa", "aa", "b"), "bb");
    assert_eq!(replace_text("no marker", "__T__", "x"), "no marker");
    for (h, p, w) in [("xyxyx", "xy", "Z"), ("", "q", "r"), ("<!-- A --><!-- A -->", "<!-- A -->", "")] {
        assert_eq!(replace_text(h, p, w), h.replace(p, w));
    }
}
