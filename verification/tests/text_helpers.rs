use shell0::text::{
    concat3, contains_char, count_char, decimal_string, is_space_char, join, join_path, pad_left,
    remove_char, same_text, starts_with_char, trim, trim_start_char,
};

#[test]
fn trim_removes_unicode_white_space() {
    assert_eq!(trim("  a b \n"), "a b");
    assert_eq!(trim("\u{3000}x\u{a0}"), "x");
    assert_eq!(trim(""), "");
    assert_eq!(trim(" \t "), "");
    for c in ['\t', '\n', '\u{b}', '\u{c}', '\r', ' ', '\u{85}', '\u{a0}', '\u{1680}', '\u{2000}', '\u{200a}', '\u{2028}', '\u{2029}', '\u{202f}', '\u{205f}', '\u{3000}'] {
        assert!(is_space_char(c));
        assert_eq!(is_space_char(c), c.is_whitespace());
    }
    for c in ['a', '\u{200b}', '_', '\u{feff}'] {
        assert_eq!(is_space_char(c), c.is_whitespace());
    }
}

#[test]
fn join_and_decimal() {
    assert_eq!(join(&["a", "b", "c"], ", "), "a, b, c");
    assert_eq!(join(&[], " "), "");
    assert_eq!(decimal_string(0), "0");
    assert_eq!(decimal_string(1234567890), "1234567890");
    assert_eq!(decimal_string(u64::MAX), u64::MAX.to_string());
}

#[test]
fn padding_matches_format_width() {
    assert_eq!(pad_left("7", 3), format!("{:>3}", "7"));
    assert_eq!(pad_left("root", 8), format!("{:>8}", "root"));
    assert_eq!(pad_left("averylongname", 8), "averylongname");
    assert_eq!(pad_left("é", 3), format!("{:>3}", "é"));
}

#[test]
fn path_join_matches_std() {
    for (base, p) in [("/home/u", "docs"), ("/home/u/", "docs"), ("", "x"), ("/a", "/b"), ("/", "etc"), ("a", "")] {
        let expected = std::path::Path::new(base).join(p).to_string_lossy().into_owned();
        assert_eq!(join_path(base, p), expected, "{:?} {:?}", base, p);
    }
}

#[test]
fn character_helpers() {
    assert!(same_text("abc", "abc"));
    assert!(!same_text("abc", "abd"));
    assert!(contains_char("a-b", '-'));
    assert!(!contains_char("ab", '-'));
    assert!(starts_with_char(".x", '.'));
    assert!(!starts_with_char("", '.'));
    assert_eq!(trim_start_char("..a.b", '.'), "a.b");
    assert_eq!(count_char("\"a\"b\"", '"'), 3);
    assert_eq!(remove_char("\"a\"b", '"'), "ab");
    assert_eq!(concat3("x", "y", "z"), "xyz");
}
