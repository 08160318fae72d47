use chatgpt_bot::text::{
    chars_of, contains, decimal_string, find, is_whitespace, replace, strip_prefix, trim,
    utf8_prefix_shorter_than,
};

#[test]
fn trimming_matches_std() {
    for x in ["  hi \n", "\u{3000}x\u{a0}", " \t\r\n ", "", "a b", "\u{85}y\u{2028}", "\u{200b}z"] {
        assert_eq!(trim(x), x.trim());
    }
    for c in ['\t', '\n', ' ', '\u{85}', '\u{a0}', '\u{1680}', '\u{2000}', '\u{200a}', '\u{3000}', 'a', '\u{200b}', '字'] {
        assert_eq!(is_whitespace(c), c.is_whitespace());
    }
}

#[test]
fn prefixes() {
    assert_eq!(strip_prefix("#abc", "#"), Some("abc"));
    assert_eq!(strip_prefix("abc", "#"), None);
    assert_eq!(strip_prefix("abc", ""), Some("abc"));
    assert_eq!(strip_prefix("前缀文字", "前缀"), Some("文字"));
    assert_eq!(strip_prefix("#", "##"), None);
}

#[test]
fn searching() {
    assert_eq!(find("你好\n\n世界", "\n\n"), Some(2));
    assert_eq!(find("abcabc", "c"), Some(2));
    assert_eq!(find("abc", "d"), None);
    assert_eq!(find("abc", ""), Some(0));
    assert_eq!(find("", ""), Some(0));
    assert_eq!(find("ab", "abc"), None);
    assert!(contains("我的钱包", "钱包"));
    assert!(!contains("我的钱", "钱包"));
    assert!(contains("x", ""));
}

#[test]
fn replacing_matches_std() {
    let cases = [
        ("abc", "", "x"),
        ("", "", "x"),
        ("aab", "ab", "b"),
        ("aaaa", "aa", "a"),
        ("\n\n\n", "\n\n", "\r"),
        ("我是AI语言模型", "AI语言模型", "人工智障"),
        ("none here", "zz", "y"),
        ("", "a", "b"),
        ("abab", "ab", ""),
    ];
    for (a, b, c) in cases {
        assert_eq!(replace(a, b, c), a.replace(b, c));
    }
}

#[test]
fn replacing_an_absent_pattern_changes_nothing() {
    assert_eq!(replace("hello world", "xyz", "abc"), "hello world");
    assert_eq!(replace("钱包", "钱钱", "q"), "钱包");
}

#[test]
fn decimals() {
    for n in [0u64, 7, 10, 99, 1100, 3000, 65535, u64::MAX] {
        assert_eq!(decimal_string(n), n.to_string());
    }
}

#[test]
fn utf8_lengths() {
    let v = chars_of("字a\n");
    assert_eq!(v, vec!['字', 'a', '\n']);
    assert!(utf8_prefix_shorter_than(&v, 1, 4));
    assert!(!utf8_prefix_shorter_than(&v, 1, 3));
    assert!(utf8_prefix_shorter_than(&v, 3, 6));
    assert!(!utf8_prefix_shorter_than(&v, 3, 5));
    assert!(!utf8_prefix_shorter_than(&v, 0, 0));
    let e = chars_of("é😀");
    assert!(utf8_prefix_shorter_than(&e, 2, 7));
    assert!(!utf8_prefix_shorter_than(&e, 2, 6));
}
