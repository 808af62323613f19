use claude_code::text::{
    chars_of, contains_char, contains_str, decimal, lines, pad_right, repeat_str, starts_with,
    str_eq, trim,
};

#[test]
fn trim_matches_std() {
    for s in ["", "  a b  ", "\u{a0}\u{2003}x\u{3000}", "\n\t", "x", "\u{200b}x\u{200b}"] {
        assert_eq!(trim(s), s.trim(), "input {:?}", s);
    }
}

#[test]
fn lines_match_std() {
    for s in ["", "a", "a\n", "a\nb", "\n", "\n\n", "a\r\nb\r\n", "a\rb", "x\r", "é\nü"] {
        let ours: Vec<&str> = lines(s);
        let theirs: Vec<&str> = s.lines().collect();
        assert_eq!(ours, theirs, "input {:?}", s);
    }
}

#[test]
fn decimal_matches_to_string() {
    for n in [0u64, 7, 10, 99, 100, 4096, 1234567890, u64::MAX] {
        assert_eq!(decimal(n), n.to_string());
    }
}

#[test]
fn padding_and_repeat() {
    assert_eq!(pad_right("ab", 5), "ab   ");
    assert_eq!(pad_right("abcdef", 3), "abcdef");
    assert_eq!(pad_right("é", 3), format!("{:3}", "é"));
    assert_eq!(repeat_str("ab", 3), "ababab");
    assert_eq!(repeat_str("x", 0), "");
}

#[test]
fn searching() {
    assert!(starts_with("hello", "he"));
    assert!(!starts_with("he", "hello"));
    assert!(starts_with("x", ""));
    assert!(contains_str("a if b", " if "));
    assert!(!contains_str("aif b", " if "));
    assert!(contains_str("", ""));
    assert!(contains_char("a`b", '`'));
    assert!(!contains_char("ab", '`'));
    assert!(str_eq("exit", "exit"));
    assert!(!str_eq("exit", "exi"));
    assert_eq!(chars_of("héllo"), vec!['h', 'é', 'l', 'l', 'o']);
}
