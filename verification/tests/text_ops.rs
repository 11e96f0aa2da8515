use intra_codex::text::{
    ceil_quarter, char_count, is_blank_str, is_whitespace, join, less_than, replace_char,
    rough_tokens, split_lines, starts_with_char, strip_leading_char, take_chars, text_eq, trim,
    trim_start,
};

#[test]
fn trim_removes_unicode_white_space_at_both_ends() {
    assert_eq!(trim("  hello world \n"), "hello world");
    assert_eq!(trim("\u{3000}\tx y\u{a0}"), "x y");
    assert_eq!(trim("   "), "");
    assert_eq!(trim(""), "");
    assert_eq!(trim("inner  space"), "inner  space");
}

#[test]
fn trim_agrees_with_std() {
    for s in ["", " a ", "\u{2028}b\u{85}", "\u{200b}c", "ü ", "\r\n\r\n"] {
        assert_eq!(trim(s), s.trim());
        assert_eq!(trim_start(s), s.trim_start());
        assert_eq!(is_blank_str(s), s.trim().is_empty());
    }
}

#[test]
fn whitespace_matches_char_is_whitespace() {
    for u in 0u32..0x3100 {
        if let Some(c) = char::from_u32(u) {
            assert_eq!(is_whitespace(c), c.is_whitespace(), "{u:#x}");
        }
    }
}

#[test]
fn blank_text() {
    assert!(is_blank_str(""));
    assert!(is_blank_str(" \t\n"));
    assert!(!is_blank_str(" x "));
}

#[test]
fn take_chars_counts_characters_not_bytes() {
    assert_eq!(take_chars("新会话标题", 3), "新会话");
    assert_eq!(take_chars("ab", 48), "ab");
    assert_eq!(take_chars("", 5), "");
}

#[test]
fn replace_backslashes() {
    assert_eq!(replace_char("src\\main.rs", '\\', '/'), "src/main.rs");
    assert_eq!(replace_char("plain", '\\', '/'), "plain");
}

#[test]
fn join_with_separator() {
    let parts = vec!["a".to_string(), "b".to_string(), "c".to_string()];
    assert_eq!(join(&parts, "\n\n"), "a\n\nb\n\nc");
    assert_eq!(join(&vec!["only".to_string()], ", "), "only");
    assert_eq!(join(&Vec::new(), ", "), "");
}

#[test]
fn lexicographic_order_matches_str() {
    let cases = [("a", "b"), ("a", "a"), ("ab", "a"), ("", "a"), ("2025-01-02", "2025-01-10"), ("é", "z")];
    for (a, b) in cases {
        assert_eq!(less_than(a, b), a < b, "{a} < {b}");
        assert_eq!(less_than(b, a), b < a, "{b} < {a}");
    }
}

#[test]
fn lines_follow_str_lines() {
    for s in ["", "a", "a\n", "a\nb", "a\r\nb\r\n", "\n", "a\n\nb", "x\r", "x\ry\n"] {
        let expected: Vec<String> = s.lines().map(|l| l.to_string()).collect();
        assert_eq!(split_lines(s), expected, "{s:?}");
    }
}

#[test]
fn rough_tokens_round_up_a_quarter_of_the_characters() {
    assert_eq!(rough_tokens(""), 0);
    assert_eq!(rough_tokens("a"), 1);
    assert_eq!(rough_tokens("abcd"), 1);
    assert_eq!(rough_tokens("abcde"), 2);
    assert_eq!(rough_tokens("你好世界吗"), 2);
    assert_eq!(ceil_quarter(usize::MAX), usize::MAX / 4 + 1);
    assert_eq!(char_count("你好"), 2);
}

#[test]
fn small_text_helpers() {
    assert!(text_eq("abc", "abc"));
    assert!(!text_eq("abc", "abd"));
    assert!(starts_with_char("# title", '#'));
    assert!(!starts_with_char("", '#'));
    assert_eq!(strip_leading_char("### Title", '#'), " Title");
    assert_eq!(strip_leading_char("  # Title", '#'), "  # Title");
}
