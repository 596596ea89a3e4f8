use physim::text::{
    chars_of, str_concat, is_whitespace, remove_char, split, split_once, split_terminator,
    split_whitespace, str_eq, substring, trim,
};

#[test]
fn trims_unicode_white_space() {
    assert_eq!(trim("  a b \t\n"), "a b");
    assert_eq!(trim("\u{3000}x\u{a0}"), "x");
    assert_eq!(trim("   "), "");
    assert!(is_whitespace('\u{85}'));
    assert!(!is_whitespace('x'));
}

#[test]
fn splits_once_at_first_separator() {
    assert_eq!(
        split_once("a=b=c", '='),
        Some(("a".to_string(), "b=c".to_string()))
    );
    assert_eq!(split_once("abc", '='), None);
}

#[test]
fn splits_like_std() {
    assert_eq!(split("a:b::c", ':'), vec!["a", "b", "", "c"]);
    assert_eq!(split("", ':'), vec![""]);
    assert_eq!(split_terminator("a!b!", '!'), vec!["a", "b"]);
    assert_eq!(split_whitespace("  x  yz\tw "), vec!["x", "yz", "w"]);
    assert!(split_whitespace(" \n ").is_empty());
}

#[test]
fn character_helpers() {
    assert_eq!(chars_of("hé"), vec!['h', 'é']);
    assert_eq!(substring("hello", 1, 3), "el");
    assert!(str_eq("abc", "abc"));
    assert!(!str_eq("abc", "abd"));
    assert_eq!(remove_char("a\0b\0", '\0'), "ab");
    assert_eq!(str_concat("ab", "cd"), "abcd");
}
