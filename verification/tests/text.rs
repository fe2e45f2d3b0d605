//! Operations on text.

use jj_commands::text::clone_texts;
use jj_commands::text::contains;
use jj_commands::text::join;
use jj_commands::text::strip_prefix;
use jj_commands::text::trim;

fn owned(list: &[&str]) -> Vec<String> {
    list.iter().map(|text| text.to_string()).collect()
}

#[test]
fn join_puts_the_separator_between() {
    assert_eq!(join(&owned(&[]), ", "), "");
    assert_eq!(join(&owned(&["a"]), ", "), "a");
    assert_eq!(join(&owned(&["a", "", "c"]), ", "), "a, , c");
}

#[test]
fn contains_finds_a_pattern_anywhere() {
    assert!(contains("fatal: x is dirty", "is dirty"));
    assert!(contains("is dirty: x", "is dirty"));
    assert!(!contains("is dirt", "is dirty"));
    assert!(!contains("is  dirty", "is dirty"));
    assert!(contains("anything", ""));
    assert!(contains("", ""));
    assert!(contains("aab", "ab"));
    assert!(contains("\u{e9}t\u{e9}", "t\u{e9}"));
}

#[test]
fn strip_prefix_gives_the_rest() {
    assert_eq!(strip_prefix("gitdir: /x", "gitdir:"), Some(" /x".to_owned()));
    assert_eq!(strip_prefix("gitdir:", "gitdir:"), Some(String::new()));
    assert_eq!(strip_prefix("git", "gitdir:"), None);
    assert_eq!(strip_prefix(" gitdir: /x", "gitdir:"), None);
    assert_eq!(strip_prefix("\u{25cb}x", "\u{25cb}"), Some("x".to_owned()));
}

#[test]
fn trim_takes_unicode_white_space_away() {
    assert_eq!(trim("  a b \r\n"), "a b");
    assert_eq!(trim("\u{a0}\u{3000}a\u{2028}\t"), "a");
    assert_eq!(trim(" \n "), "");
    assert_eq!(trim(""), "");
    assert_eq!(trim("\u{200b}a"), "\u{200b}a");
}

#[test]
fn clone_texts_keeps_all() {
    assert_eq!(clone_texts(&owned(&["b", "a", "b"])), owned(&["b", "a", "b"]));
}

#[test]
fn white_space_is_what_unicode_says() {
    let white: Vec<char> = ('\0'..=char::MAX).filter(|c| trim(&c.to_string()).is_empty()).collect();
    let expected: Vec<char> = "\t\n\u{b}\u{c}\r \u{85}\u{a0}\u{1680}\u{2000}\u{2001}\u{2002}\
        \u{2003}\u{2004}\u{2005}\u{2006}\u{2007}\u{2008}\u{2009}\u{200a}\u{2028}\u{2029}\
        \u{202f}\u{205f}\u{3000}"
        .chars()
        .collect();
    assert_eq!(white, expected);
}
