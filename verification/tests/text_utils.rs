//! The character-level foundations: trimming, splitting, joining and
//! decimal rendering.

use line_blocks::digits::u16_to_string;
use line_blocks::text::join_slash_exec;
use line_blocks::text::split_dots_exec;
use line_blocks::text::starts_with;
use line_blocks::text::str_eq;
use line_blocks::text::trim;

fn strings(items: &[&str]) -> Vec<String> {
    items.iter().map(|s| s.to_string()).collect()
}

#[test]
fn trim_removes_ascii_whitespace_at_both_ends() {
    assert_eq!(trim("  \thello world \r\n"), "hello world");
}

#[test]
fn trim_removes_unicode_whitespace() {
    assert_eq!(trim("\u{00A0}\u{2003}abc\u{3000}"), "abc");
}

#[test]
fn trim_of_all_whitespace_is_empty() {
    assert_eq!(trim(" \t \u{2028} "), "");
}

#[test]
fn trim_keeps_inner_whitespace() {
    assert_eq!(trim(" a  b "), "a  b");
}

#[test]
fn split_keeps_empty_segments() {
    assert_eq!(split_dots_exec("a..b."), strings(&["a", "", "b", ""]));
}

#[test]
fn split_of_empty_input_is_one_empty_segment() {
    assert_eq!(split_dots_exec(""), strings(&[""]));
}

#[test]
fn split_without_separator_is_the_whole_input() {
    assert_eq!(split_dots_exec("plain"), strings(&["plain"]));
}

#[test]
fn join_with_slash_between_segments() {
    assert_eq!(join_slash_exec(&strings(&["a", "b", "c"])), "a/b/c");
    assert_eq!(join_slash_exec(&strings(&["solo"])), "solo");
    assert_eq!(join_slash_exec(&strings(&[])), "");
}

#[test]
fn renders_decimal_without_leading_zeros() {
    assert_eq!(u16_to_string(0), "0");
    assert_eq!(u16_to_string(7), "7");
    assert_eq!(u16_to_string(10), "10");
    assert_eq!(u16_to_string(407), "407");
    assert_eq!(u16_to_string(65535), "65535");
}

#[test]
fn prefix_test_compares_characters() {
    assert!(starts_with("//#x", "//#"));
    assert!(!starts_with("//", "//#"));
    assert!(starts_with("anything", ""));
}

#[test]
fn string_equality_is_character_exact() {
    assert!(str_eq("same", "same"));
    assert!(!str_eq("same", "same "));
    assert!(!str_eq("a", "b"));
}
