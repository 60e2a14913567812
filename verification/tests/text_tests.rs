use opdb_scraper::order::order_of;
use opdb_scraper::output_writer::{OutputFormat, OutputWriter};
use opdb_scraper::text::{
    chars_of, contains, decimal_string, find_chars, join, less_than, parse_u32, same_text,
    split_before, string_of, strip_newlines, trim, white_space,
};
use opdb_scraper::types::{invalid_structure, Error};
use std::cmp::Ordering;

#[test]
fn trim_removes_outer_white_space() {
    assert_eq!(trim("  a b \n"), "a b");
    assert_eq!(trim("\u{3000}\u{a0}x\t\r\n"), "x");
    assert_eq!(trim("   "), "");
    assert_eq!(trim(""), "");
    assert_eq!(trim("é"), "é");
    assert_eq!(trim(" \u{200b}a "), "\u{200b}a");
    for c in ['\u{9}', '\u{d}', ' ', '\u{85}', '\u{1680}', '\u{2000}', '\u{200a}', '\u{2028}', '\u{2029}', '\u{202f}', '\u{205f}', '\u{3000}', 'a', '\u{8}', '\u{e}', '\u{200b}'] {
        assert_eq!(white_space(c), c.is_whitespace());
    }
}

#[test]
fn contains_finds_a_substring() {
    assert!(contains("/wiki/Category:Ships", "Category:"));
    assert!(!contains("/wiki/Ships", "Category:"));
    assert!(contains("abc", ""));
    assert!(contains("", ""));
    assert!(!contains("ab", "abc"));
    assert!(contains("aab", "ab"));
    assert_eq!(find_chars(&chars_of("xxabab"), &chars_of("ab")), Some(2));
    assert_eq!(find_chars(&chars_of("héllo"), &chars_of("llo")), Some(2));
    assert_eq!(find_chars(&chars_of("abc"), &chars_of("d")), None);
}

#[test]
fn texts_are_split_joined_and_cleaned() {
    assert_eq!(split_before("/pic.png?cb=12?cb=13", "?cb="), "/pic.png");
    assert_eq!(split_before("/pic.png", "?cb="), "/pic.png");
    assert_eq!(split_before("?cb=1", "?cb="), "");
    assert_eq!(strip_newlines("a\nb\r\n\nc"), "ab\rc");
    assert_eq!(join(&vec!["a".to_string(), "".to_string(), "bc".to_string()]), "abc");
    assert_eq!(join(&vec![]), "");
    assert_eq!(opdb_scraper::text::concat("ab", "cd"), "abcd");
    assert_eq!(string_of(&chars_of("héllo")), "héllo");
    assert!(same_text("abc", "abc"));
    assert!(!same_text("abc", "abd"));
    assert!(!same_text("abc", "ab"));
}

#[test]
fn numbers_are_written_and_read_in_decimal() {
    assert_eq!(decimal_string(0), "0");
    assert_eq!(decimal_string(7), "7");
    assert_eq!(decimal_string(120), "120");
    assert_eq!(decimal_string(u64::MAX), "18446744073709551615");
    assert_eq!(parse_u32("0"), Some(0));
    assert_eq!(parse_u32("94"), Some(94));
    assert_eq!(parse_u32("+7"), Some(7));
    assert_eq!(parse_u32("007"), Some(7));
    assert_eq!(parse_u32("4294967295"), Some(u32::MAX));
    assert_eq!(parse_u32("4294967296"), None);
    assert_eq!(parse_u32("99999999999999999999999"), None);
    assert_eq!(parse_u32(""), None);
    assert_eq!(parse_u32("+"), None);
    assert_eq!(parse_u32("-1"), None);
    assert_eq!(parse_u32("1 "), None);
    assert_eq!(parse_u32("1a"), None);
    assert_eq!(parse_u32("１"), None);
    for s in ["12", "+12", "++1", "", "4294967295", "4294967296", "x"] {
        assert_eq!(parse_u32(s), s.parse::<u32>().ok());
    }
}

#[test]
fn order_is_lexicographic_by_code_point() {
    assert!(less_than("a", "b"));
    assert!(less_than("", "a"));
    assert!(less_than("a", "ab"));
    assert!(!less_than("ab", "a"));
    assert!(!less_than("a", "a"));
    assert!(less_than("Z", "a"));
    assert!(less_than("z", "é"));
    assert_eq!(order_of("a", "b"), Ordering::Less);
    assert_eq!(order_of("b", "a"), Ordering::Greater);
    assert_eq!(order_of("ab", "ab"), Ordering::Equal);
    for (a, b) in [("pirate/red", "pirate/straw"), ("é", "z"), ("", ""), ("a\u{10000}", "a\u{ffff}")] {
        assert_eq!(order_of(a, b), a.cmp(b));
    }
}

#[test]
fn errors_say_what_they_are() {
    assert_eq!(Error::RequestError("x".to_string()).to_text(), "Request error: x");
    assert_eq!(invalid_structure("y").to_text(), "Invalid html structure: y");
}

#[test]
fn output_files_are_named_after_the_format() {
    let writer = OutputWriter::new("folder".to_string());
    assert_eq!(writer.format, vec![OutputFormat::Json]);
    assert_eq!(writer.path_for("output", OutputFormat::Json), "folder/output.json");
    assert_eq!(OutputFormat::Json.to_text(), "json");
}
