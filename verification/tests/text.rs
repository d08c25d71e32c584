use std::cmp::Ordering;

use decaff::manifest::Item;
use decaff::order::newer_first;
use decaff::text::{
    byte_len_of, chars_of, joined, decimal_text, find_char, has_prefix, lower_text_of, text_of,
    trimmed_chars_of,
};

#[test]
fn chars_and_texts() {
    let chars = chars_of("héllo");
    assert_eq!(chars, vec!['h', 'é', 'l', 'l', 'o']);
    assert_eq!(text_of(&chars, 1, 4), "éll");
    assert_eq!(text_of(&chars, 2, 2), "");
    assert_eq!(byte_len_of(&chars, 0, 2), 3);
    assert_eq!(byte_len_of(&chars, 0, 5), "héllo".len());
    assert_eq!(lower_text_of(&chars_of("GitHub-É"), 0, 8), "github-É");
}

#[test]
fn trimming_cuts_white_space_off_both_ends() {
    assert_eq!(trimmed_chars_of("  a b \n"), vec!['a', ' ', 'b']);
    assert_eq!(trimmed_chars_of("\u{a0}\u{3000}x\u{2003}"), vec!['x']);
    assert_eq!(trimmed_chars_of(" \t "), Vec::<char>::new());
    assert_eq!(trimmed_chars_of(""), Vec::<char>::new());
    assert_eq!(trimmed_chars_of("x"), vec!['x']);
    for text in ["  a b \n", "\u{a0}x", "", " ", "\u{200b}x "] {
        assert_eq!(trimmed_chars_of(text), text.trim().chars().collect::<Vec<char>>());
    }
}

#[test]
fn finding_the_first_character() {
    let chars = chars_of("a/b/c");
    assert_eq!(find_char(&chars, '/', 0), Some(1));
    assert_eq!(find_char(&chars, '/', 1), Some(1));
    assert_eq!(find_char(&chars, '/', 2), Some(3));
    assert_eq!(find_char(&chars, '/', 4), None);
    assert_eq!(find_char(&chars, '/', 9), None);
    assert_eq!(find_char(&chars, '#', 0), None);
}

#[test]
fn prefixes() {
    assert!(has_prefix(&chars_of("abc"), &chars_of("ab")));
    assert!(has_prefix(&chars_of("abc"), &chars_of("")));
    assert!(has_prefix(&chars_of("abc"), &chars_of("abc")));
    assert!(!has_prefix(&chars_of("abc"), &chars_of("abcd")));
    assert!(!has_prefix(&chars_of("abc"), &chars_of("b")));
}

#[test]
fn numbers_in_decimal() {
    assert_eq!(decimal_text(0), "0");
    assert_eq!(decimal_text(9), "9");
    assert_eq!(decimal_text(10), "10");
    assert_eq!(decimal_text(404), "404");
    assert_eq!(decimal_text(65535), "65535");
    assert_eq!(joined("ab", "cd"), "abcd");
}

#[test]
fn the_newer_item_comes_first() {
    let item = |timestamp: i64| Item { name: "n".to_string(), hash: "h".to_string(), timestamp };
    assert_eq!(newer_first(&item(2), &item(1)), Ordering::Less);
    assert_eq!(newer_first(&item(1), &item(2)), Ordering::Greater);
    assert_eq!(newer_first(&item(1), &item(1)), Ordering::Equal);
    assert_eq!(newer_first(&item(i64::MAX), &item(i64::MIN)), Ordering::Less);
}
