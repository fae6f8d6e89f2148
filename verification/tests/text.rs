use sudo_rs::glob::glob;
use sudo_rs::text::{
    alnum, blank, control, decimal_chars, digit, from_chars, lower, number_of, same_chars, spells,
    starts_with, string_of, to_chars, upper,
};

#[test]
fn classes_of_characters() {
    assert!(blank(' ') && blank('\t') && !blank('\n') && !blank('a'));
    assert!(digit('0') && digit('9') && !digit('a') && !digit('/') && !digit(':'));
    assert!(upper('A') && upper('Z') && !upper('a') && !upper('@') && !upper('['));
    assert!(lower('a') && lower('z') && !lower('A') && !lower('`') && !lower('{'));
    assert!(alnum('a') && alnum('Z') && alnum('5') && !alnum('_') && !alnum('-'));
    assert!(control('\n') && control('\u{1f}') && control('\u{7f}') && control('\u{9f}'));
    assert!(!control(' ') && !control('~') && !control('\u{a0}'));
}

#[test]
fn texts_and_characters() {
    let chars = to_chars("héllo");
    assert_eq!(chars, vec!['h', 'é', 'l', 'l', 'o']);
    assert_eq!(from_chars(&chars), "héllo");
    assert_eq!(string_of(&chars, 1, 3), "él");
    assert_eq!(string_of(&chars, 2, 2), "");
    assert!(same_chars(&chars, &to_chars("héllo")));
    assert!(!same_chars(&chars, &to_chars("hello")));
    assert!(!same_chars(&chars, &to_chars("héll")));
    assert!(spells(&chars, "héllo") && !spells(&chars, "héllo "));
    assert!(starts_with(&chars, "hé") && starts_with(&chars, "") && starts_with(&chars, "héllo"));
    assert!(!starts_with(&chars, "he") && !starts_with(&chars, "héllo!"));
}

#[test]
fn numbers_in_decimal() {
    assert_eq!(decimal_chars(0), vec!['0']);
    assert_eq!(decimal_chars(7), vec!['7']);
    assert_eq!(decimal_chars(10), vec!['1', '0']);
    assert_eq!(from_chars(&decimal_chars(1234567890)), "1234567890");
    assert_eq!(from_chars(&decimal_chars(u32::MAX)), "4294967295");
    let digits = to_chars("x0042y");
    assert_eq!(number_of(&digits, 1, 5), Some(42));
    assert_eq!(number_of(&digits, 1, 1), Some(0));
    assert_eq!(number_of(&to_chars("4294967295"), 0, 10), Some(4294967295));
    assert_eq!(number_of(&to_chars("4294967296"), 0, 10), None);
    assert_eq!(number_of(&to_chars("99999999999"), 0, 11), None);
    assert_eq!(number_of(&to_chars("00000000000000000001"), 0, 20), Some(1));
}

fn matches(pathname: bool, pattern: &str, text: &str) -> bool {
    glob(pathname, &to_chars(pattern), &to_chars(text))
}

#[test]
fn wildcards() {
    assert!(matches(false, "", ""));
    assert!(!matches(false, "", "a"));
    assert!(!matches(false, "a", ""));
    assert!(matches(false, "*", ""));
    assert!(matches(false, "*", "anything at all"));
    assert!(matches(false, "a*c", "ac"));
    assert!(matches(false, "a*c", "abbbc"));
    assert!(!matches(false, "a*c", "abbbd"));
    assert!(matches(false, "a*b*c", "a-b-b-c"));
    assert!(matches(false, "**", "x"));
    assert!(matches(false, "?", "x"));
    assert!(!matches(false, "?", ""));
    assert!(!matches(false, "?", "xy"));
    assert!(matches(false, "a?c", "abc"));
    assert!(matches(false, "*.txt", "notes.txt"));
    assert!(!matches(false, "*.txt", "notes.txt~"));
    assert!(matches(false, "/usr/*", "/usr/bin/id"));
    assert!(!matches(true, "/usr/*", "/usr/bin/id"));
    assert!(matches(true, "/usr/*/id", "/usr/bin/id"));
    assert!(matches(true, "/usr/*", "/usr/"));
    assert!(!matches(true, "/usr?bin", "/usr/bin"));
    assert!(matches(false, "/usr?bin", "/usr/bin"));
    assert!(matches(true, "/bin/ls", "/bin/ls"));
    assert!(!matches(true, "/bin/ls", "/bin/ls "));
}
