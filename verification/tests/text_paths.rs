use guitar::paths::{components, components_before, components_equal, components_start_with};
use guitar::text::{char_is_ws, chars_lt, lower_vec, normalize_path_chars, split_whitespace_chars, to_lower_char, trim_chars};

fn chars(s: &str) -> Vec<char> {
    s.chars().collect()
}

fn text(v: &[char]) -> String {
    v.iter().collect()
}

#[test]
fn whitespace_and_case_follow_unicode_and_ascii() {
    assert!(char_is_ws(' '));
    assert!(char_is_ws('\t'));
    assert!(char_is_ws('\u{3000}'));
    assert!(!char_is_ws('a'));
    assert_eq!(to_lower_char('Q'), 'q');
    assert_eq!(to_lower_char('É'), 'É');
    assert_eq!(text(&lower_vec(&chars("ReadMe.MD"))), "readme.md");
}

#[test]
fn trim_and_normalize_paths() {
    assert_eq!(text(&trim_chars(&chars("  a b \n"))), "a b");
    assert_eq!(text(&trim_chars(&chars("   "))), "");
    assert_eq!(text(&normalize_path_chars(&chars(" ./././src\\main.rs "))), "src/main.rs");
    assert_eq!(text(&normalize_path_chars(&chars("../x"))), "../x");
}

#[test]
fn split_on_whitespace_runs() {
    let parts = split_whitespace_chars(&chars("  a  bc\td "));
    let parts: Vec<String> = parts.iter().map(|p| text(p)).collect();
    assert_eq!(parts, vec!["a".to_string(), "bc".to_string(), "d".to_string()]);
    assert!(split_whitespace_chars(&chars(" \t ")).is_empty());
}

#[test]
fn chars_compare_lexicographically() {
    assert!(chars_lt(&chars("abc"), &chars("abd")));
    assert!(chars_lt(&chars("ab"), &chars("abc")));
    assert!(!chars_lt(&chars("abc"), &chars("abc")));
    assert!(!chars_lt(&chars("b"), &chars("abc")));
}

#[test]
fn path_components_follow_std_path() {
    let c = components(&chars("/a//b/./c/"));
    let kinds: Vec<u8> = c.iter().map(|x| x.kind).collect();
    assert_eq!(kinds, vec![1, 4, 4, 4]);
    assert_eq!(text(&c[3].name), "c");
    let d = components(&chars("./a/../b"));
    let kinds: Vec<u8> = d.iter().map(|x| x.kind).collect();
    assert_eq!(kinds, vec![2, 4, 3, 4]);
    assert!(components_equal(&components(&chars("a/b/")), &components(&chars("a//b"))));
    assert!(components_start_with(&components(&chars("a/b/c")), &components(&chars("a/b"))));
    assert!(!components_start_with(&components(&chars("a/bc")), &components(&chars("a/b"))));
    assert!(components_before(&components(&chars("a/b")), &components(&chars("a/c"))));
    assert!(components_before(&components(&chars("a")), &components(&chars("a/b"))));
}
