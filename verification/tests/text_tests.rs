use exercises::text::{join_strs, lines_of, split_whitespace_of, str_contains, str_eq, str_leq, trim_of};

#[test]
fn string_equality() {
    assert!(str_eq("hello", "hello"));
    assert!(!str_eq("hello", "hella"));
    assert!(!str_eq("hello", "hell"));
}

#[test]
fn lexicographic_order() {
    assert!(str_leq("abc", "abd"));
    assert!(str_leq("ab", "abc"));
    assert!(!str_leq("abd", "abc"));
    assert!(str_leq("same", "same"));
    assert!(str_leq("Zoo", "apple"));
}

#[test]
fn substring_search() {
    assert!(str_contains("hello world", "lo wo"));
    assert!(str_contains("hello", ""));
    assert!(!str_contains("hello", "worlds"));
    assert!(!str_contains("hi", "high"));
}

#[test]
fn whitespace_splitting() {
    let parts = split_whitespace_of("  one\ttwo \n three  ");
    assert_eq!(parts, vec!["one", "two", "three"]);
    let none: Vec<&str> = split_whitespace_of("   ");
    assert!(none.is_empty());
}

#[test]
fn line_splitting() {
    assert_eq!(lines_of("a\nb\nc"), vec!["a", "b", "c"]);
    assert_eq!(lines_of("a\r\nb\n"), vec!["a", "b"]);
    let none: Vec<&str> = lines_of("");
    assert!(none.is_empty());
}

#[test]
fn trimming() {
    assert_eq!(trim_of("  spaced out \t"), "spaced out");
    assert_eq!(trim_of("bare"), "bare");
    assert_eq!(trim_of("   "), "");
}

#[test]
fn joining() {
    let parts = vec!["a".to_string(), "b".to_string(), "c".to_string()];
    assert_eq!(join_strs(&parts, ", "), "a, b, c");
    let one = vec!["solo".to_string()];
    assert_eq!(join_strs(&one, ", "), "solo");
    let none: Vec<String> = vec![];
    assert_eq!(join_strs(&none, ", "), "");
}
