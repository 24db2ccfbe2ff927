use baka::extensions::{str_eq, StringExtension};

#[test]
fn random_has_requested_length_and_alphanumeric_chars() {
    let s = String::random(16);
    assert_eq!(s.chars().count(), 16);
    assert!(s.chars().all(|c| c.is_ascii_alphanumeric()));
    let empty = String::random(0);
    assert!(empty.is_empty());
}

#[test]
fn random_strings_differ_almost_surely() {
    let a = String::random(32);
    let b = String::random(32);
    assert_ne!(a, b);
}

#[test]
fn split_on_spaces() {
    let parts = "a b c d e f".to_string().baka_split(" ");
    assert_eq!(
        parts,
        vec!["a", "b", "c", "d", "e", "f"]
            .into_iter()
            .map(|s| s.to_string())
            .collect::<Vec<String>>()
    );
}

#[test]
fn split_keeps_empty_parts() {
    let parts = "a,,b".to_string().baka_split(",");
    assert_eq!(parts, vec!["a".to_string(), "".to_string(), "b".to_string()]);
}

#[test]
fn split_without_delimiter_is_whole_string() {
    let parts = "alone".to_string().baka_split(" ");
    assert_eq!(parts, vec!["alone".to_string()]);
}

#[test]
fn split_takes_leftmost_occurrences() {
    let parts = "aaa".to_string().baka_split("aa");
    assert_eq!(parts, vec!["".to_string(), "a".to_string()]);
}

#[test]
fn to_str_borrows_the_same_characters() {
    let s = "hello".to_string();
    assert_eq!(s.to_str(), "hello");
}

#[test]
fn to_static_str_outlives_the_original() {
    let leaked: &'static str = {
        let s = "short lived".to_string();
        s.to_static_str()
    };
    assert_eq!(leaked, "short lived");
}

#[test]
fn str_eq_compares_characters() {
    assert!(str_eq("", ""));
    assert!(str_eq("abc", "abc"));
    assert!(!str_eq("abc", "abd"));
    assert!(!str_eq("abc", "ab"));
    assert!(str_eq("héllo", "héllo"));
}
