use serverify::endpoint::PathPrefix;
use serverify::text::{chars_of, join2, join3, parse_usize, str_contains, str_ends_with};

#[test]
fn parse_usize_reads_digits() {
    assert_eq!(Some(0), parse_usize("0"));
    assert_eq!(Some(42), parse_usize("42"));
    assert_eq!(Some(7), parse_usize("007"));
    assert_eq!(Some(5), parse_usize("+5"));
    assert_eq!(Some(usize::MAX), parse_usize(&usize::MAX.to_string()));
}

#[test]
fn parse_usize_refuses_the_rest() {
    assert_eq!(None, parse_usize(""));
    assert_eq!(None, parse_usize("+"));
    assert_eq!(None, parse_usize("-1"));
    assert_eq!(None, parse_usize("-0"));
    assert_eq!(None, parse_usize(" 1"));
    assert_eq!(None, parse_usize("1 "));
    assert_eq!(None, parse_usize("1.0"));
    assert_eq!(None, parse_usize("abc"));
    assert_eq!(None, parse_usize("++1"));
    assert_eq!(None, parse_usize(&format!("{}0", usize::MAX)));
    assert_eq!(None, parse_usize("99999999999999999999999999999"));
}

#[test]
fn parse_usize_agrees_with_std() {
    for text in ["0", "12", "+3", "-3", "", "+", "1e3", "٣", "18446744073709551615", "18446744073709551616"] {
        assert_eq!(text.parse::<usize>().ok(), parse_usize(text), "{}", text);
    }
}

#[test]
fn strings_are_joined_in_order() {
    assert_eq!("ab", join2("a", "b"));
    assert_eq!("a-b", join3("a", "-", "b"));
    assert_eq!(vec!['h', 'é', '!'], chars_of("hé!"));
}

#[test]
fn ends_with_and_contains() {
    assert!(str_ends_with("/mock/:serverify_session", "/:serverify_session"));
    assert!(!str_ends_with("/mock/:serverify_session/", "/:serverify_session"));
    assert!(str_ends_with("abc", ""));
    assert!(!str_ends_with("bc", "abc"));
    assert!(str_contains("/a/:serverify_session/b", "/:serverify_session/"));
    assert!(!str_contains("/a/:serverify_session", "/:serverify_session/"));
    assert!(str_contains("abc", ""));
    assert!(!str_contains("ab", "abc"));
}

#[test]
fn path_prefix_needs_the_session_segment() {
    assert!(PathPrefix::new("/mock/:serverify_session").is_ok());
    assert!(PathPrefix::new("/:serverify_session/mock").is_ok());
    assert_eq!("/mock/:serverify_session", PathPrefix::new("/mock/:serverify_session").unwrap().0);
    assert_eq!(
        Some("Prefix must start with a slash".to_string()),
        PathPrefix::new("/mock").err()
    );
    assert_eq!(
        Some("Prefix must start with a slash".to_string()),
        PathPrefix::new("/mock/:serverify_sessions").err()
    );
}
