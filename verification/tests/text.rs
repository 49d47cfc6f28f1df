use balancebeam::text::str_eq;

#[test]
fn strings_are_equal_when_their_characters_are() {
    assert!(str_eq("", ""));
    assert!(str_eq("a", "a"));
    assert!(str_eq("127.0.0.1:8080", "127.0.0.1:8080"));
    assert!(str_eq("\u{e9}t\u{e9}", "\u{e9}t\u{e9}"));
    assert!(!str_eq("a", ""));
    assert!(!str_eq("", "a"));
    assert!(!str_eq("a", "b"));
    assert!(!str_eq("ab", "abc"));
    assert!(!str_eq("abc", "abd"));
    assert!(!str_eq("e\u{301}", "\u{e9}"));
    assert!(!str_eq("127.0.0.1:8080", "127.0.0.1:8081"));
}
