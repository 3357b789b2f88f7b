use synctui_resolver::strutil::{find_sub, shorten_middle, str_concat, str_eq, str_le, u128_to_dec};

#[test]
fn decimal_rendering_is_exact() {
    assert_eq!(u128_to_dec(0), "0");
    assert_eq!(u128_to_dec(7), "7");
    assert_eq!(u128_to_dec(1234567890), "1234567890");
}

#[test]
fn concat_joins_in_order() {
    assert_eq!(str_concat("ab", "cd"), "abcd");
    assert_eq!(str_concat("", "x"), "x");
}

#[test]
fn find_sub_returns_first_occurrence() {
    assert_eq!(find_sub("abcabc", "bc"), Some(1));
    assert_eq!(find_sub("abcabc", "zz"), None);
    assert_eq!(find_sub("abc", ""), Some(0));
}

#[test]
fn lexicographic_order_on_strings() {
    assert!(str_le("a", "b"));
    assert!(str_le("a", "ab"));
    assert!(!str_le("b", "ab"));
    assert!(str_le("abc", "abc"));
}

#[test]
fn string_equality_by_characters() {
    assert!(str_eq("abc", "abc"));
    assert!(!str_eq("abc", "abd"));
    assert!(!str_eq("abc", "abcd"));
}

#[test]
fn shorten_middle_keeps_short_strings() {
    assert_eq!(shorten_middle("hello", 10), "hello");
    assert_eq!(shorten_middle("hello", 5), "hello");
}

#[test]
fn shorten_middle_elides_the_middle() {
    assert_eq!(shorten_middle("abcdefghij", 7), "ab...ij");
}

#[test]
fn shorten_middle_truncates_tiny_budgets() {
    assert_eq!(shorten_middle("abcdefghij", 4), "abcd");
}
