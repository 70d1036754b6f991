use env_to_json::text::{
    chars_of, find_first, matches_at, replace_all_in, replace_first_in, starts_with, strip_prefix,
};

fn chars(s: &str) -> Vec<char> {
    s.chars().collect()
}

#[test]
fn chars_of_gives_the_characters() {
    assert_eq!(chars_of(""), Vec::<char>::new());
    assert_eq!(chars_of("abc"), vec!['a', 'b', 'c']);
    assert_eq!(chars_of("h\u{e9}\u{1f600}"), vec!['h', '\u{e9}', '\u{1f600}']);
}

#[test]
fn matches_at_positions() {
    let hay = chars("abcabc");
    let needle = chars("bc");
    assert!(!matches_at(&hay, &needle, 0));
    assert!(matches_at(&hay, &needle, 1));
    assert!(matches_at(&hay, &needle, 4));
    assert!(!matches_at(&hay, &needle, 5));
    assert!(!matches_at(&hay, &needle, 6));
    assert!(!matches_at(&hay, &needle, 100));
    assert!(matches_at(&hay, &[], 0));
    assert!(matches_at(&hay, &[], 6));
    assert!(!matches_at(&hay, &[], 7));
    assert!(!matches_at(&needle, &hay, 0));
}

#[test]
fn find_first_finds_the_earliest() {
    assert_eq!(find_first(&chars("abcabc"), &chars("bc")), Some(1));
    assert_eq!(find_first(&chars("abcabc"), &chars("abc")), Some(0));
    assert_eq!(find_first(&chars("abcabc"), &chars("c")), Some(2));
    assert_eq!(find_first(&chars("abcabc"), &chars("cb")), None);
    assert_eq!(find_first(&chars("abc"), &chars("abcd")), None);
    assert_eq!(find_first(&chars("abc"), &chars("")), Some(0));
    assert_eq!(find_first(&chars(""), &chars("")), Some(0));
    assert_eq!(find_first(&chars(""), &chars("a")), None);
    assert_eq!(find_first(&chars("aab"), &chars("ab")), Some(1));
}

#[test]
fn starts_with_agrees_with_str() {
    let cases = [
        ("APP_FOO", "APP_"),
        ("APP_FOO", "app_"),
        ("APP", "APP_"),
        ("APP_", "APP_"),
        ("", ""),
        ("x", ""),
        ("", "x"),
        ("\u{e9}t\u{e9}", "\u{e9}"),
        ("\u{e9}t\u{e9}", "e"),
    ];
    for (s, prefix) in cases {
        assert_eq!(starts_with(s, prefix), s.starts_with(prefix));
    }
}

#[test]
fn strip_prefix_agrees_with_str() {
    assert_eq!(strip_prefix("APP_FOO", "APP_"), Some("FOO".to_string()));
    assert_eq!(strip_prefix("APP_", "APP_"), Some(String::new()));
    assert_eq!(strip_prefix("FOO", ""), Some("FOO".to_string()));
    assert_eq!(strip_prefix("FOO", "APP_"), None);
    assert_eq!(strip_prefix("AP", "APP_"), None);
    assert_eq!(strip_prefix("\u{e9}t\u{e9}", "\u{e9}"), Some("t\u{e9}".to_string()));
    let cases = [("APP_FOO", "APP_"), ("APP_APP_X", "APP_"), ("xAPP_", "APP_"), ("", "")];
    for (s, prefix) in cases {
        assert_eq!(
            strip_prefix(s, prefix),
            s.strip_prefix(prefix).map(|rest| rest.to_string())
        );
    }
}

#[test]
fn replace_first_agrees_with_replacen() {
    let cases = [
        ("a{}b{}c", "{}", "X"),
        ("abc", "{}", "X"),
        ("{}", "{}", ""),
        ("aaa", "aa", "b"),
        ("abc", "", "-"),
        ("", "", "-"),
        ("", "a", "-"),
        ("h\u{e9}llo", "llo", "\u{1f600}"),
    ];
    for (hay, needle, with) in cases {
        assert_eq!(replace_first_in(hay, needle, with), hay.replacen(needle, with, 1));
    }
}

#[test]
fn replace_first_exact_values() {
    assert_eq!(replace_first_in("a{}b{}c", "{}", "X"), "aXb{}c");
    assert_eq!(replace_first_in("abc", "", "-"), "-abc");
    assert_eq!(replace_first_in("abc", "c", "cc"), "abcc");
}

#[test]
fn replace_all_agrees_with_replace() {
    let cases = [
        ("a{}b{}c", "{}", "X"),
        ("abc", "{}", "X"),
        ("aaaa", "aa", "b"),
        ("aaaaa", "aa", "b"),
        ("abab", "ab", "abab"),
        ("abc", "", "-"),
        ("", "", "-"),
        ("", "a", "-"),
        ("abc", "abc", ""),
        ("abc", "abcd", "x"),
        ("\u{e9}\u{e9}", "\u{e9}", "e"),
        ("\u{e9}\u{e8}", "", "\u{1f600}"),
    ];
    for (hay, needle, with) in cases {
        assert_eq!(replace_all_in(hay, needle, with), hay.replace(needle, with));
    }
}

#[test]
fn replace_all_exact_values() {
    assert_eq!(replace_all_in("a{}b{}c", "{}", "X"), "aXbXc");
    assert_eq!(replace_all_in("ab", "", "-"), "-a-b-");
    assert_eq!(replace_all_in("", "", "-"), "-");
    assert_eq!(replace_all_in("aaa", "aa", "b"), "ba");
    assert_eq!(replace_all_in("aXa", "X", "XX"), "aXXa");
}
