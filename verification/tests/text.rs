use mcpg_plugin_identity_ldap::string_map::StringMap;
use mcpg_plugin_identity_ldap::text::{
    chars_of, contains, eq_ignore_ascii_case, find_char, is_blank, is_white_space, lower_char,
    replace, same_text, starts_with, to_ascii_lower, trim_start,
};

#[test]
fn white_space_is_that_of_unicode() {
    for c in '\0'..=char::MAX {
        assert_eq!(is_white_space(c), c.is_whitespace());
        assert_eq!(lower_char(c), c.to_ascii_lowercase());
    }
}

#[test]
fn text_operations_agree_with_std() {
    let samples = [
        "",
        " ",
        "a",
        " a ",
        "\u{3000}a b\u{85}",
        "{username}",
        "x{username}y{username}",
        "{user{username}name}",
        "{usernam",
        "\u{c4}bc \u{1f511}",
        "aaa",
        "ABC def",
    ];
    let patterns = ["a", "{username}", "aa", "bc", "\u{1f511}", "zz"];
    for s in samples {
        assert_eq!(chars_of(s), s.chars().collect::<Vec<char>>());
        assert_eq!(trim_start(s), s.trim_start());
        assert_eq!(is_blank(s), s.trim().is_empty());
        assert_eq!(to_ascii_lower(s), s.to_ascii_lowercase());
        assert!(contains(s, ""));
        assert!(starts_with(s, ""));
        for p in patterns {
            assert_eq!(contains(s, p), s.contains(p));
            assert_eq!(starts_with(s, p), s.starts_with(p));
            assert_eq!(replace(s, p, "<>"), s.replace(p, "<>"));
            assert_eq!(replace(s, p, p), s.to_string());
            assert_eq!(same_text(s, p), s == p);
            assert_eq!(eq_ignore_ascii_case(s, p), s.eq_ignore_ascii_case(p));
        }
        for c in ['a', ' ', '{', '\u{1f511}'] {
            assert_eq!(find_char(&chars_of(s), c), s.chars().position(|x| x == c));
        }
    }
    assert!(eq_ignore_ascii_case("MemberOf", "memberof"));
    assert!(!eq_ignore_ascii_case("\u{c4}", "\u{e4}"));
}

#[test]
fn a_string_map_holds_each_key_once() {
    let mut map: StringMap<String> = StringMap::new();
    assert!(map.get("a").is_none());
    map.insert("a".into(), "1".into());
    map.insert("b".into(), "2".into());
    map.insert("a".into(), "3".into());
    assert_eq!(map.get("a").map(String::as_str), Some("3"));
    assert_eq!(map.get("b").map(String::as_str), Some("2"));
    assert!(map.get("A").is_none());
    let copy = map.clone();
    assert_eq!(copy.get("b").map(String::as_str), Some("2"));
    let mut entries = map.into_entries();
    entries.sort();
    assert_eq!(
        entries,
        vec![("a".to_string(), "3".to_string()), ("b".to_string(), "2".to_string())]
    );
    assert_eq!(copy.into_entries().len(), 2);
}
