use azurejay::text::{nonblank, replace_str, trim_str};

#[test]
fn trim_matches_std() {
    for s in ["", "  a  ", "\u{3000}x\u{85}", "\t\n\r\u{b}\u{c} y \u{2028}", "a b", "\u{200b}z\u{200b}"] {
        assert_eq!(trim_str(s), s.trim(), "{s:?}");
    }
}

#[test]
fn replace_matches_std() {
    for (s, p, r) in [("aaa", "aa", "b"), ("{x}{x}", "{x}", "1"), ("abc", "zz", "q"), ("ééé", "é", "e")] {
        assert_eq!(replace_str(s, p, r), s.replace(p, r));
    }
}

#[test]
fn nonblank_values() {
    assert_eq!(nonblank("  hi "), Some("hi".to_string()));
    assert_eq!(nonblank(" \n"), None);
}
