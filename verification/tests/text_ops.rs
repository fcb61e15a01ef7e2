use icie::text::{contains, is_whitespace, join, less, same_text, split, trim};

#[test]
fn split_like_str_split() {
    for s in ["", "#", "a#b", "#a##b#", "abc"] {
        let ours = split(s, '#');
        let std: Vec<String> = s.split('#').map(|p| p.to_string()).collect();
        assert_eq!(ours, std);
    }
}

#[test]
fn join_like_slice_join() {
    let parts = vec!["a".to_string(), "".to_string(), "c".to_string()];
    assert_eq!(join(&parts, "#"), "a##c");
    assert_eq!(join(&Vec::new(), "#"), "");
    assert_eq!(split(&join(&parts, "#"), '#'), parts);
}

#[test]
fn contains_like_str_contains() {
    assert!(contains("Main.class", ".class"));
    assert!(contains("abc", ""));
    assert!(!contains("Main.clas", ".class"));
    assert!(!contains("", "a"));
}

#[test]
fn ordering_like_str() {
    let words = ["", "a", "ab", "b", "B", "é", "aa"];
    for x in words {
        for y in words {
            assert_eq!(less(x, y), x < y);
            assert_eq!(same_text(x, y), x == y);
        }
    }
}

#[test]
fn whitespace_like_char() {
    for c in ['\t', '\n', ' ', '\u{85}', '\u{a0}', '\u{2009}', '\u{3000}', 'a', '\u{200b}', '\u{feff}'] {
        assert_eq!(is_whitespace(c), c.is_whitespace());
    }
    assert_eq!(trim("  x  "), "x");
}
