use parut::text::{
    chars_of, enclosed_in, joined, pieces_after, replaced, same_text, split_lines, split_words,
    str_less, string_of, trimmed,
};

fn text(v: Vec<char>) -> String {
    v.into_iter().collect()
}

fn texts(v: Vec<Vec<char>>) -> Vec<String> {
    v.into_iter().map(text).collect()
}

#[test]
fn characters_round_trip() {
    let s = "h\u{e9}llo \u{1F600}";
    assert_eq!(chars_of(s), s.chars().collect::<Vec<char>>());
    assert_eq!(string_of(&chars_of(s)), s);
    assert!(same_text("abc", "abc"));
    assert!(!same_text("abc", "abd"));
    assert!(!same_text("abc", "ab"));
}

#[test]
fn trimming_agrees_with_the_standard_library() {
    for s in ["", "  ", " a b ", "\t\nx\r\n", "\u{a0}x\u{3000}", "\u{2003}y\u{85}", "a", "\u{200b}z "] {
        assert_eq!(text(trimmed(&chars_of(s))), s.trim(), "{:?}", s);
    }
}

#[test]
fn words_agree_with_the_standard_library() {
    for s in ["", "  ", " a  b ", "one", "a\tb\nc", "x\u{a0}y\u{2028}z", "  lead", "trail  "] {
        let expected: Vec<String> = s.split_whitespace().map(|w| w.to_string()).collect();
        assert_eq!(texts(split_words(&chars_of(s))), expected, "{:?}", s);
    }
}

#[test]
fn lines_agree_with_the_standard_library() {
    for s in ["", "\n", "a", "a\n", "a\nb", "a\r\nb\r\n", "a\n\nb", "a\r", "\r\n", "a\rb\n", "x\n\r\ny\r"] {
        let expected: Vec<String> = s.lines().map(|w| w.to_string()).collect();
        assert_eq!(texts(split_lines(&chars_of(s))), expected, "{:?}", s);
    }
}

#[test]
fn replacing_agrees_with_the_standard_library() {
    for (s, pat, by) in [
        ("aaa", "aa", "b"),
        ("a[ignored]b[ignored]", "[ignored]", ""),
        ("abc", "x", "y"),
        ("", "x", "y"),
        ("xx", "x", "xx"),
        ("abab", "ab", "ba"),
    ] {
        assert_eq!(text(replaced(&chars_of(s), pat, by)), s.replace(pat, by));
    }
}

#[test]
fn joining_agrees_with_the_standard_library() {
    for parts in [vec![], vec!["a"], vec!["a", "b"], vec!["", "x", ""]] {
        let owned: Vec<String> = parts.iter().map(|s| s.to_string()).collect();
        assert_eq!(joined(&owned, ", "), owned.join(", "));
    }
}

#[test]
fn dictionary_order_agrees_with_the_standard_library() {
    let samples = ["", "a", "ab", "b", "B", "a\u{e9}", "a\u{1F600}", "az", "\u{7f}", "\u{80}"];
    for a in samples {
        for b in samples {
            assert_eq!(str_less(a, b), a < b, "{:?} {:?}", a, b);
        }
    }
}

#[test]
fn pieces_follow_each_occurrence() {
    for (s, pat) in [("a--b--c", "--"), ("--", "--"), ("abc", "--"), ("a---b", "--"), ("x--", "--")] {
        let expected: Vec<String> = s.split(pat).skip(1).map(|w| w.to_string()).collect();
        assert_eq!(texts(pieces_after(&chars_of(s), pat)), expected, "{:?}", s);
    }
}

#[test]
fn enclosed_text_stands_between_opener_and_closer() {
    assert_eq!(enclosed_in(&chars_of("a[b]c]"), "[", "]").map(text).as_deref(), Some("b"));
    assert_eq!(enclosed_in(&chars_of("a]b[c"), "[", "]"), None);
    assert_eq!(enclosed_in(&chars_of("abc"), "[", "]"), None);
    assert_eq!(enclosed_in(&chars_of("//"), "/", "/").map(text).as_deref(), Some(""));
}
