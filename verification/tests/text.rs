use cpid::lists::string_lt;
use cpid::text::{
    chars_of, contains_char, copy_range, ends_with, is_space, join_with, same_text, split_on,
    starts_with, string_of, trimmed,
};

fn chars(s: &str) -> Vec<char> {
    s.chars().collect()
}

fn pieces(list: &[&str]) -> Vec<Vec<char>> {
    list.iter().map(|s| chars(s)).collect()
}

#[test]
fn chars_of_gives_the_characters() {
    assert_eq!(chars_of("a/b"), vec!['a', '/', 'b']);
    assert_eq!(chars_of(""), Vec::<char>::new());
    assert_eq!(chars_of("\u{e9}x"), vec!['\u{e9}', 'x']);
}

#[test]
fn copy_range_copies_the_range() {
    let s = chars("hello");
    assert_eq!(copy_range(&s, 1, 3), chars("el"));
    assert_eq!(copy_range(&s, 0, 5), chars("hello"));
    assert_eq!(copy_range(&s, 2, 2), chars(""));
}

#[test]
fn ends_with_and_starts_with() {
    assert!(ends_with(&chars("Foo.class"), &chars(".class")));
    assert!(!ends_with(&chars("Foo.clasz"), &chars(".class")));
    assert!(!ends_with(&chars("lass"), &chars(".class")));
    assert!(ends_with(&chars("x"), &chars("")));
    assert!(ends_with(&chars(".class"), &chars(".class")));
    assert!(starts_with(&chars(".git"), &chars(".")));
    assert!(!starts_with(&chars("git"), &chars(".")));
    assert!(!starts_with(&chars(""), &chars(".")));
    assert!(starts_with(&chars("abc"), &chars("")));
}

#[test]
fn contains_char_finds_a_character() {
    assert!(contains_char(&chars("Foo$Inner"), '$'));
    assert!(!contains_char(&chars("Foo"), '$'));
    assert!(!contains_char(&chars(""), '$'));
}

#[test]
fn split_on_cuts_at_every_separator() {
    assert_eq!(split_on(&chars("com/x/Foo"), '/'), pieces(&["com", "x", "Foo"]));
    assert_eq!(split_on(&chars("Foo"), '/'), pieces(&["Foo"]));
    assert_eq!(split_on(&chars(""), '/'), pieces(&[""]));
    assert_eq!(split_on(&chars("/a"), '/'), pieces(&["", "a"]));
    assert_eq!(split_on(&chars("a/"), '/'), pieces(&["a", ""]));
    assert_eq!(split_on(&chars("a//b"), '/'), pieces(&["a", "", "b"]));
    assert_eq!(split_on(&chars("/"), '/'), pieces(&["", ""]));
}

#[test]
fn split_on_agrees_with_str_split() {
    for text in ["", "a", "a:b", ":a::b:", "::", "x.jar:y.jar:z"] {
        let expected: Vec<Vec<char>> = text.split(':').map(chars).collect();
        assert_eq!(split_on(&chars(text), ':'), expected);
    }
}

#[test]
fn join_with_puts_the_separator_between() {
    assert_eq!(join_with(&pieces(&["com", "x"]), '.'), chars("com.x"));
    assert_eq!(join_with(&pieces(&["com"]), '.'), chars("com"));
    assert_eq!(join_with(&pieces(&[]), '.'), chars(""));
    assert_eq!(join_with(&pieces(&["", ""]), '.'), chars("."));
    assert_eq!(join_with(&pieces(&["a", "", "b"]), '.'), chars("a..b"));
}

#[test]
fn is_space_agrees_with_char_is_whitespace() {
    let mut c = 0u32;
    while c <= 0x3100 {
        if let Some(ch) = char::from_u32(c) {
            assert_eq!(is_space(ch), ch.is_whitespace());
        }
        c += 1;
    }
    assert!(!is_space('\u{10ffff}'));
}

#[test]
fn trimmed_agrees_with_str_trim() {
    for text in ["", " ", "  a  ", "a", "\t a b \n", "   ", "a ", " a", "\u{a0}x\u{3000}", " a  b "] {
        assert_eq!(trimmed(&chars(text)), chars(text.trim()));
    }
}

#[test]
fn string_of_spells_the_characters() {
    assert_eq!(string_of(&chars("com.x")), "com.x");
    assert_eq!(string_of(&chars("")), "");
    assert_eq!(string_of(&chars("\u{e9}\u{3000}z")), "\u{e9}\u{3000}z");
}

#[test]
fn same_text_agrees_with_str_equality() {
    let samples = ["", "a", "ab", "abc", "abd", "b", "\u{e9}", "e\u{301}", "\u{10348}", "a\u{0}"];
    for a in samples {
        for b in samples {
            assert_eq!(same_text(a, b), a == b);
        }
    }
}

#[test]
fn string_lt_agrees_with_str_order() {
    let samples = [
        "", "a", "ab", "abc", "abd", "b", "B", "Z", "\u{7f}", "\u{80}", "\u{e9}", "\u{7ff}",
        "\u{800}", "\u{ffff}", "\u{10000}", "\u{10ffff}", "a\u{10000}", "a\u{ffff}", "org.junit",
        "org.junit.rules",
    ];
    for a in samples {
        for b in samples {
            assert_eq!(string_lt(a, b), a < b);
        }
    }
}
