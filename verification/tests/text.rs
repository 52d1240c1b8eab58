use chat_app::text::{char_is_whitespace, chars_of, contains, trim};

#[test]
fn trim_removes_surrounding_whitespace() {
    assert_eq!(trim("  hello world \r\n"), "hello world");
    assert_eq!(trim("\thi\n"), "hi");
    assert_eq!(trim("alice\n"), "alice");
}

#[test]
fn trim_keeps_inner_whitespace() {
    assert_eq!(trim(" a  b\tc "), "a  b\tc");
}

#[test]
fn trim_of_tight_line_is_the_line() {
    assert_eq!(trim("hello"), "hello");
    assert_eq!(trim("x"), "x");
}

#[test]
fn trim_of_blank_line_is_empty() {
    assert_eq!(trim(""), "");
    assert_eq!(trim("   \n"), "");
    assert_eq!(trim("\r\n"), "");
    assert_eq!(trim(" \t\u{a0}\u{3000}\u{2028}"), "");
}

#[test]
fn trim_counts_characters_not_bytes() {
    assert_eq!(trim("\u{2003}héllo wörld\u{2003}\n"), "héllo wörld");
    assert_eq!(trim(" 日本語 "), "日本語");
}

#[test]
fn trim_agrees_with_std() {
    let lines = [
        "", " ", "a", " a", "a ", " a ", "\n", "a\n", "\u{85}a\u{85}", "\u{1680}x\u{205f}",
        "\u{200b}x\u{200b}", "\u{180e}x", "\u{feff}x", " \u{202f}é \u{2009}",
    ];
    for line in lines {
        assert_eq!(trim(line), line.trim());
    }
}

#[test]
fn whitespace_agrees_with_std_on_every_character() {
    let mut code: u32 = 0;
    while code <= 0x10FFFF {
        if let Some(c) = char::from_u32(code) {
            assert_eq!(char_is_whitespace(c), c.is_whitespace(), "U+{:04X}", code);
        }
        code += 1;
    }
}

#[test]
fn whitespace_examples() {
    assert!(char_is_whitespace(' '));
    assert!(char_is_whitespace('\n'));
    assert!(char_is_whitespace('\r'));
    assert!(char_is_whitespace('\t'));
    assert!(char_is_whitespace('\u{3000}'));
    assert!(!char_is_whitespace('a'));
    assert!(!char_is_whitespace(':'));
    assert!(!char_is_whitespace('@'));
    assert!(!char_is_whitespace('\u{200b}'));
}

#[test]
fn chars_of_lists_the_characters() {
    assert_eq!(chars_of("héy"), vec!['h', 'é', 'y']);
    assert_eq!(chars_of(""), Vec::<char>::new());
}

#[test]
fn contains_finds_a_run_anywhere() {
    assert!(contains("bob: hey @alice", "@alice"));
    assert!(contains("@alice hi", "@alice"));
    assert!(contains("hi @alice!", "@alice"));
    assert!(contains("abc", "abc"));
    assert!(contains("aab", "ab"));
}

#[test]
fn contains_rejects_what_is_not_there() {
    assert!(!contains("bob: hey alice", "@alice"));
    assert!(!contains("@alic", "@alice"));
    assert!(!contains("", "a"));
    assert!(!contains("ab", "abc"));
    assert!(!contains("a@b@c", "@@"));
}

#[test]
fn contains_empty_needle() {
    assert!(contains("", ""));
    assert!(contains("abc", ""));
}

#[test]
fn contains_agrees_with_std() {
    let hays = ["", "a", "ab", "aab", "abab", "héllo @wörld", "@@a"];
    let needles = ["", "a", "b", "ab", "ba", "@a", "é", "@wörld", "abc"];
    for hay in hays {
        for needle in needles {
            assert_eq!(contains(hay, needle), hay.contains(needle));
        }
    }
}
