use msh::text::{
    after_white, after_word, char_index, chars_of, decimal_string, holds_text, is_white_space,
    joined, parse_u64, parse_usize, same_chars, same_text, split_words, string_of,
    text_ends_with, text_has, trimmed, utf8_str,
};

fn texts(list: &[&str]) -> Vec<String> {
    list.iter().map(|s| s.to_string()).collect()
}

#[test]
fn white_space_is_that_of_unicode() {
    for code in 0u32..0x11_0000 {
        if let Some(c) = char::from_u32(code) {
            assert_eq!(is_white_space(c), c.is_whitespace(), "{code:x}");
        }
    }
}

#[test]
fn utf8_is_decoded() {
    assert_eq!(utf8_str("aé漢😀".as_bytes()), Some("aé漢😀"));
    assert_eq!(utf8_str(b""), Some(""));
    assert_eq!(utf8_str(&[0x61, 0xff]), None);
    assert_eq!(utf8_str(&[0xe3, 0x81]), None);
    assert_eq!(utf8_str(&[0xed, 0xa0, 0x80]), None);
    assert_eq!(utf8_str(&[0xc0, 0xaf]), None);
}

#[test]
fn characters_and_strings() {
    assert_eq!(chars_of("aé😀"), ['a', 'é', '😀']);
    assert_eq!(string_of(&['a', 'é', '😀']), "aé😀");
    assert_eq!(string_of(&[]), "");
    assert!(same_chars(&['a', 'b'], &['a', 'b']));
    assert!(!same_chars(&['a'], &['a', 'b']));
    assert!(!same_chars(&['a', 'c'], &['a', 'b']));
}

#[test]
fn comparing_texts() {
    assert!(same_text("", ""));
    assert!(same_text("exit", "exit"));
    assert!(!same_text("exit", "exi"));
    assert!(!same_text("exit", "Exit"));
    assert!(holds_text(&texts(&["a", "b"]), "b"));
    assert!(!holds_text(&texts(&["a", "b"]), ""));
    assert!(!holds_text(&texts(&[]), ""));
    assert!(text_ends_with("x.app", ".app"));
    assert!(text_ends_with(".app", ".app"));
    assert!(text_ends_with("x", ""));
    assert!(!text_ends_with("app", ".app"));
    assert!(!text_ends_with("x.app/", ".app"));
    assert!(text_has("a/b", '/'));
    assert!(!text_has("ab", '/'));
}

#[test]
fn scanning() {
    let s = chars_of("  ab c");
    assert_eq!(after_white(&s, 0), 2);
    assert_eq!(after_white(&s, 2), 2);
    assert_eq!(after_word(&s, 2), 4);
    assert_eq!(after_word(&s, 5), 6);
    assert_eq!(char_index(&s, 'c', 0), 5);
    assert_eq!(char_index(&s, 'z', 0), 6);
}

#[test]
fn trimming_agrees_with_std() {
    for s in ["", " ", "a", " a", "a ", " \t a b \u{3000}", "\u{a0}x\u{2003}", "\r\n"] {
        let chars = chars_of(s);
        assert_eq!(string_of(trimmed(&chars)), s.trim());
    }
}

#[test]
fn splitting_agrees_with_std() {
    for s in ["", "  ", "a", " a  b\tc ", "x\u{3000}y\nz", "a\u{200b}b"] {
        let expected: Vec<String> = s.split_whitespace().map(|w| w.to_string()).collect();
        assert_eq!(split_words(&chars_of(s)), expected);
    }
}

#[test]
fn joined_words_come_apart() {
    let list = texts(&["one", "two", "three"]);
    let line = joined(&list, " ");
    assert_eq!(line, "one two three");
    assert_eq!(split_words(&chars_of(&line)), list);
    assert_eq!(joined(&[], ", "), "");
    assert_eq!(joined(&texts(&["a"]), ", "), "a");
    assert_eq!(joined(&texts(&["a", "", "b"]), "--"), "a----b");
}

#[test]
fn numbers_are_read_as_std_reads_them() {
    for s in [
        "", "0", "7", "+7", "+", "-1", "-0", "++1", "1+", "007", " 1", "1 ", "1_0", "0x10", "１",
        "18446744073709551615", "18446744073709551616", "18446744073709551620",
        "99999999999999999999999", "+18446744073709551615", "00000000000000000000000000001",
    ] {
        assert_eq!(parse_u64(s), s.parse::<u64>().ok(), "{s}");
        assert_eq!(parse_usize(s), s.parse::<usize>().ok(), "{s}");
    }
}

#[test]
fn numbers_are_written_in_decimal() {
    for n in [0u64, 9, 10, 99, 100, 4096, 1234567890, u64::MAX] {
        assert_eq!(decimal_string(n), n.to_string());
        assert_eq!(parse_u64(&decimal_string(n)), Some(n));
    }
}
