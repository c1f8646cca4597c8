use rfshare::text::{
    after_prefix, chars_of, find_text, has_text, index_of, is_text, lines_of, part_of, replaced,
    same_chars, same_text, split_chars, splitn_chars, string_of, trim_char_ends, trim_char_start,
    trim_chars, trimmed, white_space, without_char, words_of,
};

fn strings(v: Vec<Vec<char>>) -> Vec<String> {
    v.iter().map(|c| string_of(c)).collect()
}

#[test]
fn characters_make_a_string_again() {
    for s in ["", "a", "naïve café", "📁 and more"] {
        assert_eq!(string_of(&chars_of(s)), s);
    }
    assert_eq!(string_of(&part_of(&chars_of("abcdef"), 2, 4)), "cd");
}

#[test]
fn texts_are_compared_by_their_characters() {
    assert!(same_text("abc", "abc"));
    assert!(!same_text("abc", "abd"));
    assert!(!same_text("abc", "ab"));
    assert!(same_chars(&chars_of("x"), &chars_of("x")));
    assert!(is_text(&chars_of("sent"), "sent"));
    assert!(!is_text(&chars_of("sent"), "Sent"));
}

#[test]
fn white_space_is_that_of_unicode() {
    for n in 0..0x11_0000u32 {
        if let Some(c) = char::from_u32(n) {
            assert_eq!(white_space(c), c.is_whitespace(), "U+{:04X}", n);
        }
    }
}

#[test]
fn places_of_characters_and_texts() {
    assert_eq!(index_of(&chars_of("a=b=c"), '='), Some(1));
    assert_eq!(index_of(&chars_of("abc"), '='), None);
    assert_eq!(find_text(&chars_of("xx\"tag\"xx\"tag\""), "\"tag\""), Some(2));
    assert_eq!(find_text(&chars_of("abc"), ""), Some(0));
    assert_eq!(find_text(&chars_of("abc"), "abcd"), None);
    assert!(has_text("HTTP/1.1 200 OK", "200 OK"));
    assert!(!has_text("HTTP/1.1 404 Not Found", "200 OK"));
}

#[test]
fn prefixes_are_taken_away_once() {
    assert_eq!(after_prefix(&chars_of("key=key=1"), "key=").map(|v| string_of(&v)), Some("key=1".to_string()));
    assert!(after_prefix(&chars_of("ke"), "key=").is_none());
}

#[test]
fn splitting_follows_std() {
    for s in ["", ",", "a,b", "a,,b,", ",a"] {
        let own = strings(split_chars(&chars_of(s), ','));
        let std: Vec<&str> = s.split(',').collect();
        assert_eq!(own, std);
    }
    for n in 1..5usize {
        for s in ["", "1.2.3", "1.2.3.4.5", "1"] {
            let own = strings(splitn_chars(&chars_of(s), n, '.'));
            let std: Vec<&str> = s.splitn(n, '.').collect();
            assert_eq!(own, std);
        }
    }
}

#[test]
fn lines_follow_std() {
    for s in ["", "\n", "a", "a\n", "a\r\nb\n\nc", "a\rb\n", "\r\n", "x\n\n"] {
        let own = strings(lines_of(s));
        let std: Vec<&str> = s.lines().collect();
        assert_eq!(own, std, "{:?}", s);
    }
}

#[test]
fn trimming_follows_std() {
    for s in ["", "  ", " a b \t\n", "\u{3000}x\u{a0}", "x"] {
        assert_eq!(trimmed(s), s.trim());
        assert_eq!(string_of(&trim_chars(&chars_of(s))), s.trim());
    }
    assert_eq!(string_of(&trim_char_start(&chars_of("vv1.2v"), 'v')), "1.2v");
    assert_eq!(string_of(&trim_char_ends(&chars_of("\0\0a\0b\0"), '\0')), "a\0b");
}

#[test]
fn words_follow_std() {
    for s in ["", " ", "GET /x HTTP/1.1", "  a \t b\u{2003}c "] {
        let own = strings(words_of(&chars_of(s)));
        let std: Vec<&str> = s.split_whitespace().collect();
        assert_eq!(own, std);
    }
}

#[test]
fn characters_are_replaced_and_removed() {
    assert_eq!(replaced("10.0.0.1", '.', '_'), "10_0_0_1");
    assert_eq!(without_char(" a b c ", ' '), "abc");
}
