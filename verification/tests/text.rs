use simple_english::lines::{join_strings, lines_of, split_at_char};
use simple_english::text::{
    alnum, ascii_alnum, at_str, blank, byte_length, char_width, chars_of, count_words, decimal_of,
    digit, find, has_char, hexadecimal_of, holds, lower, offset_at, part_of, same,
    skip_run, skip_white, spaces_of, string_of, trim_bounds, white,
};

fn every_char() -> Vec<char> {
    (0u32..=0x10ffff).filter_map(char::from_u32).collect()
}

#[test]
fn character_classes_agree_with_the_standard_library() {
    for c in every_char() {
        assert_eq!(white(c), c.is_whitespace(), "{c:?}");
        assert_eq!(digit(c), c.is_ascii_digit(), "{c:?}");
        assert_eq!(ascii_alnum(c), c.is_ascii_alphanumeric(), "{c:?}");
        assert_eq!(alnum(c), c.is_alphanumeric(), "{c:?}");
        assert_eq!(char_width(c), c.len_utf8(), "{c:?}");
    }
}

#[test]
fn lower_case_of_ascii_and_other_text() {
    assert_eq!(lower("GIT Commit 42_"), "git commit 42_");
    assert_eq!(lower("ÀÉ Ω"), "àé ω");
    assert_eq!(lower("İ"), "i\u{307}");
}

#[test]
fn trimming_agrees_with_the_standard_library() {
    for s in ["", " ", "a", " a", "a ", " \t a b \u{3000}", "\u{a0}x\u{2028}"] {
        let chars = chars_of(s);
        let (a, b) = trim_bounds(&chars, 0, chars.len());
        assert_eq!(string_of(&chars, a, b), s.trim());
        assert_eq!(blank(&chars), s.trim().is_empty());
        let w = skip_white(&chars, 0);
        assert_eq!(string_of(&chars, w, chars.len()), s.trim_start());
    }
}

#[test]
fn trimming_a_stretch() {
    let chars = chars_of("ab  cd  ef");
    assert_eq!(trim_bounds(&chars, 2, 8), (4, 6));
    assert_eq!(trim_bounds(&chars, 2, 4), (4, 4));
    assert_eq!(part_of(&chars, 4, 6), vec!['c', 'd']);
}

#[test]
fn numbers_as_text() {
    for n in [0usize, 7, 10, 99, 100, 4096, usize::MAX] {
        assert_eq!(decimal_of(n), n.to_string());
    }
    assert_eq!(hexadecimal_of(0, 16), "0000000000000000");
    assert_eq!(hexadecimal_of(0xdead_beef, 16), "00000000deadbeef");
    assert_eq!(hexadecimal_of(u64::MAX, 4), "ffff");
}

#[test]
fn words_and_bytes() {
    for s in ["", "  ", "one", " one  two\tthree ", "é — x"] {
        assert_eq!(count_words(&chars_of(s)), s.split_whitespace().count());
        assert_eq!(byte_length(s), s.len());
    }
    let chars = chars_of("aé—b");
    assert_eq!(offset_at(&chars, 0), 0);
    assert_eq!(offset_at(&chars, 2), 3);
    assert_eq!(offset_at(&chars, 4), 7);
    assert_eq!(spaces_of(3), "   ");
}

#[test]
fn searching() {
    let s = chars_of("abcabc");
    assert_eq!(find(&s, &chars_of("bc"), 0), Some(1));
    assert_eq!(find(&s, &chars_of("bc"), 2), Some(4));
    assert_eq!(find(&s, &chars_of("x"), 0), None);
    assert_eq!(find(&s, &chars_of(""), 6), Some(6));
    assert!(at_str(&s, "cab", 2));
    assert!(!at_str(&s, "cab", 5));
    assert!(holds(&s, "cabc"));
    assert!(!holds(&s, "cc"));
    assert!(has_char(&s, 'a', 3));
    assert!(!has_char(&s, 'a', 4));
    assert_eq!(skip_run(&chars_of("aaab"), 'a', 1), 3);
    assert!(same("ab", "ab"));
    assert!(!same("ab", "abc"));
}

#[test]
fn lines_agree_with_the_standard_library() {
    for s in ["", "\n", "a", "a\n", "a\r\nb", "a\r", "a\n\nb\r\n\r\n", "\r\n", "x\ry\n"] {
        let mine: Vec<String> = lines_of(s).iter().map(|l| l.iter().collect()).collect();
        let theirs: Vec<String> = s.lines().map(String::from).collect();
        assert_eq!(mine, theirs, "{s:?}");
    }
}

#[test]
fn splitting_undoes_joining() {
    let parts: Vec<String> = vec!["one".to_string(), String::new(), "two words".to_string()];
    let joined = join_strings(&parts, "\n");
    assert_eq!(joined, "one\n\ntwo words");
    let again: Vec<String> =
        split_at_char(&chars_of(&joined), '\n').iter().map(|l| l.iter().collect()).collect();
    assert_eq!(again, parts);
    assert_eq!(join_strings(&Vec::new(), ", "), "");
}
