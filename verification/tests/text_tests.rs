use miru::text::{
    char_utf8_width, chars_eq, chars_of, find_char_exec, find_str_exec, is_whitespace_char,
    lines_exec, push_chars, push_str, rfind_char_exec, starts_with_exec, string_from, trim_end_matches_slice,
    trim_slice, utf8_length, utf8_length_wide, words_exec,
};

fn cs(s: &str) -> Vec<char> {
    s.chars().collect()
}

fn strs(v: Vec<Vec<char>>) -> Vec<String> {
    v.into_iter().map(|l| l.into_iter().collect()).collect()
}

#[test]
fn utf8_widths() {
    assert_eq!(char_utf8_width('a'), 1);
    assert_eq!(char_utf8_width('\u{e9}'), 2);
    assert_eq!(char_utf8_width('\u{20ac}'), 3);
    assert_eq!(char_utf8_width('\u{1f600}'), 4);
    let s = cs("a\u{e9}\u{20ac}\u{1f600}");
    assert_eq!(utf8_length(&s), 10);
    assert_eq!(utf8_length_wide(&s), 10);
    assert_eq!(utf8_length(&s), "a\u{e9}\u{20ac}\u{1f600}".len());
}

#[test]
fn whitespace_matches_std() {
    for c in ['\t', '\n', '\r', ' ', '\u{85}', '\u{a0}', '\u{2003}', '\u{3000}', 'a', '_', '\u{200b}'] {
        assert_eq!(is_whitespace_char(c), c.is_whitespace(), "{:?}", c);
    }
}

#[test]
fn trimming_and_searching() {
    let s = cs("  \u{a0}ab;;\t ");
    assert_eq!(trim_slice(&s).iter().collect::<String>(), "ab;;");
    assert_eq!(trim_end_matches_slice(trim_slice(&s), ';').iter().collect::<String>(), "ab");
    let t = cs("a-->b-->c");
    assert_eq!(find_str_exec(&t, &cs("-->")), Some(1));
    assert_eq!(find_str_exec(&t, &cs("==>")), None);
    assert_eq!(find_char_exec(&t, 'b'), Some(4));
    assert_eq!(rfind_char_exec(&t, '-'), Some(6));
    assert_eq!(rfind_char_exec(&t, 'z'), None);
    assert!(starts_with_exec(&t, &cs("a-")));
    assert!(!starts_with_exec(&t, &cs("a-->b-->c!")));
    assert!(chars_eq(&cs("xy"), &cs("xy")));
    assert!(!chars_eq(&cs("xy"), &cs("x")));
}

#[test]
fn lines_and_words_as_std() {
    let text = "one\r\n\ntwo \nthree\n";
    let ls = strs(lines_exec(&cs(text)));
    let expected: Vec<String> = text.lines().map(|l| l.trim().to_string()).collect();
    assert_eq!(ls.iter().map(|l| l.trim().to_string()).collect::<Vec<_>>(), expected);
    assert_eq!(ls.len(), 4);
    assert!(lines_exec(&cs("")).is_empty());
    let w = "  graph\tTD  x ";
    assert_eq!(strs(words_exec(&cs(w))), w.split_whitespace().map(|s| s.to_string()).collect::<Vec<_>>());
}

#[test]
fn building_strings() {
    let mut s = string_from(&cs("ab"));
    push_str(&mut s, "c\u{e9}");
    push_chars(&mut s, &cs("!"));
    assert_eq!(s, "abc\u{e9}!");
    assert_eq!(chars_of(&s), cs("abc\u{e9}!"));
}
