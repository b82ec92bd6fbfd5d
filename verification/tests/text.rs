use rbld::text::{
    chars_of, first_index, has_prefix, is_blank, is_white_char, join_lines, last_index, split_lines,
    text_of, trimmed_len,
};

fn lines_of(s: &str) -> Vec<String> {
    let cs = chars_of(s);
    split_lines(&cs).into_iter().map(|l| l.into_iter().collect()).collect()
}

#[test]
fn chars_round_trip() {
    let cs = chars_of("h\u{e9}llo");
    assert_eq!(cs, vec!['h', '\u{e9}', 'l', 'l', 'o']);
    assert_eq!(text_of(&cs, 1, 4), "\u{e9}ll");
    assert_eq!(text_of(&cs, 2, 2), "");
}

#[test]
fn lines_follow_std() {
    for s in ["", "a", "a\n", "a\r\nb\n", "a\nb", "x\r", "\n", "a\n\nb", "\r\n\r\n", "a\r\r\n", "mid\rline\n"] {
        let expected: Vec<String> = s.lines().map(str::to_owned).collect();
        assert_eq!(lines_of(s), expected, "lines of {s:?}");
    }
}

#[test]
fn lines_keep_a_lone_carriage_return_at_the_end() {
    assert_eq!(lines_of("x\r"), vec!["x\r".to_owned()]);
    assert_eq!(lines_of("a\r\nb"), vec!["a".to_owned(), "b".to_owned()]);
}

#[test]
fn prefixes_and_positions() {
    let s = chars_of("hosts/alpha/x");
    assert!(has_prefix(&s, &chars_of("hosts/")));
    assert!(has_prefix(&s, &chars_of("")));
    assert!(!has_prefix(&s, &chars_of("host/")));
    assert!(!has_prefix(&chars_of("ho"), &chars_of("hosts")));
    assert_eq!(first_index(&s, '/'), Some(5));
    assert_eq!(last_index(&s, '/'), Some(11));
    assert_eq!(first_index(&s, '#'), None);
    assert_eq!(last_index(&s, '#'), None);
    assert_eq!(trimmed_len(&chars_of("a//"), '/'), 1);
    assert_eq!(trimmed_len(&chars_of("///"), '/'), 0);
    assert_eq!(trimmed_len(&chars_of("a"), '/'), 1);
}

#[test]
fn white_space_is_unicode_white_space() {
    for code in 0u32..0x3100 {
        if let Some(c) = char::from_u32(code) {
            assert_eq!(is_white_char(c), c.is_whitespace(), "{code:#x}");
        }
    }
    assert!(is_blank(" \t\u{3000}\n"));
    assert!(is_blank(""));
    assert!(!is_blank(" a "));
}

#[test]
fn joined_with_separator() {
    let parts = vec!["a".to_owned(), String::new(), "b".to_owned()];
    assert_eq!(join_lines(&parts, "\n"), "a\n\nb");
    assert_eq!(join_lines(&[], "\n"), "");
    assert_eq!(join_lines(&["one".to_owned()], ", "), "one");
}
