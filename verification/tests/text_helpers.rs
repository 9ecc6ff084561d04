use gl_lib::sdl_gui::components::text_box::edit_content;
use gl_lib::text_rendering::chars::{
    chars_after_bytes, chars_of, chars_start_with, count_leading, eq_chars, is_key, join_chars, lines_of,
    parse_i32, parse_usize, remove_char, split_chars, IntErrorKind,
};

fn v(s: &str) -> Vec<char> {
    s.chars().collect()
}

#[test]
fn lines_like_str_lines() {
    for text in ["a\nb", "a\r\nb\r\n", "", "\n", "x\r", "a\n\nb\n", "\r\n\r\n"] {
        let expected: Vec<Vec<char>> = text.lines().map(v).collect();
        assert_eq!(expected, lines_of(&v(text)), "{:?}", text);
    }
}

#[test]
fn split_keeps_empty_pieces() {
    let expected: Vec<Vec<char>> = "a,,b,".split(',').map(v).collect();
    assert_eq!(expected, split_chars(&v("a,,b,"), ','));
    assert_eq!(vec![Vec::<char>::new()], split_chars(&[], ','));
}

#[test]
fn join_puts_the_separator_between() {
    let ls = vec![v("a"), v("bc"), v("d")];
    assert_eq!(v("a--bc--d"), join_chars(&ls, 0, 3, "--"));
    assert_eq!(v("bc"), join_chars(&ls, 1, 2, "--"));
    assert_eq!(Vec::<char>::new(), join_chars(&ls, 2, 2, "--"));
}

#[test]
fn leading_lines_that_start_with_a_prefix() {
    let ls = vec![v("char a"), v("chars"), v("kerning"), v("char b")];
    assert_eq!(2, count_leading(&ls, 0, "char", true));
    assert_eq!(0, count_leading(&ls, 2, "char", true));
    assert_eq!(1, count_leading(&ls, 2, "char", false));
    assert_eq!(0, count_leading(&ls, 4, "char", true));
}

#[test]
fn cutting_bytes_off() {
    assert_eq!(Some(v("o")), chars_after_bytes(&v("hello"), 4));
    assert_eq!(Some(Vec::new()), chars_after_bytes(&v("hello"), 5));
    assert_eq!(None, chars_after_bytes(&v("hell"), 5));
    assert_eq!(Some(v("x")), chars_after_bytes(&v("ab\u{e9}x"), 4));
    assert_eq!(None, chars_after_bytes(&v("abc\u{e9}x"), 4));
}

#[test]
fn small_text_helpers() {
    assert_eq!(v("h\u{e9}"), chars_of("h\u{e9}"));
    assert!(eq_chars(&v("ab"), &v("ab")));
    assert!(!eq_chars(&v("ab"), &v("abc")));
    assert!(is_key(&v("face"), "face"));
    assert!(!is_key(&v("faces"), "face"));
    assert!(chars_start_with(&v("page id=0"), "page "));
    assert!(!chars_start_with(&v("pag"), "page "));
    assert_eq!(v("ab.png"), remove_char(&v("\"ab\".png"), '"'));
}

#[test]
fn integers_as_str_parse_reads_them() {
    for s in ["0", "+5", "-5", "2147483647", "-2147483648", "2147483648", "-2147483649", "", "+", "-", "1a", " 1", "\u{661}"] {
        let expected = s.parse::<i32>().map_err(|e| format!("{:?}", e.kind()));
        let got = parse_i32(&v(s)).map_err(|e| format!("{:?}", e));
        assert_eq!(expected, got, "{:?}", s);
    }
    for s in ["0", "+5", "-5", "-0", "18446744073709551615", "18446744073709551616", "", "+", "x"] {
        let expected = s.parse::<usize>().map_err(|e| format!("{:?}", e.kind()));
        let got = parse_usize(&v(s)).map_err(|e| format!("{:?}", e));
        assert_eq!(expected, got, "{:?}", s);
    }
    assert_eq!(Err(IntErrorKind::Empty), parse_i32(&[]));
}

#[test]
fn backspace_undoes_typing() {
    for key in [32, 49, 65, 96, 97, 122] {
        for (shift, caps) in [(false, false), (true, false), (false, true), (true, true)] {
            let typed = edit_content("ab", key, shift, caps).unwrap();
            assert_eq!(3, typed.chars().count());
            assert_eq!(Some("ab".to_string()), edit_content(&typed, 8, shift, caps));
        }
    }
}
