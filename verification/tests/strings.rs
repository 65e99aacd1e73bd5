use uic_tui::ansi::{clear_code_chars, ClearType};
use uic_tui::dialog::printable;
use uic_tui::strings::{
    chars_eq, chars_eq_str, chars_of, decimal_chars, is_ascii_ws_exec, is_control_exec,
    is_unicode_ws_exec, parse_u8, push_chars, push_decimal, string_of,
};
use uic_tui::text::{join_exec, split_words_exec};
use uic_tui::worker::replace_all_exec;

fn v(s: &str) -> Vec<char> {
    s.chars().collect()
}

#[test]
fn strings_and_character_runs_convert_both_ways() {
    assert_eq!(chars_of("h\u{e9}!"), vec!['h', '\u{e9}', '!']);
    assert_eq!(string_of(&v("ok")), "ok");
    let mut s = String::from("a");
    push_chars(&mut s, &v("bc"));
    assert_eq!(s, "abc");
    assert!(chars_eq(&v("x"), &v("x")));
    assert!(!chars_eq(&v("x"), &v("xy")));
    assert!(chars_eq_str(&v("Tab"), "Tab"));
    assert!(!chars_eq_str(&v("Tab"), "tab"));
}

#[test]
fn numerals_print_and_parse() {
    assert_eq!(decimal_chars(0), vec!['0']);
    assert_eq!(decimal_chars(4096), v("4096"));
    let mut s = String::from("F");
    push_decimal(&mut s, 12);
    assert_eq!(s, "F12");
    assert_eq!(parse_u8(&v("255")), Some(255));
    assert_eq!(parse_u8(&v("+7")), Some(7));
    assert_eq!(parse_u8(&v("007")), Some(7));
    assert_eq!(parse_u8(&v("256")), None);
    assert_eq!(parse_u8(&v("")), None);
    assert_eq!(parse_u8(&v("+")), None);
    assert_eq!(parse_u8(&v("1a")), None);
    assert_eq!(parse_u8(&v("-1")), None);
}

#[test]
fn character_classes_follow_std() {
    for c in [' ', '\t', '\n', '\x0C', '\r', '\x0B', '\u{a0}', '\u{3000}', 'a', '\u{85}'] {
        assert_eq!(is_ascii_ws_exec(c), c.is_ascii_whitespace(), "{c:?}");
        assert_eq!(is_unicode_ws_exec(c), c.is_whitespace(), "{c:?}");
        assert_eq!(is_control_exec(c), c.is_control(), "{c:?}");
    }
}

#[test]
fn only_single_visible_characters_are_printable() {
    assert!(printable("a"));
    assert!(printable("\u{e9}"));
    assert!(!printable("ab"));
    assert!(!printable(""));
    assert!(!printable("\u{1b}"));
}

#[test]
fn words_split_and_join() {
    let words = split_words_exec(" a\u{a0}b  c ", false);
    assert_eq!(words, vec![v("a\u{a0}b"), v("c")]);
    let unicode = split_words_exec(" a\u{a0}b  c ", true);
    assert_eq!(unicode, vec![v("a"), v("b"), v("c")]);
    assert_eq!(join_exec(&unicode), "a b c");
}

#[test]
fn replacement_scans_left_to_right_without_overlap() {
    assert_eq!(replace_all_exec(&v("aaa"), &v("aa"), &v("b")), v("ba"));
    assert_eq!(replace_all_exec(&v("xyz"), &v("q"), &v("r")), v("xyz"));
    assert_eq!(replace_all_exec(&v("a-b-c"), &v("-"), &v("--")), v("a--b--c"));
    assert_eq!(clear_code_chars(ClearType::CurrentLine), v("\x1b[2K"));
}
