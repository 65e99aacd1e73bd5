use uic_tui::expand;
use uic_tui::text::{collapse_whitespace, ends_spaced, longest_word, rotated_glyph, starts_spaced, words, wrapped_lines};

#[test]
fn ascii_whitespace_collapses_and_trims() {
    assert_eq!(collapse_whitespace("  a \n\t b  "), "a b");
}

#[test]
fn non_breaking_spaces_survive_the_collapse() {
    assert_eq!(
        collapse_whitespace("\n  \u{a0}\u{a0}indented rest\n"),
        "\u{a0}\u{a0}indented rest"
    );
}

#[test]
fn non_breaking_spaces_glue_wrap_words() {
    // One 8-cell word (two NBSPs plus "abcdef"): it wraps as a unit, so
    // a 10-cell line holds it and pushes the next word down.
    assert_eq!(wrapped_lines("\u{a0}\u{a0}abcdef xyz", 10), 2);
    assert_eq!(longest_word("\u{a0}\u{a0}abcdef xyz"), 8);
}

#[test]
fn right_angle_rotations_swap_marker_glyphs() {
    assert_eq!(rotated_glyph("\u{25b6}".into(), 90), "\u{25bc}");
    assert_eq!(rotated_glyph("\u{25b6}".into(), 0), "\u{25b6}");
    assert_eq!(rotated_glyph("\u{25b6}".into(), 45), "\u{25b6}");
    assert_eq!(rotated_glyph("no glyph".into(), 90), "no glyph");
}

#[test]
fn collapsing_twice_changes_nothing() {
    let once = collapse_whitespace(" x\t\ty \n z ");
    assert_eq!(once, "x y z");
    assert_eq!(collapse_whitespace(&once), once);
}

#[test]
fn the_collapse_keeps_the_words_in_order() {
    let text = "\talpha  beta\ngamma ";
    assert_eq!(words(text), vec!["alpha", "beta", "gamma"]);
    assert_eq!(collapse_whitespace(text), words(text).join(" "));
}

#[test]
fn blank_text_collapses_to_nothing() {
    assert_eq!(collapse_whitespace(""), "");
    assert_eq!(collapse_whitespace(" \n\t "), "");
    assert!(words("   ").is_empty());
}

#[test]
fn the_document_collapse_also_folds_unicode_spaces() {
    // The element-tree collapse splits on every Unicode space, the
    // non-breaking one included.
    assert_eq!(expand::collapse_whitespace("  a\u{a0}\u{a0}b \u{2003}c "), "a b c");
}

#[test]
fn wrapping_counts_lines_in_cells() {
    assert_eq!(wrapped_lines("", 10), 1);
    assert_eq!(wrapped_lines("aaa bbb ccc", 7), 2);
    assert_eq!(wrapped_lines("aaa bbb ccc", 11), 1);
    // An oversized word breaks across lines: 25 cells in 10-cell lines.
    assert_eq!(wrapped_lines("abcdefghijklmnopqrstuvwxy", 10), 3);
    // A zero width still lays one cell per line.
    assert_eq!(wrapped_lines("ab", 0), 2);
}

#[test]
fn wide_glyphs_take_two_cells() {
    // East Asian wide characters occupy two cells each.
    assert_eq!(longest_word("\u{65e5}\u{672c} ab"), 4);
    assert_eq!(wrapped_lines("\u{65e5}\u{672c}\u{65e5}", 4), 2);
}

#[test]
fn edge_spaces_are_detected_on_the_raw_text() {
    assert!(starts_spaced(" a"));
    assert!(!starts_spaced("a "));
    assert!(ends_spaced("a\n"));
    assert!(!ends_spaced(" a"));
    assert!(!starts_spaced(""));
    assert!(!ends_spaced(""));
}

#[test]
fn every_right_angle_turns_a_triangle() {
    assert_eq!(rotated_glyph("\u{25b6}".into(), 180), "\u{25c0}");
    assert_eq!(rotated_glyph("\u{25b6}".into(), 270), "\u{25b2}");
}

use uic_tui::text::{widest, word_cell_widths, wrap_line_count};

#[test]
fn words_measure_in_display_cells() {
    assert_eq!(word_cell_widths("ab \u{65e5}\u{672c}\n c"), vec![2, 4, 1]);
    assert!(word_cell_widths("  ").is_empty());
}

#[test]
fn wrapping_over_widths_is_greedy() {
    assert_eq!(wrap_line_count(&vec![], 5), 1);
    assert_eq!(wrap_line_count(&vec![3, 3, 3], 7), 2);
    assert_eq!(wrap_line_count(&vec![3, 3], 7), 1);
    assert_eq!(wrap_line_count(&vec![2, 12], 5), 4);
    assert_eq!(wrap_line_count(&vec![5, 5], 5), 2);
    assert_eq!(wrap_line_count(&vec![1, 1, 1], 0), 3);
    assert_eq!(widest(&vec![]), 0);
    assert_eq!(widest(&vec![3, 9, 4]), 9);
}

use uic_tui::text::{wrap_line_count_checked, wrapped_lines_checked};

#[test]
fn counts_past_sixteen_bits_are_refused() {
    assert_eq!(wrap_line_count_checked(&vec![70000], 1), None);
    assert_eq!(wrap_line_count_checked(&vec![65535], 1), Some(65535));
    assert_eq!(wrap_line_count_checked(&vec![3, 3, 3], 7), Some(2));
    assert_eq!(wrapped_lines_checked(&"a ".repeat(70000), 1), None);
    assert_eq!(wrapped_lines_checked("aaa bbb ccc", 7), Some(2));
}
