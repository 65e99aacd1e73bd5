use uic_tui::dialog::{dialog_layout, dialog_size, wrapped_line_count, Dialog, DialogChoice, DialogKind, DialogOutcome};
use uic_tui::geometry::Rect;
use uic_tui::KeyStroke;

#[test]
fn enter_answers_with_the_focused_button() {
    let mut dialog = Dialog::confirm("sure?");
    assert_eq!(dialog.key(&KeyStroke::new("Enter")), DialogOutcome::Accept);

    let mut dialog = Dialog::confirm("sure?");
    assert_eq!(dialog.key(&KeyStroke::new("Tab")), DialogOutcome::Open);
    assert_eq!(dialog.focus, DialogChoice::Cancel);
    assert_eq!(dialog.key(&KeyStroke::new("Enter")), DialogOutcome::Cancel);
    assert_eq!(
        dialog.key(&KeyStroke::new("ArrowLeft")),
        DialogOutcome::Open
    );
    assert_eq!(dialog.focus, DialogChoice::Accept);
}

#[test]
fn escape_cancels_and_shortcuts_decide_a_confirm() {
    let mut dialog = Dialog::confirm("sure?");
    assert_eq!(dialog.key(&KeyStroke::new("Escape")), DialogOutcome::Cancel);
    assert_eq!(dialog.key(&KeyStroke::new("y")), DialogOutcome::Accept);
    assert_eq!(dialog.key(&KeyStroke::new("n")), DialogOutcome::Cancel);

    // An alert has one button and no focus to move.
    let mut alert = Dialog::alert("done");
    assert_eq!(alert.key(&KeyStroke::new("Tab")), DialogOutcome::Open);
    assert_eq!(alert.focus, DialogChoice::Accept);
    assert_eq!(alert.key(&KeyStroke::new("y")), DialogOutcome::Open);
    assert_eq!(alert.key(&KeyStroke::new("Enter")), DialogOutcome::Accept);
}

#[test]
fn a_prompt_collects_text_and_y_is_just_a_letter() {
    let mut dialog = Dialog::prompt("name?", "wor");
    assert_eq!(dialog.key(&KeyStroke::new("l")), DialogOutcome::Open);
    assert_eq!(dialog.key(&KeyStroke::new("d")), DialogOutcome::Open);
    assert_eq!(dialog.input, "world");
    assert_eq!(
        dialog.key(&KeyStroke::new("Backspace")),
        DialogOutcome::Open
    );
    assert_eq!(dialog.input, "worl");
    assert_eq!(dialog.key(&KeyStroke::new("y")), DialogOutcome::Open);
    assert_eq!(dialog.input, "worly");
    assert_eq!(dialog.key(&KeyStroke::new("Enter")), DialogOutcome::Accept);

    // Modifier chords stay with the host.
    let mut ctrl_c = KeyStroke::new("c");
    ctrl_c.ctrl = true;
    assert_eq!(dialog.key(&ctrl_c), DialogOutcome::Open);
    assert_eq!(dialog.input, "worly");
}

#[test]
fn the_constructors_title_and_label_the_box() {
    let alert = Dialog::alert("done");
    assert_eq!(alert.kind, DialogKind::Alert);
    assert_eq!(alert.title, "alert");
    assert_eq!(alert.ok_label, "ok");
    assert_eq!(alert.cancel_label, "cancel");
    assert_eq!(alert.input, "");
    let confirm = Dialog::confirm("sure?");
    assert_eq!(confirm.title, "confirm");
    let prompt = Dialog::prompt("name?", "x");
    assert_eq!(prompt.title, "prompt");
    assert_eq!(prompt.input, "x");
    assert_eq!(prompt.message, "name?");
}

#[test]
fn backspace_undoes_the_last_typed_letter() {
    let mut dialog = Dialog::prompt("name?", "ab");
    dialog.key(&KeyStroke::new("\u{e9}"));
    assert_eq!(dialog.input, "ab\u{e9}");
    dialog.key(&KeyStroke::new("Backspace"));
    assert_eq!(dialog.input, "ab");
    // On an empty line Backspace leaves it empty.
    let mut empty = Dialog::prompt("name?", "");
    assert_eq!(empty.key(&KeyStroke::new("Backspace")), DialogOutcome::Open);
    assert_eq!(empty.input, "");
}

#[test]
fn named_keys_and_control_characters_stay_out_of_the_line() {
    let mut dialog = Dialog::prompt("name?", "");
    assert_eq!(dialog.key(&KeyStroke::new("ArrowUp")), DialogOutcome::Open);
    assert_eq!(dialog.key(&KeyStroke::new("\u{7}")), DialogOutcome::Open);
    assert_eq!(dialog.input, "");
    // A confirm eats no text.
    let mut confirm = Dialog::confirm("sure?");
    assert_eq!(confirm.key(&KeyStroke::new("q")), DialogOutcome::Open);
    assert_eq!(confirm.input, "");
}

#[test]
fn focus_moves_both_ways_and_back() {
    let mut dialog = Dialog::confirm("sure?");
    dialog.key(&KeyStroke::new("ArrowRight"));
    assert_eq!(dialog.focus, DialogChoice::Cancel);
    dialog.key(&KeyStroke::new("ArrowRight"));
    assert_eq!(dialog.focus, DialogChoice::Accept);
}

#[test]
fn the_box_is_centered_and_sized_for_its_content() {
    let area = Rect::new(0, 0, 60, 12);
    let layout = dialog_layout(area, &Dialog::confirm("sure?"));
    assert_eq!(layout.rect, Rect::new(15, 3, 30, 5));
    assert_eq!(layout.message_lines, 1);

    // A prompt adds its line and a gap.
    let layout = dialog_layout(area, &Dialog::prompt("name?", ""));
    assert_eq!(layout.rect, Rect::new(15, 2, 30, 7));

    // A narrow area caps the box and keeps it inside.
    let small = Rect::new(2, 1, 20, 4);
    let layout = dialog_layout(small, &Dialog::alert("a message that wraps over lines"));
    assert_eq!(layout.rect.width, 18);
    assert_eq!(layout.rect.height, 4);
    assert_eq!(layout.rect.x, 3);
    assert_eq!(layout.rect.y, 1);
}

#[test]
fn dialog_messages_wrap_greedily() {
    assert_eq!(wrapped_line_count("aaa bbb ccc", 7), 2);
    assert_eq!(wrapped_line_count("abcdefghij", 4), 3);
    assert_eq!(wrapped_line_count("abcd", 4), 1);
    assert_eq!(wrapped_line_count("", 4), 1);
    assert_eq!(wrapped_line_count("anything", 0), 1);
}

#[test]
fn a_fitting_message_takes_one_line_and_any_takes_at_least_one() {
    assert_eq!(wrapped_line_count("two words", 9), 1);
    assert_eq!(wrapped_line_count("  two   words ", 9), 1);
    assert_eq!(wrapped_line_count("two words", 8), 2);
    assert_eq!(wrapped_line_count("   ", 3), 1);
    assert_eq!(wrapped_line_count("abc", 1), 3);
}

#[test]
fn an_area_at_the_far_edge_still_centers_its_box() {
    // The area reaches past the last cell column; only the box's corner
    // needs to be a cell position.
    let area = Rect::new(65500, 0, 60, 12);
    assert_eq!(dialog_size(area, &Dialog::confirm("sure?")), (30, 5, 1));
    let layout = dialog_layout(area, &Dialog::confirm("sure?"));
    assert_eq!(layout.rect, Rect::new(65515, 3, 30, 5));
}
