use uic_tui::keymap::{translate_key, translate_mouse, TermMouseButton, TermMouseKind};
use uic_tui::keys::{TermKeyCode, TermKeyEventKind, CONTROL, SHIFT};

#[test]
fn printables_arrive_as_chars_with_modifiers() {
    let event = translate_key("A", false, false, true).unwrap();
    assert_eq!(event.code, TermKeyCode::Char('A'));
    assert_eq!(event.modifiers, SHIFT);
    assert_eq!(event.kind, TermKeyEventKind::Press);

    let space = translate_key(" ", false, false, false).unwrap();
    assert_eq!(space.code, TermKeyCode::Char(' '));

    let ctrl_c = translate_key("c", true, false, false).unwrap();
    assert_eq!(ctrl_c.code, TermKeyCode::Char('c'));
    assert_eq!(ctrl_c.modifiers, CONTROL);
}

#[test]
fn named_keys_map_to_their_terminal_codes() {
    for (name, code) in [
        ("Enter", TermKeyCode::Enter),
        ("Escape", TermKeyCode::Esc),
        ("Backspace", TermKeyCode::Backspace),
        ("Delete", TermKeyCode::Delete),
        ("Insert", TermKeyCode::Insert),
        ("Home", TermKeyCode::Home),
        ("End", TermKeyCode::End),
        ("PageUp", TermKeyCode::PageUp),
        ("PageDown", TermKeyCode::PageDown),
        ("ArrowUp", TermKeyCode::Up),
        ("ArrowDown", TermKeyCode::Down),
        ("ArrowLeft", TermKeyCode::Left),
        ("ArrowRight", TermKeyCode::Right),
        ("Tab", TermKeyCode::Tab),
        ("F4", TermKeyCode::F(4)),
        ("F12", TermKeyCode::F(12)),
    ] {
        assert_eq!(
            translate_key(name, false, false, false).unwrap().code,
            code,
            "{name}"
        );
    }
}

#[test]
fn shift_tab_is_back_tab() {
    let event = translate_key("Tab", false, false, true).unwrap();
    assert_eq!(event.code, TermKeyCode::BackTab);
    assert_eq!(event.modifiers, SHIFT);
}

#[test]
fn keys_without_a_terminal_notion_are_dropped() {
    for name in [
        "Shift",
        "Control",
        "Alt",
        "Meta",
        "CapsLock",
        "Dead",
        "Unidentified",
        "F13",
    ] {
        assert!(translate_key(name, false, false, false).is_none(), "{name}");
    }
}

#[test]
fn pointer_gestures_map_to_terminal_mouse_kinds() {
    for (name, kind) in [
        ("down", TermMouseKind::Down(TermMouseButton::Left)),
        ("up", TermMouseKind::Up(TermMouseButton::Left)),
        ("drag", TermMouseKind::Drag(TermMouseButton::Left)),
        ("wheel-up", TermMouseKind::ScrollUp),
        ("wheel-down", TermMouseKind::ScrollDown),
    ] {
        assert_eq!(translate_mouse(name), Some(kind), "{name}");
    }
    assert_eq!(translate_mouse("hover"), None);
}

#[test]
fn alt_travels_in_the_modifier_bits() {
    let event = translate_key("x", false, true, false).unwrap();
    assert_eq!(event.modifiers, uic_tui::keys::ALT);
    assert_eq!(event.state, 0);
    assert!(translate_key("F0", false, false, false).is_none());
    assert!(translate_key("", false, false, false).is_none());
}
