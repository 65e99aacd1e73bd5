use uic_tui::keys::{TermKeyCode, TermKeyEvent, TermKeyEventKind, CONTROL, NO_MODIFIERS, SHIFT};
use uic_tui::KeyStroke;

const NAMED: [(&str, TermKeyCode); 14] = [
    ("Enter", TermKeyCode::Enter),
    ("Escape", TermKeyCode::Esc),
    ("Backspace", TermKeyCode::Backspace),
    ("Delete", TermKeyCode::Delete),
    ("Insert", TermKeyCode::Insert),
    ("Home", TermKeyCode::Home),
    ("End", TermKeyCode::End),
    ("PageUp", TermKeyCode::PageUp),
    ("PageDown", TermKeyCode::PageDown),
    ("ArrowUp", TermKeyCode::Up),
    ("ArrowDown", TermKeyCode::Down),
    ("ArrowLeft", TermKeyCode::Left),
    ("ArrowRight", TermKeyCode::Right),
    ("Tab", TermKeyCode::Tab),
];

#[test]
fn the_table_round_trips_both_ways() {
    for (name, code) in NAMED.iter() {
        let stroke = KeyStroke::new(name);
        let event = stroke.to_crossterm().expect("named key translates");
        assert_eq!(event.code, *code, "{name}");
        let back = KeyStroke::from_crossterm(&event).expect("and comes back");
        assert_eq!(back, stroke, "{name}");
    }
}

#[test]
fn characters_carry_case_instead_of_shift() {
    let upper =
        KeyStroke::from_crossterm(&TermKeyEvent::new(TermKeyCode::Char('A'), SHIFT)).unwrap();
    assert_eq!(upper.key, "A");
    assert!(!upper.shift);
    assert_eq!(
        KeyStroke::new("a").to_crossterm().unwrap().code,
        TermKeyCode::Char('a')
    );
}

#[test]
fn function_keys_translate_within_the_terminal_range() {
    assert_eq!(
        KeyStroke::new("F5").to_crossterm().unwrap().code,
        TermKeyCode::F(5)
    );
    assert!(KeyStroke::new("F13").to_crossterm().is_none());
    let f6 = KeyStroke::from_crossterm(&TermKeyEvent::new(TermKeyCode::F(6), NO_MODIFIERS)).unwrap();
    assert_eq!(f6.key, "F6");
}

#[test]
fn shifted_tab_is_backtab_with_shift_still_set() {
    let event = KeyStroke::shifted("Tab").to_crossterm().unwrap();
    assert_eq!(event.code, TermKeyCode::BackTab);
    assert!(event.modifiers & SHIFT != 0);
    let back = KeyStroke::from_crossterm(&event).unwrap();
    assert_eq!(back.key, "Tab");
    assert!(back.shift);
}

#[test]
fn bare_modifiers_translate_to_nothing() {
    for name in ["Shift", "Control", "Alt", "Meta", "CapsLock", "Dead"] {
        assert!(KeyStroke::new(name).to_crossterm().is_none(), "{name}");
    }
}

#[test]
fn the_quit_chords() {
    assert!(KeyStroke::new("Escape").is_quit());
    let mut ctrl_c = KeyStroke::new("c");
    ctrl_c.ctrl = true;
    assert!(ctrl_c.is_quit());
    assert!(!KeyStroke::new("c").is_quit());
    assert!(!KeyStroke::shifted("Tab").is_quit());
}

#[test]
fn every_function_key_round_trips_with_its_modifiers() {
    for n in 1..=12u8 {
        let name = format!("F{n}");
        let mut stroke = KeyStroke::new(&name);
        stroke.ctrl = true;
        stroke.alt = n % 2 == 0;
        let event = stroke.to_crossterm().unwrap();
        assert_eq!(event.code, TermKeyCode::F(n));
        assert_eq!(event.kind, TermKeyEventKind::Press);
        let back = KeyStroke::from_crossterm(&event).unwrap();
        assert_eq!(back, stroke, "{name}");
    }
}

#[test]
fn strokes_carry_their_modifier_bits() {
    let mut stroke = KeyStroke::new("x");
    stroke.ctrl = true;
    let event = stroke.to_crossterm().unwrap();
    assert_eq!(event.modifiers, CONTROL);
    assert_eq!(event.code, TermKeyCode::Char('x'));
    let mut meta = KeyStroke::new("Home");
    meta.meta = true;
    let back = KeyStroke::from_crossterm(&meta.to_crossterm().unwrap()).unwrap();
    assert!(back.meta);
    assert_eq!(back.key, "Home");
}

#[test]
fn codes_without_a_dom_name_come_back_as_nothing() {
    assert!(KeyStroke::from_crossterm(&TermKeyEvent::new(TermKeyCode::CapsLock, NO_MODIFIERS)).is_none());
    assert!(KeyStroke::from_crossterm(&TermKeyEvent::new(TermKeyCode::Null, NO_MODIFIERS)).is_none());
}
