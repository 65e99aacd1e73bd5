use uic_tui::focus::{control_of, ensure_focus, route_key, step_focus, KeyRoute};
use uic_tui::keys::{TermKeyCode, TermKeyEvent, TermKeyEventKind, CONTROL, NO_MODIFIERS};
use uic_tui::Control;

#[test]
fn tab_walks_the_ring_and_wraps() {
    let ring = vec![10, 20, 30];
    assert_eq!(step_focus(&ring, Some(10), true), Some(20));
    assert_eq!(step_focus(&ring, Some(30), true), Some(10));
    assert_eq!(step_focus(&ring, Some(10), false), Some(30));
    assert_eq!(step_focus(&ring, Some(20), false), Some(10));
}

#[test]
fn a_step_from_outside_the_ring_counts_from_the_first() {
    let ring = vec![10, 20, 30];
    assert_eq!(step_focus(&ring, None, true), Some(20));
    assert_eq!(step_focus(&ring, Some(99), false), Some(30));
    assert_eq!(step_focus(&Vec::new(), Some(10), true), None);
}

#[test]
fn shift_tab_undoes_tab() {
    let ring = vec![4, 8, 15, 16, 23, 42];
    for node in ring.iter() {
        let there = step_focus(&ring, Some(*node), true);
        assert_eq!(step_focus(&ring, there, false), Some(*node));
    }
}

#[test]
fn tab_visits_every_widget_once_per_round() {
    let ring = vec![1, 2, 3, 4];
    let mut focus = Some(1);
    let mut seen = vec![];
    for _ in 0..ring.len() {
        seen.push(focus.unwrap());
        focus = step_focus(&ring, focus, true);
    }
    assert_eq!(seen, ring);
    assert_eq!(focus, Some(1));
}

#[test]
fn a_lost_focus_falls_back_to_the_first_widget() {
    let ring = vec![5, 6];
    assert_eq!(ensure_focus(&ring, Some(6)), Some(6));
    assert_eq!(ensure_focus(&ring, Some(7)), Some(5));
    assert_eq!(ensure_focus(&ring, None), Some(5));
    assert_eq!(ensure_focus(&Vec::new(), Some(7)), None);
    let kept = ensure_focus(&ring, Some(7));
    assert_eq!(ensure_focus(&ring, kept), kept);
}

fn press(code: TermKeyCode) -> TermKeyEvent {
    TermKeyEvent::new(code, NO_MODIFIERS)
}

#[test]
fn global_keys_route_to_the_app() {
    assert_eq!(route_key(&press(TermKeyCode::Esc), false, false), KeyRoute::Quit);
    assert_eq!(
        route_key(&TermKeyEvent::new(TermKeyCode::Char('c'), CONTROL), false, false),
        KeyRoute::Quit
    );
    assert_eq!(route_key(&press(TermKeyCode::Char('c')), false, false), KeyRoute::Forward);
    assert_eq!(
        route_key(&press(TermKeyCode::Tab), false, false),
        KeyRoute::CommitAndStep { forward: true }
    );
    assert_eq!(
        route_key(&press(TermKeyCode::BackTab), false, false),
        KeyRoute::CommitAndStep { forward: false }
    );
}

#[test]
fn enter_commits_or_gives_a_textarea_its_newline() {
    assert_eq!(route_key(&press(TermKeyCode::Enter), false, false), KeyRoute::Commit);
    assert_eq!(route_key(&press(TermKeyCode::Enter), true, false), KeyRoute::Deliver);
}

#[test]
fn f4_and_down_open_an_overlay_only_where_there_is_one() {
    assert_eq!(route_key(&press(TermKeyCode::F(4)), false, true), KeyRoute::OpenOverlay);
    assert_eq!(route_key(&press(TermKeyCode::Down), false, true), KeyRoute::OpenOverlay);
    assert_eq!(route_key(&press(TermKeyCode::Down), false, false), KeyRoute::Forward);
    assert_eq!(route_key(&press(TermKeyCode::F(5)), false, true), KeyRoute::Forward);
}

#[test]
fn releases_and_repeats_go_to_the_widget() {
    let mut release = press(TermKeyCode::Esc);
    release.kind = TermKeyEventKind::Release;
    assert_eq!(route_key(&release, false, false), KeyRoute::Forward);
    let mut repeat = press(TermKeyCode::Tab);
    repeat.kind = TermKeyEventKind::Repeat;
    assert_eq!(route_key(&repeat, false, false), KeyRoute::Forward);
}

#[test]
fn only_a_quit_stops_the_loop() {
    assert_eq!(control_of(KeyRoute::Quit), Control::Quit);
    assert_eq!(control_of(KeyRoute::Commit), Control::Continue);
    assert_eq!(control_of(KeyRoute::Forward), Control::Continue);
}

use uic_tui::focus::{hit_test, key_pressed, route_pointer, FocusState, PointerEffect};
use uic_tui::geometry::Rect;
use uic_tui::keymap::{TermMouseButton, TermMouseKind};

const PRESS: TermMouseKind = TermMouseKind::Down(TermMouseButton::Left);

#[test]
fn the_pointer_hits_the_first_widget_under_it() {
    let ring = vec![7, 8];
    let areas = vec![Rect::new(0, 0, 10, 1), Rect::new(0, 2, 10, 1)];
    assert_eq!(hit_test(&ring, &areas, 3, 2), Some(8));
    assert_eq!(hit_test(&ring, &areas, 3, 1), None);
}

#[test]
fn a_press_moves_focus_and_commits_the_widget_left_behind() {
    let state = FocusState { focused: Some(1), blurred: false };
    let (after, effect) = route_pointer(state, false, PRESS, Some(2));
    assert_eq!(after, FocusState { focused: Some(2), blurred: false });
    assert_eq!(effect, PointerEffect { commit: true, close_overlay: false, caret: Some(false) });
    // Pressing the focused widget again only places the caret.
    let (_, effect) = route_pointer(after, false, PRESS, Some(2));
    assert!(!effect.commit);
}

#[test]
fn a_press_outside_blurs_once_and_a_key_shows_the_focus_again() {
    let state = FocusState { focused: Some(1), blurred: false };
    let (blurred, effect) = route_pointer(state, true, PRESS, None);
    assert_eq!(blurred, FocusState { focused: Some(1), blurred: true });
    assert!(effect.commit && effect.close_overlay);
    let (again, effect) = route_pointer(blurred, true, PRESS, None);
    assert_eq!(again, blurred);
    assert!(!effect.commit);
    // A blurred press on a widget does not commit a second time.
    let (_, effect) = route_pointer(blurred, false, PRESS, Some(3));
    assert!(!effect.commit);
    assert_eq!(key_pressed(blurred), state);
}

#[test]
fn a_drag_extends_the_selection_unless_blurred() {
    let drag = TermMouseKind::Drag(TermMouseButton::Left);
    let state = FocusState { focused: Some(1), blurred: false };
    assert_eq!(route_pointer(state, false, drag, None).1.caret, Some(true));
    let blurred = FocusState { focused: Some(1), blurred: true };
    assert_eq!(route_pointer(blurred, false, drag, None).1.caret, None);
    assert_eq!(route_pointer(state, false, TermMouseKind::Moved, Some(4)).0, state);
}

use uic_tui::focus::surviving_focus;

#[test]
fn a_replaced_focus_follows_its_data_path() {
    let descendants = vec![(10, None), (11, Some("a".to_string())), (12, Some("b".to_string())), (13, Some("b".to_string()))];
    assert_eq!(surviving_focus(Some("b"), &descendants, 1), 12);
    assert_eq!(surviving_focus(Some("z"), &descendants, 1), 1);
    assert_eq!(surviving_focus(None, &descendants, 1), 1);
}
