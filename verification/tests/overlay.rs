use uic_tui::geometry::Rect;
use uic_tui::keymap::{TermMouseButton, TermMouseKind};
use uic_tui::keys::TermKeyCode;
use uic_tui::overlay::{
    date_key_outcome, date_mouse_outcome, date_overlay_key, date_overlay_mouse, first_hit,
    select_overlay_key, select_overlay_mouse, DateKeyAction, DateMouseAction, SelectKeyAction,
    SelectMouseAction,
};
use uic_tui::OverlayOutcome;

const DOWN: TermMouseKind = TermMouseKind::Down(TermMouseButton::Left);

#[test]
fn calendar_keys_page_move_and_pick() {
    assert_eq!(date_overlay_key(TermKeyCode::Esc), DateKeyAction::Dismiss);
    assert_eq!(date_overlay_key(TermKeyCode::Tab), DateKeyAction::CloseAndPass);
    assert_eq!(date_overlay_key(TermKeyCode::Enter), DateKeyAction::Pick);
    assert_eq!(date_overlay_key(TermKeyCode::PageUp), DateKeyAction::ShiftMonth { forward: false });
    assert_eq!(date_overlay_key(TermKeyCode::PageDown), DateKeyAction::ShiftMonth { forward: true });
    assert_eq!(date_overlay_key(TermKeyCode::Left), DateKeyAction::Move { days: -1 });
    assert_eq!(date_overlay_key(TermKeyCode::Right), DateKeyAction::Move { days: 1 });
    assert_eq!(date_overlay_key(TermKeyCode::Up), DateKeyAction::Move { days: -7 });
    assert_eq!(date_overlay_key(TermKeyCode::Down), DateKeyAction::Move { days: 7 });
    assert_eq!(date_overlay_key(TermKeyCode::Home), DateKeyAction::Calendar);
}

#[test]
fn a_calendar_commits_only_a_real_pick() {
    assert_eq!(date_key_outcome(DateKeyAction::Pick, true), OverlayOutcome::Commit);
    assert_eq!(date_key_outcome(DateKeyAction::Pick, false), OverlayOutcome::Consumed);
    assert_eq!(date_key_outcome(DateKeyAction::CloseAndPass, true), OverlayOutcome::Pass);
    assert_eq!(date_key_outcome(DateKeyAction::Dismiss, true), OverlayOutcome::Consumed);
    assert_eq!(date_key_outcome(DateKeyAction::Move { days: 7 }, true), OverlayOutcome::Consumed);
}

#[test]
fn option_list_keys_revert_pass_or_commit() {
    assert_eq!(
        select_overlay_key(TermKeyCode::Esc),
        (SelectKeyAction::RevertAndClose, OverlayOutcome::Consumed)
    );
    assert_eq!(select_overlay_key(TermKeyCode::Tab), (SelectKeyAction::CloseAndPass, OverlayOutcome::Pass));
    assert_eq!(
        select_overlay_key(TermKeyCode::Enter),
        (SelectKeyAction::CloseAndCommit, OverlayOutcome::Commit)
    );
    assert_eq!(
        select_overlay_key(TermKeyCode::Char('b')),
        (SelectKeyAction::Browse, OverlayOutcome::Consumed)
    );
}

fn days() -> Vec<Rect> {
    (0..3).map(|i| Rect::new(2 + 3 * i, 2, 2, 1)).collect()
}

#[test]
fn a_press_on_a_day_picks_it() {
    let area = Rect::new(0, 0, 20, 8);
    assert_eq!(date_overlay_mouse(area, &days(), 5, 2, DOWN), DateMouseAction::PickDay { day: 2 });
    assert_eq!(date_overlay_mouse(area, &days(), 1, 2, DOWN), DateMouseAction::Ignore);
    assert_eq!(
        date_overlay_mouse(area, &days(), 1, 2, TermMouseKind::ScrollDown),
        DateMouseAction::ShiftMonth { forward: true }
    );
    assert_eq!(
        date_overlay_mouse(area, &days(), 1, 2, TermMouseKind::ScrollUp),
        DateMouseAction::ShiftMonth { forward: false }
    );
    assert_eq!(date_mouse_outcome(DateMouseAction::PickDay { day: 2 }, true), OverlayOutcome::Commit);
    assert_eq!(date_mouse_outcome(DateMouseAction::PickDay { day: 31 }, false), OverlayOutcome::Consumed);
}

#[test]
fn a_press_outside_dismisses_and_passes() {
    let area = Rect::new(0, 0, 20, 8);
    let outside = date_overlay_mouse(area, &days(), 30, 2, DOWN);
    assert_eq!(outside, DateMouseAction::DismissAndPass);
    assert_eq!(date_mouse_outcome(outside, false), OverlayOutcome::Pass);
    assert_eq!(
        date_overlay_mouse(area, &days(), 30, 2, TermMouseKind::Moved),
        DateMouseAction::Ignore
    );
    let items = vec![Rect::new(0, 1, 10, 1)];
    assert_eq!(
        select_overlay_mouse(area, &items, 0, 30, 2, DOWN),
        (SelectMouseAction::RevertAndPass, OverlayOutcome::Pass)
    );
}

#[test]
fn a_press_on_a_row_picks_past_the_scroll_offset() {
    let area = Rect::new(0, 0, 10, 4);
    let items: Vec<Rect> = (0..3).map(|row| Rect::new(0, 1 + row, 10, 1)).collect();
    assert_eq!(
        select_overlay_mouse(area, &items, 5, 3, 2, DOWN),
        (SelectMouseAction::Pick { index: 6 }, OverlayOutcome::Commit)
    );
    assert_eq!(
        select_overlay_mouse(area, &items, 5, 3, 0, DOWN),
        (SelectMouseAction::Ignore, OverlayOutcome::Consumed)
    );
}

#[test]
fn the_wheel_scrolls_the_window_and_stops_at_the_top() {
    let area = Rect::new(0, 0, 10, 4);
    let items = vec![Rect::new(0, 1, 10, 1)];
    assert_eq!(
        select_overlay_mouse(area, &items, 0, 1, 1, TermMouseKind::ScrollUp),
        (SelectMouseAction::Scroll { offset: 0 }, OverlayOutcome::Consumed)
    );
    assert_eq!(
        select_overlay_mouse(area, &items, 4, 1, 1, TermMouseKind::ScrollDown),
        (SelectMouseAction::Scroll { offset: 5 }, OverlayOutcome::Consumed)
    );
}

#[test]
fn the_first_rectangle_holding_a_cell_wins() {
    let rects = vec![Rect::new(0, 0, 5, 5), Rect::new(2, 2, 5, 5)];
    assert_eq!(first_hit(&rects, 3, 3), Some(0));
    assert_eq!(first_hit(&rects, 6, 6), Some(1));
    assert_eq!(first_hit(&rects, 9, 9), None);
}

use uic_tui::keys::{TermKeyEvent, TermKeyEventKind, NO_MODIFIERS};
use uic_tui::overlay::{overlay_consumed, overlay_key, OverlayKey};

#[test]
fn only_presses_reach_an_open_overlay() {
    let press = TermKeyEvent::new(TermKeyCode::Enter, NO_MODIFIERS);
    assert_eq!(overlay_key(&press), OverlayKey::Press(TermKeyCode::Enter));
    let mut release = press;
    release.kind = TermKeyEventKind::Release;
    assert_eq!(overlay_key(&release), OverlayKey::Swallow);
    let mut repeat = press;
    repeat.kind = TermKeyEventKind::Repeat;
    assert_eq!(overlay_key(&repeat), OverlayKey::Swallow);
    assert!(overlay_consumed(OverlayOutcome::Consumed));
    assert!(overlay_consumed(OverlayOutcome::Commit));
    assert!(!overlay_consumed(OverlayOutcome::Pass));
}
