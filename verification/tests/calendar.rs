use uic_tui::calendar::{calendar_target, roll_selection, CalendarDate};
use uic_tui::overlay::DateKeyAction;

fn date(year: i32, month: u32, day: u32) -> CalendarDate {
    CalendarDate { year, month, day }
}

#[test]
fn arrows_roll_over_into_the_neighbouring_month() {
    assert_eq!(roll_selection(date(2024, 1, 31), 1), Some(date(2024, 2, 1)));
    assert_eq!(roll_selection(date(2024, 3, 1), -1), Some(date(2024, 2, 29)));
    assert_eq!(roll_selection(date(2023, 3, 1), -1), Some(date(2023, 2, 28)));
    assert_eq!(roll_selection(date(2023, 12, 31), 1), Some(date(2024, 1, 1)));
    assert_eq!(roll_selection(date(2024, 1, 3), -7), Some(date(2023, 12, 27)));
    assert_eq!(roll_selection(date(2024, 4, 28), 7), Some(date(2024, 5, 5)));
}

#[test]
fn a_day_forward_then_back_returns() {
    for start in [date(2024, 2, 29), date(1999, 12, 31), date(2000, 3, 1)] {
        let there = roll_selection(start, 1).unwrap();
        assert_eq!(roll_selection(there, -1), Some(start));
    }
}

#[test]
fn no_date_or_the_calendar_end_stays_put() {
    assert_eq!(roll_selection(date(2023, 2, 29), 1), None);
    assert_eq!(roll_selection(date(2024, 13, 1), 1), None);
    assert_eq!(roll_selection(date(262142, 12, 31), 1), None);
    assert_eq!(roll_selection(date(-262143, 1, 1), -1), None);
}

#[test]
fn pages_keep_the_day_clamped_to_the_month() {
    let start = date(2024, 1, 1);
    let page = |forward: bool, selected: Option<CalendarDate>| {
        calendar_target(DateKeyAction::ShiftMonth { forward }, selected, start, false)
    };
    assert_eq!(page(true, Some(date(2024, 1, 31))), Some(date(2024, 2, 29)));
    assert_eq!(page(false, Some(date(2023, 3, 31))), Some(date(2023, 2, 28)));
    assert_eq!(page(true, Some(date(2023, 12, 15))), Some(date(2024, 1, 15)));
    assert_eq!(page(false, None), Some(date(2023, 12, 1)));
}

#[test]
fn arrows_roll_only_where_the_month_grid_stopped() {
    let start = date(2024, 1, 1);
    let selected = Some(date(2024, 1, 31));
    assert_eq!(calendar_target(DateKeyAction::Move { days: 1 }, selected, start, true), Some(date(2024, 2, 1)));
    assert_eq!(calendar_target(DateKeyAction::Move { days: 1 }, selected, start, false), None);
    assert_eq!(calendar_target(DateKeyAction::Move { days: 1 }, None, start, true), None);
    assert_eq!(calendar_target(DateKeyAction::Pick, selected, start, true), None);
}
