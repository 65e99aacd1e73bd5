//! The date widget's calendar: where the arrow keys and the month pages
//! take the selection. The month grid stops at its edges; the arrows then
//! roll over into the neighbouring month like a browser's date picker, and
//! a page keeps the day of the month, clamped to the target month's
//! length. The date arithmetic is chrono's, on the proleptic Gregorian
//! calendar within its year range.

use vstd::prelude::*;

use chrono::Datelike;

use crate::overlay::DateKeyAction;

verus! {

/// A calendar date: year, month (1 to 12) and day of the month.
#[derive(Debug, Clone, Copy, PartialEq, Eq, Structural)]
pub struct CalendarDate {
    pub year: i32,
    pub month: u32,
    pub day: u32,
}

/// The first year chrono's dates reach.
pub open spec fn min_year() -> int {
    -262143
}

/// The last year chrono's dates reach.
pub open spec fn max_year() -> int {
    262142
}

/// A leap year of the Gregorian calendar.
pub open spec fn is_leap(y: int) -> bool {
    (y % 4 == 0 && y % 100 != 0) || y % 400 == 0
}

/// The number of days of month `m` of year `y`.
pub open spec fn month_length(y: int, m: int) -> int {
    if m == 2 {
        if is_leap(y) {
            29
        } else {
            28
        }
    } else if m == 4 || m == 6 || m == 9 || m == 11 {
        30
    } else {
        31
    }
}

/// A day that exists on the calendar.
pub open spec fn valid_day(t: (int, int, int)) -> bool {
    1 <= t.1 <= 12 && 1 <= t.2 <= month_length(t.0, t.1)
}

/// The day after.
pub open spec fn next_day(t: (int, int, int)) -> (int, int, int) {
    if t.2 < month_length(t.0, t.1) {
        (t.0, t.1, t.2 + 1)
    } else if t.1 < 12 {
        (t.0, t.1 + 1, 1)
    } else {
        (t.0 + 1, 1, 1)
    }
}

/// The day before.
pub open spec fn prev_day(t: (int, int, int)) -> (int, int, int) {
    if t.2 > 1 {
        (t.0, t.1, t.2 - 1)
    } else if t.1 > 1 {
        (t.0, t.1 - 1, month_length(t.0, t.1 - 1))
    } else {
        (t.0 - 1, 12, 31)
    }
}

/// The day `n` days later.
pub open spec fn days_after(t: (int, int, int), n: nat) -> (int, int, int)
    decreases n,
{
    if n == 0 {
        t
    } else {
        next_day(days_after(t, (n - 1) as nat))
    }
}

/// The day `n` days earlier.
pub open spec fn days_before(t: (int, int, int), n: nat) -> (int, int, int)
    decreases n,
{
    if n == 0 {
        t
    } else {
        prev_day(days_before(t, (n - 1) as nat))
    }
}

/// The same day of the month `k` months on, clamped to that month's
/// length.
pub open spec fn months_after(t: (int, int, int), k: int) -> (int, int, int) {
    let total = t.0 * 12 + (t.1 - 1) + k;
    let y = total / 12;
    let m = total % 12 + 1;
    (y, m, vstd::math::min(t.2, month_length(y, m)))
}

pub open spec fn triple(d: CalendarDate) -> (int, int, int) {
    (d.year as int, d.month as int, d.day as int)
}

pub open spec fn date_of(t: (int, int, int)) -> CalendarDate {
    CalendarDate { year: t.0 as i32, month: t.1 as u32, day: t.2 as u32 }
}

/// A date chrono can hold: a calendar day within its year range.
pub open spec fn representable(d: CalendarDate) -> bool {
    valid_day(triple(d)) && min_year() <= d.year <= max_year()
}

/// The day, where it lies within chrono's year range.
pub open spec fn within_range(t: (int, int, int)) -> Option<CalendarDate> {
    if min_year() <= t.0 <= max_year() {
        Some(date_of(t))
    } else {
        None
    }
}

/// `days` days on from a date, or back: `None` when the start is no date
/// chrono holds or the result leaves its range.
pub open spec fn shift_days_spec(d: CalendarDate, days: nat, forward: bool) -> Option<CalendarDate> {
    if representable(d) {
        within_range(
            if forward {
                days_after(triple(d), days)
            } else {
                days_before(triple(d), days)
            },
        )
    } else {
        None
    }
}

/// A month on from a date, or back, the day clamped: `None` when the start
/// is no date chrono holds or the result leaves its range.
pub open spec fn shift_month_spec(d: CalendarDate, forward: bool) -> Option<CalendarDate> {
    if representable(d) {
        within_range(months_after(triple(d), if forward { 1 } else { -1 }))
    } else {
        None
    }
}

/// `chrono::NaiveDate::from_ymd_opt` and then `checked_add_days`: the date
/// `days` days later on the proleptic Gregorian calendar, `None` where the
/// start is no date or the result is out of chrono's range.
#[verifier::external_body]
fn chrono_add_days(date: CalendarDate, days: u64) -> (r: Option<CalendarDate>)
    requires
        days <= 366,
    ensures
        r == shift_days_spec(date, days as nat, true),
{
    let start = chrono::NaiveDate::from_ymd_opt(date.year, date.month, date.day)?;
    let moved = start.checked_add_days(chrono::Days::new(days))?;
    Some(CalendarDate { year: moved.year(), month: moved.month(), day: moved.day() })
}

/// `chrono::NaiveDate::from_ymd_opt` and then `checked_sub_days`: the date
/// `days` days earlier, `None` where the start is no date or the result is
/// out of chrono's range.
#[verifier::external_body]
fn chrono_sub_days(date: CalendarDate, days: u64) -> (r: Option<CalendarDate>)
    requires
        days <= 366,
    ensures
        r == shift_days_spec(date, days as nat, false),
{
    let start = chrono::NaiveDate::from_ymd_opt(date.year, date.month, date.day)?;
    let moved = start.checked_sub_days(chrono::Days::new(days))?;
    Some(CalendarDate { year: moved.year(), month: moved.month(), day: moved.day() })
}

/// `chrono::NaiveDate::from_ymd_opt` and then `checked_add_months` by one:
/// the same day of the next month, or that month's last day where it is
/// shorter; `None` where the start is no date or the result is out of
/// chrono's range.
#[verifier::external_body]
fn chrono_next_month(date: CalendarDate) -> (r: Option<CalendarDate>)
    ensures
        r == shift_month_spec(date, true),
{
    let start = chrono::NaiveDate::from_ymd_opt(date.year, date.month, date.day)?;
    let moved = start.checked_add_months(chrono::Months::new(1))?;
    Some(CalendarDate { year: moved.year(), month: moved.month(), day: moved.day() })
}

/// `chrono::NaiveDate::from_ymd_opt` and then `checked_sub_months` by one:
/// the same day of the previous month, or that month's last day where it
/// is shorter; `None` where the start is no date or the result is out of
/// chrono's range.
#[verifier::external_body]
fn chrono_prev_month(date: CalendarDate) -> (r: Option<CalendarDate>)
    ensures
        r == shift_month_spec(date, false),
{
    let start = chrono::NaiveDate::from_ymd_opt(date.year, date.month, date.day)?;
    let moved = start.checked_sub_months(chrono::Months::new(1))?;
    Some(CalendarDate { year: moved.year(), month: moved.month(), day: moved.day() })
}

/// Where an arrow's roll-over takes the selection: `days` days away (back
/// for a negative count), into the neighbouring month or year where it
/// crosses an edge.
pub open spec fn roll_spec(d: CalendarDate, days: i8) -> Option<CalendarDate> {
    if days >= 0 {
        shift_days_spec(d, days as nat, true)
    } else {
        shift_days_spec(d, (-days) as nat, false)
    }
}

/// Rolls the selection `days` days away; `None` leaves it where it is.
pub fn roll_selection(selected: CalendarDate, days: i8) -> (target: Option<CalendarDate>)
    ensures
        target == roll_spec(selected, days),
{
    if days >= 0 {
        chrono_add_days(selected, days as u64)
    } else {
        let back: i16 = -(days as i16);
        chrono_sub_days(selected, back as u64)
    }
}

/// The date a calendar key moves the open calendar to, `None` where it
/// stays: an arrow the month grid could not take (`stopped`) rolls the
/// selection over; a page moves the selected day, or without one the
/// month's start, a month on or back; other keys move nothing here.
pub open spec fn calendar_target_spec(
    action: DateKeyAction,
    selected: Option<CalendarDate>,
    start: CalendarDate,
    stopped: bool,
) -> Option<CalendarDate> {
    match action {
        DateKeyAction::Move { days } => match selected {
            Some(d) if stopped => roll_spec(d, days),
            _ => None,
        },
        DateKeyAction::ShiftMonth { forward } => shift_month_spec(
            match selected {
                Some(d) => d,
                None => start,
            },
            forward,
        ),
        _ => None,
    }
}

/// The date a calendar key moves the open calendar to: both its start and
/// its selection go there.
pub fn calendar_target(
    action: DateKeyAction,
    selected: Option<CalendarDate>,
    start: CalendarDate,
    stopped: bool,
) -> (target: Option<CalendarDate>)
    ensures
        target == calendar_target_spec(action, selected, start, stopped),
{
    match action {
        DateKeyAction::Move { days } => match selected {
            Some(d) => if stopped {
                roll_selection(d, days)
            } else {
                None
            },
            None => None,
        },
        DateKeyAction::ShiftMonth { forward } => {
            let base = match selected {
                Some(d) => d,
                None => start,
            };
            if forward {
                chrono_next_month(base)
            } else {
                chrono_prev_month(base)
            }
        },
        _ => None,
    }
}

proof fn lemma_month_length_bounds(y: int, m: int)
    ensures
        28 <= month_length(y, m) <= 31,
{
}

proof fn lemma_round_trip_date(t: (int, int, int))
    requires
        valid_day(t),
        min_year() <= t.0 <= max_year(),
    ensures
        triple(date_of(t)) == t,
        representable(date_of(t)),
{
    lemma_month_length_bounds(t.0, t.1);
}

/// Rightward off a month's last day the selection lands on the first of
/// the next month (of the next year after December), and leftward off a
/// month's first day on the last of the previous one.
pub proof fn law_arrows_roll_over_month_edges(d: CalendarDate)
    requires
        representable(d),
    ensures
        d.day == month_length(d.year as int, d.month as int) && d.month < 12 ==> roll_spec(d, 1i8) == Some(
            CalendarDate { year: d.year, month: (d.month + 1) as u32, day: 1 },
        ),
        d.day == 31 && d.month == 12 && d.year < max_year() ==> roll_spec(d, 1i8) == Some(
            CalendarDate { year: (d.year + 1) as i32, month: 1, day: 1 },
        ),
        d.day == 1 && d.month > 1 ==> roll_spec(d, -1i8) == Some(
            CalendarDate {
                year: d.year,
                month: (d.month - 1) as u32,
                day: month_length(d.year as int, d.month - 1) as u32,
            },
        ),
        d.day == 1 && d.month == 1 && d.year > min_year() ==> roll_spec(d, -1i8) == Some(
            CalendarDate { year: (d.year - 1) as i32, month: 12, day: 31 },
        ),
{
    assert(days_after(triple(d), 1) == next_day(days_after(triple(d), 0)));
    assert(days_before(triple(d), 1) == prev_day(days_before(triple(d), 0)));
}

/// A day's step back undoes a day's step forward, and the other way
/// round, wherever the step stays within range.
pub proof fn law_day_step_undone(d: CalendarDate)
    requires
        representable(d),
    ensures
        roll_spec(d, 1i8) matches Some(e) ==> roll_spec(e, -1i8) == Some(d),
        roll_spec(d, -1i8) matches Some(e) ==> roll_spec(e, 1i8) == Some(d),
{
    let t = triple(d);
    lemma_month_length_bounds(t.0, t.1);
    assert(days_after(t, 1) == next_day(days_after(t, 0)));
    assert(days_before(t, 1) == prev_day(days_before(t, 0)));
    let n = next_day(t);
    if min_year() <= n.0 <= max_year() {
        lemma_month_length_bounds(n.0, n.1);
        assert(valid_day(n));
        lemma_round_trip_date(n);
        assert(days_before(n, 1) == prev_day(days_before(n, 0)));
        assert(prev_day(n) == t);
    }
    let p = prev_day(t);
    if min_year() <= p.0 <= max_year() {
        lemma_month_length_bounds(p.0, p.1);
        assert(valid_day(p));
        lemma_round_trip_date(p);
        assert(days_after(p, 1) == next_day(days_after(p, 0)));
        assert(next_day(p) == t);
    }
}

/// A month's page keeps the day of the month, clamped to the target
/// month's length, and lands in the neighbouring month.
pub proof fn law_page_keeps_the_day(d: CalendarDate, forward: bool)
    requires
        representable(d),
    ensures
        shift_month_spec(d, forward) matches Some(e) ==> {
            &&& e.day == vstd::math::min(d.day as int, month_length(e.year as int, e.month as int))
            &&& (forward && d.month < 12 ==> e.year == d.year && e.month == d.month + 1)
            &&& (forward && d.month == 12 ==> e.year == d.year + 1 && e.month == 1)
            &&& (!forward && d.month > 1 ==> e.year == d.year && e.month == d.month - 1)
            &&& (!forward && d.month == 1 ==> e.year == d.year - 1 && e.month == 12)
        },
{
    let t = triple(d);
    let k: int = if forward { 1 } else { -1 };
    let total = t.0 * 12 + (t.1 - 1) + k;
    let y = total / 12;
    let m = total % 12 + 1;
    if forward && d.month < 12 {
        assert(total == t.0 * 12 + t.1);
        assert(y == t.0 && m == t.1 + 1) by (nonlinear_arith)
            requires
                total == t.0 * 12 + t.1,
                1 <= t.1 < 12,
                y == total / 12,
                m == total % 12 + 1,
        ;
    } else if forward {
        assert(y == t.0 + 1 && m == 1) by (nonlinear_arith)
            requires
                total == t.0 * 12 + 12,
                y == total / 12,
                m == total % 12 + 1,
        ;
    } else if d.month > 1 {
        assert(y == t.0 && m == t.1 - 1) by (nonlinear_arith)
            requires
                total == t.0 * 12 + t.1 - 2,
                1 < t.1 <= 12,
                y == total / 12,
                m == total % 12 + 1,
        ;
    } else {
        assert(y == t.0 - 1 && m == 12) by (nonlinear_arith)
            requires
                total == t.0 * 12 - 1,
                y == total / 12,
                m == total % 12 + 1,
        ;
    }
    lemma_month_length_bounds(y, m);
}

} // verus!
