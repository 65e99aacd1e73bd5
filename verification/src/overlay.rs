//! The modal overlays of the date and select widgets (the calendar and the
//! option list): what a key or a pointer event does while one is open, and
//! what the host is told ([`OverlayOutcome`]). Esc dismisses, Tab closes
//! and passes so the host still commits and moves focus, a pick commits,
//! and a press outside dismisses and passes so the same click still
//! focuses whatever it landed on.

use vstd::prelude::*;

use crate::geometry::Rect;
use crate::keymap::{TermMouseButton, TermMouseKind};
use crate::keys::{TermKeyCode, TermKeyEvent, TermKeyEventKind};
use crate::OverlayOutcome;

verus! {

/// What a key does to an open calendar.
#[derive(Debug, Clone, Copy, PartialEq, Eq, Structural)]
pub enum DateKeyAction {
    /// Close without a pick (Esc).
    Dismiss,
    /// Close and let the host go on (Tab).
    CloseAndPass,
    /// Take the selected day, if one is, and close (Enter).
    Pick,
    /// Page to the previous or next month (PageUp, PageDown).
    ShiftMonth { forward: bool },
    /// Move the selection by days, rolling over into the neighbouring
    /// month at the calendar's edges (arrows: a day sideways, a week up or
    /// down).
    Move { days: i8 },
    /// Hand the key to the calendar.
    Calendar,
}

/// The calendar's key bindings.
pub open spec fn date_key_spec(code: TermKeyCode) -> DateKeyAction {
    match code {
        TermKeyCode::Esc => DateKeyAction::Dismiss,
        TermKeyCode::Tab => DateKeyAction::CloseAndPass,
        TermKeyCode::Enter => DateKeyAction::Pick,
        TermKeyCode::PageUp => DateKeyAction::ShiftMonth { forward: false },
        TermKeyCode::PageDown => DateKeyAction::ShiftMonth { forward: true },
        TermKeyCode::Left => DateKeyAction::Move { days: -1i8 },
        TermKeyCode::Right => DateKeyAction::Move { days: 1i8 },
        TermKeyCode::Up => DateKeyAction::Move { days: -7i8 },
        TermKeyCode::Down => DateKeyAction::Move { days: 7i8 },
        _ => DateKeyAction::Calendar,
    }
}

/// The calendar's keys: Esc dismisses, Tab closes and passes, Enter
/// picks, PageUp and PageDown page a month back and on, Left and Right
/// move a day back and on, Up and Down a week back and on; every other key
/// goes to the calendar itself.
pub proof fn law_calendar_key_bindings(code: TermKeyCode)
    ensures
        date_key_spec(TermKeyCode::Esc) == DateKeyAction::Dismiss,
        date_key_spec(TermKeyCode::Tab) == DateKeyAction::CloseAndPass,
        date_key_spec(TermKeyCode::Enter) == DateKeyAction::Pick,
        date_key_spec(TermKeyCode::PageUp) == (DateKeyAction::ShiftMonth { forward: false }),
        date_key_spec(TermKeyCode::PageDown) == (DateKeyAction::ShiftMonth { forward: true }),
        date_key_spec(TermKeyCode::Left) == (DateKeyAction::Move { days: -1i8 }),
        date_key_spec(TermKeyCode::Right) == (DateKeyAction::Move { days: 1i8 }),
        date_key_spec(TermKeyCode::Up) == (DateKeyAction::Move { days: -7i8 }),
        date_key_spec(TermKeyCode::Down) == (DateKeyAction::Move { days: 7i8 }),
        code != TermKeyCode::Esc && code != TermKeyCode::Tab && code != TermKeyCode::Enter && code
            != TermKeyCode::PageUp && code != TermKeyCode::PageDown && code != TermKeyCode::Left && code
            != TermKeyCode::Right && code != TermKeyCode::Up && code != TermKeyCode::Down ==> date_key_spec(code)
            == DateKeyAction::Calendar,
{
}

/// What a key does to an open calendar.
pub fn date_overlay_key(code: TermKeyCode) -> (action: DateKeyAction)
    ensures
        action == date_key_spec(code),
{
    match code {
        TermKeyCode::Esc => DateKeyAction::Dismiss,
        TermKeyCode::Tab => DateKeyAction::CloseAndPass,
        TermKeyCode::Enter => DateKeyAction::Pick,
        TermKeyCode::PageUp => DateKeyAction::ShiftMonth { forward: false },
        TermKeyCode::PageDown => DateKeyAction::ShiftMonth { forward: true },
        TermKeyCode::Left => DateKeyAction::Move { days: -1 },
        TermKeyCode::Right => DateKeyAction::Move { days: 1 },
        TermKeyCode::Up => DateKeyAction::Move { days: -7 },
        TermKeyCode::Down => DateKeyAction::Move { days: 7 },
        _ => DateKeyAction::Calendar,
    }
}

/// The host's answer for a calendar key: Tab passes, a pick that found a
/// selected day commits, everything else is consumed.
pub open spec fn date_key_outcome_spec(action: DateKeyAction, picked: bool) -> OverlayOutcome {
    match action {
        DateKeyAction::CloseAndPass => OverlayOutcome::Pass,
        DateKeyAction::Pick => if picked {
            OverlayOutcome::Commit
        } else {
            OverlayOutcome::Consumed
        },
        _ => OverlayOutcome::Consumed,
    }
}

/// The host's answer for a calendar key, once the action ran: `picked`
/// tells whether a pick found a selected day.
pub fn date_key_outcome(action: DateKeyAction, picked: bool) -> (outcome: OverlayOutcome)
    ensures
        outcome == date_key_outcome_spec(action, picked),
{
    match action {
        DateKeyAction::CloseAndPass => OverlayOutcome::Pass,
        DateKeyAction::Pick => if picked {
            OverlayOutcome::Commit
        } else {
            OverlayOutcome::Consumed
        },
        _ => OverlayOutcome::Consumed,
    }
}

/// What a key does to an open option list.
#[derive(Debug, Clone, Copy, PartialEq, Eq, Structural)]
pub enum SelectKeyAction {
    /// Restore the value the list opened on and close (Esc).
    RevertAndClose,
    /// Close over the browsed option and let the host go on (Tab).
    CloseAndPass,
    /// Close over the browsed option and commit it (Enter).
    CloseAndCommit,
    /// Hand the key to the list (browsing, type-ahead).
    Browse,
}

/// The option list's key bindings.
pub open spec fn select_key_spec(code: TermKeyCode) -> SelectKeyAction {
    match code {
        TermKeyCode::Esc => SelectKeyAction::RevertAndClose,
        TermKeyCode::Tab => SelectKeyAction::CloseAndPass,
        TermKeyCode::Enter => SelectKeyAction::CloseAndCommit,
        _ => SelectKeyAction::Browse,
    }
}

/// The host's answer for an option-list key.
pub open spec fn select_key_outcome_spec(action: SelectKeyAction) -> OverlayOutcome {
    match action {
        SelectKeyAction::CloseAndPass => OverlayOutcome::Pass,
        SelectKeyAction::CloseAndCommit => OverlayOutcome::Commit,
        _ => OverlayOutcome::Consumed,
    }
}

/// What a key does to an open option list, and the host's answer.
pub fn select_overlay_key(code: TermKeyCode) -> (r: (SelectKeyAction, OverlayOutcome))
    ensures
        r.0 == select_key_spec(code),
        r.1 == select_key_outcome_spec(r.0),
{
    match code {
        TermKeyCode::Esc => (SelectKeyAction::RevertAndClose, OverlayOutcome::Consumed),
        TermKeyCode::Tab => (SelectKeyAction::CloseAndPass, OverlayOutcome::Pass),
        TermKeyCode::Enter => (SelectKeyAction::CloseAndCommit, OverlayOutcome::Commit),
        _ => (SelectKeyAction::Browse, OverlayOutcome::Consumed),
    }
}

/// The index of the first rectangle holding the cell, or -1.
pub open spec fn first_hit_spec(rects: Seq<Rect>, column: u16, row: u16) -> int
    decreases rects.len(),
{
    if rects.len() == 0 {
        -1
    } else {
        let k = first_hit_spec(rects.drop_last(), column, row);
        if k >= 0 {
            k
        } else if rects.last().contains_spec(column, row) {
            rects.len() - 1
        } else {
            -1
        }
    }
}

proof fn lemma_first_hit_bounds(rects: Seq<Rect>, column: u16, row: u16)
    ensures
        -1 <= first_hit_spec(rects, column, row) < rects.len(),
    decreases rects.len(),
{
    if rects.len() > 0 {
        lemma_first_hit_bounds(rects.drop_last(), column, row);
    }
}

/// The first of the rectangles that holds the cell, if any.
pub fn first_hit(rects: &Vec<Rect>, column: u16, row: u16) -> (k: Option<usize>)
    ensures
        match k {
            Some(i) => i == first_hit_spec(rects@, column, row) && i < rects@.len(),
            None => first_hit_spec(rects@, column, row) < 0,
        },
{
    let mut i: usize = 0;
    while i < rects.len()
        invariant
            0 <= i <= rects@.len(),
            first_hit_spec(rects@.take(i as int), column, row) < 0,
        decreases rects@.len() - i,
    {
        assert(rects@.take(i + 1).drop_last() =~= rects@.take(i as int));
        if rects[i].contains(column, row) {
            proof {
                lemma_hit_prefix(rects@, i + 1, column, row);
            }
            return Some(i);
        }
        i = i + 1;
    }
    assert(rects@.take(rects@.len() as int) =~= rects@);
    None
}

proof fn lemma_hit_prefix(rects: Seq<Rect>, n: int, column: u16, row: u16)
    requires
        0 <= n <= rects.len(),
        first_hit_spec(rects.take(n), column, row) >= 0,
    ensures
        first_hit_spec(rects, column, row) == first_hit_spec(rects.take(n), column, row),
    decreases rects.len() - n,
{
    if n < rects.len() {
        assert(rects.take(n + 1).drop_last() =~= rects.take(n));
        lemma_hit_prefix(rects, n + 1, column, row);
    } else {
        assert(rects.take(n) =~= rects);
    }
}

/// What a pointer event does to an open calendar.
#[derive(Debug, Clone, Copy, PartialEq, Eq, Structural)]
pub enum DateMouseAction {
    /// A press outside: close, and let the click go on to its target.
    DismissAndPass,
    /// Nothing happens.
    Ignore,
    /// A press on a day: pick that day of the shown month (1-based) and
    /// close.
    PickDay { day: u32 },
    /// The wheel pages to the previous or next month.
    ShiftMonth { forward: bool },
}

/// The calendar's pointer handling: `area` is the calendar, `days` the
/// cells of the shown month's days in order.
pub open spec fn date_mouse_spec(
    area: Rect,
    days: Seq<Rect>,
    column: u16,
    row: u16,
    kind: TermMouseKind,
) -> DateMouseAction {
    if !area.contains_spec(column, row) {
        match kind {
            TermMouseKind::Down(_) => DateMouseAction::DismissAndPass,
            _ => DateMouseAction::Ignore,
        }
    } else {
        match kind {
            TermMouseKind::Down(_) => {
                let k = first_hit_spec(days, column, row);
                if k >= 0 {
                    DateMouseAction::PickDay { day: (k + 1) as u32 }
                } else {
                    DateMouseAction::Ignore
                }
            },
            TermMouseKind::ScrollUp => DateMouseAction::ShiftMonth { forward: false },
            TermMouseKind::ScrollDown => DateMouseAction::ShiftMonth { forward: true },
            _ => DateMouseAction::Ignore,
        }
    }
}

/// What a pointer event does to an open calendar.
pub fn date_overlay_mouse(
    area: Rect,
    days: &Vec<Rect>,
    column: u16,
    row: u16,
    kind: TermMouseKind,
) -> (action: DateMouseAction)
    requires
        days@.len() < u32::MAX,
    ensures
        action == date_mouse_spec(area, days@, column, row, kind),
{
    if !area.contains(column, row) {
        return match kind {
            TermMouseKind::Down(_) => DateMouseAction::DismissAndPass,
            _ => DateMouseAction::Ignore,
        };
    }
    match kind {
        TermMouseKind::Down(_) => {
            proof {
                lemma_first_hit_bounds(days@, column, row);
            }
            match first_hit(days, column, row) {
                Some(k) => DateMouseAction::PickDay { day: k as u32 + 1 },
                None => DateMouseAction::Ignore,
            }
        },
        TermMouseKind::ScrollUp => DateMouseAction::ShiftMonth { forward: false },
        TermMouseKind::ScrollDown => DateMouseAction::ShiftMonth { forward: true },
        _ => DateMouseAction::Ignore,
    }
}

/// The host's answer for a calendar pointer event: an outside press
/// passes, a pick that named a day of the month commits, the rest is
/// consumed.
pub open spec fn date_mouse_outcome_spec(action: DateMouseAction, picked: bool) -> OverlayOutcome {
    match action {
        DateMouseAction::DismissAndPass => OverlayOutcome::Pass,
        DateMouseAction::PickDay { .. } => if picked {
            OverlayOutcome::Commit
        } else {
            OverlayOutcome::Consumed
        },
        _ => OverlayOutcome::Consumed,
    }
}

/// The host's answer for a calendar pointer event, once the action ran:
/// `picked` tells whether the day exists in the shown month.
pub fn date_mouse_outcome(action: DateMouseAction, picked: bool) -> (outcome: OverlayOutcome)
    ensures
        outcome == date_mouse_outcome_spec(action, picked),
{
    match action {
        DateMouseAction::DismissAndPass => OverlayOutcome::Pass,
        DateMouseAction::PickDay { .. } => if picked {
            OverlayOutcome::Commit
        } else {
            OverlayOutcome::Consumed
        },
        _ => OverlayOutcome::Consumed,
    }
}

/// What a pointer event does to an open option list.
#[derive(Debug, Clone, Copy, PartialEq, Eq, Structural)]
pub enum SelectMouseAction {
    /// A press outside: restore the value the list opened on, close, and
    /// let the click go on to its target.
    RevertAndPass,
    /// Nothing happens.
    Ignore,
    /// A press on a row: select that option and close.
    Pick { index: usize },
    /// The wheel scrolls the list window to this offset without moving the
    /// selection.
    Scroll { offset: usize },
}

/// The option list's pointer handling: `area` is the list, `items` the
/// visible rows in order, `offset` the index of the first visible option.
pub open spec fn select_mouse_spec(
    area: Rect,
    items: Seq<Rect>,
    offset: usize,
    column: u16,
    row: u16,
    kind: TermMouseKind,
) -> SelectMouseAction {
    if !area.contains_spec(column, row) {
        match kind {
            TermMouseKind::Down(_) => SelectMouseAction::RevertAndPass,
            _ => SelectMouseAction::Ignore,
        }
    } else {
        match kind {
            TermMouseKind::Down(_) => {
                let k = first_hit_spec(items, column, row);
                if k >= 0 {
                    SelectMouseAction::Pick { index: (offset + k) as usize }
                } else {
                    SelectMouseAction::Ignore
                }
            },
            TermMouseKind::ScrollUp => SelectMouseAction::Scroll {
                offset: if offset == 0 {
                    0
                } else {
                    (offset - 1) as usize
                },
            },
            TermMouseKind::ScrollDown => SelectMouseAction::Scroll {
                offset: if offset == usize::MAX {
                    usize::MAX
                } else {
                    (offset + 1) as usize
                },
            },
            _ => SelectMouseAction::Ignore,
        }
    }
}

/// The wheel over an open option list moves its window by one row: up
/// to the option before the first visible one (staying at the top), down
/// to the one after it; a step down and a step back up return to the same
/// window, and so does a step up from below the top and a step back down.
/// Outside the list the wheel does nothing, and a press outside reverts
/// and passes the click on.
pub proof fn law_wheel_scrolls_one_row(area: Rect, items: Seq<Rect>, offset: usize, column: u16, row: u16)
    ensures
        area.contains_spec(column, row) ==> (select_mouse_spec(area, items, offset, column, row, TermMouseKind::ScrollUp)
            matches SelectMouseAction::Scroll { offset: up } && (offset > 0 ==> up + 1 == offset) && (offset == 0
            ==> up == 0)),
        area.contains_spec(column, row) ==> (select_mouse_spec(area, items, offset, column, row, TermMouseKind::ScrollDown)
            matches SelectMouseAction::Scroll { offset: down } && (offset < usize::MAX ==> down == offset + 1) && (
        offset == usize::MAX ==> down == offset)),
        area.contains_spec(column, row) && offset < usize::MAX ==> select_mouse_spec(
            area,
            items,
            (offset + 1) as usize,
            column,
            row,
            TermMouseKind::ScrollUp,
        ) == (SelectMouseAction::Scroll { offset }),
        area.contains_spec(column, row) && offset > 0 ==> select_mouse_spec(
            area,
            items,
            (offset - 1) as usize,
            column,
            row,
            TermMouseKind::ScrollDown,
        ) == (SelectMouseAction::Scroll { offset }),
        !area.contains_spec(column, row) ==> select_mouse_spec(area, items, offset, column, row, TermMouseKind::ScrollUp)
            == SelectMouseAction::Ignore && select_mouse_spec(area, items, offset, column, row, TermMouseKind::ScrollDown)
            == SelectMouseAction::Ignore,
        forall|b: TermMouseButton|
            !area.contains_spec(column, row) ==> #[trigger] select_mouse_spec(
                area,
                items,
                offset,
                column,
                row,
                TermMouseKind::Down(b),
            ) == SelectMouseAction::RevertAndPass,
{
}

/// A press inside the list picks the option under it: the row it hit,
/// counted on from the first visible option; where it hits no row it does
/// nothing.
pub proof fn law_press_picks_the_row_under_it(
    area: Rect,
    items: Seq<Rect>,
    offset: usize,
    column: u16,
    row: u16,
    b: TermMouseButton,
)
    requires
        area.contains_spec(column, row),
        offset + items.len() <= usize::MAX,
    ensures
        select_mouse_spec(area, items, offset, column, row, TermMouseKind::Down(b)) matches SelectMouseAction::Pick {
            index,
        } ==> index >= offset && index - offset < items.len() && items[index - offset].contains_spec(column, row)
            && forall|j: int| 0 <= j < index - offset ==> !(#[trigger] items[j]).contains_spec(column, row),
        (forall|j: int| 0 <= j < items.len() ==> !(#[trigger] items[j]).contains_spec(column, row)) ==> select_mouse_spec(
            area,
            items,
            offset,
            column,
            row,
            TermMouseKind::Down(b),
        ) == SelectMouseAction::Ignore,
{
    lemma_first_hit_first(items, column, row);
}

proof fn lemma_first_hit_first(rects: Seq<Rect>, column: u16, row: u16)
    ensures
        first_hit_spec(rects, column, row) >= 0 ==> first_hit_spec(rects, column, row) < rects.len() && rects[first_hit_spec(
            rects,
            column,
            row,
        )].contains_spec(column, row) && forall|j: int|
            0 <= j < first_hit_spec(rects, column, row) ==> !(#[trigger] rects[j]).contains_spec(column, row),
        first_hit_spec(rects, column, row) < 0 ==> forall|j: int|
            0 <= j < rects.len() ==> !(#[trigger] rects[j]).contains_spec(column, row),
    decreases rects.len(),
{
    if rects.len() > 0 {
        let rest = rects.drop_last();
        lemma_first_hit_first(rest, column, row);
        assert forall|j: int| 0 <= j < rest.len() implies rects[j] == rest[j] by {}
    }
}

/// The host's answer for an option-list pointer event.
pub open spec fn select_mouse_outcome_spec(action: SelectMouseAction) -> OverlayOutcome {
    match action {
        SelectMouseAction::RevertAndPass => OverlayOutcome::Pass,
        SelectMouseAction::Pick { .. } => OverlayOutcome::Commit,
        _ => OverlayOutcome::Consumed,
    }
}

/// What a pointer event does to an open option list, and the host's
/// answer.
pub fn select_overlay_mouse(
    area: Rect,
    items: &Vec<Rect>,
    offset: usize,
    column: u16,
    row: u16,
    kind: TermMouseKind,
) -> (r: (SelectMouseAction, OverlayOutcome))
    requires
        offset + items@.len() <= usize::MAX,
    ensures
        r.0 == select_mouse_spec(area, items@, offset, column, row, kind),
        r.1 == select_mouse_outcome_spec(r.0),
{
    if !area.contains(column, row) {
        return match kind {
            TermMouseKind::Down(_) => (SelectMouseAction::RevertAndPass, OverlayOutcome::Pass),
            _ => (SelectMouseAction::Ignore, OverlayOutcome::Consumed),
        };
    }
    match kind {
        TermMouseKind::Down(_) => {
            proof {
                lemma_first_hit_bounds(items@, column, row);
            }
            match first_hit(items, column, row) {
                Some(k) => (SelectMouseAction::Pick { index: offset + k }, OverlayOutcome::Commit),
                None => (SelectMouseAction::Ignore, OverlayOutcome::Consumed),
            }
        },
        TermMouseKind::ScrollUp => (
            SelectMouseAction::Scroll { offset: offset.saturating_sub(1) },
            OverlayOutcome::Consumed,
        ),
        TermMouseKind::ScrollDown => (
            SelectMouseAction::Scroll { offset: offset.saturating_add(1) },
            OverlayOutcome::Consumed,
        ),
        _ => (SelectMouseAction::Ignore, OverlayOutcome::Consumed),
    }
}

/// Tab never ends in an open overlay: both the calendar and the option
/// list close and pass it on, so the host's commit-and-step still runs.
pub proof fn law_tab_passes_through_overlays(picked: bool)
    ensures
        date_key_outcome_spec(date_key_spec(TermKeyCode::Tab), picked) == OverlayOutcome::Pass,
        select_key_outcome_spec(select_key_spec(TermKeyCode::Tab)) == OverlayOutcome::Pass,
{
}

/// Esc dismisses an overlay without committing anything.
pub proof fn law_escape_never_commits(picked: bool)
    ensures
        date_key_outcome_spec(date_key_spec(TermKeyCode::Esc), picked) == OverlayOutcome::Consumed,
        select_key_outcome_spec(select_key_spec(TermKeyCode::Esc)) == OverlayOutcome::Consumed,
{
}

/// A press outside an open overlay dismisses it and passes, so the same
/// click still reaches whatever it landed on; any other event outside is
/// swallowed.
pub proof fn law_outside_press_passes(
    area: Rect,
    days: Seq<Rect>,
    items: Seq<Rect>,
    offset: usize,
    column: u16,
    row: u16,
    kind: TermMouseKind,
    picked: bool,
)
    requires
        !area.contains_spec(column, row),
    ensures
        date_mouse_outcome_spec(date_mouse_spec(area, days, column, row, kind), picked) == (
        if kind is Down {
            OverlayOutcome::Pass
        } else {
            OverlayOutcome::Consumed
        }),
        select_mouse_outcome_spec(select_mouse_spec(area, items, offset, column, row, kind)) == (
        if kind is Down {
            OverlayOutcome::Pass
        } else {
            OverlayOutcome::Consumed
        }),
{
}

/// Only a pick commits: an overlay answers `Commit` exactly for a press on
/// a day (that exists) or an option row inside it, or for Enter.
pub proof fn law_only_picks_commit(
    area: Rect,
    days: Seq<Rect>,
    items: Seq<Rect>,
    offset: usize,
    column: u16,
    row: u16,
    kind: TermMouseKind,
    picked: bool,
)
    ensures
        date_mouse_outcome_spec(date_mouse_spec(area, days, column, row, kind), picked)
            == OverlayOutcome::Commit <==> (picked && area.contains_spec(column, row) && kind is Down
            && first_hit_spec(days, column, row) >= 0),
        select_mouse_outcome_spec(select_mouse_spec(area, items, offset, column, row, kind))
            == OverlayOutcome::Commit <==> (area.contains_spec(column, row) && kind is Down
            && first_hit_spec(items, column, row) >= 0),
{
}

/// What an open overlay does with a key event: a press is handled by the
/// overlay's key bindings; a repeat or a release is consumed and changes
/// nothing (overlays are modal).
#[derive(Debug, Clone, Copy, PartialEq, Eq, Structural)]
pub enum OverlayKey {
    /// Consumed, with nothing done.
    Swallow,
    /// Handled by the overlay's bindings for this code.
    Press(TermKeyCode),
}

/// The overlay's share of a key event.
pub open spec fn overlay_key_spec(event: TermKeyEvent) -> OverlayKey {
    if event.kind == TermKeyEventKind::Press {
        OverlayKey::Press(event.code)
    } else {
        OverlayKey::Swallow
    }
}

/// Routes a key event to an open overlay: presses reach its bindings,
/// repeats and releases are swallowed.
pub fn overlay_key(event: &TermKeyEvent) -> (route: OverlayKey)
    ensures
        route == overlay_key_spec(*event),
{
    if event.kind == TermKeyEventKind::Press {
        OverlayKey::Press(event.code)
    } else {
        OverlayKey::Swallow
    }
}

/// Whether the host's own key handling stops at the overlay: everything
/// but a pass does.
pub open spec fn overlay_consumed_spec(outcome: OverlayOutcome) -> bool {
    outcome != OverlayOutcome::Pass
}

/// Whether an overlay's answer ends the host's handling of the event.
pub fn overlay_consumed(outcome: OverlayOutcome) -> (consumed: bool)
    ensures
        consumed == overlay_consumed_spec(outcome),
{
    match outcome {
        OverlayOutcome::Pass => false,
        _ => true,
    }
}

/// A repeat or release never reaches an open overlay's bindings: it is
/// consumed, so the host neither commits nor moves focus for it.
pub proof fn law_non_press_is_swallowed(event: TermKeyEvent)
    requires
        event.kind != TermKeyEventKind::Press,
    ensures
        overlay_key_spec(event) == OverlayKey::Swallow,
{
}

} // verus!
