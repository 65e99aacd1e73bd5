//! Keyboard focus in a terminal app: the ring of focusable widgets that
//! Tab and Shift+Tab walk, the fallback when a structural change removes
//! the focused node, and the routing of a key event to quit, focus, commit
//! or the focused widget. Widgets are named by their node numbers, in
//! document order.

use vstd::prelude::*;

use crate::geometry::Rect;
use crate::keymap::{TermMouseButton, TermMouseKind};
use crate::keys::{has_mod, TermKeyCode, TermKeyEvent, TermKeyEventKind, CONTROL};
use crate::overlay::{first_hit, first_hit_spec};
use crate::Control;

verus! {

/// The index of the first occurrence of `x` in `s`, or -1.
pub open spec fn first_index(s: Seq<u64>, x: u64) -> int
    decreases s.len(),
{
    if s.len() == 0 {
        -1
    } else {
        let k = first_index(s.drop_last(), x);
        if k >= 0 {
            k
        } else if s.last() == x {
            s.len() - 1
        } else {
            -1
        }
    }
}

/// Where a step starts: the focused node's place in the ring, or the
/// first place when nothing in the ring holds focus.
pub open spec fn focus_index(ring: Seq<u64>, focused: Option<u64>) -> int {
    match focused {
        Some(node) => if first_index(ring, node) >= 0 {
            first_index(ring, node)
        } else {
            0
        },
        None => 0,
    }
}

/// One step of focus through the ring, wrapping at both ends; nothing to
/// focus in an empty ring.
pub open spec fn step_spec(ring: Seq<u64>, focused: Option<u64>, forward: bool) -> Option<u64> {
    if ring.len() == 0 {
        None
    } else {
        let delta: int = if forward {
            1
        } else {
            -1
        };
        Some(ring[(focus_index(ring, focused) + delta) % (ring.len() as int)])
    }
}

/// The focus after a structural change: kept while its node is still in
/// the ring, otherwise the first focusable, if any.
pub open spec fn ensure_spec(ring: Seq<u64>, focused: Option<u64>) -> Option<u64> {
    match focused {
        Some(node) if first_index(ring, node) >= 0 => Some(node),
        _ => if ring.len() > 0 {
            Some(ring[0])
        } else {
            None
        },
    }
}

proof fn lemma_first_index(s: Seq<u64>, x: u64)
    ensures
        -1 <= first_index(s, x) < s.len(),
        first_index(s, x) >= 0 ==> s[first_index(s, x)] == x,
        first_index(s, x) >= 0 ==> forall|j: int| 0 <= j < first_index(s, x) ==> s[j] != x,
        first_index(s, x) < 0 ==> forall|j: int| 0 <= j < s.len() ==> s[j] != x,
    decreases s.len(),
{
    if s.len() > 0 {
        let t = s.drop_last();
        lemma_first_index(t, x);
        assert forall|j: int| 0 <= j < t.len() implies #[trigger] s[j] == t[j] by {}
    }
}

proof fn lemma_first_index_of_distinct(s: Seq<u64>, k: int)
    requires
        0 <= k < s.len(),
        forall|i: int, j: int| 0 <= i < j < s.len() ==> s[i] != s[j],
    ensures
        first_index(s, s[k]) == k,
{
    lemma_first_index(s, s[k]);
}

/// The first place of `node` in the ring, if it is there.
fn position(ring: &Vec<u64>, node: u64) -> (k: Option<usize>)
    ensures
        match k {
            Some(i) => i == first_index(ring@, node),
            None => first_index(ring@, node) < 0,
        },
{
    let mut i: usize = 0;
    while i < ring.len()
        invariant
            0 <= i <= ring@.len(),
            first_index(ring@.take(i as int), node) < 0,
        decreases ring@.len() - i,
    {
        assert(ring@.take(i + 1).drop_last() =~= ring@.take(i as int));
        if ring[i] == node {
            proof {
                lemma_first_index(ring@.take(i + 1), node);
                lemma_prefix_index(ring@, i + 1, node);
            }
            return Some(i);
        }
        i = i + 1;
    }
    assert(ring@.take(ring@.len() as int) =~= ring@);
    None
}

proof fn lemma_prefix_index(s: Seq<u64>, n: int, x: u64)
    requires
        0 <= n <= s.len(),
        first_index(s.take(n), x) >= 0,
    ensures
        first_index(s, x) == first_index(s.take(n), x),
    decreases s.len() - n,
{
    if n < s.len() {
        assert(s.take(n + 1).drop_last() =~= s.take(n));
        lemma_prefix_index(s, n + 1, x);
    } else {
        assert(s.take(n) =~= s);
    }
}

/// Moves focus one widget forward (Tab) or back (Shift+Tab) through the
/// ring, wrapping at both ends; from a node outside the ring (or none) the
/// step counts from the first widget. `None` when nothing can take focus.
pub fn step_focus(ring: &Vec<u64>, focused: Option<u64>, forward: bool) -> (next: Option<u64>)
    ensures
        next == step_spec(ring@, focused, forward),
{
    if ring.len() == 0 {
        return None;
    }
    let current: usize = match focused {
        Some(node) => match position(ring, node) {
            Some(k) => k,
            None => 0,
        },
        None => 0,
    };
    proof {
        match focused {
            Some(node) => lemma_first_index(ring@, node),
            None => {},
        }
    }
    assert(current as int == focus_index(ring@, focused));
    let count = ring.len();
    let next = if forward {
        if current + 1 == count {
            0
        } else {
            current + 1
        }
    } else {
        if current == 0 {
            count - 1
        } else {
            current - 1
        }
    };
    proof {
        let delta: int = if forward {
            1
        } else {
            -1
        };
        let n = count as int;
        let c = current as int;
        assert(0 <= c < n);
        assert((c + delta) % n == next as int) by (nonlinear_arith)
            requires
                0 <= c < n,
                delta == 1 || delta == -1,
                next as int == (if delta == 1 {
                    if c + 1 == n {
                        0
                    } else {
                        c + 1
                    }
                } else {
                    if c == 0 {
                        n - 1
                    } else {
                        c - 1
                    }
                }),
        ;
    }
    Some(ring[next])
}

/// The focus after a structural change may have removed the focused node:
/// kept while it is still focusable, otherwise the first focusable, if
/// any.
pub fn ensure_focus(ring: &Vec<u64>, focused: Option<u64>) -> (kept: Option<u64>)
    ensures
        kept == ensure_spec(ring@, focused),
{
    if let Some(node) = focused {
        if position(ring, node).is_some() {
            return Some(node);
        }
    }
    if ring.len() > 0 {
        Some(ring[0])
    } else {
        None
    }
}

/// Whether no node occurs twice in the ring (document order lists each
/// node once).
pub open spec fn distinct(ring: Seq<u64>) -> bool {
    forall|i: int, j: int| 0 <= i < j < ring.len() ==> ring[i] != ring[j]
}

/// A step always lands in the ring, and finds something exactly when the
/// ring is not empty.
pub proof fn law_step_lands_in_ring(ring: Seq<u64>, focused: Option<u64>, forward: bool)
    ensures
        step_spec(ring, focused, forward) is Some <==> ring.len() > 0,
        step_spec(ring, focused, forward) matches Some(node) ==> ring.contains(node),
{
    if ring.len() > 0 {
        match focused {
            Some(node) => lemma_first_index(ring, node),
            None => {},
        }
        let n = ring.len() as int;
        let k = focus_index(ring, focused);
        assert(0 <= k < n);
        let delta: int = if forward {
            1
        } else {
            -1
        };
        let j = (k + delta) % n;
        assert(0 <= j < n) by (nonlinear_arith)
            requires
                n > 0,
                j == (k + delta) % n,
        ;
        assert(ring[j] == step_spec(ring, focused, forward)->0);
    }
}

/// Shift+Tab undoes Tab, and Tab undoes Shift+Tab, from any focusable
/// node of a ring that lists each node once.
pub proof fn law_step_back_undoes_step(ring: Seq<u64>, node: u64, forward: bool)
    requires
        distinct(ring),
        ring.contains(node),
    ensures
        step_spec(ring, step_spec(ring, Some(node), forward), !forward) == Some(node),
{
    let k = choose|k: int| 0 <= k < ring.len() && ring[k] == node;
    lemma_first_index_of_distinct(ring, k);
    let n = ring.len() as int;
    let delta: int = if forward {
        1
    } else {
        -1
    };
    let j = (k + delta) % n;
    assert(0 <= j < n && (j - delta) % n == k) by (nonlinear_arith)
        requires
            n > 0,
            0 <= k < n,
            delta == 1 || delta == -1,
            j == (k + delta) % n,
    ;
    lemma_first_index_of_distinct(ring, j);
    assert(step_spec(ring, Some(node), forward) == Some(ring[j]));
    assert(focus_index(ring, Some(ring[j])) == j);
}

/// Tab walks the whole ring: from the first widget, as many steps as there
/// are widgets come back to it, each widget focused once on the way.
pub open spec fn walk(ring: Seq<u64>, start: Option<u64>, steps: nat) -> Option<u64>
    decreases steps,
{
    if steps == 0 {
        start
    } else {
        step_spec(ring, walk(ring, start, (steps - 1) as nat), true)
    }
}

proof fn lemma_walk_index(ring: Seq<u64>, steps: nat)
    requires
        distinct(ring),
        ring.len() > 0,
        steps < ring.len(),
    ensures
        walk(ring, Some(ring[0]), steps) == Some(ring[steps as int]),
    decreases steps,
{
    if steps > 0 {
        lemma_walk_index(ring, (steps - 1) as nat);
        lemma_first_index_of_distinct(ring, steps - 1);
        let n = ring.len() as int;
        let k = steps as int;
        assert((k - 1 + 1) % n == k) by (nonlinear_arith)
            requires
                0 < k < n,
        ;
    }
}

/// Tab from the first widget visits every widget in document order and
/// comes back to the first after as many steps as there are widgets.
pub proof fn law_tab_cycles_through_ring(ring: Seq<u64>)
    requires
        distinct(ring),
        ring.len() > 0,
    ensures
        forall|k: nat| k < ring.len() ==> #[trigger] walk(ring, Some(ring[0]), k) == Some(
            ring[k as int],
        ),
        walk(ring, Some(ring[0]), ring.len()) == Some(ring[0]),
{
    assert forall|k: nat| k < ring.len() implies #[trigger] walk(ring, Some(ring[0]), k) == Some(
        ring[k as int],
    ) by {
        lemma_walk_index(ring, k);
    }
    let n = ring.len();
    lemma_walk_index(ring, (n - 1) as nat);
    lemma_first_index_of_distinct(ring, n - 1);
    assert((n - 1 + 1) % (n as int) == 0) by (nonlinear_arith)
        requires
            n > 0,
    ;
}

/// The fallback keeps a focus that is still in the ring, always lands in
/// the ring when it is not empty, and a second application changes
/// nothing.
pub proof fn law_ensure_focus(ring: Seq<u64>, focused: Option<u64>)
    ensures
        focused matches Some(node) && ring.contains(node) ==> ensure_spec(ring, focused) == focused,
        ensure_spec(ring, focused) is Some <==> ring.len() > 0 || (focused matches Some(node)
            && ring.contains(node)),
        ensure_spec(ring, focused) matches Some(node) ==> ring.contains(node),
        ensure_spec(ring, ensure_spec(ring, focused)) == ensure_spec(ring, focused),
{
    match focused {
        Some(node) => {
            lemma_first_index(ring, node);
            if ring.contains(node) {
                let k = choose|k: int| 0 <= k < ring.len() && ring[k] == node;
                assert(ring[k] == node);
            }
        },
        None => {},
    }
    if ring.len() > 0 {
        lemma_first_index(ring, ring[0]);
        assert(ring.contains(ring[0]));
    }
    match ensure_spec(ring, focused) {
        Some(node) => {
            lemma_first_index(ring, node);
        },
        None => {},
    }
}

/// What the app does with a key event once no open overlay took it.
#[derive(Debug, Clone, Copy, PartialEq, Eq, Structural)]
pub enum KeyRoute {
    /// Leave the event loop (Esc, Ctrl+C).
    Quit,
    /// Commit the focused widget, then move focus forward (Tab) or back
    /// (Shift+Tab).
    CommitAndStep { forward: bool },
    /// Hand the key to the focused widget alone (a textarea's newline; it
    /// commits on focus leave).
    Deliver,
    /// Commit the focused widget (Enter on a single-line widget).
    Commit,
    /// Open the focused widget's overlay (F4 or Down on a date or select).
    OpenOverlay,
    /// Hand the event to the focused widget, committing when it asks.
    Forward,
}

/// The route of a key event, given whether the focused widget is
/// multi-line and whether it owns an overlay: presses of the global keys
/// are the app's, everything else (and every repeat or release) the
/// focused widget's.
pub open spec fn route_spec(event: TermKeyEvent, multiline: bool, opens_overlay: bool) -> KeyRoute {
    if event.kind != TermKeyEventKind::Press {
        KeyRoute::Forward
    } else {
        match event.code {
            TermKeyCode::Esc => KeyRoute::Quit,
            TermKeyCode::Char(c) if c == 'c' && has_mod(event.modifiers, CONTROL) => KeyRoute::Quit,
            TermKeyCode::Tab => KeyRoute::CommitAndStep { forward: true },
            TermKeyCode::BackTab => KeyRoute::CommitAndStep { forward: false },
            TermKeyCode::Enter => if multiline {
                KeyRoute::Deliver
            } else {
                KeyRoute::Commit
            },
            TermKeyCode::F(n) if n == 4 && opens_overlay => KeyRoute::OpenOverlay,
            TermKeyCode::Down if opens_overlay => KeyRoute::OpenOverlay,
            _ => KeyRoute::Forward,
        }
    }
}

/// Routes a key event that no open overlay consumed: Esc and Ctrl+C
/// quit, Tab and Shift+Tab commit and move focus, Enter commits (or gives
/// a textarea its newline), F4 and Down open an overlay the focused widget
/// owns, and the rest goes to the focused widget.
pub fn route_key(event: &TermKeyEvent, multiline: bool, opens_overlay: bool) -> (route: KeyRoute)
    ensures
        route == route_spec(*event, multiline, opens_overlay),
{
    if event.kind != TermKeyEventKind::Press {
        return KeyRoute::Forward;
    }
    match event.code {
        TermKeyCode::Esc => KeyRoute::Quit,
        TermKeyCode::Char(c) if c == 'c' && event.modifiers & CONTROL != 0 => KeyRoute::Quit,
        TermKeyCode::Tab => KeyRoute::CommitAndStep { forward: true },
        TermKeyCode::BackTab => KeyRoute::CommitAndStep { forward: false },
        TermKeyCode::Enter => if multiline {
            KeyRoute::Deliver
        } else {
            KeyRoute::Commit
        },
        TermKeyCode::F(n) if n == 4 && opens_overlay => KeyRoute::OpenOverlay,
        TermKeyCode::Down if opens_overlay => KeyRoute::OpenOverlay,
        _ => KeyRoute::Forward,
    }
}

/// Whether the loop goes on after a route: only a quit ends it.
pub fn control_of(route: KeyRoute) -> (control: Control)
    ensures
        control == (if route == KeyRoute::Quit {
            Control::Quit
        } else {
            Control::Continue
        }),
{
    match route {
        KeyRoute::Quit => Control::Quit,
        _ => Control::Continue,
    }
}

/// The widget under a screen cell: the first focusable whose painted area
/// holds it. `areas[i]` is where `ring[i]` painted.
pub open spec fn hit_spec(ring: Seq<u64>, areas: Seq<Rect>, column: u16, row: u16) -> Option<u64> {
    let k = first_hit_spec(areas, column, row);
    if k >= 0 {
        Some(ring[k])
    } else {
        None
    }
}

/// The widget under a screen cell, resolved against the areas the last
/// paint recorded.
pub fn hit_test(ring: &Vec<u64>, areas: &Vec<Rect>, column: u16, row: u16) -> (hit: Option<u64>)
    requires
        ring@.len() == areas@.len(),
    ensures
        hit == hit_spec(ring@, areas@, column, row),
{
    match first_hit(areas, column, row) {
        Some(k) => Some(ring[k]),
        None => None,
    }
}

/// Where the keyboard is: the focused widget, and whether a click outside
/// every element blurred it (no ring or caret shows until the next key or
/// widget click).
#[derive(Debug, Clone, Copy, PartialEq, Eq, Structural)]
pub struct FocusState {
    pub focused: Option<u64>,
    pub blurred: bool,
}

/// What the host does for a pointer event, besides moving focus.
#[derive(Debug, Clone, Copy, PartialEq, Eq, Structural)]
pub struct PointerEffect {
    /// Commit the widget that held focus before the event.
    pub commit: bool,
    /// Close the focused widget's open overlay first.
    pub close_overlay: bool,
    /// Place the caret under the pointer in the (newly) focused widget;
    /// `Some(true)` extends the selection.
    pub caret: Option<bool>,
}

/// A pointer event the open overlay did not take: a left press on a widget
/// focuses it, committing the one it leaves (a blurred click already
/// committed), and places the caret; a left press on nothing blurs,
/// closing an open overlay and committing, unless already blurred; a left
/// drag extends the selection unless blurred; anything else does nothing.
pub open spec fn pointer_spec(
    state: FocusState,
    overlay_open: bool,
    kind: TermMouseKind,
    hit: Option<u64>,
) -> (FocusState, PointerEffect) {
    let none = PointerEffect { commit: false, close_overlay: false, caret: None };
    match kind {
        TermMouseKind::Down(TermMouseButton::Left) => match hit {
            Some(node) => (
                FocusState { focused: Some(node), blurred: false },
                PointerEffect {
                    commit: Some(node) != state.focused && !state.blurred,
                    close_overlay: false,
                    caret: Some(false),
                },
            ),
            None => if state.blurred {
                (state, none)
            } else {
                (
                    FocusState { focused: state.focused, blurred: true },
                    PointerEffect { commit: true, close_overlay: overlay_open, caret: None },
                )
            },
        },
        TermMouseKind::Drag(TermMouseButton::Left) => (
            state,
            if state.blurred {
                none
            } else {
                PointerEffect { commit: false, close_overlay: false, caret: Some(true) }
            },
        ),
        _ => (state, none),
    }
}

/// Routes a pointer event the open overlay did not take: the focus after
/// it and what the host does.
pub fn route_pointer(
    state: FocusState,
    overlay_open: bool,
    kind: TermMouseKind,
    hit: Option<u64>,
) -> (r: (FocusState, PointerEffect))
    ensures
        r == pointer_spec(state, overlay_open, kind, hit),
{
    let none = PointerEffect { commit: false, close_overlay: false, caret: None };
    match kind {
        TermMouseKind::Down(TermMouseButton::Left) => match hit {
            Some(node) => {
                let leaving = match state.focused {
                    Some(f) => f != node,
                    None => true,
                };
                (
                    FocusState { focused: Some(node), blurred: false },
                    PointerEffect {
                        commit: leaving && !state.blurred,
                        close_overlay: false,
                        caret: Some(false),
                    },
                )
            },
            None => if state.blurred {
                (state, none)
            } else {
                (
                    FocusState { focused: state.focused, blurred: true },
                    PointerEffect { commit: true, close_overlay: overlay_open, caret: None },
                )
            },
        },
        TermMouseKind::Drag(TermMouseButton::Left) => (
            state,
            if state.blurred {
                none
            } else {
                PointerEffect { commit: false, close_overlay: false, caret: Some(true) }
            },
        ),
        _ => (state, none),
    }
}

/// A key press ends a blur: the focus shows again.
pub fn key_pressed(state: FocusState) -> (after: FocusState)
    ensures
        after == (FocusState { focused: state.focused, blurred: false }),
{
    FocusState { focused: state.focused, blurred: false }
}

/// A click outside blurs once: the focused widget commits and keeps its
/// place, a second click outside changes nothing, and the next key press
/// shows the same focus again.
pub proof fn law_blur_commits_once(state: FocusState, overlay_open: bool, button_kind: TermMouseKind)
    requires
        !state.blurred,
        button_kind == TermMouseKind::Down(TermMouseButton::Left),
    ensures
        ({
            let (blurred, first) = pointer_spec(state, overlay_open, button_kind, None);
            let (again, second) = pointer_spec(blurred, overlay_open, button_kind, None);
            &&& first.commit
            &&& blurred == (FocusState { focused: state.focused, blurred: true })
            &&& again == blurred
            &&& !second.commit
            &&& (FocusState { focused: again.focused, blurred: false }) == state
        }),
{
}

/// A left press on a widget focuses it and commits the widget it leaves,
/// never the one it stays on.
pub proof fn law_press_focuses_and_commits_the_left_one(state: FocusState, overlay_open: bool, node: u64)
    ensures
        ({
            let (after, effect) = pointer_spec(
                state,
                overlay_open,
                TermMouseKind::Down(TermMouseButton::Left),
                Some(node),
            );
            &&& after.focused == Some(node)
            &&& !after.blurred
            &&& effect.commit <==> (!state.blurred && state.focused != Some(node))
            &&& effect.caret == Some(false)
        }),
{
}

/// The focus after a subtree's content was replaced, when the focused
/// node went with it: the first new descendant carrying the focused
/// node's `data-path`, otherwise the replaced subtree's root itself.
/// `descendants` lists the new descendants with their `data-path`, in
/// document order.
pub open spec fn surviving_from(
    path: Option<Seq<char>>,
    descendants: Seq<(u64, Option<String>)>,
    target: u64,
) -> u64
    decreases descendants.len(),
{
    match path {
        None => target,
        Some(p) => if descendants.len() == 0 {
            target
        } else {
            let (node, tag) = descendants[0];
            if tag matches Some(t) && t@ == p {
                node
            } else {
                surviving_from(path, descendants.skip(1), target)
            }
        },
    }
}

/// Where focus lands when its node was replaced by a commit: the first new
/// descendant with the same `data-path`, else the committed subtree's
/// root.
pub fn surviving_focus(path: Option<&str>, descendants: &Vec<(u64, Option<String>)>, target: u64) -> (node: u64)
    ensures
        node == surviving_from(
            match path {
                Some(p) => Some(p@),
                None => None,
            },
            descendants@,
            target,
        ),
{
    let ghost wanted = match path {
        Some(p) => Some(p@),
        None => None,
    };
    let p = match path {
        Some(p) => p,
        None => {
            return target;
        },
    };
    let mut i: usize = 0;
    assert(descendants@.skip(0) =~= descendants@);
    while i < descendants.len()
        invariant
            0 <= i <= descendants@.len(),
            wanted == Some(p@),
            path == Some(p),
            surviving_from(wanted, descendants@.skip(i as int), target) == surviving_from(
                wanted,
                descendants@,
                target,
            ),
        decreases descendants@.len() - i,
    {
        assert(descendants@.skip(i as int)[0] == descendants@[i as int]);
        assert(descendants@.skip(i as int).skip(1) =~= descendants@.skip(i + 1));
        if let Some(t) = &descendants[i].1 {
            if crate::strings::chars_eq_str(&crate::strings::chars_of(t.as_str()), p) {
                assert(surviving_from(wanted, descendants@.skip(i as int), target)
                    == descendants@[i as int].0);
                return descendants[i].0;
            }
        }
        i = i + 1;
    }
    assert(descendants@.skip(i as int).len() == 0);
    target
}

} // verus!
