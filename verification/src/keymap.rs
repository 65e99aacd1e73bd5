//! The browser pane's input vocabulary: DOM key and pointer names into the
//! terminal events the runtime understands.

use vstd::prelude::*;

use crate::keys::{stroke_code, stroke_modifiers, KeyStroke, TermKeyEvent, TermKeyEventKind};
use crate::strings::{chars_eq_str, chars_of};

verus! {

/// A mouse button.
#[derive(Debug, Clone, Copy, PartialEq, Eq, Structural)]
pub enum TermMouseButton {
    Left,
    Right,
    Middle,
}

/// What a terminal mouse event reports.
#[derive(Debug, Clone, Copy, PartialEq, Eq, Structural)]
pub enum TermMouseKind {
    Down(TermMouseButton),
    Up(TermMouseButton),
    Drag(TermMouseButton),
    Moved,
    ScrollDown,
    ScrollUp,
    ScrollLeft,
    ScrollRight,
}

/// The pointer gestures the pane speaks: the left button and the wheel.
pub open spec fn mouse_kind_of(kind: Seq<char>) -> Option<TermMouseKind> {
    if kind == "down"@ {
        Some(TermMouseKind::Down(TermMouseButton::Left))
    } else if kind == "up"@ {
        Some(TermMouseKind::Up(TermMouseButton::Left))
    } else if kind == "drag"@ {
        Some(TermMouseKind::Drag(TermMouseButton::Left))
    } else if kind == "wheel-up"@ {
        Some(TermMouseKind::ScrollUp)
    } else if kind == "wheel-down"@ {
        Some(TermMouseKind::ScrollDown)
    } else {
        None
    }
}

/// Translates a DOM pointer gesture name into the terminal mouse kind.
/// The pane only speaks the left button and the wheel, like the widgets.
pub fn translate_mouse(kind: &str) -> (r: Option<TermMouseKind>)
    ensures
        r == mouse_kind_of(kind@),
{
    let kind = chars_of(kind);
    if chars_eq_str(&kind, "down") {
        Some(TermMouseKind::Down(TermMouseButton::Left))
    } else if chars_eq_str(&kind, "up") {
        Some(TermMouseKind::Up(TermMouseButton::Left))
    } else if chars_eq_str(&kind, "drag") {
        Some(TermMouseKind::Drag(TermMouseButton::Left))
    } else if chars_eq_str(&kind, "wheel-up") {
        Some(TermMouseKind::ScrollUp)
    } else if chars_eq_str(&kind, "wheel-down") {
        Some(TermMouseKind::ScrollDown)
    } else {
        None
    }
}

/// Translates a DOM `KeyboardEvent` (its `key`, `ctrlKey`, `altKey`,
/// `shiftKey`) into the terminal key event the runtime understands — the
/// shared vocabulary of [`KeyStroke`]. Returns `None` for keys a terminal
/// has no notion of, like bare modifiers.
pub fn translate_key(key: &str, ctrl: bool, alt: bool, shift: bool) -> (r: Option<TermKeyEvent>)
    ensures
        r is Some <==> stroke_code(key@, shift) is Some,
        r matches Some(e) ==> {
            &&& e.code == stroke_code(key@, shift)->0
            &&& e.modifiers == stroke_modifiers(shift, ctrl, alt, false)
            &&& e.kind == TermKeyEventKind::Press
            &&& e.state == 0
        },
{
    KeyStroke { key: key.to_owned(), shift, ctrl, alt, meta: false }.to_crossterm()
}

} // verus!
