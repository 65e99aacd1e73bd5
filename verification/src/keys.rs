//! One keystroke vocabulary for every host: DOM `KeyboardEvent.key` names
//! beside the terminal's key codes, mapped through one table in both
//! directions. Native hosts read terminal events and speak DOM names to the
//! scripted runtimes; browser hosts read DOM names and speak terminal events
//! to the terminal runtime.
//!
//! The terminal side is held as plain values ([`TermKeyEvent`]): the key
//! code, the modifier bits and the event kind, with the bit values and
//! variants of the terminal event library the hosts convert from.

use vstd::prelude::*;

use crate::strings::{
    chars_eq_str, chars_of, decimal, lemma_parse_decimal, parse_u8, parse_u8_spec, push_char,
    push_decimal,
};

verus! {

/// Modifier bit: Shift.
pub const SHIFT: u8 = 0b0000_0001;

/// Modifier bit: Control.
pub const CONTROL: u8 = 0b0000_0010;

/// Modifier bit: Alt (Option).
pub const ALT: u8 = 0b0000_0100;

/// Modifier bit: Super (Command, Windows).
pub const SUPER: u8 = 0b0000_1000;

/// Modifier bit: Hyper.
pub const HYPER: u8 = 0b0001_0000;

/// Modifier bit: Meta.
pub const META: u8 = 0b0010_0000;

/// No modifier.
pub const NO_MODIFIERS: u8 = 0;

/// A terminal key code.
#[derive(Debug, Clone, Copy, PartialEq, Eq, Structural)]
pub enum TermKeyCode {
    Backspace,
    Enter,
    Left,
    Right,
    Up,
    Down,
    Home,
    End,
    PageUp,
    PageDown,
    Tab,
    BackTab,
    Delete,
    Insert,
    F(u8),
    Char(char),
    Null,
    Esc,
    CapsLock,
    ScrollLock,
    NumLock,
    PrintScreen,
    Pause,
    Menu,
    KeypadBegin,
    Media,
    Modifier,
}

/// Press, repeat or release.
#[derive(Debug, Clone, Copy, PartialEq, Eq, Structural)]
pub enum TermKeyEventKind {
    Press,
    Repeat,
    Release,
}

/// A terminal key event: code, modifier bits, kind and the keyboard state
/// bits (keypad, caps lock, num lock) the terminal reports beside them.
#[derive(Debug, Clone, Copy, PartialEq, Eq, Structural)]
pub struct TermKeyEvent {
    pub code: TermKeyCode,
    pub modifiers: u8,
    pub kind: TermKeyEventKind,
    pub state: u8,
}

impl TermKeyEvent {
    /// A key press with the given modifiers and no keyboard state.
    pub fn new(code: TermKeyCode, modifiers: u8) -> (e: TermKeyEvent)
        ensures
            e.code == code,
            e.modifiers == modifiers,
            e.kind == TermKeyEventKind::Press,
            e.state == 0,
    {
        TermKeyEvent { code, modifiers, kind: TermKeyEventKind::Press, state: 0 }
    }
}

/// A DOM-shaped keystroke: the `KeyboardEvent.key` name plus the modifier
/// flags — the shared currency between the terminal and every JS-facing
/// host.
#[derive(Debug, Clone, PartialEq, Eq)]
pub struct KeyStroke {
    pub key: String,
    pub shift: bool,
    pub ctrl: bool,
    pub alt: bool,
    pub meta: bool,
}

/// True when the modifier set holds any of the bits.
pub open spec fn has_mod(modifiers: u8, bits: u8) -> bool {
    modifiers & bits != 0
}

/// The named keys both sides know — one table, both directions: DOM name
/// to terminal code.
pub open spec fn named_code(name: Seq<char>) -> Option<TermKeyCode> {
    if name == "Enter"@ {
        Some(TermKeyCode::Enter)
    } else if name == "Escape"@ {
        Some(TermKeyCode::Esc)
    } else if name == "Backspace"@ {
        Some(TermKeyCode::Backspace)
    } else if name == "Delete"@ {
        Some(TermKeyCode::Delete)
    } else if name == "Insert"@ {
        Some(TermKeyCode::Insert)
    } else if name == "Home"@ {
        Some(TermKeyCode::Home)
    } else if name == "End"@ {
        Some(TermKeyCode::End)
    } else if name == "PageUp"@ {
        Some(TermKeyCode::PageUp)
    } else if name == "PageDown"@ {
        Some(TermKeyCode::PageDown)
    } else if name == "ArrowUp"@ {
        Some(TermKeyCode::Up)
    } else if name == "ArrowDown"@ {
        Some(TermKeyCode::Down)
    } else if name == "ArrowLeft"@ {
        Some(TermKeyCode::Left)
    } else if name == "ArrowRight"@ {
        Some(TermKeyCode::Right)
    } else if name == "Tab"@ {
        Some(TermKeyCode::Tab)
    } else {
        None
    }
}

/// The same table, terminal code to DOM name.
pub open spec fn code_name(code: TermKeyCode) -> Option<Seq<char>> {
    match code {
        TermKeyCode::Enter => Some("Enter"@),
        TermKeyCode::Esc => Some("Escape"@),
        TermKeyCode::Backspace => Some("Backspace"@),
        TermKeyCode::Delete => Some("Delete"@),
        TermKeyCode::Insert => Some("Insert"@),
        TermKeyCode::Home => Some("Home"@),
        TermKeyCode::End => Some("End"@),
        TermKeyCode::PageUp => Some("PageUp"@),
        TermKeyCode::PageDown => Some("PageDown"@),
        TermKeyCode::Up => Some("ArrowUp"@),
        TermKeyCode::Down => Some("ArrowDown"@),
        TermKeyCode::Left => Some("ArrowLeft"@),
        TermKeyCode::Right => Some("ArrowRight"@),
        TermKeyCode::Tab => Some("Tab"@),
        _ => None,
    }
}

/// The terminal code of a DOM key name: shifted `Tab` folds into
/// `BackTab`, table names map through the table, a single character is
/// itself, `F1`..`F12` are function keys; anything else (bare modifiers,
/// `F13`) has no terminal notion.
pub open spec fn stroke_code(key: Seq<char>, shift: bool) -> Option<TermKeyCode> {
    if key == "Tab"@ && shift {
        Some(TermKeyCode::BackTab)
    } else if named_code(key) is Some {
        named_code(key)
    } else if key.len() == 1 {
        Some(TermKeyCode::Char(key[0]))
    } else if key.len() >= 1 && key[0] == 'F' {
        match parse_u8_spec(key.skip(1)) {
            Some(n) => if 1 <= n <= 12 {
                Some(TermKeyCode::F(n))
            } else {
                None
            },
            None => None,
        }
    } else {
        None
    }
}

/// The modifier bits of a stroke's flags; `meta` speaks `META`.
pub open spec fn stroke_modifiers(shift: bool, ctrl: bool, alt: bool, meta: bool) -> u8 {
    (if shift {
        SHIFT
    } else {
        0u8
    }) | (if ctrl {
        CONTROL
    } else {
        0u8
    }) | (if alt {
        ALT
    } else {
        0u8
    }) | (if meta {
        META
    } else {
        0u8
    })
}

/// The DOM name of a terminal code: characters are themselves, `BackTab`
/// reads as `Tab`, function keys as `F<n>`, table codes by the table;
/// `None` for codes the DOM contract has no name for.
pub open spec fn event_key(code: TermKeyCode) -> Option<Seq<char>> {
    match code {
        TermKeyCode::Char(c) => Some(seq![c]),
        TermKeyCode::BackTab => Some("Tab"@),
        TermKeyCode::F(n) => Some("F"@ + decimal(n as nat)),
        _ => code_name(code),
    }
}

/// The shift flag a terminal event carries over: characters already carry
/// their case, `BackTab` is shifted by definition.
pub open spec fn event_shift(code: TermKeyCode, modifiers: u8) -> bool {
    match code {
        TermKeyCode::Char(_) => false,
        TermKeyCode::BackTab => true,
        _ => has_mod(modifiers, SHIFT),
    }
}

/// The quit chords: Escape, Ctrl+C.
pub open spec fn is_quit_spec(key: Seq<char>, ctrl: bool) -> bool {
    key == "Escape"@ || (ctrl && key == "c"@)
}

/// Executable table lookup, DOM name to terminal code.
fn named_code_exec(key: &Vec<char>) -> (r: Option<TermKeyCode>)
    ensures
        r == named_code(key@),
{
    if chars_eq_str(key, "Enter") {
        Some(TermKeyCode::Enter)
    } else if chars_eq_str(key, "Escape") {
        Some(TermKeyCode::Esc)
    } else if chars_eq_str(key, "Backspace") {
        Some(TermKeyCode::Backspace)
    } else if chars_eq_str(key, "Delete") {
        Some(TermKeyCode::Delete)
    } else if chars_eq_str(key, "Insert") {
        Some(TermKeyCode::Insert)
    } else if chars_eq_str(key, "Home") {
        Some(TermKeyCode::Home)
    } else if chars_eq_str(key, "End") {
        Some(TermKeyCode::End)
    } else if chars_eq_str(key, "PageUp") {
        Some(TermKeyCode::PageUp)
    } else if chars_eq_str(key, "PageDown") {
        Some(TermKeyCode::PageDown)
    } else if chars_eq_str(key, "ArrowUp") {
        Some(TermKeyCode::Up)
    } else if chars_eq_str(key, "ArrowDown") {
        Some(TermKeyCode::Down)
    } else if chars_eq_str(key, "ArrowLeft") {
        Some(TermKeyCode::Left)
    } else if chars_eq_str(key, "ArrowRight") {
        Some(TermKeyCode::Right)
    } else if chars_eq_str(key, "Tab") {
        Some(TermKeyCode::Tab)
    } else {
        None
    }
}

/// Executable table lookup, terminal code to DOM name.
fn code_name_exec(code: TermKeyCode) -> (r: Option<&'static str>)
    ensures
        r is Some <==> code_name(code) is Some,
        r matches Some(name) ==> name@ == code_name(code)->0,
{
    match code {
        TermKeyCode::Enter => Some("Enter"),
        TermKeyCode::Esc => Some("Escape"),
        TermKeyCode::Backspace => Some("Backspace"),
        TermKeyCode::Delete => Some("Delete"),
        TermKeyCode::Insert => Some("Insert"),
        TermKeyCode::Home => Some("Home"),
        TermKeyCode::End => Some("End"),
        TermKeyCode::PageUp => Some("PageUp"),
        TermKeyCode::PageDown => Some("PageDown"),
        TermKeyCode::Up => Some("ArrowUp"),
        TermKeyCode::Down => Some("ArrowDown"),
        TermKeyCode::Left => Some("ArrowLeft"),
        TermKeyCode::Right => Some("ArrowRight"),
        TermKeyCode::Tab => Some("Tab"),
        _ => None,
    }
}

impl KeyStroke {
    /// A plain, unmodified stroke.
    pub fn new(key: &str) -> (s: KeyStroke)
        ensures
            s.key@ == key@,
            !s.shift,
            !s.ctrl,
            !s.alt,
            !s.meta,
    {
        KeyStroke { key: key.to_owned(), shift: false, ctrl: false, alt: false, meta: false }
    }

    /// A stroke carrying the shift flag — reorder chords and friends.
    pub fn shifted(key: &str) -> (s: KeyStroke)
        ensures
            s.key@ == key@,
            s.shift,
            !s.ctrl,
            !s.alt,
            !s.meta,
    {
        KeyStroke { key: key.to_owned(), shift: true, ctrl: false, alt: false, meta: false }
    }

    /// The DOM name and modifiers of a terminal key event; `None` for keys
    /// the DOM contract has no name for. Printable characters keep `shift`
    /// false — the character itself already carries the case. `BackTab`
    /// reads as shifted `Tab`, the DOM's spelling of it. `meta` reads the
    /// Meta and Super bits alike.
    pub fn from_crossterm(event: &TermKeyEvent) -> (r: Option<KeyStroke>)
        ensures
            r is Some <==> event_key(event.code) is Some,
            r matches Some(s) ==> {
                &&& s.key@ == event_key(event.code)->0
                &&& s.shift == event_shift(event.code, event.modifiers)
                &&& s.ctrl == has_mod(event.modifiers, CONTROL)
                &&& s.alt == has_mod(event.modifiers, ALT)
                &&& s.meta == has_mod(event.modifiers, META | SUPER)
            },
    {
        let shift = event.modifiers & SHIFT != 0;
        let ctrl = event.modifiers & CONTROL != 0;
        let alt = event.modifiers & ALT != 0;
        let meta = event.modifiers & (META | SUPER) != 0;
        match event.code {
            TermKeyCode::Char(c) => {
                let mut key = String::new();
                push_char(&mut key, c);
                assert(key@ =~= seq![c]);
                Some(KeyStroke { key, shift: false, ctrl, alt, meta })
            },
            TermKeyCode::BackTab => {
                Some(KeyStroke { key: "Tab".to_owned(), shift: true, ctrl, alt, meta })
            },
            TermKeyCode::F(n) => {
                let mut key = "F".to_owned();
                push_decimal(&mut key, n as u64);
                Some(KeyStroke { key, shift, ctrl, alt, meta })
            },
            code => match code_name_exec(code) {
                Some(name) => Some(KeyStroke { key: name.to_owned(), shift, ctrl, alt, meta }),
                None => None,
            },
        }
    }

    /// The terminal event of this stroke; `None` for names a terminal has
    /// no notion of, like bare modifiers. Shifted `Tab` folds into
    /// `BackTab` while the shift bit stays set — the shape the browser
    /// sessions always produced.
    pub fn to_crossterm(&self) -> (r: Option<TermKeyEvent>)
        ensures
            r is Some <==> stroke_code(self.key@, self.shift) is Some,
            r matches Some(e) ==> {
                &&& e.code == stroke_code(self.key@, self.shift)->0
                &&& e.modifiers == stroke_modifiers(self.shift, self.ctrl, self.alt, self.meta)
                &&& e.kind == TermKeyEventKind::Press
                &&& e.state == 0
            },
    {
        let modifiers: u8 = (if self.shift {
            SHIFT
        } else {
            0u8
        }) | (if self.ctrl {
            CONTROL
        } else {
            0u8
        }) | (if self.alt {
            ALT
        } else {
            0u8
        }) | (if self.meta {
            META
        } else {
            0u8
        });
        let key = chars_of(self.key.as_str());
        let code = if self.shift && chars_eq_str(&key, "Tab") {
            TermKeyCode::BackTab
        } else {
            match named_code_exec(&key) {
                Some(code) => code,
                None => {
                    if key.len() == 1 {
                        TermKeyCode::Char(key[0])
                    } else if key.len() >= 1 && key[0] == 'F' {
                        let mut digits: Vec<char> = Vec::new();
                        let mut i: usize = 1;
                        while i < key.len()
                            invariant
                                1 <= i <= key@.len(),
                                digits@ == key@.subrange(1, i as int),
                            decreases key@.len() - i,
                        {
                            digits.push(key[i]);
                            i = i + 1;
                        }
                        assert(digits@ =~= key@.skip(1));
                        match parse_u8(&digits) {
                            Some(n) => {
                                if 1 <= n && n <= 12 {
                                    TermKeyCode::F(n)
                                } else {
                                    return None;
                                }
                            },
                            None => {
                                return None;
                            },
                        }
                    } else {
                        return None;
                    }
                },
            }
        };
        Some(TermKeyEvent::new(code, modifiers))
    }

    /// The two universal quit chords every host honors: Escape, Ctrl+C.
    pub fn is_quit(&self) -> (r: bool)
        ensures
            r == is_quit_spec(self.key@, self.ctrl),
    {
        let key = chars_of(self.key.as_str());
        chars_eq_str(&key, "Escape") || (self.ctrl && chars_eq_str(&key, "c"))
    }
}

/// The contents of the names the table and the quit chords spell.
pub proof fn lemma_names()
    ensures
        "Enter"@ == seq!['E', 'n', 't', 'e', 'r'],
        "Escape"@ == seq!['E', 's', 'c', 'a', 'p', 'e'],
        "Backspace"@ == seq!['B', 'a', 'c', 'k', 's', 'p', 'a', 'c', 'e'],
        "Delete"@ == seq!['D', 'e', 'l', 'e', 't', 'e'],
        "Insert"@ == seq!['I', 'n', 's', 'e', 'r', 't'],
        "Home"@ == seq!['H', 'o', 'm', 'e'],
        "End"@ == seq!['E', 'n', 'd'],
        "PageUp"@ == seq!['P', 'a', 'g', 'e', 'U', 'p'],
        "PageDown"@ == seq!['P', 'a', 'g', 'e', 'D', 'o', 'w', 'n'],
        "ArrowUp"@ == seq!['A', 'r', 'r', 'o', 'w', 'U', 'p'],
        "ArrowDown"@ == seq!['A', 'r', 'r', 'o', 'w', 'D', 'o', 'w', 'n'],
        "ArrowLeft"@ == seq!['A', 'r', 'r', 'o', 'w', 'L', 'e', 'f', 't'],
        "ArrowRight"@ == seq!['A', 'r', 'r', 'o', 'w', 'R', 'i', 'g', 'h', 't'],
        "Tab"@ == seq!['T', 'a', 'b'],
        "F"@ == seq!['F'],
        "c"@ == seq!['c'],
{
    reveal_strlit("Enter");
    reveal_strlit("Escape");
    reveal_strlit("Backspace");
    reveal_strlit("Delete");
    reveal_strlit("Insert");
    reveal_strlit("Home");
    reveal_strlit("End");
    reveal_strlit("PageUp");
    reveal_strlit("PageDown");
    reveal_strlit("ArrowUp");
    reveal_strlit("ArrowDown");
    reveal_strlit("ArrowLeft");
    reveal_strlit("ArrowRight");
    reveal_strlit("Tab");
    reveal_strlit("F");
    reveal_strlit("c");
}

/// Every terminal key the DOM names comes back as the same key code: the
/// code's name, read with the shift flag the event carries over, maps to
/// the code again. Two shapes fold instead: a shifted `Tab` (it becomes
/// `BackTab`) and function keys beyond F12 (a terminal has none).
pub proof fn law_code_round_trip(code: TermKeyCode, modifiers: u8)
    requires
        event_key(code) is Some,
        !(code == TermKeyCode::Tab && has_mod(modifiers, SHIFT)),
        code matches TermKeyCode::F(n) ==> 1 <= n <= 12,
    ensures
        stroke_code(event_key(code)->0, event_shift(code, modifiers)) == Some(code),
{
    lemma_names();
    match code {
        TermKeyCode::F(n) => {
            lemma_parse_decimal(n);
            let key = "F"@ + decimal(n as nat);
            assert(key[0] == 'F');
            assert(key.skip(1) =~= decimal(n as nat));
            crate::strings::lemma_decimal_digits(n as nat);
            assert(key.len() >= 2);
        },
        TermKeyCode::Char(c) => {
            assert(seq![c].len() == 1);
        },
        _ => {},
    }
}

/// The flag-level half of the round trip: the modifier bits a stroke
/// produces read back as the same four flags.
pub proof fn law_modifiers_round_trip(shift: bool, ctrl: bool, alt: bool, meta: bool)
    ensures
        has_mod(stroke_modifiers(shift, ctrl, alt, meta), SHIFT) == shift,
        has_mod(stroke_modifiers(shift, ctrl, alt, meta), CONTROL) == ctrl,
        has_mod(stroke_modifiers(shift, ctrl, alt, meta), ALT) == alt,
        has_mod(stroke_modifiers(shift, ctrl, alt, meta), META | SUPER) == meta,
{
    let m = stroke_modifiers(shift, ctrl, alt, meta);
    assert(META | SUPER == 40u8) by (bit_vector);
    assert(m & 1u8 != 0 <==> shift) by (bit_vector)
        requires
            m == (if shift { 1u8 } else { 0u8 }) | (if ctrl { 2u8 } else { 0u8 }) | (if alt { 4u8 } else { 0u8 }) | (if meta { 32u8 } else { 0u8 }),
    ;
    assert(m & 2u8 != 0 <==> ctrl) by (bit_vector)
        requires
            m == (if shift { 1u8 } else { 0u8 }) | (if ctrl { 2u8 } else { 0u8 }) | (if alt { 4u8 } else { 0u8 }) | (if meta { 32u8 } else { 0u8 }),
    ;
    assert(m & 4u8 != 0 <==> alt) by (bit_vector)
        requires
            m == (if shift { 1u8 } else { 0u8 }) | (if ctrl { 2u8 } else { 0u8 }) | (if alt { 4u8 } else { 0u8 }) | (if meta { 32u8 } else { 0u8 }),
    ;
    assert(m & 40u8 != 0 <==> meta) by (bit_vector)
        requires
            m == (if shift { 1u8 } else { 0u8 }) | (if ctrl { 2u8 } else { 0u8 }) | (if alt { 4u8 } else { 0u8 }) | (if meta { 32u8 } else { 0u8 }),
    ;
}

/// DOM name → terminal event → DOM name is the identity on the table's
/// names and on `F1`..`F12`, whatever the modifier flags: the stroke
/// comes back with the same key and the same four flags.
pub proof fn law_stroke_round_trip(key: Seq<char>, shift: bool, ctrl: bool, alt: bool, meta: bool)
    requires
        named_code(key) is Some || exists|n: u8| 1 <= n <= 12 && key == "F"@ + decimal(n as nat),
    ensures
        stroke_code(key, shift) is Some,
        event_key(stroke_code(key, shift)->0) == Some(key),
        event_shift(stroke_code(key, shift)->0, stroke_modifiers(shift, ctrl, alt, meta)) == shift,
        has_mod(stroke_modifiers(shift, ctrl, alt, meta), CONTROL) == ctrl,
        has_mod(stroke_modifiers(shift, ctrl, alt, meta), ALT) == alt,
        has_mod(stroke_modifiers(shift, ctrl, alt, meta), META | SUPER) == meta,
{
    lemma_names();
    law_modifiers_round_trip(shift, ctrl, alt, meta);
    if named_code(key) is None {
        let n = choose|n: u8| 1 <= n <= 12 && key == "F"@ + decimal(n as nat);
        lemma_parse_decimal(n);
        crate::strings::lemma_decimal_digits(n as nat);
        assert(key[0] == 'F');
        assert(key.skip(1) =~= decimal(n as nat));
    }
}

} // verus!
