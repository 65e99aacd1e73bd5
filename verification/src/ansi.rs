//! A terminal screen rendered into ANSI escape sequences for a browser
//! terminal instead of a device. Besides the escape stream it keeps the
//! symbols as a plain-text shadow grid, so hosts and tests can assert on
//! the screen without a terminal.
//!
//! Cells are held as plain values: a symbol, foreground and background
//! [`Color`] and the modifier bits of the terminal UI library the hosts
//! draw with.

use vstd::prelude::*;

use crate::strings::{chars_of, decimal, is_unicode_ws, is_unicode_ws_exec, push_char, push_chars, push_decimal, string_of};

verus! {

/// Modifier bit: bold.
pub const BOLD: u16 = 0b0000_0000_0001;

/// Modifier bit: dim.
pub const DIM: u16 = 0b0000_0000_0010;

/// Modifier bit: italic.
pub const ITALIC: u16 = 0b0000_0000_0100;

/// Modifier bit: underlined.
pub const UNDERLINED: u16 = 0b0000_0000_1000;

/// Modifier bit: slow blink.
pub const SLOW_BLINK: u16 = 0b0000_0001_0000;

/// Modifier bit: rapid blink.
pub const RAPID_BLINK: u16 = 0b0000_0010_0000;

/// Modifier bit: reversed.
pub const REVERSED: u16 = 0b0000_0100_0000;

/// Modifier bit: hidden.
pub const HIDDEN: u16 = 0b0000_1000_0000;

/// Modifier bit: crossed out.
pub const CROSSED_OUT: u16 = 0b0001_0000_0000;

/// A terminal color: the reset, the sixteen named palette entries, a
/// truecolor triple or a 256-color index.
#[derive(Debug, Clone, Copy, PartialEq, Eq, Structural)]
pub enum Color {
    Reset,
    Black,
    Red,
    Green,
    Yellow,
    Blue,
    Magenta,
    Cyan,
    Gray,
    DarkGray,
    LightRed,
    LightGreen,
    LightYellow,
    LightBlue,
    LightMagenta,
    LightCyan,
    White,
    Rgb(u8, u8, u8),
    Indexed(u8),
}

/// One screen cell: its symbol and style.
#[derive(Debug, Clone, PartialEq, Eq)]
pub struct Cell {
    pub symbol: String,
    pub fg: Color,
    pub bg: Color,
    pub modifier: u16,
}

/// What a region clear wipes.
#[derive(Debug, Clone, Copy, PartialEq, Eq, Structural)]
pub enum ClearType {
    All,
    AfterCursor,
    BeforeCursor,
    CurrentLine,
    UntilNewLine,
}

/// The SGR parameter of one modifier bit, when the bit is set.
pub open spec fn flag_code(modifier: u16, flag: u16, code: char) -> Seq<char> {
    if modifier & flag != 0 {
        seq![';', code]
    } else {
        Seq::empty()
    }
}

/// The SGR parameters of the modifier bits, in bit order.
pub open spec fn modifier_codes(m: u16) -> Seq<char> {
    flag_code(m, BOLD, '1') + flag_code(m, DIM, '2') + flag_code(m, ITALIC, '3') + flag_code(
        m,
        UNDERLINED,
        '4',
    ) + flag_code(m, SLOW_BLINK, '5') + flag_code(m, RAPID_BLINK, '6') + flag_code(
        m,
        REVERSED,
        '7',
    ) + flag_code(m, HIDDEN, '8') + flag_code(m, CROSSED_OUT, '9')
}

proof fn lemma_single_flags(m: u16)
    by (bit_vector)
    ensures
        ((m & 1u16) & 1u16 != 0) == (m & 1u16 != 0),
        (m & 1u16) & 2u16 == 0,
        (m & 1u16) & 4u16 == 0,
        (m & 1u16) & 8u16 == 0,
        (m & 1u16) & 16u16 == 0,
        (m & 1u16) & 32u16 == 0,
        (m & 1u16) & 64u16 == 0,
        (m & 1u16) & 128u16 == 0,
        (m & 1u16) & 256u16 == 0,
        (m & 2u16) & 1u16 == 0,
        ((m & 2u16) & 2u16 != 0) == (m & 2u16 != 0),
        (m & 2u16) & 4u16 == 0,
        (m & 2u16) & 8u16 == 0,
        (m & 2u16) & 16u16 == 0,
        (m & 2u16) & 32u16 == 0,
        (m & 2u16) & 64u16 == 0,
        (m & 2u16) & 128u16 == 0,
        (m & 2u16) & 256u16 == 0,
        (m & 4u16) & 1u16 == 0,
        (m & 4u16) & 2u16 == 0,
        ((m & 4u16) & 4u16 != 0) == (m & 4u16 != 0),
        (m & 4u16) & 8u16 == 0,
        (m & 4u16) & 16u16 == 0,
        (m & 4u16) & 32u16 == 0,
        (m & 4u16) & 64u16 == 0,
        (m & 4u16) & 128u16 == 0,
        (m & 4u16) & 256u16 == 0,
        (m & 8u16) & 1u16 == 0,
        (m & 8u16) & 2u16 == 0,
        (m & 8u16) & 4u16 == 0,
        ((m & 8u16) & 8u16 != 0) == (m & 8u16 != 0),
        (m & 8u16) & 16u16 == 0,
        (m & 8u16) & 32u16 == 0,
        (m & 8u16) & 64u16 == 0,
        (m & 8u16) & 128u16 == 0,
        (m & 8u16) & 256u16 == 0,
        (m & 16u16) & 1u16 == 0,
        (m & 16u16) & 2u16 == 0,
        (m & 16u16) & 4u16 == 0,
        (m & 16u16) & 8u16 == 0,
        ((m & 16u16) & 16u16 != 0) == (m & 16u16 != 0),
        (m & 16u16) & 32u16 == 0,
        (m & 16u16) & 64u16 == 0,
        (m & 16u16) & 128u16 == 0,
        (m & 16u16) & 256u16 == 0,
        (m & 32u16) & 1u16 == 0,
        (m & 32u16) & 2u16 == 0,
        (m & 32u16) & 4u16 == 0,
        (m & 32u16) & 8u16 == 0,
        (m & 32u16) & 16u16 == 0,
        ((m & 32u16) & 32u16 != 0) == (m & 32u16 != 0),
        (m & 32u16) & 64u16 == 0,
        (m & 32u16) & 128u16 == 0,
        (m & 32u16) & 256u16 == 0,
        (m & 64u16) & 1u16 == 0,
        (m & 64u16) & 2u16 == 0,
        (m & 64u16) & 4u16 == 0,
        (m & 64u16) & 8u16 == 0,
        (m & 64u16) & 16u16 == 0,
        (m & 64u16) & 32u16 == 0,
        ((m & 64u16) & 64u16 != 0) == (m & 64u16 != 0),
        (m & 64u16) & 128u16 == 0,
        (m & 64u16) & 256u16 == 0,
        (m & 128u16) & 1u16 == 0,
        (m & 128u16) & 2u16 == 0,
        (m & 128u16) & 4u16 == 0,
        (m & 128u16) & 8u16 == 0,
        (m & 128u16) & 16u16 == 0,
        (m & 128u16) & 32u16 == 0,
        (m & 128u16) & 64u16 == 0,
        ((m & 128u16) & 128u16 != 0) == (m & 128u16 != 0),
        (m & 128u16) & 256u16 == 0,
        (m & 256u16) & 1u16 == 0,
        (m & 256u16) & 2u16 == 0,
        (m & 256u16) & 4u16 == 0,
        (m & 256u16) & 8u16 == 0,
        (m & 256u16) & 16u16 == 0,
        (m & 256u16) & 32u16 == 0,
        (m & 256u16) & 64u16 == 0,
        (m & 256u16) & 128u16 == 0,
        ((m & 256u16) & 256u16 != 0) == (m & 256u16 != 0),
{
}

/// Each modifier bit has its own SGR parameter, `;1` for bold through `;9`
/// for crossed out (dim 2, italic 3, underlined 4, slow and rapid blink 5
/// and 6, reversed 7, hidden 8), and a style's parameters are those of its
/// bits in bit order.
pub proof fn law_modifier_parameters(m: u16)
    ensures
        modifier_codes(m & BOLD) == (if m & BOLD != 0 { seq![';', '1'] } else { Seq::empty() }),
        modifier_codes(m & DIM) == (if m & DIM != 0 { seq![';', '2'] } else { Seq::empty() }),
        modifier_codes(m & ITALIC) == (if m & ITALIC != 0 { seq![';', '3'] } else { Seq::empty() }),
        modifier_codes(m & UNDERLINED) == (if m & UNDERLINED != 0 { seq![';', '4'] } else { Seq::empty() }),
        modifier_codes(m & SLOW_BLINK) == (if m & SLOW_BLINK != 0 { seq![';', '5'] } else { Seq::empty() }),
        modifier_codes(m & RAPID_BLINK) == (if m & RAPID_BLINK != 0 { seq![';', '6'] } else { Seq::empty() }),
        modifier_codes(m & REVERSED) == (if m & REVERSED != 0 { seq![';', '7'] } else { Seq::empty() }),
        modifier_codes(m & HIDDEN) == (if m & HIDDEN != 0 { seq![';', '8'] } else { Seq::empty() }),
        modifier_codes(m & CROSSED_OUT) == (if m & CROSSED_OUT != 0 { seq![';', '9'] } else { Seq::empty() }),
        modifier_codes(m) == modifier_codes(m & BOLD) + modifier_codes(m & DIM) + modifier_codes(m & ITALIC)
            + modifier_codes(m & UNDERLINED) + modifier_codes(m & SLOW_BLINK) + modifier_codes(m & RAPID_BLINK)
            + modifier_codes(m & REVERSED) + modifier_codes(m & HIDDEN) + modifier_codes(m & CROSSED_OUT),
{
    lemma_single_flags(m);
    assert(modifier_codes(m & BOLD) =~= (if m & BOLD != 0 { seq![';', '1'] } else { Seq::empty() }));
    assert(modifier_codes(m & DIM) =~= (if m & DIM != 0 { seq![';', '2'] } else { Seq::empty() }));
    assert(modifier_codes(m & ITALIC) =~= (if m & ITALIC != 0 { seq![';', '3'] } else { Seq::empty() }));
    assert(modifier_codes(m & UNDERLINED) =~= (if m & UNDERLINED != 0 { seq![';', '4'] } else { Seq::empty() }));
    assert(modifier_codes(m & SLOW_BLINK) =~= (if m & SLOW_BLINK != 0 { seq![';', '5'] } else { Seq::empty() }));
    assert(modifier_codes(m & RAPID_BLINK) =~= (if m & RAPID_BLINK != 0 { seq![';', '6'] } else { Seq::empty() }));
    assert(modifier_codes(m & REVERSED) =~= (if m & REVERSED != 0 { seq![';', '7'] } else { Seq::empty() }));
    assert(modifier_codes(m & HIDDEN) =~= (if m & HIDDEN != 0 { seq![';', '8'] } else { Seq::empty() }));
    assert(modifier_codes(m & CROSSED_OUT) =~= (if m & CROSSED_OUT != 0 { seq![';', '9'] } else { Seq::empty() }));
    assert(modifier_codes(m) =~= modifier_codes(m & BOLD) + modifier_codes(m & DIM) + modifier_codes(m & ITALIC)
        + modifier_codes(m & UNDERLINED) + modifier_codes(m & SLOW_BLINK) + modifier_codes(m & RAPID_BLINK)
        + modifier_codes(m & REVERSED) + modifier_codes(m & HIDDEN) + modifier_codes(m & CROSSED_OUT));
}

/// The palette offset of a named color: `Some((offset, bright))`.
pub open spec fn palette(color: Color) -> Option<(int, bool)> {
    match color {
        Color::Black => Some((0, false)),
        Color::Red => Some((1, false)),
        Color::Green => Some((2, false)),
        Color::Yellow => Some((3, false)),
        Color::Blue => Some((4, false)),
        Color::Magenta => Some((5, false)),
        Color::Cyan => Some((6, false)),
        Color::Gray => Some((7, false)),
        Color::DarkGray => Some((0, true)),
        Color::LightRed => Some((1, true)),
        Color::LightGreen => Some((2, true)),
        Color::LightYellow => Some((3, true)),
        Color::LightBlue => Some((4, true)),
        Color::LightMagenta => Some((5, true)),
        Color::LightCyan => Some((6, true)),
        Color::White => Some((7, true)),
        _ => None,
    }
}

/// SGR color parameters: foreground codes from 30, background from 40,
/// bright entries 60 above; truecolor as `;38;2;r;g;b`, indexed as
/// `;38;5;i`; the reset adds nothing (the sequence's leading `0` implies
/// it).
pub open spec fn color_params(color: Color, foreground: bool) -> Seq<char> {
    let base: nat = if foreground {
        30
    } else {
        40
    };
    match color {
        Color::Reset => Seq::empty(),
        Color::Rgb(r, g, b) => seq![';'] + decimal(base + 8) + seq![';', '2', ';'] + decimal(
            r as nat,
        ) + seq![';'] + decimal(g as nat) + seq![';'] + decimal(b as nat),
        Color::Indexed(i) => seq![';'] + decimal(base + 8) + seq![';', '5', ';'] + decimal(
            i as nat,
        ),
        _ => {
            let (offset, bright) = palette(color)->0;
            seq![';'] + decimal(
                (base as int + (if bright {
                    60int
                } else {
                    0int
                }) + offset) as nat,
            )
        },
    }
}

/// The named colors take the standard ANSI SGR codes: Black, Red, Green,
/// Yellow, Blue, Magenta, Cyan and Gray are 30 to 37 as foregrounds and 40
/// to 47 as backgrounds, in that order; their bright variants (DarkGray to
/// White) 90 to 97 and 100 to 107.
pub proof fn law_named_colors_are_standard()
    ensures
        color_params(Color::Black, true) == seq![';', '3', '0'],
        color_params(Color::Black, false) == seq![';', '4', '0'],
        color_params(Color::Red, true) == seq![';', '3', '1'],
        color_params(Color::Red, false) == seq![';', '4', '1'],
        color_params(Color::Green, true) == seq![';', '3', '2'],
        color_params(Color::Green, false) == seq![';', '4', '2'],
        color_params(Color::Yellow, true) == seq![';', '3', '3'],
        color_params(Color::Yellow, false) == seq![';', '4', '3'],
        color_params(Color::Blue, true) == seq![';', '3', '4'],
        color_params(Color::Blue, false) == seq![';', '4', '4'],
        color_params(Color::Magenta, true) == seq![';', '3', '5'],
        color_params(Color::Magenta, false) == seq![';', '4', '5'],
        color_params(Color::Cyan, true) == seq![';', '3', '6'],
        color_params(Color::Cyan, false) == seq![';', '4', '6'],
        color_params(Color::Gray, true) == seq![';', '3', '7'],
        color_params(Color::Gray, false) == seq![';', '4', '7'],
        color_params(Color::DarkGray, true) == seq![';', '9', '0'],
        color_params(Color::DarkGray, false) == seq![';', '1', '0', '0'],
        color_params(Color::LightRed, true) == seq![';', '9', '1'],
        color_params(Color::LightRed, false) == seq![';', '1', '0', '1'],
        color_params(Color::LightGreen, true) == seq![';', '9', '2'],
        color_params(Color::LightGreen, false) == seq![';', '1', '0', '2'],
        color_params(Color::LightYellow, true) == seq![';', '9', '3'],
        color_params(Color::LightYellow, false) == seq![';', '1', '0', '3'],
        color_params(Color::LightBlue, true) == seq![';', '9', '4'],
        color_params(Color::LightBlue, false) == seq![';', '1', '0', '4'],
        color_params(Color::LightMagenta, true) == seq![';', '9', '5'],
        color_params(Color::LightMagenta, false) == seq![';', '1', '0', '5'],
        color_params(Color::LightCyan, true) == seq![';', '9', '6'],
        color_params(Color::LightCyan, false) == seq![';', '1', '0', '6'],
        color_params(Color::White, true) == seq![';', '9', '7'],
        color_params(Color::White, false) == seq![';', '1', '0', '7'],
{
    reveal_with_fuel(decimal, 4);
    assert(decimal(30) =~= seq!['3', '0']);
    assert(decimal(31) =~= seq!['3', '1']);
    assert(decimal(32) =~= seq!['3', '2']);
    assert(decimal(33) =~= seq!['3', '3']);
    assert(decimal(34) =~= seq!['3', '4']);
    assert(decimal(35) =~= seq!['3', '5']);
    assert(decimal(36) =~= seq!['3', '6']);
    assert(decimal(37) =~= seq!['3', '7']);
    assert(decimal(40) =~= seq!['4', '0']);
    assert(decimal(41) =~= seq!['4', '1']);
    assert(decimal(42) =~= seq!['4', '2']);
    assert(decimal(43) =~= seq!['4', '3']);
    assert(decimal(44) =~= seq!['4', '4']);
    assert(decimal(45) =~= seq!['4', '5']);
    assert(decimal(46) =~= seq!['4', '6']);
    assert(decimal(47) =~= seq!['4', '7']);
    assert(decimal(90) =~= seq!['9', '0']);
    assert(decimal(91) =~= seq!['9', '1']);
    assert(decimal(92) =~= seq!['9', '2']);
    assert(decimal(93) =~= seq!['9', '3']);
    assert(decimal(94) =~= seq!['9', '4']);
    assert(decimal(95) =~= seq!['9', '5']);
    assert(decimal(96) =~= seq!['9', '6']);
    assert(decimal(97) =~= seq!['9', '7']);
    assert(decimal(100) =~= seq!['1', '0', '0']);
    assert(decimal(101) =~= seq!['1', '0', '1']);
    assert(decimal(102) =~= seq!['1', '0', '2']);
    assert(decimal(103) =~= seq!['1', '0', '3']);
    assert(decimal(104) =~= seq!['1', '0', '4']);
    assert(decimal(105) =~= seq!['1', '0', '5']);
    assert(decimal(106) =~= seq!['1', '0', '6']);
    assert(decimal(107) =~= seq!['1', '0', '7']);
}

/// The reset adds no parameter (the sequence's leading `0` resets); a
/// truecolor is `38;2;r;g;b` as a foreground and `48;2;r;g;b` as a
/// background, an indexed color `38;5;i` and `48;5;i`, each number in
/// decimal.
pub proof fn law_extended_colors(r: u8, g: u8, b: u8, foreground: bool)
    ensures
        color_params(Color::Reset, foreground).len() == 0,
        color_params(Color::Rgb(r, g, b), foreground) == seq![';', if foreground { '3' } else { '4' }, '8', ';', '2', ';']
            + decimal(r as nat) + seq![';'] + decimal(g as nat) + seq![';'] + decimal(b as nat),
        color_params(Color::Indexed(r), foreground) == seq![';', if foreground { '3' } else { '4' }, '8', ';', '5', ';']
            + decimal(r as nat),
{
    reveal_with_fuel(decimal, 2);
    assert(decimal(38) =~= seq!['3', '8']);
    assert(decimal(48) =~= seq!['4', '8']);
    assert(color_params(Color::Rgb(r, g, b), foreground) =~= seq![';', if foreground { '3' } else { '4' }, '8', ';', '2', ';']
        + decimal(r as nat) + seq![';'] + decimal(g as nat) + seq![';'] + decimal(b as nat));
    assert(color_params(Color::Indexed(r), foreground) =~= seq![';', if foreground { '3' } else { '4' }, '8', ';', '5', ';']
        + decimal(r as nat));
}

/// Reset-then-set: one SGR sequence per style run, `ESC[0` then the
/// modifier parameters, the foreground, the background and `m`.
pub open spec fn sgr(fg: Color, bg: Color, modifier: u16) -> Seq<char> {
    seq!['\x1b', '[', '0'] + modifier_codes(modifier) + color_params(fg, true) + color_params(
        bg,
        false,
    ) + seq!['m']
}

/// The cursor move to a cell: `ESC[row;colH`, one-based.
pub open spec fn cursor_move(x: u16, y: u16) -> Seq<char> {
    seq!['\x1b', '['] + decimal((y + 1) as nat) + seq![';'] + decimal((x + 1) as nat) + seq!['H']
}

fn push_flag(out: &mut String, modifier: u16, flag: u16, code: char)
    ensures
        final(out)@ == old(out)@ + flag_code(modifier, flag, code),
{
    if modifier & flag != 0 {
        push_char(out, ';');
        push_char(out, code);
        assert(old(out)@.push(';').push(code) =~= old(out)@ + seq![';', code]);
    } else {
        assert(old(out)@ + Seq::<char>::empty() =~= old(out)@);
    }
}

/// SGR color parameters; the reset (39/49) is implied by the leading `0`.
pub fn write_color(out: &mut String, color: Color, foreground: bool)
    ensures
        final(out)@ == old(out)@ + color_params(color, foreground),
{
    let base: u32 = if foreground {
        30
    } else {
        40
    };
    let code: u32 = match color {
        Color::Reset => {
            assert(old(out)@ + Seq::<char>::empty() =~= old(out)@);
            return ;
        },
        Color::Black => base,
        Color::Red => base + 1,
        Color::Green => base + 2,
        Color::Yellow => base + 3,
        Color::Blue => base + 4,
        Color::Magenta => base + 5,
        Color::Cyan => base + 6,
        Color::Gray => base + 7,
        Color::DarkGray => base + 60,
        Color::LightRed => base + 61,
        Color::LightGreen => base + 62,
        Color::LightYellow => base + 63,
        Color::LightBlue => base + 64,
        Color::LightMagenta => base + 65,
        Color::LightCyan => base + 66,
        Color::White => base + 67,
        Color::Rgb(r, g, b) => {
            push_char(out, ';');
            push_decimal(out, (base + 8) as u64);
            push_char(out, ';');
            push_char(out, '2');
            push_char(out, ';');
            push_decimal(out, r as u64);
            push_char(out, ';');
            push_decimal(out, g as u64);
            push_char(out, ';');
            push_decimal(out, b as u64);
            assert(final(out)@ =~= old(out)@ + color_params(color, foreground));
            return ;
        },
        Color::Indexed(index) => {
            push_char(out, ';');
            push_decimal(out, (base + 8) as u64);
            push_char(out, ';');
            push_char(out, '5');
            push_char(out, ';');
            push_decimal(out, index as u64);
            assert(final(out)@ =~= old(out)@ + color_params(color, foreground));
            return ;
        },
    };
    push_char(out, ';');
    push_decimal(out, code as u64);
    assert(final(out)@ =~= old(out)@ + color_params(color, foreground));
}

/// Reset-then-set: one SGR sequence per style run, no incremental
/// diffing.
pub fn write_sgr(out: &mut String, cell: &Cell)
    ensures
        final(out)@ == old(out)@ + sgr(cell.fg, cell.bg, cell.modifier),
{
    let ghost start = old(out)@;
    push_char(out, '\x1b');
    push_char(out, '[');
    push_char(out, '0');
    let ghost head = out@;
    assert(head =~= start + seq!['\x1b', '[', '0']);
    let m = cell.modifier;
    write_modifiers(out, m);
    let ghost mods = out@;
    write_color(out, cell.fg, true);
    let ghost fg = out@;
    write_color(out, cell.bg, false);
    let ghost bg = out@;
    push_char(out, 'm');
    assert(final(out)@ =~= old(out)@ + sgr(cell.fg, cell.bg, cell.modifier));
}

/// The SGR parameters of the modifier bits.
#[verifier::spinoff_prover]
#[verifier::rlimit(40)]
fn write_modifiers(out: &mut String, m: u16)
    ensures
        final(out)@ == old(out)@ + modifier_codes(m),
{
    let ghost start = old(out)@;
    let ghost mut acc = Seq::<char>::empty();
    assert(out@ =~= start + acc);
    push_flag(out, m, BOLD, '1');
    proof {
        assert((start + acc) + flag_code(m, BOLD, '1') =~= start + (acc + flag_code(m, BOLD, '1')));
        acc = acc + flag_code(m, BOLD, '1');
    }
    push_flag(out, m, DIM, '2');
    proof {
        assert((start + acc) + flag_code(m, DIM, '2') =~= start + (acc + flag_code(m, DIM, '2')));
        acc = acc + flag_code(m, DIM, '2');
    }
    push_flag(out, m, ITALIC, '3');
    proof {
        assert((start + acc) + flag_code(m, ITALIC, '3') =~= start + (acc + flag_code(m, ITALIC, '3')));
        acc = acc + flag_code(m, ITALIC, '3');
    }
    push_flag(out, m, UNDERLINED, '4');
    proof {
        assert((start + acc) + flag_code(m, UNDERLINED, '4') =~= start + (acc + flag_code(m, UNDERLINED, '4')));
        acc = acc + flag_code(m, UNDERLINED, '4');
    }
    push_flag(out, m, SLOW_BLINK, '5');
    proof {
        assert((start + acc) + flag_code(m, SLOW_BLINK, '5') =~= start + (acc + flag_code(m, SLOW_BLINK, '5')));
        acc = acc + flag_code(m, SLOW_BLINK, '5');
    }
    push_flag(out, m, RAPID_BLINK, '6');
    proof {
        assert((start + acc) + flag_code(m, RAPID_BLINK, '6') =~= start + (acc + flag_code(m, RAPID_BLINK, '6')));
        acc = acc + flag_code(m, RAPID_BLINK, '6');
    }
    push_flag(out, m, REVERSED, '7');
    proof {
        assert((start + acc) + flag_code(m, REVERSED, '7') =~= start + (acc + flag_code(m, REVERSED, '7')));
        acc = acc + flag_code(m, REVERSED, '7');
    }
    push_flag(out, m, HIDDEN, '8');
    proof {
        assert((start + acc) + flag_code(m, HIDDEN, '8') =~= start + (acc + flag_code(m, HIDDEN, '8')));
        acc = acc + flag_code(m, HIDDEN, '8');
    }
    push_flag(out, m, CROSSED_OUT, '9');
    proof {
        assert((start + acc) + flag_code(m, CROSSED_OUT, '9') =~= start + (acc + flag_code(m, CROSSED_OUT, '9')));
        acc = acc + flag_code(m, CROSSED_OUT, '9');
    }
    assert(acc == modifier_codes(m));
    assert(final(out)@ =~= old(out)@ + modifier_codes(m));
}

/// Appends the cursor move to a cell.
pub fn write_cursor_move(out: &mut String, x: u16, y: u16)
    requires
        x < u16::MAX,
        y < u16::MAX,
    ensures
        final(out)@ == old(out)@ + cursor_move(x, y),
{
    push_char(out, '\x1b');
    push_char(out, '[');
    push_decimal(out, (y + 1) as u64);
    push_char(out, ';');
    push_decimal(out, (x + 1) as u64);
    push_char(out, 'H');
    assert(final(out)@ =~= old(out)@ + cursor_move(x, y));
}

/// The shadow grid's view: rows of cells of symbols.
pub open spec fn grid_view(grid: Seq<Vec<String>>) -> Seq<Seq<Seq<char>>> {
    grid.map_values(|row: Vec<String>| row_view(row@))
}

/// A row's view: its cells' symbols.
pub open spec fn row_view(row: Seq<String>) -> Seq<Seq<char>> {
    row.map_values(|cell: String| cell@)
}

/// A blank row: every cell a space.
pub open spec fn blank_row(cols: nat) -> Seq<Seq<char>> {
    Seq::new(cols, |c: int| seq![' '])
}

/// A blank grid: every cell a space.
pub open spec fn blank_grid(cols: nat, rows: nat) -> Seq<Seq<Seq<char>>> {
    Seq::new(rows, |r: int| blank_row(cols))
}

proof fn lemma_row_view_push(r: Seq<String>, c: String)
    ensures
        row_view(r.push(c)) == row_view(r).push(c@),
{
    assert(row_view(r.push(c)) =~= row_view(r).push(c@));
}

proof fn lemma_row_view_update(r: Seq<String>, k: int, c: String)
    requires
        0 <= k < r.len(),
    ensures
        row_view(r.update(k, c)) == row_view(r).update(k, c@),
{
    assert(row_view(r.update(k, c)) =~= row_view(r).update(k, c@));
}

proof fn lemma_grid_view_push(g: Seq<Vec<String>>, row: Vec<String>)
    ensures
        grid_view(g.push(row)) == grid_view(g).push(row_view(row@)),
{
    assert(grid_view(g.push(row)) =~= grid_view(g).push(row_view(row@)));
}

proof fn lemma_grid_view_update(g: Seq<Vec<String>>, k: int, row: Vec<String>)
    requires
        0 <= k < g.len(),
    ensures
        grid_view(g.update(k, row)) == grid_view(g).update(k, row_view(row@)),
{
    assert(grid_view(g.update(k, row)) =~= grid_view(g).update(k, row_view(row@)));
}

proof fn lemma_blank_push(cols: nat, rows: nat)
    ensures
        blank_row(cols + 1) == blank_row(cols).push(seq![' ']),
        blank_grid(cols, rows + 1) == blank_grid(cols, rows).push(blank_row(cols)),
{
    assert(blank_row(cols + 1) =~= blank_row(cols).push(seq![' ']));
    assert(blank_grid(cols, rows + 1) =~= blank_grid(cols, rows).push(blank_row(cols)));
}

/// The column before `x`, wrapping at zero.
pub open spec fn column_before(x: u16) -> u16 {
    if x == 0 {
        u16::MAX
    } else {
        (x - 1) as u16
    }
}

/// The state of a draw pass over a run of cells: the escape stream so
/// far, the last cell written, the style in force, and the shadow grid.
pub struct DrawState {
    pub out: Seq<char>,
    pub last: Option<(u16, u16)>,
    pub style: Option<(Color, Color, u16)>,
    pub grid: Seq<Seq<Seq<char>>>,
}

/// One cell of a draw pass: the cursor moves only when the cell is not
/// the one right after the previous; the style is re-sent only when it
/// changed; the symbol follows and lands in the shadow grid when the grid
/// has that cell.
pub open spec fn draw_step(state: DrawState, x: u16, y: u16, cell: Cell) -> DrawState {
    let moved = if state.last != Some((column_before(x), y)) {
        state.out + cursor_move(x, y)
    } else {
        state.out
    };
    let styled = if state.style != Some((cell.fg, cell.bg, cell.modifier)) {
        moved + sgr(cell.fg, cell.bg, cell.modifier)
    } else {
        moved
    };
    let grid = if y < state.grid.len() && x < state.grid[y as int].len() {
        state.grid.update(y as int, state.grid[y as int].update(x as int, cell.symbol@))
    } else {
        state.grid
    };
    DrawState {
        out: styled + cell.symbol@,
        last: Some((x, y)),
        style: Some((cell.fg, cell.bg, cell.modifier)),
        grid,
    }
}

/// A draw pass over cells, from a grid.
pub open spec fn draw_fold(cells: Seq<(u16, u16, Cell)>, grid: Seq<Seq<Seq<char>>>) -> DrawState
    decreases cells.len(),
{
    if cells.len() == 0 {
        DrawState { out: Seq::empty(), last: None, style: None, grid }
    } else {
        let (x, y, cell) = cells.last();
        draw_step(draw_fold(cells.drop_last(), grid), x, y, cell)
    }
}

/// Removes trailing whitespace.
pub open spec fn trim_end(s: Seq<char>) -> Seq<char>
    decreases s.len(),
{
    if s.len() > 0 && is_unicode_ws(s.last()) {
        trim_end(s.drop_last())
    } else {
        s
    }
}

/// The symbols of a row, concatenated.
pub open spec fn concat(row: Seq<Seq<char>>) -> Seq<char>
    decreases row.len(),
{
    if row.len() == 0 {
        Seq::empty()
    } else {
        concat(row.drop_last()) + row.last()
    }
}

/// Lines joined by newlines.
pub open spec fn join_lines(lines: Seq<Seq<char>>) -> Seq<char>
    decreases lines.len(),
{
    if lines.len() == 0 {
        Seq::empty()
    } else if lines.len() == 1 {
        lines[0]
    } else {
        join_lines(lines.drop_last()) + seq!['\n'] + lines.last()
    }
}

/// The screen as text: each row's symbols with trailing blanks trimmed,
/// rows joined by newlines.
pub open spec fn screen_text_spec(grid: Seq<Seq<Seq<char>>>) -> Seq<char> {
    join_lines(grid.map_values(|row: Seq<Seq<char>>| trim_end(concat(row))))
}

/// The escape sequence of a region clear.
pub open spec fn clear_code(kind: ClearType) -> Seq<char> {
    match kind {
        ClearType::All => seq!['\x1b', '[', '2', 'J'],
        ClearType::AfterCursor => seq!['\x1b', '[', 'J'],
        ClearType::BeforeCursor => seq!['\x1b', '[', '1', 'J'],
        ClearType::CurrentLine => seq!['\x1b', '[', '2', 'K'],
        ClearType::UntilNewLine => seq!['\x1b', '[', 'K'],
    }
}

/// The terminal a browser pane shows: its size, cursor and the shadow grid
/// of symbols; drawing returns the escape stream for the pane.
pub struct XtermScreen {
    pub cols: u16,
    pub rows: u16,
    pub cursor_x: u16,
    pub cursor_y: u16,
    pub screen: Vec<Vec<String>>,
}

fn new_blank_row(cols: u16) -> (row: Vec<String>)
    ensures
        row_view(row@) == blank_row(cols as nat),
{
    let mut row: Vec<String> = Vec::new();
    let mut i: u16 = 0;
    while i < cols
        invariant
            i <= cols,
            row_view(row@) == blank_row(i as nat),
        decreases cols - i,
    {
        let mut cell = String::new();
        push_char(&mut cell, ' ');
        assert(cell@ =~= seq![' ']);
        let ghost before = row@;
        proof {
            lemma_row_view_push(before, cell);
            lemma_blank_push(i as nat, 0);
        }
        row.push(cell);
        i = i + 1;
    }
    row
}

fn blank(cols: u16, rows: u16) -> (grid: Vec<Vec<String>>)
    ensures
        grid_view(grid@) == blank_grid(cols as nat, rows as nat),
{
    let mut grid: Vec<Vec<String>> = Vec::new();
    let mut i: u16 = 0;
    while i < rows
        invariant
            i <= rows,
            grid_view(grid@) == blank_grid(cols as nat, i as nat),
        decreases rows - i,
    {
        let row = new_blank_row(cols);
        proof {
            lemma_grid_view_push(grid@, row);
            lemma_blank_push(cols as nat, i as nat);
        }
        grid.push(row);
        i = i + 1;
    }
    grid
}

impl XtermScreen {
    /// A blank screen of the given size, the cursor at the origin.
    pub fn new(cols: u16, rows: u16) -> (s: XtermScreen)
        ensures
            s.cols == cols,
            s.rows == rows,
            s.cursor_x == 0,
            s.cursor_y == 0,
            grid_view(s.screen@) == blank_grid(cols as nat, rows as nat),
    {
        XtermScreen { cols, rows, cursor_x: 0, cursor_y: 0, screen: blank(cols, rows) }
    }

    /// Resizes the reported terminal size (at least one cell each way); the
    /// shadow grid resets blank.
    pub fn resize(&mut self, cols: u16, rows: u16)
        ensures
            final(self).cols == if cols >= 1 {
                cols
            } else {
                1
            },
            final(self).rows == if rows >= 1 {
                rows
            } else {
                1
            },
            final(self).cursor_x == old(self).cursor_x,
            final(self).cursor_y == old(self).cursor_y,
            grid_view(final(self).screen@) == blank_grid(
                final(self).cols as nat,
                final(self).rows as nat,
            ),
    {
        self.cols = if cols >= 1 {
            cols
        } else {
            1
        };
        self.rows = if rows >= 1 {
            rows
        } else {
            1
        };
        self.screen = blank(self.cols, self.rows);
    }

    /// The screen as text rows, trailing blanks trimmed.
    pub fn screen_text(&self) -> (text: String)
        ensures
            text@ == screen_text_spec(grid_view(self.screen@)),
    {
        let ghost grid = grid_view(self.screen@);
        let ghost lines = grid.map_values(|row: Seq<Seq<char>>| trim_end(concat(row)));
        let mut text = String::new();
        let mut r: usize = 0;
        while r < self.screen.len()
            invariant
                0 <= r <= self.screen@.len(),
                grid == grid_view(self.screen@),
                lines == grid.map_values(|row: Seq<Seq<char>>| trim_end(concat(row))),
                text@ == join_lines(lines.take(r as int)),
            decreases self.screen@.len() - r,
        {
            let row = &self.screen[r];
            let mut line: Vec<char> = Vec::new();
            let mut c: usize = 0;
            while c < row.len()
                invariant
                    0 <= c <= row@.len(),
                    line@ == concat(row_view(row@).take(c as int)),
                decreases row@.len() - c,
            {
                let cell = chars_of(row[c].as_str());
                let ghost before = line@;
                let mut k: usize = 0;
                while k < cell.len()
                    invariant
                        0 <= k <= cell@.len(),
                        line@ == before + cell@.take(k as int),
                    decreases cell@.len() - k,
                {
                    line.push(cell[k]);
                    assert(before + cell@.take(k + 1) =~= (before + cell@.take(k as int)).push(
                        cell@[k as int],
                    ));
                    k = k + 1;
                }
                assert(cell@.take(cell@.len() as int) =~= cell@);
                assert(row_view(row@).take(c + 1).drop_last()
                    =~= row_view(row@).take(c as int));
                c = c + 1;
            }
            assert(row_view(row@).take(row@.len() as int)
                =~= row_view(row@));
            assert(grid[r as int] == row_view(row@));
            let ghost full = line@;
            while line.len() > 0 && is_unicode_ws_exec(line[line.len() - 1])
                invariant
                    trim_end(line@) == trim_end(full),
                decreases line@.len(),
            {
                let ghost prev = line@;
                line.pop();
                assert(line@ =~= prev.drop_last());
            }
            assert(line@ == trim_end(full));
            assert(lines.take(r + 1).drop_last() =~= lines.take(r as int));
            if r > 0 {
                push_char(&mut text, '\n');
            } else {
                assert(text@ =~= Seq::<char>::empty());
            }
            push_chars(&mut text, &line);
            assert(text@ =~= join_lines(lines.take(r + 1)));
            r = r + 1;
        }
        assert(lines.take(self.screen@.len() as int) =~= lines);
        text
    }

    /// Renders a run of cells: positions the cursor where the run breaks,
    /// re-sends the style where it changes, writes the symbols into the
    /// stream and the shadow grid, and ends with a style reset. Returns the
    /// escape stream.
    pub fn draw(&mut self, content: &Vec<(u16, u16, Cell)>) -> (out: String)
        requires
            forall|i: int|
                0 <= i < content@.len() ==> (#[trigger] content@[i]).0 < u16::MAX
                    && content@[i].1 < u16::MAX,
        ensures
            ({
                let pass = draw_fold(content@, grid_view(old(self).screen@));
                &&& out@ == pass.out + seq!['\x1b', '[', '0', 'm']
                &&& grid_view(final(self).screen@) == pass.grid
            }),
            final(self).cols == old(self).cols,
            final(self).rows == old(self).rows,
            final(self).cursor_x == old(self).cursor_x,
            final(self).cursor_y == old(self).cursor_y,
    {
        let ghost start = grid_view(self.screen@);
        let mut out = String::new();
        let mut last: Option<(u16, u16)> = None;
        let mut style: Option<(Color, Color, u16)> = None;
        let mut i: usize = 0;
        while i < content.len()
            invariant
                0 <= i <= content@.len(),
                forall|j: int|
                    0 <= j < content@.len() ==> (#[trigger] content@[j]).0 < u16::MAX
                        && content@[j].1 < u16::MAX,
                ({
                    let pass = draw_fold(content@.take(i as int), start);
                    &&& out@ == pass.out
                    &&& last == pass.last
                    &&& style == pass.style
                    &&& grid_view(self.screen@) == pass.grid
                }),
                self.cols == old(self).cols,
                self.rows == old(self).rows,
                self.cursor_x == old(self).cursor_x,
                self.cursor_y == old(self).cursor_y,
            decreases content@.len() - i,
        {
            let x = content[i].0;
            let y = content[i].1;
            let cell = &content[i].2;
            assert(content@.take(i + 1).drop_last() =~= content@.take(i as int));
            assert(content@.take(i + 1).last() == content@[i as int]);
            let before: u16 = if x == 0 {
                u16::MAX
            } else {
                x - 1
            };
            let adjacent = match last {
                Some((lx, ly)) => lx == before && ly == y,
                None => false,
            };
            if !adjacent {
                write_cursor_move(&mut out, x, y);
            }
            let current = (cell.fg, cell.bg, cell.modifier);
            let same = match style {
                Some((f, b, m)) => f == current.0 && b == current.1 && m == current.2,
                None => false,
            };
            if !same {
                write_sgr(&mut out, cell);
                style = Some(current);
            }
            let symbol = chars_of(cell.symbol.as_str());
            push_chars(&mut out, &symbol);
            let ghost grid_before = grid_view(self.screen@);
            if (y as usize) < self.screen.len() && (x as usize) < self.screen[y as usize].len() {
                let mut row: Vec<String> = Vec::new();
                std::mem::swap(&mut row, &mut self.screen[y as usize]);
                let ghost old_row = row@;
                assert(row_view(old_row) == grid_before[y as int]);
                let text = string_of(&symbol);
                proof {
                    lemma_row_view_update(old_row, x as int, text);
                }
                row.set(x as usize, text);
                let ghost mid = self.screen@;
                proof {
                    lemma_grid_view_update(mid, y as int, row);
                    assert(mid =~= self.screen@);
                }
                self.screen.set(y as usize, row);
                assert(grid_view(self.screen@) =~= grid_before.update(
                    y as int,
                    grid_before[y as int].update(x as int, cell.symbol@),
                ));
            }
            last = Some((x, y));
            i = i + 1;
        }
        assert(content@.take(content@.len() as int) =~= content@);
        push_char(&mut out, '\x1b');
        push_char(&mut out, '[');
        push_char(&mut out, '0');
        push_char(&mut out, 'm');
        assert(out@ =~= draw_fold(content@, start).out + seq!['\x1b', '[', '0', 'm']);
        out
    }

    /// Clears the pane and the shadow grid: the full-screen erase.
    pub fn clear(&mut self) -> (out: String)
        ensures
            out@ == clear_code(ClearType::All),
            final(self).cols == old(self).cols,
            final(self).rows == old(self).rows,
            final(self).cursor_x == old(self).cursor_x,
            final(self).cursor_y == old(self).cursor_y,
            grid_view(final(self).screen@).len() == grid_view(old(self).screen@).len(),
            forall|r: int|
                0 <= r < grid_view(final(self).screen@).len() ==> #[trigger] grid_view(
                    final(self).screen@,
                )[r] == blank_row(grid_view(old(self).screen@)[r].len()),
    {
        let ghost before = grid_view(self.screen@);
        let mut r: usize = 0;
        while r < self.screen.len()
            invariant
                0 <= r <= self.screen@.len(),
                self.screen@.len() == before.len(),
                self.cols == old(self).cols,
                self.rows == old(self).rows,
                self.cursor_x == old(self).cursor_x,
                self.cursor_y == old(self).cursor_y,
                forall|k: int|
                    0 <= k < r ==> #[trigger] grid_view(self.screen@)[k] == blank_row(before[k].len()),
                forall|k: int| r <= k < before.len() ==> #[trigger] grid_view(self.screen@)[k] == before[k],
            decreases self.screen@.len() - r,
        {
            let width = self.screen[r].len();
            assert(grid_view(self.screen@)[r as int] == row_view(self.screen@[r as int]@));
            assert(width == before[r as int].len());
            let mut row: Vec<String> = Vec::new();
            let mut c: usize = 0;
            while c < width
                invariant
                    c <= width,
                    row_view(row@) == blank_row(c as nat),
                decreases width - c,
            {
                let mut cell = String::new();
                push_char(&mut cell, ' ');
                assert(cell@ =~= seq![' ']);
                proof {
                    lemma_row_view_push(row@, cell);
                    lemma_blank_push(c as nat, 0);
                }
                row.push(cell);
                c = c + 1;
            }
            let ghost g = self.screen@;
            proof {
                lemma_grid_view_update(g, r as int, row);
            }
            self.screen.set(r, row);
            r = r + 1;
        }
        let mut out = String::new();
        push_chars(&mut out, &clear_code_chars(ClearType::All));
        out
    }

    /// Moves the cursor: records it and returns the move's escape
    /// sequence.
    pub fn set_cursor_position(&mut self, x: u16, y: u16) -> (out: String)
        requires
            x < u16::MAX,
            y < u16::MAX,
        ensures
            out@ == cursor_move(x, y),
            final(self).cursor_x == x,
            final(self).cursor_y == y,
            final(self).cols == old(self).cols,
            final(self).rows == old(self).rows,
            final(self).screen == old(self).screen,
    {
        self.cursor_x = x;
        self.cursor_y = y;
        let mut out = String::new();
        write_cursor_move(&mut out, x, y);
        assert(out@ =~= cursor_move(x, y));
        out
    }
}

/// The escape sequence of a region clear, as characters.
pub fn clear_code_chars(kind: ClearType) -> (v: Vec<char>)
    ensures
        v@ == clear_code(kind),
{
    let mut v = Vec::new();
    v.push('\x1b');
    v.push('[');
    match kind {
        ClearType::All => {
            v.push('2');
            v.push('J');
        },
        ClearType::AfterCursor => {
            v.push('J');
        },
        ClearType::BeforeCursor => {
            v.push('1');
            v.push('J');
        },
        ClearType::CurrentLine => {
            v.push('2');
            v.push('K');
        },
        ClearType::UntilNewLine => {
            v.push('K');
        },
    }
    assert(v@ =~= clear_code(kind));
    v
}

/// The escape sequence of a region clear.
pub fn clear_region(kind: ClearType) -> (s: String)
    ensures
        s@ == clear_code(kind),
{
    string_of(&clear_code_chars(kind))
}

/// The escape stream a backend produced that the host has not taken yet;
/// the host drains it after each draw and hands it to the pane.
pub struct Output {
    pending: String,
}

impl View for Output {
    type V = Seq<char>;

    closed spec fn view(&self) -> Seq<char> {
        self.pending@
    }
}

impl Output {
    /// Nothing pending.
    pub fn new() -> (output: Output)
        ensures
            output@ == Seq::<char>::empty(),
    {
        Output { pending: String::new() }
    }

    /// Appends an escape stream to what is pending.
    pub fn push(&mut self, ansi: &str)
        ensures
            final(self)@ == old(self)@ + ansi@,
    {
        push_chars(&mut self.pending, &chars_of(ansi));
    }

    /// Everything pending, in the order it was pushed; nothing stays
    /// pending after.
    pub fn take(&mut self) -> (taken: String)
        ensures
            taken@ == old(self)@,
            final(self)@ == Seq::<char>::empty(),
    {
        let mut taken = String::new();
        std::mem::swap(&mut taken, &mut self.pending);
        taken
    }
}

/// The symbol of the last cell of a run drawn at `(x, y)`, if any.
pub open spec fn last_symbol_at(cells: Seq<(u16, u16, Cell)>, x: u16, y: u16) -> Option<Seq<char>>
    decreases cells.len(),
{
    if cells.len() == 0 {
        None
    } else {
        let (cx, cy, cell) = cells.last();
        if cx == x && cy == y {
            Some(cell.symbol@)
        } else {
            last_symbol_at(cells.drop_last(), x, y)
        }
    }
}

/// Whether two grids have the same rows, each of the same width.
pub open spec fn same_shape(a: Seq<Seq<Seq<char>>>, b: Seq<Seq<Seq<char>>>) -> bool {
    &&& a.len() == b.len()
    &&& forall|r: int| 0 <= r < a.len() ==> #[trigger] a[r].len() == b[r].len()
}

/// Drawing never changes the shadow grid's shape: cells outside it are
/// streamed but not recorded.
pub proof fn law_draw_keeps_shape(cells: Seq<(u16, u16, Cell)>, grid: Seq<Seq<Seq<char>>>)
    ensures
        same_shape(draw_fold(cells, grid).grid, grid),
    decreases cells.len(),
{
    if cells.len() > 0 {
        law_draw_keeps_shape(cells.drop_last(), grid);
        let before = draw_fold(cells.drop_last(), grid).grid;
        let after = draw_fold(cells, grid).grid;
        assert forall|r: int| 0 <= r < after.len() implies #[trigger] after[r].len() == grid[r].len() by {
            assert(before[r].len() == grid[r].len());
        }
    }
}

/// After a draw, each cell of the shadow grid holds the symbol of the last
/// cell of the run drawn there, or what it held before when none was.
pub proof fn law_draw_last_write_wins(
    cells: Seq<(u16, u16, Cell)>,
    grid: Seq<Seq<Seq<char>>>,
    x: u16,
    y: u16,
)
    requires
        y < grid.len(),
        x < grid[y as int].len(),
    ensures
        draw_fold(cells, grid).grid[y as int][x as int] == match last_symbol_at(cells, x, y) {
            Some(symbol) => symbol,
            None => grid[y as int][x as int],
        },
    decreases cells.len(),
{
    if cells.len() > 0 {
        law_draw_last_write_wins(cells.drop_last(), grid, x, y);
        law_draw_keeps_shape(cells.drop_last(), grid);
        let before = draw_fold(cells.drop_last(), grid).grid;
        assert(before[y as int].len() == grid[y as int].len());
    }
}

/// Hides the pane's cursor.
pub fn hide_cursor_code() -> (s: String)
    ensures
        s@ == seq!['\x1b', '[', '?', '2', '5', 'l'],
{
    let mut s = String::new();
    push_char(&mut s, '\x1b');
    push_char(&mut s, '[');
    push_char(&mut s, '?');
    push_char(&mut s, '2');
    push_char(&mut s, '5');
    push_char(&mut s, 'l');
    assert(s@ =~= seq!['\x1b', '[', '?', '2', '5', 'l']);
    s
}

/// Shows the pane's cursor.
pub fn show_cursor_code() -> (s: String)
    ensures
        s@ == seq!['\x1b', '[', '?', '2', '5', 'h'],
{
    let mut s = String::new();
    push_char(&mut s, '\x1b');
    push_char(&mut s, '[');
    push_char(&mut s, '?');
    push_char(&mut s, '2');
    push_char(&mut s, '5');
    push_char(&mut s, 'h');
    assert(s@ =~= seq!['\x1b', '[', '?', '2', '5', 'h']);
    s
}

} // verus!
