//! Browser dialogs for terminal hosts: one centered box painted after the
//! document and a keystroke handler the host routes to first while the box
//! shows. Alert acknowledges, confirm decides, prompt collects a line.
//! Hosts own the modality — paint last, route first; this module is the
//! box's state, its key handling and its geometry.

use vstd::prelude::*;

use crate::geometry::Rect;
use crate::keys::{lemma_names, KeyStroke};
use crate::strings::{chars_eq_str, chars_of, is_control, is_control_exec, pop_char, push_chars};
use crate::text::{is_word, join_words, lemma_scan_words, lemma_split_words, scan, split_words, split_words_exec};

verus! {

/// What the dialog asks and how it answers.
#[derive(Debug, Clone, Copy, PartialEq, Eq, Structural)]
pub enum DialogKind {
    Alert,
    Confirm,
    Prompt,
}

/// Which button holds the keyboard.
#[derive(Debug, Clone, Copy, PartialEq, Eq, Structural)]
pub enum DialogChoice {
    Accept,
    Cancel,
}

/// What a keystroke did: the box stays open, or it answered.
#[derive(Debug, Clone, Copy, PartialEq, Eq, Structural)]
pub enum DialogOutcome {
    Open,
    Accept,
    Cancel,
}

/// The box a host paints and routes to. The labels default to ok/cancel;
/// a host asking its own question puts its own words on them.
#[derive(Debug, Clone, PartialEq, Eq)]
pub struct Dialog {
    pub kind: DialogKind,
    pub title: String,
    pub message: String,
    /// The prompt's line of text; unused for alert and confirm.
    pub input: String,
    pub focus: DialogChoice,
    pub ok_label: String,
    pub cancel_label: String,
}

/// One printable character — the DOM key name of a text key.
pub open spec fn printable_spec(key: Seq<char>) -> bool {
    key.len() == 1 && !is_control(key[0])
}

/// The other button.
pub open spec fn toggled(focus: DialogChoice) -> DialogChoice {
    match focus {
        DialogChoice::Accept => DialogChoice::Cancel,
        DialogChoice::Cancel => DialogChoice::Accept,
    }
}

/// One keystroke on a dialog of the given kind, focus and input line:
/// the outcome, the new focus and the new input line. Modifier chords stay
/// with the host; Escape cancels; Enter answers with the focused button;
/// Tab and the horizontal arrows move the focus (alerts have one button);
/// a prompt edits its line, where y and n are letters; a confirm takes
/// y/n shortcuts.
pub open spec fn dialog_step(
    kind: DialogKind,
    focus: DialogChoice,
    input: Seq<char>,
    key: Seq<char>,
    ctrl: bool,
    alt: bool,
    meta: bool,
) -> (DialogOutcome, DialogChoice, Seq<char>) {
    if ctrl || alt || meta {
        (DialogOutcome::Open, focus, input)
    } else if key == "Escape"@ {
        (DialogOutcome::Cancel, focus, input)
    } else if key == "Enter"@ {
        (
            match focus {
                DialogChoice::Accept => DialogOutcome::Accept,
                DialogChoice::Cancel => DialogOutcome::Cancel,
            },
            focus,
            input,
        )
    } else if (key == "Tab"@ || key == "ArrowLeft"@ || key == "ArrowRight"@) && kind
        != DialogKind::Alert {
        (DialogOutcome::Open, toggled(focus), input)
    } else if key == "Backspace"@ && kind == DialogKind::Prompt {
        (DialogOutcome::Open, focus, if input.len() > 0 {
            input.drop_last()
        } else {
            input
        })
    } else if kind == DialogKind::Prompt && printable_spec(key) {
        (DialogOutcome::Open, focus, input + key)
    } else if key == "y"@ && kind == DialogKind::Confirm {
        (DialogOutcome::Accept, focus, input)
    } else if key == "n"@ && kind == DialogKind::Confirm {
        (DialogOutcome::Cancel, focus, input)
    } else {
        (DialogOutcome::Open, focus, input)
    }
}

/// One printable character — the DOM key name of a text key.
pub fn printable(key: &str) -> (r: bool)
    ensures
        r == printable_spec(key@),
{
    let cs = chars_of(key);
    cs.len() == 1 && !is_control_exec(cs[0])
}

impl Dialog {
    fn new(kind: DialogKind, title: &str, message: &str) -> (d: Dialog)
        ensures
            d.kind == kind,
            d.title@ == title@,
            d.message@ == message@,
            d.input@ == Seq::<char>::empty(),
            d.focus == DialogChoice::Accept,
            d.ok_label@ == "ok"@,
            d.cancel_label@ == "cancel"@,
    {
        Dialog {
            kind,
            title: title.to_owned(),
            message: message.to_owned(),
            input: String::new(),
            focus: DialogChoice::Accept,
            ok_label: "ok".to_owned(),
            cancel_label: "cancel".to_owned(),
        }
    }

    /// An alert: one ok button, titled `alert`.
    pub fn alert(message: &str) -> (d: Dialog)
        ensures
            d.kind == DialogKind::Alert,
            d.title@ == "alert"@,
            d.message@ == message@,
            d.input@ == Seq::<char>::empty(),
            d.focus == DialogChoice::Accept,
            d.ok_label@ == "ok"@,
            d.cancel_label@ == "cancel"@,
    {
        Self::new(DialogKind::Alert, "alert", message)
    }

    /// A confirm: ok and cancel, titled `confirm`.
    pub fn confirm(message: &str) -> (d: Dialog)
        ensures
            d.kind == DialogKind::Confirm,
            d.title@ == "confirm"@,
            d.message@ == message@,
            d.input@ == Seq::<char>::empty(),
            d.focus == DialogChoice::Accept,
            d.ok_label@ == "ok"@,
            d.cancel_label@ == "cancel"@,
    {
        Self::new(DialogKind::Confirm, "confirm", message)
    }

    /// A prompt: a line of text seeded with `default`, titled `prompt`.
    pub fn prompt(message: &str, default: &str) -> (d: Dialog)
        ensures
            d.kind == DialogKind::Prompt,
            d.title@ == "prompt"@,
            d.message@ == message@,
            d.input@ == default@,
            d.focus == DialogChoice::Accept,
            d.ok_label@ == "ok"@,
            d.cancel_label@ == "cancel"@,
    {
        Dialog { input: default.to_owned(), ..Self::new(DialogKind::Prompt, "prompt", message) }
    }

    /// Routes one keystroke: Enter answers with the focused button, Escape
    /// cancels, Tab and the horizontal arrows move the focus, confirm takes
    /// y/n shortcuts, and a prompt eats printables into its line. Modifier
    /// chords stay with the host (Ctrl+C keeps quitting there).
    pub fn key(&mut self, stroke: &KeyStroke) -> (outcome: DialogOutcome)
        ensures
            (outcome, final(self).focus, final(self).input@) == dialog_step(
                old(self).kind,
                old(self).focus,
                old(self).input@,
                stroke.key@,
                stroke.ctrl,
                stroke.alt,
                stroke.meta,
            ),
            final(self).kind == old(self).kind,
            final(self).title == old(self).title,
            final(self).message == old(self).message,
            final(self).ok_label == old(self).ok_label,
            final(self).cancel_label == old(self).cancel_label,
    {
        if stroke.ctrl || stroke.alt || stroke.meta {
            return DialogOutcome::Open;
        }
        let key = chars_of(stroke.key.as_str());
        if chars_eq_str(&key, "Escape") {
            DialogOutcome::Cancel
        } else if chars_eq_str(&key, "Enter") {
            match self.focus {
                DialogChoice::Accept => DialogOutcome::Accept,
                DialogChoice::Cancel => DialogOutcome::Cancel,
            }
        } else if (chars_eq_str(&key, "Tab") || chars_eq_str(&key, "ArrowLeft") || chars_eq_str(
            &key,
            "ArrowRight",
        )) && self.kind != DialogKind::Alert {
            self.focus =
            match self.focus {
                DialogChoice::Accept => DialogChoice::Cancel,
                DialogChoice::Cancel => DialogChoice::Accept,
            };
            DialogOutcome::Open
        } else if chars_eq_str(&key, "Backspace") && self.kind == DialogKind::Prompt {
            let _ = pop_char(&mut self.input);
            DialogOutcome::Open
        } else if self.kind == DialogKind::Prompt && printable(stroke.key.as_str()) {
            push_chars(&mut self.input, &key);
            DialogOutcome::Open
        } else if chars_eq_str(&key, "y") && self.kind == DialogKind::Confirm {
            DialogOutcome::Accept
        } else if chars_eq_str(&key, "n") && self.kind == DialogKind::Confirm {
            DialogOutcome::Cancel
        } else {
            DialogOutcome::Open
        }
    }
}

proof fn lemma_shortcuts()
    ensures
        "y"@ == seq!['y'],
        "n"@ == seq!['n'],
{
    reveal_strlit("y");
    reveal_strlit("n");
}

/// Modifier chords stay with the host: a chord leaves the dialog as it was
/// and keeps it open.
pub proof fn law_chords_stay_with_host(
    kind: DialogKind,
    focus: DialogChoice,
    input: Seq<char>,
    key: Seq<char>,
    ctrl: bool,
    alt: bool,
    meta: bool,
)
    requires
        ctrl || alt || meta,
    ensures
        dialog_step(kind, focus, input, key, ctrl, alt, meta) == (DialogOutcome::Open, focus, input),
{
}

/// Escape cancels every dialog, whatever holds the focus.
pub proof fn law_escape_cancels(kind: DialogKind, focus: DialogChoice, input: Seq<char>)
    ensures
        dialog_step(kind, focus, input, "Escape"@, false, false, false) == (
            DialogOutcome::Cancel,
            focus,
            input,
        ),
{
}

/// Enter answers with the focused button.
pub proof fn law_enter_answers_focus(kind: DialogKind, focus: DialogChoice, input: Seq<char>)
    ensures
        dialog_step(kind, focus, input, "Enter"@, false, false, false).0 == (match focus {
            DialogChoice::Accept => DialogOutcome::Accept,
            DialogChoice::Cancel => DialogOutcome::Cancel,
        }),
{
    lemma_names();
}

/// An alert has one button: no key moves its focus.
pub proof fn law_alert_keeps_focus(
    focus: DialogChoice,
    input: Seq<char>,
    key: Seq<char>,
    ctrl: bool,
    alt: bool,
    meta: bool,
)
    ensures
        dialog_step(DialogKind::Alert, focus, input, key, ctrl, alt, meta).1 == focus,
{
}

/// Only a prompt has a line of text: alert and confirm keep theirs
/// untouched.
pub proof fn law_line_only_in_prompt(
    kind: DialogKind,
    focus: DialogChoice,
    input: Seq<char>,
    key: Seq<char>,
    ctrl: bool,
    alt: bool,
    meta: bool,
)
    requires
        kind != DialogKind::Prompt,
    ensures
        dialog_step(kind, focus, input, key, ctrl, alt, meta).2 == input,
{
}

/// Moving the focus twice returns it to where it was.
pub proof fn law_focus_moves_back(
    kind: DialogKind,
    focus: DialogChoice,
    input: Seq<char>,
    key: Seq<char>,
)
    requires
        kind != DialogKind::Alert,
        key == "Tab"@ || key == "ArrowLeft"@ || key == "ArrowRight"@,
    ensures
        ({
            let first = dialog_step(kind, focus, input, key, false, false, false);
            let second = dialog_step(kind, first.1, first.2, key, false, false, false);
            &&& first.0 == DialogOutcome::Open
            &&& first.1 != focus
            &&& second.1 == focus
            &&& second.2 == input
        }),
{
    lemma_names();
}

/// In a prompt, a typed character lands at the end of the line (y and n
/// included) and Backspace takes it off again.
pub proof fn law_backspace_undoes_typing(focus: DialogChoice, input: Seq<char>, c: char)
    requires
        !is_control(c),
    ensures
        ({
            let typed = dialog_step(DialogKind::Prompt, focus, input, seq![c], false, false, false);
            let erased = dialog_step(
                DialogKind::Prompt,
                typed.1,
                typed.2,
                "Backspace"@,
                false,
                false,
                false,
            );
            &&& typed == (DialogOutcome::Open, focus, input.push(c))
            &&& erased == (DialogOutcome::Open, focus, input)
        }),
{
    lemma_names();
    lemma_shortcuts();
    assert(input + seq![c] =~= input.push(c));
    assert(input.push(c).drop_last() =~= input);
}

/// The words of a message and their lengths in characters.
pub open spec fn char_counts(words: Seq<Seq<char>>) -> Seq<int> {
    words.map_values(|w: Seq<char>| w.len() as int)
}

/// Breaks the rest of an overlong word across lines from column `column`:
/// the extra lines it takes and the column where it ends.
pub open spec fn box_spill(column: int, length: int, width: int) -> (int, int)
    decreases length,
{
    if column + length > width && column < width {
        let (extra, end) = box_spill(0, length - (width - column), width);
        (extra + 1, end)
    } else {
        (0, column + length)
    }
}

/// One word of the dialog's greedy wrap: a word that no longer fits after
/// a space starts a new line, and an overlong word spills across lines.
pub open spec fn box_step(state: (int, int), length: int, width: int) -> (int, int) {
    let (lines, column) = state;
    let (lines, column) = if column > 0 && column + 1 + length > width {
        (lines + 1, 0int)
    } else {
        (lines, column)
    };
    let column = if column > 0 {
        column + 1
    } else {
        column
    };
    let (extra, end) = box_spill(column, length, width);
    (lines + extra, end)
}

pub open spec fn box_fold(lengths: Seq<int>, width: int) -> (int, int)
    decreases lengths.len(),
{
    if lengths.len() == 0 {
        (1, 0)
    } else {
        box_step(box_fold(lengths.drop_last(), width), lengths.last(), width)
    }
}

/// The line count of the dialog's message at a width: one line at width
/// zero, otherwise greedy word wrap over whitespace-separated words, with
/// overlong words spilling across lines the way the renderer spills them.
pub open spec fn wrapped_line_count_spec(text: Seq<char>, width: nat) -> int {
    if width == 0 {
        1
    } else {
        box_fold(char_counts(split_words(text, true)), width as int).0
    }
}

proof fn lemma_box_spill(column: int, length: int, width: int)
    requires
        0 <= column <= width,
        length >= 0,
        column + length > width ==> column < width,
    ensures
        box_spill(column, length, width).0 >= 0,
        0 <= box_spill(column, length, width).1 <= width,
    decreases length,
{
    if column + length > width && column < width {
        lemma_box_spill(0, length - (width - column), width);
    }
}

proof fn lemma_box_fold(lengths: Seq<int>, width: int, k: int)
    requires
        width >= 1,
        0 <= k <= lengths.len(),
        forall|i: int| 0 <= i < lengths.len() ==> #[trigger] lengths[i] >= 0,
    ensures
        box_fold(lengths.take(k), width).0 <= box_fold(lengths, width).0,
        box_fold(lengths, width).0 >= 1,
        0 <= box_fold(lengths, width).1 <= width,
    decreases lengths.len(),
{
    if lengths.len() > 0 {
        let rest = lengths.drop_last();
        assert forall|i: int| 0 <= i < rest.len() implies #[trigger] rest[i] >= 0 by {
            assert(rest[i] == lengths[i]);
        }
        if k < lengths.len() {
            assert(lengths.take(k) =~= rest.take(k));
            lemma_box_fold(rest, width, k);
        } else {
            assert(lengths.take(k) =~= lengths);
        }
        lemma_box_fold(rest, width, 0);
        let (lines, column) = box_fold(rest, width);
        let length = lengths.last();
        let (l2, c2) = if column > 0 && column + 1 + length > width {
            (lines + 1, 0int)
        } else {
            (lines, column)
        };
        let c3 = if c2 > 0 {
            c2 + 1
        } else {
            c2
        };
        lemma_box_spill(c3, length, width);
    } else {
        assert(lengths.take(k) =~= lengths);
    }
}

/// The sum of a sequence.
pub open spec fn sum_of(s: Seq<int>) -> int
    decreases s.len(),
{
    if s.len() == 0 {
        0
    } else {
        sum_of(s.drop_last()) + s.last()
    }
}

proof fn lemma_scan_length(s: Seq<char>, unicode: bool)
    ensures
        sum_of(char_counts(scan(s, unicode).0)) + scan(s, unicode).1.len() <= s.len(),
    decreases s.len(),
{
    if s.len() > 0 {
        lemma_scan_length(s.drop_last(), unicode);
        let (words, open) = scan(s.drop_last(), unicode);
        assert(char_counts(words.push(open)) =~= char_counts(words).push(open.len() as int));
        assert(char_counts(words.push(open)).drop_last() =~= char_counts(words));
    }
}

proof fn lemma_split_length(s: Seq<char>, unicode: bool)
    ensures
        sum_of(char_counts(split_words(s, unicode))) <= s.len(),
{
    lemma_scan_length(s, unicode);
    let (words, open) = scan(s, unicode);
    assert(char_counts(words.push(open)).drop_last() =~= char_counts(words));
}

proof fn lemma_spill_extra(length: int, width: int)
    requires
        width >= 1,
        length >= 1,
    ensures
        box_spill(0, length, width).0 <= length - 1,
    decreases length,
{
    if length > width {
        lemma_spill_extra(length - width, width);
    }
}

proof fn lemma_box_bound(lengths: Seq<int>, width: int)
    requires
        width >= 1,
        forall|i: int| 0 <= i < lengths.len() ==> #[trigger] lengths[i] >= 1,
    ensures
        box_fold(lengths, width).0 <= 1 + sum_of(lengths),
    decreases lengths.len(),
{
    if lengths.len() > 0 {
        let rest = lengths.drop_last();
        assert forall|i: int| 0 <= i < rest.len() implies #[trigger] rest[i] >= 1 by {
            assert(rest[i] == lengths[i]);
        }
        assert forall|i: int| 0 <= i < rest.len() implies #[trigger] rest[i] >= 0 by {
            assert(rest[i] == lengths[i]);
        }
        lemma_box_bound(rest, width);
        lemma_box_fold(rest, width, 0);
        lemma_spill_extra(lengths.last(), width);
    }
}

/// A message's wrapped line count is at most one more than its length in
/// characters.
pub proof fn lemma_line_count_bound(text: Seq<char>, width: nat)
    ensures
        wrapped_line_count_spec(text, width) <= text.len() + 1,
{
    if width > 0 {
        lemma_split_words(text, true);
        lemma_split_length(text, true);
        let ws = split_words(text, true);
        let lengths = char_counts(ws);
        assert forall|i: int| 0 <= i < lengths.len() implies #[trigger] lengths[i] >= 1 by {
            assert(is_word(ws[i], true));
        }
        lemma_box_bound(lengths, width as int);
    }
}

proof fn lemma_fits_one_line(ws: Seq<Seq<char>>, width: int)
    requires
        width >= 1,
        forall|i: int| 0 <= i < ws.len() ==> (#[trigger] ws[i]).len() >= 1,
        join_words(ws).len() <= width,
    ensures
        box_fold(char_counts(ws), width) == (1int, join_words(ws).len() as int),
    decreases ws.len(),
{
    if ws.len() > 0 {
        let rest = ws.drop_last();
        assert(char_counts(ws).drop_last() =~= char_counts(rest));
        assert(char_counts(ws).last() == ws.last().len());
        let l = ws.last().len() as int;
        if ws.len() == 1 {
            assert(ws.last() == ws[0]);
            assert(join_words(ws) == ws[0]);
            assert(char_counts(rest).len() == 0);
            assert(box_fold(char_counts(rest), width) == (1int, 0int));
            assert(box_spill(0, l, width) == (0int, l));
            assert(box_step((1int, 0int), l, width) == (1int, l));
        } else {
            assert forall|i: int| 0 <= i < rest.len() implies (#[trigger] rest[i]).len() >= 1 by {
                assert(rest[i] == ws[i]);
            }
            assert(join_words(ws) == join_words(rest) + seq![' '] + ws.last());
            lemma_fits_one_line(rest, width);
            if rest.len() == 1 {
                assert(join_words(rest) == rest[0]);
            } else {
                assert(join_words(rest) == join_words(rest.drop_last()) + seq![' '] + rest.last());
            }
            let j = join_words(rest).len() as int;
            assert(j >= 1);
            assert(join_words(ws).len() == j + 1 + l);
            assert(box_spill(j + 1, l, width) == (0int, j + 1 + l));
            assert(box_step((1int, j), l, width) == (1int, j + 1 + l));
        }
        assert(box_fold(char_counts(ws), width) == box_step(
            box_fold(char_counts(rest), width),
            l,
            width,
        ));
    }
}

/// The dialog's line count is at least one; a zero width measures as one
/// line, and so does a message whose words fit the width side by side.
pub proof fn law_line_count(text: Seq<char>, width: nat)
    ensures
        wrapped_line_count_spec(text, width) >= 1,
        width == 0 ==> wrapped_line_count_spec(text, width) == 1,
        join_words(split_words(text, true)).len() <= width ==> wrapped_line_count_spec(text, width)
            == 1,
{
    if width > 0 {
        let ws = split_words(text, true);
        let lengths = char_counts(ws);
        assert forall|i: int| 0 <= i < lengths.len() implies #[trigger] lengths[i] >= 0 by {}
        lemma_box_fold(lengths, width as int, 0);
        if join_words(ws).len() <= width {
            lemma_split_words(text, true);
            assert forall|i: int| 0 <= i < ws.len() implies (#[trigger] ws[i]).len() >= 1 by {
                assert(is_word(ws[i], true));
            }
            lemma_fits_one_line(ws, width as int);
        }
    }
}

/// Greedy word wrap, the line count the dialog's message paints at the
/// given width — overlong words spill across lines like the renderer
/// spills them.
pub fn wrapped_line_count(text: &str, width: usize) -> (lines: usize)
    requires
        text@.len() < usize::MAX,
    ensures
        lines as int == wrapped_line_count_spec(text@, width as nat),
{
    proof {
        lemma_line_count_bound(text@, width as nat);
    }
    if width == 0 {
        return 1;
    }
    let split = split_words_exec(text, true);
    let ghost lengths = char_counts(split_words(text@, true));
    let ghost total = box_fold(lengths, width as int).0;
    proof {
        assert forall|i: int| 0 <= i < lengths.len() implies #[trigger] lengths[i] >= 0 by {}
        lemma_box_fold(lengths, width as int, 0);
    }
    let mut lines: usize = 1;
    let mut column: usize = 0;
    let mut i: usize = 0;
    while i < split.len()
        invariant
            0 <= i <= split@.len(),
            width >= 1,
            split@.map_values(|w: Vec<char>| w@) == split_words(text@, true),
            lengths == char_counts(split_words(text@, true)),
            lengths.len() == split@.len(),
            total == box_fold(lengths, width as int).0,
            total <= usize::MAX,
            forall|j: int| 0 <= j < lengths.len() ==> #[trigger] lengths[j] >= 0,
            (lines as int, column as int) == box_fold(lengths.take(i as int), width as int),
        decreases split@.len() - i,
    {
        proof {
            lemma_box_fold(lengths, width as int, i + 1);
            lemma_box_fold(lengths.take(i as int), width as int, 0);
            assert(lengths.take(i + 1).drop_last() =~= lengths.take(i as int));
            assert(split@.map_values(|w: Vec<char>| w@)[i as int] == split@[i as int]@);
        }
        let mut length: usize = split[i].len();
        assert(length as int == lengths[i as int]);
        let ghost after = box_fold(lengths.take(i + 1), width as int);
        proof {
            let wraps = column > 0 && column + 1 + length > width;
            let c2: int = if wraps {
                0
            } else {
                column as int
            };
            let c3 = if c2 > 0 {
                c2 + 1
            } else {
                c2
            };
            lemma_box_spill(c3, length as int, width as int);
        }
        if column > 0 && (length >= width || column >= width - length) {
            lines = lines + 1;
            column = 0;
        }
        if column > 0 {
            column = column + 1;
        }
        proof {
            lemma_box_spill(column as int, length as int, width as int);
        }
        while length > width - column
            invariant
                width >= 1,
                column <= width,
                length > width - column ==> column < width,
                after.0 <= total,
                total <= usize::MAX,
                (lines as int + box_spill(column as int, length as int, width as int).0,
                box_spill(column as int, length as int, width as int).1) == after,
            decreases length,
        {
            let taken = width - column;
            length = length - taken;
            proof {
                lemma_box_spill(0, length as int, width as int);
            }
            lines = lines + 1;
            column = 0;
        }
        column = column + length;
        i = i + 1;
    }
    assert(lengths.take(split@.len() as int) =~= lengths);
    lines
}

/// How the dialog sits over the page: the box, centered, and the line
/// count its message wraps to.
pub struct DialogLayout {
    pub rect: Rect,
    pub message_lines: usize,
}

/// The box's inner width: wide enough for the message, the buttons and the
/// prompt's line plus its caret, between 26 and 56 cells, and never wider
/// than the area leaves room for.
pub open spec fn inner_width(area: Rect, message: nat, ok: nat, cancel: nat, input: nat) -> int {
    let wanted = vstd::math::max(vstd::math::max(message as int, (ok + cancel + 11) as int), (input + 1) as int);
    let clamped = vstd::math::min(vstd::math::max(wanted, 26), 56);
    vstd::math::min(clamped, if area.width >= 6 {
        area.width - 6
    } else {
        0
    })
}

/// The dialog's box over `area`: inner width plus border and padding,
/// height for the borders, the wrapped message, a gap, the prompt's line
/// and gap, and the buttons — both capped by the area and centered in it.
pub open spec fn dialog_layout_spec(area: Rect, dialog: Dialog) -> DialogLayout {
    let inner = inner_width(
        area,
        dialog.message@.len(),
        dialog.ok_label@.len(),
        dialog.cancel_label@.len(),
        dialog.input@.len(),
    );
    let message_lines = wrapped_line_count_spec(dialog.message@, inner as nat);
    let prompt_lines: int = if dialog.kind == DialogKind::Prompt {
        2
    } else {
        0
    };
    let width = vstd::math::min((inner + 4) as u16 as int, area.width as int);
    let height = vstd::math::min(
        (2 + message_lines + 1 + prompt_lines + 1) as u16 as int,
        area.height as int,
    );
    DialogLayout {
        rect: Rect {
            x: (area.x + (area.width - width) / 2) as u16,
            y: (area.y + (area.height - height) / 2) as u16,
            width: width as u16,
            height: height as u16,
        },
        message_lines: message_lines as usize,
    }
}

/// The dialog box's size over `area` and the line count of its wrapped
/// message: what the placement needs before it centers the box.
pub fn dialog_size(area: Rect, dialog: &Dialog) -> (size: (u16, u16, usize))
    requires
        dialog.message@.len() <= usize::MAX - 9,
    ensures
        size.0 == dialog_layout_spec(area, *dialog).rect.width,
        size.1 == dialog_layout_spec(area, *dialog).rect.height,
        size.2 == dialog_layout_spec(area, *dialog).message_lines,
{
    let message_width = chars_of(dialog.message.as_str()).len();
    let ok_width = chars_of(dialog.ok_label.as_str()).len();
    let cancel_width = chars_of(dialog.cancel_label.as_str()).len();
    let input_width = chars_of(dialog.input.as_str()).len();
    let buttons_width: usize = if cancel_width <= usize::MAX - 11 && ok_width <= usize::MAX - 11 - cancel_width {
        ok_width + cancel_width + 11
    } else {
        usize::MAX
    };
    let mut wanted = message_width;
    if buttons_width > wanted {
        wanted = buttons_width;
    }
    let input_cells: usize = if input_width < usize::MAX {
        input_width + 1
    } else {
        usize::MAX
    };
    if input_cells > wanted {
        wanted = input_cells;
    }
    let clamped: usize = if wanted < 26 {
        26
    } else if wanted > 56 {
        56
    } else {
        wanted
    };
    let room: usize = area.width.saturating_sub(6) as usize;
    let inner: usize = if clamped < room {
        clamped
    } else {
        room
    };
    assert(inner as int == inner_width(
        area,
        dialog.message@.len(),
        dialog.ok_label@.len(),
        dialog.cancel_label@.len(),
        dialog.input@.len(),
    ));
    proof {
        lemma_line_count_bound(dialog.message@, inner as nat);
    }
    let message_lines = wrapped_line_count(dialog.message.as_str(), inner);
    let prompt_lines: usize = if dialog.kind == DialogKind::Prompt {
        2
    } else {
        0
    };
    let width = (inner + 4) as u16;
    let height = (2 + message_lines + 1 + prompt_lines + 1) as u16;
    let width = if width < area.width {
        width
    } else {
        area.width
    };
    let height = if height < area.height {
        height
    } else {
        area.height
    };
    (width, height, message_lines)
}

/// Where the dialog paints: its box centered over `area` and the line
/// count of its wrapped message. The centered corner must be a cell
/// position.
pub fn dialog_layout(area: Rect, dialog: &Dialog) -> (layout: DialogLayout)
    requires
        dialog.message@.len() <= usize::MAX - 9,
        area.x + (area.width - dialog_layout_spec(area, *dialog).rect.width) / 2 <= u16::MAX,
        area.y + (area.height - dialog_layout_spec(area, *dialog).rect.height) / 2 <= u16::MAX,
    ensures
        layout == dialog_layout_spec(area, *dialog),
{
    let (width, height, message_lines) = dialog_size(area, dialog);
    let rect = Rect {
        x: area.x + (area.width - width) / 2,
        y: area.y + (area.height - height) / 2,
        width,
        height,
    };
    DialogLayout { rect, message_lines }
}

/// The box stays inside the area it is centered over, with the two side
/// margins (and the top and bottom margins) differing by at most a cell.
pub proof fn law_box_centered_inside(area: Rect, dialog: Dialog)
    requires
        area.x + (area.width - dialog_layout_spec(area, dialog).rect.width) / 2 <= u16::MAX,
        area.y + (area.height - dialog_layout_spec(area, dialog).rect.height) / 2 <= u16::MAX,
    ensures
        ({
            let r = dialog_layout_spec(area, dialog).rect;
            &&& area.x <= r.x
            &&& r.x + r.width <= area.x + area.width
            &&& area.y <= r.y
            &&& r.y + r.height <= area.y + area.height
            &&& 0 <= (area.x + area.width - (r.x + r.width)) - (r.x - area.x) <= 1
            &&& 0 <= (area.y + area.height - (r.y + r.height)) - (r.y - area.y) <= 1
        }),
{
}

} // verus!
