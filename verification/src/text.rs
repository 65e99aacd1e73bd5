//! Character and text transformations for the terminal: whitespace
//! collapse, wrap measurement in cells, and marker-glyph rotation — the
//! pure string half of the layout, testable without a document.
//!
//! The rotation mapping is a curated table: Unicode defines no rotation
//! property, and many arrows have no rotated counterpart.

use vstd::prelude::*;

use crate::strings::{
    chars_of, is_ascii_ws, is_ascii_ws_exec, is_unicode_ws, is_unicode_ws_exec, push_char,
    push_chars, string_of,
};

verus! {

/// The separator class of a split: ASCII whitespace (the flow's class,
/// where a non-breaking space is content) or Unicode whitespace.
pub open spec fn is_sep(c: char, unicode: bool) -> bool {
    if unicode {
        is_unicode_ws(c)
    } else {
        is_ascii_ws(c)
    }
}

/// Left-to-right scan of a text into the words completed so far and the
/// word still open at the end.
pub open spec fn scan(s: Seq<char>, unicode: bool) -> (Seq<Seq<char>>, Seq<char>)
    decreases s.len(),
{
    if s.len() == 0 {
        (Seq::empty(), Seq::empty())
    } else {
        let (words, open) = scan(s.drop_last(), unicode);
        let c = s.last();
        if is_sep(c, unicode) {
            if open.len() > 0 {
                (words.push(open), Seq::empty())
            } else {
                (words, open)
            }
        } else {
            (words, open.push(c))
        }
    }
}

/// The words of a text: its maximal runs of non-separator characters, in
/// order.
pub open spec fn split_words(s: Seq<char>, unicode: bool) -> Seq<Seq<char>> {
    let (words, open) = scan(s, unicode);
    if open.len() > 0 {
        words.push(open)
    } else {
        words
    }
}

/// Words joined by single spaces.
pub open spec fn join_words(words: Seq<Seq<char>>) -> Seq<char>
    decreases words.len(),
{
    if words.len() == 0 {
        Seq::empty()
    } else if words.len() == 1 {
        words[0]
    } else {
        join_words(words.drop_last()) + seq![' '] + words.last()
    }
}

/// The flow's whitespace collapse: ASCII whitespace runs become single
/// spaces and the ends are trimmed.
pub open spec fn collapse_spec(s: Seq<char>) -> Seq<char> {
    join_words(split_words(s, false))
}

/// A word: non-empty, free of separators.
pub open spec fn is_word(w: Seq<char>, unicode: bool) -> bool {
    w.len() > 0 && forall|i: int| 0 <= i < w.len() ==> !is_sep(#[trigger] w[i], unicode)
}

pub open spec fn all_words(ws: Seq<Seq<char>>, unicode: bool) -> bool {
    forall|i: int| 0 <= i < ws.len() ==> is_word(#[trigger] ws[i], unicode)
}

/// The display width of a text in terminal cells, as `unicode-width`
/// measures a string (`UnicodeWidthStr::width`).
pub uninterp spec fn text_width(s: Seq<char>) -> usize;

/// `UnicodeWidthStr::width`: the cells a string occupies.
#[verifier::external_body]
pub(crate) fn display_width(s: &str) -> (w: usize)
    ensures
        w == text_width(s@),
{
    unicode_width::UnicodeWidthStr::width(s)
}

/// Splits an oversized word across full lines: the extra lines it takes
/// and the cells left on its last line.
pub open spec fn spill(rest: int, width: int) -> (int, int)
    decreases rest,
{
    if width >= 1 && rest > width {
        let (extra, left) = spill(rest - width, width);
        (extra + 1, left)
    } else {
        (0, rest)
    }
}

/// One word of greedy wrap: it joins the line after a space when it fits,
/// starts an empty line when it fits, and otherwise begins a new line and
/// spills across full lines.
pub open spec fn wrap_step(state: (int, int), len: int, width: int) -> (int, int) {
    let (lines, used) = state;
    if used > 0 && used + 1 + len <= width {
        (lines, used + 1 + len)
    } else if used == 0 && len <= width {
        (lines, len)
    } else {
        let lines = if used > 0 {
            lines + 1
        } else {
            lines
        };
        let (extra, left) = spill(len, width);
        (lines + extra, left)
    }
}

/// Greedy wrap over word widths: (lines, cells used on the last line).
pub open spec fn wrap_fold(lens: Seq<int>, width: int) -> (int, int)
    decreases lens.len(),
{
    if lens.len() == 0 {
        (1, 0)
    } else {
        wrap_step(wrap_fold(lens.drop_last(), width), lens.last(), width)
    }
}

/// The display widths of the words.
pub open spec fn word_widths(words: Seq<Seq<char>>) -> Seq<int> {
    words.map_values(|w: Seq<char>| text_width(w) as int)
}

/// The line count greedy word wrap reserves for a text at a width in
/// cells (at least one cell).
pub open spec fn wrapped_lines_spec(text: Seq<char>, width: nat) -> int {
    wrap_fold(word_widths(split_words(text, false)), if width >= 1 {
        width as int
    } else {
        1
    }).0
}

/// The largest value of a sequence, 0 when empty.
pub open spec fn seq_max(s: Seq<int>) -> int
    decreases s.len(),
{
    if s.len() == 0 {
        0
    } else {
        let m = seq_max(s.drop_last());
        if s.last() > m {
            s.last()
        } else {
            m
        }
    }
}

/// The marker glyphs' right-angle rotations.
pub open spec fn rotation(glyph: char, degrees: u16) -> Option<char> {
    if glyph == '\u{25b6}' && degrees == 90 {
        Some('\u{25bc}')
    } else if glyph == '\u{25b6}' && degrees == 180 {
        Some('\u{25c0}')
    } else if glyph == '\u{25b6}' && degrees == 270 {
        Some('\u{25b2}')
    } else if glyph == '\u{25b8}' && degrees == 90 {
        Some('\u{25be}')
    } else if glyph == '\u{25b8}' && degrees == 180 {
        Some('\u{25c2}')
    } else if glyph == '\u{25b8}' && degrees == 270 {
        Some('\u{25b4}')
    } else if glyph == '\u{25bc}' && degrees == 90 {
        Some('\u{25c0}')
    } else if glyph == '\u{25bc}' && degrees == 180 {
        Some('\u{25b2}')
    } else if glyph == '\u{25bc}' && degrees == 270 {
        Some('\u{25b6}')
    } else {
        None
    }
}

/// The words of a text as character runs, split at the chosen separator
/// class.
pub fn split_words_exec(text: &str, unicode: bool) -> (r: Vec<Vec<char>>)
    ensures
        r@.map_values(|w: Vec<char>| w@) == split_words(text@, unicode),
{
    let cs = chars_of(text);
    let mut words: Vec<Vec<char>> = Vec::new();
    let mut open: Vec<char> = Vec::new();
    let mut i: usize = 0;
    while i < cs.len()
        invariant
            0 <= i <= cs@.len(),
            cs@ == text@,
            (words@.map_values(|w: Vec<char>| w@), open@) == scan(cs@.take(i as int), unicode),
        decreases cs@.len() - i,
    {
        let c = cs[i];
        assert(cs@.take(i + 1).drop_last() =~= cs@.take(i as int));
        let sep = if unicode {
            is_unicode_ws_exec(c)
        } else {
            is_ascii_ws_exec(c)
        };
        if sep {
            if open.len() > 0 {
                let ghost before = words@.map_values(|w: Vec<char>| w@);
                let word = open;
                words.push(word);
                open = Vec::new();
                assert(words@.map_values(|w: Vec<char>| w@) =~= before.push(word@));
                assert(open@ =~= Seq::<char>::empty());
            }
        } else {
            open.push(c);
        }
        i = i + 1;
    }
    assert(cs@.take(cs@.len() as int) =~= cs@);
    if open.len() > 0 {
        let ghost before = words@.map_values(|w: Vec<char>| w@);
        let word = open;
        words.push(word);
        assert(words@.map_values(|w: Vec<char>| w@) =~= before.push(word@));
    }
    words
}

/// The wrap words of a text: runs unbroken by ASCII whitespace, so a
/// non-breaking space glues its neighbors into one word.
pub fn words(text: &str) -> (r: Vec<String>)
    ensures
        r@.len() == split_words(text@, false).len(),
        forall|i: int| 0 <= i < r@.len() ==> #[trigger] r@[i]@ == split_words(text@, false)[i],
{
    let split = split_words_exec(text, false);
    let mut out: Vec<String> = Vec::new();
    let mut i: usize = 0;
    while i < split.len()
        invariant
            0 <= i <= split@.len(),
            split@.map_values(|w: Vec<char>| w@) == split_words(text@, false),
            out@.len() == i,
            forall|j: int| 0 <= j < i ==> #[trigger] out@[j]@ == split_words(text@, false)[j],
        decreases split@.len() - i,
    {
        assert(split@.map_values(|w: Vec<char>| w@)[i as int] == split@[i as int]@);
        out.push(string_of(&split[i]));
        i = i + 1;
    }
    out
}

/// Joins words with single spaces.
pub fn join_exec(words: &Vec<Vec<char>>) -> (s: String)
    ensures
        s@ == join_words(words@.map_values(|w: Vec<char>| w@)),
{
    let mut s = String::new();
    let mut i: usize = 0;
    while i < words.len()
        invariant
            0 <= i <= words@.len(),
            s@ == join_words(words@.map_values(|w: Vec<char>| w@).take(i as int)),
        decreases words@.len() - i,
    {
        let ghost prefix = words@.map_values(|w: Vec<char>| w@).take(i as int);
        let ghost next = words@.map_values(|w: Vec<char>| w@).take(i + 1);
        assert(next.drop_last() =~= prefix);
        assert(next.last() == words@[i as int]@);
        if i > 0 {
            push_char(&mut s, ' ');
        } else {
            assert(s@ =~= Seq::<char>::empty());
        }
        push_chars(&mut s, &words[i]);
        assert(s@ =~= join_words(next));
        i = i + 1;
    }
    assert(words@.map_values(|w: Vec<char>| w@).take(words@.len() as int) =~= words@.map_values(|w: Vec<char>| w@));
    s
}

/// Collapses runs of ASCII whitespace to single spaces and trims the ends,
/// like the browser flows prose. Non-breaking spaces are content, not
/// separators: the browser renders `&nbsp;`, so the terminal keeps it too.
pub fn collapse_whitespace(text: &str) -> (s: String)
    ensures
        s@ == collapse_spec(text@),
{
    let split = split_words_exec(text, false);
    join_exec(&split)
}

/// The scan completes only words, and its open run holds no separator.
pub proof fn lemma_scan_words(s: Seq<char>, unicode: bool)
    ensures
        all_words(scan(s, unicode).0, unicode),
        forall|i: int|
            0 <= i < scan(s, unicode).1.len() ==> !is_sep(#[trigger] scan(s, unicode).1[i], unicode),
    decreases s.len(),
{
    if s.len() > 0 {
        lemma_scan_words(s.drop_last(), unicode);
        let (words, open) = scan(s.drop_last(), unicode);
        let c = s.last();
        if is_sep(c, unicode) {
            if open.len() > 0 {
                assert forall|i: int| 0 <= i < words.push(open).len() implies is_word(
                    #[trigger] words.push(open)[i],
                    unicode,
                ) by {
                    if i < words.len() {
                        assert(words.push(open)[i] == words[i]);
                    }
                }
            }
        } else {
            assert forall|i: int| 0 <= i < open.push(c).len() implies !is_sep(
                #[trigger] open.push(c)[i],
                unicode,
            ) by {
                if i < open.len() {
                    assert(open.push(c)[i] == open[i]);
                }
            }
        }
    }
}

/// Every entry of a split is a word.
pub proof fn lemma_split_words(s: Seq<char>, unicode: bool)
    ensures
        all_words(split_words(s, unicode), unicode),
{
    lemma_scan_words(s, unicode);
    let (words, open) = scan(s, unicode);
    if open.len() > 0 {
        assert forall|i: int| 0 <= i < words.push(open).len() implies is_word(
            #[trigger] words.push(open)[i],
            unicode,
        ) by {
            if i < words.len() {
                assert(words.push(open)[i] == words[i]);
            }
        }
    }
}

/// Separator-free characters extend the open run.
proof fn lemma_scan_append_run(a: Seq<char>, w: Seq<char>, unicode: bool)
    requires
        forall|i: int| 0 <= i < w.len() ==> !is_sep(#[trigger] w[i], unicode),
    ensures
        scan(a + w, unicode) == (scan(a, unicode).0, scan(a, unicode).1 + w),
    decreases w.len(),
{
    if w.len() == 0 {
        assert(a + w =~= a);
        assert(scan(a, unicode).1 + w =~= scan(a, unicode).1);
    } else {
        let w0 = w.drop_last();
        assert forall|i: int| 0 <= i < w0.len() implies !is_sep(#[trigger] w0[i], unicode) by {
            assert(w0[i] == w[i]);
        }
        lemma_scan_append_run(a, w0, unicode);
        assert((a + w).drop_last() =~= a + w0);
        assert((a + w).last() == w.last());
        assert(scan(a, unicode).1 + w0 + seq![w.last()] =~= scan(a, unicode).1 + w);
        assert((scan(a, unicode).1 + w0).push(w.last()) =~= scan(a, unicode).1 + w);
    }
}

/// Scanning joined words completes all but the last, which stays open.
proof fn lemma_scan_join(ws: Seq<Seq<char>>)
    requires
        ws.len() > 0,
        all_words(ws, false),
    ensures
        scan(join_words(ws), false) == (ws.drop_last(), ws.last()),
    decreases ws.len(),
{
    let w = ws.last();
    assert(is_word(ws[ws.len() - 1], false));
    if ws.len() == 1 {
        lemma_scan_append_run(Seq::empty(), w, false);
        assert(Seq::<char>::empty() + w =~= w);
        assert(Seq::<char>::empty() + w =~= w);
        assert(ws.drop_last() =~= Seq::<Seq<char>>::empty());
    } else {
        let rest = ws.drop_last();
        assert forall|i: int| 0 <= i < rest.len() implies is_word(#[trigger] rest[i], false) by {
            assert(rest[i] == ws[i]);
        }
        lemma_scan_join(rest);
        let j = join_words(rest);
        let spaced = j + seq![' '];
        assert(spaced.drop_last() =~= j);
        assert(spaced.last() == ' ');
        assert(is_word(rest[rest.len() - 1], false));
        assert(rest.drop_last().push(rest.last()) =~= rest);
        lemma_scan_append_run(spaced, w, false);
        assert(scan(spaced, false) == (rest, Seq::<char>::empty()));
        assert(Seq::<char>::empty() + w =~= w);
    }
}

/// Collapsing keeps every word, in order: the collapsed text splits into
/// exactly the words of the input.
pub proof fn law_collapse_keeps_words(s: Seq<char>)
    ensures
        split_words(collapse_spec(s), false) == split_words(s, false),
{
    let ws = split_words(s, false);
    lemma_split_words(s, false);
    if ws.len() == 0 {
        assert(collapse_spec(s) =~= Seq::<char>::empty());
        assert(scan(Seq::<char>::empty(), false) == (Seq::<Seq<char>>::empty(), Seq::<char>::empty()));
    } else {
        lemma_scan_join(ws);
        assert(is_word(ws[ws.len() - 1], false));
        assert(ws.drop_last().push(ws.last()) =~= ws);
    }
}

/// Collapsing twice changes nothing: a collapsed text is its own collapse.
pub proof fn law_collapse_idempotent(s: Seq<char>)
    ensures
        collapse_spec(collapse_spec(s)) == collapse_spec(s),
{
    law_collapse_keeps_words(s);
}

proof fn lemma_spill_bounds(rest: int, width: int)
    requires
        rest >= 0,
        width >= 1,
    ensures
        spill(rest, width).0 >= 0,
        0 <= spill(rest, width).1 <= width || spill(rest, width).1 == rest,
        spill(rest, width).1 <= rest,
        spill(rest, width).1 >= 0,
        rest <= width ==> spill(rest, width) == (0int, rest),
        rest > width ==> spill(rest, width).1 <= width,
    decreases rest,
{
    if rest > width {
        lemma_spill_bounds(rest - width, width);
    }
}

proof fn lemma_wrap_fold_grows(lens: Seq<int>, width: int, k: int)
    requires
        width >= 1,
        0 <= k <= lens.len(),
        forall|i: int| 0 <= i < lens.len() ==> #[trigger] lens[i] >= 0,
    ensures
        wrap_fold(lens.take(k), width).0 <= wrap_fold(lens, width).0,
        wrap_fold(lens, width).0 >= 1,
        wrap_fold(lens, width).1 >= 0,
    decreases lens.len(),
{
    if lens.len() > 0 {
        let rest = lens.drop_last();
        assert forall|i: int| 0 <= i < rest.len() implies #[trigger] rest[i] >= 0 by {
            assert(rest[i] == lens[i]);
        }
        if k < lens.len() {
            assert(lens.take(k) =~= rest.take(k));
            lemma_wrap_fold_grows(rest, width, k);
        } else {
            assert(lens.take(k) =~= lens);
            lemma_wrap_fold_grows(rest, width, 0);
        }
        lemma_wrap_fold_grows(rest, width, 0);
        lemma_spill_bounds(lens.last(), width);
    } else {
        assert(lens.take(k) =~= lens);
    }
}

/// A run of cell counts as integers.
pub open spec fn as_ints(v: Seq<usize>) -> Seq<int> {
    v.map_values(|x: usize| x as int)
}

/// The display widths of a text's wrap words, in order.
pub fn word_cell_widths(text: &str) -> (widths: Vec<usize>)
    ensures
        as_ints(widths@) == word_widths(split_words(text@, false)),
{
    let split = split_words_exec(text, false);
    let ghost lens = word_widths(split_words(text@, false));
    let mut widths: Vec<usize> = Vec::new();
    let mut i: usize = 0;
    while i < split.len()
        invariant
            0 <= i <= split@.len(),
            split@.map_values(|w: Vec<char>| w@) == split_words(text@, false),
            lens == word_widths(split_words(text@, false)),
            lens.len() == split@.len(),
            as_ints(widths@) == lens.take(i as int),
        decreases split@.len() - i,
    {
        assert(split@.map_values(|w: Vec<char>| w@)[i as int] == split@[i as int]@);
        let word = string_of(&split[i]);
        let len = display_width(word.as_str());
        assert(word@ == split_words(text@, false)[i as int]);
        assert(len as int == lens[i as int]);
        let ghost before = widths@;
        widths.push(len);
        assert(as_ints(widths@) =~= as_ints(before).push(len as int));
        assert(lens.take(i + 1) =~= lens.take(i as int).push(lens[i as int]));
        i = i + 1;
    }
    assert(lens.take(split@.len() as int) =~= lens);
    widths
}

/// The width a wrap measures at: a width of zero measures as one cell.
pub open spec fn wrap_width(width: usize) -> int {
    if width >= 1 {
        width as int
    } else {
        1
    }
}

/// Greedy wrap over word widths in cells, the line count when it fits in
/// 16 bits: words fill each line up to the width and an oversized word
/// breaks across lines. `None` when the count does not fit.
pub fn wrap_line_count_checked(widths: &Vec<usize>, width: usize) -> (lines: Option<u16>)
    ensures
        match lines {
            Some(n) => n as int == wrap_fold(as_ints(widths@), wrap_width(width)).0,
            None => wrap_fold(as_ints(widths@), wrap_width(width)).0 > u16::MAX,
        },
{
    let cells: usize = if width >= 1 {
        width
    } else {
        1
    };
    let ghost lens = as_ints(widths@);
    assert(cells as int == wrap_width(width));
    let ghost total = wrap_fold(lens, cells as int).0;
    proof {
        assert forall|i: int| 0 <= i < lens.len() implies #[trigger] lens[i] >= 0 by {}
        lemma_wrap_fold_grows(lens, cells as int, 0);
    }
    let mut lines: u16 = 1;
    let mut used: usize = 0;
    let mut i: usize = 0;
    while i < widths.len()
        invariant
            0 <= i <= widths@.len(),
            cells >= 1,
            cells as int == wrap_width(width),
            lens == as_ints(widths@),
            lens.len() == widths@.len(),
            total == wrap_fold(lens, cells as int).0,
            forall|j: int| 0 <= j < lens.len() ==> #[trigger] lens[j] >= 0,
            (lines as int, used as int) == wrap_fold(lens.take(i as int), cells as int),
        decreases widths@.len() - i,
    {
        proof {
            lemma_wrap_fold_grows(lens, cells as int, i + 1);
            assert(lens.take(i + 1).drop_last() =~= lens.take(i as int));
            lemma_spill_bounds(lens[i as int], cells as int);
            lemma_wrap_fold_grows(lens.take(i as int), cells as int, 0);
        }
        let len = widths[i];
        assert(len as int == lens[i as int]);
        let ghost after = wrap_fold(lens.take(i + 1), cells as int);
        if used > 0 && len < cells && used < cells - len {
            used = used + 1 + len;
        } else if used == 0 && len <= cells {
            used = len;
        } else {
            if used > 0 {
                if lines == u16::MAX {
                    return None;
                }
                lines = lines + 1;
            }
            let mut rest: usize = len;
            while rest > cells
                invariant
                    cells >= 1,
                    cells as int == wrap_width(width),
                    total == wrap_fold(lens, cells as int).0,
                    lens == as_ints(widths@),
                    rest >= 0,
                    after.0 <= total,
                    (lines as int + spill(rest as int, cells as int).0, spill(rest as int, cells as int).1) == after,
                decreases rest,
            {
                proof {
                    lemma_spill_bounds((rest - cells) as int, cells as int);
                }
                if lines == u16::MAX {
                    return None;
                }
                lines = lines + 1;
                rest = rest - cells;
            }
            used = rest;
        }
        i = i + 1;
    }
    assert(lens.take(widths@.len() as int) =~= lens);
    Some(lines)
}

/// Greedy wrap over word widths in cells: words fill each line up to the
/// width and an oversized word breaks across lines. A width of zero
/// measures as one cell.
pub fn wrap_line_count(widths: &Vec<usize>, width: usize) -> (lines: u16)
    requires
        wrap_fold(as_ints(widths@), wrap_width(width)).0 <= u16::MAX,
    ensures
        lines as int == wrap_fold(as_ints(widths@), wrap_width(width)).0,
{
    match wrap_line_count_checked(widths, width) {
        Some(n) => n,
        None => {
            proof {
                assert(false);
            }
            0
        },
    }
}

/// Greedy word wrap in cells, the reservation behind the paint's word
/// wrap: words fill each line up to the width and an oversized word breaks
/// across lines. A width of zero measures as one cell.
pub fn wrapped_lines(text: &str, width: usize) -> (lines: u16)
    requires
        wrapped_lines_spec(text@, width as nat) <= u16::MAX,
    ensures
        lines as int == wrapped_lines_spec(text@, width as nat),
{
    let widths = word_cell_widths(text);
    wrap_line_count(&widths, width)
}

/// The wrap line count of a text, when it fits in 16 bits; `None` for a
/// text so long that the count does not.
pub fn wrapped_lines_checked(text: &str, width: usize) -> (lines: Option<u16>)
    ensures
        match lines {
            Some(n) => n as int == wrapped_lines_spec(text@, width as nat),
            None => wrapped_lines_spec(text@, width as nat) > u16::MAX,
        },
{
    let widths = word_cell_widths(text);
    wrap_line_count_checked(&widths, width)
}

/// The largest of the widths, 0 for none.
pub fn widest(widths: &Vec<usize>) -> (w: usize)
    ensures
        w as int == seq_max(as_ints(widths@)),
{
    let ghost lens = as_ints(widths@);
    let mut best: usize = 0;
    let mut i: usize = 0;
    while i < widths.len()
        invariant
            0 <= i <= widths@.len(),
            lens == as_ints(widths@),
            best as int == seq_max(lens.take(i as int)),
        decreases widths@.len() - i,
    {
        assert(lens.take(i + 1).drop_last() =~= lens.take(i as int));
        let len = widths[i];
        if len > best {
            best = len;
        }
        i = i + 1;
    }
    assert(lens.take(widths@.len() as int) =~= lens);
    best
}

/// The widest single word: the narrowest a text can measure (its
/// min-content width).
pub fn longest_word(text: &str) -> (w: usize)
    ensures
        w as int == seq_max(word_widths(split_words(text@, false))),
{
    widest(&word_cell_widths(text))
}

/// Leading ASCII whitespace, the collapse's separator class.
pub fn starts_spaced(raw: &str) -> (r: bool)
    ensures
        r == (raw@.len() > 0 && is_ascii_ws(raw@[0])),
{
    let cs = chars_of(raw);
    cs.len() > 0 && is_ascii_ws_exec(cs[0])
}

/// Trailing ASCII whitespace.
pub fn ends_spaced(raw: &str) -> (r: bool)
    ensures
        r == (raw@.len() > 0 && is_ascii_ws(raw@.last())),
{
    let cs = chars_of(raw);
    cs.len() > 0 && is_ascii_ws_exec(cs[cs.len() - 1])
}

fn rotation_exec(glyph: char, degrees: u16) -> (r: Option<char>)
    ensures
        r == rotation(glyph, degrees),
{
    if glyph == '\u{25b6}' && degrees == 90 {
        Some('\u{25bc}')
    } else if glyph == '\u{25b6}' && degrees == 180 {
        Some('\u{25c0}')
    } else if glyph == '\u{25b6}' && degrees == 270 {
        Some('\u{25b2}')
    } else if glyph == '\u{25b8}' && degrees == 90 {
        Some('\u{25be}')
    } else if glyph == '\u{25b8}' && degrees == 180 {
        Some('\u{25c2}')
    } else if glyph == '\u{25b8}' && degrees == 270 {
        Some('\u{25b4}')
    } else if glyph == '\u{25bc}' && degrees == 90 {
        Some('\u{25c0}')
    } else if glyph == '\u{25bc}' && degrees == 180 {
        Some('\u{25b2}')
    } else if glyph == '\u{25bc}' && degrees == 270 {
        Some('\u{25b6}')
    } else {
        None
    }
}

/// The terminal's take on rotating a marker glyph: single glyphs with a
/// right-angle mapping swap; everything else keeps its upright form.
pub fn rotated_glyph(text: String, degrees: u16) -> (r: String)
    ensures
        (degrees != 0 && text@.len() == 1 && rotation(text@[0], degrees) is Some) ==> r@ == seq![
            rotation(text@[0], degrees)->0,
        ],
        !(degrees != 0 && text@.len() == 1 && rotation(text@[0], degrees) is Some) ==> r@
            == text@,
{
    if degrees == 0 {
        return text;
    }
    let cs = chars_of(text.as_str());
    if cs.len() != 1 {
        return text;
    }
    match rotation_exec(cs[0], degrees) {
        Some(to) => {
            let mut out = String::new();
            push_char(&mut out, to);
            assert(out@ =~= seq![to]);
            out
        },
        None => text,
    }
}

} // verus!
