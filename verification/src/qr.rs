//! The terminal twin of `<qr-code>`: a QR code rendered in half-block
//! characters, two modules per row, quiet zone included — the text a host
//! paints black on white (a camera wants dark modules on a light ground
//! whatever the terminal theme).

use vstd::prelude::*;

use crate::strings::chars_of;
use crate::text::seq_max;

verus! {

/// Anchors this module's object code in consuming binaries, so a widget
/// registration living beside it survives the linker.
#[inline(never)]
pub fn link() {
}

/// The half-block rendering of `data` as the `qrcode` crate produces it:
/// `None` when the encoder rejects the payload (too long for any version).
pub uninterp spec fn qr_dense_render(data: Seq<char>) -> Option<Seq<char>>;

/// `qrcode::QrCode::new` (medium error correction, smallest version that
/// fits) followed by `render::<unicode::Dense1x2>().build()`: the code's
/// half-block text, or `None` when the encoder rejects the data. The claim
/// is only that the result is a function of the data; its shape is not
/// stated.
#[verifier::external_body]
fn qr_dense_text(data: &str) -> (r: Option<String>)
    ensures
        r is Some <==> qr_dense_render(data@) is Some,
        r matches Some(text) ==> text@ == qr_dense_render(data@)->0,
{
    match qrcode::QrCode::new(data) {
        Ok(code) => Some(code.render::<qrcode::render::unicode::Dense1x2>().build()),
        Err(_) => None,
    }
}

/// A line with its trailing carriage return removed.
pub open spec fn strip_cr(line: Seq<char>) -> Seq<char> {
    if line.len() > 0 && line.last() == '\r' {
        line.drop_last()
    } else {
        line
    }
}

/// Left-to-right scan of a text into finished lines and the line still
/// open at the end.
pub open spec fn scan_lines(s: Seq<char>) -> (Seq<Seq<char>>, Seq<char>)
    decreases s.len(),
{
    if s.len() == 0 {
        (Seq::empty(), Seq::empty())
    } else {
        let (done, open) = scan_lines(s.drop_last());
        if s.last() == '\n' {
            (done.push(strip_cr(open)), Seq::empty())
        } else {
            (done, open.push(s.last()))
        }
    }
}

/// The lines of a text as `str::lines` yields them: split at `\n`, a
/// `\r\n` ending counts as one terminator, and a final terminator opens no
/// empty line.
pub open spec fn text_lines(s: Seq<char>) -> Seq<Seq<char>> {
    let (done, open) = scan_lines(s);
    if open.len() > 0 {
        done.push(open)
    } else {
        done
    }
}

/// The lines' lengths in characters.
pub open spec fn line_lengths(lines: Seq<Seq<char>>) -> Seq<int> {
    lines.map_values(|line: Seq<char>| line.len() as int)
}

/// The size a text block paints at: the longest line in characters and the
/// line count, each as a cell count.
pub open spec fn block_size(text: Seq<char>) -> (u16, u16) {
    (
        seq_max(line_lengths(text_lines(text))) as u16,
        text_lines(text).len() as u16,
    )
}

/// The size a text block paints at: the longest line in characters and the
/// line count.
pub fn text_block_size(text: &str) -> (size: (u16, u16))
    ensures
        size == block_size(text@),
{
    let cs = chars_of(text);
    let mut done: usize = 0;
    let mut widest: usize = 0;
    let mut open: usize = 0;
    let mut open_cr = false;
    let ghost mut lines: Seq<Seq<char>> = Seq::empty();
    let ghost mut current: Seq<char> = Seq::empty();
    let mut i: usize = 0;
    while i < cs.len()
        invariant
            0 <= i <= cs@.len(),
            cs@ == text@,
            (lines, current) == scan_lines(cs@.take(i as int)),
            done as int == lines.len(),
            widest as int == seq_max(line_lengths(lines)),
            open as int == current.len(),
            open_cr == (current.len() > 0 && current.last() == '\r'),
            done + open <= i,
            widest <= i,
        decreases cs@.len() - i,
    {
        assert(cs@.take(i + 1).drop_last() =~= cs@.take(i as int));
        let c = cs[i];
        if c == '\n' {
            let length = if open_cr {
                open - 1
            } else {
                open
            };
            proof {
                let finished = strip_cr(current);
                assert(line_lengths(lines.push(finished)).drop_last() =~= line_lengths(lines));
                lines = lines.push(finished);
                current = Seq::empty();
            }
            if length > widest {
                widest = length;
            }
            done = done + 1;
            open = 0;
            open_cr = false;
        } else {
            proof {
                current = current.push(c);
            }
            open = open + 1;
            open_cr = c == '\r';
        }
        i = i + 1;
    }
    assert(cs@.take(cs@.len() as int) =~= cs@);
    if open > 0 {
        proof {
            assert(line_lengths(lines.push(current)).drop_last() =~= line_lengths(lines));
        }
        if open > widest {
            widest = open;
        }
        done = done + 1;
    }
    (widest as u16, done as u16)
}

/// Renders `data` as a QR code in half-block characters, standard
/// polarity (dark modules are the block glyphs), with the text's width and
/// height in cells. `None` for empty data or a payload the encoder
/// rejects.
pub fn render_qr(data: &str) -> (r: Option<(String, u16, u16)>)
    ensures
        r is Some <==> (data@.len() > 0 && qr_dense_render(data@) is Some),
        r matches Some((text, width, height)) ==> {
            &&& text@ == qr_dense_render(data@)->0
            &&& (width, height) == block_size(text@)
        },
{
    if data.is_empty() {
        return None;
    }
    match qr_dense_text(data) {
        Some(text) => {
            let (width, height) = text_block_size(text.as_str());
            Some((text, width, height))
        },
        None => None,
    }
}

} // verus!
