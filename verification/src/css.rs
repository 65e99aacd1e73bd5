//! The terminal side of CSS: a computed text style as the cell style it
//! paints with, what the document paint does at each laid node, and the
//! pointer's hit on the laid-out document boxes.

use vstd::prelude::*;

use crate::ansi::{Color, BOLD, CROSSED_OUT, DIM, ITALIC, REVERSED, UNDERLINED};
use crate::geometry::Rect;
use crate::render::{has_class, has_class_exec};

verus! {

/// A CSS color as the stylesheet resolves it for the terminal.
#[derive(Debug, Clone, Copy, PartialEq, Eq, Structural)]
pub enum CssColor {
    /// One of the sixteen palette colors (a named terminal color).
    Ansi(Color),
    /// A truecolor triple.
    Rgb(u8, u8, u8),
    /// The selection highlight: painted as reverse video.
    Highlight,
}

/// The text-relevant part of a computed style.
#[derive(Debug, Clone, Copy, PartialEq, Eq, Structural)]
pub struct ComputedText {
    pub color: Option<CssColor>,
    pub background: Option<CssColor>,
    pub bold: bool,
    pub italic: bool,
    pub dim: bool,
    pub underlined: bool,
    pub crossed_out: bool,
    /// `text-align: center`.
    pub center: bool,
}

/// A cell style: the colors it sets, if any, and the modifier bits it
/// adds.
#[derive(Debug, Clone, Copy, PartialEq, Eq, Structural)]
pub struct TextStyle {
    pub fg: Option<Color>,
    pub bg: Option<Color>,
    pub modifier: u16,
}

/// The terminal color of a CSS color; the highlight is reverse video at
/// the call sites and converts to the reset.
pub open spec fn convert_color_spec(color: CssColor) -> Color {
    match color {
        CssColor::Ansi(c) => c,
        CssColor::Rgb(r, g, b) => Color::Rgb(r, g, b),
        CssColor::Highlight => Color::Reset,
    }
}

/// The terminal color of a CSS color.
pub fn convert_color(color: CssColor) -> (c: Color)
    ensures
        c == convert_color_spec(color),
{
    match color {
        CssColor::Ansi(c) => c,
        CssColor::Rgb(r, g, b) => Color::Rgb(r, g, b),
        CssColor::Highlight => Color::Reset,
    }
}

/// The bit when the flag is set.
pub open spec fn bit_if(flag: bool, bit: u16) -> u16 {
    if flag {
        bit
    } else {
        0
    }
}

/// The cell style a computed style paints with, and whether it centers:
/// the color as foreground; a highlight background as reverse video, any
/// other as background; the text decorations as modifiers.
pub open spec fn text_style_spec(computed: ComputedText) -> (TextStyle, bool) {
    let highlight = computed.background == Some(CssColor::Highlight);
    (
        TextStyle {
            fg: match computed.color {
                Some(c) => Some(convert_color_spec(c)),
                None => None,
            },
            bg: match computed.background {
                Some(CssColor::Highlight) => None,
                Some(b) => Some(convert_color_spec(b)),
                None => None,
            },
            modifier: bit_if(highlight, REVERSED) | bit_if(computed.bold, BOLD) | bit_if(
                computed.italic,
                ITALIC,
            ) | bit_if(computed.dim, DIM) | bit_if(computed.underlined, UNDERLINED) | bit_if(
                computed.crossed_out,
                CROSSED_OUT,
            ),
        },
        computed.center,
    )
}

proof fn lemma_modifier_bits(r: bool, b: bool, i: bool, d: bool, u: bool, x: bool, m: u16)
    by (bit_vector)
    requires
        m == (if r { 0x40u16 } else { 0u16 }) | (if b { 1u16 } else { 0u16 }) | (if i { 4u16 } else { 0u16 }) | (if d {
            2u16
        } else {
            0u16
        }) | (if u { 8u16 } else { 0u16 }) | (if x { 0x100u16 } else { 0u16 }),
    ensures
        (m & 0x40u16 != 0) == r,
        (m & 1u16 != 0) == b,
        (m & 4u16 != 0) == i,
        (m & 2u16 != 0) == d,
        (m & 8u16 != 0) == u,
        (m & 0x100u16 != 0) == x,
        m & !0x14fu16 == 0,
{
}

/// Each text decoration maps to its own cell modifier and no other: the
/// cell style is bold exactly when the computed style is, italic, dim,
/// underlined and crossed out likewise, reversed exactly for a highlight
/// background, and it sets no other modifier. The foreground is the
/// computed color, the background the computed one unless it is the
/// highlight, and the centering passes through.
pub proof fn law_text_style_modifiers(computed: ComputedText)
    ensures
        ({
            let (style, center) = text_style_spec(computed);
            &&& (style.modifier & BOLD != 0) == computed.bold
            &&& (style.modifier & ITALIC != 0) == computed.italic
            &&& (style.modifier & DIM != 0) == computed.dim
            &&& (style.modifier & UNDERLINED != 0) == computed.underlined
            &&& (style.modifier & CROSSED_OUT != 0) == computed.crossed_out
            &&& (style.modifier & REVERSED != 0) == (computed.background == Some(CssColor::Highlight))
            &&& style.modifier & !(BOLD | ITALIC | DIM | UNDERLINED | CROSSED_OUT | REVERSED) == 0
            &&& (computed.color matches Some(c) ==> style.fg == Some(convert_color_spec(c)))
            &&& (computed.color is None ==> style.fg is None)
            &&& (computed.background matches Some(c) ==> (c != CssColor::Highlight ==> style.bg == Some(
                convert_color_spec(c),
            )))
            &&& (computed.background is None || computed.background == Some(CssColor::Highlight)
                ==> style.bg is None)
            &&& center == computed.center
        }),
{
    let m = text_style_spec(computed).0.modifier;
    lemma_modifier_bits(
        computed.background == Some(CssColor::Highlight),
        computed.bold,
        computed.italic,
        computed.dim,
        computed.underlined,
        computed.crossed_out,
        m,
    );
    assert(BOLD | ITALIC | DIM | UNDERLINED | CROSSED_OUT | REVERSED == 0x14fu16) by (bit_vector);
    assert(BOLD == 1u16 && ITALIC == 4u16 && DIM == 2u16 && UNDERLINED == 8u16 && CROSSED_OUT == 0x100u16
        && REVERSED == 0x40u16);
}

/// The cell style a computed style paints with, plus its centering flag.
pub fn text_style(computed: &ComputedText) -> (r: (TextStyle, bool))
    ensures
        r == text_style_spec(*computed),
{
    let fg = match computed.color {
        Some(c) => Some(convert_color(c)),
        None => None,
    };
    let (bg, highlight) = match computed.background {
        Some(CssColor::Highlight) => (None, true),
        Some(b) => (Some(convert_color(b)), false),
        None => (None, false),
    };
    let modifier: u16 = (if highlight {
        REVERSED
    } else {
        0
    }) | (if computed.bold {
        BOLD
    } else {
        0
    }) | (if computed.italic {
        ITALIC
    } else {
        0
    }) | (if computed.dim {
        DIM
    } else {
        0
    }) | (if computed.underlined {
        UNDERLINED
    } else {
        0
    }) | (if computed.crossed_out {
        CROSSED_OUT
    } else {
        0
    });
    (TextStyle { fg, bg, modifier }, computed.center)
}

/// A laid-out document box: the node it belongs to, its cells, and the
/// boxes laid inside it.
#[derive(Debug)]
pub struct LaidBox {
    pub node: u64,
    pub rect: Rect,
    pub children: Vec<LaidBox>,
}

/// The node under a cell: the first box holding it, refined into its
/// children's boxes while one of them holds it too.
pub open spec fn hit_from(boxes: Seq<LaidBox>, i: int, column: u16, row: u16) -> Option<u64>
    decreases boxes, boxes.len() - i,
{
    if i < 0 || i >= boxes.len() {
        None
    } else if boxes[i].rect.contains_spec(column, row) {
        match hit_from(boxes[i].children@, 0, column, row) {
            Some(inner) => Some(inner),
            None => Some(boxes[i].node),
        }
    } else {
        hit_from(boxes, i + 1, column, row)
    }
}

/// The deepest node whose box holds the cell, searching the first box
/// that does at each level.
pub fn hit_node(boxes: &Vec<LaidBox>, column: u16, row: u16) -> (hit: Option<u64>)
    ensures
        hit == hit_from(boxes@, 0, column, row),
    decreases boxes@,
{
    let mut i: usize = 0;
    while i < boxes.len()
        invariant
            0 <= i <= boxes@.len(),
            hit_from(boxes@, i as int, column, row) == hit_from(boxes@, 0, column, row),
        decreases boxes@.len() - i,
    {
        let b = &boxes[i];
        if b.rect.contains(column, row) {
            assert(decreases_to!(boxes@ => boxes@[i as int]));
            assert(decreases_to!(boxes@[i as int] => boxes@[i as int].children@));
            return match hit_node(&b.children, column, row) {
                Some(inner) => Some(inner),
                None => Some(b.node),
            };
        }
        i = i + 1;
    }
    None
}

proof fn lemma_hit_from(boxes: Seq<LaidBox>, i: int, column: u16, row: u16)
    requires
        0 <= i <= boxes.len(),
    ensures
        hit_from(boxes, i, column, row) is Some <==> exists|j: int|
            i <= j < boxes.len() && (#[trigger] boxes[j]).rect.contains_spec(column, row),
    decreases boxes.len() - i,
{
    if i < boxes.len() {
        lemma_hit_from(boxes, i + 1, column, row);
        if boxes[i].rect.contains_spec(column, row) {
            assert(boxes[i].rect.contains_spec(column, row));
        } else {
            if exists|j: int| i <= j < boxes.len() && (#[trigger] boxes[j]).rect.contains_spec(column, row) {
                let j = choose|j: int| i <= j < boxes.len() && (#[trigger] boxes[j]).rect.contains_spec(column, row);
                assert(j != i);
            }
        }
    }
}

/// A pointer hits some node exactly when a top-level box holds the cell:
/// refining into children never loses a hit.
pub proof fn law_hit_iff_a_box_holds_the_cell(boxes: Seq<LaidBox>, column: u16, row: u16)
    ensures
        hit_from(boxes, 0, column, row) is Some <==> exists|j: int|
            0 <= j < boxes.len() && (#[trigger] boxes[j]).rect.contains_spec(column, row),
{
    lemma_hit_from(boxes, 0, column, row);
}

/// What a laid document node is, as the paint walk tells them apart.
#[derive(Debug, Clone, Copy, PartialEq, Eq, Structural)]
pub enum PaintKind {
    Text,
    /// An element carrying `data-tui`: a mounted widget.
    Widget,
    Element,
    /// Anything else (comments, the document node).
    Other,
}

/// What the paint walk knows of one laid node: its box's size, its kind,
/// its own computed background and the one it inherits, whether the
/// cascade gave it a border, whether its component reflects the `error`
/// attribute, whether the focused node lies inside it (its ancestors
/// include it) and whether it is the focused node itself.
#[derive(Debug, Clone, Copy, PartialEq, Eq, Structural)]
pub struct PaintFacts {
    pub width: u16,
    pub height: u16,
    pub kind: PaintKind,
    pub background: Option<CssColor>,
    pub inherited_background: Option<CssColor>,
    pub bordered: bool,
    pub error: bool,
    pub holds_focus: bool,
    pub focused: bool,
}

/// How the paint walk paints an element: the fill of its own background,
/// the color of its border ring, and whether it wears the one-row
/// selection bar of a focused plain node.
#[derive(Debug, Clone, Copy, PartialEq, Eq, Structural)]
pub struct ElementPaint {
    pub fill: Option<Color>,
    pub ring: Option<Color>,
    pub bar: bool,
}

/// What the paint walk does at a laid node.
#[derive(Debug, Clone, Copy, PartialEq, Eq, Structural)]
pub enum PaintStep {
    /// Nothing here, nor below.
    Skip,
    /// The text, in its inherited style.
    Text,
    /// The widget paints itself; its children are not walked.
    Widget,
    /// The element's own paint, then its children with its style.
    Element(ElementPaint),
}

/// The ring of a bordered box: on an input group the error outline wins
/// over the focus ring, which wins over the resting gray; any other
/// bordered block stays gray.
pub open spec fn ring_color(input_group: bool, error: bool, holds_focus: bool) -> Color {
    if input_group && error {
        Color::Red
    } else if input_group && holds_focus {
        Color::LightBlue
    } else {
        Color::DarkGray
    }
}

/// The paint walk's decision at a node with these facts and classes: an
/// empty box paints nothing; an element's own background, where it
/// differs from the inherited one, fills its box unless it is the
/// highlight (a text-run effect); a bordered box gets its ring; the
/// focused plain node gets the bar.
pub open spec fn paint_step_spec(f: PaintFacts, classes: Seq<String>) -> PaintStep {
    if f.width == 0 || f.height == 0 {
        PaintStep::Skip
    } else {
        match f.kind {
            PaintKind::Text => PaintStep::Text,
            PaintKind::Widget => PaintStep::Widget,
            PaintKind::Other => PaintStep::Skip,
            PaintKind::Element => PaintStep::Element(
                ElementPaint {
                    fill: if f.background != f.inherited_background {
                        match f.background {
                            Some(bg) => if bg != CssColor::Highlight {
                                Some(convert_color_spec(bg))
                            } else {
                                None
                            },
                            None => None,
                        }
                    } else {
                        None
                    },
                    ring: if f.bordered {
                        Some(ring_color(has_class(classes, "input-group"@), f.error, f.holds_focus))
                    } else {
                        None
                    },
                    bar: f.focused,
                },
            ),
        }
    }
}

/// A palette color paints as itself and a truecolor as the same triple;
/// only the highlight, a reverse-video effect, has no color of its own.
pub proof fn law_colors_convert_as_themselves(c: Color, r: u8, g: u8, b: u8)
    ensures
        convert_color_spec(CssColor::Ansi(c)) == c,
        convert_color_spec(CssColor::Rgb(r, g, b)) == Color::Rgb(r, g, b),
        convert_color_spec(CssColor::Highlight) == Color::Reset,
{
}

/// The paint walk's decisions: a box without cells paints nothing, text
/// paints as text, a widget paints itself, and an element paints with a
/// fill exactly when it has a background of its own that is neither the
/// inherited one nor the highlight (the fill is that color), a ring
/// exactly when the cascade bordered it (red for an input group in error,
/// else light blue for an input group holding the focus, else dark gray),
/// and the bar exactly when it is the focused node.
pub proof fn law_paint_decisions(f: PaintFacts, classes: Seq<String>)
    ensures
        f.width == 0 || f.height == 0 ==> paint_step_spec(f, classes) == PaintStep::Skip,
        f.width > 0 && f.height > 0 && f.kind == PaintKind::Text ==> paint_step_spec(f, classes) == PaintStep::Text,
        f.width > 0 && f.height > 0 && f.kind == PaintKind::Widget ==> paint_step_spec(f, classes)
            == PaintStep::Widget,
        f.width > 0 && f.height > 0 && f.kind == PaintKind::Other ==> paint_step_spec(f, classes)
            == PaintStep::Skip,
        f.width > 0 && f.height > 0 && f.kind == PaintKind::Element ==> (paint_step_spec(f, classes) matches PaintStep::Element(p)
            && p.bar == f.focused && (p.ring is Some) == f.bordered && (p.fill is Some) == (f.background is Some
            && f.background != f.inherited_background && f.background != Some(CssColor::Highlight)) && (
        f.background matches Some(bg) ==> (p.fill is Some ==> p.fill == Some(convert_color_spec(bg)))) && (
        f.bordered ==> (p.ring == Some(Color::Red)) == (has_class(classes, "input-group"@) && f.error)) && (
        f.bordered && !f.error && has_class(classes, "input-group"@) ==> p.ring == Some(
            if f.holds_focus {
                Color::LightBlue
            } else {
                Color::DarkGray
            },
        )) && (f.bordered && !has_class(classes, "input-group"@) ==> p.ring == Some(Color::DarkGray))),
{
}

fn same_color(a: Option<CssColor>, b: Option<CssColor>) -> (r: bool)
    ensures
        r == (a == b),
{
    match (a, b) {
        (None, None) => true,
        (Some(x), Some(y)) => x == y,
        _ => false,
    }
}

/// What the document paint does at one laid node; `classes` are the
/// node's effective classes.
pub fn paint_step(facts: &PaintFacts, classes: &Vec<String>) -> (step: PaintStep)
    ensures
        step == paint_step_spec(*facts, classes@),
{
    if facts.width == 0 || facts.height == 0 {
        return PaintStep::Skip;
    }
    match facts.kind {
        PaintKind::Text => PaintStep::Text,
        PaintKind::Widget => PaintStep::Widget,
        PaintKind::Other => PaintStep::Skip,
        PaintKind::Element => {
            let fill = if !same_color(facts.background, facts.inherited_background) {
                match facts.background {
                    Some(bg) => if bg != CssColor::Highlight {
                        Some(convert_color(bg))
                    } else {
                        None
                    },
                    None => None,
                }
            } else {
                None
            };
            let ring = if facts.bordered {
                let group = has_class_exec(classes, "input-group");
                Some(
                    if group && facts.error {
                        Color::Red
                    } else if group && facts.holds_focus {
                        Color::LightBlue
                    } else {
                        Color::DarkGray
                    },
                )
            } else {
                None
            };
            PaintStep::Element(ElementPaint { fill, ring, bar: facts.focused })
        },
    }
}

fn chain_holds(chain: &Vec<u64>, node: u64) -> (r: bool)
    ensures
        r == chain@.contains(node),
{
    let mut i: usize = 0;
    while i < chain.len()
        invariant
            0 <= i <= chain@.len(),
            forall|j: int| 0 <= j < i ==> chain@[j] != node,
        decreases chain@.len() - i,
    {
        if chain[i] == node {
            assert(chain@[i as int] == node);
            return true;
        }
        i = i + 1;
    }
    false
}

/// Whether the focused node lies inside the subtree rooted at `node`:
/// `focus_chain` is what the document yields walking up from the focused
/// node, `None` without focus.
pub fn focus_inside(focus_chain: &Option<Vec<u64>>, node: u64) -> (r: bool)
    ensures
        r == match focus_chain {
            Some(chain) => chain@.contains(node),
            None => false,
        },
{
    match focus_chain {
        Some(chain) => chain_holds(chain, node),
        None => false,
    }
}

} // verus!
