//! Painting decisions of the render tree: the resolved template nodes laid
//! out in cells, the small set of Bootstrap text classes mapped to terminal
//! styles, the input group's border, widget alignment, the focus search and
//! the content height a root used.

use vstd::prelude::*;

use crate::ansi::Color;
use crate::geometry::Rect;
use crate::strings::{chars_eq_str, chars_of};

verus! {

/// A widget leaf's owner: the child-binding path from the rendering
/// instance down to the owning instance, and the slot index there.
#[derive(Debug, Clone, PartialEq, Eq)]
pub struct SlotRef {
    pub path: Vec<usize>,
    pub slot: usize,
}

/// A resolved node: holes evaluated, false conditionals dropped, whitespace
/// collapsed.
#[derive(Debug)]
pub enum RNode {
    Element {
        classes: Vec<String>,
        /// The owning widget slot for interactive leaves.
        slot: Option<SlotRef>,
        /// Layout height (cells) of a widget leaf.
        widget_height: u16,
        children: Vec<RNode>,
    },
    Text(String),
}

/// A resolved node with its computed absolute cell rectangle.
#[derive(Debug)]
pub struct Laid {
    pub rnode: RNode,
    pub rect: Rect,
    pub children: Vec<Laid>,
}

/// Horizontal text alignment.
#[derive(Debug, Clone, Copy, PartialEq, Eq, Structural)]
pub enum Alignment {
    Left,
    Center,
    Right,
}

/// Text styling inherited down the element tree.
#[derive(Debug, Clone, Copy, PartialEq, Eq, Structural)]
pub struct Hints {
    pub bold: bool,
    pub italic: bool,
    pub dim: bool,
    pub center: bool,
    pub fg: Option<Color>,
}

/// True when the laid node is the focused widget's leaf.
pub open spec fn is_focus_leaf(laid: Laid, path: Seq<usize>, slot: usize) -> bool {
    match laid.rnode {
        RNode::Element { slot: Some(slot_ref), .. } => slot_ref.path@ == path && slot_ref.slot
            == slot,
        _ => false,
    }
}

/// True when the focused widget's slot lies inside this laid subtree.
pub open spec fn holds_focus(laid: Laid, path: Seq<usize>, slot: usize) -> bool
    decreases laid,
{
    is_focus_leaf(laid, path, slot) || exists|i: int|
        0 <= i < laid.children@.len() && holds_focus(
            #[trigger] laid.children@[i],
            path,
            slot,
        )
}

/// The lowest row a laid subtree reaches.
pub open spec fn subtree_bottom(laid: Laid) -> int
    decreases laid,
{
    children_bottom(laid.children@, laid.children@.len() as int, laid.rect.bottom_spec() as int)
}

/// The lowest row among the first `k` children, starting from `floor`.
pub open spec fn children_bottom(children: Seq<Laid>, k: int, floor: int) -> int
    decreases children, k,
{
    if k <= 0 || k > children.len() {
        floor
    } else {
        let rest = children_bottom(children, k - 1, floor);
        let b = subtree_bottom(children[k - 1]);
        if b > rest {
            b
        } else {
            rest
        }
    }
}

/// The class list holds the class.
pub open spec fn has_class(classes: Seq<String>, class: Seq<char>) -> bool {
    exists|i: int| 0 <= i < classes.len() && #[trigger] classes[i]@ == class
}

/// One class's effect on the inherited hints.
pub open spec fn merge_class(h: Hints, class: Seq<char>) -> Hints {
    if class == "form-label"@ {
        Hints { bold: true, ..h }
    } else if class == "fst-italic"@ {
        Hints { italic: true, ..h }
    } else if class == "small"@ || class == "text-small"@ {
        Hints { dim: true, ..h }
    } else if class == "text-center"@ {
        Hints { center: true, ..h }
    } else if class == "text-danger"@ {
        Hints { fg: Some(Color::LightRed), ..h }
    } else if class == "text-muted"@ || class == "text-secondary"@ {
        Hints { fg: Some(Color::DarkGray), ..h }
    } else {
        h
    }
}

/// The hints after the first `k` classes, in order.
pub open spec fn merge_classes(h: Hints, classes: Seq<String>, k: int) -> Hints
    decreases k,
{
    if k <= 0 || k > classes.len() {
        h
    } else {
        merge_class(merge_classes(h, classes, k - 1), classes[k - 1]@)
    }
}

fn is_class(class: &String, name: &str) -> (r: bool)
    ensures
        r == (class@ == name@),
{
    let c = chars_of(class.as_str());
    chars_eq_str(&c, name)
}

/// True when the class list holds the class.
pub fn has_class_exec(classes: &Vec<String>, class: &str) -> (r: bool)
    ensures
        r == has_class(classes@, class@),
{
    let mut i: usize = 0;
    while i < classes.len()
        invariant
            0 <= i <= classes@.len(),
            forall|j: int| 0 <= j < i ==> classes@[j]@ != class@,
        decreases classes@.len() - i,
    {
        if is_class(&classes[i], class) {
            return true;
        }
        i = i + 1;
    }
    false
}

impl Hints {
    /// No styling.
    pub fn none() -> (h: Hints)
        ensures
            h == (Hints { bold: false, italic: false, dim: false, center: false, fg: None }),
    {
        Hints { bold: false, italic: false, dim: false, center: false, fg: None }
    }

    /// Applies the element's text classes, in order: `form-label` bolds,
    /// `fst-italic` slants, `small` dims, `text-center` centers,
    /// `text-danger` colors light red, `text-muted` dark gray.
    pub fn merge(self, classes: &Vec<String>) -> (h: Hints)
        ensures
            h == merge_classes(self, classes@, classes@.len() as int),
    {
        let mut h = self;
        let mut i: usize = 0;
        while i < classes.len()
            invariant
                0 <= i <= classes@.len(),
                h == merge_classes(self, classes@, i as int),
            decreases classes@.len() - i,
        {
            let class = &classes[i];
            if is_class(class, "form-label") {
                h = Hints { bold: true, ..h };
            } else if is_class(class, "fst-italic") {
                h = Hints { italic: true, ..h };
            } else if is_class(class, "small") || is_class(class, "text-small") {
                h = Hints { dim: true, ..h };
            } else if is_class(class, "text-center") {
                h = Hints { center: true, ..h };
            } else if is_class(class, "text-danger") {
                h = Hints { fg: Some(Color::LightRed), ..h };
            } else if is_class(class, "text-muted") || is_class(class, "text-secondary") {
                h = Hints { fg: Some(Color::DarkGray), ..h };
            }
            i = i + 1;
        }
        h
    }
}

/// A widget's text alignment from the classes the browser styles it by:
/// `text-end` right, else `text-center` centered, else none.
pub fn widget_alignment(classes: &Vec<String>) -> (a: Option<Alignment>)
    ensures
        a == if has_class(classes@, "text-end"@) {
            Some(Alignment::Right)
        } else if has_class(classes@, "text-center"@) {
            Some(Alignment::Center)
        } else {
            None::<Alignment>
        },
{
    if has_class_exec(classes, "text-end") {
        Some(Alignment::Right)
    } else if has_class_exec(classes, "text-center") {
        Some(Alignment::Center)
    } else {
        None
    }
}

/// The input group's border color: the error outline wins over the focus
/// ring, like the browser keeping the red outline on a focused invalid
/// input; at rest the border is dark gray.
pub fn group_border(classes: &Vec<String>, focused: bool) -> (c: Color)
    ensures
        c == if has_class(classes@, "is-invalid"@) {
            Color::Red
        } else if focused {
            Color::LightBlue
        } else {
            Color::DarkGray
        },
{
    if has_class_exec(classes, "is-invalid") {
        Color::Red
    } else if focused {
        Color::LightBlue
    } else {
        Color::DarkGray
    }
}

fn path_eq(a: &Vec<usize>, b: &Vec<usize>) -> (r: bool)
    ensures
        r == (a@ == b@),
{
    if a.len() != b.len() {
        return false;
    }
    let mut i: usize = 0;
    while i < a.len()
        invariant
            a@.len() == b@.len(),
            0 <= i <= a@.len(),
            forall|j: int| 0 <= j < i ==> a@[j] == b@[j],
        decreases a@.len() - i,
    {
        if a[i] != b[i] {
            return false;
        }
        i = i + 1;
    }
    assert(a@ =~= b@);
    true
}

fn walk(laid: &Laid, path: &Vec<usize>, slot: usize) -> (r: bool)
    ensures
        r == holds_focus(*laid, path@, slot),
    decreases laid,
{
    if let RNode::Element { slot: Some(slot_ref), .. } = &laid.rnode {
        if path_eq(&slot_ref.path, path) && slot_ref.slot == slot {
            return true;
        }
    }
    let mut i: usize = 0;
    while i < laid.children.len()
        invariant
            0 <= i <= laid.children@.len(),
            !is_focus_leaf(*laid, path@, slot),
            forall|j: int| 0 <= j < i ==> !holds_focus(#[trigger] laid.children@[j], path@, slot),
        decreases laid.children@.len() - i,
    {
        assert(decreases_to!(laid => laid.children@[i as int]));
        if walk(&laid.children[i], path, slot) {
            return true;
        }
        i = i + 1;
    }
    false
}

/// True when the focused widget's slot lies inside this laid subtree.
pub fn contains_focus(laid: &Laid, focus: &Option<(Vec<usize>, usize)>) -> (r: bool)
    ensures
        r == match focus {
            Some((path, slot)) => holds_focus(*laid, path@, *slot),
            None => false,
        },
{
    match focus {
        Some((path, slot)) => walk(laid, path, *slot),
        None => false,
    }
}

fn bottom(laid: &Laid) -> (b: u16)
    ensures
        b as int == subtree_bottom(*laid),
    decreases laid,
{
    let mut lowest = laid.rect.bottom();
    let mut i: usize = 0;
    while i < laid.children.len()
        invariant
            0 <= i <= laid.children@.len(),
            lowest as int == children_bottom(
                laid.children@,
                i as int,
                laid.rect.bottom_spec() as int,
            ),
        decreases laid.children@.len() - i,
    {
        assert(decreases_to!(laid => laid.children@[i as int]));
        let b = bottom(&laid.children[i]);
        if b > lowest {
            lowest = b;
        }
        i = i + 1;
    }
    lowest
}

/// The lowest row among the first `k` roots, `None` without any.
pub open spec fn roots_bottom(laid: Seq<Laid>, k: int) -> Option<int>
    decreases k,
{
    if k <= 0 || k > laid.len() {
        None
    } else {
        let b = subtree_bottom(laid[k - 1]);
        match roots_bottom(laid, k - 1) {
            Some(rest) => Some(if b > rest {
                b
            } else {
                rest
            }),
            None => Some(b),
        }
    }
}

/// The content height the laid roots used below the area's top row (the
/// area's own top when nothing was laid).
pub open spec fn content_height_spec(laid: Seq<Laid>, area: Rect) -> int {
    let lowest = match roots_bottom(laid, laid.len() as int) {
        Some(b) => b,
        None => area.y as int,
    };
    if lowest > area.y {
        lowest - area.y
    } else {
        0
    }
}

/// The content height the laid roots used, so a host can stack several
/// roots.
pub fn content_height(laid: &Vec<Laid>, area: Rect) -> (h: u16)
    ensures
        h as int == content_height_spec(laid@, area),
{
    let mut lowest: Option<u16> = None;
    let mut i: usize = 0;
    while i < laid.len()
        invariant
            0 <= i <= laid@.len(),
            match roots_bottom(laid@, i as int) {
                Some(b) => lowest == Some(b as u16) && 0 <= b <= u16::MAX,
                None => lowest is None,
            },
        decreases laid@.len() - i,
    {
        let b = bottom(&laid[i]);
        lowest = match lowest {
            Some(rest) => Some(if b > rest {
                b
            } else {
                rest
            }),
            None => Some(b),
        };
        i = i + 1;
    }
    let value = match lowest {
        Some(b) => b,
        None => area.y,
    };
    value.saturating_sub(area.y)
}

/// What a text-bearing widget shows over its own paint: the placeholder
/// under an empty value, the committed text aligned at rest, or nothing.
#[derive(Debug, Clone, Copy, PartialEq, Eq, Structural)]
pub enum WidgetText {
    /// Nothing beyond the widget's own paint.
    Plain,
    /// The placeholder, dark gray, with this alignment.
    Placeholder(Alignment),
    /// The committed text with this alignment (dimmed when disabled).
    Aligned(Alignment),
}

/// The overlay rule: selects paint their own closed label; an empty value
/// shows a non-empty placeholder (left-aligned unless the classes align
/// it); a value shows aligned only at rest, since editing stays
/// left-aligned where the caret math lives.
pub open spec fn widget_text_spec(
    select: bool,
    committed_empty: bool,
    placeholder: Option<Seq<char>>,
    align: Option<Alignment>,
    focused: bool,
) -> WidgetText {
    if select {
        WidgetText::Plain
    } else if committed_empty {
        match placeholder {
            Some(p) if p.len() > 0 => WidgetText::Placeholder(
                match align {
                    Some(a) => a,
                    None => Alignment::Left,
                },
            ),
            _ => WidgetText::Plain,
        }
    } else {
        match align {
            Some(a) if !focused => WidgetText::Aligned(a),
            _ => WidgetText::Plain,
        }
    }
}

/// What a text-bearing widget shows over its own paint.
pub fn widget_text(
    select: bool,
    committed: &str,
    placeholder: Option<&str>,
    align: Option<Alignment>,
    focused: bool,
) -> (text: WidgetText)
    ensures
        text == widget_text_spec(select, committed@.len() == 0, match placeholder {
            Some(p) => Some(p@),
            None => None,
        }, align, focused),
{
    if select {
        return WidgetText::Plain;
    }
    if committed.is_empty() {
        match placeholder {
            Some(p) => if !p.is_empty() {
                WidgetText::Placeholder(
                    match align {
                        Some(a) => a,
                        None => Alignment::Left,
                    },
                )
            } else {
                WidgetText::Plain
            },
            None => WidgetText::Plain,
        }
    } else {
        match align {
            Some(a) => if !focused {
                WidgetText::Aligned(a)
            } else {
                WidgetText::Plain
            },
            None => WidgetText::Plain,
        }
    }
}

/// Whether the widget in a slot holds the focus.
pub fn slot_focused(focus: &Option<(Vec<usize>, usize)>, slot: &SlotRef) -> (r: bool)
    ensures
        r == match focus {
            Some((path, s)) => path@ == slot.path@ && *s == slot.slot,
            None => false,
        },
{
    match focus {
        Some((path, s)) => path_eq(path, &slot.path) && *s == slot.slot,
        None => false,
    }
}

/// How a widget leaf paints itself.
#[derive(Debug, Clone, Copy, PartialEq, Eq, Structural)]
pub struct WidgetLook {
    /// It wears the focus styling and the caret.
    pub focus: bool,
    /// It paints dimmed.
    pub dim: bool,
}

/// A widget shows focus and its caret only when it holds the focus and is
/// not disabled; a disabled widget paints dimmed, focused or not.
pub fn widget_look(focused: bool, disabled: bool) -> (look: WidgetLook)
    ensures
        look.focus == (focused && !disabled),
        look.dim == disabled,
{
    WidgetLook { focus: focused && !disabled, dim: disabled }
}

} // verus!
