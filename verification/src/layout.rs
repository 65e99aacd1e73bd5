//! The coarse Bootstrap-class to box-style mapping the terminal layout
//! shares with the browser target, in terminal cells: elements are blocks
//! unless a class opts into flex, and an input group reserves its border
//! and side padding.

use vstd::prelude::*;

use crate::render::has_class;
use crate::strings::{chars_eq, chars_eq_str, chars_of};
use crate::text::{split_words, split_words_exec};

verus! {

/// Block or flex layout.
#[derive(Debug, Clone, Copy, PartialEq, Eq, Structural)]
pub enum BoxDisplay {
    Block,
    Flex,
}

/// The flex main axis.
#[derive(Debug, Clone, Copy, PartialEq, Eq, Structural)]
pub enum Direction {
    Row,
    Column,
}

/// Edge sizes in cells: left, right, top, bottom.
#[derive(Debug, Clone, Copy, PartialEq, Eq, Structural)]
pub struct Edges {
    pub left: u16,
    pub right: u16,
    pub top: u16,
    pub bottom: u16,
}

/// A container's box style in cells.
#[derive(Debug, Clone, Copy, PartialEq, Eq, Structural)]
pub struct BoxStyle {
    pub display: BoxDisplay,
    pub direction: Direction,
    /// Flex items never wrap onto a second line.
    pub no_wrap: bool,
    /// The flex grow factor.
    pub grow: u8,
    /// The flex shrink factor.
    pub shrink: u8,
    /// The width is the whole of the container's (`w-100`).
    pub full_width: bool,
    /// The gap between items along a row, in cells.
    pub column_gap: u16,
    /// The box centers itself on the cross axis.
    pub center_self: bool,
    pub padding: Edges,
    pub border: Edges,
}

/// No edge.
pub open spec fn no_edges() -> Edges {
    Edges { left: 0, right: 0, top: 0, bottom: 0 }
}

/// A block with the flex defaults: row axis, no wrap, grow 0, shrink 1,
/// automatic width, no gap, padding or border.
pub open spec fn block_style() -> BoxStyle {
    BoxStyle {
        display: BoxDisplay::Block,
        direction: Direction::Row,
        no_wrap: true,
        grow: 0,
        shrink: 1,
        full_width: false,
        column_gap: 0,
        center_self: false,
        padding: no_edges(),
        border: no_edges(),
    }
}

/// One class's effect on the style; a later class overrides an earlier
/// one on the same property, unknown classes change nothing (`mt-1` is a
/// quarter rem, less than any terminal row).
pub open spec fn apply_class(style: BoxStyle, class: Seq<char>) -> BoxStyle {
    if class == "d-flex"@ || class == "input-group"@ {
        BoxStyle { display: BoxDisplay::Flex, direction: Direction::Row, ..style }
    } else if class == "flex-column"@ {
        BoxStyle { direction: Direction::Column, ..style }
    } else if class == "flex-row"@ {
        BoxStyle { direction: Direction::Row, ..style }
    } else if class == "flex-nowrap"@ {
        BoxStyle { no_wrap: true, ..style }
    } else if class == "flex-grow-0"@ {
        BoxStyle { grow: 0, ..style }
    } else if class == "flex-grow-1"@ {
        BoxStyle { grow: 1, ..style }
    } else if class == "flex-shrink-0"@ {
        BoxStyle { shrink: 0, ..style }
    } else if class == "flex-shrink-1"@ {
        BoxStyle { shrink: 1, ..style }
    } else if class == "w-100"@ {
        BoxStyle { full_width: true, ..style }
    } else if class == "gap-2"@ {
        BoxStyle { column_gap: 1, ..style }
    } else if class == "align-self-center"@ {
        BoxStyle { center_self: true, ..style }
    } else if class == "p-0"@ {
        BoxStyle { padding: no_edges(), ..style }
    } else {
        style
    }
}

/// The style after the first `k` classes, in order.
pub open spec fn apply_classes(classes: Seq<String>, k: int) -> BoxStyle
    decreases k,
{
    if k <= 0 || k > classes.len() {
        block_style()
    } else {
        apply_class(apply_classes(classes, k - 1), classes[k - 1]@)
    }
}

/// A container's style for its classes: each class in order, then an
/// input group's border block (one cell all round) and its one cell of
/// side padding, whatever the classes said.
pub open spec fn container_style_spec(classes: Seq<String>) -> BoxStyle {
    let style = apply_classes(classes, classes.len() as int);
    if has_class(classes, "input-group"@) {
        BoxStyle {
            border: Edges { left: 1, right: 1, top: 1, bottom: 1 },
            padding: Edges { left: 1, right: 1, top: 0, bottom: 0 },
            ..style
        }
    } else {
        style
    }
}

proof fn lemma_classes_prefix(cs: Seq<String>, s: String, k: int)
    requires
        0 <= k <= cs.len(),
    ensures
        apply_classes(cs.push(s), k) == apply_classes(cs, k),
    decreases k,
{
    if k > 0 {
        lemma_classes_prefix(cs, s, k - 1);
        assert(cs.push(s)[k - 1] == cs[k - 1]);
    }
}

/// The flex axis follows the last class that names one: `flex-row` lays
/// the children out in a row, `flex-column` in a column, `d-flex` and
/// `input-group` make a flex row, and any other class leaves the axis and
/// the display as they were.
pub proof fn law_last_direction_class_wins(cs: Seq<String>, s: String)
    ensures
        s@ == "flex-row"@ ==> container_style_spec(cs.push(s)).direction == Direction::Row,
        s@ == "flex-column"@ ==> container_style_spec(cs.push(s)).direction == Direction::Column,
        s@ == "d-flex"@ || s@ == "input-group"@ ==> container_style_spec(cs.push(s)).direction
            == Direction::Row && container_style_spec(cs.push(s)).display == BoxDisplay::Flex,
        s@ != "flex-row"@ && s@ != "flex-column"@ && s@ != "d-flex"@ && s@ != "input-group"@
            ==> container_style_spec(cs.push(s)).direction == container_style_spec(cs).direction
            && container_style_spec(cs.push(s)).display == container_style_spec(cs).display,
        container_style_spec(Seq::empty()).direction == Direction::Row,
        container_style_spec(Seq::empty()).display == BoxDisplay::Block,
{
    reveal_strlit("flex-row");
    reveal_strlit("flex-column");
    reveal_strlit("d-flex");
    reveal_strlit("input-group");
    lemma_classes_prefix(cs, s, cs.len() as int);
    let n = cs.push(s).len() as int;
    assert(cs.push(s)[n - 1] == s);
    assert(apply_classes(cs.push(s), n) == apply_class(apply_classes(cs, cs.len() as int), s@));
    assert("flex-row"@ != "d-flex"@ && "flex-row"@ != "input-group"@ && "flex-row"@ != "flex-column"@) by {
        assert("flex-row"@[0] != "d-flex"@[0]);
        assert("flex-row"@[0] != "input-group"@[0]);
        assert("flex-row"@.len() != "flex-column"@.len());
    }
    assert("flex-column"@ != "d-flex"@ && "flex-column"@ != "input-group"@) by {
        assert("flex-column"@[0] != "d-flex"@[0]);
        assert("flex-column"@[0] != "input-group"@[0]);
    }
}

/// Each flex, width, gap, alignment and padding class sets its property
/// when it comes last, and a class the table does not know changes no
/// part of the style.
pub proof fn law_class_settings(cs: Seq<String>, s: String)
    ensures
        s@ == "flex-nowrap"@ ==> container_style_spec(cs.push(s)).no_wrap,
        s@ == "flex-grow-0"@ ==> container_style_spec(cs.push(s)).grow == 0,
        s@ == "flex-grow-1"@ ==> container_style_spec(cs.push(s)).grow == 1,
        s@ == "flex-shrink-0"@ ==> container_style_spec(cs.push(s)).shrink == 0,
        s@ == "flex-shrink-1"@ ==> container_style_spec(cs.push(s)).shrink == 1,
        s@ == "w-100"@ ==> container_style_spec(cs.push(s)).full_width,
        s@ == "gap-2"@ ==> container_style_spec(cs.push(s)).column_gap == 1,
        s@ == "align-self-center"@ ==> container_style_spec(cs.push(s)).center_self,
        s@ == "p-0"@ && !has_class(cs, "input-group"@) ==> container_style_spec(cs.push(s)).padding
            == (Edges { left: 0, right: 0, top: 0, bottom: 0 }),
        !known_class(s@) ==> container_style_spec(cs.push(s)) == container_style_spec(cs),
{
    reveal_strlit("d-flex");
    reveal_strlit("input-group");
    reveal_strlit("flex-column");
    reveal_strlit("flex-row");
    reveal_strlit("flex-nowrap");
    reveal_strlit("flex-grow-0");
    reveal_strlit("flex-grow-1");
    reveal_strlit("flex-shrink-0");
    reveal_strlit("flex-shrink-1");
    reveal_strlit("w-100");
    reveal_strlit("gap-2");
    reveal_strlit("align-self-center");
    reveal_strlit("p-0");
    assert("input-group"@.len() != "d-flex"@.len());
    assert("flex-column"@.len() != "d-flex"@.len());
    assert("flex-column"@[0] != "input-group"@[0]);
    assert("flex-row"@.len() != "d-flex"@.len());
    assert("flex-row"@.len() != "input-group"@.len());
    assert("flex-row"@.len() != "flex-column"@.len());
    assert("flex-nowrap"@.len() != "d-flex"@.len());
    assert("flex-nowrap"@[0] != "input-group"@[0]);
    assert("flex-nowrap"@[5] != "flex-column"@[5]);
    assert("flex-nowrap"@.len() != "flex-row"@.len());
    assert("flex-grow-0"@.len() != "d-flex"@.len());
    assert("flex-grow-0"@[0] != "input-group"@[0]);
    assert("flex-grow-0"@[5] != "flex-column"@[5]);
    assert("flex-grow-0"@.len() != "flex-row"@.len());
    assert("flex-grow-0"@[5] != "flex-nowrap"@[5]);
    assert("flex-grow-1"@.len() != "d-flex"@.len());
    assert("flex-grow-1"@[0] != "input-group"@[0]);
    assert("flex-grow-1"@[5] != "flex-column"@[5]);
    assert("flex-grow-1"@.len() != "flex-row"@.len());
    assert("flex-grow-1"@[5] != "flex-nowrap"@[5]);
    assert("flex-grow-1"@[10] != "flex-grow-0"@[10]);
    assert("flex-shrink-0"@.len() != "d-flex"@.len());
    assert("flex-shrink-0"@.len() != "input-group"@.len());
    assert("flex-shrink-0"@.len() != "flex-column"@.len());
    assert("flex-shrink-0"@.len() != "flex-row"@.len());
    assert("flex-shrink-0"@.len() != "flex-nowrap"@.len());
    assert("flex-shrink-0"@.len() != "flex-grow-0"@.len());
    assert("flex-shrink-0"@.len() != "flex-grow-1"@.len());
    assert("flex-shrink-1"@.len() != "d-flex"@.len());
    assert("flex-shrink-1"@.len() != "input-group"@.len());
    assert("flex-shrink-1"@.len() != "flex-column"@.len());
    assert("flex-shrink-1"@.len() != "flex-row"@.len());
    assert("flex-shrink-1"@.len() != "flex-nowrap"@.len());
    assert("flex-shrink-1"@.len() != "flex-grow-0"@.len());
    assert("flex-shrink-1"@.len() != "flex-grow-1"@.len());
    assert("flex-shrink-1"@[12] != "flex-shrink-0"@[12]);
    assert("w-100"@.len() != "d-flex"@.len());
    assert("w-100"@.len() != "input-group"@.len());
    assert("w-100"@.len() != "flex-column"@.len());
    assert("w-100"@.len() != "flex-row"@.len());
    assert("w-100"@.len() != "flex-nowrap"@.len());
    assert("w-100"@.len() != "flex-grow-0"@.len());
    assert("w-100"@.len() != "flex-grow-1"@.len());
    assert("w-100"@.len() != "flex-shrink-0"@.len());
    assert("w-100"@.len() != "flex-shrink-1"@.len());
    assert("gap-2"@.len() != "d-flex"@.len());
    assert("gap-2"@.len() != "input-group"@.len());
    assert("gap-2"@.len() != "flex-column"@.len());
    assert("gap-2"@.len() != "flex-row"@.len());
    assert("gap-2"@.len() != "flex-nowrap"@.len());
    assert("gap-2"@.len() != "flex-grow-0"@.len());
    assert("gap-2"@.len() != "flex-grow-1"@.len());
    assert("gap-2"@.len() != "flex-shrink-0"@.len());
    assert("gap-2"@.len() != "flex-shrink-1"@.len());
    assert("gap-2"@[0] != "w-100"@[0]);
    assert("align-self-center"@.len() != "d-flex"@.len());
    assert("align-self-center"@.len() != "input-group"@.len());
    assert("align-self-center"@.len() != "flex-column"@.len());
    assert("align-self-center"@.len() != "flex-row"@.len());
    assert("align-self-center"@.len() != "flex-nowrap"@.len());
    assert("align-self-center"@.len() != "flex-grow-0"@.len());
    assert("align-self-center"@.len() != "flex-grow-1"@.len());
    assert("align-self-center"@.len() != "flex-shrink-0"@.len());
    assert("align-self-center"@.len() != "flex-shrink-1"@.len());
    assert("align-self-center"@.len() != "w-100"@.len());
    assert("align-self-center"@.len() != "gap-2"@.len());
    assert("p-0"@.len() != "d-flex"@.len());
    assert("p-0"@.len() != "input-group"@.len());
    assert("p-0"@.len() != "flex-column"@.len());
    assert("p-0"@.len() != "flex-row"@.len());
    assert("p-0"@.len() != "flex-nowrap"@.len());
    assert("p-0"@.len() != "flex-grow-0"@.len());
    assert("p-0"@.len() != "flex-grow-1"@.len());
    assert("p-0"@.len() != "flex-shrink-0"@.len());
    assert("p-0"@.len() != "flex-shrink-1"@.len());
    assert("p-0"@.len() != "w-100"@.len());
    assert("p-0"@.len() != "gap-2"@.len());
    assert("p-0"@.len() != "align-self-center"@.len());
    lemma_classes_prefix(cs, s, cs.len() as int);
    let n = cs.push(s).len() as int;
    assert(cs.push(s)[n - 1] == s);
    assert(apply_classes(cs.push(s), n) == apply_class(apply_classes(cs, cs.len() as int), s@));
    if s@ != "input-group"@ {
        assert(has_class(cs.push(s), "input-group"@) == has_class(cs, "input-group"@)) by {
            if has_class(cs.push(s), "input-group"@) {
                let i = choose|i: int| 0 <= i < cs.push(s).len() && #[trigger] cs.push(s)[i]@ == "input-group"@;
                assert(i < cs.len());
                assert(cs[i]@ == "input-group"@);
            }
            if has_class(cs, "input-group"@) {
                let i = choose|i: int| 0 <= i < cs.len() && #[trigger] cs[i]@ == "input-group"@;
                assert(cs.push(s)[i]@ == "input-group"@);
            }
        }
    }
}

/// The classes the box-style table knows.
pub open spec fn known_class(c: Seq<char>) -> bool {
    c == "d-flex"@ || c == "input-group"@ || c == "flex-column"@ || c == "flex-row"@ || c == "flex-nowrap"@
        || c == "flex-grow-0"@ || c == "flex-grow-1"@ || c == "flex-shrink-0"@ || c == "flex-shrink-1"@ || c
        == "w-100"@ || c == "gap-2"@ || c == "align-self-center"@ || c == "p-0"@
}

fn is(class: &String, name: &str) -> (r: bool)
    ensures
        r == (class@ == name@),
{
    chars_eq_str(&chars_of(class.as_str()), name)
}

fn class_effect(style: BoxStyle, class: &String) -> (next: BoxStyle)
    ensures
        next == apply_class(style, class@),
{
    if is(class, "d-flex") || is(class, "input-group") {
        BoxStyle { display: BoxDisplay::Flex, direction: Direction::Row, ..style }
    } else if is(class, "flex-column") {
        BoxStyle { direction: Direction::Column, ..style }
    } else if is(class, "flex-row") {
        BoxStyle { direction: Direction::Row, ..style }
    } else if is(class, "flex-nowrap") {
        BoxStyle { no_wrap: true, ..style }
    } else if is(class, "flex-grow-0") {
        BoxStyle { grow: 0, ..style }
    } else if is(class, "flex-grow-1") {
        BoxStyle { grow: 1, ..style }
    } else if is(class, "flex-shrink-0") {
        BoxStyle { shrink: 0, ..style }
    } else if is(class, "flex-shrink-1") {
        BoxStyle { shrink: 1, ..style }
    } else if is(class, "w-100") {
        BoxStyle { full_width: true, ..style }
    } else if is(class, "gap-2") {
        BoxStyle { column_gap: 1, ..style }
    } else if is(class, "align-self-center") {
        BoxStyle { center_self: true, ..style }
    } else if is(class, "p-0") {
        BoxStyle { padding: Edges { left: 0, right: 0, top: 0, bottom: 0 }, ..style }
    } else {
        style
    }
}

/// A container's box style for its classes.
pub fn container_style(classes: &Vec<String>) -> (style: BoxStyle)
    ensures
        style == container_style_spec(classes@),
{
    let mut style = BoxStyle {
        display: BoxDisplay::Block,
        direction: Direction::Row,
        no_wrap: true,
        grow: 0,
        shrink: 1,
        full_width: false,
        column_gap: 0,
        center_self: false,
        padding: Edges { left: 0, right: 0, top: 0, bottom: 0 },
        border: Edges { left: 0, right: 0, top: 0, bottom: 0 },
    };
    let mut group = false;
    let mut i: usize = 0;
    while i < classes.len()
        invariant
            0 <= i <= classes@.len(),
            style == apply_classes(classes@, i as int),
            group == exists|j: int| 0 <= j < i && #[trigger] classes@[j]@ == "input-group"@,
        decreases classes@.len() - i,
    {
        if is(&classes[i], "input-group") {
            group = true;
        }
        style = class_effect(style, &classes[i]);
        i = i + 1;
    }
    if group {
        BoxStyle {
            border: Edges { left: 1, right: 1, top: 1, bottom: 1 },
            padding: Edges { left: 1, right: 1, top: 0, bottom: 0 },
            ..style
        }
    } else {
        style
    }
}

/// A widget leaf's box: its height (at least one row) fixed and as its
/// minimum, at least twelve cells wide, flex factors and width from its
/// classes.
#[derive(Debug, Clone, Copy, PartialEq, Eq, Structural)]
pub struct WidgetBox {
    pub height: u16,
    pub min_width: u16,
    pub grow: u8,
    pub shrink: u8,
    pub full_width: bool,
}

/// A widget's classes over the widget defaults, in order.
pub open spec fn widget_classes(classes: Seq<String>, k: int, height: u16) -> WidgetBox
    decreases k,
{
    if k <= 0 || k > classes.len() {
        WidgetBox {
            height: if height >= 1 {
                height
            } else {
                1
            },
            min_width: 12,
            grow: 0,
            shrink: 1,
            full_width: false,
        }
    } else {
        let b = widget_classes(classes, k - 1, height);
        let class = classes[k - 1]@;
        if class == "flex-grow-1"@ {
            WidgetBox { grow: 1, ..b }
        } else if class == "flex-shrink-0"@ {
            WidgetBox { shrink: 0, ..b }
        } else if class == "w-100"@ {
            WidgetBox { full_width: true, ..b }
        } else {
            b
        }
    }
}

proof fn lemma_widget_classes(classes: Seq<String>, k: int, height: u16)
    requires
        0 <= k <= classes.len(),
    ensures
        ({
            let b = widget_classes(classes, k, height);
            &&& b.height == (if height >= 1 { height } else { 1 })
            &&& b.min_width == 12
            &&& (b.grow == 1) == (exists|j: int| 0 <= j < k && #[trigger] classes[j]@ == "flex-grow-1"@)
            &&& b.grow <= 1
            &&& (b.shrink == 0) == (exists|j: int| 0 <= j < k && #[trigger] classes[j]@ == "flex-shrink-0"@)
            &&& b.shrink <= 1
            &&& b.full_width == (exists|j: int| 0 <= j < k && #[trigger] classes[j]@ == "w-100"@)
        }),
    decreases k,
{
    reveal_strlit("flex-grow-1");
    reveal_strlit("flex-shrink-0");
    reveal_strlit("w-100");
    assert("flex-grow-1"@.len() != "flex-shrink-0"@.len() && "flex-grow-1"@.len() != "w-100"@.len()
        && "flex-shrink-0"@.len() != "w-100"@.len());
    if k > 0 {
        lemma_widget_classes(classes, k - 1, height);
        let last = classes[k - 1]@;
        lemma_exists_step(classes, k, "flex-grow-1"@);
        lemma_exists_step(classes, k, "flex-shrink-0"@);
        lemma_exists_step(classes, k, "w-100"@);
    }
}

proof fn lemma_exists_step(classes: Seq<String>, k: int, name: Seq<char>)
    requires
        1 <= k <= classes.len(),
    ensures
        (exists|j: int| 0 <= j < k && #[trigger] classes[j]@ == name) == ((exists|j: int|
            0 <= j < k - 1 && #[trigger] classes[j]@ == name) || classes[k - 1]@ == name),
{
    if exists|j: int| 0 <= j < k && #[trigger] classes[j]@ == name {
        let j = choose|j: int| 0 <= j < k && #[trigger] classes[j]@ == name;
        if j < k - 1 {
            assert(classes[j]@ == name);
        }
    }
}

/// A widget leaf is as tall as its layout height (at least a row) and at
/// least twelve cells wide; it grows exactly when it carries `flex-grow-1`,
/// keeps from shrinking exactly when it carries `flex-shrink-0`, and takes
/// the full width exactly when it carries `w-100`, wherever the class
/// stands among the others.
pub proof fn law_widget_box(classes: Seq<String>, height: u16)
    ensures
        ({
            let b = widget_classes(classes, classes.len() as int, height);
            &&& b.height == (if height >= 1 { height } else { 1 })
            &&& b.min_width == 12
            &&& b.grow == (if has_class(classes, "flex-grow-1"@) { 1u8 } else { 0u8 })
            &&& b.shrink == (if has_class(classes, "flex-shrink-0"@) { 0u8 } else { 1u8 })
            &&& b.full_width == has_class(classes, "w-100"@)
        }),
{
    lemma_widget_classes(classes, classes.len() as int, height);
}

/// A widget leaf's box for its classes and layout height.
pub fn widget_style(classes: &Vec<String>, height: u16) -> (b: WidgetBox)
    ensures
        b == widget_classes(classes@, classes@.len() as int, height),
{
    let mut b = WidgetBox {
        height: if height >= 1 {
            height
        } else {
            1
        },
        min_width: 12,
        grow: 0,
        shrink: 1,
        full_width: false,
    };
    let mut i: usize = 0;
    while i < classes.len()
        invariant
            0 <= i <= classes@.len(),
            b == widget_classes(classes@, i as int, height),
        decreases classes@.len() - i,
    {
        let class = &classes[i];
        if is(class, "flex-grow-1") {
            b = WidgetBox { grow: 1, ..b };
        } else if is(class, "flex-shrink-0") {
            b = WidgetBox { shrink: 0, ..b };
        } else if is(class, "w-100") {
            b = WidgetBox { full_width: true, ..b };
        }
        i = i + 1;
    }
    b
}

/// A node under a table: its tag (`None` for text) and its children.
#[derive(Debug)]
pub struct TableNode {
    pub tag: Option<String>,
    pub children: Vec<TableNode>,
}

/// The node is an element with this tag.
pub open spec fn tag_is(n: TableNode, name: Seq<char>) -> bool {
    n.tag matches Some(t) && t@ == name
}

/// A table cell: `td` or `th`.
pub open spec fn is_cell(n: TableNode) -> bool {
    tag_is(n, "td"@) || tag_is(n, "th"@)
}

/// A table section: `thead`, `tbody` or `tfoot`.
pub open spec fn is_section(n: TableNode) -> bool {
    tag_is(n, "thead"@) || tag_is(n, "tbody"@) || tag_is(n, "tfoot"@)
}

/// The indices of the cells among the first `k` children of a row.
pub open spec fn cells_upto(cs: Seq<TableNode>, k: int) -> Seq<usize>
    decreases k,
{
    if k <= 0 || k > cs.len() {
        Seq::empty()
    } else if is_cell(cs[k - 1]) {
        cells_upto(cs, k - 1).push((k - 1) as usize)
    } else {
        cells_upto(cs, k - 1)
    }
}

/// The rows among the first `k` children of a section: each `tr`'s cell
/// indices.
pub open spec fn section_rows(cs: Seq<TableNode>, k: int) -> Seq<Seq<usize>>
    decreases k,
{
    if k <= 0 || k > cs.len() {
        Seq::empty()
    } else if tag_is(cs[k - 1], "tr"@) {
        section_rows(cs, k - 1).push(cells_upto(cs[k - 1].children@, cs[k - 1].children@.len() as int))
    } else {
        section_rows(cs, k - 1)
    }
}

/// The rows among the first `k` children of a table, in document order:
/// direct `tr` children and the `tr` children of its sections, each as
/// the indices of its cells. Anything else is structural noise.
pub open spec fn table_rows_upto(cs: Seq<TableNode>, k: int) -> Seq<Seq<usize>>
    decreases k,
{
    if k <= 0 || k > cs.len() {
        Seq::empty()
    } else if tag_is(cs[k - 1], "tr"@) {
        table_rows_upto(cs, k - 1).push(cells_upto(cs[k - 1].children@, cs[k - 1].children@.len() as int))
    } else if is_section(cs[k - 1]) {
        table_rows_upto(cs, k - 1) + section_rows(cs[k - 1].children@, cs[k - 1].children@.len() as int)
    } else {
        table_rows_upto(cs, k - 1)
    }
}

/// The rows as plain index runs.
pub open spec fn rows_view(rows: Seq<Vec<usize>>) -> Seq<Seq<usize>> {
    rows.map_values(|r: Vec<usize>| r@)
}

fn tag_is_exec(n: &TableNode, name: &str) -> (r: bool)
    ensures
        r == tag_is(*n, name@),
{
    match &n.tag {
        Some(t) => chars_eq_str(&chars_of(t.as_str()), name),
        None => false,
    }
}

fn row_cells(row: &TableNode) -> (cells: Vec<usize>)
    ensures
        cells@ == cells_upto(row.children@, row.children@.len() as int),
{
    let mut cells: Vec<usize> = Vec::new();
    let mut k: usize = 0;
    while k < row.children.len()
        invariant
            0 <= k <= row.children@.len(),
            cells@ == cells_upto(row.children@, k as int),
        decreases row.children@.len() - k,
    {
        let c = &row.children[k];
        if tag_is_exec(c, "td") || tag_is_exec(c, "th") {
            cells.push(k);
        }
        k = k + 1;
    }
    cells
}

/// The table's rows in document order, each as the indices of its cells
/// (`td`, `th`) among the row's children: the grid placement of every
/// cell is its row's position and its place in the row.
pub fn table_rows(children: &Vec<TableNode>) -> (rows: Vec<Vec<usize>>)
    ensures
        rows_view(rows@) == table_rows_upto(children@, children@.len() as int),
{
    let mut rows: Vec<Vec<usize>> = Vec::new();
    let mut k: usize = 0;
    while k < children.len()
        invariant
            0 <= k <= children@.len(),
            rows_view(rows@) == table_rows_upto(children@, k as int),
        decreases children@.len() - k,
    {
        let c = &children[k];
        if tag_is_exec(c, "tr") {
            let cells = row_cells(c);
            let ghost before = rows@;
            rows.push(cells);
            assert(rows_view(rows@) =~= rows_view(before).push(cells@));
        } else if tag_is_exec(c, "thead") || tag_is_exec(c, "tbody") || tag_is_exec(c, "tfoot") {
            let ghost start = rows_view(rows@);
            let mut j: usize = 0;
            while j < c.children.len()
                invariant
                    0 <= j <= c.children@.len(),
                    rows_view(rows@) == start + section_rows(c.children@, j as int),
                decreases c.children@.len() - j,
            {
                let inner = &c.children[j];
                if tag_is_exec(inner, "tr") {
                    let cells = row_cells(inner);
                    let ghost before = rows@;
                    rows.push(cells);
                    assert(rows_view(rows@) =~= rows_view(before).push(cells@));
                    assert(start + section_rows(c.children@, j + 1) =~= (start + section_rows(
                        c.children@,
                        j as int,
                    )).push(cells@));
                }
                j = j + 1;
            }
        }
        k = k + 1;
    }
    rows
}

/// A cell's explicit grid placement: the row it sits in (an index into
/// the table's rows) and its index among that row's children, with the
/// one-based grid lines it is placed on.
#[derive(Debug, Clone, Copy, PartialEq, Eq, Structural)]
pub struct GridCell {
    pub row: usize,
    pub cell: usize,
    pub grid_row: usize,
    pub grid_column: usize,
}

/// The placements of one row's cells: row line `i + 1`, column line
/// `j + 1` for its `j`-th cell.
pub open spec fn row_placements(cells: Seq<usize>, i: int) -> Seq<GridCell> {
    Seq::new(
        cells.len(),
        |j: int| GridCell { row: i as usize, cell: cells[j], grid_row: (i + 1) as usize, grid_column: (j + 1) as usize },
    )
}

/// The placements of the cells of the first `k` rows, in row-major order.
pub open spec fn placements_upto(rows: Seq<Seq<usize>>, k: int) -> Seq<GridCell>
    decreases k,
{
    if k <= 0 || k > rows.len() {
        Seq::empty()
    } else {
        placements_upto(rows, k - 1) + row_placements(rows[k - 1], k - 1)
    }
}

/// Whether a placement puts a cell of these rows on its own lines.
pub open spec fn placed_right(rows: Seq<Seq<usize>>, p: GridCell) -> bool {
    &&& p.row < rows.len()
    &&& p.grid_row == p.row + 1
    &&& 1 <= p.grid_column <= rows[p.row as int].len()
    &&& rows[p.row as int][p.grid_column - 1] == p.cell
}

proof fn lemma_placements(rows: Seq<Seq<usize>>, k: int)
    requires
        0 <= k <= rows.len(),
        rows.len() < usize::MAX,
        forall|i: int| 0 <= i < rows.len() ==> (#[trigger] rows[i]).len() < usize::MAX,
    ensures
        forall|t: int| 0 <= t < placements_upto(rows, k).len() ==> placed_right(rows, #[trigger] placements_upto(rows, k)[t]),
        forall|t: int| 0 <= t < placements_upto(rows, k).len() ==> (#[trigger] placements_upto(rows, k)[t]).row < k,
        forall|t: int, u: int|
            0 <= t < u < placements_upto(rows, k).len() ==> {
                let a = #[trigger] placements_upto(rows, k)[t];
                let b = #[trigger] placements_upto(rows, k)[u];
                a.row < b.row || (a.row == b.row && a.grid_column < b.grid_column)
            },
    decreases k,
{
    if k > 0 {
        lemma_placements(rows, k - 1);
        let pre = placements_upto(rows, k - 1);
        let row = row_placements(rows[k - 1], k - 1);
        assert(placements_upto(rows, k) == pre + row);
        assert forall|t: int| 0 <= t < (pre + row).len() implies placed_right(rows, #[trigger] (pre + row)[t]) && (pre
            + row)[t].row < k by {
            if t >= pre.len() {
                assert((pre + row)[t] == row[t - pre.len()]);
            } else {
                assert((pre + row)[t] == pre[t]);
            }
        }
        assert forall|t: int, u: int| 0 <= t < u < (pre + row).len() implies {
            let a = #[trigger] (pre + row)[t];
            let b = #[trigger] (pre + row)[u];
            a.row < b.row || (a.row == b.row && a.grid_column < b.grid_column)
        } by {
            if u >= pre.len() {
                assert((pre + row)[u] == row[u - pre.len()]);
                if t >= pre.len() {
                    assert((pre + row)[t] == row[t - pre.len()]);
                } else {
                    assert((pre + row)[t] == pre[t]);
                    assert(pre[t].row < k - 1);
                }
            } else {
                assert((pre + row)[t] == pre[t]);
                assert((pre + row)[u] == pre[u]);
            }
        }
    }
}

/// Grid placement puts every cell of the rows on row line one past its
/// row and on the column line one past its place in the row, and walks
/// the cells in row-major order: earlier rows first, and within a row from
/// the left.
pub proof fn law_placement_lines(rows: Seq<Seq<usize>>)
    requires
        rows.len() < usize::MAX,
        forall|i: int| 0 <= i < rows.len() ==> (#[trigger] rows[i]).len() < usize::MAX,
    ensures
        forall|t: int|
            0 <= t < placements_upto(rows, rows.len() as int).len() ==> placed_right(
                rows,
                #[trigger] placements_upto(rows, rows.len() as int)[t],
            ),
        forall|t: int, u: int|
            0 <= t < u < placements_upto(rows, rows.len() as int).len() ==> {
                let a = #[trigger] placements_upto(rows, rows.len() as int)[t];
                let b = #[trigger] placements_upto(rows, rows.len() as int)[u];
                a.row < b.row || (a.row == b.row && a.grid_column < b.grid_column)
            },
{
    lemma_placements(rows, rows.len() as int);
}

/// Every cell's grid placement, row by row and in each row from the left:
/// the `j`-th cell of the `i`-th row goes on row line `i + 1` and column
/// line `j + 1`. A cell that builds no box is left out by the caller; the
/// others keep their places.
pub fn grid_placements(rows: &Vec<Vec<usize>>) -> (cells: Vec<GridCell>)
    requires
        rows@.len() < usize::MAX,
        forall|i: int| 0 <= i < rows@.len() ==> (#[trigger] rows@[i])@.len() < usize::MAX,
    ensures
        cells@ == placements_upto(rows_view(rows@), rows@.len() as int),
{
    let ghost rv = rows_view(rows@);
    let mut cells: Vec<GridCell> = Vec::new();
    let mut i: usize = 0;
    while i < rows.len()
        invariant
            0 <= i <= rows@.len(),
            rv == rows_view(rows@),
            rv.len() == rows@.len(),
            rows@.len() < usize::MAX,
            forall|k: int| 0 <= k < rows@.len() ==> (#[trigger] rows@[k])@.len() < usize::MAX,
            cells@ == placements_upto(rv, i as int),
        decreases rows@.len() - i,
    {
        let row = &rows[i];
        assert(rv[i as int] == row@);
        let ghost start = cells@;
        let mut j: usize = 0;
        while j < row.len()
            invariant
                0 <= i < rows@.len(),
                rows@.len() < usize::MAX,
                row@.len() < usize::MAX,
                0 <= j <= row@.len(),
                row@ == rv[i as int],
                cells@ == start + row_placements(row@, i as int).take(j as int),
            decreases row@.len() - j,
        {
            let placed = GridCell { row: i, cell: row[j], grid_row: i + 1, grid_column: j + 1 };
            cells.push(placed);
            assert(row_placements(row@, i as int).take(j + 1) =~= row_placements(row@, i as int).take(
                j as int,
            ).push(placed));
            assert(cells@ =~= start + row_placements(row@, i as int).take(j + 1));
            j = j + 1;
        }
        assert(row_placements(row@, i as int).take(row@.len() as int) =~= row_placements(row@, i as int));
        i = i + 1;
    }
    cells
}

/// The number of grid columns: the most cells in any row, zero without
/// rows (a table without cells stays a block).
pub open spec fn columns_upto(rows: Seq<Seq<usize>>, k: int) -> int
    decreases k,
{
    if k <= 0 || k > rows.len() {
        0
    } else {
        let m = columns_upto(rows, k - 1);
        if rows[k - 1].len() > m {
            rows[k - 1].len() as int
        } else {
            m
        }
    }
}

proof fn lemma_columns_upto(rows: Seq<Seq<usize>>, k: int)
    requires
        0 <= k <= rows.len(),
    ensures
        forall|i: int| 0 <= i < k ==> (#[trigger] rows[i]).len() <= columns_upto(rows, k),
        k == 0 ==> columns_upto(rows, k) == 0,
        k > 0 ==> exists|i: int| 0 <= i < k && (#[trigger] rows[i]).len() == columns_upto(rows, k),
    decreases k,
{
    if k > 0 {
        lemma_columns_upto(rows, k - 1);
        if k - 1 > 0 {
            let i = choose|i: int| 0 <= i < k - 1 && (#[trigger] rows[i]).len() == columns_upto(rows, k - 1);
            if rows[k - 1].len() <= columns_upto(rows, k - 1) {
                assert(rows[i].len() == columns_upto(rows, k));
            }
        }
        assert(rows[k - 1].len() <= columns_upto(rows, k));
    }
}

/// A table has as many grid columns as its longest row has cells: no row
/// has more, one row has exactly that many, and a table without rows has
/// none.
pub proof fn law_columns_are_the_longest_row(rows: Seq<Seq<usize>>)
    ensures
        forall|i: int| 0 <= i < rows.len() ==> (#[trigger] rows[i]).len() <= columns_upto(rows, rows.len() as int),
        rows.len() == 0 ==> columns_upto(rows, rows.len() as int) == 0,
        rows.len() > 0 ==> exists|i: int|
            0 <= i < rows.len() && (#[trigger] rows[i]).len() == columns_upto(rows, rows.len() as int),
{
    lemma_columns_upto(rows, rows.len() as int);
}

/// The table's column count: the longest row.
pub fn table_columns(rows: &Vec<Vec<usize>>) -> (columns: usize)
    ensures
        columns == columns_upto(rows_view(rows@), rows@.len() as int),
{
    let mut m: usize = 0;
    let mut k: usize = 0;
    while k < rows.len()
        invariant
            0 <= k <= rows@.len(),
            m == columns_upto(rows_view(rows@), k as int),
        decreases rows@.len() - k,
    {
        assert(rows_view(rows@)[k as int] == rows@[k as int]@);
        if rows[k].len() > m {
            m = rows[k].len();
        }
        k = k + 1;
    }
    m
}

/// Whether the classes hold the name.
pub open spec fn holds_word(words: Seq<Seq<char>>, name: Seq<char>) -> bool {
    exists|i: int| 0 <= i < words.len() && words[i] == name
}

/// Whether a table fills its row: the `table` or `w-100` class, unless
/// `w-auto` opts back into hugging its content.
pub open spec fn table_fills_spec(class_attr: Seq<char>) -> bool {
    let classes = split_words(class_attr, true);
    (holds_word(classes, "table"@) || holds_word(classes, "w-100"@)) && !holds_word(classes, "w-auto"@)
}

fn holds_word_exec(words: &Vec<Vec<char>>, name: &str) -> (r: bool)
    ensures
        r == holds_word(words@.map_values(|w: Vec<char>| w@), name@),
{
    let n = chars_of(name);
    let ghost ws = words@.map_values(|w: Vec<char>| w@);
    let mut i: usize = 0;
    while i < words.len()
        invariant
            0 <= i <= words@.len(),
            n@ == name@,
            ws == words@.map_values(|w: Vec<char>| w@),
            forall|j: int| 0 <= j < i ==> ws[j] != name@,
        decreases words@.len() - i,
    {
        assert(ws[i as int] == words@[i as int]@);
        if chars_eq(&words[i], &n) {
            return true;
        }
        i = i + 1;
    }
    false
}

/// Whether a table with this class attribute fills its row's width.
pub fn table_fills(class_attr: &str) -> (fills: bool)
    ensures
        fills == table_fills_spec(class_attr@),
{
    let words = split_words_exec(class_attr, true);
    (holds_word_exec(&words, "table") || holds_word_exec(&words, "w-100")) && !holds_word_exec(
        &words,
        "w-auto",
    )
}

/// One child in an element's flow, before boxes exist.
#[derive(Debug, Clone, Copy, PartialEq, Eq, Structural)]
pub enum FlowKind {
    /// A text node; `blank` when it is whitespace only (it contributes
    /// separators, never content).
    Text { blank: bool },
    /// An element, inline-level or block-level.
    Element { inline: bool },
    /// Generated content (`::before`, `::after`).
    Generated,
}

/// How the flow's container lays its children out.
#[derive(Debug, Clone, Copy, PartialEq, Eq, Structural)]
pub enum FlowContainer {
    /// Flex or grid: every item is a child of its own.
    Blockified,
    /// An inline container: it is the row, and takes run items directly.
    Row,
    /// A block container.
    Block,
}

/// A box the flow builds from its items (indices into the items).
#[derive(Debug)]
pub enum FlowGroup {
    /// One item built as a plain block child.
    Plain(usize),
    /// A run of two or more content items in an anonymous wrapping row.
    AnonymousRow(Vec<usize>),
    /// A run laid straight into an inline container.
    InlineItems(Vec<usize>),
}

/// A flow group as plain values.
pub enum GroupView {
    Plain(usize),
    AnonymousRow(Seq<usize>),
    InlineItems(Seq<usize>),
}

pub open spec fn group_view(g: FlowGroup) -> GroupView {
    match g {
        FlowGroup::Plain(i) => GroupView::Plain(i),
        FlowGroup::AnonymousRow(v) => GroupView::AnonymousRow(v@),
        FlowGroup::InlineItems(v) => GroupView::InlineItems(v@),
    }
}

pub open spec fn groups_view(gs: Seq<FlowGroup>) -> Seq<GroupView> {
    gs.map_values(|g: FlowGroup| group_view(g))
}

/// Inline-level items flow in runs; block-level items break them.
pub open spec fn is_inline_item(k: FlowKind) -> bool {
    match k {
        FlowKind::Element { inline } => inline,
        _ => true,
    }
}

/// Whitespace-only text.
pub open spec fn is_blank_item(k: FlowKind) -> bool {
    match k {
        FlowKind::Text { blank } => blank,
        _ => false,
    }
}

/// The content items among the first `j` of a run.
pub open spec fn run_content(items: Seq<FlowKind>, run: Seq<usize>, j: int) -> int
    decreases j,
{
    if j <= 0 || j > run.len() {
        0
    } else {
        run_content(items, run, j - 1) + if is_blank_item(items[run[j - 1] as int]) {
            0int
        } else {
            1int
        }
    }
}

/// Ending a pending run: nothing for a run without content; an inline
/// container takes the run's items; a single content item stays a plain
/// block child (with the run's blanks); two or more get the anonymous row.
pub open spec fn flush_spec(items: Seq<FlowKind>, run: Seq<usize>, container: FlowContainer) -> Seq<
    GroupView,
> {
    let content = run_content(items, run, run.len() as int);
    if content == 0 {
        Seq::empty()
    } else if container == FlowContainer::Row {
        seq![GroupView::InlineItems(run)]
    } else if content == 1 {
        run.map_values(|i: usize| GroupView::Plain(i))
    } else {
        seq![GroupView::AnonymousRow(run)]
    }
}

/// The flow over the first `k` items: the groups built and the run still
/// pending.
pub open spec fn flow_fold(items: Seq<FlowKind>, k: int, container: FlowContainer) -> (Seq<GroupView>, Seq<usize>)
    decreases k,
{
    if k <= 0 || k > items.len() {
        (Seq::empty(), Seq::empty())
    } else {
        let (done, run) = flow_fold(items, k - 1, container);
        if is_inline_item(items[k - 1]) {
            (done, run.push((k - 1) as usize))
        } else {
            (done + flush_spec(items, run, container) + seq![GroupView::Plain((k - 1) as usize)], Seq::empty())
        }
    }
}

/// The boxes an element's flow builds: under flex or grid every item on
/// its own; otherwise inline-level items gather in runs that block-level
/// items break, each run ending as `flush_spec` says.
pub open spec fn flow_groups_spec(items: Seq<FlowKind>, container: FlowContainer) -> Seq<GroupView> {
    if container == FlowContainer::Blockified {
        Seq::new(items.len(), |i: int| GroupView::Plain(i as usize))
    } else {
        let (done, run) = flow_fold(items, items.len() as int, container);
        done + flush_spec(items, run, container)
    }
}

fn flush_run(items: &Vec<FlowKind>, run: &Vec<usize>, container: FlowContainer, out: &mut Vec<FlowGroup>)
    requires
        forall|j: int| 0 <= j < run@.len() ==> (#[trigger] run@[j]) < items@.len(),
    ensures
        groups_view(final(out)@) == groups_view(old(out)@) + flush_spec(items@, run@, container),
{
    let mut content: usize = 0;
    let mut j: usize = 0;
    while j < run.len()
        invariant
            0 <= j <= run@.len(),
            forall|m: int| 0 <= m < run@.len() ==> (#[trigger] run@[m]) < items@.len(),
            content == run_content(items@, run@, j as int),
            content <= j,
        decreases run@.len() - j,
    {
        let blank = match items[run[j]] {
            FlowKind::Text { blank } => blank,
            _ => false,
        };
        if !blank {
            content = content + 1;
        }
        j = j + 1;
    }
    let ghost start = groups_view(out@);
    if content == 0 {
        assert(flush_spec(items@, run@, container) =~= Seq::<GroupView>::empty());
        assert(groups_view(out@) =~= start + Seq::<GroupView>::empty());
        return;
    }
    let mut copy: Vec<usize> = Vec::new();
    let mut m: usize = 0;
    while m < run.len()
        invariant
            0 <= m <= run@.len(),
            copy@ == run@.take(m as int),
        decreases run@.len() - m,
    {
        copy.push(run[m]);
        assert(run@.take(m + 1) =~= run@.take(m as int).push(run@[m as int]));
        m = m + 1;
    }
    assert(run@.take(run@.len() as int) =~= run@);
    if container == FlowContainer::Row {
        let g = FlowGroup::InlineItems(copy);
        let ghost before = out@;
        out.push(g);
        assert(groups_view(out@) =~= groups_view(before).push(group_view(g)));
        assert(flush_spec(items@, run@, container) =~= seq![group_view(g)]);
        assert(groups_view(out@) =~= start + flush_spec(items@, run@, container));
    } else if content == 1 {
        let mut k: usize = 0;
        while k < run.len()
            invariant
                0 <= k <= run@.len(),
                groups_view(out@) == start + run@.take(k as int).map_values(|i: usize| GroupView::Plain(i)),
            decreases run@.len() - k,
        {
            let ghost before = out@;
            out.push(FlowGroup::Plain(run[k]));
            assert(groups_view(out@) =~= groups_view(before).push(GroupView::Plain(run@[k as int])));
            assert(run@.take(k + 1).map_values(|i: usize| GroupView::Plain(i)) =~= run@.take(
                k as int,
            ).map_values(|i: usize| GroupView::Plain(i)).push(GroupView::Plain(run@[k as int])));
            k = k + 1;
        }
        assert(run@.take(run@.len() as int) =~= run@);
    } else {
        let g = FlowGroup::AnonymousRow(copy);
        let ghost before = out@;
        out.push(g);
        assert(groups_view(out@) =~= groups_view(before).push(group_view(g)));
        assert(flush_spec(items@, run@, container) =~= seq![group_view(g)]);
        assert(groups_view(out@) =~= start + flush_spec(items@, run@, container));
    }
}

/// The boxes an element's flow builds from its items, in order.
pub fn flow_groups(items: &Vec<FlowKind>, container: FlowContainer) -> (groups: Vec<FlowGroup>)
    ensures
        groups_view(groups@) == flow_groups_spec(items@, container),
{
    let mut out: Vec<FlowGroup> = Vec::new();
    if container == FlowContainer::Blockified {
        let mut i: usize = 0;
        while i < items.len()
            invariant
                0 <= i <= items@.len(),
                groups_view(out@) == Seq::new(i as nat, |j: int| GroupView::Plain(j as usize)),
            decreases items@.len() - i,
        {
            let ghost before = out@;
            out.push(FlowGroup::Plain(i));
            assert(groups_view(out@) =~= groups_view(before).push(GroupView::Plain(i)));
            assert(groups_view(out@) =~= Seq::new((i + 1) as nat, |j: int| GroupView::Plain(j as usize)));
            i = i + 1;
        }
        return out;
    }
    let mut run: Vec<usize> = Vec::new();
    let mut i: usize = 0;
    assert(groups_view(out@) =~= Seq::<GroupView>::empty());
    while i < items.len()
        invariant
            0 <= i <= items@.len(),
            container != FlowContainer::Blockified,
            (groups_view(out@), run@) == flow_fold(items@, i as int, container),
            forall|j: int| 0 <= j < run@.len() ==> (#[trigger] run@[j]) < i,
        decreases items@.len() - i,
    {
        let inline = match items[i] {
            FlowKind::Element { inline } => inline,
            _ => true,
        };
        if inline {
            run.push(i);
        } else {
            flush_run(items, &run, container, &mut out);
            let ghost before = out@;
            out.push(FlowGroup::Plain(i));
            assert(groups_view(out@) =~= groups_view(before).push(GroupView::Plain(i)));
            run = Vec::new();
            assert(run@ =~= Seq::<usize>::empty());
        }
        i = i + 1;
    }
    flush_run(items, &run, container, &mut out);
    out
}

} // verus!
