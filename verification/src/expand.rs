//! Template expansion: a template, its holes and conditions resolved
//! against the current property state, becomes the render tree of one
//! frame. Nested registered custom elements expand inline: a child's
//! template resolves against the child instance's own state, and its widget
//! leaves carry the child-index path back to their owning instance.

use vstd::prelude::*;

use crate::render::{RNode, SlotRef};
use crate::strings::{chars_eq_str, chars_of, string_of};
use crate::text::{join_exec, join_words, split_words, split_words_exec};

verus! {

/// Collapses runs of Unicode whitespace (non-breaking spaces included) to
/// single spaces and trims the ends.
pub fn collapse_whitespace(text: &str) -> (s: String)
    ensures
        s@ == join_words(split_words(text@, true)),
{
    let split = split_words_exec(text, true);
    join_exec(&split)
}

/// A template node with its holes and conditions resolved by the owning
/// instance's state.
#[derive(Debug)]
pub enum ExpandNode {
    /// Literal template text.
    Text(String),
    /// A text hole: the display text of its value.
    Hole(String),
    /// A conditional: whether its condition holds, and its branch.
    If { holds: bool, then: Vec<ExpandNode> },
    Element(ExpandElement),
}

/// A template element, resolved.
#[derive(Debug)]
pub struct ExpandElement {
    /// The class attribute: its static parts and its holes' display texts,
    /// in order.
    pub class_text: String,
    /// Whether `data-tui` names a terminal widget for it.
    pub widget: bool,
    /// The mounted child instance, where the tag is a registered custom
    /// element.
    pub child: Option<Box<Scope>>,
    pub children: Vec<ExpandNode>,
}

/// An instance as expansion sees it: its template's roots resolved against
/// its state, the layout height of each of its widget slots, and its
/// `seamless` and `error` properties.
#[derive(Debug)]
pub struct Scope {
    pub roots: Vec<ExpandNode>,
    pub heights: Vec<u16>,
    pub seamless: bool,
    pub error: bool,
}

/// The next widget slot and registered child to number, in template order.
pub struct Counters {
    pub slot: usize,
    pub child: usize,
}

/// A resolved node as a value.
pub enum RView {
    Element { classes: Seq<Seq<char>>, slot: Option<(Seq<usize>, nat)>, height: u16, children: Seq<RView> },
    Text(Seq<char>),
}

pub open spec fn rnode_view(r: RNode) -> RView
    decreases r,
{
    match r {
        RNode::Element { classes, slot, widget_height, children } => RView::Element {
            classes: classes@.map_values(|c: String| c@),
            slot: match slot {
                Some(s) => Some((s.path@, s.slot as nat)),
                None => None,
            },
            height: widget_height,
            children: rnode_views(children@),
        },
        RNode::Text(t) => RView::Text(t@),
    }
}

pub open spec fn rnode_views(rs: Seq<RNode>) -> Seq<RView>
    decreases rs,
{
    if rs.len() == 0 {
        Seq::empty()
    } else {
        rnode_views(rs.drop_last()).push(rnode_view(rs.last()))
    }
}

/// The layout height of the widget in `slot`: one cell where the instance
/// records none.
pub open spec fn height_at(heights: Seq<u16>, slot: nat) -> u16 {
    if slot < heights.len() {
        heights[slot as int]
    } else {
        1
    }
}

/// An element's classes: the class text's words; a seamless instance's
/// input group keeps its flex layout without the border block
/// (`input-group` becomes `d-flex`); where an input group stays, the error
/// state adds `is-invalid`.
pub open spec fn class_list(text: Seq<char>, seamless: bool, error: bool) -> Seq<Seq<char>> {
    let words = split_words(text, true);
    let kept = if seamless {
        words.map_values(|w: Seq<char>| if w == "input-group"@ { "d-flex"@ } else { w })
    } else {
        words
    };
    if error && kept.contains("input-group"@) {
        kept.push("is-invalid"@)
    } else {
        kept
    }
}

/// Widget slots in template order across every branch, not counting into
/// registered children (their slots belong to the child).
pub open spec fn count_slots(nodes: Seq<ExpandNode>) -> nat
    decreases nodes,
{
    if nodes.len() == 0 {
        0
    } else {
        count_slots(nodes.drop_last()) + node_slots(nodes.last())
    }
}

pub open spec fn node_slots(node: ExpandNode) -> nat
    decreases node,
{
    match node {
        ExpandNode::Element(el) => {
            if el.widget {
                1 + count_slots(el.children@)
            } else if el.child is None {
                count_slots(el.children@)
            } else {
                0
            }
        },
        ExpandNode::If { then, .. } => count_slots(then@),
        _ => 0,
    }
}

/// Registered custom children in template order across every branch.
pub open spec fn count_children(nodes: Seq<ExpandNode>) -> nat
    decreases nodes,
{
    if nodes.len() == 0 {
        0
    } else {
        count_children(nodes.drop_last()) + node_children(nodes.last())
    }
}

pub open spec fn node_children(node: ExpandNode) -> nat
    decreases node,
{
    match node {
        ExpandNode::Element(el) => {
            if el.child is Some {
                1
            } else {
                count_children(el.children@)
            }
        },
        ExpandNode::If { then, .. } => count_children(then@),
        _ => 0,
    }
}

/// The number of nodes of a resolved template, mounted children's
/// templates included.
pub open spec fn list_size(nodes: Seq<ExpandNode>) -> nat
    decreases nodes,
{
    if nodes.len() == 0 {
        0
    } else {
        list_size(nodes.drop_last()) + node_size(nodes.last())
    }
}

pub open spec fn node_size(node: ExpandNode) -> nat
    decreases node,
{
    match node {
        ExpandNode::Element(el) => 1 + list_size(el.children@) + match el.child {
            Some(sc) => list_size(sc.roots@),
            None => 0,
        },
        ExpandNode::If { then, .. } => 1 + list_size(then@),
        _ => 1,
    }
}

/// The render nodes of a run of resolved template nodes, with the slot and
/// child numbers that follow them. `heights`, `seamless` and `error` are
/// the owning instance's; `path` leads from the rendering instance to it;
/// `slot` and `child` are the numbers the run starts from.
pub open spec fn expand_list(
    nodes: Seq<ExpandNode>,
    heights: Seq<u16>,
    seamless: bool,
    error: bool,
    path: Seq<usize>,
    slot: nat,
    child: nat,
) -> (Seq<RView>, nat, nat)
    decreases nodes,
{
    if nodes.len() == 0 {
        (Seq::empty(), slot, child)
    } else {
        let pre = expand_list(nodes.drop_last(), heights, seamless, error, path, slot, child);
        let last = expand_node(nodes.last(), heights, seamless, error, path, pre.1, pre.2);
        (pre.0 + last.0, last.1, last.2)
    }
}

/// One resolved node: text with its whitespace collapsed, dropped when
/// empty; a hole's display text, dropped when empty; a holding
/// conditional's branch, while a failing one yields nothing but still
/// numbers past the slots and children of its branch; a widget leaf with
/// the next slot; a registered child with its own template, numbered from
/// the start under the next child's index; any other element with its
/// children.
pub open spec fn expand_node(
    node: ExpandNode,
    heights: Seq<u16>,
    seamless: bool,
    error: bool,
    path: Seq<usize>,
    slot: nat,
    child: nat,
) -> (Seq<RView>, nat, nat)
    decreases node,
{
    match node {
        ExpandNode::Text(t) => {
            let s = join_words(split_words(t@, true));
            (if s.len() == 0 { Seq::empty() } else { seq![RView::Text(s)] }, slot, child)
        },
        ExpandNode::Hole(t) => (if t@.len() == 0 { Seq::empty() } else { seq![RView::Text(t@)] }, slot, child),
        ExpandNode::If { holds, then } => {
            if holds {
                expand_list(then@, heights, seamless, error, path, slot, child)
            } else {
                (Seq::empty(), slot + count_slots(then@), child + count_children(then@))
            }
        },
        ExpandNode::Element(el) => {
            let classes = class_list(el.class_text@, seamless, error);
            if el.widget {
                let inner = expand_list(el.children@, heights, seamless, error, path, slot + 1, child);
                (
                    seq![RView::Element { classes, slot: Some((path, slot)), height: height_at(heights, slot), children: inner.0 }],
                    inner.1,
                    inner.2,
                )
            } else {
                match el.child {
                    Some(sc) => {
                        let inner = expand_list(sc.roots@, sc.heights@, sc.seamless, sc.error, path.push(child as usize), 0, 0);
                        (seq![RView::Element { classes, slot: None, height: 1, children: inner.0 }], slot, child + 1)
                    },
                    None => {
                        let inner = expand_list(el.children@, heights, seamless, error, path, slot, child);
                        (seq![RView::Element { classes, slot: None, height: 1, children: inner.0 }], inner.1, inner.2)
                    },
                }
            }
        },
    }
}

proof fn lemma_counts_bounded(nodes: Seq<ExpandNode>)
    ensures
        count_slots(nodes) <= list_size(nodes),
        count_children(nodes) <= list_size(nodes),
    decreases nodes,
{
    if nodes.len() > 0 {
        lemma_counts_bounded(nodes.drop_last());
        lemma_node_counts_bounded(nodes.last());
    }
}

proof fn lemma_node_counts_bounded(node: ExpandNode)
    ensures
        node_slots(node) <= node_size(node),
        node_children(node) <= node_size(node),
    decreases node,
{
    match node {
        ExpandNode::Element(el) => {
            lemma_counts_bounded(el.children@);
        },
        ExpandNode::If { then, .. } => {
            lemma_counts_bounded(then@);
        },
        _ => {},
    }
}

/// Expansion numbers no further than the size of what it expands.
proof fn lemma_expand_advance(
    nodes: Seq<ExpandNode>,
    heights: Seq<u16>,
    seamless: bool,
    error: bool,
    path: Seq<usize>,
    slot: nat,
    child: nat,
)
    ensures
        ({
            let r = expand_list(nodes, heights, seamless, error, path, slot, child);
            slot <= r.1 <= slot + list_size(nodes) && child <= r.2 <= child + list_size(nodes)
        }),
    decreases nodes,
{
    if nodes.len() > 0 {
        lemma_expand_advance(nodes.drop_last(), heights, seamless, error, path, slot, child);
        let pre = expand_list(nodes.drop_last(), heights, seamless, error, path, slot, child);
        lemma_node_advance(nodes.last(), heights, seamless, error, path, pre.1, pre.2);
    }
}

proof fn lemma_node_advance(
    node: ExpandNode,
    heights: Seq<u16>,
    seamless: bool,
    error: bool,
    path: Seq<usize>,
    slot: nat,
    child: nat,
)
    ensures
        ({
            let r = expand_node(node, heights, seamless, error, path, slot, child);
            slot <= r.1 <= slot + node_size(node) && child <= r.2 <= child + node_size(node)
        }),
    decreases node,
{
    match node {
        ExpandNode::Element(el) => {
            if el.widget {
                lemma_expand_advance(el.children@, heights, seamless, error, path, slot + 1, child);
            } else if el.child is None {
                lemma_expand_advance(el.children@, heights, seamless, error, path, slot, child);
            }
        },
        ExpandNode::If { holds, then } => {
            lemma_counts_bounded(then@);
            lemma_expand_advance(then@, heights, seamless, error, path, slot, child);
        },
        _ => {},
    }
}

proof fn lemma_size_prefix(nodes: Seq<ExpandNode>, i: int)
    requires
        0 <= i <= nodes.len(),
    ensures
        list_size(nodes.take(i)) <= list_size(nodes),
    decreases nodes.len(),
{
    if i < nodes.len() {
        assert(nodes.drop_last().take(i) =~= nodes.take(i));
        lemma_size_prefix(nodes.drop_last(), i);
    } else {
        assert(nodes.take(i) =~= nodes);
    }
}

/// The widget slots of a run of resolved nodes.
pub fn slots_in(nodes: &Vec<ExpandNode>) -> (n: usize)
    requires
        list_size(nodes@) <= usize::MAX,
    ensures
        n == count_slots(nodes@),
    decreases nodes@,
{
    let mut n: usize = 0;
    let mut i: usize = 0;
    while i < nodes.len()
        invariant
            0 <= i <= nodes@.len(),
            list_size(nodes@) <= usize::MAX,
            n == count_slots(nodes@.take(i as int)),
        decreases nodes@.len() - i,
    {
        let ghost pre = nodes@.take(i as int);
        let ghost next = nodes@.take(i + 1);
        assert(next.drop_last() =~= pre);
        assert(next.last() == nodes@[i as int]);
        proof {
            lemma_size_prefix(nodes@, i + 1);
            lemma_counts_bounded(next);
        }
        assert(list_size(next) == list_size(pre) + node_size(nodes@[i as int]));
        assert(count_slots(next) == count_slots(pre) + node_slots(nodes@[i as int]));
        assert(count_children(next) == count_children(pre) + node_children(nodes@[i as int]));
        assert(decreases_to!(nodes@ => nodes@[i as int]));
        match &nodes[i] {
            ExpandNode::Element(el) => {
                if el.widget {
                    let k = slots_in(&el.children);
                    n = n + 1 + k;
                } else if el.child.is_none() {
                    let k = slots_in(&el.children);
                    n = n + k;
                }
            },
            ExpandNode::If { then, .. } => {
                let k = slots_in(then);
                n = n + k;
            },
            _ => {},
        }
        i = i + 1;
    }
    assert(nodes@.take(nodes@.len() as int) =~= nodes@);
    n
}

/// The registered children of a run of resolved nodes.
pub fn children_in(nodes: &Vec<ExpandNode>) -> (n: usize)
    requires
        list_size(nodes@) <= usize::MAX,
    ensures
        n == count_children(nodes@),
    decreases nodes@,
{
    let mut n: usize = 0;
    let mut i: usize = 0;
    while i < nodes.len()
        invariant
            0 <= i <= nodes@.len(),
            list_size(nodes@) <= usize::MAX,
            n == count_children(nodes@.take(i as int)),
        decreases nodes@.len() - i,
    {
        let ghost pre = nodes@.take(i as int);
        let ghost next = nodes@.take(i + 1);
        assert(next.drop_last() =~= pre);
        assert(next.last() == nodes@[i as int]);
        proof {
            lemma_size_prefix(nodes@, i + 1);
            lemma_counts_bounded(next);
        }
        assert(list_size(next) == list_size(pre) + node_size(nodes@[i as int]));
        assert(count_slots(next) == count_slots(pre) + node_slots(nodes@[i as int]));
        assert(count_children(next) == count_children(pre) + node_children(nodes@[i as int]));
        assert(decreases_to!(nodes@ => nodes@[i as int]));
        match &nodes[i] {
            ExpandNode::Element(el) => {
                if el.child.is_some() {
                    n = n + 1;
                } else {
                    let k = children_in(&el.children);
                    n = n + k;
                }
            },
            ExpandNode::If { then, .. } => {
                let k = children_in(then);
                n = n + k;
            },
            _ => {},
        }
        i = i + 1;
    }
    assert(nodes@.take(nodes@.len() as int) =~= nodes@);
    n
}

/// The size of a run of resolved nodes, where it fits a `usize`.
pub fn size_checked(nodes: &Vec<ExpandNode>) -> (n: Option<usize>)
    ensures
        n == (if list_size(nodes@) <= usize::MAX { Some(list_size(nodes@) as usize) } else { None::<usize> }),
    decreases nodes@,
{
    let mut n: usize = 0;
    let mut i: usize = 0;
    while i < nodes.len()
        invariant
            0 <= i <= nodes@.len(),
            n == list_size(nodes@.take(i as int)),
        decreases nodes@.len() - i,
    {
        let ghost pre = nodes@.take(i as int);
        let ghost next = nodes@.take(i + 1);
        assert(next.drop_last() =~= pre);
        assert(next.last() == nodes@[i as int]);
        proof {
            lemma_size_prefix(nodes@, i + 1);
        }
        assert(list_size(next) == list_size(pre) + node_size(nodes@[i as int]));
        assert(decreases_to!(nodes@ => nodes@[i as int]));
        let own: Option<usize> = match &nodes[i] {
            ExpandNode::Element(el) => {
                match size_checked(&el.children) {
                    None => None,
                    Some(k) => {
                        let extra = match &el.child {
                            Some(sc) => {
                                assert(decreases_to!(nodes@[i as int] => sc.roots@));
                                size_checked(&sc.roots)
                            },
                            None => Some(0),
                        };
                        match extra {
                            None => None,
                            Some(e) => {
                                if k < usize::MAX && e <= usize::MAX - 1 - k {
                                    Some(1 + k + e)
                                } else {
                                    None
                                }
                            },
                        }
                    },
                }
            },
            ExpandNode::If { then, .. } => {
                match size_checked(then) {
                    None => None,
                    Some(k) => if k < usize::MAX {
                        Some(1 + k)
                    } else {
                        None
                    },
                }
            },
            _ => Some(1),
        };
        match own {
            None => {
                return None;
            },
            Some(o) => {
                if o > usize::MAX - n {
                    return None;
                }
                n = n + o;
            },
        }
        i = i + 1;
    }
    assert(nodes@.take(nodes@.len() as int) =~= nodes@);
    Some(n)
}

/// The class words, a seamless instance's input group made a flex row.
pub open spec fn kept_words(text: Seq<char>, seamless: bool) -> Seq<Seq<char>> {
    let words = split_words(text, true);
    if seamless {
        words.map_values(|w: Seq<char>| if w == "input-group"@ { "d-flex"@ } else { w })
    } else {
        words
    }
}

/// An element's classes under its instance's `seamless` and `error`
/// properties.
pub fn resolve_classes(text: &str, seamless: bool, error: bool) -> (classes: Vec<String>)
    ensures
        classes@.map_values(|c: String| c@) == class_list(text@, seamless, error),
{
    proof {
        reveal_strlit("input-group");
        reveal_strlit("d-flex");
        assert("d-flex"@[0] != "input-group"@[0]);
    }
    let words = split_words_exec(text, true);
    let ghost all = split_words(text@, true);
    let ghost kept = kept_words(text@, seamless);
    assert(kept.len() == all.len());
    let mut out: Vec<String> = Vec::new();
    let mut grouped = false;
    let mut i: usize = 0;
    while i < words.len()
        invariant
            0 <= i <= words@.len(),
            words@.map_values(|w: Vec<char>| w@) == all,
            all == split_words(text@, true),
            kept == kept_words(text@, seamless),
            kept.len() == all.len(),
            out@.map_values(|c: String| c@) == kept.take(i as int),
            grouped == kept.take(i as int).contains("input-group"@),
            "d-flex"@ != "input-group"@,
        decreases words@.len() - i,
    {
        let ghost before = out@;
        assert(words@.map_values(|w: Vec<char>| w@)[i as int] == words@[i as int]@);
        let is_group = chars_eq_str(&words[i], "input-group");
        if seamless && is_group {
            out.push(string_of(&chars_of("d-flex")));
        } else {
            out.push(string_of(&words[i]));
            if is_group {
                grouped = true;
            }
        }
        assert(kept.take(i + 1) =~= kept.take(i as int).push(kept[i as int]));
        assert(out@.map_values(|c: String| c@) =~= before.map_values(|c: String| c@).push(kept[i as int]));
        assert(kept.take(i + 1).contains("input-group"@) == (kept.take(i as int).contains("input-group"@)
            || kept[i as int] == "input-group"@)) by {
            if kept.take(i + 1).contains("input-group"@) {
                let j = choose|j: int| 0 <= j < kept.take(i + 1).len() && #[trigger] kept.take(i + 1)[j] == "input-group"@;
                if j < i {
                    assert(kept.take(i as int)[j] == "input-group"@);
                }
            }
            if kept.take(i as int).contains("input-group"@) {
                let j = choose|j: int| 0 <= j < kept.take(i as int).len() && #[trigger] kept.take(i as int)[j] == "input-group"@;
                assert(kept.take(i + 1)[j] == "input-group"@);
            }
            if kept[i as int] == "input-group"@ {
                assert(kept.take(i + 1)[i as int] == "input-group"@);
            }
        }
        i = i + 1;
    }
    assert(kept.take(kept.len() as int) =~= kept);
    if error && grouped {
        let ghost before = out@;
        out.push(string_of(&chars_of("is-invalid")));
        assert(out@.map_values(|c: String| c@) =~= before.map_values(|c: String| c@).push("is-invalid"@));
    }
    out
}

/// A copy of a child-index path.
fn path_copy(path: &Vec<usize>) -> (r: Vec<usize>)
    ensures
        r@ == path@,
{
    let mut r: Vec<usize> = Vec::new();
    let mut i: usize = 0;
    while i < path.len()
        invariant
            0 <= i <= path@.len(),
            r@ == path@.take(i as int),
        decreases path@.len() - i,
    {
        r.push(path[i]);
        assert(path@.take(i + 1) =~= path@.take(i as int).push(path@[i as int]));
        i = i + 1;
    }
    assert(path@.take(path@.len() as int) =~= path@);
    r
}

proof fn lemma_views_push(rs: Seq<RNode>, r: RNode)
    ensures
        rnode_views(rs.push(r)) == rnode_views(rs).push(rnode_view(r)),
{
    assert(rs.push(r).drop_last() =~= rs);
}

proof fn lemma_views_append(a: Seq<RNode>, b: Seq<RNode>)
    ensures
        rnode_views(a + b) == rnode_views(a) + rnode_views(b),
    decreases b.len(),
{
    if b.len() == 0 {
        assert(a + b =~= a);
        assert(rnode_views(a) + rnode_views(b) =~= rnode_views(a));
    } else {
        lemma_views_append(a, b.drop_last());
        assert((a + b).drop_last() =~= a + b.drop_last());
        assert((a + b).last() == b.last());
        assert(rnode_views(a + b) =~= rnode_views(a) + rnode_views(b));
    }
}

/// Expands a run of resolved nodes of the instance `scope` describes,
/// numbering widget slots and registered children on from `counters`;
/// `path` leads from the rendering instance to this one.
pub fn expand_nodes(nodes: &Vec<ExpandNode>, scope: &Scope, counters: &mut Counters, path: &Vec<usize>) -> (out: Vec<
    RNode,
>)
    requires
        old(counters).slot + list_size(nodes@) <= usize::MAX,
        old(counters).child + list_size(nodes@) <= usize::MAX,
    ensures
        ({
            let r = expand_list(
                nodes@,
                scope.heights@,
                scope.seamless,
                scope.error,
                path@,
                old(counters).slot as nat,
                old(counters).child as nat,
            );
            &&& rnode_views(out@) == r.0
            &&& final(counters).slot == r.1
            &&& final(counters).child == r.2
        }),
    decreases nodes@,
{
    let ghost s0 = counters.slot as nat;
    let ghost c0 = counters.child as nat;
    let ghost hs = scope.heights@;
    let mut out: Vec<RNode> = Vec::new();
    let mut i: usize = 0;
    while i < nodes.len()
        invariant
            0 <= i <= nodes@.len(),
            hs == scope.heights@,
            s0 + list_size(nodes@) <= usize::MAX,
            c0 + list_size(nodes@) <= usize::MAX,
            ({
                let r = expand_list(nodes@.take(i as int), hs, scope.seamless, scope.error, path@, s0, c0);
                &&& rnode_views(out@) == r.0
                &&& counters.slot == r.1
                &&& counters.child == r.2
            }),
        decreases nodes@.len() - i,
    {
        let ghost pre = nodes@.take(i as int);
        let ghost next = nodes@.take(i + 1);
        let ghost node = nodes@[i as int];
        assert(next.drop_last() =~= pre);
        assert(next.last() == node);
        proof {
            lemma_size_prefix(nodes@, i + 1);
            lemma_expand_advance(pre, hs, scope.seamless, scope.error, path@, s0, c0);
        }
        assert(list_size(next) == list_size(pre) + node_size(node));
        let ghost before = out@;
        let ghost cs0 = counters.slot as nat;
        let ghost cc0 = counters.child as nat;
        let ghost step = expand_node(node, hs, scope.seamless, scope.error, path@, cs0, cc0);
        assert(decreases_to!(nodes@ => nodes@[i as int]));
        match &nodes[i] {
            ExpandNode::Text(t) => {
                let s = collapse_whitespace(t.as_str());
                let cs = chars_of(s.as_str());
                if cs.len() > 0 {
                    out.push(RNode::Text(s));
                    proof {
                        lemma_views_push(before, RNode::Text(s));
                    }
                }
            },
            ExpandNode::Hole(t) => {
                let cs = chars_of(t.as_str());
                if cs.len() > 0 {
                    let s = string_of(&cs);
                    out.push(RNode::Text(s));
                    proof {
                        lemma_views_push(before, RNode::Text(s));
                    }
                }
            },
            ExpandNode::If { holds, then } => {
                if *holds {
                    let mut sub = expand_nodes(then, scope, counters, path);
                    let ghost sub_v = sub@;
                    out.append(&mut sub);
                    proof {
                        lemma_views_append(before, sub_v);
                    }
                } else {
                    proof {
                        lemma_counts_bounded(then@);
                    }
                    let a = slots_in(then);
                    let b = children_in(then);
                    counters.slot = counters.slot + a;
                    counters.child = counters.child + b;
                }
            },
            ExpandNode::Element(el) => {
                let classes = resolve_classes(el.class_text.as_str(), scope.seamless, scope.error);
                if el.widget {
                    let slot = counters.slot;
                    let height: u16 = if slot < scope.heights.len() {
                        scope.heights[slot]
                    } else {
                        1
                    };
                    let slot_ref = SlotRef { path: path_copy(path), slot };
                    counters.slot = slot + 1;
                    let kids = expand_nodes(&el.children, scope, counters, path);
                    let r = RNode::Element { classes, slot: Some(slot_ref), widget_height: height, children: kids };
                    out.push(r);
                    proof {
                        lemma_views_push(before, r);
                    }
                } else {
                    match &el.child {
                        Some(sc) => {
                            let index = counters.child;
                            let mut child_path = path_copy(path);
                            child_path.push(index);
                            let mut child_counters = Counters { slot: 0, child: 0 };
                            assert(decreases_to!(nodes@[i as int] => sc.roots@));
                            let kids = expand_nodes(&sc.roots, sc, &mut child_counters, &child_path);
                            counters.child = index + 1;
                            let r = RNode::Element { classes, slot: None, widget_height: 1, children: kids };
                            out.push(r);
                            proof {
                                lemma_views_push(before, r);
                            }
                        },
                        None => {
                            let kids = expand_nodes(&el.children, scope, counters, path);
                            let r = RNode::Element { classes, slot: None, widget_height: 1, children: kids };
                            out.push(r);
                            proof {
                                lemma_views_push(before, r);
                            }
                        },
                    }
                }
            },
        }
        i = i + 1;
    }
    assert(nodes@.take(nodes@.len() as int) =~= nodes@);
    out
}

/// The render tree of one frame of an instance, where its resolved
/// template's size fits a `usize`.
pub fn expand(scope: &Scope) -> (out: Option<Vec<RNode>>)
    ensures
        match out {
            Some(o) => list_size(scope.roots@) <= usize::MAX && rnode_views(o@) == expand_list(
                scope.roots@,
                scope.heights@,
                scope.seamless,
                scope.error,
                Seq::empty(),
                0,
                0,
            ).0,
            None => list_size(scope.roots@) > usize::MAX,
        },
{
    match size_checked(&scope.roots) {
        None => None,
        Some(_) => {
            let mut counters = Counters { slot: 0, child: 0 };
            let path: Vec<usize> = Vec::new();
            let out = expand_nodes(&scope.roots, scope, &mut counters, &path);
            assert(path@ =~= Seq::<usize>::empty());
            Some(out)
        },
    }
}

/// No widget leaf of the run, outside mounted children, is itself a
/// mounted custom element.
pub open spec fn widgets_unmounted(nodes: Seq<ExpandNode>) -> bool
    decreases nodes,
{
    if nodes.len() == 0 {
        true
    } else {
        widgets_unmounted(nodes.drop_last()) && node_widget_unmounted(nodes.last())
    }
}

pub open spec fn node_widget_unmounted(node: ExpandNode) -> bool
    decreases node,
{
    match node {
        ExpandNode::Element(el) => {
            if el.widget {
                el.child is None && widgets_unmounted(el.children@)
            } else if el.child is None {
                widgets_unmounted(el.children@)
            } else {
                true
            }
        },
        ExpandNode::If { then, .. } => widgets_unmounted(then@),
        _ => true,
    }
}

/// Slots are numbered in template order over every branch: whichever
/// conditions hold, a run of nodes moves the slot number on by the slots
/// it holds, so a widget's slot does not depend on the conditionals before
/// it.
pub proof fn law_slot_numbering_ignores_conditions(
    nodes: Seq<ExpandNode>,
    heights: Seq<u16>,
    seamless: bool,
    error: bool,
    path: Seq<usize>,
    slot: nat,
    child: nat,
)
    ensures
        expand_list(nodes, heights, seamless, error, path, slot, child).1 == slot + count_slots(nodes),
    decreases nodes,
{
    if nodes.len() > 0 {
        law_slot_numbering_ignores_conditions(nodes.drop_last(), heights, seamless, error, path, slot, child);
        let pre = expand_list(nodes.drop_last(), heights, seamless, error, path, slot, child);
        lemma_node_slot_numbering(nodes.last(), heights, seamless, error, path, pre.1, pre.2);
    }
}

proof fn lemma_node_slot_numbering(
    node: ExpandNode,
    heights: Seq<u16>,
    seamless: bool,
    error: bool,
    path: Seq<usize>,
    slot: nat,
    child: nat,
)
    ensures
        expand_node(node, heights, seamless, error, path, slot, child).1 == slot + node_slots(node),
    decreases node,
{
    match node {
        ExpandNode::Element(el) => {
            if el.widget {
                law_slot_numbering_ignores_conditions(el.children@, heights, seamless, error, path, slot + 1, child);
            } else if el.child is None {
                law_slot_numbering_ignores_conditions(el.children@, heights, seamless, error, path, slot, child);
            }
        },
        ExpandNode::If { holds, then } => {
            law_slot_numbering_ignores_conditions(then@, heights, seamless, error, path, slot, child);
        },
        _ => {},
    }
}

/// Registered children are numbered in template order over every branch:
/// whichever conditions hold, a run of nodes moves the child number on by
/// the registered children it holds, where no widget leaf is itself a
/// mounted element.
pub proof fn law_child_numbering_ignores_conditions(
    nodes: Seq<ExpandNode>,
    heights: Seq<u16>,
    seamless: bool,
    error: bool,
    path: Seq<usize>,
    slot: nat,
    child: nat,
)
    requires
        widgets_unmounted(nodes),
    ensures
        expand_list(nodes, heights, seamless, error, path, slot, child).2 == child + count_children(nodes),
    decreases nodes,
{
    if nodes.len() > 0 {
        law_child_numbering_ignores_conditions(nodes.drop_last(), heights, seamless, error, path, slot, child);
        let pre = expand_list(nodes.drop_last(), heights, seamless, error, path, slot, child);
        lemma_node_child_numbering(nodes.last(), heights, seamless, error, path, pre.1, pre.2);
    }
}

proof fn lemma_node_child_numbering(
    node: ExpandNode,
    heights: Seq<u16>,
    seamless: bool,
    error: bool,
    path: Seq<usize>,
    slot: nat,
    child: nat,
)
    requires
        node_widget_unmounted(node),
    ensures
        expand_node(node, heights, seamless, error, path, slot, child).2 == child + node_children(node),
    decreases node,
{
    match node {
        ExpandNode::Element(el) => {
            if el.widget {
                law_child_numbering_ignores_conditions(el.children@, heights, seamless, error, path, slot + 1, child);
            } else if el.child is None {
                law_child_numbering_ignores_conditions(el.children@, heights, seamless, error, path, slot, child);
            }
        },
        ExpandNode::If { holds, then } => {
            law_child_numbering_ignores_conditions(then@, heights, seamless, error, path, slot, child);
        },
        _ => {},
    }
}

} // verus!
