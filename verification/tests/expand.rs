use uic_tui::expand::{
    children_in, expand, expand_nodes, resolve_classes, size_checked, slots_in, Counters, ExpandElement,
    ExpandNode, Scope,
};
use uic_tui::render::RNode;

fn text(s: &str) -> ExpandNode {
    ExpandNode::Text(s.to_string())
}

fn element(class_text: &str, widget: bool, children: Vec<ExpandNode>) -> ExpandNode {
    ExpandNode::Element(ExpandElement { class_text: class_text.to_string(), widget, child: None, children })
}

fn mounted(class_text: &str, scope: Scope) -> ExpandNode {
    ExpandNode::Element(ExpandElement {
        class_text: class_text.to_string(),
        widget: false,
        child: Some(Box::new(scope)),
        children: Vec::new(),
    })
}

fn scope(roots: Vec<ExpandNode>) -> Scope {
    Scope { roots, heights: Vec::new(), seamless: false, error: false }
}

fn texts(nodes: &[RNode]) -> Vec<String> {
    nodes
        .iter()
        .map(|n| match n {
            RNode::Text(t) => t.clone(),
            RNode::Element { .. } => "<el>".to_string(),
        })
        .collect()
}

#[test]
fn template_text_collapses_and_empty_text_drops() {
    let s = scope(vec![
        text("  Hello \n\t world  "),
        text(" \n "),
        ExpandNode::Hole(String::new()),
        ExpandNode::Hole("42".to_string()),
    ]);
    let out = expand(&s).unwrap();
    assert_eq!(texts(&out), vec!["Hello world".to_string(), "42".to_string()]);
}

#[test]
fn skipped_branches_still_number_their_slots_and_children() {
    let hidden = vec![element("", true, vec![]), mounted("", scope(vec![])), element("", true, vec![])];
    let s = scope(vec![
        ExpandNode::If { holds: false, then: hidden },
        element("btn", true, vec![text("go")]),
        mounted("card", scope(vec![element("", true, vec![])])),
    ]);
    let out = expand(&s).unwrap();
    assert_eq!(out.len(), 2);
    match &out[0] {
        RNode::Element { classes, slot, widget_height, children } => {
            assert_eq!(classes, &vec!["btn".to_string()]);
            let slot = slot.as_ref().unwrap();
            assert_eq!(slot.slot, 2);
            assert!(slot.path.is_empty());
            assert_eq!(*widget_height, 1);
            assert_eq!(texts(children), vec!["go".to_string()]);
        }
        RNode::Text(_) => panic!("expected the widget leaf"),
    }
    match &out[1] {
        RNode::Element { classes, slot, children, .. } => {
            assert_eq!(classes, &vec!["card".to_string()]);
            assert!(slot.is_none());
            match &children[0] {
                RNode::Element { slot: Some(inner), .. } => {
                    assert_eq!(inner.path, vec![1]);
                    assert_eq!(inner.slot, 0);
                }
                _ => panic!("expected the child's widget leaf"),
            }
        }
        RNode::Text(_) => panic!("expected the mounted child"),
    }
}

#[test]
fn holding_branches_expand_in_place() {
    let s = scope(vec![ExpandNode::If { holds: true, then: vec![text("a"), element("x", true, vec![])] }, element("y", true, vec![])]);
    let out = expand(&s).unwrap();
    assert_eq!(out.len(), 3);
    match (&out[1], &out[2]) {
        (RNode::Element { slot: Some(a), .. }, RNode::Element { slot: Some(b), .. }) => {
            assert_eq!(a.slot, 0);
            assert_eq!(b.slot, 1);
        }
        _ => panic!("expected two widget leaves"),
    }
}

#[test]
fn widget_heights_come_from_their_slots() {
    let s = Scope {
        roots: vec![element("", true, vec![]), element("", true, vec![]), element("", true, vec![])],
        heights: vec![1, 4],
        seamless: false,
        error: false,
    };
    let out = expand(&s).unwrap();
    let heights: Vec<u16> = out
        .iter()
        .map(|n| match n {
            RNode::Element { widget_height, .. } => *widget_height,
            RNode::Text(_) => 0,
        })
        .collect();
    assert_eq!(heights, vec![1, 4, 1]);
}

#[test]
fn seamless_input_groups_become_flex_rows_and_errors_mark_borders() {
    assert_eq!(resolve_classes("input-group  w-100", true, true), vec!["d-flex".to_string(), "w-100".to_string()]);
    assert_eq!(
        resolve_classes("input-group w-100", false, true),
        vec!["input-group".to_string(), "w-100".to_string(), "is-invalid".to_string()]
    );
    assert_eq!(resolve_classes(" a\u{a0}b ", false, false), vec!["a".to_string(), "b".to_string()]);
    assert_eq!(resolve_classes("", false, true), Vec::<String>::new());
}

#[test]
fn counters_continue_from_where_they_stand() {
    let s = scope(vec![]);
    let nodes = vec![element("", true, vec![element("", true, vec![])]), mounted("", scope(vec![]))];
    let mut counters = Counters { slot: 5, child: 2 };
    let path = vec![3];
    let out = expand_nodes(&nodes, &s, &mut counters, &path);
    assert_eq!(counters.slot, 7);
    assert_eq!(counters.child, 3);
    match &out[0] {
        RNode::Element { slot: Some(r), children, .. } => {
            assert_eq!(r.slot, 5);
            assert_eq!(r.path, vec![3]);
            match &children[0] {
                RNode::Element { slot: Some(inner), .. } => assert_eq!(inner.slot, 6),
                _ => panic!("expected the nested widget"),
            }
        }
        _ => panic!("expected the widget leaf"),
    }
}

#[test]
fn counting_spans_every_branch_but_not_mounted_children() {
    let nodes = vec![
        ExpandNode::If { holds: false, then: vec![element("", true, vec![element("", true, vec![])])] },
        mounted("", scope(vec![element("", true, vec![])])),
        element("", false, vec![mounted("", scope(vec![]))]),
    ];
    assert_eq!(slots_in(&nodes), 2);
    assert_eq!(children_in(&nodes), 2);
    assert_eq!(size_checked(&nodes), Some(7));
}
