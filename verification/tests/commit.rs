use uic_tui::commit::{commit_plan, Carried, NewNode, OldNode, WidgetKey};

fn before(node: u64, path: Option<&str>, widget: Option<(u64, u64)>) -> OldNode {
    OldNode { node, path: path.map(str::to_string), widget }
}

fn after(node: u64, path: Option<&str>, widget: Option<(u64, u64)>, value: Option<&str>) -> NewNode {
    NewNode { node, path: path.map(str::to_string), widget, value: value.map(str::to_string) }
}

#[test]
fn widgets_return_to_their_keyed_nodes() {
    let outgoing = vec![before(1, Some("row/0"), Some((1, 0))), before(2, None, Some((1, 0))), before(3, Some("row/1"), Some((2, 0)))];
    let fresh = vec![
        after(10, Some("row/0"), Some((2, 0)), None),
        after(11, Some("row/0"), Some((1, 0)), Some("typed")),
        after(12, Some("row/1"), Some((2, 0)), None),
    ];
    let plan = commit_plan(&outgoing, None, &None, &fresh);
    assert_eq!(plan.installs, vec![(11, Carried::Outgoing(0)), (12, Carried::Outgoing(2))]);
    assert_eq!(plan.stash, None);
    assert_eq!(plan.syncs, vec![(11, "typed".to_string())]);
}

#[test]
fn a_focused_widget_without_a_place_waits_in_the_stash() {
    let outgoing = vec![before(1, Some("field"), Some((1, 0))), before(2, Some("other"), Some((1, 0)))];
    let fresh = vec![after(10, Some("elsewhere"), Some((1, 0)), None)];
    let plan = commit_plan(&outgoing, Some(1), &None, &fresh);
    assert!(plan.installs.is_empty());
    assert_eq!(plan.stash, Some(Carried::Outgoing(0)));
}

#[test]
fn the_stash_lands_on_the_commit_that_renders_its_node() {
    let key = Some(WidgetKey { path: "field".to_string(), kind: 1, variant: 0 });
    let fresh = vec![after(20, Some("field"), Some((1, 0)), None)];
    let plan = commit_plan(&Vec::new(), None, &key, &fresh);
    assert_eq!(plan.installs, vec![(20, Carried::Stashed)]);
    assert_eq!(plan.stash, None);

    let elsewhere = vec![after(21, Some("field"), Some((2, 0)), None)];
    let plan = commit_plan(&Vec::new(), None, &key, &elsewhere);
    assert!(plan.installs.is_empty());
    assert_eq!(plan.stash, Some(Carried::Stashed));
}
