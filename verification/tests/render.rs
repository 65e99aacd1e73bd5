use uic_tui::ansi::Color;
use uic_tui::geometry::Rect;
use uic_tui::render::{widget_look, WidgetLook};
use uic_tui::render::{
    content_height, contains_focus, group_border, has_class_exec, widget_alignment, Alignment, Hints,
    Laid, RNode, SlotRef,
};

fn classes(names: &[&str]) -> Vec<String> {
    names.iter().map(|name| name.to_string()).collect()
}

fn leaf(rect: Rect, slot: Option<SlotRef>) -> Laid {
    Laid {
        rnode: RNode::Element { classes: vec![], slot, widget_height: 1, children: vec![] },
        rect,
        children: vec![],
    }
}

#[test]
fn text_classes_merge_in_order() {
    let hints = Hints::none().merge(&classes(&["form-label", "text-muted", "text-danger", "other"]));
    assert!(hints.bold);
    assert!(!hints.italic);
    assert_eq!(hints.fg, Some(Color::LightRed));
    let hints = Hints::none().merge(&classes(&["small", "fst-italic", "text-center"]));
    assert!(hints.dim && hints.italic && hints.center && !hints.bold);
    assert_eq!(hints.fg, None);
    assert_eq!(Hints::none().merge(&vec![]), Hints::none());
}

#[test]
fn alignment_prefers_the_end() {
    assert_eq!(widget_alignment(&classes(&["text-center", "text-end"])), Some(Alignment::Right));
    assert_eq!(widget_alignment(&classes(&["text-center"])), Some(Alignment::Center));
    assert_eq!(widget_alignment(&classes(&["text-start"])), None);
}

#[test]
fn the_error_outline_wins_over_the_focus_ring() {
    assert_eq!(group_border(&classes(&["is-invalid"]), true), Color::Red);
    assert_eq!(group_border(&classes(&[]), true), Color::LightBlue);
    assert_eq!(group_border(&classes(&["input-group"]), false), Color::DarkGray);
    assert!(has_class_exec(&classes(&["a", "b"]), "b"));
    assert!(!has_class_exec(&classes(&["a", "b"]), "c"));
}

#[test]
fn focus_is_found_anywhere_in_a_subtree() {
    let target = SlotRef { path: vec![0, 2], slot: 1 };
    let tree = Laid {
        rnode: RNode::Text("x".to_string()),
        rect: Rect::new(0, 0, 10, 3),
        children: vec![leaf(Rect::new(0, 0, 5, 1), None), leaf(Rect::new(0, 1, 5, 1), Some(target.clone()))],
    };
    assert!(contains_focus(&tree, &Some((vec![0, 2], 1))));
    assert!(!contains_focus(&tree, &Some((vec![0, 2], 0))));
    assert!(!contains_focus(&tree, &Some((vec![0], 1))));
    assert!(!contains_focus(&tree, &None));
}

#[test]
fn content_height_reaches_the_lowest_row() {
    let area = Rect::new(0, 2, 40, 20);
    let roots = vec![
        Laid {
            rnode: RNode::Text("a".to_string()),
            rect: Rect::new(0, 2, 10, 1),
            children: vec![leaf(Rect::new(0, 5, 5, 2), None)],
        },
        leaf(Rect::new(0, 3, 5, 1), None),
    ];
    assert_eq!(content_height(&roots, area), 5);
    assert_eq!(content_height(&vec![], area), 0);
}

use uic_tui::render::{slot_focused, widget_text, WidgetText};

#[test]
fn empty_widgets_show_their_placeholder() {
    assert_eq!(widget_text(false, "", Some("name"), None, false), WidgetText::Placeholder(Alignment::Left));
    assert_eq!(
        widget_text(false, "", Some("name"), Some(Alignment::Right), true),
        WidgetText::Placeholder(Alignment::Right)
    );
    assert_eq!(widget_text(false, "", Some(""), None, false), WidgetText::Plain);
    assert_eq!(widget_text(false, "", None, None, false), WidgetText::Plain);
}

#[test]
fn values_align_only_at_rest() {
    assert_eq!(widget_text(false, "42", None, Some(Alignment::Right), false), WidgetText::Aligned(Alignment::Right));
    assert_eq!(widget_text(false, "42", None, Some(Alignment::Right), true), WidgetText::Plain);
    assert_eq!(widget_text(false, "42", Some("x"), None, false), WidgetText::Plain);
    // A select paints its own closed label.
    assert_eq!(widget_text(true, "", Some("pick"), None, false), WidgetText::Plain);
}

#[test]
fn the_focused_slot_matches_path_and_index() {
    let slot = SlotRef { path: vec![1], slot: 2 };
    assert!(slot_focused(&Some((vec![1], 2)), &slot));
    assert!(!slot_focused(&Some((vec![1], 3)), &slot));
    assert!(!slot_focused(&Some((vec![], 2)), &slot));
    assert!(!slot_focused(&None, &slot));
}

#[test]
fn only_an_enabled_focused_widget_shows_focus() {
    assert_eq!(widget_look(true, false), WidgetLook { focus: true, dim: false });
    assert_eq!(widget_look(true, true), WidgetLook { focus: false, dim: true });
    assert_eq!(widget_look(false, false), WidgetLook { focus: false, dim: false });
    assert_eq!(widget_look(false, true), WidgetLook { focus: false, dim: true });
}
