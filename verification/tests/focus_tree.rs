use uic_tui::focus_tree::{focus_len, focus_next, locate_path, FocusTree, Focusable};

fn tree() -> FocusTree {
    // An instance with a slot, a child holding two slots, another slot,
    // and a child with none.
    FocusTree {
        focusables: vec![
            Focusable::OwnSlot(0),
            Focusable::Child(0),
            Focusable::OwnSlot(1),
            Focusable::Child(1),
        ],
        children: vec![
            FocusTree {
                focusables: vec![Focusable::OwnSlot(3), Focusable::OwnSlot(4)],
                children: vec![],
            },
            FocusTree { focusables: vec![], children: vec![] },
        ],
    }
}

#[test]
fn flat_indices_count_through_child_subtrees() {
    let t = tree();
    assert_eq!(focus_len(&t), 4);
    assert_eq!(locate_path(&t, 0), Some((vec![], 0)));
    assert_eq!(locate_path(&t, 1), Some((vec![0], 3)));
    assert_eq!(locate_path(&t, 2), Some((vec![0], 4)));
    assert_eq!(locate_path(&t, 3), Some((vec![], 1)));
    assert_eq!(locate_path(&t, 4), None);
}

#[test]
fn nested_children_extend_the_path() {
    let t = FocusTree {
        focusables: vec![Focusable::Child(0)],
        children: vec![FocusTree {
            focusables: vec![Focusable::Child(0)],
            children: vec![FocusTree { focusables: vec![Focusable::OwnSlot(7)], children: vec![] }],
        }],
    };
    assert_eq!(focus_len(&t), 1);
    assert_eq!(locate_path(&t, 0), Some((vec![0, 0], 7)));
}

#[test]
fn focus_skips_disabled_widgets_and_wraps() {
    assert_eq!(focus_next(0, &vec![false, true, false]), 2);
    assert_eq!(focus_next(2, &vec![false, true, false]), 0);
    assert_eq!(focus_next(1, &vec![true, false, true]), 1);
    assert_eq!(focus_next(0, &vec![true, true]), 0);
    assert_eq!(focus_next(0, &vec![false]), 0);
}

#[test]
fn nothing_to_focus_leaves_the_index_alone() {
    assert_eq!(focus_next(0, &vec![]), 0);
    assert_eq!(focus_next(3, &vec![]), 3);
    assert_eq!(focus_next(5, &vec![true, false]), 1);
}
