use uic_tui::layout::{container_style, widget_style, BoxDisplay, Direction, Edges};
use uic_tui::layout::{grid_placements, GridCell};

fn classes(names: &[&str]) -> Vec<String> {
    names.iter().map(|name| name.to_string()).collect()
}

#[test]
fn elements_are_blocks_unless_a_class_opts_into_flex() {
    let plain = container_style(&classes(&["mt-1", "whatever"]));
    assert_eq!(plain.display, BoxDisplay::Block);
    assert_eq!(plain.grow, 0);
    assert_eq!(plain.shrink, 1);
    assert_eq!(plain.border, Edges { left: 0, right: 0, top: 0, bottom: 0 });
    let flex = container_style(&classes(&["d-flex", "flex-column", "gap-2", "w-100"]));
    assert_eq!(flex.display, BoxDisplay::Flex);
    assert_eq!(flex.direction, Direction::Column);
    assert_eq!(flex.column_gap, 1);
    assert!(flex.full_width);
}

#[test]
fn later_classes_override_earlier_ones() {
    let style = container_style(&classes(&["flex-column", "d-flex"]));
    assert_eq!(style.direction, Direction::Row);
    let style = container_style(&classes(&["flex-grow-1", "flex-grow-0", "flex-shrink-0"]));
    assert_eq!((style.grow, style.shrink), (0, 0));
    assert!(container_style(&classes(&["align-self-center"])).center_self);
}

#[test]
fn an_input_group_reserves_its_border_and_side_padding() {
    let group = container_style(&classes(&["input-group", "p-0"]));
    assert_eq!(group.display, BoxDisplay::Flex);
    assert_eq!(group.border, Edges { left: 1, right: 1, top: 1, bottom: 1 });
    assert_eq!(group.padding, Edges { left: 1, right: 1, top: 0, bottom: 0 });
}

#[test]
fn widgets_keep_their_height_and_a_minimum_width() {
    let b = widget_style(&classes(&[]), 0);
    assert_eq!((b.height, b.min_width, b.grow, b.shrink, b.full_width), (1, 12, 0, 1, false));
    let b = widget_style(&classes(&["flex-grow-1", "flex-shrink-0", "w-100", "d-flex"]), 3);
    assert_eq!((b.height, b.grow, b.shrink, b.full_width), (3, 1, 0, true));
}

use uic_tui::layout::{flow_groups, table_columns, table_fills, table_rows, FlowContainer, FlowGroup, FlowKind, TableNode};

fn node(tag: &str, children: Vec<TableNode>) -> TableNode {
    TableNode { tag: Some(tag.to_string()), children }
}

fn text() -> TableNode {
    TableNode { tag: None, children: vec![] }
}

#[test]
fn rows_come_from_direct_children_and_sections_in_order() {
    let table = vec![
        node("thead", vec![node("tr", vec![node("th", vec![]), node("th", vec![])])]),
        text(),
        node("tr", vec![node("td", vec![]), text(), node("td", vec![]), node("td", vec![])]),
        node("tbody", vec![node("tr", vec![node("td", vec![])]), node("p", vec![])]),
        node("caption", vec![node("tr", vec![])]),
    ];
    let rows = table_rows(&table);
    assert_eq!(rows, vec![vec![0, 1], vec![0, 2, 3], vec![0]]);
    assert_eq!(table_columns(&rows), 3);
    assert_eq!(table_columns(&table_rows(&vec![node("tbody", vec![])])), 0);
}

#[test]
fn tables_fill_unless_they_opt_back_into_hugging() {
    assert!(table_fills("table striped"));
    assert!(table_fills(" w-100 "));
    assert!(!table_fills("table w-auto"));
    assert!(!table_fills("grid"));
    assert!(!table_fills(""));
}

#[test]
fn inline_items_gather_in_runs_that_blocks_break() {
    let items = vec![
        FlowKind::Text { blank: false },
        FlowKind::Element { inline: true },
        FlowKind::Element { inline: false },
        FlowKind::Text { blank: true },
        FlowKind::Generated,
        FlowKind::Text { blank: true },
    ];
    let groups = flow_groups(&items, FlowContainer::Block);
    assert_eq!(groups.len(), 5);
    assert!(matches!(&groups[0], FlowGroup::AnonymousRow(run) if run == &vec![0, 1]));
    assert!(matches!(groups[1], FlowGroup::Plain(2)));
    // A run with one content item stays plain, blanks included.
    assert!(matches!(groups[2], FlowGroup::Plain(3)));
    assert!(matches!(groups[3], FlowGroup::Plain(4)));
    assert!(matches!(groups[4], FlowGroup::Plain(5)));
}

#[test]
fn containers_change_how_runs_end() {
    let items = vec![FlowKind::Text { blank: false }, FlowKind::Text { blank: true }, FlowKind::Generated];
    let row = flow_groups(&items, FlowContainer::Row);
    assert_eq!(row.len(), 1);
    assert!(matches!(&row[0], FlowGroup::InlineItems(run) if run == &vec![0, 1, 2]));
    let flex = flow_groups(&items, FlowContainer::Blockified);
    assert_eq!(flex.len(), 3);
    assert!(matches!(flex[1], FlowGroup::Plain(1)));
    let blanks = flow_groups(&vec![FlowKind::Text { blank: true }], FlowContainer::Block);
    assert!(blanks.is_empty());
}

#[test]
fn cells_take_their_grid_lines_row_by_row() {
    let rows = vec![vec![0, 2], vec![], vec![1]];
    let cell = |row, cell, grid_row, grid_column| GridCell { row, cell, grid_row, grid_column };
    assert_eq!(grid_placements(&rows), vec![cell(0, 0, 1, 1), cell(0, 2, 1, 2), cell(2, 1, 3, 1)]);
    assert!(grid_placements(&Vec::new()).is_empty());
}
