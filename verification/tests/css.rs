use uic_tui::ansi::{Color, BOLD, CROSSED_OUT, DIM, ITALIC, REVERSED, UNDERLINED};
use uic_tui::css::{
    convert_color, focus_inside, hit_node, paint_step, text_style, ComputedText, CssColor, ElementPaint, LaidBox,
    PaintFacts, PaintKind, PaintStep, TextStyle,
};
use uic_tui::geometry::Rect;

fn plain() -> ComputedText {
    ComputedText {
        color: None,
        background: None,
        bold: false,
        italic: false,
        dim: false,
        underlined: false,
        crossed_out: false,
        center: false,
    }
}

#[test]
fn css_colors_become_terminal_colors() {
    assert_eq!(convert_color(CssColor::Ansi(Color::LightCyan)), Color::LightCyan);
    assert_eq!(convert_color(CssColor::Rgb(1, 2, 3)), Color::Rgb(1, 2, 3));
    assert_eq!(convert_color(CssColor::Highlight), Color::Reset);
}

#[test]
fn a_plain_style_sets_nothing() {
    assert_eq!(text_style(&plain()), (TextStyle { fg: None, bg: None, modifier: 0 }, false));
}

#[test]
fn decorations_become_modifiers_and_highlight_reverses() {
    let computed = ComputedText {
        color: Some(CssColor::Ansi(Color::Red)),
        background: Some(CssColor::Highlight),
        bold: true,
        italic: true,
        dim: true,
        underlined: true,
        crossed_out: true,
        center: true,
    };
    let (style, center) = text_style(&computed);
    assert!(center);
    assert_eq!(style.fg, Some(Color::Red));
    assert_eq!(style.bg, None);
    assert_eq!(style.modifier, REVERSED | BOLD | ITALIC | DIM | UNDERLINED | CROSSED_OUT);
    let background = ComputedText { background: Some(CssColor::Rgb(9, 9, 9)), ..plain() };
    assert_eq!(text_style(&background).0, TextStyle { fg: None, bg: Some(Color::Rgb(9, 9, 9)), modifier: 0 });
}

#[test]
fn the_deepest_box_under_the_pointer_wins() {
    let boxes = vec![
        LaidBox {
            node: 1,
            rect: Rect::new(0, 0, 10, 10),
            children: vec![LaidBox { node: 2, rect: Rect::new(2, 2, 3, 3), children: vec![] }],
        },
        LaidBox { node: 3, rect: Rect::new(0, 0, 20, 20), children: vec![] },
    ];
    assert_eq!(hit_node(&boxes, 3, 3), Some(2));
    assert_eq!(hit_node(&boxes, 8, 8), Some(1));
    assert_eq!(hit_node(&boxes, 15, 15), Some(3));
    assert_eq!(hit_node(&boxes, 25, 25), None);
}

fn facts(kind: PaintKind) -> PaintFacts {
    PaintFacts {
        width: 10,
        height: 3,
        kind,
        background: None,
        inherited_background: None,
        bordered: false,
        error: false,
        holds_focus: false,
        focused: false,
    }
}

fn names(list: &[&str]) -> Vec<String> {
    list.iter().map(|c| c.to_string()).collect()
}

#[test]
fn empty_boxes_paint_nothing_and_widgets_paint_themselves() {
    let mut zero = facts(PaintKind::Element);
    zero.height = 0;
    assert_eq!(paint_step(&zero, &Vec::new()), PaintStep::Skip);
    assert_eq!(paint_step(&facts(PaintKind::Widget), &Vec::new()), PaintStep::Widget);
    assert_eq!(paint_step(&facts(PaintKind::Text), &Vec::new()), PaintStep::Text);
    assert_eq!(paint_step(&facts(PaintKind::Other), &Vec::new()), PaintStep::Skip);
}

#[test]
fn an_own_background_fills_the_box_but_the_highlight_does_not() {
    let mut own = facts(PaintKind::Element);
    own.background = Some(CssColor::Ansi(Color::Blue));
    assert_eq!(
        paint_step(&own, &Vec::new()),
        PaintStep::Element(ElementPaint { fill: Some(Color::Blue), ring: None, bar: false })
    );
    own.inherited_background = Some(CssColor::Ansi(Color::Blue));
    assert_eq!(paint_step(&own, &Vec::new()), PaintStep::Element(ElementPaint { fill: None, ring: None, bar: false }));
    own.inherited_background = None;
    own.background = Some(CssColor::Highlight);
    assert_eq!(paint_step(&own, &Vec::new()), PaintStep::Element(ElementPaint { fill: None, ring: None, bar: false }));
}

#[test]
fn the_error_outline_wins_over_the_focus_ring_on_input_groups() {
    let mut group = facts(PaintKind::Element);
    group.bordered = true;
    group.holds_focus = true;
    let ring = |f: &PaintFacts, classes: &[&str]| match paint_step(f, &names(classes)) {
        PaintStep::Element(paint) => paint.ring,
        _ => None,
    };
    assert_eq!(ring(&group, &["input-group"]), Some(Color::LightBlue));
    group.error = true;
    assert_eq!(ring(&group, &["input-group"]), Some(Color::Red));
    assert_eq!(ring(&group, &["card"]), Some(Color::DarkGray));
    group.error = false;
    group.holds_focus = false;
    assert_eq!(ring(&group, &["input-group"]), Some(Color::DarkGray));
}

#[test]
fn the_focused_plain_node_wears_the_bar() {
    let mut node = facts(PaintKind::Element);
    node.focused = true;
    assert_eq!(paint_step(&node, &Vec::new()), PaintStep::Element(ElementPaint { fill: None, ring: None, bar: true }));
    assert!(focus_inside(&Some(vec![7, 3, 1]), 3));
    assert!(!focus_inside(&Some(vec![7, 3, 1]), 4));
    assert!(!focus_inside(&None, 3));
}
