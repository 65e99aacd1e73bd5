use uic_tui::dataset::{camel_case, dataset_key};
use uic_tui::geometry::Rect;
use uic_tui::{Control, Error, OverlayOutcome};

#[test]
fn errors_read_like_their_cause() {
    assert_eq!(Error::UnknownTag("x-foo".to_string()).message(), "unknown custom element <x-foo>");
    assert_eq!(
        Error::UnknownWidget("dial".to_string()).message(),
        "unsupported data-tui widget 'dial'"
    );
    assert_eq!(Error::Pattern("bad %Q".to_string()).message(), "date pattern: bad %Q");
    assert_eq!(Error::Terminal("gone".to_string()).message(), "terminal: gone");
}

#[test]
fn io_errors_convert_and_show_their_own_text() {
    let io = std::io::Error::new(std::io::ErrorKind::Other, "pipe closed");
    let err: Error = io.into();
    assert!(matches!(err, Error::Io(_)));
    assert_eq!(err.message(), "pipe closed");
}

#[test]
fn control_and_overlay_outcomes_compare() {
    assert_ne!(Control::Continue, Control::Quit);
    assert_eq!(OverlayOutcome::Pass, OverlayOutcome::Pass);
    assert_ne!(OverlayOutcome::Consumed, OverlayOutcome::Commit);
}

#[test]
fn kebab_names_read_as_camel_case() {
    assert_eq!(camel_case("row-id"), "rowId");
    assert_eq!(camel_case("a-b-c"), "aBC");
    assert_eq!(camel_case("plain"), "plain");
    assert_eq!(camel_case("trailing-"), "trailing");
    assert_eq!(camel_case("double--dash"), "doubleDash");
    assert_eq!(camel_case("-lead"), "Lead");
    // Non-ASCII letters capitalise through the Unicode mapping.
    assert_eq!(camel_case("x-\u{e9}t\u{e9}"), "x\u{c9}t\u{e9}");
    assert_eq!(camel_case("stra-\u{df}e"), "straSSe");
}

#[test]
fn only_data_attributes_have_dataset_keys() {
    assert_eq!(dataset_key("data-row-id"), Some("rowId".to_string()));
    assert_eq!(dataset_key("data-"), Some(String::new()));
    assert_eq!(dataset_key("aria-label"), None);
    assert_eq!(dataset_key("dat"), None);
}

#[test]
fn rectangles_hold_their_cells() {
    let r = Rect::new(2, 3, 4, 5);
    assert_eq!(r.right(), 6);
    assert_eq!(r.bottom(), 8);
    assert!(r.contains(2, 3));
    assert!(r.contains(5, 7));
    assert!(!r.contains(6, 7));
    assert!(!r.contains(1, 3));
    let edge = Rect::new(u16::MAX - 1, 0, 10, 1);
    assert_eq!(edge.right(), u16::MAX);
}

#[test]
fn ascii_capitals_after_hyphens() {
    assert_eq!(camel_case("data-row-id-2"), "dataRowId2");
    assert_eq!(camel_case("a-z"), "aZ");
}
