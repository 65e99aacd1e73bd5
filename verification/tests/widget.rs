use uic_tui::widget::{attr, detect_kind, to_ascii_lower};

fn attrs(pairs: &[(&str, &str)]) -> Vec<(String, String)> {
    pairs.iter().map(|(name, value)| (name.to_string(), value.to_string())).collect()
}

/// The detection table's answer for a tag and lowercased type, as the
/// shared table serves it for the elements these tests mount.
fn detected(pairs: &[(&str, &str)], native: Option<&str>) -> Option<(String, (bool, bool))> {
    detect_kind(&attrs(pairs), native)
}

#[test]
fn plain_form_elements_resolve_by_element_type() {
    assert_eq!(detected(&[], Some("text-input")), Some(("text-input".into(), (false, false))));
    assert_eq!(
        detected(&[("type", "text")], Some("text-input")),
        Some(("text-input".into(), (false, false)))
    );
    assert_eq!(
        detected(&[("type", "EMAIL")], Some("text-input")),
        Some(("text-input".into(), (false, false)))
    );
    assert_eq!(
        detected(&[("type", "number")], Some("number-input")),
        Some(("number-input".into(), (false, false)))
    );
    assert_eq!(detected(&[], Some("text-area")), Some(("text-area".into(), (false, false))));
    assert_eq!(detected(&[], Some("select")), Some(("select".into(), (false, false))));
}

#[test]
fn date_variants_follow_the_type() {
    assert_eq!(
        detected(&[("type", "date")], Some("date-input")),
        Some(("date-input".into(), (true, true)))
    );
    assert_eq!(
        detected(&[("type", "datetime-local")], Some("date-input")),
        Some(("date-input".into(), (false, true)))
    );
    // The type implies the mask; the attrs only steer explicit data-tui.
    assert_eq!(
        detected(&[("type", "date"), ("hide-seconds", "")], Some("date-input")),
        Some(("date-input".into(), (true, true)))
    );
    assert_eq!(
        detected(&[("type", "DATE")], Some("date-input")),
        Some(("date-input".into(), (true, true)))
    );
}

#[test]
fn controls_and_presentation_twins_stay_plain() {
    assert_eq!(detected(&[("type", "checkbox")], None), None);
    assert_eq!(detected(&[("type", "submit")], None), None);
    assert_eq!(detected(&[("tabindex", "-1")], Some("text-input")), None);
    assert_eq!(detected(&[("tabindex", "-1")], Some("select")), None);
    assert_eq!(detected(&[], None), None);
}

#[test]
fn data_tui_overrides_everything() {
    assert_eq!(
        detected(&[("data-tui", "text-input")], None),
        Some(("text-input".into(), (false, false)))
    );
    assert_eq!(
        detected(&[("data-tui", "text-input"), ("tabindex", "-1")], Some("text-input")),
        Some(("text-input".into(), (false, false)))
    );
    assert_eq!(
        detected(&[("data-tui", "date-input"), ("hide-time", "")], Some("date-input")),
        Some(("date-input".into(), (true, false)))
    );
}

#[test]
fn a_positive_tabindex_keeps_detection() {
    assert_eq!(
        detected(&[("tabindex", " 2")], Some("text-input")),
        Some(("text-input".into(), (false, false)))
    );
    assert_eq!(detected(&[("tabindex", "\t-3")], Some("text-input")), None);
}

#[test]
fn attributes_and_lowercasing() {
    let list = attrs(&[("a", "1"), ("b", "2"), ("a", "3")]);
    assert_eq!(attr(&list, "a").map(String::as_str), Some("1"));
    assert_eq!(attr(&list, "c"), None);
    assert_eq!(to_ascii_lower("MiXeD-\u{c9}"), "mixed-\u{c9}");
}

use uic_tui::strings::parse_u16;
use uic_tui::widget::{max_lines, textarea_height};

#[test]
fn a_textarea_grows_with_its_lines_up_to_the_cap() {
    assert_eq!(textarea_height(0, 10), 1);
    assert_eq!(textarea_height(1, 10), 1);
    assert_eq!(textarea_height(2, 10), 1);
    assert_eq!(textarea_height(5, 10), 4);
    assert_eq!(textarea_height(50, 10), 10);
    assert_eq!(textarea_height(5, 0), 1);
    // The editor's count is taken in 16 bits.
    assert_eq!(textarea_height(65536 + 3, 10), 2);
}

#[test]
fn the_line_cap_reads_a_positive_numeral() {
    assert_eq!(max_lines(None), 10);
    assert_eq!(max_lines(Some("4")), 4);
    assert_eq!(max_lines(Some("0")), 10);
    assert_eq!(max_lines(Some("x")), 10);
    assert_eq!(max_lines(Some("70000")), 10);
    assert_eq!(parse_u16(&"65535".chars().collect()), Some(65535));
    assert_eq!(parse_u16(&"+12".chars().collect()), Some(12));
}

use uic_tui::widget::{closed_label, select_width, OptionRow};

fn row(value: &str, short: Option<&str>, label: Option<&str>) -> OptionRow {
    OptionRow {
        value: value.to_string(),
        short: short.map(str::to_string),
        label: label.map(str::to_string),
    }
}

#[test]
fn the_closed_select_shows_the_compact_label() {
    let options = vec![
        row("de", Some("DE"), Some("Germany")),
        row("fr", None, Some("France")),
        row("it", None, None),
        row("de", Some("second"), None),
    ];
    assert_eq!(closed_label(&options, "de"), "DE");
    assert_eq!(closed_label(&options, "fr"), "France");
    assert_eq!(closed_label(&options, "it"), "it");
    assert_eq!(closed_label(&options, "es"), "");
    let blank = vec![row("nl", Some(""), Some("Netherlands")), row("be", Some(""), Some(""))];
    assert_eq!(closed_label(&blank, "nl"), "Netherlands");
    assert_eq!(closed_label(&blank, "be"), "be");
    assert_eq!(select_width("France"), 9);
    assert_eq!(select_width("\u{65e5}\u{672c}"), 7);
}
