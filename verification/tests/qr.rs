use uic_tui::qr::{link, render_qr, text_block_size};

#[test]
fn render_scales_with_the_payload() {
    // A short payload fits a low QR version; a long one needs a bigger
    // grid — the module count (and so the cell width) grows with it.
    let (_, short_width, short_height) = render_qr("hi").expect("a short QR");
    let long = "A".repeat(300);
    let (_, long_width, long_height) = render_qr(&long).expect("a long QR");
    assert!(short_width >= 21, "a QR is at least version 1 (21 modules)");
    assert!(long_width > short_width, "more data widens the grid");
    assert!(long_height > short_height, "more data heightens the grid");
    // Dense1x2 packs two vertical modules per row, so height trails width.
    assert!(short_height <= short_width);
}

#[test]
fn empty_data_renders_nothing() {
    assert!(render_qr("").is_none());
}

#[test]
fn the_reported_size_measures_the_rendered_text() {
    let (text, width, height) = render_qr("somePairingCode").unwrap();
    assert_eq!(height as usize, text.lines().count());
    assert_eq!(
        width as usize,
        text.lines().map(|line| line.chars().count()).max().unwrap()
    );
    // The render is the encoder's, not the payload handed back.
    assert_ne!(text, "somePairingCode");
    link();
}

#[test]
fn an_oversized_payload_is_rejected() {
    assert!(render_qr(&"x".repeat(8000)).is_none());
}

#[test]
fn block_sizes_count_characters_and_lines() {
    assert_eq!(text_block_size(""), (0, 0));
    assert_eq!(text_block_size("ab\ncde\n"), (3, 2));
    assert_eq!(text_block_size("ab\r\nc"), (2, 2));
    assert_eq!(text_block_size("\n\n"), (0, 2));
    assert_eq!(text_block_size("\u{2580}\u{2584}"), (2, 1));
}
