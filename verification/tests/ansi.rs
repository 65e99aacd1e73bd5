use uic_tui::ansi::{
    clear_region, hide_cursor_code, show_cursor_code, write_color, write_cursor_move, write_sgr, Cell,
    ClearType, Color, Output, XtermScreen, BOLD, DIM, REVERSED,
};

fn empty_cell() -> Cell {
    Cell { symbol: " ".to_string(), fg: Color::Reset, bg: Color::Reset, modifier: 0 }
}

fn sgr(cell: &Cell) -> String {
    let mut out = String::new();
    write_sgr(&mut out, cell);
    out
}

fn cell(symbol: &str, fg: Color) -> Cell {
    Cell { symbol: symbol.to_string(), fg, bg: Color::Reset, modifier: 0 }
}

#[test]
fn sgr_resets_then_sets_modifiers_and_colors() {
    let mut cell = empty_cell();
    cell.fg = Color::Red;
    cell.modifier = BOLD;
    assert_eq!(sgr(&cell), "\x1b[0;1;31m");

    cell.fg = Color::Reset;
    cell.bg = Color::Rgb(1, 2, 3);
    cell.modifier = DIM | REVERSED;
    assert_eq!(sgr(&cell), "\x1b[0;2;7;48;2;1;2;3m");

    cell.bg = Color::Indexed(105);
    cell.modifier = 0;
    assert_eq!(sgr(&cell), "\x1b[0;48;5;105m");
}

#[test]
fn bright_colors_use_the_high_palette() {
    let mut out = String::new();
    write_color(&mut out, Color::DarkGray, true);
    assert_eq!(out, ";90");
    let mut out = String::new();
    write_color(&mut out, Color::White, false);
    assert_eq!(out, ";107");
    let mut out = String::new();
    write_color(&mut out, Color::Reset, false);
    assert_eq!(out, "");
}

#[test]
fn the_cursor_moves_one_based() {
    let mut out = String::new();
    write_cursor_move(&mut out, 0, 0);
    assert_eq!(out, "\x1b[1;1H");
    let mut out = String::from("x");
    write_cursor_move(&mut out, 9, 41);
    assert_eq!(out, "x\x1b[42;10H");
}

#[test]
fn a_draw_streams_adjacent_cells_once_and_records_them() {
    let mut screen = XtermScreen::new(5, 2);
    let out = screen.draw(&vec![
        (1, 0, cell("a", Color::Red)),
        (2, 0, cell("b", Color::Red)),
        (0, 1, cell("c", Color::Reset)),
    ]);
    assert_eq!(out, "\x1b[1;2H\x1b[0;31mab\x1b[2;1H\x1b[0mc\x1b[0m");
    assert_eq!(screen.screen_text(), " ab\nc");
}

#[test]
fn cells_outside_the_grid_stream_but_are_not_recorded() {
    let mut screen = XtermScreen::new(2, 1);
    let out = screen.draw(&vec![(7, 3, cell("z", Color::Reset))]);
    assert_eq!(out, "\x1b[4;8H\x1b[0mz\x1b[0m");
    assert_eq!(screen.screen_text(), "");
    assert_eq!(screen.screen.len(), 1);
    assert_eq!(screen.screen[0].len(), 2);
}

#[test]
fn the_last_write_to_a_cell_wins() {
    let mut screen = XtermScreen::new(3, 1);
    screen.draw(&vec![(0, 0, cell("x", Color::Reset)), (0, 0, cell("y", Color::Reset))]);
    assert_eq!(screen.screen_text(), "y");
}

#[test]
fn clearing_blanks_the_grid_and_keeps_its_shape() {
    let mut screen = XtermScreen::new(3, 2);
    screen.draw(&vec![(0, 0, cell("q", Color::Reset)), (2, 1, cell("r", Color::Reset))]);
    assert_eq!(screen.screen_text(), "q\n  r");
    assert_eq!(screen.clear(), "\x1b[2J");
    assert_eq!(screen.screen_text(), "\n");
    assert_eq!(screen.screen.len(), 2);
    assert!(screen.screen.iter().all(|row| row.len() == 3));
}

#[test]
fn resizing_resets_to_a_blank_grid_of_at_least_one_cell() {
    let mut screen = XtermScreen::new(3, 2);
    screen.draw(&vec![(0, 0, cell("q", Color::Reset))]);
    screen.resize(0, 4);
    assert_eq!(screen.cols, 1);
    assert_eq!(screen.rows, 4);
    assert_eq!(screen.screen_text(), "\n\n\n");
}

#[test]
fn the_cursor_position_is_recorded_and_streamed() {
    let mut screen = XtermScreen::new(3, 2);
    assert_eq!(screen.set_cursor_position(2, 1), "\x1b[2;3H");
    assert_eq!((screen.cursor_x, screen.cursor_y), (2, 1));
}

#[test]
fn region_clears_and_cursor_visibility_speak_xterm() {
    assert_eq!(clear_region(ClearType::All), "\x1b[2J");
    assert_eq!(clear_region(ClearType::AfterCursor), "\x1b[J");
    assert_eq!(clear_region(ClearType::BeforeCursor), "\x1b[1J");
    assert_eq!(clear_region(ClearType::CurrentLine), "\x1b[2K");
    assert_eq!(clear_region(ClearType::UntilNewLine), "\x1b[K");
    assert_eq!(hide_cursor_code(), "\x1b[?25l");
    assert_eq!(show_cursor_code(), "\x1b[?25h");
}

#[test]
fn output_hands_over_everything_pushed_once() {
    let mut output = Output::new();
    output.push("\x1b[2J");
    output.push("abc");
    assert_eq!(output.take(), "\x1b[2Jabc");
    assert_eq!(output.take(), "");
}
