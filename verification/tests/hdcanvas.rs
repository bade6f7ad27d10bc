use pastel::ansi::{Brush, Mode, TerminalColor};
use pastel::cli::commands::colorcheck::ColorCheckCommand;
use pastel::cli::hdcanvas::Canvas;
use pastel::Rgb;

fn tc(r: u8, g: u8, b: u8, code: u8) -> TerminalColor {
    TerminalColor { rgb: Rgb { r, g, b }, ansi_8bit: code }
}

#[test]
fn half_blocks() {
    let red = tc(255, 0, 0, 9);
    let blue = tc(0, 0, 255, 12);
    let mut canvas = Canvas::new(2, 4, Brush { mode: Some(Mode::TrueColor) });
    canvas.draw_rect(0, 0, 2, 1, red);
    canvas.draw_rect(0, 1, 1, 1, red);
    canvas.draw_rect(1, 1, 1, 1, blue);
    canvas.draw_rect(1, 2, 1, 1, blue);
    assert_eq!(
        canvas.render(),
        "\x1b[38;2;255;0;0;48;2;255;0;0m \x1b[0m\
         \x1b[38;2;255;0;0;48;2;0;0;255m▀\x1b[0m\
         \x1b[38;2;0;0;255m▄\x1b[0m \n"
    );
}

#[test]
fn text_covers_pixels() {
    let mut canvas = Canvas::new(4, 3, Brush { mode: None });
    canvas.draw_checkerboard(0, 0, 4, 3, tc(1, 1, 1, 0), tc(2, 2, 2, 0));
    canvas.draw_text(2, 1, "ab");
    // without colors, pixels show as blanks or half blocks
    assert_eq!(canvas.render(), "▀▀▀\n▀ab\n");
}

#[test]
fn colorcheck_board() {
    let panels = (tc(73, 39, 50, 52), tc(16, 51, 30, 22), tc(29, 54, 90, 23));
    let board = ColorCheckCommand::board(2, 8, Mode::Ansi8Bit, panels);
    let text = board.render();
    let lines: Vec<&str> = text.lines().collect();
    assert_eq!(lines.len(), 6);
    assert_eq!(lines[0], " ".repeat(30));
    let cell = |c: &TerminalColor| {
        format!("\x1b[38;5;{};48;2;{};{};{}m \x1b[0m", c.ansi_8bit, c.rgb.r, c.rgb.g, c.rgb.b)
    };
    let expected = format!(
        "  {}  {}  {}",
        cell(&panels.0).repeat(8),
        cell(&panels.1).repeat(8),
        cell(&panels.2).repeat(8)
    );
    assert_eq!(lines[1], expected);
    assert_eq!(lines[4], expected);
    assert_eq!(lines[5], " ".repeat(30));
}
