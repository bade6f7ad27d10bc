use pastel::cli::app::App;
use pastel::cli::show::{color_spectrum, fits_panel, show_color_tty};
use pastel::named::{find_named_color, NamedColor};
use pastel::Rgb;

fn similar() -> Vec<NamedColor> {
    vec![
        NamedColor { name: "red", color: Rgb { r: 255, g: 0, b: 0 } },
        NamedColor { name: "crimson", color: Rgb { r: 220, g: 20, b: 60 } },
        NamedColor { name: "firebrick", color: Rgb { r: 178, g: 34, b: 34 } },
        NamedColor { name: "brown", color: Rgb { r: 165, g: 42, b: 42 } },
    ]
}

#[test]
fn panel_lines() {
    let red = find_named_color("red").unwrap();
    let hsl = "hsl(0, 100.0%, 50.0%)";
    assert!(fits_panel(2, red, hsl, &similar()));
    let canvas = show_color_tty(2, red, (red, red), hsl, &similar());
    let text = canvas.render();
    let lines: Vec<&str> = text.lines().collect();
    assert_eq!(lines.len(), 24);
    assert!(lines[4].ends_with(&format!("Hex: #ff0000{}", " ".repeat(2 * (55 - 30)))));
    assert!(lines[6].contains("RGB: rgb(255, 0, 0)"));
    assert!(lines[8].contains("HSL: hsl(0, 100.0%, 50.0%)"));
    assert!(lines[12].contains("Most similar:"));
    assert!(lines[14].contains("red"));
    assert!(lines[16].contains("crimson"));
    assert!(lines[18].contains("firebrick"));
    assert!(!text.contains("brown"));
    // the swatches and the panel are backgrounds in the colors' channels
    assert!(lines[14].contains("\x1b[48;2;255;0;0m  \x1b[0m"));
    assert!(lines[17].contains("\x1b[48;2;220;20;60m  \x1b[0m"));
    assert!(lines[2].starts_with("    \x1b[48;2;240;240;240m  \x1b[0m\x1b[48;2;180;180;180m  \x1b[0m"));
}

#[test]
fn panel_must_fit() {
    let red = Rgb { r: 255, g: 0, b: 0 };
    assert!(!fits_panel(15, red, "hsl(0, 100.0%, 50.0%)", &similar()));
    assert!(!fits_panel(2, red, &"x".repeat(60), &similar()));
    let long = vec![NamedColor { name: "abcdefghijklmnopqrstuvwxyzabcdefghijklmnopqrstuvwxyz", color: red }];
    assert!(!fits_panel(2, red, "hsl(0, 0.0%, 0.0%)", &long));
    assert!(fits_panel(9, red, "hsl(0, 0.0%, 0.0%)", &Vec::new()));
}

#[test]
fn spectrum_grid() {
    let colors: Vec<Rgb> = (0..4u8).map(|k| Rgb { r: k, g: 10 * k, b: 200 }).collect();
    let canvas = color_spectrum(2, 2, &colors);
    let text = canvas.render();
    let lines: Vec<&str> = text.lines().collect();
    assert_eq!(lines.len(), 6);
    let frame = "\x1b[48;2;100;100;100m  \x1b[0m";
    let cell = |c: &Rgb| format!("\x1b[48;2;{};{};{}m  \x1b[0m", c.r, c.g, c.b);
    assert_eq!(lines[0], "            ");
    assert_eq!(lines[2], format!("    {}{}{}{}", frame, frame, frame, frame));
    assert_eq!(lines[3], format!("    {}{}{}{}", frame, cell(&colors[0]), cell(&colors[1]), frame));
    assert_eq!(lines[4], format!("    {}{}{}{}", frame, cell(&colors[2]), cell(&colors[3]), frame));
    assert_eq!(lines[5], format!("    {}{}{}{}", frame, frame, frame, frame));
}

#[test]
fn app_layout_panels() {
    let app = App::new();
    let colors = vec![Rgb { r: 1, g: 2, b: 3 }; 40 * 40];
    let spectrum = app.show_spectrum(&colors).render();
    assert_eq!(spectrum.lines().count(), 44);
    assert!(spectrum.lines().nth(1).unwrap().chars().all(|c| c == ' '));
    assert_eq!(spectrum.matches("\x1b[48;2;1;2;3m").count(), 1600);
    assert_eq!(spectrum.matches("\x1b[48;2;100;100;100m").count(), 4 * 41);

    let teal = Rgb { r: 0, g: 128, b: 128 };
    let panel = app.show_color_tty(teal, (teal, teal), "hsl(180, 100.0%, 25.1%)", &Vec::new()).render();
    assert_eq!(panel.lines().count(), 24);
    assert!(panel.contains("Hex: #008080"));
    assert!(panel.contains("RGB: rgb(0, 128, 128)"));
    assert!(panel.contains("Most similar:"));
}

#[test]
fn translucent_panel_shows_the_board() {
    // a half-transparent black: darker squares over the board's light ones
    let black = Rgb { r: 0, g: 0, b: 0 };
    let over_dark = Rgb { r: 120, g: 120, b: 120 };
    let over_light = Rgb { r: 90, g: 90, b: 90 };
    let hsl = "hsl(0, 0.0%, 0.0%)";
    let text = show_color_tty(2, black, (over_dark, over_light), hsl, &Vec::new()).render();
    let lines: Vec<&str> = text.lines().collect();
    let cell = |c: &Rgb| format!("\x1b[48;2;{};{};{}m  \x1b[0m", c.r, c.g, c.b);
    let board_dark = Rgb { r: 240, g: 240, b: 240 };
    let board_light = Rgb { r: 180, g: 180, b: 180 };
    // row 5 (padding 2 + 3): board cells at columns 2..5, then the square
    let expected = format!(
        "    {}{}{}{}{}{}",
        cell(&board_light),
        cell(&board_dark),
        cell(&board_light),
        cell(&over_dark),
        cell(&over_light),
        cell(&over_dark)
    );
    assert!(lines[5].starts_with(&expected), "{}", lines[5]);
    assert!(!text.contains("\x1b[48;2;0;0;0m"));
    // an opaque color fills its square
    let red = Rgb { r: 255, g: 0, b: 0 };
    let text = show_color_tty(2, red, (red, red), hsl, &Vec::new()).render();
    assert_eq!(text.matches(&cell(&red)).count(), 14 * 14);
}
