use pastel::ansi::escape_control;
use pastel::text::join_words;
use pastel::ansi::{
    ansi_sequence, closest_ansi_code, cube_to_8bit, Brush, Mode, Style, TerminalColor, ToAnsiStyle,
};
use pastel::Rgb;

fn rgb(r: u8, g: u8, b: u8) -> Rgb {
    Rgb { r, g, b }
}

fn black() -> Rgb {
    rgb(0, 0, 0)
}

fn white() -> Rgb {
    rgb(255, 255, 255)
}

fn red() -> TerminalColor {
    TerminalColor { rgb: rgb(255, 0, 0), ansi_8bit: 9 }
}

fn blue() -> TerminalColor {
    TerminalColor { rgb: rgb(0, 0, 255), ansi_8bit: 12 }
}

#[test]
fn from_ansi_8bit_lower_16() {
    assert_eq!(black(), Rgb::from_ansi_8bit(0));
    assert_eq!(rgb(255, 0, 0), Rgb::from_ansi_8bit(9));
    assert_eq!(white(), Rgb::from_ansi_8bit(15));
}

#[test]
fn from_ansi_8bit_cube() {
    assert_eq!(black(), Rgb::from_ansi_8bit(16));
    assert_eq!(rgb(0, 0, 95), Rgb::from_ansi_8bit(17));
    assert_eq!(rgb(95, 175, 135), Rgb::from_ansi_8bit(72));
    assert_eq!(rgb(255, 215, 95), Rgb::from_ansi_8bit(221));
    assert_eq!(white(), Rgb::from_ansi_8bit(231));
}

#[test]
fn from_ansi_8bit_grays() {
    assert_eq!(rgb(8, 8, 8), Rgb::from_ansi_8bit(232));
    assert_eq!(rgb(108, 108, 108), Rgb::from_ansi_8bit(242));
    assert_eq!(rgb(238, 238, 238), Rgb::from_ansi_8bit(255));
}

#[test]
fn from_ansi_8bit_system_colors() {
    let expected = [
        rgb(0, 0, 0),
        rgb(128, 0, 0),
        rgb(0, 128, 0),
        rgb(128, 128, 0),
        rgb(0, 0, 128),
        rgb(128, 0, 128),
        rgb(0, 128, 128),
        rgb(192, 192, 192),
        rgb(128, 128, 128),
        rgb(255, 0, 0),
        rgb(0, 255, 0),
        rgb(255, 255, 0),
        rgb(0, 0, 255),
        rgb(255, 0, 255),
        rgb(0, 255, 255),
        rgb(255, 255, 255),
    ];
    for (code, c) in expected.iter().enumerate() {
        assert_eq!(*c, Rgb::from_ansi_8bit(code as u8));
    }
}

#[test]
fn from_ansi_8bit_cube_formula() {
    for r in 0..6u8 {
        for g in 0..6u8 {
            for b in 0..6u8 {
                let code = 16 + 36 * r + 6 * g + b;
                assert_eq!(
                    rgb(cube_to_8bit(r), cube_to_8bit(g), cube_to_8bit(b)),
                    Rgb::from_ansi_8bit(code)
                );
            }
        }
    }
}

#[test]
fn cube_levels() {
    let levels: Vec<u8> = (0..6).map(cube_to_8bit).collect();
    assert_eq!(levels, vec![0, 95, 135, 175, 215, 255]);
}

#[test]
fn closest_code_prefers_smallest_key_then_earliest() {
    let mut keys = vec![10i32; 256];
    keys[200] = 3;
    keys[7] = 3;
    keys[100] = 4;
    assert_eq!(7, closest_ansi_code(&keys));

    // the last code takes part too
    keys[255] = -1;
    assert_eq!(255, closest_ansi_code(&keys));

    let zeros = vec![0i32; 256];
    assert_eq!(0, closest_ansi_code(&zeros));
}

#[test]
fn ansi_style() {
    assert_eq!("\x1b[0m", Style::default().escape_sequence(Mode::TrueColor));

    assert_eq!(
        "\x1b[38;2;255;0;0m",
        red().ansi_style().escape_sequence(Mode::TrueColor)
    );

    assert_eq!(
        "\x1b[38;5;9m",
        red().ansi_style().escape_sequence(Mode::Ansi8Bit)
    );

    assert_eq!(
        "\x1b[38;2;255;0;0;48;2;0;0;255;1;3;4m",
        red()
            .ansi_style()
            .on(blue())
            .bold(true)
            .italic(true)
            .underline(true)
            .escape_sequence(Mode::TrueColor)
    );
}

#[test]
fn ansi_style_background_is_always_24_bit() {
    let mut style = Style::default();
    style.on(blue());
    assert_eq!("\x1b[48;2;0;0;255m", style.escape_sequence(Mode::Ansi8Bit));
}

#[test]
fn ansi_sequences_of_a_color() {
    let c = TerminalColor { rgb: rgb(95, 175, 135), ansi_8bit: 72 };
    assert_eq!("\x1b[38;5;72m", ansi_sequence(c, Mode::Ansi8Bit));
    assert_eq!("\x1b[38;2;95;175;135m", ansi_sequence(c, Mode::TrueColor));
}

#[test]
fn brush() {
    let ansi = Brush::from_mode(Mode::TrueColor);

    assert_eq!(
        "\x1b[38;2;255;0;0;1mhello\x1b[0m",
        ansi.paint("hello", red().ansi_style().bold(true))
    );
}

#[test]
fn brush_without_mode_leaves_text_plain() {
    let plain = Brush { mode: None };
    assert_eq!("hello", plain.paint("hello", &red().ansi_style()));
}

#[test]
fn brush_from_terminal() {
    assert_eq!(
        Brush::from_terminal(true, Some("truecolor".to_string())).mode,
        Some(Mode::TrueColor)
    );
    assert_eq!(
        Brush::from_terminal(true, Some("24bit".to_string())).mode,
        Some(Mode::Ansi8Bit)
    );
    assert_eq!(Brush::from_terminal(true, None).mode, Some(Mode::Ansi8Bit));
    assert_eq!(Brush::from_terminal(false, Some("truecolor".to_string())).mode, None);
}

#[test]
fn escape_control_writes_escapes_out() {
    assert_eq!(escape_control("\x1b[38;5;9m"), "\\x1b[38;5;9m");
    assert_eq!(escape_control("plain"), "plain");
    assert_eq!(escape_control(""), "");
    assert_eq!(escape_control("\x1b\x1b"), "\\x1b\\x1b");
}

#[test]
fn join_words_puts_separators_between() {
    let words = vec!["hello".to_string(), "colorful".to_string(), "world".to_string()];
    assert_eq!(join_words(&words, " "), "hello colorful world");
    assert_eq!(join_words(&vec!["one".to_string()], " "), "one");
    assert_eq!(join_words(&Vec::new(), " "), "");
    assert_eq!(join_words(&vec![String::new(), String::new()], ", "), ", ");
}

fn squared_distance_keys(c: Rgb) -> Vec<i32> {
    (0..=255u8)
        .map(|code| {
            let p = Rgb::from_ansi_8bit(code);
            let d = |a: u8, b: u8| (a as i32 - b as i32) * (a as i32 - b as i32);
            d(c.r, p.r) + d(c.g, p.g) + d(c.b, p.b)
        })
        .collect()
}

#[test]
fn closest_code_reaches_the_whole_palette() {
    assert_eq!(255, closest_ansi_code(&squared_distance_keys(Rgb { r: 238, g: 238, b: 238 })));
    // white is both code 15 and code 231; the earlier wins
    assert_eq!(15, closest_ansi_code(&squared_distance_keys(Rgb { r: 255, g: 255, b: 255 })));
    assert_eq!(232, closest_ansi_code(&squared_distance_keys(Rgb { r: 8, g: 8, b: 8 })));
}
