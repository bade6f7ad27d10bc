use pastel::cli::parser::{
    color_by_name, dec_to_i32, dec_to_u8, hex_to_u8_unsafe, parse_color, ColorSyntax,
};
use pastel::named::named_color_exact;
use pastel::{Format, Rgb};

fn rgb(r: u8, g: u8, b: u8) -> Option<Rgb> {
    Some(Rgb { r, g, b })
}

fn as_rgb(s: &str) -> Option<Rgb> {
    match parse_color(s) {
        Some(ColorSyntax::Rgb(c)) => Some(c),
        _ => None,
    }
}

fn refused(s: &str) -> bool {
    parse_color(s).is_none()
}

fn as_hsl(s: &str) -> Option<(i32, i32, i32)> {
    match parse_color(s) {
        Some(ColorSyntax::Hsl(h, sat, l)) => Some((h, sat, l)),
        _ => None,
    }
}

fn as_gray(s: &str) -> Option<String> {
    match parse_color(s) {
        Some(ColorSyntax::Gray(g)) => Some(g),
        _ => None,
    }
}

#[test]
fn parse_hex_rrggbb() {
    assert_eq!(rgb(255, 0, 119), as_rgb("#ff0077"));
    assert_eq!(rgb(255, 0, 119), as_rgb("#FF0077"));
    assert_eq!(rgb(255, 0, 119), as_rgb("ff0077"));
    assert_eq!(rgb(87, 166, 206), as_rgb("57A6CE"));
    assert_eq!(rgb(255, 0, 119), as_rgb("  #ff0077  "));

    assert!(refused("#1"));
    assert!(refused("#12345"));
    assert!(refused("#1234567"));
    assert!(refused("#hh0033"));
}

#[test]
fn parse_hex_rgb() {
    assert_eq!(rgb(255, 0, 119), as_rgb("#f07"));
    assert_eq!(rgb(255, 0, 119), as_rgb("#F07"));
    assert_eq!(rgb(255, 0, 119), as_rgb("f07"));

    assert!(refused("#h03"));
}

#[test]
fn parse_rgb() {
    assert_eq!(rgb(255, 0, 119), as_rgb("rgb(255,0,119)"));
    assert_eq!(rgb(255, 8, 119), as_rgb("  rgb( 255  ,  8  ,  119 )  "));
    assert_eq!(rgb(255, 0, 119), as_rgb("255,0,119"));
    assert_eq!(rgb(255, 0, 119), as_rgb("  255  ,  0  ,  119  "));
    assert_eq!(rgb(1, 2, 3), as_rgb("1,2,3"));

    assert!(refused("rgb(256,0,0)"));
    assert!(refused("rgb(255,0)"));
    assert!(refused("rgb(255,0,0"));
    assert!(refused("rgb (256,0,0)"));
}

#[test]
fn parse_hsl() {
    assert_eq!(Some((280, 20, 50)), as_hsl("hsl(280,20%,50%)"));
    assert_eq!(Some((280, 20, 50)), as_hsl("hsl(  280 , 20% , 50%)"));

    assert!(refused("hsl(280,20%,50)"));
    assert!(refused("hsl(280,20,50%)"));
    assert!(refused("hsl(280%,20%,50%)"));
    assert!(refused("hsl(280,20%)"));
}

#[test]
fn parse_gray() {
    assert_eq!(Some("0.2".to_string()), as_gray("gray(0.2)"));
    assert_eq!(Some("0.0".to_string()), as_gray("gray(0.0)"));
    assert_eq!(Some("0".to_string()), as_gray("gray(0)"));
    assert_eq!(Some("1.0".to_string()), as_gray("gray(1.0)"));
    assert_eq!(Some("1".to_string()), as_gray("gray(1)"));
    assert_eq!(Some("7.3".to_string()), as_gray("gray(7.3)"));

    assert_eq!(Some(".32".to_string()), as_gray("gray(.32)"));

    assert_eq!(Some("0.41".to_string()), as_gray("  gray(  0.41   ) "));

    assert!(refused("gray(1.)"));
    assert!(refused("gray(-1)"));
}

#[test]
fn parse_gray_ignores_trailing_text() {
    assert_eq!(Some("0.5".to_string()), as_gray("gray(0.5) and more"));
}

#[test]
fn parse_name_is_trimmed() {
    match parse_color("  DeepPink \t") {
        Some(ColorSyntax::Named(c)) => assert_eq!(Rgb { r: 255, g: 20, b: 147 }, c),
        _ => panic!("expected a named color"),
    }
    assert!(refused("red blue"));
}

#[test]
fn parse_rgb_channel_limits() {
    assert_eq!(rgb(0, 0, 0), as_rgb("rgb(000,0,0)"));
    assert!(refused("rgb(1000,0,0)"));
    assert!(refused("1,2,256"));
    assert!(refused("rgb(1,2,3)x"));
}

#[test]
fn decimal_helpers() {
    assert_eq!(Some(5), dec_to_u8("5"));
    assert_eq!(Some(5), dec_to_u8("+5"));
    assert_eq!(Some(255), dec_to_u8("00255"));
    assert_eq!(None, dec_to_u8("256"));
    assert_eq!(None, dec_to_u8("-1"));
    assert_eq!(None, dec_to_u8(""));
    assert_eq!(None, dec_to_u8("+"));
    assert_eq!(None, dec_to_u8("1a"));

    assert_eq!(Some(-2147483648), dec_to_i32("-2147483648"));
    assert_eq!(None, dec_to_i32("-2147483649"));
    assert_eq!(Some(2147483647), dec_to_i32("2147483647"));
    assert_eq!(None, dec_to_i32("2147483648"));
    assert_eq!(Some(42), dec_to_i32("+42"));
    assert_eq!(None, dec_to_i32("-"));
    assert_eq!(None, dec_to_i32("4 2"));
}

#[test]
fn hex_helper() {
    assert_eq!(255, hex_to_u8_unsafe("ff"));
    assert_eq!(10, hex_to_u8_unsafe("A"));
    assert_eq!(0x7f, hex_to_u8_unsafe("+7f"));
}

#[test]
fn formatted_colors_parse_back() {
    for &(r, g, b) in &[(0u8, 0u8, 0u8), (255, 127, 4), (9, 10, 99), (100, 200, 255)] {
        let c = Rgb { r, g, b };
        assert_eq!(Some(c), as_rgb(&c.to_rgb_hex_string(true)));
        assert_eq!(Some(c), as_rgb(&c.to_rgb_hex_string(false)));
        assert_eq!(Some(c), as_rgb(&c.to_rgb_string(Format::Spaces)));
        assert_eq!(Some(c), as_rgb(&c.to_rgb_string(Format::NoSpaces)));
    }
}

/// A color argument given by its channels or by its name.
fn color_or_name(s: &str) -> Option<Rgb> {
    match parse_color(s) {
        Some(ColorSyntax::Rgb(c)) => Some(c),
        Some(ColorSyntax::Named(c)) => Some(c),
        _ => None,
    }
}

#[test]
fn parse_predefined_name() {
    assert_eq!(rgb(0, 0, 0), color_or_name("black"));
    assert_eq!(rgb(0, 0, 255), color_or_name("blue"));
    assert_eq!(rgb(0, 0, 255), color_or_name("Blue"));
    assert_eq!(rgb(0, 0, 255), color_or_name("BLUE"));
    assert_eq!(rgb(255, 20, 147), color_or_name("deeppink"));
    assert_eq!(None, color_or_name("whatever"));
    assert_eq!(None, color_or_name("red blue"));
}

#[test]
fn names_are_lowercased_before_lookup() {
    let blue = Some(Rgb { r: 0, g: 0, b: 255 });
    assert_eq!(blue, named_color_exact("blue"));
    assert_eq!(None, named_color_exact("Blue"));
    assert_eq!(blue, color_by_name("BLUE"));
    assert_eq!(blue, color_by_name("bLuE"));
    // the Kelvin sign lowercases to the letter k
    assert_eq!(rgb(240, 230, 140), color_by_name("\u{212A}haki"));
    assert_eq!(None, color_by_name("blue "));
    assert_eq!(None, color_by_name(""));
}
