use pastel::parser::{parse_color, ColorSpec, Quantity, Unit};
use pastel::Rgb;

type Spec = ColorSpec<String>;

fn q(n: &str, unit: Unit) -> Quantity<String> {
    Quantity { number: n.to_string(), unit }
}

fn plain(n: &str) -> Quantity<String> {
    q(n, Unit::Plain)
}

fn pct(n: &str) -> Quantity<String> {
    q(n, Unit::Percent)
}

fn hex(red: u8, green: u8, blue: u8) -> Option<Spec> {
    Some(ColorSpec::Hex { red, green, blue, opacity: None })
}

fn value(q: &Quantity<String>) -> f64 {
    let v: f64 = q.number.parse().unwrap();
    match q.unit {
        Unit::Percent => v / 100.0,
        Unit::Plain | Unit::Degrees => v,
        Unit::Radians => v * 180.0 / std::f64::consts::PI,
        Unit::Gradians => v * 360.0 / 400.0,
        Unit::Turns => v * 360.0,
    }
}

fn byte(v: f64) -> u8 {
    (255.0 * v.max(0.0).min(1.0)).round() as u8
}

/// The 8-bit channels of a hexadecimal or `rgb` notation.
fn rgb_bytes(input: &str) -> Option<(u8, u8, u8)> {
    match parse_color(input)? {
        ColorSpec::Hex { red, green, blue, .. } => Some((red, green, blue)),
        ColorSpec::Rgb { r, g, b, .. } => {
            let scale = |q: &Quantity<String>| match q.unit {
                Unit::Percent => value(q),
                _ => value(q) / 255.0,
            };
            Some((byte(scale(&r)), byte(scale(&g)), byte(scale(&b))))
        }
        _ => None,
    }
}

fn alpha_value(a: &Option<Quantity<String>>) -> f64 {
    a.as_ref().map(value).unwrap_or(1.0)
}

/// Hue, saturation, lightness (or value) and alpha of an `hsl` or `hsv` notation.
fn hue_args(input: &str, hsv: bool) -> Option<(f64, f64, f64, f64)> {
    match (parse_color(input)?, hsv) {
        (ColorSpec::Hsl { h, s, l, alpha }, false) => {
            Some((value(&h), value(&s), value(&l), alpha_value(&alpha)))
        }
        (ColorSpec::Hsv { h, s, v, alpha }, true) => {
            Some((value(&h), value(&s), value(&v), alpha_value(&alpha)))
        }
        _ => None,
    }
}

fn close(a: (f64, f64, f64, f64), b: (f64, f64, f64, f64)) -> bool {
    (a.0 - b.0).abs() < 0.06 && (a.1 - b.1).abs() < 1e-9 && (a.2 - b.2).abs() < 1e-9
        && (a.3 - b.3).abs() < 1e-9
}

fn assert_hue(input: &str, hsv: bool, expected: (f64, f64, f64)) {
    let got = hue_args(input, hsv).unwrap();
    assert!(close(got, (expected.0, expected.1, expected.2, 1.0)), "{}: {:?}", input, got);
}

/// The gray level of a `gray` notation; a negative level is refused.
fn gray_level(input: &str) -> Option<f64> {
    match parse_color(input)? {
        ColorSpec::Gray { l } => {
            let v = value(&l);
            if v >= 0.0 {
                Some(v.min(1.0))
            } else {
                None
            }
        }
        _ => None,
    }
}

/// Lightness and the other two coordinates, with alpha, of a Lab, OkLab or LCh notation.
fn lab_args(input: &str) -> Option<(&'static str, f64, f64, f64, f64)> {
    match parse_color(input)? {
        ColorSpec::Lab { l, a, b, alpha } => {
            Some(("lab", value(&l), value(&a), value(&b), alpha_value(&alpha)))
        }
        ColorSpec::Oklab { l, a, b, alpha } => {
            Some(("oklab", value(&l), value(&a), value(&b), alpha_value(&alpha)))
        }
        ColorSpec::Lch { l, c, h, alpha } => {
            Some(("lch", value(&l), value(&c), value(&h), alpha_value(&alpha)))
        }
        _ => None,
    }
}

#[test]
fn parse_rgb_hex_syntax() {
    assert_eq!(hex(255, 0, 153), parse_color("f09"));
    assert_eq!(hex(255, 0, 153), parse_color("#f09"));
    assert_eq!(hex(255, 0, 153), parse_color("#F09"));

    assert_eq!(hex(255, 0, 153), parse_color("#ff0099"));
    assert_eq!(hex(255, 0, 153), parse_color("#FF0099"));
    assert_eq!(hex(255, 0, 153), parse_color("ff0099"));

    assert_eq!(hex(87, 166, 206), parse_color("57A6CE"));
    assert_eq!(hex(255, 0, 119), parse_color("  #ff0077  "));

    assert_eq!(None, parse_color("#1"));
    assert_eq!(None, parse_color("#12"));
    assert_eq!(None, parse_color("#12345"));
    assert_eq!(None, parse_color("#1234567"));
    assert_eq!(None, parse_color("#hh0033"));
    assert_eq!(None, parse_color("#h03"));
}

#[test]
fn parse_rgb_functional_syntax() {
    assert_eq!(Some((255, 0, 153)), rgb_bytes("rgb(255,0,153)"));
    assert_eq!(Some((255, 0, 153)), rgb_bytes("rgb(255, 0, 153)"));
    assert_eq!(Some((255, 0, 153)), rgb_bytes("rgb( 255 , 0 , 153 )"));
    assert_eq!(Some((255, 0, 153)), rgb_bytes("rgb(255, 0, 153.0)"));
    assert_eq!(Some((255, 0, 153)), rgb_bytes("rgb(255 0 153)"));

    assert_eq!(Some((255, 8, 119)), rgb_bytes("  rgb( 255  ,  8  ,  119 )  "));

    assert_eq!(Some((255, 0, 127)), rgb_bytes("rgb(100%,0%,49.8%)"));
    assert_eq!(Some((255, 0, 153)), rgb_bytes("rgb(100%,0%,60%)"));
    assert_eq!(Some((255, 0, 119)), rgb_bytes("rgb(100%,0%,46.7%)"));
    assert_eq!(Some((3, 54, 119)), rgb_bytes("rgb(1%,21.2%,46.7%)"));
    assert_eq!(Some((255, 0, 119)), rgb_bytes("rgb(255 0 119)"));
    assert_eq!(Some((255, 0, 119)), rgb_bytes("rgb(    255      0      119)"));

    assert_eq!(Some((255, 0, 153)), rgb_bytes("rgb(100%,0%,60%)"));
    assert_eq!(Some((255, 0, 153)), rgb_bytes("rgb(100%, 0%, 60%)"));
    assert_eq!(Some((255, 0, 153)), rgb_bytes("rgb( 100% , 0% , 60% )"));
    assert_eq!(Some((255, 0, 153)), rgb_bytes("rgb(100% 0% 60%)"));

    assert_eq!(Some((100, 5, 1)), rgb_bytes("rgb(1e2, .5e1, .5e0)"));
    assert_eq!(Some((140, 0, 153)), rgb_bytes("rgb(55% 0% 60%)"));
    assert_eq!(Some((142, 0, 153)), rgb_bytes("rgb(55.5% 0% 60%)"));
    assert_eq!(Some((255, 0, 0)), rgb_bytes("rgb(256,0,0)"));
    assert_eq!(Some((255, 255, 0)), rgb_bytes("rgb(100%,100%,-45%)"));

    assert_eq!(None, parse_color("rgb(255,0)"));
    assert_eq!(None, parse_color("rgb(255,0,0"));
    assert_eq!(None, parse_color("rgb (256,0,0)"));
    assert_eq!(None, parse_color("rgb(100%,0,0)"));
    assert_eq!(None, parse_color("rgb(2550119)"));
}

#[test]
fn parse_rgb_standalone_syntax() {
    assert_eq!(Some((255, 8, 119)), rgb_bytes("  rgb( 255  ,  8  ,  119 )  "));

    assert_eq!(Some((255, 0, 153)), rgb_bytes("255,0,153"));
    assert_eq!(Some((255, 0, 153)), rgb_bytes("255, 0, 153"));
    assert_eq!(Some((255, 0, 153)), rgb_bytes("  255  ,  0  ,  153   "));
    assert_eq!(Some((255, 0, 153)), rgb_bytes("255 0 153"));
    assert_eq!(Some((255, 0, 153)), rgb_bytes("255 0 153.0"));

    assert_eq!(Some((1, 2, 3)), rgb_bytes("1,2,3"));
}

fn check_hue_syntax(name: &str, hsv: bool) {
    let f = |args: &str| format!("{}({})", name, args);
    assert_hue(&f("280,20%,50%"), hsv, (280.0, 0.2, 0.5));
    assert_hue(&f("280deg,20%,50%"), hsv, (280.0, 0.2, 0.5));
    assert_hue(&f("280°,20%,50%"), hsv, (280.0, 0.2, 0.5));
    assert_hue(&f("280.33001,12.3%,45.6%"), hsv, (280.33, 0.123, 0.456));
    assert_hue(&f("  280 , 20% , 50%"), hsv, (280.0, 0.2, 0.5));
    assert_hue(&f("270 60% 70%"), hsv, (270.0, 0.6, 0.7));

    assert_hue(&f("-140°,20%,50%"), hsv, (-140.0, 0.2, 0.5));

    assert_hue(&f("100grad,20%,50%"), hsv, (90.0, 0.2, 0.5));
    assert_hue(&f("1.5708rad,20%,50%"), hsv, (90.05, 0.2, 0.5));
    assert_hue(&f("0.25turn,20%,50%"), hsv, (90.0, 0.2, 0.5));
    assert_hue(&f("50grad,20%,50%"), hsv, (45.0, 0.2, 0.5));
    assert_hue(&f("0.7854rad,20%,50%"), hsv, (45.0, 0.2, 0.5));
    assert_hue(&f("0.125turn,20%,50%"), hsv, (45.0, 0.2, 0.5));

    assert_eq!(None, parse_color(&f("280,20%,50")));
    assert_eq!(None, parse_color(&f("280,20,50%")));
    assert_eq!(None, parse_color(&f("280%,20%,50%")));
    assert_eq!(None, parse_color(&f("280,20%")));
}

#[test]
fn parse_hsl_syntax() {
    check_hue_syntax("hsl", false);
    assert_eq!(
        parse_color("hsl(280deg,20%,50%)"),
        Some(ColorSpec::Hsl {
            h: q("280", Unit::Degrees),
            s: pct("20"),
            l: pct("50"),
            alpha: None
        })
    );
}

#[test]
fn parse_hsv_syntax() {
    check_hue_syntax("hsv", true);
    assert_eq!(
        parse_color("hsv(0.25turn 60% 70%)"),
        Some(ColorSpec::Hsv {
            h: q("0.25", Unit::Turns),
            s: pct("60"),
            v: pct("70"),
            alpha: None
        })
    );
}

#[test]
fn parse_gray_syntax() {
    assert_eq!(Some(0.2), gray_level("gray(0.2)"));
    assert_eq!(Some(0.0), gray_level("gray(0.0)"));
    assert_eq!(Some(0.0), gray_level("gray(0)"));
    assert_eq!(Some(1.0), gray_level("gray(1.0)"));
    assert_eq!(Some(1.0), gray_level("gray(1)"));
    assert_eq!(Some(1.0), gray_level("gray(7.3)"));

    assert_eq!(Some(0.32), gray_level("gray(.32)"));

    assert_eq!(Some(0.41), gray_level("  gray(  0.41   ) "));

    assert_eq!(Some(0.2), gray_level("gray(20%)"));
    assert_eq!(Some(0.0), gray_level("gray(0%)"));
    assert_eq!(Some(0.0), gray_level("gray(0.0%)"));
    assert_eq!(Some(1.0), gray_level("gray(100%)"));
    assert_eq!(Some(0.5), gray_level("gray(50%)"));

    assert_eq!(None, gray_level("gray(-1)"));
    assert_eq!(None, gray_level("gray(-1%)"));
    assert_eq!(None, gray_level("gray(-4.%)"));
}

#[test]
fn parse_lab_syntax() {
    assert_eq!(Some(("lab", 12.43, -35.5, 43.4, 1.0)), lab_args("Lab(12.43,-35.5,43.4)"));
    assert_eq!(Some(("lab", 15.0, -23.0, 43.0, 0.5)), lab_args("lab(15,-23,43,0.5)"));
    assert_eq!(Some(("lab", 15.0, 23.0, -43.0, 1.0)), lab_args("CIELab(15,23,-43)"));
    assert_eq!(Some(("lab", 15.0, 35.5, -43.4, 1.0)), lab_args("CIELab(15,35.5,-43.4)"));
    assert_eq!(Some(("lab", 15.0, -35.5, -43.4, 0.4)), lab_args("cieLab(15,-35.5,-43.4,0.4)"));
    assert_eq!(Some(("lab", 15.0, 23.0, -43.0, 1.0)), lab_args("Lab(        15,  23,-43   )"));
    assert_eq!(Some(("lab", 15.0, -35.5, -43.4, 0.4)), lab_args("CieLab(15,-35.5,-43.4,0.4)"));
    assert_eq!(Some(("lab", 15.0, 23.0, -43.0, 1.0)), lab_args("CIELab(        15,  23,-43   )"));
}

#[test]
fn parse_oklab_syntax() {
    assert_eq!(Some(("oklab", 12.43, -35.5, 43.4, 1.0)), lab_args("okLab(12.43,-35.5,43.4)"));
    assert_eq!(Some(("oklab", 15.0, -23.0, 43.0, 0.5)), lab_args("OKlab(15,-23,43,0.5)"));
    assert_eq!(Some(("oklab", 15.0, 23.0, -43.0, 1.0)), lab_args("OkLab(15,23,-43)"));
    assert_eq!(Some(("oklab", 15.0, 35.5, -43.4, 1.0)), lab_args("oKLab(15,35.5,-43.4)"));
    assert_eq!(Some(("oklab", 15.0, -35.5, -43.4, 0.4)), lab_args("okLab(15,-35.5,-43.4,0.4)"));
    assert_eq!(Some(("oklab", 15.0, 23.0, -43.0, 1.0)), lab_args("OKLab(        15,  23,-43   )"));
    assert_eq!(Some(("oklab", 15.0, -35.5, -43.4, 0.4)), lab_args("OKLab(15,-35.5,-43.4,0.4)"));
    assert_eq!(Some(("oklab", 15.0, 23.0, -43.0, 1.0)), lab_args("OkLab(        15,  23,-43   )"));
}

#[test]
fn parse_lch_syntax() {
    assert_eq!(Some(("lch", 12.43, -35.5, 43.4, 1.0)), lab_args("Lch(12.43,-35.5,43.4)"));
    assert_eq!(Some(("lch", 15.0, -23.0, 43.0, 0.5)), lab_args("lch(15,-23,43,0.5)"));
    assert_eq!(Some(("lch", 15.0, 23.0, -43.0, 1.0)), lab_args("CIELch(15,23,-43)"));
    assert_eq!(Some(("lch", 15.0, 35.5, -43.4, 1.0)), lab_args("CIELch(15,35.5,-43.4)"));
    assert_eq!(Some(("lch", 15.0, -35.5, -43.4, 0.4)), lab_args("cieLch(15,-35.5,-43.4,0.4)"));
    assert_eq!(Some(("lch", 15.0, 23.0, -43.0, 1.0)), lab_args("Lch(        15,  23,-43   )"));
    assert_eq!(Some(("lch", 15.0, -35.5, -43.4, 0.4)), lab_args("CieLch(15,-35.5,-43.4,0.4)"));
    assert_eq!(Some(("lch", 15.0, 23.0, -43.0, 1.0)), lab_args("CIELch(        15,  23,-43   )"));

    assert_eq!(Some(("lch", 15.0, -23.0, 43.0, 1.0)), lab_args("lch(15,-23,43)"));
    assert_eq!(Some(("lch", 15.0, -23.0, 43.0, 1.0)), lab_args("lch(15,-23,43°)"));
    assert_eq!(Some(("lch", 15.0, -23.0, 43.0, 1.0)), lab_args("lch(15,-23,43deg)"));

    assert_eq!(None, parse_color("lch(15%,-23,43)"));
}

#[test]
fn parse_alpha_syntax() {
    // hex
    assert_eq!(
        Some(ColorSpec::Hex { red: 255, green: 0, blue: 0, opacity: Some(255) }),
        parse_color("ff0000ff")
    );
    assert_eq!(
        Some(ColorSpec::Hex { red: 255, green: 0, blue: 0, opacity: Some(255) }),
        parse_color("#ff0000ff")
    );

    // rgb/rgba
    for input in [
        "rgb(10,0,0,1)",
        "rgb(10,0,0, 1)",
        "rgba(10,0,0,1)",
        "rgba(10,0,0, 1)",
        "rgba(10,0,0,1.0)",
        "rgba(10,0,0, 1.0)",
    ] {
        match parse_color(input) {
            Some(ColorSpec::Rgb { alpha, .. }) => assert_eq!(alpha_value(&alpha), 1.0),
            other => panic!("{}: {:?}", input, other),
        }
        assert_eq!(Some((10, 0, 0)), rgb_bytes(input));
    }

    // hsl/hsla
    for input in ["hsl(10,50%,50%,1)", "hsl(10,50%,50%,1.0)", "hsla(10,50%,50%,1)", "hsla(10,50%,50%,1.0)"] {
        assert_eq!(Some((10.0, 0.5, 0.5, 1.0)), hue_args(input, false));
    }

    // lab
    assert_eq!(Some(("lab", 10.0, 30.0, 50.0, 1.0)), lab_args("lab(10,30,50,1)"));
    assert_eq!(Some(("lab", 10.0, 30.0, 50.0, 1.0)), lab_args("lab(10,30,50,1.0)"));

    // alpha parsing
    let alpha_of = |input: &str| match parse_color(input) {
        Some(ColorSpec::Rgb { alpha, .. }) => Some(alpha_value(&alpha)),
        _ => None,
    };
    assert_eq!(Some(0.5), alpha_of("rgba(10,0,0,0.5)"));
    assert_eq!(Some(0.5), alpha_of("rgba(10,0,0,50%)"));
    assert_eq!(Some(0.33), alpha_of("rgba(10,0,0,0.33)"));
    assert_eq!(Some(0.33), alpha_of("rgba(10,0,0,33%)"));

    // hex alpha doesn't line up nicely with decimal precision,
    // so just compare at 3 digit precision
    let hex_alpha = |input: &str| match parse_color(input) {
        Some(ColorSpec::Hex { opacity: Some(a), .. }) => format!("{:.3}", a as f64 / 255.0),
        _ => String::new(),
    };
    assert_eq!("0.502", hex_alpha("0a000080"));
    assert_eq!("0.329", hex_alpha("0a000054"));
}

#[test]
fn numbers_keep_their_text() {
    assert_eq!(
        parse_color("rgb(1e2, .5e1, .5e0)"),
        Some(ColorSpec::Rgb { r: plain("1e2"), g: plain(".5e1"), b: plain(".5e0"), alpha: None })
    );
    assert_eq!(
        parse_color("rgba(10,0,0, 33%)"),
        Some(ColorSpec::Rgb {
            r: plain("10"),
            g: plain("0"),
            b: plain("0"),
            alpha: Some(pct("33"))
        })
    );
    assert_eq!(
        parse_color("lch(15,-23,1.5rad)"),
        Some(ColorSpec::Lch { l: plain("15"), c: plain("-23"), h: q("1.5", Unit::Radians), alpha: None })
    );
}

#[test]
fn exponent_without_digits_ends_the_parse() {
    // `1e` is neither a number nor the start of another notation
    assert_eq!(None, parse_color("rgb(1e,0,0)"));
    assert_eq!(None, parse_color("rgba(10,0,0, 1e)"));
    // a number may end in a dot, and `inf` and `nan` are numbers
    assert_eq!(
        parse_color("5., inf, NaN"),
        Some(ColorSpec::Rgb { r: plain("5."), g: plain("inf"), b: plain("NaN"), alpha: None })
    );
}

#[test]
fn hex_lengths() {
    assert_eq!(Some(ColorSpec::Hex { red: 0x11, green: 0x22, blue: 0x33, opacity: Some(0x44) }), parse_color("#1234"));
    assert_eq!(None, parse_color("#"));
    assert_eq!(None, parse_color(""));
    assert_eq!(None, parse_color("   "));
}

fn named(r: u8, g: u8, b: u8) -> Option<Spec> {
    Some(ColorSpec::Named { color: Rgb { r, g, b } })
}

#[test]
fn parse_named_syntax() {
    assert_eq!(named(0, 0, 0), parse_color("black"));
    assert_eq!(named(0, 0, 255), parse_color("blue"));
    assert_eq!(named(0, 0, 255), parse_color("Blue"));
    assert_eq!(named(0, 0, 255), parse_color("BLUE"));
    assert_eq!(named(255, 20, 147), parse_color("deeppink"));
    assert_eq!(None, parse_color("whatever"));
    assert_eq!(None, parse_color("red blue"));
}

#[test]
fn names_are_whole_words_of_letters() {
    assert_eq!(named(255, 20, 147), parse_color(" DeepPink "));
    assert_eq!(None, parse_color("deep pink"));
    assert_eq!(None, parse_color("pink2"));
    // `add` would be a short hexadecimal color; it is read as one
    assert_eq!(hex(0xaa, 0xdd, 0xdd), parse_color("add"));
}

#[test]
fn readme_color_formats() {
    let expected = Some((119, 136, 153));
    assert_eq!(named(119, 136, 153), parse_color("lightslategray"));
    assert_eq!(expected, rgb_bytes("#778899"));
    assert_eq!(expected, rgb_bytes("778899"));
    assert_eq!(expected, rgb_bytes("789"));
    assert_eq!(expected, rgb_bytes("rgb(119, 136, 153)"));
    assert_eq!(expected, rgb_bytes("119,136,153"));
    assert_hue("hsl(210, 14.3%, 53.3%)", false, (210.0, 0.143, 0.533));
}

#[test]
fn printed_hsl_reads_back() {
    assert_eq!(
        parse_color("hsl(0,100.0%,50.0%)"),
        Some(ColorSpec::Hsl {
            h: q("0", Unit::Degrees),
            s: pct("100.0"),
            l: pct("50.0"),
            alpha: None
        })
    );
    assert_eq!(
        parse_color("hsl(240, 100.0%, 50.0%)"),
        Some(ColorSpec::Hsl {
            h: q("240", Unit::Degrees),
            s: pct("100.0"),
            l: pct("50.0"),
            alpha: None
        })
    );
}

#[test]
fn formatted_colors_read_back() {
    use_formats(Rgb { r: 255, g: 127, b: 4 });
    use_formats(Rgb { r: 0, g: 0, b: 0 });
    use_formats(Rgb { r: 9, g: 99, b: 100 });
}

fn use_formats(c: Rgb) {
    for hash in [true, false] {
        assert_eq!(hex(c.r, c.g, c.b), parse_color(&c.to_rgb_hex_string(hash)));
    }
    for format in [pastel::Format::Spaces, pastel::Format::NoSpaces] {
        assert_eq!(
            parse_color(&c.to_rgb_string(format)),
            Some(ColorSpec::Rgb {
                r: plain(&c.r.to_string()),
                g: plain(&c.g.to_string()),
                b: plain(&c.b.to_string()),
                alpha: None
            })
        );
    }
}
