use pastel::{Format, Rgb};

#[test]
fn to_u32() {
    assert_eq!(0, Rgb { r: 0, g: 0, b: 0 }.to_u32());
    assert_eq!(0xff0000, Rgb { r: 255, g: 0, b: 0 }.to_u32());
    assert_eq!(0xffffff, Rgb { r: 255, g: 255, b: 255 }.to_u32());
    assert_eq!(0xf4230f, Rgb { r: 0xf4, g: 0x23, b: 0x0f }.to_u32());
}

#[test]
fn to_rgb_string() {
    let c = Rgb { r: 255, g: 127, b: 4 };
    assert_eq!("rgb(255, 127, 4)", c.to_rgb_string(Format::Spaces));
    assert_eq!("rgb(255,127,4)", c.to_rgb_string(Format::NoSpaces));
}

#[test]
fn to_rgb_hex_string() {
    let c = Rgb { r: 255, g: 127, b: 4 };
    assert_eq!("ff7f04", c.to_rgb_hex_string(false));
    assert_eq!("#ff7f04", c.to_rgb_hex_string(true));
}

#[test]
fn hex_string_pads_small_channels() {
    let c = Rgb { r: 0, g: 10, b: 1 };
    assert_eq!("#000a01", c.to_rgb_hex_string(true));
}

#[test]
fn distinct_colors_have_distinct_integers() {
    let a = Rgb { r: 1, g: 0, b: 0 };
    let b = Rgb { r: 0, g: 255, b: 255 };
    assert_ne!(a.to_u32(), b.to_u32());
    assert_eq!(a.to_u32(), Rgb { r: 1, g: 0, b: 0 }.to_u32());
}
