//! Colors in the terminal: the integer side of a color library and of its
//! command-line tool. A color is shown, formatted and parsed through its
//! 8-bit red, green and blue channels.
pub mod ansi;
pub mod canvas;
pub mod cli;
pub mod distinct;
pub mod named;
pub mod notation_laws;
pub mod parser;
pub mod text;

use vstd::prelude::*;

use text::{decimal, hex2, push_char, push_decimal_u8, push_hex2};

verus! {

/// Whether list-like renderings put a space after each comma.
#[derive(Debug, Clone, Copy, PartialEq, Eq, Structural)]
pub enum Format {
    Spaces,
    NoSpaces,
}

/// A representation of the different kinds of colorblindness.
#[derive(Debug, Clone, Copy, PartialEq, Eq, Structural)]
pub enum ColorblindnessType {
    /// Protanopic people lack red cones
    Protanopia,
    /// Deuteranopic people lack green cones
    Deuteranopia,
    /// Tritanopic people lack blue cones
    Tritanopia,
}

/// The integer red, green and blue channels of a color, each from 0 to 255.
#[derive(Debug, Clone, Copy, PartialEq, Eq, Structural)]
pub struct Rgb {
    pub r: u8,
    pub g: u8,
    pub b: u8,
}

/// The separator that follows a comma in the given format.
pub open spec fn format_space(format: Format) -> Seq<char> {
    match format {
        Format::Spaces => seq![' '],
        Format::NoSpaces => Seq::empty(),
    }
}

/// `rgb(R,{space}G,{space}B)` with decimal channels.
pub open spec fn rgb_string(c: Rgb, format: Format) -> Seq<char> {
    seq!['r', 'g', 'b', '('] + decimal(c.r as nat) + seq![','] + format_space(format)
        + decimal(c.g as nat) + seq![','] + format_space(format) + decimal(c.b as nat) + seq![')']
}

/// `RRGGBB` in lower-case hexadecimal, after an optional `#`.
pub open spec fn rgb_hex_string(c: Rgb, leading_hash: bool) -> Seq<char> {
    (if leading_hash { seq!['#'] } else { Seq::empty() }) + hex2(c.r) + hex2(c.g) + hex2(c.b)
}

/// The integer `0xRRGGBB`.
pub open spec fn rgb_u32(c: Rgb) -> int {
    c.r as int * 65536 + c.g as int * 256 + c.b as int
}

fn push_space(s: &mut String, format: Format)
    ensures
        final(s)@ == old(s)@ + format_space(format),
{
    match format {
        Format::Spaces => push_char(s, ' '),
        Format::NoSpaces => {
            assert(old(s)@ + Seq::<char>::empty() == old(s)@);
        },
    }
}

impl Rgb {
    /// Format the color as a RGB-representation string (`rgb(255, 127, 0)`).
    pub fn to_rgb_string(&self, format: Format) -> (s: String)
        ensures
            s@ == rgb_string(*self, format),
    {
        let mut s = String::new();
        push_char(&mut s, 'r');
        push_char(&mut s, 'g');
        push_char(&mut s, 'b');
        push_char(&mut s, '(');
        push_decimal_u8(&mut s, self.r);
        push_char(&mut s, ',');
        push_space(&mut s, format);
        push_decimal_u8(&mut s, self.g);
        push_char(&mut s, ',');
        push_space(&mut s, format);
        push_decimal_u8(&mut s, self.b);
        push_char(&mut s, ')');
        assert(s@ =~= rgb_string(*self, format));
        s
    }

    /// Format the color as a hexadecimal string (`#fc0070`).
    pub fn to_rgb_hex_string(&self, leading_hash: bool) -> (s: String)
        ensures
            s@ == rgb_hex_string(*self, leading_hash),
    {
        let mut s = String::new();
        if leading_hash {
            push_char(&mut s, '#');
        }
        push_hex2(&mut s, self.r);
        push_hex2(&mut s, self.g);
        push_hex2(&mut s, self.b);
        assert(s@ =~= rgb_hex_string(*self, leading_hash));
        s
    }

    /// Return the color as an integer in RGB representation (`0xRRGGBB`).
    pub fn to_u32(&self) -> (v: u32)
        ensures
            v as int == rgb_u32(*self),
    {
        let r8: u32 = self.r as u32;
        let g8: u32 = self.g as u32;
        let r = r8.wrapping_shl(16);
        let g = g8.wrapping_shl(8);
        assert(r == r8 * 65536) by (bit_vector)
            requires
                r == r8.wrapping_shl(16),
                r8 < 256,
        ;
        assert(g == g8 * 256) by (bit_vector)
            requires
                g == g8.wrapping_shl(8),
                g8 < 256,
        ;
        r + g + self.b as u32
    }
}

/// Two colors have the same `0xRRGGBB` integer only if they are the same
/// color, so removing duplicates by this integer removes exactly the colors
/// with equal channels.
pub proof fn law_u32_identifies_color(c1: Rgb, c2: Rgb)
    ensures
        rgb_u32(c1) == rgb_u32(c2) <==> c1 == c2,
{
    let (r1, g1, b1) = (c1.r as int, c1.g as int, c1.b as int);
    let (r2, g2, b2) = (c2.r as int, c2.g as int, c2.b as int);
    if rgb_u32(c1) == rgb_u32(c2) {
        assert(r1 == r2 && g1 == g2 && b1 == b2) by (nonlinear_arith)
            requires
                r1 * 65536 + g1 * 256 + b1 == r2 * 65536 + g2 * 256 + b2,
                0 <= r1 < 256,
                0 <= g1 < 256,
                0 <= b1 < 256,
                0 <= r2 < 256,
                0 <= g2 < 256,
                0 <= b2 < 256,
        ;
    }
}

} // verus!
