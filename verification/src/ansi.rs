//! ANSI terminal escape sequences: the 256-color palette, styles and brushes.
use vstd::prelude::*;

use crate::text::{decimal, push_char, push_decimal_u8, push_str};
use crate::Rgb;

verus! {

/// How colors are sent to the terminal.
#[derive(Debug, Clone, Copy, PartialEq, Eq, Structural)]
pub enum Mode {
    Ansi8Bit,
    TrueColor,
}

/// The channel value of one of the six steps of the 6x6x6 color cube.
pub open spec fn cube_level(step: int) -> int {
    if step == 0 { 0 } else { 55 + 40 * step }
}

/// The channel value of one of the six steps of the 6x6x6 color cube.
pub fn cube_to_8bit(code: u8) -> (v: u8)
    requires
        code < 6,
    ensures
        v == cube_level(code as int),
{
    match code {
        0 => 0,
        _ => 55 + 40 * code,
    }
}

/// The sixteen system colors at the start of the palette.
pub open spec fn system_color(code: int) -> Rgb {
    if code == 0 { Rgb { r: 0, g: 0, b: 0 } }
    else if code == 1 { Rgb { r: 128, g: 0, b: 0 } }
    else if code == 2 { Rgb { r: 0, g: 128, b: 0 } }
    else if code == 3 { Rgb { r: 128, g: 128, b: 0 } }
    else if code == 4 { Rgb { r: 0, g: 0, b: 128 } }
    else if code == 5 { Rgb { r: 128, g: 0, b: 128 } }
    else if code == 6 { Rgb { r: 0, g: 128, b: 128 } }
    else if code == 7 { Rgb { r: 192, g: 192, b: 192 } }
    else if code == 8 { Rgb { r: 128, g: 128, b: 128 } }
    else if code == 9 { Rgb { r: 255, g: 0, b: 0 } }
    else if code == 10 { Rgb { r: 0, g: 255, b: 0 } }
    else if code == 11 { Rgb { r: 255, g: 255, b: 0 } }
    else if code == 12 { Rgb { r: 0, g: 0, b: 255 } }
    else if code == 13 { Rgb { r: 255, g: 0, b: 255 } }
    else if code == 14 { Rgb { r: 0, g: 255, b: 255 } }
    else { Rgb { r: 255, g: 255, b: 255 } }
}

/// The color of an entry of the 8-bit palette: sixteen system colors, the
/// 6x6x6 cube addressed by `code = 16 + 36 r + 6 g + b`, then 24 grays.
pub open spec fn ansi_8bit_color(code: u8) -> Rgb {
    if code < 16 {
        system_color(code as int)
    } else if code < 232 {
        let c = code - 16;
        Rgb {
            r: cube_level(c / 36) as u8,
            g: cube_level((c / 6) % 6) as u8,
            b: cube_level(c % 6) as u8,
        }
    } else {
        let v = (10 * (code - 232) + 8) as u8;
        Rgb { r: v, g: v, b: v }
    }
}

/// The common interface of colors that can be shown on an ANSI terminal.
pub trait AnsiColor: Sized {
    fn from_ansi_8bit(code: u8) -> Self;

    fn to_ansi_8bit(&self) -> u8;

    fn to_ansi_sequence(&self, mode: Mode) -> String;
}

impl Rgb {
    /// Create a color from an 8-bit ANSI escape code.
    pub fn from_ansi_8bit(code: u8) -> (c: Rgb)
        ensures
            c == ansi_8bit_color(code),
            16 <= code < 232 ==> exists|r: int, g: int, b: int|
                0 <= r < 6 && 0 <= g < 6 && 0 <= b < 6 && code == 16 + 36 * r + 6 * g + b && c
                    == (Rgb {
                    r: cube_level(r) as u8,
                    g: cube_level(g) as u8,
                    b: cube_level(b) as u8,
                }),
    {
        let c = match code {
            0 => Rgb { r: 0, g: 0, b: 0 },
            1 => Rgb { r: 128, g: 0, b: 0 },
            2 => Rgb { r: 0, g: 128, b: 0 },
            3 => Rgb { r: 128, g: 128, b: 0 },
            4 => Rgb { r: 0, g: 0, b: 128 },
            5 => Rgb { r: 128, g: 0, b: 128 },
            6 => Rgb { r: 0, g: 128, b: 128 },
            7 => Rgb { r: 192, g: 192, b: 192 },
            8 => Rgb { r: 128, g: 128, b: 128 },
            9 => Rgb { r: 255, g: 0, b: 0 },
            10 => Rgb { r: 0, g: 255, b: 0 },
            11 => Rgb { r: 255, g: 255, b: 0 },
            12 => Rgb { r: 0, g: 0, b: 255 },
            13 => Rgb { r: 255, g: 0, b: 255 },
            14 => Rgb { r: 0, g: 255, b: 255 },
            15 => Rgb { r: 255, g: 255, b: 255 },
            16..=231 => {
                // 6 x 6 x 6 cube of 216 colors: code = 16 + 36 × r + 6 × g + b
                let code_rgb = code - 16;
                let blue = code_rgb % 6;

                let code_rg = (code_rgb - blue) / 6;
                let green = code_rg % 6;

                let red = (code_rg - green) / 6;

                Rgb { r: cube_to_8bit(red), g: cube_to_8bit(green), b: cube_to_8bit(blue) }
            },
            232..=255 => {
                // grayscale from (almost) black to (almost) white in 24 steps
                let gray_value = 10 * (code - 232) + 8;
                Rgb { r: gray_value, g: gray_value, b: gray_value }
            },
        };
        proof {
            if 16 <= code < 232 {
                let k = code - 16;
                assert(code == 16 + 36 * (k / 36) + 6 * ((k / 6) % 6) + k % 6);
            }
        }
        c
    }
}

/// Among all 256 palette entries, the one with the smallest key, the
/// earliest on ties. `keys[i]` is the (truncated) perceived distance between
/// a color and palette entry `i`; a stable sort of the codes by their keys
/// puts this code first.
pub fn closest_ansi_code(keys: &Vec<i32>) -> (code: u8)
    requires
        keys.len() >= 256,
    ensures
        forall|i: int| 0 <= i < 256 ==> keys[code as int] <= keys[i],
        forall|i: int| 0 <= i < code ==> keys[code as int] < keys[i],
{
    let mut best: usize = 0;
    let mut i: usize = 1;
    while i < 256
        invariant
            keys.len() >= 256,
            1 <= i <= 256,
            best < i,
            forall|j: int| 0 <= j < i ==> keys[best as int] <= keys[j],
            forall|j: int| 0 <= j < best ==> keys[best as int] < keys[j],
        decreases 256 - i,
    {
        if keys[i] < keys[best] {
            best = i;
        }
        i = i + 1;
    }
    best as u8
}

/// A color as a terminal shows it: its 24-bit channels and the palette entry
/// that approximates it best.
#[derive(Debug, Clone, Copy, PartialEq, Eq, Structural)]
pub struct TerminalColor {
    pub rgb: Rgb,
    pub ansi_8bit: u8,
}

/// The escape codes that select a foreground color.
pub open spec fn foreground_codes(color: TerminalColor, mode: Mode) -> Seq<u8> {
    match mode {
        Mode::Ansi8Bit => seq![38u8, 5u8, color.ansi_8bit],
        Mode::TrueColor => seq![38u8, 2u8, color.rgb.r, color.rgb.g, color.rgb.b],
    }
}

/// The decimal codes joined by `;`.
pub open spec fn join_codes(codes: Seq<u8>) -> Seq<char>
    decreases codes.len(),
{
    if codes.len() == 0 {
        Seq::empty()
    } else if codes.len() == 1 {
        decimal(codes[0] as nat)
    } else {
        join_codes(codes.drop_last()) + seq![';'] + decimal(codes.last() as nat)
    }
}

/// `ESC[` codes `m`.
pub open spec fn sgr(codes: Seq<u8>) -> Seq<char> {
    seq!['\u{1b}', '['] + join_codes(codes) + seq!['m']
}

/// The escape sequence that resets all attributes.
pub open spec fn reset() -> Seq<char> {
    sgr(seq![0u8])
}

/// The ANSI escape sequence for a foreground color, `ESC[38;5;CODEm` in 8-bit
/// mode and `ESC[38;2;R;G;Bm` in 24-bit mode.
pub fn ansi_sequence(color: TerminalColor, mode: Mode) -> (s: String)
    ensures
        s@ == sgr(foreground_codes(color, mode)),
{
    let mut codes: Vec<u8> = Vec::new();
    match mode {
        Mode::Ansi8Bit => {
            codes.push(38);
            codes.push(5);
            codes.push(color.ansi_8bit);
        },
        Mode::TrueColor => {
            codes.push(38);
            codes.push(2);
            codes.push(color.rgb.r);
            codes.push(color.rgb.g);
            codes.push(color.rgb.b);
        },
    }
    assert(codes@ =~= foreground_codes(color, mode));
    escape_sequence_of(&codes)
}

/// Appends the decimal codes joined by `;`.
fn push_joined(s: &mut String, codes: &Vec<u8>)
    ensures
        final(s)@ == old(s)@ + join_codes(codes@),
{
    let ghost start = s@;
    let mut i: usize = 0;
    assert(codes@.subrange(0, 0) =~= Seq::<u8>::empty());
    while i < codes.len()
        invariant
            i <= codes.len(),
            s@ == start + join_codes(codes@.subrange(0, i as int)),
        decreases codes.len() - i,
    {
        let ghost before = s@;
        if i > 0 {
            push_char(s, ';');
        }
        push_decimal_u8(s, codes[i]);
        let ghost prefix = codes@.subrange(0, i as int);
        let ghost next = codes@.subrange(0, i + 1);
        assert(next.drop_last() =~= prefix);
        assert(next.last() == codes@[i as int]);
        if i == 0 {
            assert(join_codes(next) == decimal(codes@[0] as nat));
            assert(s@ =~= start + join_codes(next));
        } else {
            assert(join_codes(next) == join_codes(prefix) + seq![';'] + decimal(codes@[i as int] as nat));
            assert(s@ =~= start + join_codes(next));
        }
        i = i + 1;
    }
    assert(codes@.subrange(0, codes.len() as int) =~= codes@);
}

/// `ESC[` followed by the joined codes and `m`.
fn escape_sequence_of(codes: &Vec<u8>) -> (s: String)
    ensures
        s@ == sgr(codes@),
{
    let mut s = String::new();
    push_char(&mut s, '\u{1b}');
    push_char(&mut s, '[');
    push_joined(&mut s, codes);
    push_char(&mut s, 'm');
    assert(s@ =~= sgr(codes@));
    s
}

/// Text attributes and colors of a piece of terminal output.
#[derive(Debug, Clone, Copy, PartialEq, Eq, Structural)]
pub struct Style {
    pub foreground: Option<TerminalColor>,
    pub background: Option<TerminalColor>,
    pub bold: bool,
    pub italic: bool,
    pub underline: bool,
}

/// The codes of a style: foreground (in the given mode), background (always
/// 24-bit), then bold, italic and underline; a lone `0` if there is nothing.
pub open spec fn style_codes(style: Style, mode: Mode) -> Seq<u8> {
    let fg = match style.foreground {
        Some(c) => foreground_codes(c, mode),
        None => Seq::empty(),
    };
    let bg = match style.background {
        Some(c) => seq![48u8, 2u8, c.rgb.r, c.rgb.g, c.rgb.b],
        None => Seq::empty(),
    };
    let attrs = (if style.bold { seq![1u8] } else { Seq::empty() }) + (if style.italic {
        seq![3u8]
    } else {
        Seq::empty()
    }) + (if style.underline { seq![4u8] } else { Seq::empty() });
    let all = fg + bg + attrs;
    if all.len() == 0 { seq![0u8] } else { all }
}

impl Style {
    /// A style with the given foreground color and nothing else.
    pub fn from_color(color: TerminalColor) -> (s: Style)
        ensures
            s == (Style {
                foreground: Some(color),
                background: None,
                bold: false,
                italic: false,
                underline: false,
            }),
    {
        Style { foreground: Some(color), background: None, bold: false, italic: false, underline: false }
    }

    pub fn foreground(&mut self, color: &TerminalColor) -> (r: &mut Self)
        ensures
            *r == (Style { foreground: Some(*color), ..*old(self) }),
            *final(self) == *final(r),
    {
        self.foreground = Some(*color);
        self
    }

    pub fn on(&mut self, color: TerminalColor) -> (r: &mut Self)
        ensures
            *r == (Style { background: Some(color), ..*old(self) }),
            *final(self) == *final(r),
    {
        self.background = Some(color);
        self
    }

    pub fn bold(&mut self, on: bool) -> (r: &mut Self)
        ensures
            *r == (Style { bold: on, ..*old(self) }),
            *final(self) == *final(r),
    {
        self.bold = on;
        self
    }

    pub fn italic(&mut self, on: bool) -> (r: &mut Self)
        ensures
            *r == (Style { italic: on, ..*old(self) }),
            *final(self) == *final(r),
    {
        self.italic = on;
        self
    }

    pub fn underline(&mut self, on: bool) -> (r: &mut Self)
        ensures
            *r == (Style { underline: on, ..*old(self) }),
            *final(self) == *final(r),
    {
        self.underline = on;
        self
    }

    /// The escape sequence that switches the terminal to this style.
    #[verifier::rlimit(30)]
    #[verifier::spinoff_prover]
    pub fn escape_sequence(&self, mode: Mode) -> (s: String)
        ensures
            s@ == sgr(style_codes(*self, mode)),
    {
        let mut codes: Vec<u8> = Vec::new();

        if let Some(fg) = self.foreground {
            match mode {
                Mode::Ansi8Bit => {
                    codes.push(38);
                    codes.push(5);
                    codes.push(fg.ansi_8bit);
                },
                Mode::TrueColor => {
                    codes.push(38);
                    codes.push(2);
                    codes.push(fg.rgb.r);
                    codes.push(fg.rgb.g);
                    codes.push(fg.rgb.b);
                },
            }
        }
        if let Some(bg) = self.background {
            codes.push(48);
            codes.push(2);
            codes.push(bg.rgb.r);
            codes.push(bg.rgb.g);
            codes.push(bg.rgb.b);
        }
        if self.bold {
            codes.push(1);
        }
        if self.italic {
            codes.push(3);
        }
        if self.underline {
            codes.push(4);
        }
        if codes.len() == 0 {
            codes.push(0);
        }
        assert(codes@ =~= style_codes(*self, mode));
        escape_sequence_of(&codes)
    }
}

impl Default for Style {
    fn default() -> (s: Style)
        ensures
            s == (Style {
                foreground: None,
                background: None,
                bold: false,
                italic: false,
                underline: false,
            }),
    {
        Style { foreground: None, background: None, bold: false, italic: false, underline: false }
    }
}

/// Colors that have a terminal style of their own.
pub trait ToAnsiStyle {
    fn ansi_style(&self) -> Style;
}

impl ToAnsiStyle for TerminalColor {
    fn ansi_style(&self) -> (s: Style)
        ensures
            s == Style::from_color_spec(*self),
    {
        Style::from_color(*self)
    }
}

impl Style {
    pub open spec fn from_color_spec(color: TerminalColor) -> Style {
        Style { foreground: Some(color), background: None, bold: false, italic: false, underline: false }
    }
}

/// Paints text in a style, or leaves it plain when colors are off.
#[derive(Debug, Clone, Copy, PartialEq, Eq, Structural)]
pub struct Brush {
    pub mode: Option<Mode>,
}

/// The text wrapped in the style's escape sequence and a reset, or the text
/// alone when the brush has no mode.
pub open spec fn painted(brush: Brush, text: Seq<char>, style: Style) -> Seq<char> {
    match brush.mode {
        Some(mode) => sgr(style_codes(style, mode)) + text + reset(),
        None => text,
    }
}

impl Brush {
    pub fn from_mode(mode: Mode) -> (b: Self)
        ensures
            b.mode == Some(mode),
    {
        Brush { mode: Some(mode) }
    }

    /// The brush for standard output: no colors unless it is a terminal,
    /// 24-bit colors if `COLORTERM` is `truecolor`, 8-bit colors otherwise.
    pub fn from_terminal(stdout_is_tty: bool, colorterm: Option<String>) -> (b: Self)
        ensures
            b.mode == (if !stdout_is_tty {
                None
            } else if colorterm is Some && colorterm->0@ == "truecolor"@ {
                Some(Mode::TrueColor)
            } else {
                Some(Mode::Ansi8Bit)
            }),
    {
        let mode = if stdout_is_tty {
            match colorterm {
                Some(value) => {
                    let truecolor = String::from_str("truecolor");
                    if value == truecolor {
                        Some(Mode::TrueColor)
                    } else {
                        Some(Mode::Ansi8Bit)
                    }
                },
                None => Some(Mode::Ansi8Bit),
            }
        } else {
            None
        };
        Brush { mode }
    }

    /// The text in the given style, followed by a reset.
    pub fn paint(&self, text: &str, style: &Style) -> (s: String)
        ensures
            s@ == painted(*self, text@, *style),
    {
        match self.mode {
            Some(ansi_mode) => {
                let mut s = style.escape_sequence(ansi_mode);
                push_str(&mut s, text);
                let mut zero: Vec<u8> = Vec::new();
                zero.push(0);
                let end = escape_sequence_of(&zero);
                push_str(&mut s, end.as_str());
                assert(zero@ =~= seq![0u8]);
                s
            },
            None => {
                let mut s = String::new();
                push_str(&mut s, text);
                assert(Seq::<char>::empty() + text@ =~= text@);
                s
            },
        }
    }
}

/// The text with each escape character written out as the four characters
/// `\x1b`, so that an escape sequence can be shown rather than obeyed.
pub open spec fn escaped(t: Seq<char>) -> Seq<char>
    decreases t.len(),
{
    if t.len() == 0 {
        Seq::empty()
    } else {
        escaped(t.drop_last()) + if t.last() == '\u{1b}' {
            seq!['\\', 'x', '1', 'b']
        } else {
            seq![t.last()]
        }
    }
}

/// No escape character is left in an escaped text.
pub proof fn lemma_escaped_has_no_escape(t: Seq<char>)
    ensures
        forall|k: int| 0 <= k < escaped(t).len() ==> escaped(t)[k] != '\u{1b}',
    decreases t.len(),
{
    if t.len() > 0 {
        lemma_escaped_has_no_escape(t.drop_last());
        let p = escaped(t.drop_last());
        let tail = if t.last() == '\u{1b}' {
            seq!['\\', 'x', '1', 'b']
        } else {
            seq![t.last()]
        };
        assert(escaped(t) == p + tail);
        assert forall|k: int| 0 <= k < escaped(t).len() implies escaped(t)[k] != '\u{1b}' by {
            if k < p.len() {
                assert(escaped(t)[k] == p[k]);
            } else {
                assert(escaped(t)[k] == tail[k - p.len()]);
            }
        }
    }
}

/// Writes each escape character of `text` out as `\x1b`.
pub fn escape_control(text: &str) -> (r: String)
    ensures
        r@ == escaped(text@),
        forall|k: int| 0 <= k < r@.len() ==> r@[k] != '\u{1b}',
{
    proof {
        lemma_escaped_has_no_escape(text@);
    }
    let cs = crate::text::chars_of(text);
    let mut r = String::new();
    let mut i: usize = 0;
    while i < cs.len()
        invariant
            i <= cs.len(),
            cs@ == text@,
            r@ == escaped(cs@.subrange(0, i as int)),
        decreases cs.len() - i,
    {
        let c = cs[i];
        if c == '\u{1b}' {
            push_str(&mut r, "\\x1b");
            proof {
                reveal_strlit("\\x1b");
            }
        } else {
            push_char(&mut r, c);
        }
        assert(cs@.subrange(0, i + 1).drop_last() =~= cs@.subrange(0, i as int));
        i = i + 1;
    }
    assert(cs@.subrange(0, cs.len() as int) =~= cs@);
    r
}

} // verus!
