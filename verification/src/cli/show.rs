//! The panel that shows a color in an interactive terminal: a checkerboard
//! with the color on it, the color's hexadecimal, RGB and HSL texts, and
//! the most similar named colors.
use vstd::prelude::*;

use crate::canvas::{checker, text_cell, text_cells, Canvas, Pixel};
use crate::named::NamedColor;
use crate::text::push_str;
use crate::{rgb_hex_string, rgb_string, Format, Rgb};

verus! {

/// The checkerboard's two colors.
pub open spec fn board_dark() -> Rgb {
    Rgb { r: 240, g: 240, b: 240 }
}

pub open spec fn board_light() -> Rgb {
    Rgb { r: 180, g: 180, b: 180 }
}

pub open spec fn hex_line(color: Rgb) -> Seq<char> {
    "Hex: "@ + rgb_hex_string(color, true)
}

pub open spec fn rgb_line(color: Rgb) -> Seq<char> {
    "RGB: "@ + rgb_string(color, Format::Spaces)
}

pub open spec fn hsl_line(hsl: Seq<char>) -> Seq<char> {
    "HSL: "@ + hsl
}

/// How many similar colors the panel lists: at most three.
pub open spec fn shown(similar: Seq<NamedColor>) -> int {
    if similar.len() < 3 {
        similar.len() as int
    } else {
        3
    }
}

/// What a text written at `(row, col)` puts at cell `(i, j)`, if it covers it.
pub open spec fn text_step(t: Seq<char>, row: int, col: int, i: int, j: int) -> Option<Pixel> {
    if i == row && col <= j < col + text_cells(t) {
        Some(text_cell(t, j - col))
    } else {
        None
    }
}

/// What the `m`-th drawing step of the panel puts at cell `(i, j)`, if it
/// covers it. The steps, in order: a 20 by 20 checkerboard at
/// `(padding, padding)`; the color, 14 by 14, centered on it, laid over the
/// board: `square.0` where the board is dark and `square.1` where it is
/// light (the color composited over each; both the color itself where it is
/// opaque); to the right
/// of it, from two rows lower, the lines `Hex: ..`, `RGB: ..` and `HSL: ..`
/// two rows apart and the title `Most similar:` four rows further; then, two
/// rows apart, for each similar color its name and a swatch of it before the
/// name.
pub open spec fn panel_step(
    m: int,
    padding: int,
    color: Rgb,
    square: (Rgb, Rgb),
    hsl: Seq<char>,
    similar: Seq<NamedColor>,
    i: int,
    j: int,
) -> Option<Pixel> {
    let p = padding;
    let pos = p + 3;
    let x = 20 + 2 * p;
    let y = p + 2;
    if m == 0 {
        if p <= i < p + 20 && p <= j < p + 20 {
            Some(Pixel::Color(checker(i - p, j - p, board_dark(), board_light())))
        } else {
            None
        }
    } else if m == 1 {
        if pos <= i < pos + 14 && pos <= j < pos + 14 {
            Some(Pixel::Color(checker(i - pos, j - pos, square.0, square.1)))
        } else {
            None
        }
    } else if m == 2 {
        text_step(hex_line(color), y, x, i, j)
    } else if m == 3 {
        text_step(rgb_line(color), y + 2, x, i, j)
    } else if m == 4 {
        text_step(hsl_line(hsl), y + 4, x, i, j)
    } else if m == 5 {
        text_step("Most similar:"@, y + 8, x, i, j)
    } else {
        let k = (m - 6) / 2;
        let row = y + 10 + 2 * k;
        if (m - 6) % 2 == 0 {
            text_step(similar[k].name@, row, x + 7, i, j)
        } else if row <= i < row + 2 && x + 1 <= j < x + 6 {
            Some(Pixel::Color(similar[k].color))
        } else {
            None
        }
    }
}

/// Cell `(i, j)` after the first `n` drawing steps: what the last step that
/// covers it put there, or nothing.
pub open spec fn panel_after(
    n: int,
    padding: int,
    color: Rgb,
    square: (Rgb, Rgb),
    hsl: Seq<char>,
    similar: Seq<NamedColor>,
    i: int,
    j: int,
) -> Pixel
    decreases n,
{
    if n <= 0 {
        Pixel::Empty
    } else {
        match panel_step(n - 1, padding, color, square, hsl, similar, i, j) {
            Some(px) => px,
            None => panel_after(n - 1, padding, color, square, hsl, similar, i, j),
        }
    }
}

/// Whether every text of the panel fits into its 55 columns.
pub open spec fn panel_fits(padding: int, color: Rgb, hsl: Seq<char>, similar: Seq<NamedColor>) -> bool {
    let x = 20 + 2 * padding;
    &&& x + text_cells(hex_line(color)) <= 55
    &&& x + text_cells(rgb_line(color)) <= 55
    &&& x + text_cells(hsl_line(hsl)) <= 55
    &&& x + text_cells("Most similar:"@) <= 55
    &&& forall|k: int| 0 <= k < shown(similar) ==> x + 7 + text_cells(#[trigger] similar[k].name@) <= 55
}

fn line(label: &str, value: &str) -> (s: String)
    ensures
        s@ == label@ + value@,
{
    let mut s = String::new();
    push_str(&mut s, label);
    push_str(&mut s, value);
    s
}

/// The panel for a color, `square` being the color composited over the
/// board's dark and light squares, `hsl` the color's HSL text and `similar`
/// the named colors closest to it, the closest first. It is
/// `2 * padding + 20` rows high and 55 columns wide.
pub fn show_color_tty(
    padding: usize,
    color: Rgb,
    square: (Rgb, Rgb),
    hsl: &str,
    similar: &Vec<NamedColor>,
) -> (c: Canvas)
    requires
        panel_fits(padding as int, color, hsl@, similar@),
    ensures
        c.wf(),
        c.rows() == 2 * padding + 20,
        c.cols() == 55,
        forall|i: int, j: int|
            0 <= i < c.rows() && 0 <= j < c.cols() ==> c.cell(i, j) == panel_after(
                6 + 2 * shown(similar@),
                padding as int,
                color,
                square,
                hsl@,
                similar@,
                i,
                j,
            ),
{
    proof {
        reveal_strlit("Most similar:");
    }
    let ghost p = padding as int;
    let ghost s = similar@;
    let x = 20 + 2 * padding;
    let y = padding + 2;
    let mut c = Canvas::new(2 * padding + 20, 55);
    c.draw_checkerboard(
        padding,
        padding,
        20,
        20,
        Rgb { r: 240, g: 240, b: 240 },
        Rgb { r: 180, g: 180, b: 180 },
    );
    assert forall|i: int, j: int| 0 <= i < c.rows() && 0 <= j < c.cols() implies c.cell(i, j)
        == panel_after(1, p, color, square, hsl@, s, i, j) by {
        assert(panel_after(0, p, color, square, hsl@, s, i, j) == Pixel::Empty);
    }
    c.draw_checkerboard(padding + 3, padding + 3, 14, 14, square.0, square.1);
    assert forall|i: int, j: int| 0 <= i < c.rows() && 0 <= j < c.cols() implies c.cell(i, j)
        == panel_after(2, p, color, square, hsl@, s, i, j) by {}
    let hex = line("Hex: ", color.to_rgb_hex_string(true).as_str());
    c.draw_text(y, x, hex.as_str());
    assert forall|i: int, j: int| 0 <= i < c.rows() && 0 <= j < c.cols() implies c.cell(i, j)
        == panel_after(3, p, color, square, hsl@, s, i, j) by {}
    let rgb = line("RGB: ", color.to_rgb_string(Format::Spaces).as_str());
    c.draw_text(y + 2, x, rgb.as_str());
    assert forall|i: int, j: int| 0 <= i < c.rows() && 0 <= j < c.cols() implies c.cell(i, j)
        == panel_after(4, p, color, square, hsl@, s, i, j) by {}
    let hsl_text = line("HSL: ", hsl);
    c.draw_text(y + 4, x, hsl_text.as_str());
    assert forall|i: int, j: int| 0 <= i < c.rows() && 0 <= j < c.cols() implies c.cell(i, j)
        == panel_after(5, p, color, square, hsl@, s, i, j) by {}
    c.draw_text(y + 8, x, "Most similar:");
    assert forall|i: int, j: int| 0 <= i < c.rows() && 0 <= j < c.cols() implies c.cell(i, j)
        == panel_after(6, p, color, square, hsl@, s, i, j) by {}
    let n: usize = if similar.len() < 3 {
        similar.len()
    } else {
        3
    };
    let mut k: usize = 0;
    while k < n
        invariant
            n == shown(s),
            s == similar@,
            p == padding,
            x == 20 + 2 * padding,
            y == padding + 2,
            panel_fits(p, color, hsl@, s),
            k <= n,
            c.wf(),
            c.rows() == 2 * padding + 20,
            c.cols() == 55,
            forall|i: int, j: int|
                0 <= i < c.rows() && 0 <= j < c.cols() ==> c.cell(i, j) == panel_after(
                    6 + 2 * k,
                    p,
                    color,
                    square,
                    hsl@,
                    s,
                    i,
                    j,
                ),
        decreases n - k,
    {
        let row = y + 10 + 2 * k;
        let named = similar[k];
        assert(x + 7 + text_cells(s[k as int].name@) <= 55);
        c.draw_text(row, x + 7, named.name);
        assert forall|i: int, j: int| 0 <= i < c.rows() && 0 <= j < c.cols() implies c.cell(i, j)
            == panel_after(6 + 2 * k + 1, p, color, square, hsl@, s, i, j) by {
            assert((6 + 2 * k - 6) / 2 == k as int);
            assert((6 + 2 * k - 6) % 2 == 0);
        }
        c.draw_rect(row, x + 1, 2, 5, named.color);
        assert forall|i: int, j: int| 0 <= i < c.rows() && 0 <= j < c.cols() implies c.cell(i, j)
            == panel_after(6 + 2 * k + 2, p, color, square, hsl@, s, i, j) by {
            assert((6 + 2 * k + 1 - 6) / 2 == k as int);
            assert((6 + 2 * k + 1 - 6) % 2 == 1);
        }
        k = k + 1;
    }
    c
}

/// The number of cells a text occupies.
fn text_width(t: &str) -> (n: usize)
    ensures
        n == text_cells(t@),
{
    let cs = crate::text::chars_of(t);
    cs.len() / 2 + cs.len() % 2
}

/// Whether every text of the panel fits (see `panel_fits`).
pub fn fits_panel(padding: usize, color: Rgb, hsl: &str, similar: &Vec<NamedColor>) -> (b: bool)
    ensures
        b == panel_fits(padding as int, color, hsl@, similar@),
{
    proof {
        reveal_strlit("Most similar:");
    }
    if padding > 14 {
        return false;
    }
    let x = 20 + 2 * padding;
    let hex = line("Hex: ", color.to_rgb_hex_string(true).as_str());
    let rgb = line("RGB: ", color.to_rgb_string(Format::Spaces).as_str());
    let hsl_text = line("HSL: ", hsl);
    let hw = text_width(hex.as_str());
    let rw = text_width(rgb.as_str());
    let sw = text_width(hsl_text.as_str());
    if hw > 55 - x || rw > 55 - x || sw > 55 - x || text_width("Most similar:") > 55 - x {
        return false;
    }
    let n: usize = if similar.len() < 3 {
        similar.len()
    } else {
        3
    };
    let mut k: usize = 0;
    while k < n
        invariant
            n == shown(similar@),
            x == 20 + 2 * padding,
            x <= 48,
            k <= n,
            forall|m: int|
                0 <= m < k ==> x + 7 + text_cells(#[trigger] similar@[m].name@) <= 55,
        decreases n - k,
    {
        if text_width(similar[k].name) > 48 - x {
            return false;
        }
        k = k + 1;
    }
    true
}

/// The frame of the color spectrum.
pub open spec fn spectrum_frame() -> Rgb {
    Rgb { r: 100, g: 100, b: 100 }
}

/// Cell `(i, j)` of the spectrum: a `width` by `width` grid of the given
/// colors (row by row) at `(padding + 1, padding + 1)`, in a frame one cell
/// wide, on an empty border of `padding - 1` cells.
pub open spec fn spectrum_cell(padding: int, width: int, colors: Seq<Rgb>, i: int, j: int) -> Pixel {
    if padding + 1 <= i < padding + 1 + width && padding + 1 <= j < padding + 1 + width {
        Pixel::Color(colors[(i - padding - 1) * width + (j - padding - 1)])
    } else if padding <= i < padding + width + 2 && padding <= j < padding + width + 2 {
        Pixel::Color(spectrum_frame())
    } else {
        Pixel::Empty
    }
}

proof fn lemma_grid_index(y: int, x: int, w: int)
    requires
        0 <= y < w,
        0 <= x < w,
    ensures
        0 <= y * w + x < w * w,
        (y + 1) * w == y * w + w,
{
    assert(y * w + x < w * w) by (nonlinear_arith)
        requires
            0 <= y < w,
            0 <= x < w,
    ;
    assert(0 <= y * w) by (nonlinear_arith)
        requires
            0 <= y,
            0 <= w,
    ;
    assert((y + 1) * w == y * w + w) by (nonlinear_arith);
}

/// The color spectrum that the color picker shows, `colors` holding the
/// `width * width` colors of its grid row by row. It is `width + 2 * padding`
/// cells square; the frame needs a padding of at least two.
pub fn color_spectrum(padding: usize, width: usize, colors: &Vec<Rgb>) -> (c: Canvas)
    requires
        padding >= 2,
        colors@.len() == width * width,
        (width + 2 * padding) * (width + 2 * padding) <= usize::MAX,
    ensures
        c.wf(),
        c.rows() == width + 2 * padding,
        c.cols() == width + 2 * padding,
        forall|i: int, j: int|
            0 <= i < c.rows() && 0 <= j < c.cols() ==> c.cell(i, j) == spectrum_cell(
                padding as int,
                width as int,
                colors@,
                i,
                j,
            ),
{
    proof {
        let s = width + 2 * padding;
        assert(s <= s * s) by (nonlinear_arith)
            requires
                s >= 2,
        ;
    }
    let size = width + 2 * padding;
    let mut c = Canvas::new(size, size);
    c.draw_rect(padding, padding, width + 2, width + 2, Rgb { r: 100, g: 100, b: 100 });
    let ghost p = padding as int;
    let ghost w = width as int;
    let mut y: usize = 0;
    while y < width
        invariant
            p == padding,
            w == width,
            padding >= 2,
            size == width + 2 * padding,
            colors@.len() == width * width,
            y <= width,
            c.wf(),
            c.rows() == size,
            c.cols() == size,
            forall|i: int, j: int|
                0 <= i < size && 0 <= j < size ==> c.cell(i, j) == if p + 1 <= i < p + 1 + y && p
                    + 1 <= j < p + 1 + w {
                    spectrum_cell(p, w, colors@, i, j)
                } else if p <= i < p + w + 2 && p <= j < p + w + 2 {
                    Pixel::Color(spectrum_frame())
                } else {
                    Pixel::Empty
                },
        decreases width - y,
    {
        let mut x: usize = 0;
        while x < width
            invariant
                p == padding,
                w == width,
                padding >= 2,
                size == width + 2 * padding,
                colors@.len() == width * width,
                y < width,
                x <= width,
                c.wf(),
                c.rows() == size,
                c.cols() == size,
                forall|i: int, j: int|
                    0 <= i < size && 0 <= j < size ==> c.cell(i, j) == if (p + 1 <= i < p + 1 + y
                        && p + 1 <= j < p + 1 + w) || (i == p + 1 + y && p + 1 <= j < p + 1 + x) {
                        spectrum_cell(p, w, colors@, i, j)
                    } else if p <= i < p + w + 2 && p <= j < p + w + 2 {
                        Pixel::Color(spectrum_frame())
                    } else {
                        Pixel::Empty
                    },
            decreases width - x,
        {
            proof {
                lemma_grid_index(y as int, x as int, w);
                assert(colors@.len() == colors.len());
            }
            let color = colors[y * width + x];
            c.draw_rect(padding + y + 1, padding + x + 1, 1, 1, color);
            x = x + 1;
        }
        y = y + 1;
    }
    c
}

} // verus!
