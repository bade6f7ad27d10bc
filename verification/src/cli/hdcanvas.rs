//! A canvas of half-height pixels: each character cell of the terminal
//! shows two pixels, one above the other, with half-block characters, or a
//! character of text.
use vstd::prelude::*;

use crate::ansi::{painted, Brush, Style, TerminalColor};
use crate::text::{push_char, push_str};

verus! {

/// A style with a foreground and, where given, a background color.
pub open spec fn colors_style(fg: TerminalColor, bg: Option<TerminalColor>) -> Style {
    Style { foreground: Some(fg), background: bg, bold: false, italic: false, underline: false }
}

/// What a cell without text shows for its upper and lower pixel: a blank on
/// the color where both are the same, the upper half block `▀` in the upper
/// color on the lower one where they differ, a half block alone where only
/// one is set, and a blank where none is.
pub open spec fn half_block(brush: Brush, top: Option<TerminalColor>, bottom: Option<TerminalColor>) -> Seq<
    char,
> {
    match (top, bottom) {
        (Some(t), Some(b)) => painted(
            brush,
            if t == b {
                seq![' ']
            } else {
                seq!['▀']
            },
            colors_style(t, Some(b)),
        ),
        (Some(t), None) => painted(brush, seq!['▀'], colors_style(t, None)),
        (None, Some(b)) => painted(brush, seq!['▄'], colors_style(b, None)),
        (None, None) => seq![' '],
    }
}

/// `height` rows of `width` pixels (`height` even), and a character or
/// nothing for each of the `height / 2` by `width` cells.
pub struct Canvas {
    height: usize,
    width: usize,
    pixels: Vec<Option<TerminalColor>>,
    chars: Vec<Option<char>>,
    brush: Brush,
}

proof fn lemma_grid(i: int, j: int, h: int, w: int)
    requires
        0 <= i < h,
        0 <= j < w,
    ensures
        0 <= i * w + j < h * w,
{
    assert(0 <= i * w + j < h * w) by (nonlinear_arith)
        requires
            0 <= i < h,
            0 <= j < w,
    ;
}

proof fn lemma_grid_unique(i1: int, j1: int, i2: int, j2: int, w: int)
    requires
        0 <= j1 < w,
        0 <= j2 < w,
        0 <= i1,
        0 <= i2,
        i1 * w + j1 == i2 * w + j2,
    ensures
        i1 == i2,
        j1 == j2,
{
    if i1 < i2 {
        assert(i1 * w + w <= i2 * w) by (nonlinear_arith)
            requires
                i1 < i2,
                0 <= w,
        ;
    } else if i2 < i1 {
        assert(i2 * w + w <= i1 * w) by (nonlinear_arith)
            requires
                i2 < i1,
                0 <= w,
        ;
    }
}

impl Canvas {
    pub closed spec fn wf(&self) -> bool {
        &&& self.height % 2 == 0
        &&& self.pixels@.len() == self.height as int * self.width as int
        &&& self.chars@.len() == (self.height / 2) as int * self.width as int
    }

    pub closed spec fn rows(&self) -> nat {
        self.height as nat
    }

    pub closed spec fn cols(&self) -> nat {
        self.width as nat
    }

    pub closed spec fn brush_spec(&self) -> Brush {
        self.brush
    }

    /// The pixel in row `i` and column `j`.
    pub closed spec fn pixel(&self, i: int, j: int) -> Option<TerminalColor> {
        self.pixels@[i * self.width + j]
    }

    /// The character of the cell in line `k` and column `j`.
    pub closed spec fn char_at(&self, k: int, j: int) -> Option<char> {
        self.chars@[k * self.width + j]
    }

    /// What the cell in line `k` and column `j` shows.
    pub open spec fn cell_text(&self, k: int, j: int) -> Seq<char> {
        match self.char_at(k, j) {
            Some(c) => seq![c],
            None => half_block(self.brush_spec(), self.pixel(2 * k, j), self.pixel(2 * k + 1, j)),
        }
    }

    /// The first `n` cells of line `k`.
    pub open spec fn line_start(&self, k: int, n: nat) -> Seq<char>
        decreases n,
    {
        if n == 0 {
            Seq::empty()
        } else {
            self.line_start(k, (n - 1) as nat) + self.cell_text(k, n - 1)
        }
    }

    /// The first `k` lines, each ended by a newline.
    pub open spec fn lines(&self, k: nat) -> Seq<char>
        decreases k,
    {
        if k == 0 {
            Seq::empty()
        } else {
            self.lines((k - 1) as nat) + self.line_start(k - 1, self.cols()) + seq!['\n']
        }
    }

    /// An empty canvas that paints with `brush`.
    pub fn new(height: usize, width: usize, brush: Brush) -> (c: Self)
        requires
            height % 2 == 0,
            height * width <= usize::MAX,
        ensures
            c.wf(),
            c.rows() == height,
            c.cols() == width,
            c.brush_spec() == brush,
            forall|i: int, j: int| 0 <= i < height && 0 <= j < width ==> c.pixel(i, j) is None,
            forall|k: int, j: int| 0 <= k < height / 2 && 0 <= j < width ==> c.char_at(k, j) is None,
    {
        let n = height * width;
        let mut pixels: Vec<Option<TerminalColor>> = Vec::new();
        let mut k: usize = 0;
        while k < n
            invariant
                k <= n,
                pixels@.len() == k,
                forall|m: int| 0 <= m < k ==> pixels@[m] is None,
            decreases n - k,
        {
            pixels.push(None);
            k = k + 1;
        }
        proof {
            let h2 = height / 2;
            assert(h2 * width <= height * width) by (nonlinear_arith)
                requires
                    h2 <= height,
            ;
        }
        let m = height / 2 * width;
        let mut chars: Vec<Option<char>> = Vec::new();
        let mut k: usize = 0;
        while k < m
            invariant
                k <= m,
                chars@.len() == k,
                forall|q: int| 0 <= q < k ==> chars@[q] is None,
            decreases m - k,
        {
            chars.push(None);
            k = k + 1;
        }
        let c = Canvas { height, width, pixels, chars, brush };
        assert forall|i: int, j: int| 0 <= i < height && 0 <= j < width implies c.pixel(i, j) is None by {
            lemma_grid(i, j, height as int, width as int);
        }
        assert forall|k: int, j: int| 0 <= k < height / 2 && 0 <= j < width implies c.char_at(k, j) is None by {
            lemma_grid(k, j, (height / 2) as int, width as int);
        }
        c
    }

    fn set_pixel(&mut self, i: usize, j: usize, p: Option<TerminalColor>)
        requires
            old(self).wf(),
            i < old(self).rows(),
            j < old(self).cols(),
        ensures
            final(self).wf(),
            final(self).rows() == old(self).rows(),
            final(self).cols() == old(self).cols(),
            final(self).brush_spec() == old(self).brush_spec(),
            final(self).pixel(i as int, j as int) == p,
            forall|a: int, b: int|
                0 <= a < old(self).rows() && 0 <= b < old(self).cols() && (a != i || b != j)
                    ==> final(self).pixel(a, b) == old(self).pixel(a, b),
            forall|k: int, b: int| final(self).char_at(k, b) == old(self).char_at(k, b),
    {
        let n = self.pixels.len();
        proof {
            lemma_grid(i as int, j as int, self.height as int, self.width as int);
            assert(i * self.width + j < n);
        }
        let idx = i * self.width + j;
        self.pixels.set(idx, p);
        proof {
            assert forall|a: int, b: int|
                0 <= a < old(self).rows() && 0 <= b < old(self).cols() && (a != i || b != j)
                    implies self.pixel(a, b) == old(self).pixel(a, b) by {
                lemma_grid(a, b, self.height as int, self.width as int);
                if a * self.width + b == idx {
                    lemma_grid_unique(a, b, i as int, j as int, self.width as int);
                }
            }
        }
    }

    fn get_pixel(&self, i: usize, j: usize) -> (p: Option<TerminalColor>)
        requires
            self.wf(),
            i < self.rows(),
            j < self.cols(),
        ensures
            p == self.pixel(i as int, j as int),
    {
        let n = self.pixels.len();
        proof {
            lemma_grid(i as int, j as int, self.height as int, self.width as int);
            assert(i * self.width + j < n);
        }
        self.pixels[i * self.width + j]
    }

    fn set_char(&mut self, k: usize, j: usize, c: char)
        requires
            old(self).wf(),
            k < old(self).rows() / 2,
            j < old(self).cols(),
        ensures
            final(self).wf(),
            final(self).rows() == old(self).rows(),
            final(self).cols() == old(self).cols(),
            final(self).brush_spec() == old(self).brush_spec(),
            final(self).char_at(k as int, j as int) == Some(c),
            forall|a: int, b: int|
                0 <= a < old(self).rows() / 2 && 0 <= b < old(self).cols() && (a != k || b != j)
                    ==> final(self).char_at(a, b) == old(self).char_at(a, b),
            forall|a: int, b: int| final(self).pixel(a, b) == old(self).pixel(a, b),
    {
        let n = self.chars.len();
        proof {
            lemma_grid(k as int, j as int, (self.height / 2) as int, self.width as int);
            assert(k * self.width + j < n);
        }
        let idx = k * self.width + j;
        self.chars.set(idx, Some(c));
        proof {
            assert forall|a: int, b: int|
                0 <= a < old(self).rows() / 2 && 0 <= b < old(self).cols() && (a != k || b != j)
                    implies self.char_at(a, b) == old(self).char_at(a, b) by {
                lemma_grid(a, b, (self.height / 2) as int, self.width as int);
                if a * self.width + b == idx {
                    lemma_grid_unique(a, b, k as int, j as int, self.width as int);
                }
            }
        }
    }

    fn get_char(&self, k: usize, j: usize) -> (c: Option<char>)
        requires
            self.wf(),
            k < self.rows() / 2,
            j < self.cols(),
        ensures
            c == self.char_at(k as int, j as int),
    {
        let n = self.chars.len();
        proof {
            lemma_grid(k as int, j as int, (self.height / 2) as int, self.width as int);
            assert(k * self.width + j < n);
        }
        self.chars[k * self.width + j]
    }

    /// Fill a rectangle of pixels with a color, which covers what was there.
    pub fn draw_rect(
        &mut self,
        row: usize,
        col: usize,
        height: usize,
        width: usize,
        color: TerminalColor,
    )
        requires
            old(self).wf(),
            height > 0 && width > 0 ==> row + height <= old(self).rows() && col + width <= old(
                self,
            ).cols(),
        ensures
            final(self).wf(),
            final(self).rows() == old(self).rows(),
            final(self).cols() == old(self).cols(),
            final(self).brush_spec() == old(self).brush_spec(),
            forall|i: int, j: int|
                0 <= i < old(self).rows() && 0 <= j < old(self).cols() ==> final(self).pixel(i, j)
                    == if row <= i < row + height && col <= j < col + width {
                    Some(color)
                } else {
                    old(self).pixel(i, j)
                },
            forall|k: int, j: int| final(self).char_at(k, j) == old(self).char_at(k, j),
    {
        let ghost start = *self;
        let mut i: usize = 0;
        while i < height
            invariant
                0 <= i <= height,
                height > 0 && width > 0 ==> row + height <= start.rows() && col + width <= start.cols(),
                self.wf(),
                self.rows() == start.rows(),
                self.cols() == start.cols(),
                self.brush_spec() == start.brush_spec(),
                forall|a: int, b: int|
                    0 <= a < start.rows() && 0 <= b < start.cols() ==> self.pixel(a, b) == if row
                        <= a < row + i && col <= b < col + width {
                        Some(color)
                    } else {
                        start.pixel(a, b)
                    },
                forall|k: int, b: int| self.char_at(k, b) == start.char_at(k, b),
            decreases height - i,
        {
            let mut j: usize = 0;
            while j < width
                invariant
                    0 <= i < height,
                    0 <= j <= width,
                    width > 0 ==> row + height <= start.rows() && col + width <= start.cols(),
                    self.wf(),
                    self.rows() == start.rows(),
                    self.cols() == start.cols(),
                    self.brush_spec() == start.brush_spec(),
                    forall|a: int, b: int|
                        0 <= a < start.rows() && 0 <= b < start.cols() ==> self.pixel(a, b) == if (
                        row <= a < row + i && col <= b < col + width) || (a == row + i && col <= b
                            < col + j) {
                            Some(color)
                        } else {
                            start.pixel(a, b)
                        },
                    forall|k: int, b: int| self.char_at(k, b) == start.char_at(k, b),
                decreases width - j,
            {
                self.set_pixel(row + i, col + j, Some(color));
                j = j + 1;
            }
            i = i + 1;
        }
    }

    /// Write a text into a line of cells, one character per cell; `row` is
    /// the (even) pixel row of the line's upper half.
    pub fn draw_text(&mut self, row: usize, col: usize, text: &str)
        requires
            old(self).wf(),
            row % 2 == 0,
            text@.len() > 0 ==> row / 2 < old(self).rows() / 2 && col + text@.len() <= old(
                self,
            ).cols(),
        ensures
            final(self).wf(),
            final(self).rows() == old(self).rows(),
            final(self).cols() == old(self).cols(),
            final(self).brush_spec() == old(self).brush_spec(),
            forall|k: int, j: int|
                0 <= k < old(self).rows() / 2 && 0 <= j < old(self).cols() ==> final(self).char_at(
                    k,
                    j,
                ) == if k == row / 2 && col <= j < col + text@.len() {
                    Some(text@[j - col])
                } else {
                    old(self).char_at(k, j)
                },
            forall|i: int, j: int| final(self).pixel(i, j) == old(self).pixel(i, j),
    {
        let ghost start = *self;
        let chars = crate::text::chars_of(text);
        let mut j: usize = 0;
        while j < chars.len()
            invariant
                chars@ == text@,
                j <= chars@.len(),
                text@.len() > 0 ==> row / 2 < start.rows() / 2 && col + text@.len() <= start.cols(),
                self.wf(),
                self.rows() == start.rows(),
                self.cols() == start.cols(),
                self.brush_spec() == start.brush_spec(),
                forall|k: int, b: int|
                    0 <= k < start.rows() / 2 && 0 <= b < start.cols() ==> self.char_at(k, b) == if k
                        == row / 2 && col <= b < col + j {
                        Some(text@[b - col])
                    } else {
                        start.char_at(k, b)
                    },
                forall|a: int, b: int| self.pixel(a, b) == start.pixel(a, b),
            decreases chars.len() - j,
        {
            self.set_char(row / 2, col + j, chars[j]);
            j = j + 1;
        }
    }

    /// Fill a rectangle of pixels with a checkerboard, `dark` in its corner.
    pub fn draw_checkerboard(
        &mut self,
        row: usize,
        col: usize,
        height: usize,
        width: usize,
        dark: TerminalColor,
        light: TerminalColor,
    )
        requires
            old(self).wf(),
            height > 0 && width > 0 ==> row + height <= old(self).rows() && col + width <= old(
                self,
            ).cols(),
        ensures
            final(self).wf(),
            final(self).rows() == old(self).rows(),
            final(self).cols() == old(self).cols(),
            final(self).brush_spec() == old(self).brush_spec(),
            forall|i: int, j: int|
                0 <= i < old(self).rows() && 0 <= j < old(self).cols() ==> final(self).pixel(i, j)
                    == if row <= i < row + height && col <= j < col + width {
                    Some(if (i - row + j - col) % 2 == 0 { dark } else { light })
                } else {
                    old(self).pixel(i, j)
                },
            forall|k: int, j: int| final(self).char_at(k, j) == old(self).char_at(k, j),
    {
        let ghost start = *self;
        let mut i: usize = 0;
        while i < height
            invariant
                0 <= i <= height,
                height > 0 && width > 0 ==> row + height <= start.rows() && col + width <= start.cols(),
                self.wf(),
                self.rows() == start.rows(),
                self.cols() == start.cols(),
                self.brush_spec() == start.brush_spec(),
                forall|a: int, b: int|
                    0 <= a < start.rows() && 0 <= b < start.cols() ==> self.pixel(a, b) == if row
                        <= a < row + i && col <= b < col + width {
                        Some(if (a - row + b - col) % 2 == 0 { dark } else { light })
                    } else {
                        start.pixel(a, b)
                    },
                forall|k: int, b: int| self.char_at(k, b) == start.char_at(k, b),
            decreases height - i,
        {
            let mut j: usize = 0;
            while j < width
                invariant
                    0 <= i < height,
                    0 <= j <= width,
                    width > 0 ==> row + height <= start.rows() && col + width <= start.cols(),
                    self.wf(),
                    self.rows() == start.rows(),
                    self.cols() == start.cols(),
                    self.brush_spec() == start.brush_spec(),
                    forall|a: int, b: int|
                        0 <= a < start.rows() && 0 <= b < start.cols() ==> self.pixel(a, b) == if (
                        row <= a < row + i && col <= b < col + width) || (a == row + i && col <= b
                            < col + j) {
                            Some(if (a - row + b - col) % 2 == 0 { dark } else { light })
                        } else {
                            start.pixel(a, b)
                        },
                    forall|k: int, b: int| self.char_at(k, b) == start.char_at(k, b),
                decreases width - j,
            {
                let color = if i % 2 == j % 2 {
                    dark
                } else {
                    light
                };
                assert((i % 2 == j % 2) == ((i + j) % 2 == 0));
                self.set_pixel(row + i, col + j, Some(color));
                j = j + 1;
            }
            i = i + 1;
        }
    }

    /// The canvas as text: each line of cells, then a newline.
    pub fn render(&self) -> (s: String)
        requires
            self.wf(),
        ensures
            s@ == self.lines(self.rows() / 2),
    {
        let mut s = String::new();
        let mut k: usize = 0;
        while k < self.height / 2
            invariant
                self.wf(),
                k <= self.rows() / 2,
                s@ == self.lines(k as nat),
            decreases self.height / 2 - k,
        {
            let ghost before = s@;
            let mut j: usize = 0;
            while j < self.width
                invariant
                    self.wf(),
                    k < self.rows() / 2,
                    j <= self.cols(),
                    s@ == before + self.line_start(k as int, j as nat),
                decreases self.width - j,
            {
                let ghost mid = s@;
                match self.get_char(k, j) {
                    Some(c) => {
                        push_char(&mut s, c);
                    },
                    None => {
                        let top = self.get_pixel(2 * k, j);
                        let bottom = self.get_pixel(2 * k + 1, j);
                        let piece = half_block_text(&self.brush, top, bottom);
                        push_str(&mut s, piece.as_str());
                    },
                }
                assert(s@ =~= mid + self.cell_text(k as int, j as int));
                j = j + 1;
            }
            push_char(&mut s, '\n');
            k = k + 1;
        }
        s
    }
}

fn half_block_text(brush: &Brush, top: Option<TerminalColor>, bottom: Option<TerminalColor>) -> (t: String)
    ensures
        t@ == half_block(*brush, top, bottom),
{
    proof {
        reveal_strlit(" ");
        reveal_strlit("▀");
        reveal_strlit("▄");
    }
    match (top, bottom) {
        (Some(t), Some(b)) => {
            let mut style = Style::from_color(t);
            style.on(b);
            brush.paint(
                if t == b {
                    " "
                } else {
                    "▀"
                },
                &style,
            )
        },
        (Some(t), None) => brush.paint("▀", &Style::from_color(t)),
        (None, Some(b)) => brush.paint("▄", &Style::from_color(b)),
        (None, None) => {
            let mut blank = String::new();
            push_char(&mut blank, ' ');
            blank
        },
    }
}

} // verus!

verus! {

/// Which glyph a cell without text shows, seen with colors off: the upper
/// half block `▀` when only the upper pixel is set or the two differ, the
/// lower half block `▄` when only the lower one is set, and a blank when the
/// two are the same or neither is set.
pub proof fn law_half_block_glyphs(top: Option<TerminalColor>, bottom: Option<TerminalColor>)
    ensures
        half_block(Brush { mode: None }, top, bottom) == (match (top, bottom) {
            (Some(t), None) => seq!['▀'],
            (None, Some(b)) => seq!['▄'],
            (Some(t), Some(b)) => if t == b {
                seq![' ']
            } else {
                seq!['▀']
            },
            (None, None) => seq![' '],
        }),
{
}

/// With colors on, a cell shows that same glyph painted with the upper
/// pixel's color as foreground over the lower one's as background; a lone
/// pixel's color is the foreground, with no background.
pub proof fn law_half_block_colors(
    brush: Brush,
    top: Option<TerminalColor>,
    bottom: Option<TerminalColor>,
)
    requires
        top is Some || bottom is Some,
    ensures
        half_block(brush, top, bottom) == painted(
            brush,
            half_block(Brush { mode: None }, top, bottom),
            Style {
                foreground: Some(
                    if top is Some {
                        top->0
                    } else {
                        bottom->0
                    },
                ),
                background: if top is Some {
                    bottom
                } else {
                    None
                },
                bold: false,
                italic: false,
                underline: false,
            },
        ),
{
}

} // verus!
