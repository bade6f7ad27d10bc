//! A character-cell canvas: every cell is two terminal columns wide and holds
//! nothing, two characters or a background color.
use vstd::prelude::*;

use crate::ansi::{reset, sgr};
use crate::text::{push_char, push_str};
use crate::Rgb;

verus! {

/// The content of one cell.
#[derive(Debug, Clone, Copy, PartialEq, Eq, Structural)]
pub enum Pixel {
    Empty,
    Chars(char, char),
    Color(Rgb),
}

/// A grid of `height` rows and `width` columns of cells, stored row by row.
pub struct Canvas {
    height: usize,
    width: usize,
    pixels: Vec<Pixel>,
}

/// What a cell prints: two blanks, its two characters, or two blanks on its
/// background color.
pub open spec fn cell_text(p: Pixel) -> Seq<char> {
    match p {
        Pixel::Empty => seq![' ', ' '],
        Pixel::Chars(c1, c2) => seq![c1, c2],
        Pixel::Color(c) => sgr(seq![48u8, 2u8, c.r, c.g, c.b]) + seq![' ', ' '] + reset(),
    }
}

/// The texts of consecutive cells, one after the other.
pub open spec fn cells_text(ps: Seq<Pixel>) -> Seq<char>
    decreases ps.len(),
{
    if ps.len() == 0 {
        Seq::empty()
    } else {
        cells_text(ps.drop_last()) + cell_text(ps.last())
    }
}

/// The checkerboard color of a cell at offset `(i, j)` from the board's corner.
pub open spec fn checker(i: int, j: int, dark: Rgb, light: Rgb) -> Rgb {
    if (i + j) % 2 == 0 { dark } else { light }
}

/// The cell of a text row at offset `k`: characters `2k` and `2k + 1`, a blank
/// standing in for a missing second character.
pub open spec fn text_cell(t: Seq<char>, k: int) -> Pixel {
    Pixel::Chars(t[2 * k], if 2 * k + 1 < t.len() { t[2 * k + 1] } else { ' ' })
}

/// The number of cells a text occupies.
pub open spec fn text_cells(t: Seq<char>) -> int {
    (t.len() as int + 1) / 2
}

/// `ansi_term::Style::new().on(Colour::RGB(r, g, b)).paint(text)`, rendered
/// with `to_string`. As the crate's `Display` implementation writes it, this
/// is `ESC[48;2;R;G;Bm`, the text, and the reset sequence `ESC[0m`.
#[verifier::external_body]
fn paint_on_background(color: Rgb, text: &str) -> (s: String)
    ensures
        s@ == sgr(seq![48u8, 2u8, color.r, color.g, color.b]) + text@ + reset(),
{
    ansi_term::Style::new().on(ansi_term::Colour::RGB(color.r, color.g, color.b)).paint(text).to_string()
}

proof fn lemma_index_in_grid(i: int, j: int, h: int, w: int)
    requires
        0 <= i < h,
        0 <= j < w,
    ensures
        0 <= i * w + j < h * w,
        i * w <= i * w + j,
        (i + 1) * w == i * w + w,
{
    assert(i * w + j < h * w) by (nonlinear_arith)
        requires
            0 <= i < h,
            0 <= j < w,
    ;
    assert(0 <= i * w) by (nonlinear_arith)
        requires
            0 <= i,
            0 <= w,
    ;
    assert((i + 1) * w == i * w + w) by (nonlinear_arith);
}

proof fn lemma_index_unique(i1: int, j1: int, i2: int, j2: int, w: int)
    requires
        0 <= j1 < w,
        0 <= j2 < w,
        0 <= i1,
        0 <= i2,
        i1 * w + j1 == i2 * w + j2,
    ensures
        i1 == i2,
        j1 == j2,
{
    if i1 < i2 {
        assert(i1 * w + w <= i2 * w) by (nonlinear_arith)
            requires
                i1 < i2,
                0 <= w,
        ;
    } else if i2 < i1 {
        assert(i2 * w + w <= i1 * w) by (nonlinear_arith)
            requires
                i2 < i1,
                0 <= w,
        ;
    }
}

impl Canvas {
    /// The cells are stored row by row, `height * width` of them.
    pub closed spec fn wf(&self) -> bool {
        self.pixels@.len() == self.height as int * self.width as int
    }

    pub closed spec fn rows(&self) -> nat {
        self.height as nat
    }

    pub closed spec fn cols(&self) -> nat {
        self.width as nat
    }

    /// The cell in row `i` and column `j`.
    pub closed spec fn cell(&self, i: int, j: int) -> Pixel {
        self.pixels@[i * self.width + j]
    }

    /// The texts of the cells of row `i`, left to right.
    pub closed spec fn row_cells(&self, i: int) -> Seq<Pixel> {
        Seq::new(self.width as nat, |j: int| self.cell(i, j))
    }

    /// The lines of the first `k` rows, each ended by a newline.
    pub open spec fn lines(&self, k: nat) -> Seq<char>
        decreases k,
    {
        if k == 0 {
            Seq::empty()
        } else {
            self.lines((k - 1) as nat) + cells_text(self.row_cells(k - 1)) + seq!['\n']
        }
    }

    /// An empty canvas.
    pub fn new(height: usize, width: usize) -> (c: Self)
        requires
            height * width <= usize::MAX,
        ensures
            c.wf(),
            c.rows() == height,
            c.cols() == width,
            forall|i: int, j: int| 0 <= i < height && 0 <= j < width ==> c.cell(i, j) == Pixel::Empty,
    {
        let n = height * width;
        let mut pixels: Vec<Pixel> = Vec::new();
        let mut k: usize = 0;
        while k < n
            invariant
                k <= n,
                pixels@.len() == k,
                forall|m: int| 0 <= m < k ==> pixels@[m] == Pixel::Empty,
            decreases n - k,
        {
            pixels.push(Pixel::Empty);
            k = k + 1;
        }
        let c = Canvas { height, width, pixels };
        assert forall|i: int, j: int| 0 <= i < height && 0 <= j < width implies c.cell(i, j)
            == Pixel::Empty by {
            lemma_index_in_grid(i, j, height as int, width as int);
        }
        c
    }

    fn set_cell(&mut self, i: usize, j: usize, p: Pixel)
        requires
            old(self).wf(),
            i < old(self).rows(),
            j < old(self).cols(),
        ensures
            final(self).wf(),
            final(self).rows() == old(self).rows(),
            final(self).cols() == old(self).cols(),
            final(self).cell(i as int, j as int) == p,
            forall|a: int, b: int|
                0 <= a < old(self).rows() && 0 <= b < old(self).cols() && (a != i || b != j)
                    ==> final(self).cell(a, b) == old(self).cell(a, b),
    {
        proof {
            lemma_index_in_grid(i as int, j as int, self.height as int, self.width as int);
        }
        let len = self.pixels.len();
        let idx = i * self.width + j;
        self.pixels.set(idx, p);
        proof {
            assert forall|a: int, b: int|
                0 <= a < old(self).rows() && 0 <= b < old(self).cols() && (a != i || b != j)
                    implies self.cell(a, b) == old(self).cell(a, b) by {
                lemma_index_in_grid(a, b, self.height as int, self.width as int);
                if a * self.width + b == idx {
                    lemma_index_unique(a, b, i as int, j as int, self.width as int);
                }
            }
        }
    }

    fn get_cell(&self, i: usize, j: usize) -> (p: Pixel)
        requires
            self.wf(),
            i < self.rows(),
            j < self.cols(),
        ensures
            p == self.cell(i as int, j as int),
    {
        proof {
            lemma_index_in_grid(i as int, j as int, self.height as int, self.width as int);
        }
        let len = self.pixels.len();
        self.pixels[i * self.width + j]
    }

    /// Fill a rectangle with a color.
    pub fn draw_rect(&mut self, row: usize, col: usize, height: usize, width: usize, color: Rgb)
        requires
            old(self).wf(),
            height > 0 && width > 0 ==> row + height <= old(self).rows() && col + width <= old(
                self,
            ).cols(),
        ensures
            final(self).wf(),
            final(self).rows() == old(self).rows(),
            final(self).cols() == old(self).cols(),
            forall|i: int, j: int|
                0 <= i < old(self).rows() && 0 <= j < old(self).cols() ==> final(self).cell(i, j)
                    == if row <= i < row + height && col <= j < col + width {
                    Pixel::Color(color)
                } else {
                    old(self).cell(i, j)
                },
    {
        let ghost start = *self;
        let mut i: usize = 0;
        while i < height
            invariant
                0 <= i <= height,
                height > 0 && width > 0 ==> row + height <= start.rows() && col + width <= start.cols(),
                self.wf(),
                self.rows() == start.rows(),
                self.cols() == start.cols(),
                forall|a: int, b: int|
                    0 <= a < start.rows() && 0 <= b < start.cols() ==> self.cell(a, b) == if row <= a
                        < row + i && col <= b < col + width {
                        Pixel::Color(color)
                    } else {
                        start.cell(a, b)
                    },
            decreases height - i,
        {
            let mut j: usize = 0;
            while j < width
                invariant
                    0 <= i < height,
                    0 <= j <= width,
                    height > 0 && width > 0 ==> row + height <= start.rows() && col + width
                        <= start.cols(),
                    self.wf(),
                self.rows() == start.rows(),
                    self.cols() == start.cols(),
                    forall|a: int, b: int|
                        0 <= a < start.rows() && 0 <= b < start.cols() ==> self.cell(a, b) == if (row
                            <= a < row + i && col <= b < col + width) || (a == row + i && col <= b
                            < col + j) {
                            Pixel::Color(color)
                        } else {
                            start.cell(a, b)
                        },
                decreases width - j,
            {
                self.set_cell(row + i, col + j, Pixel::Color(color));
                j = j + 1;
            }
            i = i + 1;
        }
    }

    /// Fill a rectangle with a checkerboard pattern, `dark` in its corner.
    pub fn draw_checkerboard(
        &mut self,
        row: usize,
        col: usize,
        height: usize,
        width: usize,
        dark: Rgb,
        light: Rgb,
    )
        requires
            old(self).wf(),
            height > 0 && width > 0 ==> row + height <= old(self).rows() && col + width <= old(
                self,
            ).cols(),
        ensures
            final(self).wf(),
            final(self).rows() == old(self).rows(),
            final(self).cols() == old(self).cols(),
            forall|i: int, j: int|
                0 <= i < old(self).rows() && 0 <= j < old(self).cols() ==> final(self).cell(i, j)
                    == if row <= i < row + height && col <= j < col + width {
                    Pixel::Color(checker(i - row, j - col, dark, light))
                } else {
                    old(self).cell(i, j)
                },
    {
        let ghost start = *self;
        let mut i: usize = 0;
        while i < height
            invariant
                0 <= i <= height,
                height > 0 && width > 0 ==> row + height <= start.rows() && col + width <= start.cols(),
                self.wf(),
                self.rows() == start.rows(),
                self.cols() == start.cols(),
                forall|a: int, b: int|
                    0 <= a < start.rows() && 0 <= b < start.cols() ==> self.cell(a, b) == if row <= a
                        < row + i && col <= b < col + width {
                        Pixel::Color(checker(a - row, b - col, dark, light))
                    } else {
                        start.cell(a, b)
                    },
            decreases height - i,
        {
            let mut j: usize = 0;
            while j < width
                invariant
                    0 <= i < height,
                    0 <= j <= width,
                    height > 0 && width > 0 ==> row + height <= start.rows() && col + width
                        <= start.cols(),
                    self.wf(),
                self.rows() == start.rows(),
                    self.cols() == start.cols(),
                    forall|a: int, b: int|
                        0 <= a < start.rows() && 0 <= b < start.cols() ==> self.cell(a, b) == if (row
                            <= a < row + i && col <= b < col + width) || (a == row + i && col <= b
                            < col + j) {
                            Pixel::Color(checker(a - row, b - col, dark, light))
                        } else {
                            start.cell(a, b)
                        },
                decreases width - j,
            {
                assert((i % 2 + j % 2) % 2 == (i + j) % 2);
                let color = if (i % 2 + j % 2) % 2 == 0 {
                    dark
                } else {
                    light
                };
                self.set_cell(row + i, col + j, Pixel::Color(color));
                j = j + 1;
            }
            i = i + 1;
        }
    }

    /// Write a text into a row, two characters per cell.
    pub fn draw_text(&mut self, row: usize, col: usize, text: &str)
        requires
            old(self).wf(),
            text@.len() > 0 ==> row < old(self).rows() && col + text_cells(text@) <= old(
                self,
            ).cols(),
        ensures
            final(self).wf(),
            final(self).rows() == old(self).rows(),
            final(self).cols() == old(self).cols(),
            forall|i: int, j: int|
                0 <= i < old(self).rows() && 0 <= j < old(self).cols() ==> final(self).cell(i, j)
                    == if i == row && col <= j < col + text_cells(text@) {
                    text_cell(text@, j - col)
                } else {
                    old(self).cell(i, j)
                },
    {
        let ghost start = *self;
        let chars = crate::text::chars_of(text);
        let n = chars.len();
        let m = n / 2 + n % 2;
        let mut j: usize = 0;
        while j < m
            invariant
                chars@ == text@,
                n == chars@.len(),
                m == text_cells(text@),
                j <= m,
                text@.len() > 0 ==> row < start.rows() && col + text_cells(text@) <= start.cols(),
                self.wf(),
                self.rows() == start.rows(),
                self.cols() == start.cols(),
                forall|a: int, b: int|
                    0 <= a < start.rows() && 0 <= b < start.cols() ==> self.cell(a, b) == if a == row
                        && col <= b < col + j {
                        text_cell(text@, b - col)
                    } else {
                        start.cell(a, b)
                    },
            decreases m - j,
        {
            let k = 2 * j;
            let c1 = chars[k];
            let c2 = if k + 1 < n {
                chars[k + 1]
            } else {
                ' '
            };
            self.set_cell(row, col + j, Pixel::Chars(c1, c2));
            j = j + 1;
        }
    }

    /// The canvas as text: each row's cells, then a newline.
    pub fn render(&self) -> (s: String)
        requires
            self.wf(),
        ensures
            s@ == self.lines(self.rows()),
    {
        let mut s = String::new();
        let mut i: usize = 0;
        while i < self.height
            invariant
                self.wf(),
                i <= self.rows(),
                s@ == self.lines(i as nat),
            decreases self.height - i,
        {
            let ghost before = s@;
            let mut j: usize = 0;
            while j < self.width
                invariant
                    self.wf(),
                    i < self.rows(),
                    j <= self.cols(),
                    s@ == before + cells_text(self.row_cells(i as int).subrange(0, j as int)),
                decreases self.width - j,
            {
                let ghost mid = s@;
                let p = self.get_cell(i, j);
                match p {
                    Pixel::Empty => {
                        push_char(&mut s, ' ');
                        push_char(&mut s, ' ');
                    },
                    Pixel::Chars(c1, c2) => {
                        push_char(&mut s, c1);
                        push_char(&mut s, c2);
                    },
                    Pixel::Color(c) => {
                        proof {
                            reveal_strlit("  ");
                        }
                        let painted = paint_on_background(c, "  ");
                        push_str(&mut s, painted.as_str());
                    },
                }
                let ghost cells = self.row_cells(i as int);
                assert(cells.subrange(0, j + 1).drop_last() =~= cells.subrange(0, j as int));
                assert(cells.subrange(0, j + 1).last() == p);
                assert(s@ =~= mid + cell_text(p));
                j = j + 1;
            }
            assert(self.row_cells(i as int).subrange(0, self.width as int) =~= self.row_cells(
                i as int,
            ));
            push_char(&mut s, '\n');
            i = i + 1;
        }
        s
    }
}

} // verus!
