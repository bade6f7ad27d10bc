//! The layout defaults of the tool's panels.
use vstd::prelude::*;

use crate::canvas::Canvas;
use crate::cli::show::{color_spectrum, panel_after, panel_fits, show_color_tty, shown, spectrum_cell};
use crate::named::NamedColor;
use crate::Rgb;

verus! {

pub struct App {
    padding: usize,
    colorpicker_width: usize,
}

impl App {
    /// A margin of two cells around each panel, and a spectrum 40 cells wide.
    #[verifier::type_invariant]
    spec fn layout(self) -> bool {
        self.padding == 2 && self.colorpicker_width == 40
    }

    /// The margin around each panel, in cells.
    pub closed spec fn padding_spec(&self) -> usize {
        self.padding
    }

    /// The width of the color spectrum, in cells.
    pub closed spec fn colorpicker_width_spec(&self) -> usize {
        self.colorpicker_width
    }

    pub fn new() -> (a: App)
        ensures
            a.padding_spec() == 2,
            a.colorpicker_width_spec() == 40,
    {
        App { padding: 2, colorpicker_width: 40 }
    }

    pub fn padding(&self) -> (p: usize)
        ensures
            p == self.padding_spec(),
    {
        self.padding
    }

    pub fn colorpicker_width(&self) -> (w: usize)
        ensures
            w == self.colorpicker_width_spec(),
    {
        self.colorpicker_width
    }

    /// The panel that shows a color (see `show_color_tty` of `cli::show`),
    /// with this layout's margin.
    pub fn show_color_tty(
        &self,
        color: Rgb,
        square: (Rgb, Rgb),
        hsl: &str,
        similar: &Vec<NamedColor>,
    ) -> (c: Canvas)
        requires
            panel_fits(self.padding_spec() as int, color, hsl@, similar@),
        ensures
            c.wf(),
            c.rows() == 2 * self.padding_spec() + 20,
            c.cols() == 55,
            forall|i: int, j: int|
                0 <= i < c.rows() && 0 <= j < c.cols() ==> c.cell(i, j) == panel_after(
                    6 + 2 * shown(similar@),
                    self.padding_spec() as int,
                    color,
                    square,
                    hsl@,
                    similar@,
                    i,
                    j,
                ),
    {
        show_color_tty(self.padding, color, square, hsl, similar)
    }

    /// The color spectrum of the color picker with this layout's margin and
    /// width, `colors` holding its colors row by row.
    pub fn show_spectrum(&self, colors: &Vec<Rgb>) -> (c: Canvas)
        requires
            colors@.len() == self.colorpicker_width_spec() * self.colorpicker_width_spec(),
        ensures
            c.wf(),
            c.rows() == self.colorpicker_width_spec() + 2 * self.padding_spec(),
            c.cols() == self.colorpicker_width_spec() + 2 * self.padding_spec(),
            forall|i: int, j: int|
                0 <= i < c.rows() && 0 <= j < c.cols() ==> c.cell(i, j) == spectrum_cell(
                    self.padding_spec() as int,
                    self.colorpicker_width_spec() as int,
                    colors@,
                    i,
                    j,
                ),
    {
        proof {
            use_type_invariant(self);
            let s = self.colorpicker_width + 2 * self.padding;
            assert(s * s <= usize::MAX) by (nonlinear_arith)
                requires
                    s == 44,
            ;
        }
        color_spectrum(self.padding, self.colorpicker_width, colors)
    }
}

} // verus!
