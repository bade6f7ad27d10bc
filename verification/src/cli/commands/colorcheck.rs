//! The board that `colorcheck` prints to compare 8-bit and 24-bit colors.
use vstd::prelude::*;

use crate::ansi::{Brush, Mode, TerminalColor};
use crate::cli::hdcanvas::Canvas;

verus! {

/// Pixel `(i, j)` of the board: three `width` by `width` squares in a row,
/// `padding` pixels around and between them.
pub open spec fn board_pixel(
    padding: int,
    width: int,
    panels: (TerminalColor, TerminalColor, TerminalColor),
    i: int,
    j: int,
) -> Option<TerminalColor> {
    let (p, w) = (padding, width);
    if p <= i < p + w {
        if p <= j < p + w {
            Some(panels.0)
        } else if 2 * p + w <= j < 2 * p + 2 * w {
            Some(panels.1)
        } else if 3 * p + 2 * w <= j < 3 * p + 3 * w {
            Some(panels.2)
        } else {
            None
        }
    } else {
        None
    }
}

/// The `colorcheck` command.
pub struct ColorCheckCommand;

impl ColorCheckCommand {
    /// The board for one color mode: `width + 2 * padding` pixel rows (an
    /// even number) and `3 * width + 3 * padding` columns, painted in `mode`.
    pub fn board(
        padding: usize,
        width: usize,
        mode: Mode,
        panels: (TerminalColor, TerminalColor, TerminalColor),
    ) -> (c: Canvas)
        requires
            (width + 2 * padding) % 2 == 0,
            (width + 2 * padding) * (3 * width + 3 * padding) <= usize::MAX,
        ensures
            c.wf(),
            c.rows() == width + 2 * padding,
            c.cols() == 3 * width + 3 * padding,
            c.brush_spec() == (Brush { mode: Some(mode) }),
            forall|i: int, j: int|
                0 <= i < c.rows() && 0 <= j < c.cols() ==> c.pixel(i, j) == board_pixel(
                    padding as int,
                    width as int,
                    panels,
                    i,
                    j,
                ),
            forall|k: int, j: int| 0 <= k < c.rows() / 2 && 0 <= j < c.cols() ==> c.char_at(k, j) is None,
    {
        proof {
            let (h, w3) = (width + 2 * padding, 3 * width + 3 * padding);
            if h > 0 {
                assert(w3 <= h * w3) by (nonlinear_arith)
                    requires
                        h > 0,
                        w3 >= 0,
                ;
            }
            if w3 > 0 {
                assert(h <= h * w3) by (nonlinear_arith)
                    requires
                        w3 > 0,
                        h >= 0,
                ;
            }
        }
        let mut c = Canvas::new(width + 2 * padding, 3 * width + 3 * padding, Brush::from_mode(mode));
        c.draw_rect(padding, padding, width, width, panels.0);
        c.draw_rect(padding, 2 * padding + width, width, width, panels.1);
        c.draw_rect(padding, 3 * padding + 2 * width, width, width, panels.2);
        c
    }
}

} // verus!
