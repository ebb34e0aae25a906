use vstd::prelude::*;
use crate::screen::{plain, Cell, Color, ColorCode, BLANK};
use crate::grid::lemma_grid_index;
use crate::text::{char_byte, low_byte};

verus! {

/// A pane: a rectangular region of the display, given by its inclusive corners.
#[derive(Clone, Copy, Debug, PartialEq, Eq, Structural)]
pub struct Window {
    pub x1: u8,
    pub y1: u8,
    pub x2: u8,
    pub y2: u8,
}

impl Window {
    /// The corners are in order, so the pane holds at least one cell.
    pub open spec fn wf(&self) -> bool {
        self.x1 <= self.x2 && self.y1 <= self.y2
    }

    pub open spec fn spec_width(&self) -> int {
        self.x2 - self.x1 + 1
    }

    pub open spec fn spec_height(&self) -> int {
        self.y2 - self.y1 + 1
    }

    /// The display cell of the pane's local position `(col, row)`.
    pub open spec fn cell(&self, ch: u8, col: int, row: int, color: ColorCode) -> Cell {
        Cell { ch, col: (self.x1 + col) as usize, row: (self.y1 + row) as usize, color }
    }

    /// The write lands inside the pane.
    pub open spec fn holds(&self, cell: Cell) -> bool {
        self.x1 <= cell.col <= self.x2 && self.y1 <= cell.row <= self.y2
    }

    /// The pane whose top left cell is `(x, y)` and which is `w` cells wide and `h` cells
    /// high. Coordinates are kept modulo 256; a pane that ends within the first 256 columns
    /// and rows is well formed and has the width and height asked for.
    pub fn new(x: usize, y: usize, w: usize, h: usize) -> (win: Window)
        requires
            w >= 1,
            h >= 1,
            x + w - 1 <= usize::MAX,
            y + h - 1 <= usize::MAX,
        ensures
            win.x1 == x % 256,
            win.y1 == y % 256,
            win.x2 == (x + w - 1) % 256,
            win.y2 == (y + h - 1) % 256,
            x + w <= 256 && y + h <= 256 ==> win.wf() && win.spec_width() == w && win.spec_height()
                == h,
    {
        Window {
            x1: (x % 256) as u8,
            y1: (y % 256) as u8,
            x2: ((x + (w - 1)) % 256) as u8,
            y2: ((y + (h - 1)) % 256) as u8,
        }
    }

    pub fn height(&self) -> (h: usize)
        requires
            self.wf(),
        ensures
            h == self.spec_height(),
            1 <= h <= 256,
    {
        (self.y2 - self.y1) as usize + 1
    }

    pub fn width(&self) -> (w: usize)
        requires
            self.wf(),
        ensures
            w == self.spec_width(),
            1 <= w <= 256,
    {
        (self.x2 - self.x1) as usize + 1
    }

    /// The pane's local position `(col, row)` lies in the pane.
    pub open spec fn inside(&self, col: int, row: int) -> bool {
        self.x1 + col <= self.x2 && self.y1 + row <= self.y2
    }

    /// The write that shows `c` at the pane's local position `(col, row)`. A position
    /// outside the pane gets no write: nothing is ever drawn past the pane's bounds.
    pub fn plot(&self, c: char, col: u8, row: u8, color: ColorCode) -> (write: Option<Cell>)
        ensures
            write == if self.inside(col as int, row as int) {
                Some(self.cell(low_byte(c), col as int, row as int, color))
            } else {
                None
            },
            write matches Some(cell) ==> self.holds(cell),
    {
        let x = col as usize + self.x1 as usize;
        let y = row as usize + self.y1 as usize;
        if x <= self.x2 as usize && y <= self.y2 as usize {
            Some(Cell { ch: char_byte(c), col: x, row: y, color })
        } else {
            None
        }
    }

    /// Appends the write that shows `c` at the pane's local position `(col, row)`, if the
    /// position lies in the pane.
    pub fn plot_to(&self, cells: &mut Vec<Cell>, c: char, col: u8, row: u8, color: ColorCode)
        ensures
            final(cells)@ == if self.inside(col as int, row as int) {
                old(cells)@.push(self.cell(low_byte(c), col as int, row as int, color))
            } else {
                old(cells)@
            },
    {
        match self.plot(c, col, row, color) {
            Some(cell) => cells.push(cell),
            None => {},
        }
    }

    /// The writes that blank the whole pane, column by column.
    pub fn clear(&self) -> (cells: Vec<Cell>)
        requires
            self.wf(),
        ensures
            cells@.len() == self.spec_width() * self.spec_height(),
            forall|x: int, y: int|
                0 <= x < self.spec_width() && 0 <= y < self.spec_height() ==> #[trigger] cells@[x
                    * self.spec_height() + y] == self.cell(BLANK, x, y, plain()),
    {
        let color = ColorCode::new(Color::LightGray, Color::Black);
        let w = self.width();
        let h = self.height();
        let mut cells: Vec<Cell> = Vec::new();
        let mut x: usize = 0;
        while x < w
            invariant
                self.wf(),
                w == self.spec_width(),
                h == self.spec_height(),
                color == plain(),
                x <= w,
                cells@.len() == x * h,
                forall|i: int, j: int|
                    0 <= i < x && 0 <= j < h ==> #[trigger] cells@[i * h + j] == self.cell(
                        BLANK,
                        i,
                        j,
                        plain(),
                    ),
            decreases w - x,
        {
            let mut y: usize = 0;
            while y < h
                invariant
                    self.wf(),
                    w == self.spec_width(),
                    h == self.spec_height(),
                    color == plain(),
                    x < w,
                    y <= h,
                    cells@.len() == x * h + y,
                    forall|i: int, j: int|
                        0 <= i < x && 0 <= j < h ==> #[trigger] cells@[i * h + j] == self.cell(
                            BLANK,
                            i,
                            j,
                            plain(),
                        ),
                    forall|j: int|
                        0 <= j < y ==> #[trigger] cells@[x * h + j] == self.cell(
                            BLANK,
                            x as int,
                            j,
                            plain(),
                        ),
                decreases h - y,
            {
                let ghost before = cells@;
                self.plot_to(&mut cells, ' ', x as u8, y as u8, color);
                proof {
                    assert forall|i: int, j: int| 0 <= i < x && 0 <= j < h implies #[trigger] cells@[i
                        * h + j] == self.cell(BLANK, i, j, plain()) by {
                        lemma_grid_index(i, j, x as int, h as int);
                        assert(cells@[i * h + j] == before[i * h + j]);
                    }
                }
                y += 1;
            }
            proof {
                assert forall|i: int, j: int| 0 <= i < x + 1 && 0 <= j < h implies #[trigger] cells@[i
                    * h + j] == self.cell(BLANK, i, j, plain()) by {
                    if i == x {
                    }
                }
                assert((x + 1) * h == x * h + h) by (nonlinear_arith);
            }
            x += 1;
        }
        cells
    }
}

} // verus!
