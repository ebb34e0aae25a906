use vstd::prelude::*;

verus! {

/// Number of character columns of the display.
pub const BUFFER_WIDTH: usize = 80;

/// Number of character rows of the display.
pub const BUFFER_HEIGHT: usize = 25;

/// The byte of a blank cell.
pub const BLANK: u8 = 0x20;

/// The byte that ends a line of text.
pub const NEWLINE: u8 = 0x0a;

/// The display colours that the shell draws with.
#[derive(Clone, Copy, Debug, PartialEq, Eq, Structural)]
pub enum Color {
    Black,
    LightGray,
    DarkGray,
    LightGreen,
}

/// A foreground and a background colour.
#[derive(Clone, Copy, Debug, PartialEq, Eq, Structural)]
pub struct ColorCode {
    pub foreground: Color,
    pub background: Color,
}

impl ColorCode {
    pub fn new(foreground: Color, background: Color) -> (code: ColorCode)
        ensures
            code == (ColorCode { foreground, background }),
    {
        ColorCode { foreground, background }
    }
}

/// Light gray on black: ordinary text.
pub open spec fn plain() -> ColorCode {
    ColorCode { foreground: Color::LightGray, background: Color::Black }
}

/// Black on light gray: the cell under a cursor, a selected entry.
pub open spec fn inverse() -> ColorCode {
    ColorCode { foreground: Color::Black, background: Color::LightGray }
}

/// What one cell of a pane shows.
pub struct Glyph {
    pub ch: u8,
    pub color: ColorCode,
}

/// An empty cell in ordinary colours.
pub open spec fn blank_glyph() -> Glyph {
    Glyph { ch: BLANK, color: plain() }
}

/// One write to the display: the byte `ch` in colour `color` at column `col` of row `row`.
#[derive(Clone, Copy, Debug, PartialEq, Eq, Structural)]
pub struct Cell {
    pub ch: u8,
    pub col: usize,
    pub row: usize,
    pub color: ColorCode,
}

impl Cell {
    /// The write lands on the display.
    pub open spec fn on_screen(&self) -> bool {
        self.col < BUFFER_WIDTH && self.row < BUFFER_HEIGHT
    }
}

/// True of the characters that the display can show as they are: those whose low byte is a
/// printable ASCII code.
pub open spec fn drawable(c: char) -> bool {
    0x20 <= (c as u32) % 256 <= 0x7e
}

pub fn is_drawable(c: char) -> (b: bool)
    ensures
        b == drawable(c),
{
    let low: u32 = (c as u32) % 256;
    0x20 <= low && low <= 0x7e
}

} // verus!
