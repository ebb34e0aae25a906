use vstd::prelude::*;
use crate::screen::{blank_glyph, inverse, plain, Glyph, BLANK, NEWLINE};
use crate::text::{capped, low_byte};

verus! {

/// Most characters that a line holds.
pub const LINE_CAPACITY: usize = 255;

/// Number of lines of a document.
pub const DOC_LINES: usize = 64;

/// No scroll offset ever exceeds this: the last line's index plus the most rows that a whole
/// document can take.
pub const SCROLL_LIMIT: usize = 16448;

/// The mathematical content of an editing session: the text of each line, the cursor, and
/// the first line considered for display.
pub struct Document {
    pub lines: Seq<Seq<char>>,
    pub line: int,
    pub col: int,
    pub scroll: int,
}

/// The bytes that stand for a line of text.
pub open spec fn line_bytes(text: Seq<char>) -> Seq<u8> {
    text.map_values(|c: char| low_byte(c))
}

/// The first `n` lines, each followed by a newline byte.
pub open spec fn serialized(lines: Seq<Seq<char>>, n: int) -> Seq<u8>
    decreases n,
{
    if n <= 0 {
        Seq::<u8>::empty()
    } else {
        serialized(lines, n - 1) + line_bytes(lines[n - 1]) + seq![NEWLINE]
    }
}

/// `bytes` without the newline bytes at its end.
pub open spec fn trimmed(bytes: Seq<u8>) -> Seq<u8>
    decreases bytes.len(),
{
    if bytes.len() > 0 && bytes.last() == NEWLINE {
        trimmed(bytes.drop_last())
    } else {
        bytes
    }
}

/// Display rows that a text of `len` characters takes in a pane `width` cells wide.
pub open spec fn rows_needed(len: int, width: int) -> int {
    len / width + 1
}

impl Document {
    pub open spec fn wf(self) -> bool {
        &&& self.lines.len() == DOC_LINES
        &&& forall|i: int| 0 <= i < DOC_LINES ==> (#[trigger] self.lines[i]).len() <= LINE_CAPACITY
        &&& 0 <= self.line < DOC_LINES
        &&& 0 <= self.col <= self.lines[self.line].len()
        &&& 0 <= self.scroll <= SCROLL_LIMIT
    }

    /// The document that an editing session starts with.
    pub open spec fn empty() -> Document {
        Document {
            lines: Seq::new(DOC_LINES as nat, |i: int| Seq::<char>::empty()),
            line: 0,
            col: 0,
            scroll: 0,
        }
    }

    /// The text of the line that the cursor is on.
    pub open spec fn current(self) -> Seq<char> {
        self.lines[self.line]
    }

    /// The document with the current line replaced by `text` and the cursor at `col`.
    pub open spec fn with_current(self, text: Seq<char>, col: int) -> Document {
        Document { lines: self.lines.update(self.line, text), col, ..self }
    }

    /// Typing `c`: it goes in at the cursor, which moves right. A full line takes nothing.
    pub open spec fn insert_char(self, c: char) -> Document {
        if self.current().len() >= LINE_CAPACITY {
            self
        } else {
            self.with_current(self.current().insert(self.col, c), self.col + 1)
        }
    }

    /// Breaking the current line at the cursor. The lines below move down by one and the
    /// last line of the document is lost. On the last line nothing happens.
    pub open spec fn newline(self) -> Document {
        if self.line + 1 >= DOC_LINES {
            self
        } else {
            Document {
                lines: self.lines.take(self.line).push(self.current().take(self.col)).push(
                    self.current().skip(self.col),
                ) + self.lines.subrange(self.line + 1, DOC_LINES - 1),
                line: self.line + 1,
                col: 0,
                ..self
            }
        }
    }

    /// Deleting the character before the cursor. At the start of a line, the line is joined
    /// to the one above, as far as that line has room; the lines below move up by one and an
    /// empty line comes in at the end. At the start of the document nothing happens.
    pub open spec fn backspace(self) -> Document {
        if self.col > 0 {
            self.with_current(self.current().remove(self.col - 1), self.col - 1)
        } else if self.line == 0 {
            self
        } else {
            let above = self.lines[self.line - 1];
            Document {
                lines: self.lines.take(self.line - 1).push(
                    capped(above + self.current(), LINE_CAPACITY as int),
                ) + self.lines.skip(self.line + 1).push(Seq::<char>::empty()),
                line: self.line - 1,
                col: above.len() as int,
                ..self
            }
        }
    }

    pub open spec fn arrow_left(self) -> Document {
        if self.col > 0 {
            Document { col: self.col - 1, ..self }
        } else if self.line == 0 {
            self
        } else {
            Document { line: self.line - 1, col: self.lines[self.line - 1].len() as int, ..self }
        }
    }

    pub open spec fn arrow_right(self) -> Document {
        if self.col != self.current().len() {
            Document { col: self.col + 1, ..self }
        } else if self.line == DOC_LINES - 1 {
            self
        } else {
            Document { line: self.line + 1, col: 0, ..self }
        }
    }

    pub open spec fn arrow_up(self) -> Document {
        if self.line == 0 {
            self
        } else {
            let above = self.lines[self.line - 1].len() as int;
            Document {
                line: self.line - 1,
                col: if self.col <= above {
                    self.col
                } else {
                    above
                },
                ..self
            }
        }
    }

    pub open spec fn arrow_down(self) -> Document {
        if self.line == DOC_LINES - 1 {
            self
        } else {
            let below = self.lines[self.line + 1].len() as int;
            Document {
                line: self.line + 1,
                col: if self.col <= below {
                    self.col
                } else {
                    below
                },
                ..self
            }
        }
    }

    /// The document after the bytes of a file have been typed into it: a newline byte breaks
    /// the line, any other byte goes in as the character with that code.
    pub open spec fn replay(self, bytes: Seq<u8>) -> Document
        decreases bytes.len(),
    {
        if bytes.len() == 0 {
            self
        } else {
            self.replay(bytes.drop_last()).replay_byte(bytes.last())
        }
    }

    pub open spec fn replay_byte(self, b: u8) -> Document {
        if b == NEWLINE {
            self.newline()
        } else {
            self.insert_char(b as char)
        }
    }

    /// What saving writes into a buffer of `capacity` bytes: every line followed by a newline
    /// byte, as far as the buffer has room, without the newline bytes at the end.
    pub open spec fn dump(self, capacity: int) -> Seq<u8> {
        trimmed(capped(serialized(self.lines, DOC_LINES as int), capacity))
    }

    /// Display rows that line `i` takes when it is shown from its start. The cursor's own
    /// line counts up to the cursor only.
    pub open spec fn rows_of(self, i: int, width: int) -> int {
        if i == self.line {
            rows_needed(self.col, width)
        } else {
            rows_needed(self.lines[i].len() as int, width)
        }
    }

    /// Display rows that the lines from `from` up to, not including, `to` take.
    pub open spec fn rows_between(self, from: int, to: int, width: int) -> int
        decreases to - from,
    {
        if from >= to {
            0
        } else {
            self.rows_between(from, to - 1, width) + self.rows_of(to - 1, width)
        }
    }

    /// Display rows from the scroll line through the cursor.
    pub open spec fn rows_through_cursor(self, width: int) -> int {
        self.rows_between(self.scroll, self.line + 1, width)
    }

    /// The scroll line after the display has been made to follow the cursor.
    pub open spec fn scroll_for(self, width: int, height: int) -> int {
        let total = self.rows_through_cursor(width);
        if total == 0 {
            self.line
        } else if total >= height {
            self.scroll + (total - height)
        } else {
            self.scroll
        }
    }

    pub open spec fn keep_cursor_on_screen(self, width: int, height: int) -> Document {
        Document { scroll: self.scroll_for(width, height), ..self }
    }

    /// What stands at position `i` of line `l` on the display: the character there, a blank
    /// past the end of the text, and the cursor's position in inverse colours.
    pub open spec fn glyph(self, l: int, i: int) -> Glyph {
        Glyph {
            ch: if i < self.lines[l].len() {
                low_byte(self.lines[l][i])
            } else {
                BLANK
            },
            color: if l == self.line && i == self.col {
                inverse()
            } else {
                plain()
            },
        }
    }

    /// What column `x` of row `y` shows when line `l` starts in row 0 and the lines after it
    /// follow, each wrapped at `width` and followed by blanks to the end of its last row.
    /// Below the last line of the document every cell is blank.
    pub open spec fn glyph_from(self, l: int, x: int, y: int, width: int) -> Glyph
        decreases DOC_LINES - l,
    {
        if l < 0 || l >= DOC_LINES {
            blank_glyph()
        } else if y < rows_needed(self.lines[l].len() as int, width) {
            self.glyph(l, y * width + x)
        } else {
            self.glyph_from(l + 1, x, y - rows_needed(self.lines[l].len() as int, width), width)
        }
    }

    /// What column `x` of row `y` of the pane shows.
    pub open spec fn shown(self, x: int, y: int, width: int) -> Glyph {
        self.glyph_from(self.scroll, x, y, width)
    }

    /// The display row of the cursor, counted from the scroll line.
    pub open spec fn cursor_row(self, width: int) -> int {
        self.rows_through_cursor(width) - 1
    }
}

} // verus!
