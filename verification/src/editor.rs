use vstd::prelude::*;
use crate::document::{
    line_bytes, rows_needed, serialized, trimmed, Document, DOC_LINES, LINE_CAPACITY,
};
use crate::explorer::MAX_FILENAME_BYTES;
use crate::grid::{
    lemma_cell_position, lemma_first_outside, lemma_grid_index, lemma_inside, lemma_mul_strict,
    lemma_shift_rows, min, paint,
};
use crate::screen::{blank_glyph, inverse, plain, Cell, Color, ColorCode, Glyph, BLANK, NEWLINE};
use crate::text::{byte_char, capped, char_byte, low_byte, ByteString};
use crate::window::Window;

verus! {

/// Most bytes of a file.
pub const MAX_FILE_BYTES: usize = 16384;

/// One line of text in a fixed array. The cells past `len` are blank.
#[derive(Clone, Copy)]
pub struct Line {
    data: [char; 256],
    len: usize,
}

impl View for Line {
    type V = Seq<char>;

    closed spec fn view(&self) -> Seq<char> {
        self.data@.subrange(0, self.len as int)
    }
}

impl Line {
    /// No text, and every cell blank.
    pub closed spec fn is_blank(&self) -> bool {
        &&& self.len == 0
        &&& forall|i: int| 0 <= i < 256 ==> #[trigger] self.data[i] == ' '
    }

    pub closed spec fn wf(&self) -> bool {
        &&& self.len <= LINE_CAPACITY
        &&& forall|i: int| self.len <= i < 256 ==> #[trigger] self.data[i] == ' '
    }
}

impl Default for Line {
    fn default() -> (line: Line)
        ensures
            line.wf(),
            line@ == Seq::<char>::empty(),
            line.is_blank(),
    {
        let line = Line { data: [' ';256], len: 0 };
        assert(line@ =~= Seq::<char>::empty());
        line
    }
}

/// Where the next character goes.
#[derive(Clone, Copy)]
pub struct Cursor {
    line: usize,
    col: usize,
}

/// A text buffer of fixed size with a cursor, shown in a pane.
pub struct TextEditor {
    lines: [Line; 64],
    cursor: Cursor,
    scroll: usize,
    window: Window,
    filename: ByteString<MAX_FILENAME_BYTES>,
}

impl View for TextEditor {
    type V = Document;

    closed spec fn view(&self) -> Document {
        Document {
            lines: Seq::new(DOC_LINES as nat, |i: int| self.lines[i]@),
            line: self.cursor.line as int,
            col: self.cursor.col as int,
            scroll: self.scroll as int,
        }
    }
}

impl TextEditor {
    /// What holds of the arrays behind the document.
    pub closed spec fn storage_wf(&self) -> bool {
        forall|i: int| 0 <= i < DOC_LINES ==> (#[trigger] self.lines[i]).wf()
    }

    /// The editor's invariant. It keeps the cursor on a line of the document and never past
    /// the end of that line.
    pub open spec fn wf(&self) -> bool {
        &&& self.storage_wf()
        &&& self@.wf()
        &&& self.filename().wf()
    }

    /// The pane that the editor draws into.
    pub closed spec fn spec_window(&self) -> Window {
        self.window
    }

    /// The name of the file that the document is saved to.
    pub closed spec fn spec_filename(&self) -> ByteString<MAX_FILENAME_BYTES> {
        self.filename
    }

    #[verifier::when_used_as_spec(spec_window)]
    pub fn window(&self) -> (window: Window)
        ensures
            window == self.spec_window(),
    {
        self.window
    }

    #[verifier::when_used_as_spec(spec_filename)]
    pub fn filename(&self) -> (filename: ByteString<MAX_FILENAME_BYTES>)
        ensures
            filename == self.spec_filename(),
    {
        self.filename
    }

    /// An editor on an empty document.
    pub fn new(window: Window, filename: ByteString<MAX_FILENAME_BYTES>) -> (editor: TextEditor)
        requires
            filename.wf(),
        ensures
            editor.wf(),
            editor@ == Document::empty(),
            editor.window() == window,
            editor.filename() == filename,
    {
        let editor = TextEditor {
            lines: [Line::default();64],
            cursor: Cursor { line: 0, col: 0 },
            scroll: 0,
            window,
            filename,
        };
        assert(editor@.lines =~= Document::empty().lines);
        editor
    }

    /// The text of line `i`.
    pub fn line(&self, i: usize) -> (text: Vec<char>)
        requires
            self.wf(),
            i < DOC_LINES,
        ensures
            text@ == self@.lines[i as int],
    {
        let mut text: Vec<char> = Vec::new();
        let len = self.lines[i].len;
        let mut k: usize = 0;
        while k < len
            invariant
                i < DOC_LINES,
                len == self.lines[i as int].len,
                len <= LINE_CAPACITY,
                k <= len,
                text@ == self.lines[i as int]@.take(k as int),
            decreases len - k,
        {
            text.push(self.lines[i].data[k]);
            assert(self.lines[i as int]@.take(k + 1) =~= self.lines[i as int]@.take(k as int).push(
                self.lines[i as int].data[k as int],
            ));
            k += 1;
        }
        assert(self.lines[i as int]@.take(len as int) =~= self.lines[i as int]@);
        text
    }

    /// The cursor's line.
    pub fn cursor_line(&self) -> (line: usize)
        ensures
            line == self@.line,
    {
        self.cursor.line
    }

    /// The cursor's column.
    pub fn cursor_col(&self) -> (col: usize)
        ensures
            col == self@.col,
    {
        self.cursor.col
    }

    /// The first line considered for display.
    pub fn scroll(&self) -> (scroll: usize)
        ensures
            scroll == self@.scroll,
    {
        self.scroll
    }

    /// Brings a cursor that stands past the end of its line back to the end.
    fn sanity(&mut self)
        requires
            old(self).cursor.line < DOC_LINES,
        ensures
            final(self).lines == old(self).lines,
            final(self).cursor.line == old(self).cursor.line,
            final(self).scroll == old(self).scroll,
            final(self).window == old(self).window,
            final(self).filename == old(self).filename,
            final(self).cursor.col == if old(self).cursor.col > old(self).lines[old(self).cursor.line as int].len {
                old(self).lines[old(self).cursor.line as int].len
            } else {
                old(self).cursor.col
            },
    {
        if self.cursor.col > self.lines[self.cursor.line].len {
            self.cursor.col = self.lines[self.cursor.line].len;
        }
    }

    pub fn insert_char(&mut self, c: char)
        requires
            old(self).wf(),
        ensures
            final(self).wf(),
            final(self)@ == old(self)@.insert_char(c),
            final(self).window() == old(self).window(),
            final(self).filename() == old(self).filename(),
    {
        self.sanity();
        let line = self.cursor.line;
        let len = self.lines[line].len;
        let col = self.cursor.col;
        if len >= LINE_CAPACITY {
            assert(self@.lines =~= old(self)@.lines);
            return ;
        }
        let mut i: usize = len;
        while i > col
            invariant
                line < DOC_LINES,
                col <= i <= len < LINE_CAPACITY,
                self.cursor == old(self).cursor,
                self.scroll == old(self).scroll,
                self.window == old(self).window,
                self.filename == old(self).filename,
                self.lines[line as int].len == len,
                forall|l: int| 0 <= l < DOC_LINES && l != line ==> self.lines[l] == old(self).lines[l],
                forall|k: int| 0 <= k <= i ==> self.lines[line as int].data[k] == old(self).lines[line as int].data[k],
                forall|k: int|
                    i < k <= len ==> #[trigger] self.lines[line as int].data[k] == old(self).lines[line as int].data[k - 1],
                forall|k: int| len < k < 256 ==> self.lines[line as int].data[k] == old(self).lines[line as int].data[k],
            decreases i,
        {
            self.lines[line].data[i] = self.lines[line].data[i - 1];
            i -= 1;
        }
        self.lines[line].len += 1;
        self.lines[line].data[col] = c;
        self.cursor.col += 1;
        proof {
            let before = old(self).lines[line as int];
            let after = self.lines[line as int];
            assert(after@ =~= before@.insert(col as int, c));
            assert(after.wf());
            assert(self@.lines =~= old(self)@.lines.update(line as int, after@));
            assert forall|l: int| 0 <= l < DOC_LINES implies (#[trigger] self.lines[l]).wf() by {
                if l != line {
                    assert(self.lines[l] == old(self).lines[l]);
                }
            }
        }
    }

    pub fn newline(&mut self)
        requires
            old(self).wf(),
        ensures
            final(self).wf(),
            final(self)@ == old(self)@.newline(),
            final(self).window() == old(self).window(),
            final(self).filename() == old(self).filename(),
    {
        if self.cursor.line + 1 >= DOC_LINES {
            return ;
        }
        let line = self.cursor.line;
        let col = self.cursor.col;
        let len = self.lines[line].len;
        let next = line + 1;
        let mut i: usize = DOC_LINES - 1;
        while i >= line + 2
            invariant
                line + 1 < DOC_LINES,
                line + 1 <= i <= DOC_LINES - 1,
                self.cursor == old(self).cursor,
                self.scroll == old(self).scroll,
                self.window == old(self).window,
                self.filename == old(self).filename,
                forall|l: int| 0 <= l <= i ==> self.lines[l] == old(self).lines[l],
                forall|l: int|
                    i < l < DOC_LINES ==> #[trigger] self.lines[l] == old(self).lines[l - 1],
            decreases i,
        {
            self.lines[i] = self.lines[i - 1];
            i -= 1;
        }
        self.lines[next] = Line::default();
        let mut k: usize = col;
        while k < len
            invariant
                next == line + 1,
                next < DOC_LINES,
                col <= k <= len <= LINE_CAPACITY,
                self.cursor == old(self).cursor,
                self.scroll == old(self).scroll,
                self.window == old(self).window,
                self.filename == old(self).filename,
                forall|l: int| 0 <= l < line ==> self.lines[l] == old(self).lines[l],
                forall|l: int|
                    line + 1 < l < DOC_LINES ==> #[trigger] self.lines[l] == old(self).lines[l - 1],
                self.lines[line as int].len == len,
                self.lines[next as int].len == 0,
                forall|j: int| 0 <= j < col ==> self.lines[line as int].data[j] == old(self).lines[line as int].data[j],
                forall|j: int| col <= j < k ==> self.lines[line as int].data[j] == ' ',
                forall|j: int| k <= j < 256 ==> self.lines[line as int].data[j] == old(self).lines[line as int].data[j],
                forall|j: int|
                    0 <= j < k - col ==> #[trigger] self.lines[next as int].data[j] == old(self).lines[line as int].data[j + col],
                forall|j: int| k - col <= j < 256 ==> self.lines[next as int].data[j] == ' ',
            decreases len - k,
        {
            self.lines[next].data[k - col] = self.lines[line].data[k];
            self.lines[line].data[k] = ' ';
            k += 1;
        }
        self.lines[next].len = len - col;
        self.lines[line].len = col;
        self.cursor.line += 1;
        self.cursor.col = 0;
        proof {
            let before = old(self)@;
            let head = self.lines[line as int];
            let tail = self.lines[next as int];
            assert(old(self).lines[line as int].wf());
            assert(head@ =~= before.current().take(col as int));
            assert(tail@ =~= before.current().skip(col as int));
            assert(head.wf());
            assert(tail.wf());
            assert(self@.lines =~= before.newline().lines);
            assert forall|l: int| 0 <= l < DOC_LINES implies (#[trigger] self.lines[l]).wf() by {
                if l < line {
                    assert(self.lines[l] == old(self).lines[l]);
                } else if l > line + 1 {
                    assert(self.lines[l] == old(self).lines[l - 1]);
                }
            }
            assert forall|l: int| 0 <= l < DOC_LINES implies (#[trigger] self@.lines[l]).len()
                <= LINE_CAPACITY by {
                assert(self.lines[l].wf());
            }
        }
    }

    pub fn backspace(&mut self)
        requires
            old(self).wf(),
        ensures
            final(self).wf(),
            final(self)@ == old(self)@.backspace(),
            final(self).window() == old(self).window(),
            final(self).filename() == old(self).filename(),
    {
        if self.cursor.col == 0 {
            if self.cursor.line == 0 {
                return ;
            }
            self.cursor.line -= 1;
            let line = self.cursor.line;
            let above = self.lines[line].len;
            let next = line + 1;
            let below = self.lines[next].len;
            self.cursor.col = above;
            let mut i: usize = 0;
            while i < below && self.lines[line].len < LINE_CAPACITY
                invariant
                    next == line + 1,
                    next < DOC_LINES,
                    above <= LINE_CAPACITY,
                    below <= LINE_CAPACITY,
                    i <= below,
                    self.cursor.line == line,
                    self.cursor.col == above,
                    self.scroll == old(self).scroll,
                    self.window == old(self).window,
                    self.filename == old(self).filename,
                    forall|l: int| 0 <= l < DOC_LINES && l != line ==> self.lines[l] == old(self).lines[l],
                    self.lines[line as int].len == above + i,
                    self.lines[line as int].len <= LINE_CAPACITY,
                    forall|j: int| 0 <= j < above ==> self.lines[line as int].data[j] == old(self).lines[line as int].data[j],
                    forall|j: int|
                        above <= j < above + i ==> #[trigger] self.lines[line as int].data[j]
                            == old(self).lines[next as int].data[j - above],
                    forall|j: int| above + i <= j < 256 ==> self.lines[line as int].data[j] == ' ',
                decreases below - i,
            {
                let at = self.lines[line].len;
                self.lines[line].data[at] = self.lines[next].data[i];
                self.lines[line].len += 1;
                i += 1;
            }
            let ghost joined = self.lines[line as int];
            let mut l: usize = line + 1;
            while l < DOC_LINES - 1
                invariant
                    line + 1 <= l <= DOC_LINES - 1,
                    self.cursor.line == line,
                    self.cursor.col == above,
                    self.scroll == old(self).scroll,
                    self.window == old(self).window,
                    self.filename == old(self).filename,
                    forall|m: int| 0 <= m < line ==> self.lines[m] == old(self).lines[m],
                    self.lines[line as int] == joined,
                    forall|m: int|
                        line < m < l ==> #[trigger] self.lines[m] == old(self).lines[m + 1],
                    forall|m: int| l <= m < DOC_LINES ==> self.lines[m] == old(self).lines[m],
                decreases DOC_LINES - l,
            {
                self.lines[l] = self.lines[l + 1];
                l += 1;
            }
            self.lines[DOC_LINES - 1] = Line::default();
            proof {
                let before = old(self)@;
                assert(old(self).lines[line as int].wf());
                assert(old(self).lines[line + 1].wf());
                assert(joined@ =~= crate::text::capped(
                    before.lines[line as int] + before.lines[line + 1],
                    LINE_CAPACITY as int,
                ));
                assert(joined.wf());
                assert(self@.lines =~= before.backspace().lines);
                assert forall|m: int| 0 <= m < DOC_LINES implies (#[trigger] self.lines[m]).wf() by {
                    if m < line {
                        assert(self.lines[m] == old(self).lines[m]);
                    } else if line < m < DOC_LINES - 1 {
                        assert(self.lines[m] == old(self).lines[m + 1]);
                    }
                }
                assert forall|m: int| 0 <= m < DOC_LINES implies (#[trigger] self@.lines[m]).len()
                    <= LINE_CAPACITY by {
                    assert(self.lines[m].wf());
                }
            }
        } else {
            self.cursor.col -= 1;
            let line = self.cursor.line;
            let col = self.cursor.col;
            let len = self.lines[line].len;
            let mut i: usize = col;
            while i < len - 1
                invariant
                    line < DOC_LINES,
                    col <= i <= len - 1,
                    len <= LINE_CAPACITY,
                    self.cursor.line == line,
                    self.cursor.col == col,
                    self.scroll == old(self).scroll,
                    self.window == old(self).window,
                    self.filename == old(self).filename,
                    forall|l: int| 0 <= l < DOC_LINES && l != line ==> self.lines[l] == old(self).lines[l],
                    self.lines[line as int].len == len,
                    forall|j: int| 0 <= j < col ==> self.lines[line as int].data[j] == old(self).lines[line as int].data[j],
                    forall|j: int|
                        col <= j < i ==> #[trigger] self.lines[line as int].data[j] == old(self).lines[line as int].data[j + 1],
                    forall|j: int| i <= j < 256 ==> self.lines[line as int].data[j] == old(self).lines[line as int].data[j],
                decreases len - i,
            {
                self.lines[line].data[i] = self.lines[line].data[i + 1];
                i += 1;
            }
            self.lines[line].data[len - 1] = ' ';
            self.lines[line].len -= 1;
            proof {
                let before = old(self).lines[line as int];
                let after = self.lines[line as int];
                assert(before.wf());
                assert(after@ =~= before@.remove(col as int));
                assert(after.wf());
                assert(self@.lines =~= old(self)@.lines.update(line as int, after@));
                assert forall|l: int| 0 <= l < DOC_LINES implies (#[trigger] self.lines[l]).wf() by {
                    if l != line {
                        assert(self.lines[l] == old(self).lines[l]);
                    }
                }
            }
        }
    }

    pub fn arrow_left(&mut self)
        requires
            old(self).wf(),
        ensures
            final(self).wf(),
            final(self)@ == old(self)@.arrow_left(),
            final(self).window() == old(self).window(),
            final(self).filename() == old(self).filename(),
    {
        if self.cursor.col == 0 {
            if self.cursor.line == 0 {
                return ;
            } else {
                self.cursor.line -= 1;
                self.cursor.col = self.lines[self.cursor.line].len;
            }
        } else {
            self.cursor.col -= 1;
        }
    }

    pub fn arrow_right(&mut self)
        requires
            old(self).wf(),
        ensures
            final(self).wf(),
            final(self)@ == old(self)@.arrow_right(),
            final(self).window() == old(self).window(),
            final(self).filename() == old(self).filename(),
    {
        if self.cursor.col == self.lines[self.cursor.line].len {
            if self.cursor.line == DOC_LINES - 1 {
                return ;
            } else {
                self.cursor.line += 1;
                self.cursor.col = 0;
            }
        } else {
            self.cursor.col += 1;
        }
    }

    pub fn arrow_up(&mut self)
        requires
            old(self).wf(),
        ensures
            final(self).wf(),
            final(self)@ == old(self)@.arrow_up(),
            final(self).window() == old(self).window(),
            final(self).filename() == old(self).filename(),
    {
        if self.cursor.line == 0 {
            return ;
        } else {
            self.cursor.line -= 1;
            let len = self.lines[self.cursor.line].len;
            if len < self.cursor.col {
                self.cursor.col = len;
            }
        }
    }

    pub fn arrow_down(&mut self)
        requires
            old(self).wf(),
        ensures
            final(self).wf(),
            final(self)@ == old(self)@.arrow_down(),
            final(self).window() == old(self).window(),
            final(self).filename() == old(self).filename(),
    {
        if self.cursor.line == DOC_LINES - 1 {
            return ;
        } else {
            self.cursor.line += 1;
            let len = self.lines[self.cursor.line].len;
            if len < self.cursor.col {
                self.cursor.col = len;
            }
        }
    }

    /// Writes the document into `buf` as it is saved, and returns the number of bytes that
    /// make up the saved document. Every line goes out followed by a newline byte until the
    /// buffer is full; the newline bytes at the end of what was written do not count.
    pub fn dump(&self, buf: &mut [u8]) -> (n: usize)
        requires
            self.wf(),
        ensures
            final(buf)@.len() == old(buf)@.len(),
            final(buf)@ == capped(serialized(self@.lines, DOC_LINES as int), old(buf)@.len() as int)
                + old(buf)@.skip(
                capped(serialized(self@.lines, DOC_LINES as int), old(buf)@.len() as int).len() as int,
            ),
            n == self@.dump(old(buf)@.len() as int).len(),
            n <= old(buf)@.len(),
            final(buf)@.take(n as int) == self@.dump(old(buf)@.len() as int),
    {
        let ghost full = serialized(self@.lines, DOC_LINES as int);
        let ghost cap = old(buf)@.len() as int;
        let mut j: usize = 0;
        let mut i: usize = 0;
        let mut room = true;
        while room && i < DOC_LINES
            invariant
                self.wf(),
                i <= DOC_LINES,
                full == serialized(self@.lines, DOC_LINES as int),
                cap == old(buf)@.len(),
                buf@.len() == cap,
                j <= cap,
                room ==> j == serialized(self@.lines, i as int).len(),
                room ==> buf@.take(j as int) == serialized(self@.lines, i as int),
                !room ==> j == cap && cap < full.len() && buf@ == full.take(cap),
                buf@.skip(j as int) == old(buf)@.skip(j as int),
            decreases DOC_LINES - i, room as int,
        {
            let len = self.lines[i].len;
            let ghost head = serialized(self@.lines, i as int);
            let ghost text = line_bytes(self@.lines[i as int]);
            proof {
                lemma_serialized_prefix(self@.lines, i as int + 1, DOC_LINES as int);
                assert(self.lines[i as int].wf());
            }
            let mut k: usize = 0;
            while room && k < len
                invariant
                    self.wf(),
                    i < DOC_LINES,
                    len == self.lines[i as int].len,
                    len == text.len(),
                    k <= len,
                    head == serialized(self@.lines, i as int),
                    text == line_bytes(self@.lines[i as int]),
                    full.len() >= head.len() + text.len() + 1,
                    full.take((head.len() + text.len() + 1) as int) == head + text + seq![NEWLINE],
                    cap == old(buf)@.len(),
                    buf@.len() == cap,
                    j <= cap,
                    room ==> j == head.len() + k,
                    room ==> buf@.take(j as int) == head + text.take(k as int),
                    !room ==> j == cap && cap < full.len() && buf@ == full.take(cap),
                    buf@.skip(j as int) == old(buf)@.skip(j as int),
                decreases len - k, room as int,
            {
                if j >= buf.len() {
                    room = false;
                    proof {
                        assert(buf@.take(j as int) =~= buf@);
                        assert(full.take(cap) =~= (head + text + seq![NEWLINE]).take(cap));
                        assert(buf@ =~= full.take(cap));
                    }
                } else {
                    let ghost before = buf@;
                    buf[j] = char_byte(self.lines[i].data[k]);
                    proof {
                        assert(text[k as int] == low_byte(self@.lines[i as int][k as int]));
                        assert(buf@.take(j + 1) =~= before.take(j as int).push(text[k as int]));
                        assert(text.take(k + 1) =~= text.take(k as int).push(text[k as int]));
                        assert(buf@.take(j + 1) =~= head + text.take(k + 1));
                        assert(buf@.skip(j + 1) =~= before.skip(j + 1));
                        assert(before.skip(j + 1) =~= before.skip(j as int).skip(1));
                        assert(old(buf)@.skip(j + 1) =~= old(buf)@.skip(j as int).skip(1));
                    }
                    j += 1;
                    k += 1;
                }
            }
            if room {
                assert(text.take(len as int) =~= text);
                if j >= buf.len() {
                    room = false;
                    proof {
                        assert(buf@.take(j as int) =~= buf@);
                        assert(full.take(cap) =~= (head + text + seq![NEWLINE]).take(cap));
                        assert(buf@ =~= full.take(cap));
                    }
                } else {
                    let ghost before = buf@;
                    buf[j] = NEWLINE;
                    proof {
                        assert(buf@.take(j + 1) =~= before.take(j as int).push(NEWLINE));
                        assert(buf@.take(j + 1) =~= head + text + seq![NEWLINE]);
                        assert(buf@.skip(j + 1) =~= before.skip(j + 1));
                        assert(before.skip(j + 1) =~= before.skip(j as int).skip(1));
                        assert(old(buf)@.skip(j + 1) =~= old(buf)@.skip(j as int).skip(1));
                    }
                    j += 1;
                    i += 1;
                }
            }
        }
        let ghost written = capped(full, cap);
        proof {
            if room {
                assert(buf@.take(j as int) == full);
                assert(written == full);
            } else {
                assert(buf@.take(j as int) =~= buf@);
                assert(written == full.take(cap));
            }
            assert(buf@.take(j as int) == written);
            assert(buf@ =~= written + old(buf)@.skip(written.len() as int));
        }
        let ghost end = j;
        while j > 0 && buf[j - 1] == NEWLINE
            invariant
                j <= end <= buf@.len(),
                buf@.take(end as int) == written,
                trimmed(buf@.take(j as int)) == trimmed(written),
            decreases j,
        {
            proof {
                assert(buf@.take(j as int).drop_last() =~= buf@.take(j - 1));
            }
            j -= 1;
        }
        proof {
            assert(trimmed(buf@.take(j as int)) == buf@.take(j as int));
        }
        j
    }

    /// The saved form of the document, as `dump` writes it into a buffer of
    /// `MAX_FILE_BYTES` bytes.
    pub fn saved(&self) -> (data: Vec<u8>)
        requires
            self.wf(),
        ensures
            data@ == self@.dump(MAX_FILE_BYTES as int),
    {
        let mut buffer = [0u8;16384];
        let n = self.dump(&mut buffer);
        let mut data: Vec<u8> = Vec::new();
        let mut i: usize = 0;
        while i < n
            invariant
                i <= n <= 16384,
                data@ == buffer@.take(i as int),
            decreases n - i,
        {
            data.push(buffer[i]);
            assert(buffer@.take(i + 1) =~= buffer@.take(i as int).push(buffer@[i as int]));
            i += 1;
        }
        data
    }

    /// Types the bytes of a file into the document: a newline byte breaks the line, any
    /// other byte goes in as the character with that code.
    pub fn replay(&mut self, bytes: &[u8])
        requires
            old(self).wf(),
        ensures
            final(self).wf(),
            final(self)@ == old(self)@.replay(bytes@),
            final(self).window() == old(self).window(),
            final(self).filename() == old(self).filename(),
    {
        let mut i: usize = 0;
        while i < bytes.len()
            invariant
                i <= bytes.len(),
                self.wf(),
                self@ == old(self)@.replay(bytes@.take(i as int)),
                self.window() == old(self).window(),
                self.filename() == old(self).filename(),
            decreases bytes.len() - i,
        {
            let b = bytes[i];
            proof {
                assert(bytes@.take(i + 1).drop_last() =~= bytes@.take(i as int));
                assert(bytes@.take(i + 1).last() == b);
            }
            if b == NEWLINE {
                self.newline();
            } else {
                self.insert_char(byte_char(b));
            }
            i += 1;
        }
        assert(bytes@.take(bytes@.len() as int) =~= bytes@);
    }

    /// Moves the scroll line so that the display follows the cursor.
    pub fn keep_cursor_on_screen(&mut self)
        requires
            old(self).wf(),
            old(self).window().wf(),
        ensures
            final(self).wf(),
            final(self)@ == old(self)@.keep_cursor_on_screen(
                old(self).window().spec_width(),
                old(self).window().spec_height(),
            ),
            final(self).window() == old(self).window(),
            final(self).filename() == old(self).filename(),
    {
        let width = self.window.width();
        let height = self.window.height();
        let mut total: usize = 0;
        let mut line: usize = self.scroll;
        while line <= self.cursor.line
            invariant
                self.wf(),
                1 <= width <= 256,
                self.scroll <= line,
                line <= self.cursor.line + 1 || line == self.scroll,
                total == self@.rows_between(self.scroll as int, line as int, width as int),
                total <= (line - self.scroll) * 256,
            decreases self.cursor.line + 1 - line,
        {
            let rows_needed = if line == self.cursor.line {
                self.cursor.col / width + 1
            } else {
                self.lines[line].len / width + 1
            };
            proof {
                assert(self.lines[line as int].wf());
                assert(self@.lines[line as int].len() == self.lines[line as int].len);
                assert(rows_needed == self@.rows_of(line as int, width as int));
                assert(rows_needed <= 256) by {
                    lemma_rows_bounded(self.lines[line as int].len as int, width as int);
                    lemma_rows_bounded(self.cursor.col as int, width as int);
                }
                assert((line + 1 - self.scroll) * 256 == (line - self.scroll) * 256 + 256)
                    by (nonlinear_arith);
            }
            total += rows_needed;
            line += 1;
        }
        proof {
            if self.scroll > self.cursor.line {
                assert(line == self.scroll);
            } else {
                assert(line == self.cursor.line + 1);
                assert((line - self.scroll) * 256 <= 64 * 256) by (nonlinear_arith)
                    requires
                        0 <= line - self.scroll <= 64,
                ;
            }
        }
        if total == 0 {
            self.scroll = self.cursor.line;
        } else if total >= height {
            proof {
                assert(self.scroll <= self.cursor.line) by {
                    if self.scroll > self.cursor.line {
                        assert(self@.rows_between(self.scroll as int, self.scroll as int, width as int)
                            == 0);
                    }
                }
            }
            self.scroll += total - height;
        }
    }

    /// Appends the writes that show line `line` from row `y_base` of the pane on, as far as
    /// the pane reaches, and returns the number of rows that the line takes.
    fn drawline(&self, line: usize, y_base: usize, cells: &mut Vec<Cell>) -> (rows: usize)
        requires
            self.wf(),
            self.window().wf(),
            line < DOC_LINES,
            y_base < self.window().spec_height(),
        ensures
            rows == rows_needed(self@.lines[line as int].len() as int, self.window().spec_width()),
            1 <= rows <= 256,
            final(cells)@.len() == old(cells)@.len() + self.window().spec_width() * min(
                rows as int,
                self.window().spec_height() - y_base,
            ),
            final(cells)@.take(old(cells)@.len() as int) == old(cells)@,
            forall|k: int|
                old(cells)@.len() <= k < final(cells)@.len() ==> #[trigger] final(cells)@[k]
                    == line_cell(self.window(), self@, line as int, y_base as int, k - old(cells)@.len()),
    {
        let gray = ColorCode::new(Color::LightGray, Color::Black);
        let gray_inv = ColorCode::new(Color::Black, Color::LightGray);
        let width = self.window.width();
        let height = self.window.height();
        let ghost base = old(cells)@.len();
        proof {
            assert(self.lines[line as int].wf());
            lemma_rows_bounded(self.lines[line as int].len as int, width as int);
        }
        let rows = self.lines[line].len / width + 1;
        assert(rows * width <= 256 * 256) by (nonlinear_arith)
            requires
                1 <= rows <= 256,
                1 <= width <= 256,
        ;
        let len = rows * width;
        let mut i: usize = 0;
        let mut room = true;
        while room && i < len
            invariant
                self.wf(),
                self.window().wf(),
                line < DOC_LINES,
                width == self.window().spec_width(),
                height == self.window().spec_height(),
                y_base < height,
                len == rows * width,
                1 <= rows <= 256,
                gray == plain(),
                gray_inv == inverse(),
                i <= len,
                base == old(cells)@.len(),
                cells@.len() == base + i,
                cells@.take(base as int) == old(cells)@,
                room ==> i <= width * (height - y_base),
                !room ==> i == width * (height - y_base) && height - y_base < rows,
                forall|k: int|
                    base <= k < base + i ==> #[trigger] cells@[k] == line_cell(
                        self.window(),
                        self@,
                        line as int,
                        y_base as int,
                        k - base,
                    ),
            decreases len - i, room as int,
        {
            proof {
                lemma_cell_position(i as int, width as int, rows as int);
            }
            let y = i / width + y_base;
            let x = i % width;
            let c = if i < 256 {
                self.lines[line].data[i]
            } else {
                ' '
            };
            if y >= height {
                room = false;
                proof {
                    lemma_first_outside(i as int, width as int, height - y_base);
                }
            } else {
                let ghost before = cells@;
                let color = if line == self.cursor.line && i == self.cursor.col {
                    gray_inv
                } else {
                    gray
                };
                self.window.plot_to(cells, c, x as u8, y as u8, color);
                let ghost cell = cells@.last();
                proof {
                    assert(self.lines[line as int].wf());
                    assert(self@.lines[line as int].len() == self.lines[line as int].len);
                    if i < self.lines[line as int].len {
                        assert(self@.lines[line as int][i as int] == c);
                    } else {
                        assert(c == ' ');
                    }
                    assert(low_byte(' ') == BLANK);
                    assert(cell == line_cell(self.window(), self@, line as int, y_base as int, i as int));
                    assert(cells@.take(base as int) =~= before.take(base as int));
                    assert forall|k: int| base <= k < base + i + 1 implies #[trigger] cells@[k]
                        == line_cell(self.window(), self@, line as int, y_base as int, k - base) by {
                        if k < base + i {
                            assert(cells@[k] == before[k]);
                        }
                    }
                    lemma_inside(i as int, width as int, height - y_base);
                }
                i += 1;
            }
        }
        proof {
            if room {
                assert(i == len);
                if rows > height - y_base {
                    lemma_mul_strict(width as int, height - y_base, rows as int);
                }
                assert(rows * width == width * rows) by (nonlinear_arith);
            }
        }
        rows
    }

    /// Appends the writes that blank row `y` of the pane.
    fn clear_y(&self, y: u8, cells: &mut Vec<Cell>)
        requires
            self.window().wf(),
            y < self.window().spec_height(),
        ensures
            final(cells)@.len() == old(cells)@.len() + self.window().spec_width(),
            final(cells)@.take(old(cells)@.len() as int) == old(cells)@,
            forall|k: int|
                old(cells)@.len() <= k < final(cells)@.len() ==> #[trigger] final(cells)@[k]
                    == self.window().cell(BLANK, k - old(cells)@.len(), y as int, plain()),
    {
        let gray = ColorCode::new(Color::LightGray, Color::Black);
        let width = self.window.width();
        let ghost base = old(cells)@.len();
        let mut col: usize = 0;
        while col < width
            invariant
                self.window().wf(),
                width == self.window().spec_width(),
                y < self.window().spec_height(),
                gray == plain(),
                col <= width,
                base == old(cells)@.len(),
                cells@.len() == base + col,
                cells@.take(base as int) == old(cells)@,
                forall|k: int|
                    base <= k < base + col ==> #[trigger] cells@[k] == self.window().cell(
                        BLANK,
                        k - base,
                        y as int,
                        plain(),
                    ),
            decreases width - col,
        {
            let ghost before = cells@;
            self.window.plot_to(cells, ' ', col as u8, y, gray);
            proof {
                assert(cells@.take(base as int) =~= before.take(base as int));
                assert forall|k: int| base <= k < base + col + 1 implies #[trigger] cells@[k]
                    == self.window().cell(BLANK, k - base, y as int, plain()) by {
                    if k < base + col {
                        assert(cells@[k] == before[k]);
                    }
                }
            }
            col += 1;
        }
    }

    /// Makes the display follow the cursor and returns the writes that show the pane, row
    /// by row: the lines from the scroll line on, wrapped at the pane's width, with the
    /// cursor's cell in inverse colours and blanks wherever there is no text.
    pub fn draw(&mut self) -> (cells: Vec<Cell>)
        requires
            old(self).wf(),
            old(self).window().wf(),
        ensures
            final(self).wf(),
            final(self)@ == old(self)@.keep_cursor_on_screen(
                old(self).window().spec_width(),
                old(self).window().spec_height(),
            ),
            final(self).window() == old(self).window(),
            final(self).filename() == old(self).filename(),
            shows(cells@, final(self).window(), final(self)@, final(self).window().spec_height()),
    {
        self.keep_cursor_on_screen();
        let width = self.window.width();
        let height = self.window.height();
        let mut cells: Vec<Cell> = Vec::new();
        let mut used: usize = 0;
        let mut line: usize = self.scroll;
        proof {
            assert(width * 0 == 0) by (nonlinear_arith);
        }
        while used < height && line < DOC_LINES
            invariant
                self.wf(),
                self.window().wf(),
                width == self.window().spec_width(),
                height == self.window().spec_height(),
                self.scroll <= line,
                used <= height + 256,
                shows(cells@, self.window(), self@, min(used as int, height as int)),
                rest_from(self@, line as int, used as int, width as int),
            decreases DOC_LINES - line,
        {
            let ghost before = cells@;
            let rows = self.drawline(line, used, &mut cells);
            proof {
                lemma_line_drawn(self@, self.window(), before, cells@, line as int, used as int);
            }
            used += rows;
            line += 1;
        }
        proof {
            if used < height {
                lemma_rest_is_blank(self@, line as int, used as int, width as int);
            }
        }
        while used < height
            invariant
                self.wf(),
                self.window().wf(),
                width == self.window().spec_width(),
                height == self.window().spec_height(),
                shows(cells@, self.window(), self@, min(used as int, height as int)),
                used < height ==> forall|x: int, y: int|
                    used <= y ==> #[trigger] self@.shown(x, y, width as int) == blank_glyph(),
            decreases height - used,
        {
            let ghost before = cells@;
            self.clear_y(used as u8, &mut cells);
            proof {
                lemma_row_cleared(self@, self.window(), before, cells@, used as int);
            }
            used += 1;
        }
        cells
    }
}

/// The first `a` lines go out before the rest.
pub proof fn lemma_serialized_prefix(lines: Seq<Seq<char>>, a: int, b: int)
    requires
        0 <= a <= b,
    ensures
        serialized(lines, a).len() <= serialized(lines, b).len(),
        serialized(lines, b).take(serialized(lines, a).len() as int) == serialized(lines, a),
    decreases b - a,
{
    if a < b {
        lemma_serialized_prefix(lines, a, b - 1);
        let mid = serialized(lines, b - 1);
        let whole = serialized(lines, b);
        assert(whole == mid + line_bytes(lines[b - 1]) + seq![NEWLINE]);
        assert(whole.take(serialized(lines, a).len() as int) =~= mid.take(
            serialized(lines, a).len() as int,
        ));
    } else {
        assert(serialized(lines, b).take(serialized(lines, a).len() as int) =~= serialized(lines, a));
    }
}

/// A line of at most 255 characters takes at most 256 rows, whatever the width.
pub proof fn lemma_rows_bounded(len: int, width: int)
    requires
        0 <= len <= LINE_CAPACITY,
        1 <= width,
    ensures
        1 <= rows_needed(len, width) <= 256,
{
    assert(0 <= len / width <= len) by (nonlinear_arith)
        requires
            0 <= len,
            1 <= width,
    ;
}

/// The write for position `t` of line `line` when the line starts in row `y_base` of the
/// pane.
pub open spec fn line_cell(window: Window, doc: Document, line: int, y_base: int, t: int) -> Cell {
    paint(
        window,
        doc.glyph(line, t),
        t % window.spec_width(),
        y_base + t / window.spec_width(),
    )
}

/// `cells` are the writes for the first `rows` rows of the pane, row by row and from left to
/// right within a row, each showing what the document has at that place.
pub open spec fn shows(cells: Seq<Cell>, window: Window, doc: Document, rows: int) -> bool {
    &&& cells.len() == window.spec_width() * rows
    &&& forall|k: int|
        0 <= k < cells.len() ==> #[trigger] cells[k] == paint(
            window,
            doc.shown(k % window.spec_width(), k / window.spec_width(), window.spec_width()),
            k % window.spec_width(),
            k / window.spec_width(),
        )
}

/// From row `used` on, the pane shows the lines from `line` on.
pub open spec fn rest_from(doc: Document, line: int, used: int, width: int) -> bool {
    forall|x: int, y: int|
        used <= y ==> #[trigger] doc.shown(x, y, width) == doc.glyph_from(line, x, y - used, width)
}

/// Once line `line` has been drawn from row `used` on, the rows down to its last one show
/// the document, and the rows after them show the lines that follow.
pub proof fn lemma_line_drawn(
    doc: Document,
    window: Window,
    before: Seq<Cell>,
    after: Seq<Cell>,
    line: int,
    used: int,
)
    requires
        window.wf(),
        0 <= line < DOC_LINES,
        0 <= used < window.spec_height(),
        shows(before, window, doc, used),
        rest_from(doc, line, used, window.spec_width()),
        after.len() == before.len() + window.spec_width() * min(
            rows_needed(doc.lines[line].len() as int, window.spec_width()),
            window.spec_height() - used,
        ),
        after.take(before.len() as int) == before,
        forall|k: int|
            before.len() <= k < after.len() ==> #[trigger] after[k] == line_cell(
                window,
                doc,
                line,
                used,
                k - before.len(),
            ),
    ensures
        shows(
            after,
            window,
            doc,
            min(
                used + rows_needed(doc.lines[line].len() as int, window.spec_width()),
                window.spec_height(),
            ),
        ),
        rest_from(
            doc,
            line + 1,
            used + rows_needed(doc.lines[line].len() as int, window.spec_width()),
            window.spec_width(),
        ),
{
    let w = window.spec_width();
    let h = window.spec_height();
    let rows = rows_needed(doc.lines[line].len() as int, w);
    let drawn = min(rows, h - used);
    assert(rows >= 1) by {
        assert(0 <= doc.lines[line].len() as int / w) by (nonlinear_arith)
            requires
                0 <= doc.lines[line].len() as int,
                1 <= w,
        ;
    }
    assert(w * (used + drawn) == w * used + w * drawn) by (nonlinear_arith);
    assert(min(used + rows, h) == used + drawn);
    assert forall|k: int| 0 <= k < after.len() implies #[trigger] after[k] == paint(
        window,
        doc.shown(k % w, k / w, w),
        k % w,
        k / w,
    ) by {
        if k < before.len() {
            assert(after.take(before.len() as int)[k] == after[k]);
        } else {
            let t = k - before.len();
            assert(drawn * w == w * drawn) by (nonlinear_arith);
            lemma_cell_position(t, w, drawn);
            lemma_shift_rows(t, used, w);
            assert(doc.shown(k % w, k / w, w) == doc.glyph_from(line, k % w, k / w - used, w));
            assert(doc.glyph_from(line, t % w, t / w, w) == doc.glyph(line, (t / w) * w + t % w));
        }
    }
    assert forall|x: int, y: int| used + rows <= y implies #[trigger] doc.shown(x, y, w)
        == doc.glyph_from(line + 1, x, y - (used + rows), w) by {
        assert(doc.shown(x, y, w) == doc.glyph_from(line, x, y - used, w));
    }
}

/// Below the last line of the document, and from a line on that takes no row, the pane is
/// blank.
pub proof fn lemma_rest_is_blank(doc: Document, line: int, used: int, width: int)
    requires
        line >= DOC_LINES,
        rest_from(doc, line, used, width),
    ensures
        forall|x: int, y: int| used <= y ==> #[trigger] doc.shown(x, y, width) == blank_glyph(),
{
    assert forall|x: int, y: int| used <= y implies #[trigger] doc.shown(x, y, width)
        == blank_glyph() by {
        assert(doc.shown(x, y, width) == doc.glyph_from(line, x, y - used, width));
    }
}

/// Once a blank row has been written, the rows down to it show the document.
pub proof fn lemma_row_cleared(
    doc: Document,
    window: Window,
    before: Seq<Cell>,
    after: Seq<Cell>,
    used: int,
)
    requires
        window.wf(),
        0 <= used < window.spec_height(),
        shows(before, window, doc, used),
        forall|x: int, y: int|
            used <= y ==> #[trigger] doc.shown(x, y, window.spec_width()) == blank_glyph(),
        after.len() == before.len() + window.spec_width(),
        after.take(before.len() as int) == before,
        forall|k: int|
            before.len() <= k < after.len() ==> #[trigger] after[k] == window.cell(
                BLANK,
                k - before.len(),
                used,
                plain(),
            ),
    ensures
        shows(after, window, doc, used + 1),
{
    let w = window.spec_width();
    assert(w * (used + 1) == w * used + w) by (nonlinear_arith);
    assert forall|k: int| 0 <= k < after.len() implies #[trigger] after[k] == paint(
        window,
        doc.shown(k % w, k / w, w),
        k % w,
        k / w,
    ) by {
        if k < before.len() {
            assert(after.take(before.len() as int)[k] == after[k]);
        } else {
            let t = k - before.len();
            lemma_shift_rows(t, used, w);
            vstd::arithmetic::div_mod::lemma_small_mod(t as nat, w as nat);
            vstd::arithmetic::div_mod::lemma_basic_div(t, w);
            assert(doc.shown(k % w, k / w, w) == blank_glyph());
        }
    }
}

} // verus!
