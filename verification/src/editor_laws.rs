use vstd::prelude::*;
use crate::document::{
    line_bytes, rows_needed, serialized, trimmed, Document, DOC_LINES, LINE_CAPACITY,
};
use crate::screen::NEWLINE;
use crate::text::low_byte;

verus! {

/// One keystroke of plain typing.
pub enum Edit {
    Insert(char),
    Backspace,
}

/// A string of any length with a cursor in it.
pub struct Typed {
    pub text: Seq<char>,
    pub pos: int,
}

impl Typed {
    pub open spec fn apply(self, edit: Edit) -> Typed {
        match edit {
            Edit::Insert(c) => Typed { text: self.text.insert(self.pos, c), pos: self.pos + 1 },
            Edit::Backspace => if self.pos > 0 {
                Typed { text: self.text.remove(self.pos - 1), pos: self.pos - 1 }
            } else {
                self
            },
        }
    }
}

/// The string that `edits` leave when they are typed into an empty string.
pub open spec fn typed(edits: Seq<Edit>) -> Typed
    decreases edits.len(),
{
    if edits.len() == 0 {
        Typed { text: Seq::<char>::empty(), pos: 0 }
    } else {
        typed(edits.drop_last()).apply(edits.last())
    }
}

/// At no point of `edits` is the string longer than a line can be.
pub open spec fn fits_a_line(edits: Seq<Edit>) -> bool
    decreases edits.len(),
{
    typed(edits).text.len() <= LINE_CAPACITY && (edits.len() > 0 ==> fits_a_line(
        edits.drop_last(),
    ))
}

impl Document {
    pub open spec fn apply(self, edit: Edit) -> Document {
        match edit {
            Edit::Insert(c) => self.insert_char(c),
            Edit::Backspace => self.backspace(),
        }
    }

    /// The document after `edits` have been made in it, one after the other.
    pub open spec fn edited(self, edits: Seq<Edit>) -> Document
        decreases edits.len(),
    {
        if edits.len() == 0 {
            self
        } else {
            self.edited(edits.drop_last()).apply(edits.last())
        }
    }
}

/// Typing and deleting in an empty document does to its first line what the same keystrokes
/// do to a string without a bound, as long as that string never grows past the capacity of
/// a line. The cursor stays on the first line, at the string's cursor, and the other lines
/// stay empty.
pub proof fn law_typing_matches_string(edits: Seq<Edit>)
    requires
        fits_a_line(edits),
    ensures
        Document::empty().edited(edits).wf(),
        Document::empty().edited(edits).lines[0] == typed(edits).text,
        Document::empty().edited(edits).line == 0,
        Document::empty().edited(edits).col == typed(edits).pos,
        forall|i: int|
            1 <= i < DOC_LINES ==> #[trigger] Document::empty().edited(edits).lines[i]
                == Seq::<char>::empty(),
        0 <= typed(edits).pos <= typed(edits).text.len(),
    decreases edits.len(),
{
    if edits.len() > 0 {
        law_typing_matches_string(edits.drop_last());
        let before = Document::empty().edited(edits.drop_last());
        let after = before.apply(edits.last());
        let s = typed(edits.drop_last());
        match edits.last() {
            Edit::Insert(c) => {
                assert(s.text.insert(s.pos, c).len() == s.text.len() + 1);
                assert(after.lines =~= before.lines.update(0, s.text.insert(s.pos, c)));
            },
            Edit::Backspace => {
                if s.pos > 0 {
                    assert(after.lines =~= before.lines.update(0, s.text.remove(s.pos - 1)));
                }
            },
        }
    }
}

/// The rows of the lines from `a` to `c` are those from `a` to `b` and those from `b` to
/// `c`.
pub proof fn lemma_rows_split(doc: Document, a: int, b: int, c: int, width: int)
    requires
        a <= b <= c,
    ensures
        doc.rows_between(a, c, width) == doc.rows_between(a, b, width) + doc.rows_between(
            b,
            c,
            width,
        ),
    decreases c - b,
{
    if b < c {
        lemma_rows_split(doc, a, b, c - 1, width);
    }
}

/// Every line takes at least one row.
pub proof fn lemma_rows_at_least_lines(doc: Document, a: int, b: int, width: int)
    requires
        doc.wf(),
        0 <= a <= b <= DOC_LINES,
        1 <= width,
    ensures
        doc.rows_between(a, b, width) >= b - a,
    decreases b - a,
{
    if a < b {
        lemma_rows_at_least_lines(doc, a, b - 1, width);
        let len = if b - 1 == doc.line {
            doc.col
        } else {
            doc.lines[b - 1].len() as int
        };
        assert(0 <= len / width) by (nonlinear_arith)
            requires
                0 <= len,
                1 <= width,
        ;
    }
}

/// What it takes for the display to be able to follow the cursor. Seen from the cursor's
/// own line, the cursor's row must lie within the pane. Seen from a scroll line above, the
/// rows in excess of the pane's height must not be more than the lines above the cursor,
/// because the scroll line moves down by one line for each row in excess.
pub open spec fn can_follow(doc: Document, width: int, height: int) -> bool {
    let total = doc.rows_through_cursor(width);
    &&& doc.scroll > doc.line ==> doc.col / width < height
    &&& doc.scroll <= doc.line && total >= height ==> total - height <= doc.line - doc.scroll
}

/// After the display has been made to follow the cursor, the scroll line is not below the
/// cursor and the cursor's row lies within the pane, wherever the display can follow the
/// cursor at all.
pub proof fn law_cursor_on_screen(doc: Document, width: int, height: int)
    requires
        doc.wf(),
        1 <= width,
        1 <= height,
        can_follow(doc, width, height),
    ensures
        doc.keep_cursor_on_screen(width, height).scroll <= doc.line,
        0 <= doc.keep_cursor_on_screen(width, height).cursor_row(width) < height,
{
    let after = doc.keep_cursor_on_screen(width, height);
    let total = doc.rows_through_cursor(width);
    assert(0 <= doc.col / width) by (nonlinear_arith)
        requires
            0 <= doc.col,
            1 <= width,
    ;
    assert forall|a: int, b: int| after.rows_between(a, b, width) == doc.rows_between(
        a,
        b,
        width,
    ) by {
        lemma_rows_same(doc, after, a, b, width);
    }
    if doc.scroll > doc.line {
        assert(total == 0);
        assert(after.scroll == doc.line);
        assert(doc.rows_between(doc.line, doc.line, width) == 0);
        assert(after.rows_through_cursor(width) == doc.rows_of(doc.line, width));
    } else {
        lemma_rows_at_least_lines(doc, doc.scroll, doc.line + 1, width);
        if total >= height {
            let k = total - height;
            lemma_rows_split(doc, doc.scroll, doc.scroll + k, doc.line + 1, width);
            lemma_rows_at_least_lines(doc, doc.scroll, doc.scroll + k, width);
            lemma_rows_at_least_lines(doc, doc.scroll + k, doc.line + 1, width);
        }
    }
}

/// Rows depend on the text and the cursor only, not on the scroll line.
pub proof fn lemma_rows_same(doc: Document, other: Document, a: int, b: int, width: int)
    requires
        doc.lines == other.lines,
        doc.line == other.line,
        doc.col == other.col,
    ensures
        doc.rows_between(a, b, width) == other.rows_between(a, b, width),
    decreases b - a,
{
    if a < b {
        lemma_rows_same(doc, other, a, b - 1, width);
    }
}

/// Every character of the text comes back from a file as it went in: its code is below 256
/// and it is no newline.
pub open spec fn survives_saving(lines: Seq<Seq<char>>) -> bool {
    forall|l: int, i: int|
        0 <= l < lines.len() && 0 <= i < lines[l].len() ==> {
            &&& (#[trigger] lines[l][i]) as u32 <= 0xff
            &&& lines[l][i] != '\n'
        }
}

/// The cursor stands at the end of its line and the lines below it are empty: the state of
/// a document while a file is typed into it.
pub open spec fn at_end_of_text(doc: Document) -> bool {
    &&& doc.wf()
    &&& doc.col == doc.current().len()
    &&& forall|i: int| doc.line < i < DOC_LINES ==> (#[trigger] doc.lines[i]).len() == 0
}

/// A byte typed at the end of the text leaves the cursor at the end of the text, and a
/// newline byte typed there leaves every line as it was.
pub proof fn lemma_byte_at_end(doc: Document, b: u8)
    requires
        at_end_of_text(doc),
    ensures
        at_end_of_text(doc.replay_byte(b)),
        b == NEWLINE ==> doc.replay_byte(b).lines == doc.lines,
{
    let after = doc.replay_byte(b);
    if b == NEWLINE {
        if doc.line + 1 < DOC_LINES {
            assert(doc.current().take(doc.col) =~= doc.current());
            assert(doc.current().skip(doc.col) =~= Seq::<char>::empty());
            assert forall|i: int| 0 <= i < DOC_LINES implies after.lines[i] == doc.lines[i] by {
                if i > doc.line + 1 {
                    assert(doc.lines[i - 1].len() == 0);
                    assert(doc.lines[i].len() == 0);
                    assert(doc.lines[i - 1] =~= doc.lines[i]);
                } else if i == doc.line + 1 {
                    assert(doc.lines[i].len() == 0);
                    assert(after.lines[i] =~= doc.lines[i]);
                }
            }
            assert(after.lines =~= doc.lines);
        }
    } else {
        if doc.current().len() < LINE_CAPACITY {
            assert(after.lines[doc.line].len() == doc.current().len() + 1);
        }
    }
}

pub proof fn lemma_bytes_at_end(doc: Document, bytes: Seq<u8>)
    requires
        at_end_of_text(doc),
    ensures
        at_end_of_text(doc.replay(bytes)),
    decreases bytes.len(),
{
    if bytes.len() > 0 {
        lemma_bytes_at_end(doc, bytes.drop_last());
        lemma_byte_at_end(doc.replay(bytes.drop_last()), bytes.last());
    }
}

/// Newline bytes at the end of a file add nothing to the text.
pub proof fn lemma_trailing_newlines(doc: Document, bytes: Seq<u8>)
    requires
        at_end_of_text(doc),
    ensures
        doc.replay(trimmed(bytes)).lines == doc.replay(bytes).lines,
    decreases bytes.len(),
{
    if bytes.len() > 0 && bytes.last() == NEWLINE {
        lemma_trailing_newlines(doc, bytes.drop_last());
        lemma_bytes_at_end(doc, bytes.drop_last());
        lemma_byte_at_end(doc.replay(bytes.drop_last()), bytes.last());
    }
}

/// Typing one run of bytes after another is typing the two runs joined.
pub proof fn lemma_replay_concat(doc: Document, a: Seq<u8>, b: Seq<u8>)
    ensures
        doc.replay(a + b) == doc.replay(a).replay(b),
    decreases b.len(),
{
    if b.len() == 0 {
        assert(a + b =~= a);
    } else {
        lemma_replay_concat(doc, a, b.drop_last());
        assert((a + b).drop_last() =~= a + b.drop_last());
        assert((a + b).last() == b.last());
    }
}

/// Typing the first `n` bytes of a line's text into an empty line leaves these characters
/// there and the cursor behind them.
pub proof fn lemma_replay_text(doc: Document, text: Seq<char>, n: int)
    requires
        doc.wf(),
        doc.current().len() == 0,
        doc.col == 0,
        text.len() <= LINE_CAPACITY,
        0 <= n <= text.len(),
        forall|i: int| 0 <= i < text.len() ==> (#[trigger] text[i]) as u32 <= 0xff && text[i] != '\n',
    ensures
        doc.replay(line_bytes(text).take(n)) == doc.with_current(text.take(n), n),
    decreases n,
{
    let bytes = line_bytes(text).take(n);
    if n == 0 {
        assert(text.take(0) =~= doc.current());
        assert(doc.lines.update(doc.line, doc.current()) =~= doc.lines);
    } else {
        lemma_replay_text(doc, text, n - 1);
        let c = text[n - 1];
        assert(bytes.drop_last() =~= line_bytes(text).take(n - 1));
        assert(bytes.last() == low_byte(c));
        assert(low_byte(c) as char == c && low_byte(c) != NEWLINE) by {
            let v = c as u32;
            vstd::utf8::char_u32_cast(c, v);
            assert(v % 256 == v);
            assert(low_byte(c) == v);
            assert(low_byte(c) as char == v as char);
            assert(c != '\n');
        }
        let before = doc.with_current(text.take(n - 1), n - 1);
        assert(before.current() == text.take(n - 1));
        assert(text.take(n - 1).insert(n - 1, c) =~= text.take(n));
        assert(before.lines.update(doc.line, text.take(n)) =~= doc.lines.update(
            doc.line,
            text.take(n),
        ));
    }
}

/// The document that typing the first `n` lines of `lines`, each followed by a newline
/// byte, leaves: these lines, empty lines after them, and the cursor behind the text.
pub open spec fn typed_lines(lines: Seq<Seq<char>>, n: int) -> Document {
    Document {
        lines: Seq::new(
            DOC_LINES as nat,
            |i: int|
                if i < n {
                    lines[i]
                } else {
                    Seq::<char>::empty()
                },
        ),
        line: if n < DOC_LINES {
            n
        } else {
            DOC_LINES - 1
        },
        col: if n < DOC_LINES {
            0
        } else {
            lines[DOC_LINES - 1].len() as int
        },
        scroll: 0,
    }
}

pub proof fn lemma_replay_serialized(doc: Document, n: int)
    requires
        doc.wf(),
        survives_saving(doc.lines),
        0 <= n <= DOC_LINES,
    ensures
        Document::empty().replay(serialized(doc.lines, n)) == typed_lines(doc.lines, n),
    decreases n,
{
    let lines = doc.lines;
    if n == 0 {
        assert(typed_lines(lines, 0).lines =~= Document::empty().lines);
    } else {
        lemma_replay_serialized(doc, n - 1);
        let start = typed_lines(lines, n - 1);
        let text = lines[n - 1];
        let bytes = line_bytes(text);
        assert(serialized(lines, n) == serialized(lines, n - 1) + bytes + seq![NEWLINE]);
        lemma_replay_concat(Document::empty(), serialized(lines, n - 1) + bytes, seq![NEWLINE]);
        lemma_replay_concat(Document::empty(), serialized(lines, n - 1), bytes);
        assert(start.wf());
        assert(bytes.take(text.len() as int) =~= bytes);
        assert(text.take(text.len() as int) =~= text);
        lemma_replay_text(start, text, text.len() as int);
        let filled = start.with_current(text, text.len() as int);
        assert(start.replay(bytes) == filled);
        let single = seq![NEWLINE];
        assert(single.drop_last() =~= Seq::<u8>::empty());
        assert(filled.replay(single) == filled.replay(single.drop_last()).replay_byte(NEWLINE));
        assert(filled.replay(single) == filled.newline());
        let goal = typed_lines(lines, n);
        if n < DOC_LINES {
            assert(filled.current().take(filled.col) =~= text);
            assert(filled.current().skip(filled.col) =~= Seq::<char>::empty());
            assert(filled.newline().lines =~= goal.lines);
        } else {
            assert(filled.lines =~= goal.lines);
        }
    }
}

/// Saving a document and typing the saved bytes into an empty document gives the text
/// back, line for line. This holds when the buffer has room for every line with its
/// newline byte and every character survives saving.
pub proof fn law_saved_text_comes_back(doc: Document, capacity: int)
    requires
        doc.wf(),
        survives_saving(doc.lines),
        capacity >= serialized(doc.lines, DOC_LINES as int).len(),
    ensures
        Document::empty().replay(doc.dump(capacity)).lines == doc.lines,
{
    let full = serialized(doc.lines, DOC_LINES as int);
    assert(doc.dump(capacity) == trimmed(full));
    assert(at_end_of_text(Document::empty()));
    lemma_trailing_newlines(Document::empty(), full);
    lemma_replay_serialized(doc, DOC_LINES as int);
    assert(typed_lines(doc.lines, DOC_LINES as int).lines =~= doc.lines);
}

} // verus!
