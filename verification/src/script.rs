use vstd::prelude::*;
use vstd::utf8::valid_utf8;
use crate::explorer::MAX_FILENAME_BYTES;
use crate::grid::{lemma_cell_position, paint};
use crate::screen::{blank_glyph, inverse, plain, Cell, Color, ColorCode, Glyph, BLANK, NEWLINE};
use crate::script_laws::law_transcript_fits;
use crate::text::{byte_char, capped, is_utf8, low_byte, ByteString};
use crate::window::Window;

verus! {

/// Bytes that a session's transcript holds at most.
pub const OUTPUT_CAPACITY: usize = 1024;

/// Where a script stands after a step of its interpreter.
#[derive(Clone, Copy, Debug, PartialEq, Eq, Structural)]
pub enum TickStatus {
    Continuing,
    AwaitInput,
    Finished,
}

/// What a session needs from its interpreter to take its next tick.
#[derive(Debug, PartialEq, Eq)]
pub enum Request {
    /// Run one step of the script, collecting what it prints.
    Step,
    /// Hand the script this line of input.
    Input(Vec<u8>),
    /// Nothing: the script has finished or its input line is not complete.
    Nothing,
}

/// What the interpreter did for a session.
#[derive(Debug, PartialEq, Eq)]
pub enum Reply {
    /// It ran one step, printed these bytes and reports this status.
    Stepped { printed: Vec<u8>, status: TickStatus },
    /// It took the line of input.
    Accepted,
    /// It refused the line of input, with this message.
    Rejected { message: Vec<u8> },
    /// It was not asked for anything.
    Nothing,
}

/// The mathematical content of a script session: the transcript, the place in it where the
/// pending line of input starts, and the status of the script.
pub struct Session {
    pub output: Seq<u8>,
    pub marker: Option<int>,
    pub status: TickStatus,
}

/// The bytes that fill the display cells when `bytes` are written from the first cell of a
/// pane `width` cells wide: a newline byte gives blanks up to the end of its row, and a
/// whole row of blanks where it stands at the start of a row; any other byte takes one cell.
pub open spec fn laid_out(bytes: Seq<u8>, width: int) -> Seq<u8>
    decreases bytes.len(),
{
    if bytes.len() == 0 {
        Seq::<u8>::empty()
    } else {
        let before = laid_out(bytes.drop_last(), width);
        if bytes.last() == NEWLINE {
            before + Seq::new((width - (before.len() as int) % width) as nat, |i: int| BLANK)
        } else {
            before.push(bytes.last())
        }
    }
}

/// What cell `k` of the pane shows of a transcript tail: the laid out bytes, then the
/// cursor as a blank in inverse colours, then blanks.
pub open spec fn terminal_glyph(tail: Seq<u8>, width: int, k: int) -> Glyph {
    let laid = laid_out(tail, width);
    if k < laid.len() {
        Glyph { ch: laid[k], color: plain() }
    } else if k == laid.len() {
        Glyph { ch: BLANK, color: inverse() }
    } else {
        blank_glyph()
    }
}

/// The backward scan for the first byte to show. It goes from byte `i - 1` down, counting a
/// row for every newline byte and for every `width` bytes since the last row was counted,
/// and stops behind the byte at which `height` rows are reached.
pub open spec fn scan_start(
    bytes: Seq<u8>,
    width: int,
    height: int,
    i: int,
    last: int,
    count: int,
) -> int
    decreases i,
{
    if i <= 0 {
        0
    } else {
        let at = i - 1;
        let wrapped = last - at >= width;
        let count1 = if wrapped {
            count + 1
        } else {
            count
        };
        let last1 = if wrapped {
            at
        } else {
            last
        };
        let newline = bytes[at] == NEWLINE;
        let count2 = if newline {
            count1 + 1
        } else {
            count1
        };
        let last2 = if newline {
            at
        } else {
            last1
        };
        if count2 >= height {
            at + 1
        } else {
            scan_start(bytes, width, height, at, last2, count2)
        }
    }
}

/// The index of the first byte of the transcript that the pane shows.
pub open spec fn start_offset(bytes: Seq<u8>, width: int, height: int) -> int {
    scan_start(bytes, width, height, bytes.len() as int, bytes.len() as int, 0)
}

impl Session {
    pub open spec fn wf(self) -> bool {
        &&& self.output.len() <= OUTPUT_CAPACITY
        &&& self.marker matches Some(begin) ==> 0 <= begin <= self.output.len()
        &&& self.marker.is_some() <==> self.status == TickStatus::AwaitInput
    }

    /// The session of a script that has not run yet.
    pub open spec fn fresh() -> Session {
        Session { output: Seq::<u8>::empty(), marker: None, status: TickStatus::Continuing }
    }

    /// The transcript with `bytes` appended, as far as there is room.
    pub open spec fn print(self, bytes: Seq<u8>) -> Session {
        Session { output: capped(self.output + bytes, OUTPUT_CAPACITY as int), ..self }
    }

    /// A keystroke: its low byte goes to the end of the transcript.
    pub open spec fn input(self, c: char) -> Session {
        self.print(seq![low_byte(c)])
    }

    /// A line of input is complete: the bytes since the marker end in a newline. A newline
    /// alone is the empty line.
    pub open spec fn input_done(self) -> bool {
        self.marker matches Some(begin) && begin < self.output.len() && self.output.last()
            == NEWLINE
    }

    /// The bytes from the marker to the newline at the end, without that newline.
    pub open spec fn pending(self) -> Seq<u8> {
        match self.marker {
            Some(begin) => self.output.subrange(begin, self.output.len() - 1),
            None => Seq::<u8>::empty(),
        }
    }

    /// The line that the interpreter is handed: the pending bytes, or nothing where they
    /// are not UTF-8.
    pub open spec fn line(self) -> Seq<u8> {
        if valid_utf8(self.pending()) {
            self.pending()
        } else {
            Seq::<u8>::empty()
        }
    }

    /// The session is asking for a step of its script.
    pub open spec fn wants_step(self) -> bool {
        self.status == TickStatus::Continuing
    }

    /// The session is asking to have a line of input taken.
    pub open spec fn wants_input(self) -> bool {
        self.status == TickStatus::AwaitInput && self.input_done()
    }

    /// Whether a tick with this reply counts as work done. Only a step of the script does.
    pub open spec fn did_work(self, reply: Reply) -> bool {
        self.wants_step() && reply is Stepped
    }

    /// The session after a tick on which the interpreter gave `reply`. A reply that does
    /// not answer what the session asked for changes nothing.
    pub open spec fn tick(self, reply: Reply) -> Session {
        match reply {
            Reply::Stepped { printed, status } => if self.wants_step() {
                let printed = self.print(printed@);
                Session {
                    status,
                    marker: if status == TickStatus::AwaitInput {
                        Some(printed.output.len() as int)
                    } else {
                        None
                    },
                    ..printed
                }
            } else {
                self
            },
            Reply::Accepted => if self.wants_input() {
                Session { status: TickStatus::Continuing, marker: None, ..self }
            } else {
                self
            },
            Reply::Rejected { message } => if self.wants_input() {
                self.print(message@)
            } else {
                self
            },
            Reply::Nothing => self,
        }
    }
}

/// The transcript of a session with the place where pending input starts.
pub struct IOBuffer {
    buf: ByteString<OUTPUT_CAPACITY>,
    input_pos: Option<usize>,
}

impl IOBuffer {
    pub closed spec fn output(&self) -> Seq<u8> {
        self.buf@
    }

    pub closed spec fn marker(&self) -> Option<int> {
        match self.input_pos {
            Some(begin) => Some(begin as int),
            None => None,
        }
    }

    pub closed spec fn wf(&self) -> bool {
        self.buf.wf()
    }

    fn new() -> (io: IOBuffer)
        ensures
            io.wf(),
            io.output() == Seq::<u8>::empty(),
            io.marker() == None::<int>,
    {
        IOBuffer { buf: ByteString::new(), input_pos: None }
    }

    /// Marks the end of the transcript as the start of the input to come.
    fn begin_input(&mut self)
        requires
            old(self).wf(),
        ensures
            final(self).wf(),
            final(self).output() == old(self).output(),
            final(self).marker() == Some(old(self).output().len() as int),
    {
        self.input_pos = Some(self.buf.len());
    }

    /// The pending line of input, without the newline at its end.
    fn end_input(&self) -> (line: &[u8])
        requires
            self.wf(),
            self.marker() matches Some(begin) ==> 0 <= begin < self.output().len(),
        ensures
            line@ == match self.marker() {
                Some(begin) => self.output().subrange(begin, self.output().len() - 1),
                None => Seq::<u8>::empty(),
            },
    {
        match self.input_pos {
            None => {
                let all = self.buf.as_slice();
                vstd::slice::slice_subrange(all, 0, 0)
            },
            Some(begin) => {
                let all = self.buf.as_slice();
                vstd::slice::slice_subrange(all, begin, all.len() - 1)
            },
        }
    }

    /// Whether a whole line of input stands behind the marker.
    fn input_done(&self) -> (done: bool)
        requires
            self.wf(),
        ensures
            done == (self.marker() matches Some(begin) && begin < self.output().len()
                && self.output().last() == NEWLINE),
    {
        match self.input_pos {
            None => false,
            Some(begin) => {
                let len = self.buf.len();
                begin < len && self.buf.byte(len - 1) == NEWLINE
            },
        }
    }

    /// Appends what a script printed.
    fn print(&mut self, chars: &[u8])
        requires
            old(self).wf(),
        ensures
            final(self).wf(),
            final(self).marker() == old(self).marker(),
            final(self).output() == capped(old(self).output() + chars@, OUTPUT_CAPACITY as int),
    {
        self.buf.push_all(chars);
    }
}

/// A script session: the transcript and status of one running script, shown in a pane.
pub struct RunningScript {
    window: Window,
    filename: ByteString<MAX_FILENAME_BYTES>,
    iobuffer: IOBuffer,
    status: TickStatus,
}

impl View for RunningScript {
    type V = Session;

    closed spec fn view(&self) -> Session {
        Session {
            output: self.iobuffer.output(),
            marker: self.iobuffer.marker(),
            status: self.status,
        }
    }
}

impl RunningScript {
    pub closed spec fn storage_wf(&self) -> bool {
        self.iobuffer.wf()
    }

    pub open spec fn wf(&self) -> bool {
        &&& self.storage_wf()
        &&& self@.wf()
        &&& self.filename().wf()
    }

    pub closed spec fn spec_window(&self) -> Window {
        self.window
    }

    pub closed spec fn spec_filename(&self) -> ByteString<MAX_FILENAME_BYTES> {
        self.filename
    }

    #[verifier::when_used_as_spec(spec_window)]
    pub fn window(&self) -> (window: Window)
        ensures
            window == self.spec_window(),
    {
        self.window
    }

    #[verifier::when_used_as_spec(spec_filename)]
    pub fn filename(&self) -> (filename: ByteString<MAX_FILENAME_BYTES>)
        ensures
            filename == self.spec_filename(),
    {
        self.filename
    }

    /// The status of the script.
    pub fn status(&self) -> (status: TickStatus)
        ensures
            status == self@.status,
    {
        self.status
    }

    /// The transcript.
    pub fn output(&self) -> (bytes: Vec<u8>)
        requires
            self.wf(),
        ensures
            bytes@ == self@.output,
    {
        self.iobuffer.buf.to_vec()
    }

    /// A session for a script that has not run yet, and the writes that blank its pane.
    pub fn new(window: Window, filename: ByteString<MAX_FILENAME_BYTES>) -> (made: (
        RunningScript,
        Vec<Cell>,
    ))
        requires
            window.wf(),
            filename.wf(),
        ensures
            made.0.wf(),
            made.0@ == Session::fresh(),
            made.0.window() == window,
            made.0.filename() == filename,
            made.1@.len() == window.spec_width() * window.spec_height(),
            forall|x: int, y: int|
                0 <= x < window.spec_width() && 0 <= y < window.spec_height()
                    ==> #[trigger] made.1@[x * window.spec_height() + y] == window.cell(
                    BLANK,
                    x,
                    y,
                    plain(),
                ),
    {
        let cells = window.clear();
        (
            RunningScript { window, filename, iobuffer: IOBuffer::new(), status: TickStatus::Continuing },
            cells,
        )
    }

    /// What the session needs from its interpreter for its next tick.
    pub fn request(&self) -> (request: Request)
        requires
            self.wf(),
        ensures
            self@.wants_step() ==> request == Request::Step,
            self@.wants_input() ==> (request matches Request::Input(line) && line@ == self@.line()),
            !self@.wants_step() && !self@.wants_input() ==> request == Request::Nothing,
    {
        match self.status {
            TickStatus::Continuing => Request::Step,
            TickStatus::Finished => Request::Nothing,
            TickStatus::AwaitInput => {
                if self.iobuffer.input_done() {
                    let input = self.iobuffer.end_input();
                    if is_utf8(input) {
                        Request::Input(vstd::slice::slice_to_vec(input))
                    } else {
                        Request::Input(Vec::new())
                    }
                } else {
                    Request::Nothing
                }
            },
        }
    }

    /// One tick of the session, on which the interpreter gave `reply`. Returns whether the
    /// script did work.
    pub fn tick(&mut self, reply: &Reply) -> (did_work: bool)
        requires
            old(self).wf(),
        ensures
            final(self).wf(),
            final(self)@ == old(self)@.tick(*reply),
            did_work == old(self)@.did_work(*reply),
            final(self).window() == old(self).window(),
            final(self).filename() == old(self).filename(),
    {
        match self.status {
            TickStatus::Continuing => {
                match reply {
                    Reply::Stepped { printed, status } => {
                        self.iobuffer.print(printed.as_slice());
                        self.status = *status;
                        match self.status {
                            TickStatus::AwaitInput => {
                                self.iobuffer.begin_input();
                            },
                            _ => {
                                self.iobuffer.input_pos = None;
                            },
                        }
                        true
                    },
                    _ => false,
                }
            },
            TickStatus::Finished => false,
            TickStatus::AwaitInput => {
                if self.iobuffer.input_done() {
                    match reply {
                        Reply::Accepted => {
                            self.status = TickStatus::Continuing;
                            self.iobuffer.input_pos = None;
                        },
                        Reply::Rejected { message } => {
                            self.iobuffer.print(message.as_slice());
                        },
                        _ => {},
                    }
                }
                false
            },
        }
    }

    /// A keystroke: its low byte goes to the end of the transcript, if there is room.
    pub fn input(&mut self, c: char)
        requires
            old(self).wf(),
        ensures
            final(self).wf(),
            final(self)@ == old(self)@.input(c),
            final(self).window() == old(self).window(),
            final(self).filename() == old(self).filename(),
    {
        self.iobuffer.buf.push_char(c);
        proof {
            assert(old(self)@.output + seq![low_byte(c)] =~= old(self)@.output.push(low_byte(c)));
        }
    }

    /// The index of the first byte of the transcript to show, so that what follows fits
    /// the pane.
    fn first_shown(&self) -> (start: usize)
        requires
            self.wf(),
            self.window().wf(),
        ensures
            start == start_offset(
                self@.output,
                self.window().spec_width(),
                self.window().spec_height(),
            ),
            start <= self@.output.len(),
    {
        let width = self.window.width();
        let height = self.window.height();
        let len = self.iobuffer.buf.len();
        let mut count: usize = 0;
        let mut start: usize = 0;
        let mut lasti: usize = len;
        let mut i: usize = len;
        while i > 0
            invariant_except_break
                i <= lasti <= len,
                count < height,
                start == 0,
                start_offset(self@.output, width as int, height as int) == scan_start(
                    self@.output,
                    width as int,
                    height as int,
                    i as int,
                    lasti as int,
                    count as int,
                ),
            invariant
                self.wf(),
                len == self@.output.len(),
                len <= OUTPUT_CAPACITY,
                width == self.window().spec_width(),
                height == self.window().spec_height(),
                1 <= height <= 256,
            ensures
                start == start_offset(self@.output, width as int, height as int),
                start <= len,
            decreases i,
        {
            i -= 1;
            if lasti - i >= width {
                count += 1;
                lasti = i;
            }
            if self.iobuffer.buf.byte(i) == NEWLINE {
                count += 1;
                lasti = i;
            }
            if count >= height {
                start = i + 1;
                break ;
            }
        }
        start
    }

    /// Appends the write for cell `cursor` of the pane, counted row by row.
    fn put(&self, cells: &mut Vec<Cell>, b: u8, cursor: usize, color: ColorCode)
        requires
            self.window().wf(),
            cursor < self.window().spec_width() * self.window().spec_height(),
        ensures
            final(cells)@ == old(cells)@.push(
                paint(
                    self.window(),
                    Glyph { ch: b, color },
                    cursor as int % self.window().spec_width(),
                    cursor as int / self.window().spec_width(),
                ),
            ),
    {
        let width = self.window.width();
        let ghost height = self.window().spec_height();
        proof {
            assert(height * width == width * height) by (nonlinear_arith);
            lemma_cell_position(cursor as int, width as int, height);
        }
        self.window.plot_to(
            cells,
            byte_char(b),
            (cursor % width) as u8,
            (cursor / width) as u8,
            color,
        );
    }

    /// The writes that show the pane, row by row: the end of the transcript, from the
    /// first byte that the backward scan finds, then the cursor as a blank in inverse
    /// colours, then blanks to the end of the pane. What is shown always leaves a cell
    /// for the cursor.
    pub fn draw(&mut self) -> (cells: Vec<Cell>)
        requires
            old(self).wf(),
            old(self).window().wf(),
        ensures
            final(self).wf(),
            final(self)@ == old(self)@,
            final(self).window() == old(self).window(),
            final(self).filename() == old(self).filename(),
            cells@.len() == old(self).window().spec_width() * old(self).window().spec_height(),
            laid_out(
                old(self)@.output.skip(
                    start_offset(
                        old(self)@.output,
                        old(self).window().spec_width(),
                        old(self).window().spec_height(),
                    ),
                ),
                old(self).window().spec_width(),
            ).len() < cells@.len(),
            forall|k: int|
                0 <= k < cells@.len() ==> #[trigger] cells@[k] == paint(
                    old(self).window(),
                    terminal_glyph(
                        old(self)@.output.skip(
                            start_offset(
                                old(self)@.output,
                                old(self).window().spec_width(),
                                old(self).window().spec_height(),
                            ),
                        ),
                        old(self).window().spec_width(),
                        k,
                    ),
                    k % old(self).window().spec_width(),
                    k / old(self).window().spec_width(),
                ),
    {
        let color = ColorCode::new(Color::LightGray, Color::Black);
        let color_inv = ColorCode::new(Color::Black, Color::LightGray);
        let width = self.window.width();
        let height = self.window.height();
        assert(width * height <= 256 * 256) by (nonlinear_arith)
            requires
                1 <= width <= 256,
                1 <= height <= 256,
        ;
        let area = width * height;
        let start = self.first_shown();
        let len = self.iobuffer.buf.len();
        let ghost tail = self@.output.skip(start as int);
        let ghost laid = laid_out(tail, width as int);
        proof {
            law_transcript_fits(self@.output, width as int, height as int);
        }
        let mut cells: Vec<Cell> = Vec::new();
        let mut cursor: usize = 0;
        let mut i: usize = start;
        while i < len
            invariant
                self.wf(),
                self.window().wf(),
                self == old(self),
                width == self.window().spec_width(),
                height == self.window().spec_height(),
                area == width * height,
                color == plain(),
                len == self@.output.len(),
                start <= i <= len,
                tail == self@.output.skip(start as int),
                laid == laid_out(tail, width as int),
                laid.len() < area,
                area <= 256 * 256,
                cursor <= laid.len(),
                cursor == laid_out(tail.take(i - start), width as int).len(),
                shows_terminal(cells@, self.window(), laid_out(tail.take(i - start), width as int)),
            decreases len - i,
        {
            let c = self.iobuffer.buf.byte(i);
            let ghost before = laid_out(tail.take(i - start), width as int);
            proof {
                assert(tail.take(i - start + 1).drop_last() =~= tail.take(i - start));
                assert(tail.take(i - start + 1).last() == c);
                lemma_laid_out_prefix(tail, i - start + 1, width as int);
            }
            if c == NEWLINE {
                let tmp = cursor + width;
                let tmp = tmp - tmp % width;
                proof {
                    lemma_row_end(cursor as int, width as int);
                }
                let ghost from = cursor;
                while cursor < tmp
                    invariant
                        self.window().wf(),
                        width == self.window().spec_width(),
                        height == self.window().spec_height(),
                        area == width * height,
                        color == plain(),
                        from <= cursor <= tmp < area,
                        from == before.len(),
                        shows_terminal(
                            cells@,
                            self.window(),
                            before + Seq::new((cursor - from) as nat, |j: int| BLANK),
                        ),
                    decreases tmp - cursor,
                {
                    let ghost shown = before + Seq::new((cursor - from) as nat, |j: int| BLANK);
                    let ghost old_cells = cells@;
                    self.put(&mut cells, BLANK, cursor, color);
                    proof {
                        let next = before + Seq::new((cursor + 1 - from) as nat, |j: int| BLANK);
                        assert(next =~= shown.push(BLANK));
                        lemma_shows_push(old_cells, cells@, self.window(), shown, BLANK);
                    }
                    cursor += 1;
                }
                proof {
                    assert(laid_out(tail.take(i - start + 1), width as int) == before + Seq::new(
                        (width - (before.len() as int) % (width as int)) as nat,
                        |j: int| BLANK,
                    ));
                }
            } else {
                let ghost old_cells = cells@;
                self.put(&mut cells, c, cursor, color);
                proof {
                    lemma_shows_push(old_cells, cells@, self.window(), before, c);
                }
                cursor += 1;
            }
            i += 1;
        }
        proof {
            assert(tail.take(len - start) =~= tail);
        }
        let ghost old_cells = cells@;
        self.put(&mut cells, BLANK, cursor, color_inv);
        cursor += 1;
        proof {
            assert forall|k: int| 0 <= k < cells@.len() implies #[trigger] cells@[k] == paint(
                self.window(),
                terminal_glyph(tail, width as int, k),
                k % (width as int),
                k / (width as int),
            ) by {
                if k < old_cells.len() {
                    assert(cells@[k] == old_cells[k]);
                }
            }
        }
        while cursor < area
            invariant
                self.window().wf(),
                width == self.window().spec_width(),
                height == self.window().spec_height(),
                area == width * height,
                color == plain(),
                laid == laid_out(tail, width as int),
                laid.len() < cursor <= area,
                cells@.len() == cursor,
                forall|k: int|
                    0 <= k < cells@.len() ==> #[trigger] cells@[k] == paint(
                        self.window(),
                        terminal_glyph(tail, width as int, k),
                        k % (width as int),
                        k / (width as int),
                    ),
            decreases area - cursor,
        {
            let ghost old_cells = cells@;
            self.put(&mut cells, BLANK, cursor, color);
            proof {
                assert forall|k: int| 0 <= k < cells@.len() implies #[trigger] cells@[k] == paint(
                    self.window(),
                    terminal_glyph(tail, width as int, k),
                    k % (width as int),
                    k / (width as int),
                ) by {
                    if k < old_cells.len() {
                        assert(cells@[k] == old_cells[k]);
                    }
                }
            }
            cursor += 1;
        }
        cells
    }
}

/// `cells` are the writes for the laid out bytes `laid`, row by row.
pub open spec fn shows_terminal(cells: Seq<Cell>, window: Window, laid: Seq<u8>) -> bool {
    &&& cells.len() == laid.len()
    &&& forall|k: int|
        0 <= k < cells.len() ==> #[trigger] cells[k] == paint(
            window,
            Glyph { ch: laid[k], color: plain() },
            k % window.spec_width(),
            k / window.spec_width(),
        )
}

/// One more byte laid out is one more write.
pub proof fn lemma_shows_push(
    before: Seq<Cell>,
    after: Seq<Cell>,
    window: Window,
    laid: Seq<u8>,
    b: u8,
)
    requires
        shows_terminal(before, window, laid),
        after == before.push(
            paint(
                window,
                Glyph { ch: b, color: plain() },
                laid.len() as int % window.spec_width(),
                laid.len() as int / window.spec_width(),
            ),
        ),
    ensures
        shows_terminal(after, window, laid.push(b)),
{
    let next = laid.push(b);
    assert forall|k: int| 0 <= k < after.len() implies #[trigger] after[k] == paint(
        window,
        Glyph { ch: next[k], color: plain() },
        k % window.spec_width(),
        k / window.spec_width(),
    ) by {
        if k < before.len() {
            assert(after[k] == before[k]);
            assert(next[k] == laid[k]);
        }
    }
}

/// The start of a transcript takes no more cells than the whole.
pub proof fn lemma_laid_out_prefix(bytes: Seq<u8>, n: int, width: int)
    requires
        1 <= width,
        0 <= n <= bytes.len(),
    ensures
        laid_out(bytes.take(n), width).len() <= laid_out(bytes, width).len(),
    decreases bytes.len() - n,
{
    if n < bytes.len() {
        lemma_laid_out_prefix(bytes, n + 1, width);
        assert(bytes.take(n + 1).drop_last() =~= bytes.take(n));
        let before = laid_out(bytes.take(n), width);
        vstd::arithmetic::div_mod::lemma_mod_bound(before.len() as int, width);
    } else {
        assert(bytes.take(n) =~= bytes);
    }
}

/// From cell `cursor`, the end of the row is the next multiple of `width`, at most `width`
/// cells on.
pub proof fn lemma_row_end(cursor: int, width: int)
    requires
        0 <= cursor,
        1 <= width,
    ensures
        (cursor + width) - (cursor + width) % width == cursor + (width - cursor % width),
        0 <= cursor % width < width,
{
    vstd::arithmetic::div_mod::lemma_mod_bound(cursor, width);
    vstd::arithmetic::div_mod::lemma_mod_add_multiples_vanish(cursor, width);
    assert((width + cursor) % width == cursor % width);
}

} // verus!
