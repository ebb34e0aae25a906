use vstd::prelude::*;
use vstd::string::StringSliceAdditionalSpecFns;
use vstd::utf8::valid_utf8;
use crate::app::{save_failed, save_failed_text, shows_mode, App, Mode, Open, Save, MAX_TITLE_BYTES};
use crate::editor::MAX_FILE_BYTES;
use crate::explorer::{Explorer, MAX_FILES_STORED};
use crate::frame::{
    bar_cells, task_cells, Active, RenameBar, TaskManager, HEIGHT_DOWN, HEIGHT_UP, WIN_WIDTH,
};
use crate::screen::{drawable, is_drawable, plain, Cell, BLANK};
use crate::script::{Reply, Request, Session};
use crate::text::{capped, lemma_capped_append, low_byte, ByteString};
use crate::window::Window;

verus! {

/// Number of panes.
pub const SLOTS: usize = 4;

/// Slots that one overall tick looks at: the slot behind the one looked at last and the
/// three after it, so that every slot has its turn, the one looked at last as the last.
pub const SCAN_SLOTS: usize = 4;

/// The keys that have a name instead of a character.
#[derive(Clone, Copy, Debug, PartialEq, Eq, Structural)]
pub enum RawKey {
    F1,
    F2,
    F3,
    F4,
    F5,
    F6,
    ArrowLeft,
    ArrowRight,
    ArrowUp,
    ArrowDown,
    Other,
}

/// A decoded key event.
#[derive(Clone, Copy, Debug, PartialEq, Eq, Structural)]
pub enum Key {
    Raw(RawKey),
    Unicode(char),
}

/// Work on files that the shell asks of whoever drives it.
pub enum Job {
    /// Nothing.
    Idle,
    /// The pane leaves its mode: save the document, if there is one, list the directory,
    /// and report with `exited`.
    Exit { slot: Active, save: Option<Save> },
    /// Read the file and report with `opened`.
    Open { slot: Active, open: Open },
    /// Create the file, if there is a name, list the directory, and report with
    /// `refreshed`.
    Refresh { create: Option<ByteString<MAX_TITLE_BYTES>> },
}

/// What a key led to: work on files, and writes to the display.
pub struct Outcome {
    pub job: Job,
    pub cells: Vec<Cell>,
}

/// What opening a file led to: whether a script was started, the writes that blank its
/// pane, and the writes that draw the frame anew.
pub struct Opened {
    pub started: bool,
    pub cleared: Vec<Cell>,
    pub frame: Vec<Cell>,
}

/// The writes that show the whole display: the four panes, the bar, the tick counters.
pub struct Frame {
    pub panes: Vec<Vec<Cell>>,
    pub rename_bar: Vec<Cell>,
    pub task_manager: Vec<Cell>,
}

/// Where an overall tick stands: a script session needs its interpreter, or the tick is
/// over and the display has been drawn.
pub enum Tick {
    Ask { slot: Active, request: Request },
    Done(Frame),
}

/// The pane of slot `slot`.
pub open spec fn pane(slot: int) -> Window {
    if slot == 0 {
        Window { x1: 1, y1: 2, x2: 33, y2: 11 }
    } else if slot == 1 {
        Window { x1: 35, y1: 2, x2: 67, y2: 11 }
    } else if slot == 2 {
        Window { x1: 1, y1: 13, x2: 33, y2: 23 }
    } else {
        Window { x1: 35, y1: 13, x2: 67, y2: 23 }
    }
}

/// The mathematical content of the shell.
pub struct Shell {
    pub modes: Seq<Mode>,
    pub ticks: Seq<int>,
    pub last_ticked: int,
    pub scan_left: int,
    pub active: Active,
    pub editing_name: bool,
    pub name: Seq<u8>,
}

/// The message for a file name without a character.
pub open spec fn empty_name_text() -> Seq<u8> {
    capped(
        "ERROR File name must be at least one character".spec_bytes(),
        MAX_TITLE_BYTES as int,
    )
}

/// The message for a file that storage did not create, with storage's own words.
pub open spec fn create_failed_text(error: Seq<u8>) -> Seq<u8> {
    capped("ERROR ".spec_bytes() + error, MAX_TITLE_BYTES as int)
}

/// The writes that move the keyboard from one pane to another: the frame of the first in
/// the colours of a pane without the keyboard, the frame of the second in those of the
/// pane that has it.
pub open spec fn switch_cells(titles: Seq<Seq<u8>>, from: Active, to: Active) -> Seq<Cell> {
    from.frame_cells(titles, false) + to.frame_cells(titles, true)
}

/// A browser on a fresh listing of the directory.
pub open spec fn listing(num_files: int, names: [[u8; 10]; 30]) -> Mode {
    Mode::Browser {
        selected: 0,
        num_files,
        entries: Seq::new(MAX_FILES_STORED as nat, |i: int| names[i]@),
    }
}

impl Shell {
    pub open spec fn wf(self) -> bool {
        &&& self.modes.len() == SLOTS
        &&& self.ticks.len() == SLOTS
        &&& forall|i: int| 0 <= i < SLOTS ==> 0 <= #[trigger] self.ticks[i] <= usize::MAX
        &&& 0 <= self.last_ticked < SLOTS
        &&& 0 <= self.scan_left <= SCAN_SLOTS
        &&& self.name.len() <= MAX_TITLE_BYTES
    }

    /// The shell at the start: four browsers on the same listing, the keyboard in the
    /// upper left pane.
    pub open spec fn initial(num_files: int, names: [[u8; 10]; 30]) -> Shell {
        Shell {
            modes: Seq::new(SLOTS as nat, |i: int| listing(num_files, names)),
            ticks: Seq::new(SLOTS as nat, |i: int| 0int),
            last_ticked: 0,
            scan_left: 0,
            active: Active::TopLeft,
            editing_name: false,
            name: Seq::<u8>::empty(),
        }
    }

    /// The mode of the pane that has the keyboard.
    pub open spec fn mode(self) -> Mode {
        self.modes[self.active.spec_index()]
    }

    /// The shell with the mode of the pane that has the keyboard replaced.
    pub open spec fn with_mode(self, mode: Mode) -> Shell {
        Shell { modes: self.modes.update(self.active.spec_index(), mode), ..self }
    }

    /// The titles of the four panes.
    pub open spec fn titles(self) -> Seq<Seq<u8>> {
        Seq::new(SLOTS as nat, |i: int| self.modes[i].title())
    }

    /// The script session of a slot, if it has one.
    pub open spec fn session(self, slot: int) -> Option<Session> {
        match self.modes[slot] {
            Mode::Script { session, .. } => Some(session),
            _ => None,
        }
    }

    /// The slot holds a script session that needs its interpreter: to run a step, or to
    /// take a line of input.
    pub open spec fn asks(self, slot: int) -> bool {
        self.session(slot) matches Some(s) && (s.wants_step() || s.wants_input())
    }

    /// The slot holds a script session that can run a step.
    pub open spec fn runnable(self, slot: int) -> bool {
        self.session(slot) matches Some(s) && s.wants_step()
    }

    /// The scan of an overall tick: it goes to the slot behind the one looked at last, as
    /// long as there are slots left to look at, and stops at the first slot whose session
    /// needs its interpreter. The result is the shell after the scan and the slot at
    /// which it stopped, if it did.
    pub open spec fn scan(self) -> (Shell, Option<int>)
        decreases self.scan_left,
    {
        if self.scan_left <= 0 {
            (self, None)
        } else {
            let slot = (self.last_ticked + 1) % (SLOTS as int);
            let moved = Shell { last_ticked: slot, scan_left: self.scan_left - 1, ..self };
            if moved.asks(slot) {
                (moved, Some(slot))
            } else {
                moved.scan()
            }
        }
    }

    /// The start of an overall tick.
    pub open spec fn tick(self) -> (Shell, Option<int>) {
        Shell { scan_left: SCAN_SLOTS as int, ..self }.scan()
    }

    /// What the interpreter's reply does to the slot looked at last: its session takes
    /// its tick, and where the script did work, the slot's counter goes up and the scan
    /// is over.
    pub open spec fn answer(self, reply: Reply) -> Shell {
        match self.modes[self.last_ticked] {
            Mode::Script { session, filename } => {
                let ticked = self.modes.update(
                    self.last_ticked,
                    Mode::Script { session: session.tick(reply), filename },
                );
                if session.did_work(reply) {
                    Shell {
                        modes: ticked,
                        ticks: self.ticks.update(self.last_ticked, self.ticks[self.last_ticked] + 1),
                        scan_left: 0,
                        ..self
                    }
                } else {
                    Shell { modes: ticked, ..self }
                }
            },
            _ => self,
        }
    }

    /// The rest of an overall tick after a reply of the interpreter.
    pub open spec fn resume(self, reply: Reply) -> (Shell, Option<int>) {
        self.answer(reply).scan()
    }

    /// The shell after every pane has been drawn.
    pub open spec fn drawn(self) -> Shell {
        Shell {
            modes: Seq::new(
                SLOTS as nat,
                |i: int| self.modes[i].drawn(pane(i).spec_width(), pane(i).spec_height()),
            ),
            ..self
        }
    }

    /// What a key does to the shell itself. The function keys F1 to F4 give a pane the
    /// keyboard, F5 starts the typing of a file name, F6 leaves the mode of the pane. The
    /// arrow keys go to the pane's mode. While a file name is typed, Enter ends it and
    /// every other character goes into the name. Otherwise Enter, Backspace and Delete
    /// and the characters that the display can show go to the pane's mode.
    pub open spec fn key(self, key: Key) -> Shell {
        match key {
            Key::Raw(RawKey::F1) => Shell { active: Active::TopLeft, ..self },
            Key::Raw(RawKey::F2) => Shell { active: Active::TopRight, ..self },
            Key::Raw(RawKey::F3) => Shell { active: Active::BottomLeft, ..self },
            Key::Raw(RawKey::F4) => Shell { active: Active::BottomRight, ..self },
            Key::Raw(RawKey::F5) => Shell { editing_name: true, name: Seq::<u8>::empty(), ..self },
            Key::Raw(RawKey::F6) => if self.unsavable() {
                Shell { name: save_failed_text("bad file name".spec_bytes()), ..self }
            } else {
                self
            },
            Key::Raw(RawKey::ArrowLeft) => self.with_mode(self.mode().arrow_left()),
            Key::Raw(RawKey::ArrowRight) => self.with_mode(self.mode().arrow_right()),
            Key::Raw(RawKey::ArrowUp) => self.with_mode(self.mode().arrow_up()),
            Key::Raw(RawKey::ArrowDown) => self.with_mode(self.mode().arrow_down()),
            Key::Raw(RawKey::Other) => self,
            Key::Unicode(c) => if self.editing_name {
                if c == '\n' {
                    Shell {
                        editing_name: false,
                        name: if self.name.len() == 0 {
                            empty_name_text()
                        } else {
                            Seq::<u8>::empty()
                        },
                        ..self
                    }
                } else {
                    Shell {
                        name: capped(self.name.push(low_byte(c)), MAX_TITLE_BYTES as int),
                        ..self
                    }
                }
            } else if c == '\n' {
                self.with_mode(self.mode().newline())
            } else if c == '\u{8}' || c == '\u{7f}' {
                self.with_mode(self.mode().backspace())
            } else if drawable(c) {
                self.with_mode(self.mode().insert_char(c))
            } else {
                self
            },
        }
    }

    /// The pane that has the keyboard holds an editor whose file name is not UTF-8.
    pub open spec fn unsavable(self) -> bool {
        self.mode() matches Mode::Editor { filename, .. } && !valid_utf8(filename)
    }

    /// The key makes the pane's browser ask for a file.
    pub open spec fn key_opens(self, key: Key) -> bool {
        key matches Key::Unicode(c) && !self.editing_name && drawable(c) && self.mode().opens(c)
    }

    /// The key ends the typing of a file name.
    pub open spec fn key_names(self, key: Key) -> bool {
        key == Key::Unicode('\n') && self.editing_name
    }

    /// The shell after the pane `slot` has left its mode for a browser on a fresh
    /// listing; `error` is what storage said if it refused the document.
    pub open spec fn exited(
        self,
        slot: Active,
        error: Option<Seq<u8>>,
        num_files: int,
        names: [[u8; 10]; 30],
    ) -> Shell {
        Shell {
            modes: self.modes.update(slot.spec_index(), listing(num_files, names)),
            name: match error {
                Some(e) => save_failed_text(e),
                None => self.name,
            },
            ..self
        }
    }

    /// The mode that the pane `slot` goes to when the file asked for has been read, if
    /// it goes to one. `contents` is `None` where the file could not be read.
    pub open spec fn opening(open: Open, contents: Option<Seq<u8>>) -> Option<Mode> {
        match contents {
            Some(bytes) => Mode::opened(open.name@, open.run, bytes),
            None => None,
        }
    }

    /// The shell after storage has been asked to create a file and has listed the
    /// directory anew: every browser shows the new listing; `error` is what storage said
    /// if it refused.
    pub open spec fn refreshed(
        self,
        error: Option<Seq<u8>>,
        num_files: int,
        names: [[u8; 10]; 30],
    ) -> Shell {
        Shell {
            modes: Seq::new(
                SLOTS as nat,
                |i: int|
                    if self.modes[i] is Browser {
                        listing(num_files, names)
                    } else {
                        self.modes[i]
                    },
            ),
            name: match error {
                Some(e) => create_failed_text(e),
                None => self.name,
            },
            ..self
        }
    }
}

/// `cells` are the writes that blank the pane, column by column.
pub open spec fn is_cleared(cells: Seq<Cell>, window: Window) -> bool {
    &&& cells.len() == window.spec_width() * window.spec_height()
    &&& forall|x: int, y: int|
        0 <= x < window.spec_width() && 0 <= y < window.spec_height() ==> #[trigger] cells[x
            * window.spec_height() + y] == window.cell(BLANK, x, y, plain())
}

/// `frame` shows the shell.
pub open spec fn shows_shell(frame: Frame, shell: Shell) -> bool {
    &&& frame.panes@.len() == SLOTS
    &&& forall|i: int|
        0 <= i < SLOTS ==> shows_mode((#[trigger] frame.panes@[i])@, pane(i), shell.modes[i])
    &&& frame.rename_bar@ == bar_cells(shell.name, shell.editing_name)
    &&& frame.task_manager@ == task_cells(shell.ticks)
}

/// Every write of a frame's panes lands inside the pane of its slot, and so on the
/// display.
pub proof fn law_panes_stay_apart(frame: Frame, shell: Shell, slot: int, k: int)
    requires
        shows_shell(frame, shell),
        0 <= slot < SLOTS,
        0 <= k < frame.panes@[slot]@.len(),
    ensures
        pane(slot).holds(frame.panes@[slot]@[k]),
        frame.panes@[slot]@[k].on_screen(),
{
    lemma_panes(slot);
    crate::app::law_writes_stay_in_pane(frame.panes@[slot]@, pane(slot), shell.modes[slot], k);
}

/// `request` is what the session needs from its interpreter.
pub open spec fn asks_for(request: Request, session: Session) -> bool {
    &&& session.wants_step() ==> request == Request::Step
    &&& session.wants_input() ==> (request matches Request::Input(line) && line@ == session.line())
}

/// The shell: four panes, each with an editor, a file browser or a script session, one of
/// them with the keyboard, a bar for a file name, and the tick counters.
pub struct SwimInterface {
    rename_bar: RenameBar,
    editing_name: bool,
    task_manager: TaskManager,
    active: Active,
    apps: [App; 4],
    ticks: [usize; 4],
    last_ticked: usize,
    scan_left: usize,
}

impl View for SwimInterface {
    type V = Shell;

    closed spec fn view(&self) -> Shell {
        Shell {
            modes: Seq::new(SLOTS as nat, |i: int| self.apps[i]@),
            ticks: Seq::new(SLOTS as nat, |i: int| self.ticks[i] as int),
            last_ticked: self.last_ticked as int,
            scan_left: self.scan_left as int,
            active: self.active,
            editing_name: self.editing_name,
            name: self.rename_bar.name@,
        }
    }
}

/// The pane of slot `slot`.
pub fn pane_of(slot: usize) -> (window: Window)
    ensures
        window == pane(slot as int),
        window.wf(),
        Explorer::fits(window),
{
    if slot == 0 {
        Window::new(1, 2, WIN_WIDTH, HEIGHT_UP)
    } else if slot == 1 {
        Window::new(1 + 1 + WIN_WIDTH, 2, WIN_WIDTH, HEIGHT_UP)
    } else if slot == 2 {
        Window::new(1, 2 + 1 + HEIGHT_UP, WIN_WIDTH, HEIGHT_DOWN)
    } else {
        Window::new(1 + 1 + WIN_WIDTH, 2 + 1 + HEIGHT_UP, WIN_WIDTH, HEIGHT_DOWN)
    }
}

/// Every pane is large enough for each mode.
pub proof fn lemma_panes(slot: int)
    ensures
        pane(slot).wf(),
        Explorer::fits(pane(slot)),
{
}

impl SwimInterface {
    /// Every pane's mode is well formed and lies in the pane of its slot.
    pub closed spec fn storage_wf(&self) -> bool {
        &&& self.rename_bar.name.wf()
        &&& forall|i: int|
            0 <= i < SLOTS ==> (#[trigger] self.apps[i]).wf() && self.apps[i].window() == pane(i)
    }

    /// The shell's invariant.
    pub open spec fn wf(&self) -> bool {
        &&& self.storage_wf()
        &&& self@.wf()
    }

    /// The shell at the start, for a directory of `num_files` entries.
    pub fn new(num_files: usize, names: [[u8; 10]; 30]) -> (shell: SwimInterface)
        requires
            num_files <= MAX_FILES_STORED,
        ensures
            shell.wf(),
            shell@ == Shell::initial(num_files as int, names),
    {
        let apps = [
            App::Explorer(Explorer::new(pane_of(0), num_files, names)),
            App::Explorer(Explorer::new(pane_of(1), num_files, names)),
            App::Explorer(Explorer::new(pane_of(2), num_files, names)),
            App::Explorer(Explorer::new(pane_of(3), num_files, names)),
        ];
        let shell = SwimInterface {
            rename_bar: RenameBar { name: ByteString::new() },
            editing_name: false,
            task_manager: TaskManager,
            active: Active::TopLeft,
            apps,
            ticks: [0, 0, 0, 0],
            last_ticked: 0,
            scan_left: 0,
        };
        proof {
            assert(shell@.modes =~= Shell::initial(num_files as int, names).modes);
            assert(shell@.ticks =~= Shell::initial(num_files as int, names).ticks);
        }
        shell
    }

    /// The pane that has the keyboard.
    pub fn active(&self) -> (active: Active)
        ensures
            active == self@.active,
    {
        self.active
    }

    /// Whether a file name is being typed.
    pub fn editing_name(&self) -> (editing: bool)
        ensures
            editing == self@.editing_name,
    {
        self.editing_name
    }

    /// The text of the bar: the file name being typed, or a message.
    pub fn name(&self) -> (name: Vec<u8>)
        requires
            self.wf(),
        ensures
            name@ == self@.name,
    {
        self.rename_bar.name.to_vec()
    }

    /// The tick counter of a slot.
    pub fn ticks(&self, slot: Active) -> (count: usize)
        ensures
            count == self@.ticks[slot.spec_index()],
    {
        self.ticks[slot.index()]
    }

    /// The slot that the scan looked at last.
    pub fn last_ticked(&self) -> (slot: usize)
        ensures
            slot == self@.last_ticked,
    {
        self.last_ticked
    }

    /// The mode of a slot.
    pub fn app(&self, slot: Active) -> (app: &App)
        requires
            self.wf(),
        ensures
            app@ == self@.modes[slot.spec_index()],
            app.wf(),
            app.window() == pane(slot.spec_index()),
    {
        &self.apps[slot.index()]
    }

    /// The titles of the four panes.
    fn titles(&self) -> (titles: [Vec<u8>; 4])
        requires
            self.wf(),
        ensures
            crate::frame::title_seq(&titles) == self@.titles(),
            forall|i: int| 0 <= i < 4 ==> (#[trigger] titles[i])@.len() <= 64,
    {
        let t0 = self.apps[0].title();
        let t1 = self.apps[1].title();
        let t2 = self.apps[2].title();
        let t3 = self.apps[3].title();
        proof {
            t0.lemma_len_bounded();
            t1.lemma_len_bounded();
            t2.lemma_len_bounded();
            t3.lemma_len_bounded();
        }
        let titles = [t0.to_vec(), t1.to_vec(), t2.to_vec(), t3.to_vec()];
        assert(crate::frame::title_seq(&titles) =~= self@.titles());
        titles
    }

    /// Gives the pane `new` the keyboard and appends the writes that draw the frames of
    /// the pane that had it and of the pane that has it now.
    fn switch_active(&mut self, new: Active, cells: &mut Vec<Cell>)
        requires
            old(self).wf(),
        ensures
            final(self).wf(),
            final(self)@ == (Shell { active: new, ..old(self)@ }),
            final(cells)@ == old(cells)@ + switch_cells(old(self)@.titles(), old(self)@.active, new),
    {
        let titles = self.titles();
        self.active.draw(&titles, false, cells);
        self.active = new;
        self.active.draw(&titles, true, cells);
        proof {
            assert(self@.modes =~= old(self)@.modes);
            assert(self@.ticks =~= old(self)@.ticks);
            assert(cells@ =~= old(cells)@ + switch_cells(
                old(self)@.titles(),
                old(self)@.active,
                new,
            ));
        }
    }

    /// Draws the frames of all four panes by giving each the keyboard in turn, the upper
    /// left pane last.
    pub fn init(&mut self) -> (cells: Vec<Cell>)
        requires
            old(self).wf(),
        ensures
            final(self).wf(),
            final(self)@ == (Shell { active: Active::TopLeft, ..old(self)@ }),
            cells@ == switch_cells(old(self)@.titles(), old(self)@.active, Active::TopRight)
                + switch_cells(old(self)@.titles(), Active::TopRight, Active::BottomLeft)
                + switch_cells(old(self)@.titles(), Active::BottomLeft, Active::BottomRight)
                + switch_cells(old(self)@.titles(), Active::BottomRight, Active::TopLeft),
    {
        let mut cells: Vec<Cell> = Vec::new();
        self.switch_active(Active::TopRight, &mut cells);
        self.switch_active(Active::BottomLeft, &mut cells);
        self.switch_active(Active::BottomRight, &mut cells);
        self.switch_active(Active::TopLeft, &mut cells);
        cells
    }

    /// Draws every pane, the bar and the tick counters.
    pub fn draw_current(&mut self) -> (frame: Frame)
        requires
            old(self).wf(),
        ensures
            final(self).wf(),
            final(self)@ == old(self)@.drawn(),
            shows_shell(frame, final(self)@),
    {
        let mut panes: Vec<Vec<Cell>> = Vec::new();
        let mut i: usize = 0;
        while i < SLOTS
            invariant
                i <= SLOTS,
                self.wf(),
                self.rename_bar == old(self).rename_bar,
                self.editing_name == old(self).editing_name,
                self.active == old(self).active,
                self.ticks == old(self).ticks,
                self.last_ticked == old(self).last_ticked,
                self.scan_left == old(self).scan_left,
                panes@.len() == i,
                forall|k: int|
                    0 <= k < i ==> (#[trigger] self.apps[k])@ == old(self).apps[k]@.drawn(
                        pane(k).spec_width(),
                        pane(k).spec_height(),
                    ),
                forall|k: int| i <= k < SLOTS ==> #[trigger] self.apps[k] == old(self).apps[k],
                forall|k: int|
                    0 <= k < i ==> shows_mode((#[trigger] panes@[k])@, pane(k), self.apps[k]@),
            decreases SLOTS - i,
        {
            let ghost before = *self;
            let ghost before_panes = panes@;
            let cells = self.apps[i].draw();
            panes.push(cells);
            proof {
                assert forall|k: int| 0 <= k < SLOTS implies (#[trigger] self.apps[k]).wf()
                    && self.apps[k].window() == pane(k) by {
                    if k != i {
                        assert(self.apps[k] == before.apps[k]);
                    }
                }
                assert(self@.ticks =~= before@.ticks);
                assert forall|k: int| 0 <= k < i + 1 implies shows_mode(
                    (#[trigger] panes@[k])@,
                    pane(k),
                    self.apps[k]@,
                ) by {
                    if k < i {
                        assert(panes@[k] == before_panes[k]);
                        assert(self.apps[k] == before.apps[k]);
                    }
                }
            }
            i += 1;
        }
        let rename_bar = self.rename_bar.draw(self.editing_name);
        let task_manager = self.task_manager.draw(&self.ticks);
        proof {
            assert(self@.modes =~= old(self)@.drawn().modes);
            assert(self@.ticks =~= old(self)@.ticks);
            assert(Seq::new(4, |i: int| self.ticks[i] as int) =~= self@.ticks);
        }
        Frame { panes, rename_bar, task_manager }
    }

    /// Goes on with the scan of an overall tick until a script session needs its
    /// interpreter or no slot is left to look at.
    fn scan(&mut self) -> (turn: Option<(Active, Request)>)
        requires
            old(self).wf(),
        ensures
            final(self).wf(),
            final(self)@ == old(self)@.scan().0,
            final(self)@.scan_left == 0 || turn is Some,
            match old(self)@.scan().1 {
                Some(slot) => {
                    &&& turn matches Some(asked)
                    &&& asked.0.spec_index() == slot
                    &&& final(self)@.session(slot) matches Some(session)
                    &&& asks_for(asked.1, session)
                },
                None => turn is None,
            },
    {
        while self.scan_left > 0
            invariant
                self.wf(),
                self@.scan() == old(self)@.scan(),
            decreases self.scan_left,
        {
            let ghost before = self@;
            self.scan_left -= 1;
            self.last_ticked = (self.last_ticked + 1) % SLOTS;
            let slot = self.last_ticked;
            proof {
                assert(self@.modes =~= before.modes);
                assert(self@.ticks =~= before.ticks);
                assert(self@ == (Shell {
                    last_ticked: slot as int,
                    scan_left: before.scan_left - 1,
                    ..before
                }));
            }
            match &self.apps[slot] {
                App::RunningScript(running_script) => {
                    let request = running_script.request();
                    match request {
                        Request::Nothing => {},
                        _ => {
                            return Some((Active::from_index(slot), request));
                        },
                    }
                },
                _ => {},
            }
        }
        None
    }

    /// Starts an overall tick: looks at up to four slots, beginning behind the slot
    /// looked at last, for a script session that needs its interpreter. Where there is
    /// none, the tick is over and the display is drawn.
    pub fn tick(&mut self) -> (tick: Tick)
        requires
            old(self).wf(),
        ensures
            final(self).wf(),
            match old(self)@.tick().1 {
                Some(slot) => {
                    &&& final(self)@ == old(self)@.tick().0
                    &&& tick matches Tick::Ask { slot: asked, request }
                    &&& asked.spec_index() == slot
                    &&& final(self)@.session(slot) matches Some(session)
                    &&& asks_for(request, session)
                },
                None => {
                    &&& final(self)@ == old(self)@.tick().0.drawn()
                    &&& tick matches Tick::Done(frame)
                    &&& shows_shell(frame, final(self)@)
                },
            },
    {
        self.scan_left = SCAN_SLOTS;
        proof {
            assert(self@.modes =~= old(self)@.modes);
            assert(self@.ticks =~= old(self)@.ticks);
        }
        self.finish()
    }

    /// Goes on with an overall tick after the interpreter's reply for the slot that was
    /// asked about: the slot's session takes its tick; where its script did work the
    /// slot's counter goes up and the tick is over, else the scan goes on.
    pub fn resume(&mut self, reply: &Reply) -> (tick: Tick)
        requires
            old(self).wf(),
            old(self)@.ticks[old(self)@.last_ticked] < usize::MAX,
        ensures
            final(self).wf(),
            match old(self)@.resume(*reply).1 {
                Some(slot) => {
                    &&& final(self)@ == old(self)@.resume(*reply).0
                    &&& tick matches Tick::Ask { slot: asked, request }
                    &&& asked.spec_index() == slot
                    &&& final(self)@.session(slot) matches Some(session)
                    &&& asks_for(request, session)
                },
                None => {
                    &&& final(self)@ == old(self)@.resume(*reply).0.drawn()
                    &&& tick matches Tick::Done(frame)
                    &&& shows_shell(frame, final(self)@)
                },
            },
    {
        self.answer(reply);
        self.finish()
    }

    /// Scans, and draws the display where the scan finds nothing to ask.
    fn finish(&mut self) -> (tick: Tick)
        requires
            old(self).wf(),
        ensures
            final(self).wf(),
            match old(self)@.scan().1 {
                Some(slot) => {
                    &&& final(self)@ == old(self)@.scan().0
                    &&& tick matches Tick::Ask { slot: asked, request }
                    &&& asked.spec_index() == slot
                    &&& final(self)@.session(slot) matches Some(session)
                    &&& asks_for(request, session)
                },
                None => {
                    &&& final(self)@ == old(self)@.scan().0.drawn()
                    &&& tick matches Tick::Done(frame)
                    &&& shows_shell(frame, final(self)@)
                },
            },
    {
        match self.scan() {
            Some((slot, request)) => Tick::Ask { slot, request },
            None => Tick::Done(self.draw_current()),
        }
    }

    /// Hands the interpreter's reply to the session of the slot looked at last.
    fn answer(&mut self, reply: &Reply)
        requires
            old(self).wf(),
            old(self)@.ticks[old(self)@.last_ticked] < usize::MAX,
        ensures
            final(self).wf(),
            final(self)@ == old(self)@.answer(*reply),
    {
        let slot = self.last_ticked;
        let ghost before = *self;
        let mut did_work = false;
        match &mut self.apps[slot] {
            App::RunningScript(running_script) => {
                did_work = running_script.tick(reply);
            },
            _ => {},
        }
        proof {
            assert forall|k: int| 0 <= k < SLOTS implies (#[trigger] self.apps[k]).wf()
                && self.apps[k].window() == pane(k) by {
                if k != slot {
                    assert(self.apps[k] == before.apps[k]);
                }
            }
        }
        if did_work {
            self.ticks[slot] += 1;
            // only one script makes progress in an overall tick
            self.scan_left = 0;
        }
        proof {
            let goal = before@.answer(*reply);
            assert(self@.modes =~= goal.modes);
            assert(self@.ticks =~= goal.ticks);
        }
    }

    /// Takes a key. Returns the work on files that the key asks for, to be reported with
    /// `exited`, `opened` or `refreshed`, and the writes that redraw frames.
    pub fn key(&mut self, key: Key) -> (outcome: Outcome)
        requires
            old(self).wf(),
        ensures
            final(self).wf(),
            final(self)@ == old(self)@.key(key),
            outcome.cells@ == match key {
                Key::Raw(RawKey::F1) => switch_cells(
                    old(self)@.titles(),
                    old(self)@.active,
                    Active::TopLeft,
                ),
                Key::Raw(RawKey::F2) => switch_cells(
                    old(self)@.titles(),
                    old(self)@.active,
                    Active::TopRight,
                ),
                Key::Raw(RawKey::F3) => switch_cells(
                    old(self)@.titles(),
                    old(self)@.active,
                    Active::BottomLeft,
                ),
                Key::Raw(RawKey::F4) => switch_cells(
                    old(self)@.titles(),
                    old(self)@.active,
                    Active::BottomRight,
                ),
                _ => Seq::<Cell>::empty(),
            },
            key == Key::Raw(RawKey::F6) <==> outcome.job is Exit,
            outcome.job matches Job::Exit { slot, save } ==> {
                &&& slot == old(self)@.active
                &&& match old(self)@.mode() {
                    Mode::Editor { doc, filename } => if valid_utf8(filename) {
                        &&& save matches Some(job)
                        &&& job.name.wf()
                        &&& job.name@ == filename
                        &&& job.data@ == doc.dump(MAX_FILE_BYTES as int)
                    } else {
                        save is None
                    },
                    _ => save is None,
                }
            },
            old(self)@.key_opens(key) <==> outcome.job is Open,
            outcome.job matches Job::Open { slot, open } ==> {
                &&& slot == old(self)@.active
                &&& open.name.wf()
                &&& open.name@ == old(self)@.mode().selected_name()
                &&& open.run == (key == Key::Unicode('r'))
            },
            old(self)@.key_names(key) <==> outcome.job is Refresh,
            outcome.job matches Job::Refresh { create } ==> {
                if old(self)@.name.len() == 0 {
                    create is None
                } else {
                    create matches Some(name) && name.wf() && name@ == old(self)@.name
                }
            },
    {
        match key {
            Key::Raw(code) => self.handle_raw(code),
            Key::Unicode(c) => self.handle_unicode(c),
        }
    }

    /// Takes a key that has a name.
    fn handle_raw(&mut self, key: RawKey) -> (outcome: Outcome)
        requires
            old(self).wf(),
        ensures
            final(self).wf(),
            final(self)@ == old(self)@.key(Key::Raw(key)),
            outcome.cells@ == match key {
                RawKey::F1 => switch_cells(old(self)@.titles(), old(self)@.active, Active::TopLeft),
                RawKey::F2 => switch_cells(old(self)@.titles(), old(self)@.active, Active::TopRight),
                RawKey::F3 => switch_cells(
                    old(self)@.titles(),
                    old(self)@.active,
                    Active::BottomLeft,
                ),
                RawKey::F4 => switch_cells(
                    old(self)@.titles(),
                    old(self)@.active,
                    Active::BottomRight,
                ),
                _ => Seq::<Cell>::empty(),
            },
            key == RawKey::F6 <==> outcome.job is Exit,
            !(outcome.job is Open),
            !(outcome.job is Refresh),
            outcome.job matches Job::Exit { slot, save } ==> {
                &&& slot == old(self)@.active
                &&& match old(self)@.mode() {
                    Mode::Editor { doc, filename } => if valid_utf8(filename) {
                        &&& save matches Some(job)
                        &&& job.name.wf()
                        &&& job.name@ == filename
                        &&& job.data@ == doc.dump(MAX_FILE_BYTES as int)
                    } else {
                        save is None
                    },
                    _ => save is None,
                }
            },
    {
        let mut cells: Vec<Cell> = Vec::new();
        let ghost before = *self;
        let slot = self.active.index();
        let mut job = Job::Idle;
        match key {
            RawKey::F1 => self.switch_active(Active::TopLeft, &mut cells),
            RawKey::F2 => self.switch_active(Active::TopRight, &mut cells),
            RawKey::F3 => self.switch_active(Active::BottomLeft, &mut cells),
            RawKey::F4 => self.switch_active(Active::BottomRight, &mut cells),
            RawKey::F5 => {
                self.editing_name = true;
                self.rename_bar.name.clear();
            },
            RawKey::F6 => {
                let exit = self.apps[slot].exit();
                if exit.save.is_none() && exit.message.len() > 0 {
                    self.rename_bar.name = exit.message;
                }
                proof {
                    reveal_strlit("couldn't save: ");
                    vstd::string::is_ascii_spec_bytes("couldn't save: ");
                    assert(vstd::string::is_ascii("couldn't save: "));
                    assert(save_failed_text("bad file name".spec_bytes()).len() > 0);
                }
                job = Job::Exit { slot: self.active, save: exit.save };
            },
            RawKey::ArrowLeft => self.apps[slot].arrow_left(),
            RawKey::ArrowRight => self.apps[slot].arrow_right(),
            RawKey::ArrowUp => self.apps[slot].arrow_up(),
            RawKey::ArrowDown => self.apps[slot].arrow_down(),
            RawKey::Other => {},
        }
        proof {
            let goal = before@.key(Key::Raw(key));
            if !(key is F1 || key is F2 || key is F3 || key is F4) {
                assert forall|k: int| 0 <= k < SLOTS implies (#[trigger] self.apps[k]).wf()
                    && self.apps[k].window() == pane(k) by {
                    if k != slot {
                        assert(self.apps[k] == before.apps[k]);
                    }
                }
            }
            assert(self@.modes =~= goal.modes);
            assert(self@.ticks =~= goal.ticks);
            assert(goal.name.len() <= MAX_TITLE_BYTES);
        }
        Outcome { job, cells }
    }

    /// Takes a key that stands for a character.
    fn handle_unicode(&mut self, key: char) -> (outcome: Outcome)
        requires
            old(self).wf(),
        ensures
            final(self).wf(),
            final(self)@ == old(self)@.key(Key::Unicode(key)),
            outcome.cells@ == Seq::<Cell>::empty(),
            !(outcome.job is Exit),
            old(self)@.key_opens(Key::Unicode(key)) <==> outcome.job is Open,
            outcome.job matches Job::Open { slot, open } ==> {
                &&& slot == old(self)@.active
                &&& open.name.wf()
                &&& open.name@ == old(self)@.mode().selected_name()
                &&& open.run == (key == 'r')
            },
            old(self)@.key_names(Key::Unicode(key)) <==> outcome.job is Refresh,
            outcome.job matches Job::Refresh { create } ==> {
                if old(self)@.name.len() == 0 {
                    create is None
                } else {
                    create matches Some(name) && name.wf() && name@ == old(self)@.name
                }
            },
    {
        let ghost before = *self;
        let slot = self.active.index();
        let mut job = Job::Idle;
        if self.editing_name {
            if key == '\n' {
                self.editing_name = false;
                if self.rename_bar.name.len() < 1 {
                    self.rename_bar.name.clear();
                    self.rename_bar.name.push_str("ERROR File name must be at least one character");
                    proof {
                        assert(Seq::<u8>::empty()
                            + "ERROR File name must be at least one character".spec_bytes()
                            =~= "ERROR File name must be at least one character".spec_bytes());
                    }
                    job = Job::Refresh { create: None };
                } else {
                    job = Job::Refresh { create: Some(self.rename_bar.name) };
                    self.rename_bar.name.clear();
                }
            } else {
                self.rename_bar.name.push_char(key);
            }
        } else {
            let open = if key == '\n' {
                self.apps[slot].newline()
            } else if key == '\u{8}' || key == '\u{7f}' {
                self.apps[slot].backspace()
            } else if is_drawable(key) {
                self.apps[slot].insert_char(key)
            } else {
                None
            };
            if let Some(open) = open {
                job = Job::Open { slot: self.active, open };
            }
        }
        proof {
            let goal = before@.key(Key::Unicode(key));
            assert forall|k: int| 0 <= k < SLOTS implies (#[trigger] self.apps[k]).wf()
                && self.apps[k].window() == pane(k) by {
                if k != slot {
                    assert(self.apps[k] == before.apps[k]);
                }
            }
            self.rename_bar.name.lemma_len_bounded();
            assert(self@.modes =~= goal.modes);
            assert(self@.ticks =~= goal.ticks);
        }
        Outcome { job, cells: Vec::new() }
    }

    /// Puts a browser on a fresh listing of the directory into the pane `slot`, which has
    /// left its mode, and draws the frame of the pane with the keyboard anew. `error` is
    /// what storage said if it refused the pane's document.
    pub fn exited(
        &mut self,
        slot: Active,
        error: Option<Vec<u8>>,
        num_files: usize,
        names: [[u8; 10]; 30],
    ) -> (cells: Vec<Cell>)
        requires
            old(self).wf(),
            num_files <= MAX_FILES_STORED,
        ensures
            final(self).wf(),
            final(self)@ == old(self)@.exited(
                slot,
                match error {
                    Some(e) => Some(e@),
                    None => None,
                },
                num_files as int,
                names,
            ),
            cells@ == switch_cells(final(self)@.titles(), final(self)@.active, final(self)@.active),
    {
        let ghost before = *self;
        let i = slot.index();
        let window = self.apps[i].window();
        proof {
            lemma_panes(i as int);
        }
        self.apps[i] = App::Explorer(Explorer::new(window, num_files, names));
        if let Some(e) = &error {
            self.rename_bar.name = save_failed(e.as_slice());
        }
        proof {
            let goal = before@.exited(
                slot,
                match error {
                    Some(e) => Some(e@),
                    None => None,
                },
                num_files as int,
                names,
            );
            assert forall|k: int| 0 <= k < SLOTS implies (#[trigger] self.apps[k]).wf()
                && self.apps[k].window() == pane(k) by {
                if k != i {
                    assert(self.apps[k] == before.apps[k]);
                }
            }
            self.rename_bar.name.lemma_len_bounded();
            assert(self@.modes =~= goal.modes);
            assert(self@.ticks =~= goal.ticks);
        }
        let mut cells: Vec<Cell> = Vec::new();
        self.switch_active(self.active, &mut cells);
        cells
    }

    /// Puts the mode that the file opens in into the pane `slot` and draws the frame of
    /// the pane with the keyboard anew. `contents` is what was read, or `None` where the
    /// file could not be read. Where the file opens in no mode, nothing happens.
    pub fn opened(&mut self, slot: Active, open: &Open, contents: Option<Vec<u8>>) -> (done: Opened)
        requires
            old(self).wf(),
            open.name.wf(),
        ensures
            final(self).wf(),
            match Shell::opening(
                *open,
                match contents {
                    Some(c) => Some(c@),
                    None => None,
                },
            ) {
                Some(mode) => {
                    &&& final(self)@ == (Shell {
                        modes: old(self)@.modes.update(slot.spec_index(), mode),
                        ..old(self)@
                    })
                    &&& done.started == open.run
                    &&& done.frame@ == switch_cells(
                        final(self)@.titles(),
                        final(self)@.active,
                        final(self)@.active,
                    )
                    &&& !open.run ==> done.cleared@.len() == 0
                    &&& open.run ==> is_cleared(done.cleared@, pane(slot.spec_index()))
                },
                None => {
                    &&& final(self)@ == old(self)@
                    &&& !done.started
                    &&& done.cleared@.len() == 0
                    &&& done.frame@.len() == 0
                },
            },
    {
        let ghost before = *self;
        let i = slot.index();
        let window = self.apps[i].window();
        let made = match contents {
            Some(bytes) => App::opened(window, open, bytes.as_slice()),
            None => None,
        };
        match made {
            Some((app, cleared)) => {
                self.apps[i] = app;
                proof {
                    assert forall|k: int| 0 <= k < SLOTS implies (#[trigger] self.apps[k]).wf()
                        && self.apps[k].window() == pane(k) by {
                        if k != i {
                            assert(self.apps[k] == before.apps[k]);
                        }
                    }
                    assert(self@.modes =~= before@.modes.update(slot.spec_index(), app@));
                    assert(self@.ticks =~= before@.ticks);
                }
                let mut frame: Vec<Cell> = Vec::new();
                self.switch_active(self.active, &mut frame);
                Opened { started: open.run, cleared, frame }
            },
            None => Opened { started: false, cleared: Vec::new(), frame: Vec::new() },
        }
    }

    /// Shows a fresh listing of the directory in every browser, after storage has been
    /// asked to create a file. `error` is what storage said if it refused.
    pub fn refreshed(&mut self, error: Option<Vec<u8>>, num_files: usize, names: [[u8; 10]; 30])
        requires
            old(self).wf(),
            num_files <= MAX_FILES_STORED,
        ensures
            final(self).wf(),
            final(self)@ == old(self)@.refreshed(
                match error {
                    Some(e) => Some(e@),
                    None => None,
                },
                num_files as int,
                names,
            ),
    {
        let ghost before = *self;
        if let Some(e) = &error {
            self.rename_bar.name.clear();
            self.rename_bar.name.push_str("ERROR ");
            proof {
                assert(Seq::<u8>::empty() + "ERROR ".spec_bytes() =~= "ERROR ".spec_bytes());
                lemma_capped_append("ERROR ".spec_bytes(), e@, MAX_TITLE_BYTES as int);
            }
            self.rename_bar.name.push_all(e.as_slice());
        }
        let mut i: usize = 0;
        while i < SLOTS
            invariant
                i <= SLOTS,
                num_files <= MAX_FILES_STORED,
                self.rename_bar.name.wf(),
                self.rename_bar.name@ == before@.refreshed(
                    match error {
                        Some(e) => Some(e@),
                        None => None,
                    },
                    num_files as int,
                    names,
                ).name,
                self.editing_name == before.editing_name,
                self.active == before.active,
                self.ticks == before.ticks,
                self.last_ticked == before.last_ticked,
                self.scan_left == before.scan_left,
                forall|k: int|
                    0 <= k < SLOTS ==> (#[trigger] self.apps[k]).wf() && self.apps[k].window()
                        == pane(k),
                forall|k: int|
                    0 <= k < i ==> (#[trigger] self.apps[k])@ == if before.apps[k]@ is Browser {
                        listing(num_files as int, names)
                    } else {
                        before.apps[k]@
                    },
                forall|k: int| i <= k < SLOTS ==> #[trigger] self.apps[k] == before.apps[k],
            decreases SLOTS - i,
        {
            let ghost prior = *self;
            let refresh = match &self.apps[i] {
                App::Explorer(exp) => Some(exp.window()),
                _ => None,
            };
            if let Some(window) = refresh {
                proof {
                    lemma_panes(i as int);
                }
                self.apps[i] = App::Explorer(Explorer::new(window, num_files, names));
            }
            proof {
                assert forall|k: int| 0 <= k < SLOTS implies (#[trigger] self.apps[k]).wf()
                    && self.apps[k].window() == pane(k) by {
                    if k != i {
                        assert(self.apps[k] == prior.apps[k]);
                    }
                }
                assert forall|k: int| 0 <= k < i + 1 implies (#[trigger] self.apps[k])@
                    == if before.apps[k]@ is Browser {
                    listing(num_files as int, names)
                } else {
                    before.apps[k]@
                } by {
                    if k < i {
                        assert(self.apps[k] == prior.apps[k]);
                    }
                }
            }
            i += 1;
        }
        proof {
            let goal = before@.refreshed(
                match error {
                    Some(e) => Some(e@),
                    None => None,
                },
                num_files as int,
                names,
            );
            self.rename_bar.name.lemma_len_bounded();
            assert(self@.modes =~= goal.modes);
            assert(self@.ticks =~= goal.ticks);
        }
    }
}

} // verus!
