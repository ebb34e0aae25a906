use vstd::prelude::*;
use vstd::string::StringSliceAdditionalSpecFns;
use vstd::utf8::valid_utf8;
use crate::document::Document;
use crate::editor::{shows, TextEditor, MAX_FILE_BYTES};
use crate::explorer::{
    grid_cell, name_of, selection_down, selection_left, selection_right, selection_up, Explorer,
    MAX_FILENAME_BYTES, MAX_FILES_STORED,
};
use crate::grid::paint;
use crate::screen::{Cell, BLANK};
use crate::script::{start_offset, terminal_glyph, RunningScript, Session};
use crate::text::{capped, is_utf8, lemma_capped_append, ByteString};
use crate::window::Window;

verus! {

/// Most bytes of a title or a message.
pub const MAX_TITLE_BYTES: usize = 64;

/// The mathematical content of a pane's mode.
pub enum Mode {
    Editor { doc: Document, filename: Seq<u8> },
    Browser { selected: int, num_files: int, entries: Seq<Seq<u8>> },
    Script { session: Session, filename: Seq<u8> },
}

/// A file that the browser asks to have opened: to be edited, or to be run.
pub struct Open {
    pub name: ByteString<MAX_FILENAME_BYTES>,
    pub run: bool,
}

/// A document to be written to a file.
pub struct Save {
    pub name: ByteString<MAX_FILENAME_BYTES>,
    pub data: Vec<u8>,
}

/// What leaving a mode leaves behind: the pane, what is to be saved, and a message for the
/// user where saving cannot even be tried.
pub struct Exit {
    pub window: Window,
    pub save: Option<Save>,
    pub message: ByteString<MAX_TITLE_BYTES>,
}

/// The name as a title shows it.
pub open spec fn shown_name(filename: Seq<u8>) -> Seq<u8> {
    if valid_utf8(filename) {
        filename
    } else {
        "INVALID_NAME".spec_bytes()
    }
}

/// The message for a document that storage refused, with storage's own words.
pub open spec fn save_failed_text(error: Seq<u8>) -> Seq<u8> {
    capped("couldn't save: ".spec_bytes() + error, MAX_TITLE_BYTES as int)
}

/// The message for a document that storage refused.
pub fn save_failed(error: &[u8]) -> (message: ByteString<MAX_TITLE_BYTES>)
    ensures
        message.wf(),
        message@ == save_failed_text(error@),
{
    let mut a: ByteString<MAX_TITLE_BYTES> = ByteString::new();
    a.push_str("couldn't save: ");
    let ghost first = a@;
    a.push_all(error);
    proof {
        assert(Seq::<u8>::empty() + "couldn't save: ".spec_bytes() =~= "couldn't save: ".spec_bytes());
        lemma_capped_append("couldn't save: ".spec_bytes(), error@, MAX_TITLE_BYTES as int);
    }
    a
}

impl Mode {
    /// The title over the pane.
    pub open spec fn title(self) -> Seq<u8> {
        match self {
            Mode::Editor { filename, .. } => capped(
                "EDIT:".spec_bytes() + shown_name(filename) + ",F6 to exit".spec_bytes(),
                MAX_TITLE_BYTES as int,
            ),
            Mode::Browser { .. } => capped("(e)dit,(r)un".spec_bytes(), MAX_TITLE_BYTES as int),
            Mode::Script { filename, .. } => capped(
                "RUN:".spec_bytes() + shown_name(filename) + ",F6 to exit".spec_bytes(),
                MAX_TITLE_BYTES as int,
            ),
        }
    }

    pub open spec fn arrow_left(self) -> Mode {
        match self {
            Mode::Editor { doc, filename } => Mode::Editor { doc: doc.arrow_left(), filename },
            Mode::Browser { selected, num_files, entries } => Mode::Browser {
                selected: selection_left(selected),
                num_files,
                entries,
            },
            Mode::Script { .. } => self,
        }
    }

    pub open spec fn arrow_right(self) -> Mode {
        match self {
            Mode::Editor { doc, filename } => Mode::Editor { doc: doc.arrow_right(), filename },
            Mode::Browser { selected, num_files, entries } => Mode::Browser {
                selected: selection_right(selected, num_files),
                num_files,
                entries,
            },
            Mode::Script { .. } => self,
        }
    }

    pub open spec fn arrow_up(self) -> Mode {
        match self {
            Mode::Editor { doc, filename } => Mode::Editor { doc: doc.arrow_up(), filename },
            Mode::Browser { selected, num_files, entries } => Mode::Browser {
                selected: selection_up(selected),
                num_files,
                entries,
            },
            Mode::Script { .. } => self,
        }
    }

    pub open spec fn arrow_down(self) -> Mode {
        match self {
            Mode::Editor { doc, filename } => Mode::Editor { doc: doc.arrow_down(), filename },
            Mode::Browser { selected, num_files, entries } => Mode::Browser {
                selected: selection_down(selected, num_files),
                num_files,
                entries,
            },
            Mode::Script { .. } => self,
        }
    }

    /// The Enter key: it breaks the line of a document and ends a line of input to a
    /// script. The browser does not take it.
    pub open spec fn newline(self) -> Mode {
        match self {
            Mode::Editor { doc, filename } => Mode::Editor { doc: doc.newline(), filename },
            Mode::Browser { .. } => self,
            Mode::Script { session, filename } => Mode::Script {
                session: session.input('\n'),
                filename,
            },
        }
    }

    /// The Backspace key: it deletes in a document and goes to a script as the character
    /// with code 8. The browser does not take it.
    pub open spec fn backspace(self) -> Mode {
        match self {
            Mode::Editor { doc, filename } => Mode::Editor { doc: doc.backspace(), filename },
            Mode::Browser { .. } => self,
            Mode::Script { session, filename } => Mode::Script {
                session: session.input('\u{8}'),
                filename,
            },
        }
    }

    /// A character key: it types into a document and into a script's transcript. The
    /// browser itself stays as it is.
    pub open spec fn insert_char(self, c: char) -> Mode {
        match self {
            Mode::Editor { doc, filename } => Mode::Editor { doc: doc.insert_char(c), filename },
            Mode::Browser { .. } => self,
            Mode::Script { session, filename } => Mode::Script { session: session.input(c), filename },
        }
    }

    /// The name of the browser's selected entry.
    pub open spec fn selected_name(self) -> Seq<u8> {
        match self {
            Mode::Browser { selected, entries, .. } => name_of(entries[selected]),
            _ => Seq::<u8>::empty(),
        }
    }

    /// Whether a character key makes the browser ask for a file: `e` and `r` do, for a
    /// selected entry whose name is UTF-8.
    pub open spec fn opens(self, c: char) -> bool {
        self is Browser && (c == 'r' || c == 'e') && valid_utf8(self.selected_name())
    }

    /// The mode after the display has been made to follow the cursor in a pane of this
    /// size.
    pub open spec fn drawn(self, width: int, height: int) -> Mode {
        match self {
            Mode::Editor { doc, filename } => Mode::Editor {
                doc: doc.keep_cursor_on_screen(width, height),
                filename,
            },
            _ => self,
        }
    }

    /// The mode that a file opens in: a script session where it is to be run and is
    /// UTF-8, an editor with the file typed into it where it is to be edited.
    pub open spec fn opened(name: Seq<u8>, run: bool, contents: Seq<u8>) -> Option<Mode> {
        if run {
            if valid_utf8(contents) {
                Some(Mode::Script { session: Session::fresh(), filename: name })
            } else {
                None
            }
        } else {
            Some(Mode::Editor { doc: Document::empty().replay(contents), filename: name })
        }
    }
}

/// `cells` are the writes that show `mode` in `window`.
pub open spec fn shows_mode(cells: Seq<Cell>, window: Window, mode: Mode) -> bool {
    match mode {
        Mode::Editor { doc, .. } => shows(cells, window, doc, window.spec_height()),
        Mode::Browser { selected, entries, .. } => {
            &&& cells.len() == MAX_FILES_STORED * MAX_FILENAME_BYTES
            &&& forall|k: int|
                0 <= k < cells.len() ==> #[trigger] cells[k] == grid_cell(
                    window,
                    entries,
                    selected,
                    k / (MAX_FILENAME_BYTES as int),
                    k % (MAX_FILENAME_BYTES as int),
                )
        },
        Mode::Script { session, .. } => {
            &&& cells.len() == window.spec_width() * window.spec_height()
            &&& forall|k: int|
                0 <= k < cells.len() ==> #[trigger] cells[k] == paint(
                    window,
                    terminal_glyph(
                        session.output.skip(
                            start_offset(session.output, window.spec_width(), window.spec_height()),
                        ),
                        window.spec_width(),
                        k,
                    ),
                    k % window.spec_width(),
                    k / window.spec_width(),
                )
        },
    }
}

/// No mode writes outside its pane: every write that shows a mode lands inside the pane,
/// for a browser as long as the pane is large enough for the file grid.
pub proof fn law_writes_stay_in_pane(cells: Seq<Cell>, window: Window, mode: Mode, k: int)
    requires
        window.wf(),
        mode is Browser ==> Explorer::fits(window),
        shows_mode(cells, window, mode),
        0 <= k < cells.len(),
    ensures
        window.holds(cells[k]),
{
    let w = window.spec_width();
    let h = window.spec_height();
    match mode {
        Mode::Browser { .. } => {
            let idx = k / (MAX_FILENAME_BYTES as int);
            let ci = k % (MAX_FILENAME_BYTES as int);
            assert(0 <= idx < 30 && 0 <= ci < 10);
            assert(0 <= idx % 3 < 3 && 0 <= idx / 3 < 10);
        },
        _ => {
            assert(h * w == w * h) by (nonlinear_arith);
            crate::grid::lemma_cell_position(k, w, h);
        },
    }
}

/// What a pane holds: an editor, a file browser or a script session.
pub enum App {
    TextEditor(TextEditor),
    Explorer(Explorer),
    RunningScript(RunningScript),
}

impl View for App {
    type V = Mode;

    open spec fn view(&self) -> Mode {
        match self {
            App::TextEditor(text_editor) => Mode::Editor {
                doc: text_editor@,
                filename: text_editor.filename()@,
            },
            App::Explorer(explorer) => Mode::Browser {
                selected: explorer.selected() as int,
                num_files: explorer.num_files() as int,
                entries: explorer.entries(),
            },
            App::RunningScript(running_script) => Mode::Script {
                session: running_script@,
                filename: running_script.filename()@,
            },
        }
    }
}

impl App {
    /// The pane of the mode.
    pub open spec fn spec_window(&self) -> Window {
        match self {
            App::TextEditor(text_editor) => text_editor.window(),
            App::Explorer(explorer) => explorer.window(),
            App::RunningScript(running_script) => running_script.window(),
        }
    }

    /// The mode's own invariant holds, and its pane is large enough for it.
    pub open spec fn wf(&self) -> bool {
        match self {
            App::TextEditor(text_editor) => text_editor.wf() && text_editor.window().wf(),
            App::Explorer(explorer) => explorer.wf() && Explorer::fits(explorer.window()),
            App::RunningScript(running_script) => running_script.wf()
                && running_script.window().wf(),
        }
    }

    #[verifier::when_used_as_spec(spec_window)]
    pub fn window(&self) -> (window: Window)
        ensures
            window == self.spec_window(),
    {
        match self {
            App::TextEditor(text_editor) => text_editor.window(),
            App::Explorer(explorer) => explorer.window(),
            App::RunningScript(running_script) => running_script.window(),
        }
    }

    /// What leaving the mode leaves behind. An editor whose file name is UTF-8 leaves its
    /// document to be saved; one whose file name is not leaves a message.
    pub fn exit(&self) -> (exit: Exit)
        requires
            self.wf(),
        ensures
            exit.window == self.window(),
            exit.message.wf(),
            match self@ {
                Mode::Editor { doc, filename } => if valid_utf8(filename) {
                    &&& exit.save matches Some(save)
                    &&& save.name@ == filename
                    &&& save.name.wf()
                    &&& save.data@ == doc.dump(MAX_FILE_BYTES as int)
                    &&& exit.message@ == Seq::<u8>::empty()
                } else {
                    &&& exit.save is None
                    &&& exit.message@ == save_failed_text("bad file name".spec_bytes())
                },
                _ => exit.save is None && exit.message@ == Seq::<u8>::empty(),
            },
    {
        match self {
            App::TextEditor(text_editor) => {
                let name = text_editor.filename();
                if is_utf8(name.as_slice()) {
                    let data = text_editor.saved();
                    Exit {
                        window: text_editor.window(),
                        save: Some(Save { name, data }),
                        message: ByteString::new(),
                    }
                } else {
                    Exit {
                        window: text_editor.window(),
                        save: None,
                        message: save_failed("bad file name".as_bytes()),
                    }
                }
            },
            App::Explorer(explorer) => Exit {
                window: explorer.window(),
                save: None,
                message: ByteString::new(),
            },
            App::RunningScript(running_script) => Exit {
                window: running_script.window(),
                save: None,
                message: ByteString::new(),
            },
        }
    }

    /// The title over the pane.
    pub fn title(&self) -> (title: ByteString<MAX_TITLE_BYTES>)
        requires
            self.wf(),
        ensures
            title.wf(),
            title@ == self@.title(),
    {
        let mut a: ByteString<MAX_TITLE_BYTES> = ByteString::new();
        match self {
            App::TextEditor(text) => {
                let name = text.filename();
                Self::name_title(&mut a, "EDIT:", &name);
            },
            App::Explorer(_) => {
                a.push_str("(e)dit,(r)un");
                assert(Seq::<u8>::empty() + "(e)dit,(r)un".spec_bytes() =~= "(e)dit,(r)un".spec_bytes());
            },
            App::RunningScript(script) => {
                let name = script.filename();
                Self::name_title(&mut a, "RUN:", &name);
            },
        };
        a
    }

    /// Writes a title made of `prefix`, the file name as it is shown, and the hint at the
    /// exit key.
    fn name_title(
        a: &mut ByteString<MAX_TITLE_BYTES>,
        prefix: &str,
        name: &ByteString<MAX_FILENAME_BYTES>,
    )
        requires
            old(a).wf(),
            old(a)@ == Seq::<u8>::empty(),
            name.wf(),
        ensures
            final(a).wf(),
            final(a)@ == capped(
                prefix.spec_bytes() + shown_name(name@) + ",F6 to exit".spec_bytes(),
                MAX_TITLE_BYTES as int,
            ),
    {
        let ghost n = MAX_TITLE_BYTES as int;
        a.push_str(prefix);
        assert(Seq::<u8>::empty() + prefix.spec_bytes() =~= prefix.spec_bytes());
        if is_utf8(name.as_slice()) {
            a.push_all(name.as_slice());
        } else {
            a.push_str("INVALID_NAME");
        }
        proof {
            lemma_capped_append(prefix.spec_bytes(), shown_name(name@), n);
        }
        a.push_str(",F6 to exit");
        proof {
            lemma_capped_append(
                prefix.spec_bytes() + shown_name(name@),
                ",F6 to exit".spec_bytes(),
                n,
            );
        }
    }

    pub fn arrow_left(&mut self)
        requires
            old(self).wf(),
        ensures
            final(self).wf(),
            final(self)@ == old(self)@.arrow_left(),
            final(self).window() == old(self).window(),
    {
        match self {
            App::TextEditor(text_editor) => text_editor.arrow_left(),
            App::Explorer(explorer) => explorer.arrow_left(),
            App::RunningScript(_) => {},
        }
    }

    pub fn arrow_right(&mut self)
        requires
            old(self).wf(),
        ensures
            final(self).wf(),
            final(self)@ == old(self)@.arrow_right(),
            final(self).window() == old(self).window(),
    {
        match self {
            App::TextEditor(text_editor) => text_editor.arrow_right(),
            App::Explorer(explorer) => explorer.arrow_right(),
            App::RunningScript(_) => {},
        }
    }

    pub fn arrow_up(&mut self)
        requires
            old(self).wf(),
        ensures
            final(self).wf(),
            final(self)@ == old(self)@.arrow_up(),
            final(self).window() == old(self).window(),
    {
        match self {
            App::TextEditor(text_editor) => text_editor.arrow_up(),
            App::Explorer(explorer) => explorer.arrow_up(),
            App::RunningScript(_) => {},
        }
    }

    pub fn arrow_down(&mut self)
        requires
            old(self).wf(),
        ensures
            final(self).wf(),
            final(self)@ == old(self)@.arrow_down(),
            final(self).window() == old(self).window(),
    {
        match self {
            App::TextEditor(text_editor) => text_editor.arrow_down(),
            App::Explorer(explorer) => explorer.arrow_down(),
            App::RunningScript(_) => {},
        }
    }

    /// The Enter key. It never asks for a file.
    pub fn newline(&mut self) -> (open: Option<Open>)
        requires
            old(self).wf(),
        ensures
            final(self).wf(),
            final(self)@ == old(self)@.newline(),
            final(self).window() == old(self).window(),
            open is None,
    {
        match self {
            App::TextEditor(text_editor) => text_editor.newline(),
            App::Explorer(_) => {},
            App::RunningScript(running_script) => running_script.input('\n'),
        }
        None
    }

    /// The Backspace key. It never asks for a file.
    pub fn backspace(&mut self) -> (open: Option<Open>)
        requires
            old(self).wf(),
        ensures
            final(self).wf(),
            final(self)@ == old(self)@.backspace(),
            final(self).window() == old(self).window(),
            open is None,
    {
        match self {
            App::TextEditor(text_editor) => text_editor.backspace(),
            App::Explorer(_) => {},
            App::RunningScript(running_script) => running_script.input('\u{8}'),
        }
        None
    }

    /// A character key. In the browser, `e` and `r` ask for the selected file, to be edited
    /// or run, where its name is UTF-8.
    pub fn insert_char(&mut self, c: char) -> (open: Option<Open>)
        requires
            old(self).wf(),
        ensures
            final(self).wf(),
            final(self)@ == old(self)@.insert_char(c),
            final(self).window() == old(self).window(),
            open is Some <==> old(self)@.opens(c),
            open matches Some(o) ==> o.name.wf() && o.name@ == old(self)@.selected_name() && o.run
                == (c == 'r'),
    {
        match self {
            App::TextEditor(text_editor) => {
                text_editor.insert_char(c);
                None
            },
            App::Explorer(explorer) => {
                if c == 'r' || c == 'e' {
                    let name = explorer.name();
                    if is_utf8(name.as_slice()) {
                        Some(Open { name, run: c == 'r' })
                    } else {
                        None
                    }
                } else {
                    None
                }
            },
            App::RunningScript(running_script) => {
                running_script.input(c);
                None
            },
        }
    }

    /// The mode that the file `contents` opens in, in the pane `window`, with the writes
    /// that blank the pane for a script. A file that is to be run and is not UTF-8 opens
    /// in no mode.
    pub fn opened(window: Window, open: &Open, contents: &[u8]) -> (made: Option<(App, Vec<Cell>)>)
        requires
            window.wf(),
            open.name.wf(),
        ensures
            match Mode::opened(open.name@, open.run, contents@) {
                Some(mode) => {
                    &&& made matches Some(pair)
                    &&& pair.0@ == mode
                    &&& pair.0.window() == window
                    &&& pair.0.wf()
                    &&& mode is Editor ==> pair.1@.len() == 0
                    &&& mode is Script ==> {
                        &&& pair.1@.len() == window.spec_width() * window.spec_height()
                        &&& forall|x: int, y: int|
                            0 <= x < window.spec_width() && 0 <= y < window.spec_height()
                                ==> #[trigger] pair.1@[x * window.spec_height() + y]
                                == window.cell(BLANK, x, y, crate::screen::plain())
                    }
                },
                None => made is None,
            },
    {
        if open.run {
            if is_utf8(contents) {
                let (script, cells) = RunningScript::new(window, open.name);
                Some((App::RunningScript(script), cells))
            } else {
                None
            }
        } else {
            let mut text = TextEditor::new(window, open.name);
            text.replay(contents);
            Some((App::TextEditor(text), Vec::new()))
        }
    }

    /// The writes that show the mode in its pane. An editor first makes its display follow
    /// the cursor.
    pub fn draw(&mut self) -> (cells: Vec<Cell>)
        requires
            old(self).wf(),
        ensures
            final(self).wf(),
            final(self).window() == old(self).window(),
            final(self)@ == old(self)@.drawn(
                old(self).window().spec_width(),
                old(self).window().spec_height(),
            ),
            shows_mode(cells@, final(self).window(), final(self)@),
    {
        match self {
            App::TextEditor(text_editor) => text_editor.draw(),
            App::Explorer(explorer) => {
                let cells = explorer.draw();
                cells
            },
            App::RunningScript(running_script) => running_script.draw(),
        }
    }
}

} // verus!
