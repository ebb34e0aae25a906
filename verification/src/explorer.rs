use vstd::prelude::*;
use crate::screen::{inverse, plain, Cell, Color, ColorCode};
use crate::text::{byte_char, ByteString};
use crate::window::Window;

verus! {

/// Most bytes of a file name.
pub const MAX_FILENAME_BYTES: usize = 10;

/// Most files that a directory lists: a grid of three columns and ten rows.
pub const MAX_FILES_STORED: usize = 30;

/// Columns of the file grid.
pub const GRID_COLS: usize = 3;

/// Rows of the file grid.
pub const GRID_ROWS: usize = 10;

/// The bytes of a directory entry that come before its first zero byte.
pub open spec fn name_of(entry: Seq<u8>) -> Seq<u8>
    decreases entry.len(),
{
    if entry.len() == 0 || entry[0] == 0 {
        Seq::<u8>::empty()
    } else {
        seq![entry[0]] + name_of(entry.skip(1))
    }
}

/// The name of an entry is the entry's start, up to a zero byte or the entry's end.
pub proof fn lemma_name_of(entry: Seq<u8>, end: int)
    requires
        0 <= end <= entry.len(),
        forall|j: int| 0 <= j < end ==> entry[j] != 0,
        end < entry.len() ==> entry[end] == 0,
    ensures
        name_of(entry) == entry.take(end),
    decreases entry.len(),
{
    if entry.len() == 0 || entry[0] == 0 {
        assert(entry.take(end) =~= Seq::<u8>::empty());
    } else {
        let rest = entry.skip(1);
        assert forall|j: int| 0 <= j < end - 1 implies rest[j] != 0 by {
            assert(rest[j] == entry[j + 1]);
        }
        lemma_name_of(rest, end - 1);
        assert(entry.take(end) =~= seq![entry[0]] + rest.take(end - 1));
    }
}

/// Where the selection goes with each arrow key, in a grid of three columns that holds
/// `num_files` entries.
pub open spec fn clamp_selection(selected: int, num_files: int) -> int {
    if selected < num_files {
        selected
    } else if num_files > 0 {
        num_files - 1
    } else {
        0
    }
}

pub open spec fn selection_left(selected: int) -> int {
    if selected % 3 >= 1 {
        selected - 1
    } else {
        selected
    }
}

pub open spec fn selection_right(selected: int, num_files: int) -> int {
    clamp_selection(
        if selected % 3 < 2 {
            selected + 1
        } else {
            selected
        },
        num_files,
    )
}

pub open spec fn selection_up(selected: int) -> int {
    if selected >= 3 {
        selected - 3
    } else {
        selected
    }
}

pub open spec fn selection_down(selected: int, num_files: int) -> int {
    clamp_selection(selected + 3, num_files)
}

/// The write for byte `ci` of entry `idx` of a file grid: each entry has a field of ten
/// cells, three fields to a row, and the selected entry stands in inverse colours.
pub open spec fn grid_cell(
    window: Window,
    entries: Seq<Seq<u8>>,
    selected: int,
    idx: int,
    ci: int,
) -> Cell {
    window.cell(
        entries[idx][ci],
        (idx % 3) * MAX_FILENAME_BYTES + ci,
        idx / 3,
        if idx == selected {
            inverse()
        } else {
            plain()
        },
    )
}

/// A file browser: the entries of a directory in a grid, one of them selected.
pub struct Explorer {
    selected: usize,
    num_files: usize,
    names: [[u8; 10]; 30],
    window: Window,
}

impl Explorer {
    pub closed spec fn spec_selected(&self) -> usize {
        self.selected
    }

    pub closed spec fn spec_num_files(&self) -> usize {
        self.num_files
    }

    /// The directory's entries, each padded with zero bytes.
    pub closed spec fn entries(&self) -> Seq<Seq<u8>> {
        Seq::new(MAX_FILES_STORED as nat, |i: int| self.names[i]@)
    }

    pub closed spec fn spec_window(&self) -> Window {
        self.window
    }

    /// The selection is on an entry of the directory, or on the first cell of the grid when
    /// the directory is empty.
    pub open spec fn wf(&self) -> bool {
        &&& self.num_files() <= MAX_FILES_STORED
        &&& self.selected() == clamp_selection(self.selected() as int, self.num_files() as int)
    }

    /// The pane is large enough for the grid.
    pub open spec fn fits(window: Window) -> bool {
        &&& window.wf()
        &&& window.spec_width() >= GRID_COLS * MAX_FILENAME_BYTES
        &&& window.spec_height() >= GRID_ROWS
    }

    /// A browser for a directory of `num_files` entries, with the first entry selected.
    pub fn new(window: Window, num_files: usize, names: [[u8; 10]; 30]) -> (explorer: Explorer)
        requires
            num_files <= MAX_FILES_STORED,
        ensures
            explorer.wf(),
            explorer.selected() == 0,
            explorer.num_files() == num_files,
            explorer.window() == window,
            explorer.entries() == Seq::new(MAX_FILES_STORED as nat, |i: int| names[i]@),
    {
        Explorer { selected: 0, num_files, names, window }
    }

    #[verifier::when_used_as_spec(spec_selected)]
    pub fn selected(&self) -> (selected: usize)
        ensures
            selected == self.spec_selected(),
    {
        self.selected
    }

    #[verifier::when_used_as_spec(spec_num_files)]
    pub fn num_files(&self) -> (num_files: usize)
        ensures
            num_files == self.spec_num_files(),
    {
        self.num_files
    }

    #[verifier::when_used_as_spec(spec_window)]
    pub fn window(&self) -> (window: Window)
        ensures
            window == self.spec_window(),
    {
        self.window
    }

    /// The name of the selected entry.
    pub fn name(&self) -> (name: ByteString<MAX_FILENAME_BYTES>)
        requires
            self.wf(),
        ensures
            name.wf(),
            name@ == name_of(self.entries()[self.selected() as int]),
    {
        let mut a: ByteString<MAX_FILENAME_BYTES> = ByteString::new();
        let bytes = self.name_as_slice(self.selected);
        proof {
            lemma_name_len(self.entries()[self.selected() as int]);
        }
        a.push_all(bytes);
        a
    }

    /// The name of entry `i`: its bytes before the first zero byte.
    pub fn name_as_slice(&self, i: usize) -> (name: &[u8])
        requires
            i < MAX_FILES_STORED,
        ensures
            name@ == name_of(self.entries()[i as int]),
    {
        let mut end: usize = MAX_FILENAME_BYTES;
        let mut j: usize = 0;
        while j < MAX_FILENAME_BYTES
            invariant_except_break
                j <= MAX_FILENAME_BYTES,
                end == MAX_FILENAME_BYTES,
                forall|k: int| 0 <= k < j ==> self.names[i as int][k] != 0,
            invariant
                i < MAX_FILES_STORED,
            ensures
                end <= MAX_FILENAME_BYTES,
                forall|k: int| 0 <= k < end ==> self.names[i as int][k] != 0,
                end < MAX_FILENAME_BYTES ==> self.names[i as int][end as int] == 0,
            decreases MAX_FILENAME_BYTES - j,
        {
            if self.names[i][j] == 0 {
                end = j;
                break ;
            }
            j += 1;
        }
        proof {
            lemma_name_of(self.names[i as int]@, end as int);
        }
        vstd::slice::slice_subrange(self.names[i].as_slice(), 0, end)
    }

    /// The writes that show the grid: every entry's bytes in a field of its own, ten cells
    /// wide, the selected entry in inverse colours.
    pub fn draw(&self) -> (cells: Vec<Cell>)
        requires
            self.wf(),
            Self::fits(self.window()),
        ensures
            cells@.len() == MAX_FILES_STORED * MAX_FILENAME_BYTES,
            forall|k: int|
                0 <= k < cells@.len() ==> #[trigger] cells@[k] == grid_cell(
                    self.window(),
                    self.entries(),
                    self.selected() as int,
                    k / (MAX_FILENAME_BYTES as int),
                    k % (MAX_FILENAME_BYTES as int),
                ),
    {
        let mut cells: Vec<Cell> = Vec::new();
        let mut row: usize = 0;
        while row < GRID_ROWS
            invariant
                self.wf(),
                Self::fits(self.window()),
                row <= GRID_ROWS,
                cells@.len() == row * 30,
                forall|k: int|
                    0 <= k < cells@.len() ==> #[trigger] cells@[k] == grid_cell(
                        self.window(),
                        self.entries(),
                        self.selected() as int,
                        k / (MAX_FILENAME_BYTES as int),
                        k % (MAX_FILENAME_BYTES as int),
                    ),
            decreases GRID_ROWS - row,
        {
            let mut col: usize = 0;
            while col < GRID_COLS
                invariant
                    self.wf(),
                    Self::fits(self.window()),
                    row < GRID_ROWS,
                    col <= GRID_COLS,
                    cells@.len() == row * 30 + col * 10,
                    forall|k: int|
                        0 <= k < cells@.len() ==> #[trigger] cells@[k] == grid_cell(
                            self.window(),
                            self.entries(),
                            self.selected() as int,
                            k / (MAX_FILENAME_BYTES as int),
                            k % (MAX_FILENAME_BYTES as int),
                        ),
                decreases GRID_COLS - col,
            {
                let idx = row * 3 + col;
                let color = if idx == self.selected {
                    ColorCode::new(Color::Black, Color::LightGray)
                } else {
                    ColorCode::new(Color::LightGray, Color::Black)
                };
                let mut ci: usize = 0;
                while ci < MAX_FILENAME_BYTES
                    invariant
                        self.wf(),
                        Self::fits(self.window()),
                        row < GRID_ROWS,
                        col < GRID_COLS,
                        idx == row * 3 + col,
                        ci <= MAX_FILENAME_BYTES,
                        color == if idx == self.selected {
                            inverse()
                        } else {
                            plain()
                        },
                        cells@.len() == idx * 10 + ci,
                        forall|k: int|
                            0 <= k < cells@.len() ==> #[trigger] cells@[k] == grid_cell(
                                self.window(),
                                self.entries(),
                                self.selected() as int,
                                k / (MAX_FILENAME_BYTES as int),
                                k % (MAX_FILENAME_BYTES as int),
                            ),
                    decreases MAX_FILENAME_BYTES - ci,
                {
                    let ghost before = cells@;
                    self.window.plot_to(
                        &mut cells,
                        byte_char(self.names[idx][ci]),
                        (col * MAX_FILENAME_BYTES + ci) as u8,
                        row as u8,
                        color,
                    );
                    let ghost cell = cells@.last();
                    proof {
                        let k = idx * 10 + ci;
                        assert(k / 10 == idx && k % 10 == ci);
                        assert(idx % 3 == col && idx / 3 == row);
                        assert(cell == grid_cell(
                            self.window(),
                            self.entries(),
                            self.selected() as int,
                            idx as int,
                            ci as int,
                        ));
                        assert forall|m: int| 0 <= m < cells@.len() implies #[trigger] cells@[m]
                            == grid_cell(
                            self.window(),
                            self.entries(),
                            self.selected() as int,
                            m / (MAX_FILENAME_BYTES as int),
                            m % (MAX_FILENAME_BYTES as int),
                        ) by {
                            if m < k {
                                assert(cells@[m] == before[m]);
                            }
                        }
                    }
                    ci += 1;
                }
                col += 1;
            }
            row += 1;
        }
        cells
    }

    pub fn arrow_left(&mut self)
        requires
            old(self).wf(),
        ensures
            final(self).wf(),
            final(self).selected() == selection_left(old(self).selected() as int),
            final(self).num_files() == old(self).num_files(),
            final(self).entries() == old(self).entries(),
            final(self).window() == old(self).window(),
    {
        let column = self.selected % 3;
        if column >= 1 {
            self.selected = self.selected - 1;
        }
    }

    pub fn arrow_right(&mut self)
        requires
            old(self).wf(),
        ensures
            final(self).wf(),
            final(self).selected() == selection_right(
                old(self).selected() as int,
                old(self).num_files() as int,
            ),
            final(self).num_files() == old(self).num_files(),
            final(self).entries() == old(self).entries(),
            final(self).window() == old(self).window(),
    {
        let column = self.selected % 3;
        if column < 2 {
            self.selected = self.selected + 1;
        }
        self.clamp();
    }

    pub fn arrow_up(&mut self)
        requires
            old(self).wf(),
        ensures
            final(self).wf(),
            final(self).selected() == selection_up(old(self).selected() as int),
            final(self).num_files() == old(self).num_files(),
            final(self).entries() == old(self).entries(),
            final(self).window() == old(self).window(),
    {
        if self.selected >= 3 {
            self.selected -= 3;
        }
    }

    pub fn arrow_down(&mut self)
        requires
            old(self).wf(),
        ensures
            final(self).wf(),
            final(self).selected() == selection_down(
                old(self).selected() as int,
                old(self).num_files() as int,
            ),
            final(self).num_files() == old(self).num_files(),
            final(self).entries() == old(self).entries(),
            final(self).window() == old(self).window(),
    {
        self.selected += 3;
        self.clamp();
    }

    /// Brings a selection past the last entry back to the last entry.
    fn clamp(&mut self)
        requires
            old(self).num_files <= MAX_FILES_STORED,
        ensures
            final(self).selected == clamp_selection(
                old(self).selected as int,
                old(self).num_files as int,
            ),
            final(self).num_files == old(self).num_files,
            final(self).names == old(self).names,
            final(self).window == old(self).window,
    {
        if self.selected >= self.num_files {
            self.selected = if self.num_files > 0 {
                self.num_files - 1
            } else {
                0
            };
        }
    }
}

/// A name is no longer than its entry.
pub proof fn lemma_name_len(entry: Seq<u8>)
    ensures
        name_of(entry).len() <= entry.len(),
    decreases entry.len(),
{
    if entry.len() > 0 && entry[0] != 0 {
        lemma_name_len(entry.skip(1));
    }
}

} // verus!
