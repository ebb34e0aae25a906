use vstd::prelude::*;
use vstd::string::StringSliceAdditionalSpecFns;
use crate::screen::{plain, Cell, Color, ColorCode, BLANK, BUFFER_WIDTH};

verus! {

/// Columns at the right edge of the display that show the tick counters.
pub const TASK_MANAGER_WIDTH: usize = 10;

/// Columns that the panes and their frames take: the display without the tick counters.
pub const WIN_REGION_WIDTH: usize = 70;

/// Width of a pane: half of the region, without the three frame columns.
pub const WIN_WIDTH: usize = 33;

/// Height of the upper panes: half of the display rows, without the bar and the three
/// frame rows.
pub const HEIGHT_UP: usize = 10;

/// Height of the lower panes: the rows that the upper panes leave.
pub const HEIGHT_DOWN: usize = 11;

/// Column of the frame line between the left and the right panes.
pub const MIDDLE_X: usize = 34;

/// Row of the frame line between the upper and the lower panes.
pub const MIDDLE_Y: usize = 12;

/// Column of the frame line at the right of the right panes.
pub const RIGHT_X: usize = 68;

/// Row of the frame line below the lower panes.
pub const BOTTOM_Y: usize = 24;

/// The four panes by their place on the display.
#[derive(Clone, Copy, Debug, PartialEq, Eq, Structural)]
pub enum Active {
    TopLeft,
    TopRight,
    BottomLeft,
    BottomRight,
}

/// The write of byte `ch` at column `col` of row `row`.
pub open spec fn put(ch: u8, col: int, row: int, color: ColorCode) -> Cell {
    Cell { ch, col: col as usize, row: row as usize, color }
}

/// The colours of a frame: light green for the pane that has the keyboard, light gray for
/// the others, on dark gray.
pub open spec fn frame_color(active: bool) -> ColorCode {
    ColorCode {
        foreground: if active {
            Color::LightGreen
        } else {
            Color::LightGray
        },
        background: Color::DarkGray,
    }
}

/// Light green on black: what is live.
pub open spec fn green() -> ColorCode {
    ColorCode { foreground: Color::LightGreen, background: Color::Black }
}

/// How many bytes of a text of `len` bytes are written from column `x` on: as many as the
/// limit says, or, without a limit, as many as the row has room for.
pub open spec fn plotted_len(len: int, x: int, limit: Option<int>) -> int {
    let most = match limit {
        Some(l) => l,
        None => BUFFER_WIDTH - x,
    };
    if len <= most {
        len
    } else {
        most
    }
}

/// The writes that show the text `s` from column `x` of row `y` on, one byte to a cell.
pub open spec fn plotted(s: Seq<u8>, x: int, y: int, limit: Option<int>, color: ColorCode) -> Seq<
    Cell,
> {
    Seq::new(plotted_len(s.len() as int, x, limit) as nat, |i: int| put(s[i], x + i, y, color))
}

/// Appends the writes that show `s` from column `x` of row `y` on.
pub fn plots(
    s: &[u8],
    x: usize,
    y: usize,
    limit: Option<usize>,
    color: ColorCode,
    cells: &mut Vec<Cell>,
)
    requires
        x <= BUFFER_WIDTH,
        limit matches Some(l) ==> x + l <= usize::MAX,
    ensures
        final(cells)@ == old(cells)@ + plotted(
            s@,
            x as int,
            y as int,
            match limit {
                Some(l) => Some(l as int),
                None => None,
            },
            color,
        ),
{
    let most = match limit {
        Some(l) => l,
        None => BUFFER_WIDTH - x,
    };
    let count = if s.len() <= most {
        s.len()
    } else {
        most
    };
    let ghost lim = match limit {
        Some(l) => Some(l as int),
        None => None,
    };
    let ghost goal = plotted(s@, x as int, y as int, lim, color);
    let mut i: usize = 0;
    while i < count
        invariant
            i <= count <= s@.len(),
            x + count <= usize::MAX,
            goal == plotted(s@, x as int, y as int, lim, color),
            goal.len() == count,
            cells@ == old(cells)@ + goal.take(i as int),
        decreases count - i,
    {
        cells.push(Cell { ch: s[i], col: x + i, row: y, color });
        assert(cells@ =~= old(cells)@ + goal.take(i + 1));
        i += 1;
    }
    assert(cells@ =~= old(cells)@ + goal);
}

/// The decimal digits of `n`, as ASCII bytes.
pub open spec fn decimal(n: nat) -> Seq<u8>
    decreases n,
{
    if n < 10 {
        seq![(0x30 + n) as u8]
    } else {
        decimal(n / 10).push((0x30 + n % 10) as u8)
    }
}

/// The decimal digits of `n`.
pub fn decimal_digits(n: usize) -> (digits: Vec<u8>)
    ensures
        digits@ == decimal(n as nat),
    decreases n,
{
    if n < 10 {
        let mut digits: Vec<u8> = Vec::new();
        digits.push(0x30 + n as u8);
        assert(digits@ =~= decimal(n as nat));
        digits
    } else {
        let mut digits = decimal_digits(n / 10);
        digits.push(0x30 + (n % 10) as u8);
        digits
    }
}

impl Active {
    /// The number of the pane: 0 to 3, row by row.
    pub open spec fn spec_index(self) -> int {
        match self {
            Active::TopLeft => 0,
            Active::TopRight => 1,
            Active::BottomLeft => 2,
            Active::BottomRight => 3,
        }
    }

    pub fn index(self) -> (i: usize)
        ensures
            i == self.spec_index(),
            i < 4,
    {
        match self {
            Active::TopLeft => 0,
            Active::TopRight => 1,
            Active::BottomLeft => 2,
            Active::BottomRight => 3,
        }
    }

    /// The pane with number `i`.
    pub open spec fn spec_from_index(i: int) -> Active {
        if i == 0 {
            Active::TopLeft
        } else if i == 1 {
            Active::TopRight
        } else if i == 2 {
            Active::BottomLeft
        } else {
            Active::BottomRight
        }
    }

    pub fn from_index(i: usize) -> (slot: Active)
        ensures
            slot == Self::spec_from_index(i as int),
            i < 4 ==> slot.spec_index() == i,
    {
        if i == 0 {
            Active::TopLeft
        } else if i == 1 {
            Active::TopRight
        } else if i == 2 {
            Active::BottomLeft
        } else {
            Active::BottomRight
        }
    }

    /// Column of the frame's left line.
    pub open spec fn left(self) -> int {
        match self {
            Active::TopLeft | Active::BottomLeft => 0,
            _ => MIDDLE_X as int,
        }
    }

    /// Column of the frame's right line.
    pub open spec fn right(self) -> int {
        match self {
            Active::TopLeft | Active::BottomLeft => MIDDLE_X as int,
            _ => RIGHT_X as int,
        }
    }

    /// Row of the frame's upper line.
    pub open spec fn top(self) -> int {
        match self {
            Active::TopLeft | Active::TopRight => 1,
            _ => MIDDLE_Y as int,
        }
    }

    /// Row of the frame's lower line.
    pub open spec fn bottom(self) -> int {
        match self {
            Active::TopLeft | Active::TopRight => MIDDLE_Y as int,
            _ => BOTTOM_Y as int,
        }
    }

    /// Column where the frame's label starts.
    pub open spec fn label_x(self) -> int {
        match self {
            Active::TopLeft | Active::BottomLeft => 8,
            _ => 42,
        }
    }

    /// The key of the pane and two pieces of line: what the label starts with.
    pub open spec fn tag(self) -> Seq<u8> {
        seq![0x46u8, (0x31 + self.spec_index()) as u8, 0xC4u8, 0xC4u8]
    }

    /// The writes of the frame's label: the tag, and behind it the title of the pane.
    pub open spec fn label_cells(self, titles: Seq<Seq<u8>>, active: bool) -> Seq<Cell> {
        plotted(self.tag(), self.label_x(), self.top(), None, frame_color(active)) + plotted(
            titles[self.spec_index()],
            self.label_x() + 4,
            self.top(),
            None,
            frame_color(active),
        )
    }

    /// The writes of the frame's lines: the upper and the lower line, column by column,
    /// then the left and the right line, row by row.
    pub open spec fn line_cells(self, active: bool) -> Seq<Cell> {
        self.across_cells(active) + self.down_cells(active)
    }

    /// The writes of the upper and the lower line, column by column.
    pub open spec fn across_cells(self, active: bool) -> Seq<Cell> {
        Seq::new(
            (2 * (self.right() - self.left() + 1)) as nat,
            |k: int|
                put(
                    0xC4,
                    self.left() + k / 2,
                    if k % 2 == 0 {
                        self.top()
                    } else {
                        self.bottom()
                    },
                    frame_color(active),
                ),
        )
    }

    /// The writes of the left and the right line, row by row.
    pub open spec fn down_cells(self, active: bool) -> Seq<Cell> {
        Seq::new(
            (2 * (self.bottom() - self.top() + 1)) as nat,
            |k: int|
                put(
                    0xB3,
                    if k % 2 == 0 {
                        self.left()
                    } else {
                        self.right()
                    },
                    self.top() + k / 2,
                    frame_color(active),
                ),
        )
    }

    /// The four bytes that join this frame to its neighbours, from the upper left corner
    /// down and then from the upper right corner down.
    pub open spec fn joints(self) -> Seq<u8> {
        match self {
            Active::TopLeft => seq![0xDAu8, 0xC3u8, 0xC2u8, 0xC5u8],
            Active::TopRight => seq![0xC2u8, 0xC5u8, 0xBFu8, 0xB4u8],
            Active::BottomLeft => seq![0xC3u8, 0xC0u8, 0xC5u8, 0xC1u8],
            Active::BottomRight => seq![0xC5u8, 0xC1u8, 0xB4u8, 0xD9u8],
        }
    }

    /// The writes of the frame's corners.
    pub open spec fn corner_cells(self, active: bool) -> Seq<Cell> {
        seq![
            put(self.joints()[0], self.left(), self.top(), frame_color(active)),
            put(self.joints()[1], self.left(), self.bottom(), frame_color(active)),
            put(self.joints()[2], self.right(), self.top(), frame_color(active)),
            put(self.joints()[3], self.right(), self.bottom(), frame_color(active)),
        ]
    }

    /// The pane below, for the upper panes.
    pub open spec fn below(self) -> Option<Active> {
        match self {
            Active::TopLeft => Some(Active::BottomLeft),
            Active::TopRight => Some(Active::BottomRight),
            _ => None,
        }
    }

    /// The writes that draw the frame of the pane: its lines, its label, its corners,
    /// and, because the lower line of an upper pane runs over it, the label of the pane
    /// below, in the colours of a pane without the keyboard.
    pub open spec fn frame_cells(self, titles: Seq<Seq<u8>>, active: bool) -> Seq<Cell> {
        self.line_cells(active) + self.label_cells(titles, active) + self.corner_cells(active)
            + match self.below() {
            Some(lower) => lower.label_cells(titles, false),
            None => Seq::<Cell>::empty(),
        }
    }

    fn corners(self) -> (c: (usize, usize, usize, usize))
        ensures
            c.0 == self.left(),
            c.1 == self.top(),
            c.2 == self.right(),
            c.3 == self.bottom(),
    {
        match self {
            Active::TopLeft => (0, 1, MIDDLE_X, MIDDLE_Y),
            Active::TopRight => (MIDDLE_X, 1, RIGHT_X, MIDDLE_Y),
            Active::BottomLeft => (0, MIDDLE_Y, MIDDLE_X, BOTTOM_Y),
            Active::BottomRight => (MIDDLE_X, MIDDLE_Y, RIGHT_X, BOTTOM_Y),
        }
    }

    /// Appends the writes of the frame's label.
    pub fn draw_label(self, titles: &[Vec<u8>; 4], active: bool, cells: &mut Vec<Cell>)
        requires
            forall|i: int| 0 <= i < 4 ==> (#[trigger] titles[i])@.len() <= 64,
        ensures
            final(cells)@ == old(cells)@ + self.label_cells(title_seq(titles), active),
    {
        let color = ColorCode::new(
            if active {
                Color::LightGreen
            } else {
                Color::LightGray
            },
            Color::DarkGray,
        );
        let (x1, y1, x2, y2) = self.corners();
        let x: usize = match self {
            Active::TopLeft | Active::BottomLeft => 8,
            _ => 42,
        };
        let tag: [u8; 4] = [0x46, 0x31 + self.index() as u8, 0xC4, 0xC4];
        assert(tag@ =~= self.tag());
        let ghost before = cells@;
        plots(tag.as_slice(), x, y1, None, color, cells);
        let i = self.index();
        assert(titles[i as int]@.len() <= 64);
        plots(titles[i].as_slice(), x + 4, y1, None, color, cells);
        assert(cells@ =~= before + self.label_cells(title_seq(titles), active));
    }

    /// Appends the writes of the upper and the lower line.
    fn draw_across(self, active: bool, cells: &mut Vec<Cell>)
        ensures
            final(cells)@ == old(cells)@ + self.across_cells(active),
    {
        let (x1, y1, x2, y2) = self.corners();
        let color = ColorCode::new(
            if active {
                Color::LightGreen
            } else {
                Color::LightGray
            },
            Color::DarkGray,
        );
        let ghost across = self.across_cells(active);
        let mut col: usize = x1;
        while col <= x2
            invariant
                x1 == self.left(),
                y1 == self.top(),
                x2 == self.right(),
                y2 == self.bottom(),
                color == frame_color(active),
                x1 <= col <= x2 + 1,
                across == self.across_cells(active),
                cells@ == old(cells)@ + across.take(2 * (col - x1)),
            decreases x2 + 1 - col,
        {
            cells.push(Cell { ch: 0xC4, col, row: y1, color });
            cells.push(Cell { ch: 0xC4, col, row: y2, color });
            proof {
                let k = 2 * (col - x1);
                assert(across[k] == put(0xC4, col as int, y1 as int, color));
                assert(across[k + 1] == put(0xC4, col as int, y2 as int, color));
                assert(cells@ =~= old(cells)@ + across.take(k + 2));
            }
            col += 1;
        }
        assert(across.take(2 * (x2 + 1 - x1)) =~= across);
    }

    /// Appends the writes of the left and the right line.
    fn draw_down(self, active: bool, cells: &mut Vec<Cell>)
        ensures
            final(cells)@ == old(cells)@ + self.down_cells(active),
    {
        let (x1, y1, x2, y2) = self.corners();
        let color = ColorCode::new(
            if active {
                Color::LightGreen
            } else {
                Color::LightGray
            },
            Color::DarkGray,
        );
        let ghost down = self.down_cells(active);
        let mut row: usize = y1;
        while row <= y2
            invariant
                x1 == self.left(),
                y1 == self.top(),
                x2 == self.right(),
                y2 == self.bottom(),
                color == frame_color(active),
                y1 <= row <= y2 + 1,
                down == self.down_cells(active),
                cells@ == old(cells)@ + down.take(2 * (row - y1)),
            decreases y2 + 1 - row,
        {
            cells.push(Cell { ch: 0xB3, col: x1, row, color });
            cells.push(Cell { ch: 0xB3, col: x2, row, color });
            proof {
                let k = 2 * (row - y1);
                assert(down[k] == put(0xB3, x1 as int, row as int, color));
                assert(down[k + 1] == put(0xB3, x2 as int, row as int, color));
                assert(cells@ =~= old(cells)@ + down.take(k + 2));
            }
            row += 1;
        }
        assert(down.take(2 * (y2 + 1 - y1)) =~= down);
    }

    /// Appends the writes of the frame's corners.
    fn draw_corners(self, active: bool, cells: &mut Vec<Cell>)
        ensures
            final(cells)@ == old(cells)@ + self.corner_cells(active),
    {
        let (x1, y1, x2, y2) = self.corners();
        let color = ColorCode::new(
            if active {
                Color::LightGreen
            } else {
                Color::LightGray
            },
            Color::DarkGray,
        );
        let joints: [u8; 4] = match self {
            Active::TopLeft => [0xDA, 0xC3, 0xC2, 0xC5],
            Active::TopRight => [0xC2, 0xC5, 0xBF, 0xB4],
            Active::BottomLeft => [0xC3, 0xC0, 0xC5, 0xC1],
            Active::BottomRight => [0xC5, 0xC1, 0xB4, 0xD9],
        };
        assert(joints@ =~= self.joints());
        cells.push(Cell { ch: joints[0], col: x1, row: y1, color });
        cells.push(Cell { ch: joints[1], col: x1, row: y2, color });
        cells.push(Cell { ch: joints[2], col: x2, row: y1, color });
        cells.push(Cell { ch: joints[3], col: x2, row: y2, color });
        assert(cells@ =~= old(cells)@ + self.corner_cells(active));
    }

    /// Appends the writes that draw the frame of the pane.
    pub fn draw(self, titles: &[Vec<u8>; 4], active: bool, cells: &mut Vec<Cell>)
        requires
            forall|i: int| 0 <= i < 4 ==> (#[trigger] titles[i])@.len() <= 64,
        ensures
            final(cells)@ == old(cells)@ + self.frame_cells(title_seq(titles), active),
    {
        let ghost before = cells@;
        self.draw_across(active, cells);
        self.draw_down(active, cells);
        self.draw_label(titles, active, cells);
        self.draw_corners(active, cells);
        let ghost cornered = cells@;
        match self {
            Active::TopLeft => {
                // the lower line runs over the label of the pane below
                Active::BottomLeft.draw_label(titles, false, cells);
            },
            Active::TopRight => {
                Active::BottomRight.draw_label(titles, false, cells);
            },
            _ => {
                assert(cells@ =~= cornered + Seq::<Cell>::empty());
            },
        }
        assert(cells@ =~= before + self.frame_cells(title_seq(titles), active));
    }
}

/// The titles of the four panes, as byte sequences.
pub open spec fn title_seq(titles: &[Vec<u8>; 4]) -> Seq<Seq<u8>> {
    Seq::new(4, |i: int| titles[i]@)
}

/// The writes of one tick counter: the key of its pane, a corner, and the first four
/// digits of the count.
pub open spec fn counter_cells(slot: int, count: nat) -> Seq<Cell> {
    seq![
        put(0x46, WIN_REGION_WIDTH as int, 2 * slot, plain()),
        put((0x31 + slot) as u8, WIN_REGION_WIDTH + 1, 2 * slot, plain()),
        put(0xC0, WIN_REGION_WIDTH as int, 2 * slot + 1, plain()),
    ] + plotted(decimal(count), WIN_REGION_WIDTH + 1, 2 * slot + 1, Some(4), green())
}

/// The writes of the four tick counters, one below the other.
pub open spec fn task_cells(ticks: Seq<int>) -> Seq<Cell> {
    counter_cells(0, ticks[0] as nat) + counter_cells(1, ticks[1] as nat) + counter_cells(
        2,
        ticks[2] as nat,
    ) + counter_cells(3, ticks[3] as nat)
}

/// The tick counters at the right edge of the display.
pub struct TaskManager;

impl TaskManager {
    /// The writes that show the tick counters.
    pub fn draw(&self, ticks: &[usize; 4]) -> (cells: Vec<Cell>)
        ensures
            cells@ == task_cells(Seq::new(4, |i: int| ticks[i] as int)),
    {
        let color = ColorCode::new(Color::LightGray, Color::Black);
        let color_alt = ColorCode::new(Color::LightGreen, Color::Black);
        let mut cells: Vec<Cell> = Vec::new();
        let ghost counts = Seq::new(4, |i: int| ticks[i] as int);
        let mut slot: usize = 0;
        while slot < 4
            invariant
                slot <= 4,
                color == plain(),
                color_alt == green(),
                counts == Seq::new(4, |i: int| ticks[i] as int),
                cells@ == tasks_upto(counts, slot as int),
            decreases 4 - slot,
        {
            let ghost before = cells@;
            cells.push(Cell { ch: 0x46, col: WIN_REGION_WIDTH, row: 2 * slot, color });
            cells.push(
                Cell { ch: 0x31 + slot as u8, col: WIN_REGION_WIDTH + 1, row: 2 * slot, color },
            );
            cells.push(Cell { ch: 0xC0, col: WIN_REGION_WIDTH, row: 2 * slot + 1, color });
            let digits = decimal_digits(ticks[slot]);
            plots(digits.as_slice(), WIN_REGION_WIDTH + 1, 2 * slot + 1, Some(4), color_alt, &mut cells);
            assert(cells@ =~= before + counter_cells(slot as int, counts[slot as int] as nat));
            slot += 1;
        }
        proof {
            reveal_with_fuel(tasks_upto, 5);
            assert(tasks_upto(counts, 4) =~= task_cells(counts));
        }
        cells
    }
}

/// The writes of the first `n` tick counters.
pub open spec fn tasks_upto(ticks: Seq<int>, n: int) -> Seq<Cell>
    decreases n,
{
    if n <= 0 {
        Seq::<Cell>::empty()
    } else {
        tasks_upto(ticks, n - 1) + counter_cells(n - 1, ticks[n - 1] as nat)
    }
}

/// The writes of the bar in the first row of the display: a label, light green while a
/// name is being typed, the name or message, and blanks up to the tick counters.
pub open spec fn bar_cells(name: Seq<u8>, editing: bool) -> Seq<Cell> {
    let label = "F5 - Filename: ".spec_bytes();
    plotted(
        label,
        0,
        0,
        None,
        if editing {
            green()
        } else {
            plain()
        },
    ) + plotted(name, label.len() as int, 0, None, plain()) + Seq::new(
        if label.len() + name.len() <= WIN_REGION_WIDTH {
            (WIN_REGION_WIDTH - label.len() - name.len()) as nat
        } else {
            0
        },
        |i: int| put(BLANK, label.len() + name.len() + i, 0, plain()),
    )
}

/// The bar that shows the file name being typed, or a message.
pub struct RenameBar {
    pub name: crate::text::ByteString<64>,
}

impl RenameBar {
    /// The writes that show the bar.
    pub fn draw(&self, active: bool) -> (cells: Vec<Cell>)
        requires
            self.name.wf(),
        ensures
            cells@ == bar_cells(self.name@, active),
    {
        let color = ColorCode::new(Color::LightGray, Color::Black);
        let green = ColorCode::new(Color::LightGreen, Color::Black);
        let label = "F5 - Filename: ".as_bytes();
        proof {
            reveal_strlit("F5 - Filename: ");
            vstd::string::is_ascii_spec_bytes("F5 - Filename: ");
            assert(vstd::string::is_ascii("F5 - Filename: "));
            assert(label@.len() == 15);
            self.name.lemma_len_bounded();
        }
        let mut cells: Vec<Cell> = Vec::new();
        plots(
            label,
            0,
            0,
            None,
            if active {
                green
            } else {
                color
            },
            &mut cells,
        );
        let name = self.name.as_slice();
        plots(name, label.len(), 0, None, color, &mut cells);
        let ghost written = cells@;
        let start = label.len() + name.len();
        let ghost blanks = Seq::new(
            if start <= WIN_REGION_WIDTH {
                (WIN_REGION_WIDTH - start) as nat
            } else {
                0
            },
            |i: int| put(BLANK, start + i, 0, plain()),
        );
        let mut i: usize = start;
        while i < WIN_REGION_WIDTH
            invariant
                start <= i,
                color == plain(),
                i <= WIN_REGION_WIDTH || i == start,
                blanks.len() == if start <= WIN_REGION_WIDTH {
                    WIN_REGION_WIDTH - start
                } else {
                    0
                },
                forall|k: int| 0 <= k < blanks.len() ==> #[trigger] blanks[k] == put(BLANK, start + k, 0, plain()),
                cells@ == written + blanks.take(i - start),
            decreases WIN_REGION_WIDTH - i,
        {
            cells.push(Cell { ch: BLANK, col: i, row: 0, color });
            assert(cells@ =~= written + blanks.take(i + 1 - start));
            i += 1;
        }
        assert(cells@ =~= written + blanks);
        assert(cells@ =~= bar_cells(self.name@, active));
        cells
    }
}

} // verus!
