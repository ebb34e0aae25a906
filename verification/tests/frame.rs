use swim::frame::{decimal_digits, plots, Active, RenameBar, TaskManager};
use swim::screen::{Cell, Color, ColorCode};
use swim::text::ByteString;

fn gray() -> ColorCode {
    ColorCode::new(Color::LightGray, Color::Black)
}

fn green() -> ColorCode {
    ColorCode::new(Color::LightGreen, Color::Black)
}

fn four_titles() -> [Vec<u8>; 4] {
    [b"one".to_vec(), b"two".to_vec(), b"three".to_vec(), b"four".to_vec()]
}

fn text_at(cells: &[Cell]) -> Vec<(u8, usize, usize)> {
    cells.iter().map(|c| (c.ch, c.col, c.row)).collect()
}

#[test]
fn decimal_digits_of_numbers() {
    assert_eq!(decimal_digits(0), b"0".to_vec());
    assert_eq!(decimal_digits(7), b"7".to_vec());
    assert_eq!(decimal_digits(10), b"10".to_vec());
    assert_eq!(decimal_digits(12345), b"12345".to_vec());
    assert_eq!(decimal_digits(usize::MAX), usize::MAX.to_string().into_bytes());
}

#[test]
fn plots_writes_bytes_along_a_row() {
    let mut cells = Vec::new();
    plots(b"hi", 3, 5, None, gray(), &mut cells);
    assert_eq!(text_at(&cells), vec![(b'h', 3, 5), (b'i', 4, 5)]);
    assert!(cells.iter().all(|c| c.color == gray()));
}

#[test]
fn plots_stops_at_the_edge_of_the_display() {
    let mut cells = Vec::new();
    plots(b"hello", 78, 0, None, gray(), &mut cells);
    assert_eq!(text_at(&cells), vec![(b'h', 78, 0), (b'e', 79, 0)]);
    plots(b"x", 80, 0, None, gray(), &mut cells);
    assert_eq!(cells.len(), 2);
}

#[test]
fn plots_stops_at_its_limit() {
    let mut cells = vec![Cell { ch: b'#', col: 0, row: 0, color: green() }];
    plots(b"123456", 71, 3, Some(4), green(), &mut cells);
    assert_eq!(
        text_at(&cells),
        vec![(b'#', 0, 0), (b'1', 71, 3), (b'2', 72, 3), (b'3', 73, 3), (b'4', 74, 3)]
    );
    plots(b"ab", 0, 0, Some(0), green(), &mut cells);
    assert_eq!(cells.len(), 5);
}

#[test]
fn panes_are_numbered_row_by_row() {
    assert_eq!(Active::TopLeft.index(), 0);
    assert_eq!(Active::TopRight.index(), 1);
    assert_eq!(Active::BottomLeft.index(), 2);
    assert_eq!(Active::BottomRight.index(), 3);
    for i in 0..4 {
        assert_eq!(Active::from_index(i).index(), i);
    }
    assert_eq!(Active::from_index(9), Active::BottomRight);
}

#[test]
fn label_shows_key_and_title() {
    let mut cells = Vec::new();
    Active::TopRight.draw_label(&four_titles(), true, &mut cells);
    assert_eq!(
        text_at(&cells),
        vec![
            (b'F', 42, 1),
            (b'2', 43, 1),
            (0xc4, 44, 1),
            (0xc4, 45, 1),
            (b't', 46, 1),
            (b'w', 47, 1),
            (b'o', 48, 1),
        ]
    );
    let lit = ColorCode::new(Color::LightGreen, Color::DarkGray);
    assert!(cells.iter().all(|c| c.color == lit));
    let mut cells = Vec::new();
    Active::BottomLeft.draw_label(&four_titles(), false, &mut cells);
    assert_eq!(text_at(&cells)[0], (b'F', 8, 12));
    assert_eq!(text_at(&cells)[1], (b'3', 9, 12));
    assert_eq!(text_at(&cells)[4], (b't', 12, 12));
    assert_eq!(cells.len(), 9);
    assert!(cells.iter().all(|c| c.color == ColorCode::new(Color::LightGray, Color::DarkGray)));
}

#[test]
fn frame_of_the_upper_left_pane() {
    let mut cells = Vec::new();
    Active::TopLeft.draw(&four_titles(), true, &mut cells);
    let lit = ColorCode::new(Color::LightGreen, Color::DarkGray);
    let dim = ColorCode::new(Color::LightGray, Color::DarkGray);
    // 35 columns and 12 rows of line, own label, corners, label of the pane below
    assert_eq!(cells.len(), 70 + 24 + 7 + 4 + 9);
    assert_eq!(text_at(&cells[..4]), vec![(0xc4, 0, 1), (0xc4, 0, 12), (0xc4, 1, 1), (0xc4, 1, 12)]);
    assert_eq!(text_at(&cells[68..70]), vec![(0xc4, 34, 1), (0xc4, 34, 12)]);
    assert_eq!(text_at(&cells[70..74]), vec![(0xb3, 0, 1), (0xb3, 34, 1), (0xb3, 0, 2), (0xb3, 34, 2)]);
    assert_eq!(text_at(&cells[92..94]), vec![(0xb3, 0, 12), (0xb3, 34, 12)]);
    assert_eq!(text_at(&cells[94..96]), vec![(b'F', 8, 1), (b'1', 9, 1)]);
    assert_eq!(
        text_at(&cells[101..105]),
        vec![(0xda, 0, 1), (0xc3, 0, 12), (0xc2, 34, 1), (0xc5, 34, 12)]
    );
    assert!(cells[..105].iter().all(|c| c.color == lit));
    assert_eq!(text_at(&cells[105..107]), vec![(b'F', 8, 12), (b'3', 9, 12)]);
    assert!(cells[105..].iter().all(|c| c.color == dim));
}

#[test]
fn frame_of_the_lower_right_pane() {
    let mut cells = Vec::new();
    Active::BottomRight.draw(&four_titles(), false, &mut cells);
    // 35 columns and 13 rows of line, label, corners
    assert_eq!(cells.len(), 70 + 26 + 8 + 4);
    assert_eq!(text_at(&cells[..2]), vec![(0xc4, 34, 12), (0xc4, 34, 24)]);
    assert_eq!(text_at(&cells[94..96]), vec![(0xb3, 34, 24), (0xb3, 68, 24)]);
    assert_eq!(text_at(&cells[96..98]), vec![(b'F', 42, 12), (b'4', 43, 12)]);
    assert_eq!(
        text_at(&cells[104..]),
        vec![(0xc5, 34, 12), (0xc1, 34, 24), (0xb4, 68, 12), (0xd9, 68, 24)]
    );
    assert!(cells.iter().all(|c| c.col < 80 && c.row < 25));
}

#[test]
fn frames_of_the_other_panes_have_their_joints() {
    let mut cells = Vec::new();
    Active::TopRight.draw(&four_titles(), true, &mut cells);
    assert_eq!(cells.len(), 70 + 24 + 7 + 4 + 8);
    assert_eq!(
        text_at(&cells[101..105]),
        vec![(0xc2, 34, 1), (0xc5, 34, 12), (0xbf, 68, 1), (0xb4, 68, 12)]
    );
    assert_eq!(text_at(&cells[105..107]), vec![(b'F', 42, 12), (b'4', 43, 12)]);
    let mut cells = Vec::new();
    Active::BottomLeft.draw(&four_titles(), true, &mut cells);
    assert_eq!(cells.len(), 70 + 26 + 9 + 4);
    assert_eq!(
        text_at(&cells[105..]),
        vec![(0xc3, 0, 12), (0xc0, 0, 24), (0xc5, 34, 12), (0xc1, 34, 24)]
    );
}

#[test]
fn long_title_is_cut_at_the_edge_of_the_display() {
    let titles = [vec![b'x'; 64], vec![b'y'; 64], vec![], vec![]];
    let mut cells = Vec::new();
    Active::TopRight.draw_label(&titles, false, &mut cells);
    assert_eq!(cells.len(), 4 + 34);
    assert_eq!(cells.last().unwrap().col, 79);
    let mut cells = Vec::new();
    Active::TopLeft.draw_label(&titles, false, &mut cells);
    assert_eq!(cells.len(), 4 + 64);
    assert_eq!(cells.last().unwrap().col, 75);
}

#[test]
fn tick_counters_show_four_digits() {
    let cells = TaskManager.draw(&[0, 7, 123456, 42]);
    assert_eq!(cells.len(), 4 + 4 + 7 + 5);
    assert_eq!(
        text_at(&cells[..4]),
        vec![(b'F', 70, 0), (b'1', 71, 0), (0xc0, 70, 1), (b'0', 71, 1)]
    );
    assert_eq!(
        text_at(&cells[8..15]),
        vec![
            (b'F', 70, 4),
            (b'3', 71, 4),
            (0xc0, 70, 5),
            (b'1', 71, 5),
            (b'2', 72, 5),
            (b'3', 73, 5),
            (b'4', 74, 5),
        ]
    );
    assert_eq!(text_at(&cells[15..]), vec![
        (b'F', 70, 6),
        (b'4', 71, 6),
        (0xc0, 70, 7),
        (b'4', 71, 7),
        (b'2', 72, 7),
    ]);
    assert_eq!(cells[0].color, gray());
    assert_eq!(cells[2].color, gray());
    assert_eq!(cells[3].color, green());
}

#[test]
fn bar_shows_label_name_and_blanks() {
    let bar = RenameBar { name: ByteString::from_bytes(b"ab") };
    let cells = bar.draw(true);
    assert_eq!(cells.len(), 70);
    let bytes: Vec<u8> = cells.iter().map(|c| c.ch).collect();
    assert_eq!(&bytes[..17], b"F5 - Filename: ab");
    assert!(bytes[17..].iter().all(|b| *b == b' '));
    for (k, cell) in cells.iter().enumerate() {
        assert_eq!((cell.col, cell.row), (k, 0));
        assert_eq!(cell.color, if k < 15 { green() } else { gray() });
    }
    let cells = bar.draw(false);
    assert!(cells.iter().all(|c| c.color == gray()));
}

#[test]
fn bar_with_a_long_message_runs_past_the_panes() {
    let bar = RenameBar { name: ByteString::from_bytes(&[b'm'; 64]) };
    let cells = bar.draw(false);
    assert_eq!(cells.len(), 15 + 64);
    assert_eq!(cells.last().unwrap().col, 78);
    let bar = RenameBar { name: ByteString::from_bytes(&[b'm'; 55]) };
    assert_eq!(bar.draw(false).len(), 70);
    let bar = RenameBar { name: ByteString::from_bytes(&[b'm'; 56]) };
    assert_eq!(bar.draw(false).len(), 71);
}
