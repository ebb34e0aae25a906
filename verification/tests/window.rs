use swim::screen::{is_drawable, Cell, Color, ColorCode};
use swim::text::{byte_char, char_byte, ByteString};
use swim::window::Window;

#[test]
fn window_new_sets_the_corners() {
    let w = Window::new(1, 2, 33, 10);
    assert_eq!((w.x1, w.y1, w.x2, w.y2), (1, 2, 33, 11));
    assert_eq!(w.width(), 33);
    assert_eq!(w.height(), 10);
}

#[test]
fn window_of_one_cell() {
    let w = Window::new(7, 9, 1, 1);
    assert_eq!((w.x1, w.y1, w.x2, w.y2), (7, 9, 7, 9));
    assert_eq!(w.width(), 1);
    assert_eq!(w.height(), 1);
}

#[test]
fn window_may_span_all_256_columns_and_rows() {
    let w = Window::new(0, 0, 256, 256);
    assert_eq!((w.x1, w.y1, w.x2, w.y2), (0, 0, 255, 255));
    assert_eq!(w.width(), 256);
    assert_eq!(w.height(), 256);
}

#[test]
fn window_coordinates_are_kept_modulo_256() {
    let w = Window::new(300, 513, 10, 5);
    assert_eq!((w.x1, w.y1, w.x2, w.y2), (44, 1, 53, 5));
}

#[test]
fn plot_lands_in_the_pane() {
    let w = Window::new(5, 7, 4, 3);
    let color = ColorCode::new(Color::LightGreen, Color::DarkGray);
    let cell = w.plot('a', 2, 1, color);
    assert_eq!(cell, Some(Cell { ch: b'a', col: 7, row: 8, color }));
    let corner = w.plot('z', 3, 2, color).expect("a write");
    assert_eq!((corner.col, corner.row), (8, 9));
}

#[test]
fn plot_outside_the_pane_writes_nothing() {
    let w = Window::new(5, 7, 4, 3);
    let color = ColorCode::new(Color::LightGray, Color::Black);
    assert_eq!(w.plot('a', 4, 0, color), None);
    assert_eq!(w.plot('a', 0, 3, color), None);
    assert_eq!(w.plot('a', 255, 255, color), None);
    assert_eq!(w.plot('a', 251, 0, color), None);
    let whole = Window::new(0, 0, 256, 256);
    assert!(whole.plot('a', 255, 255, color).is_some());
    // a pane whose corners are out of order holds no cell
    let none = Window { x1: 9, y1: 0, x2: 3, y2: 5 };
    assert_eq!(none.plot('a', 0, 0, color), None);
}

#[test]
fn plot_to_appends_only_writes_in_the_pane() {
    let w = Window::new(5, 7, 4, 3);
    let color = ColorCode::new(Color::LightGray, Color::Black);
    let mut cells = Vec::new();
    w.plot_to(&mut cells, 'a', 0, 0, color);
    w.plot_to(&mut cells, 'b', 4, 0, color);
    w.plot_to(&mut cells, 'c', 3, 2, color);
    w.plot_to(&mut cells, 'd', 0, 9, color);
    assert_eq!(
        cells,
        vec![Cell { ch: b'a', col: 5, row: 7, color }, Cell { ch: b'c', col: 8, row: 9, color }]
    );
}

#[test]
fn plot_keeps_the_low_byte_of_the_character() {
    let w = Window::new(0, 0, 2, 2);
    let color = ColorCode::new(Color::LightGray, Color::Black);
    assert_eq!(w.plot('\u{141}', 0, 0, color).map(|c| c.ch), Some(0x41));
    assert_eq!(w.plot('\u{c4}', 0, 0, color).map(|c| c.ch), Some(0xc4));
}

#[test]
fn clear_blanks_every_cell_column_by_column() {
    let w = Window::new(10, 20, 2, 3);
    let cells = w.clear();
    let plain = ColorCode::new(Color::LightGray, Color::Black);
    let at: Vec<(usize, usize)> = cells.iter().map(|c| (c.col, c.row)).collect();
    assert_eq!(at, vec![(10, 20), (10, 21), (10, 22), (11, 20), (11, 21), (11, 22)]);
    assert!(cells.iter().all(|c| c.ch == b' ' && c.color == plain));
}

#[test]
fn drawable_characters_are_printable_ascii_in_the_low_byte() {
    assert!(is_drawable(' '));
    assert!(is_drawable('a'));
    assert!(is_drawable('~'));
    assert!(!is_drawable('\u{7f}'));
    assert!(!is_drawable('\u{1f}'));
    assert!(!is_drawable('\n'));
    assert!(!is_drawable('\u{8}'));
    assert!(!is_drawable('\u{e9}'));
    assert!(is_drawable('\u{141}'));
    assert!(!is_drawable('\u{11f}'));
}

#[test]
fn low_byte_of_a_character_and_back() {
    assert_eq!(char_byte('A'), 0x41);
    assert_eq!(char_byte('\u{e9}'), 0xe9);
    assert_eq!(char_byte('\u{1f600}'), 0x00);
    assert_eq!(byte_char(0x41), 'A');
    assert_eq!(byte_char(0xe9), '\u{e9}');
    for b in 0..=255u8 {
        assert_eq!(char_byte(byte_char(b)), b);
    }
}

#[test]
fn byte_string_appends_until_full() {
    let mut s: ByteString<4> = ByteString::new();
    assert_eq!(s.len(), 0);
    s.push(b'a');
    s.push_char('b');
    s.push_all(b"cdef");
    assert_eq!(s.to_vec(), b"abcd".to_vec());
    assert_eq!(s.len(), 4);
    s.push(b'x');
    s.push_char('y');
    s.push_str("z");
    assert_eq!(s.as_slice(), b"abcd");
    assert_eq!(s.byte(2), b'c');
}

#[test]
fn byte_string_from_bytes_keeps_the_start() {
    let s: ByteString<10> = ByteString::from_bytes(b"hello");
    assert_eq!(s.to_vec(), b"hello".to_vec());
    let t: ByteString<3> = ByteString::from_bytes(b"hello");
    assert_eq!(t.to_vec(), b"hel".to_vec());
}

#[test]
fn byte_string_clear_and_reuse() {
    let mut s: ByteString<8> = ByteString::from_bytes(b"old text");
    s.clear();
    assert_eq!(s.len(), 0);
    s.push_str("new");
    s.push_char('\u{141}');
    assert_eq!(s.to_vec(), vec![b'n', b'e', b'w', 0x41]);
}
